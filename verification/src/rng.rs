//! Randomness for the simulation: monster wits, drop rolls and spawn
//! sampling all draw bounded integers from the process-wide generator.

use vstd::prelude::*;

verus! {

/// Relies on `rand::random_range`: a sample from `lo..hi` drawn with the
/// thread-local generator. The call panics only on an empty range, and
/// every sample lies inside the range; nothing more is assumed of it.
#[verifier::external_body]
pub(crate) fn rand_range(lo: i64, hi: i64) -> (r: i64)
    requires
        lo < hi,
    ensures
        lo <= r < hi,
{
    rand::random_range(lo..hi)
}

} // verus!
