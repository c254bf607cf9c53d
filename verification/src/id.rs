//! Monotone entity id allocation. Every simulated object (tile, player,
//! monster, weapon) receives a distinct positive id from one allocator that
//! the top-level simulation threads through every constructor.

use vstd::prelude::*;

verus! {

/// Hands out strictly increasing positive ids; no two calls ever return the
/// same value.
#[derive(Clone, Copy)]
pub struct IdManager {
    current_id: i32,
}

impl IdManager {
    /// The last id handed out; ids start after 0.
    pub closed spec fn current(self) -> int {
        self.current_id as int
    }

    pub closed spec fn wf(self) -> bool {
        self.current_id >= 0
    }

    /// A well-formed allocator never holds a negative counter.
    pub proof fn lemma_wf_nonneg(self)
        requires
            self.wf(),
        ensures
            self.current() >= 0,
    {
    }

    pub fn new() -> (r: Self)
        ensures
            r.wf(),
            r.current() == 0,
    {
        IdManager { current_id: 0 }
    }

    pub fn get_new_id(&mut self) -> (r: i32)
        requires
            old(self).wf(),
            old(self).current() < i32::MAX,
        ensures
            final(self).wf(),
            r == old(self).current() + 1,
            final(self).current() == r,
            r >= 1,
    {
        self.current_id = self.current_id + 1;
        self.current_id
    }
}

} // verus!
