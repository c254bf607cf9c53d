//! Plane geometry over integer coordinates.
//!
//! World positions are plain `i64` units. An orientation is a fixed-point
//! unit vector [`Rot`]: its cosine and sine scaled by [`SCALE`]. Rotating a
//! point multiplies by the pair and divides by [`SCALE`] with truncation, so
//! every geometric operation here is exact integer arithmetic with one
//! explicit, specified rounding step. Distances are compared squared, which
//! needs no square root; [`isqrt`] provides the floor square root where a
//! plain length is wanted.

use vstd::prelude::*;
use vstd::arithmetic::div_mod::{
    lemma_div_is_ordered, lemma_div_multiples_vanish, lemma_div_nonincreasing,
    lemma_div_pos_is_pos,
};
use vstd::arithmetic::mul::lemma_mul_inequality;

verus! {

/// Fixed-point unit: a rotation stores its cosine and sine times this.
pub const SCALE: i64 = 65536;

/// Magnitude bound on world coordinates that enter the geometry; keeps every
/// product and squared distance comfortably inside `i64`.
pub const COORD_LIMIT: i64 = 1048576;

/// Magnitude bound on a rectangle's far corner or center, and on a moving
/// body's position after collision clamping.
pub const CENTER_LIMIT: i64 = 4194304;

/// Magnitude bound for derived points (rotated corners, clipped ray ends),
/// which can stand somewhat outside the raw coordinate range.
pub const PT_LIMIT: i64 = 33554432;

/// A point or vector of the plane.
#[derive(Clone, Copy, Debug, PartialEq, Eq, Structural)]
pub struct Pos2D<T> {
    pub x: T,
    pub y: T,
}

/// An axis-aligned rectangle: top-left corner and nonnegative extent.
#[derive(Clone, Copy, Debug, PartialEq, Eq, Structural)]
pub struct Rect {
    pub x: i64,
    pub y: i64,
    pub w: i64,
    pub h: i64,
}

/// An orientation as a fixed-point unit vector: `c` and `s` are the cosine
/// and sine of the facing angle, scaled by [`SCALE`].
#[derive(Clone, Copy, Debug, PartialEq, Eq, Structural)]
pub struct Rot {
    pub c: i64,
    pub s: i64,
}

/// A circle: center and radius in world units.
#[derive(Clone, Copy, Debug, PartialEq, Eq, Structural)]
pub struct Circle {
    pub center: Pos2D<i64>,
    pub radius: i64,
}

/// Magnitude of a mathematical integer.
pub open spec fn mag(a: int) -> int {
    if a >= 0 {
        a
    } else {
        -a
    }
}

/// Truncating division (rounds toward zero), as Rust's `/` on machine
/// integers computes it. All fixed-point divisions here use this rounding.
pub open spec fn idiv(a: int, b: int) -> int {
    if (a >= 0) == (b >= 0) {
        mag(a) / mag(b)
    } else {
        -(mag(a) / mag(b))
    }
}

/// Squared Euclidean distance between two points.
pub open spec fn dist2(a: Pos2D<i64>, b: Pos2D<i64>) -> int {
    (a.x - b.x) * (a.x - b.x) + (a.y - b.y) * (a.y - b.y)
}

/// A raw world coordinate pair within [`COORD_LIMIT`].
pub open spec fn pos_in_bounds(p: Pos2D<i64>) -> bool {
    -COORD_LIMIT <= p.x <= COORD_LIMIT && -COORD_LIMIT <= p.y <= COORD_LIMIT
}

/// A derived point within [`PT_LIMIT`].
pub open spec fn pt_in_bounds(p: Pos2D<i64>) -> bool {
    -PT_LIMIT <= p.x <= PT_LIMIT && -PT_LIMIT <= p.y <= PT_LIMIT
}

/// A rectangle whose corner and extent are within [`COORD_LIMIT`].
pub open spec fn rect_wf(r: Rect) -> bool {
    &&& -COORD_LIMIT <= r.x <= COORD_LIMIT
    &&& -COORD_LIMIT <= r.y <= COORD_LIMIT
    &&& 0 <= r.w <= COORD_LIMIT
    &&& 0 <= r.h <= COORD_LIMIT
}

/// A moving body's rectangle: the corner may drift up to twice the raw
/// coordinate bound (collision clamping can push it past a far blocker),
/// the extent stays within it.
pub open spec fn rect_body_wf(r: Rect) -> bool {
    &&& -2097152 <= r.x <= 2097152
    &&& -2097152 <= r.y <= 2097152
    &&& 0 <= r.w <= COORD_LIMIT
    &&& 0 <= r.h <= COORD_LIMIT
}

/// A product of two bounded factors is bounded by the product of the bounds.
pub proof fn lemma_mul_bound(x: int, y: int, bx: int, by: int)
    requires
        -bx <= x <= bx,
        -by <= y <= by,
        0 <= bx,
        0 <= by,
    ensures
        -(bx * by) <= x * y <= bx * by,
{
    assert(-(bx * by) <= x * y <= bx * by) by (nonlinear_arith)
        requires
            -bx <= x <= bx,
            -by <= y <= by,
            0 <= bx,
            0 <= by,
    ;
}

/// A square of a bounded value is nonnegative and bounded.
pub proof fn lemma_square_bound(x: int, b: int)
    requires
        -b <= x <= b,
        0 <= b,
    ensures
        0 <= x * x <= b * b,
{
    assert(0 <= x * x <= b * b) by (nonlinear_arith)
        requires
            -b <= x <= b,
            0 <= b,
    ;
}

impl Rot {
    /// The components never exceed the fixed-point unit in magnitude.
    pub open spec fn wf(self) -> bool {
        -SCALE <= self.c <= SCALE && -SCALE <= self.s <= SCALE
    }

    /// An exact unit rotation: the scaled cosine-sine pair lies exactly on
    /// the circle of radius [`SCALE`].
    pub open spec fn is_unit(self) -> bool {
        self.c * self.c + self.s * self.s == SCALE * SCALE
    }

    /// The identity rotation (angle zero).
    pub fn zero() -> (r: Rot)
        ensures
            r == rot_zero(),
            r.wf(),
    {
        Rot { c: SCALE, s: 0 }
    }
}

/// The identity rotation (angle zero).
pub open spec fn rot_zero() -> Rot {
    Rot { c: SCALE as i64, s: 0 as i64 }
}

impl Circle {
    /// A circle from a center and radius.
    pub fn new(pos: Pos2D<i64>, radius: i64) -> (r: Self)
        ensures
            r.center == pos,
            r.radius == radius,
    {
        Circle { center: pos, radius }
    }
}

/// Truncating division on `i64`, matching [`idiv`].
pub fn div_trunc(a: i64, b: i64) -> (q: i64)
    requires
        b != 0,
        a > i64::MIN,
        b > i64::MIN,
    ensures
        q == idiv(a as int, b as int),
        mag(q as int) <= mag(a as int),
{
    let am: u64 = if a >= 0 {
        a as u64
    } else {
        (-a) as u64
    };
    let bm: u64 = if b >= 0 {
        b as u64
    } else {
        (-b) as u64
    };
    let qm: u64 = am / bm;
    proof {
        lemma_div_nonincreasing(am as int, bm as int);
        lemma_div_pos_is_pos(am as int, bm as int);
        assert(am <= i64::MAX as u64);
    }
    if (a >= 0) == (b >= 0) {
        qm as i64
    } else {
        -(qm as i64)
    }
}

/// Truncating division on `i128`, matching [`idiv`]; used where 64-bit
/// products must be divided exactly as the geometry specifies.
pub fn div_trunc_wide(a: i128, b: i128) -> (q: i128)
    requires
        b != 0,
        a > i128::MIN,
        b > i128::MIN,
    ensures
        q == idiv(a as int, b as int),
        mag(q as int) <= mag(a as int),
{
    let am: u128 = if a >= 0 {
        a as u128
    } else {
        (-a) as u128
    };
    let bm: u128 = if b >= 0 {
        b as u128
    } else {
        (-b) as u128
    };
    let qm: u128 = am / bm;
    proof {
        lemma_div_nonincreasing(am as int, bm as int);
        lemma_div_pos_is_pos(am as int, bm as int);
        assert(am <= i128::MAX as u128);
    }
    if (a >= 0) == (b >= 0) {
        qm as i128
    } else {
        -(qm as i128)
    }
}

/// Floor integer square root, defined by counting up; executable code uses
/// [`isqrt`] and proves agreement.
pub open spec fn sqrt_floor(n: int) -> int
    decreases n,
{
    if n < 1 {
        0
    } else {
        let r = sqrt_floor(n - 1);
        if (r + 1) * (r + 1) <= n {
            r + 1
        } else {
            r
        }
    }
}

/// The floor square root brackets its argument between consecutive squares.
#[verifier::rlimit(50)]
#[verifier::spinoff_prover]
pub proof fn lemma_sqrt_floor_bounds(n: int)
    requires
        n >= 0,
    ensures
        sqrt_floor(n) >= 0,
        sqrt_floor(n) * sqrt_floor(n) <= n,
        n < (sqrt_floor(n) + 1) * (sqrt_floor(n) + 1),
    decreases n,
{
    if n == 0 {
        assert(sqrt_floor(0) == 0);
    } else {
        lemma_sqrt_floor_bounds(n - 1);
        let r = sqrt_floor(n - 1);
        assert(r >= 0 && r * r <= n - 1 && n - 1 < (r + 1) * (r + 1));
        if (r + 1) * (r + 1) <= n {
            assert(sqrt_floor(n) == r + 1);
            assert((r + 2) * (r + 2) == (r + 1) * (r + 1) + 2 * r + 3) by (nonlinear_arith);
            assert(n <= (r + 1) * (r + 1));
            assert(n < (r + 2) * (r + 2));
            assert(sqrt_floor(n) * sqrt_floor(n) <= n);
        } else {
            assert(sqrt_floor(n) == r);
            assert(r * r <= n);
            assert(n < (r + 1) * (r + 1));
        }
    }
}

/// Any nonnegative value bracketed between consecutive squares of `r` is the
/// floor square root.
pub proof fn lemma_sqrt_floor_unique(n: int, r: int)
    requires
        n >= 0,
        r >= 0,
        r * r <= n,
        n < (r + 1) * (r + 1),
    ensures
        r == sqrt_floor(n),
{
    lemma_sqrt_floor_bounds(n);
    let s = sqrt_floor(n);
    if r < s {
        assert(false) by (nonlinear_arith)
            requires
                0 <= r < s,
                s * s <= n,
                n < (r + 1) * (r + 1),
        ;
    }
    if s < r {
        assert(false) by (nonlinear_arith)
            requires
                0 <= s < r,
                r * r <= n,
                n < (s + 1) * (s + 1),
        ;
    }
}

/// Floor square root by bisection.
pub fn isqrt(n: i64) -> (r: i64)
    requires
        0 <= n < 18014398509481984,
    ensures
        r == sqrt_floor(n as int),
        r >= 0,
        r * r <= n < (r + 1) * (r + 1),
{
    let mut lo: i64 = 0;
    let mut hi: i64 = 134217728;
    assert(134217728 * 134217728 == 18014398509481984) by (nonlinear_arith);
    while lo + 1 < hi
        invariant
            0 <= lo < hi <= 134217728,
            lo * lo <= n,
            n < hi * hi,
        decreases hi - lo,
    {
        let mid: i64 = lo + (hi - lo) / 2;
        assert(lo < mid < hi);
        assert(mid * mid <= 134217728 * 134217728) by (nonlinear_arith)
            requires
                0 <= mid <= 134217728,
        ;
        if mid * mid <= n {
            lo = mid;
        } else {
            hi = mid;
        }
    }
    proof {
        lemma_sqrt_floor_unique(n as int, lo as int);
    }
    lo
}

/// A center-range coordinate pair: within [`CENTER_LIMIT`].
pub open spec fn center_in_bounds(p: Pos2D<i64>) -> bool {
    -CENTER_LIMIT <= p.x <= CENTER_LIMIT && -CENTER_LIMIT <= p.y <= CENTER_LIMIT
}

/// Truncating division is exact on multiples of the divisor.
pub proof fn lemma_idiv_multiple(k: int, b: int)
    requires
        b != 0,
    ensures
        idiv(k * b, b) == k,
{
    let bm = mag(b);
    assert(k * b == b * k) by (nonlinear_arith);
    if b > 0 {
        if k >= 0 {
            assert(k * b >= 0) by (nonlinear_arith)
                requires
                    k >= 0,
                    b > 0,
            ;
            lemma_div_multiples_vanish(k, b);
        } else {
            assert(k * b < 0) by (nonlinear_arith)
                requires
                    k < 0,
                    b > 0,
            ;
            assert(-(k * b) == b * (-k)) by (nonlinear_arith);
            lemma_div_multiples_vanish(-k, b);
        }
    } else {
        if k >= 0 {
            assert(k * b <= 0) by (nonlinear_arith)
                requires
                    k >= 0,
                    b < 0,
            ;
            assert(-(k * b) == (-b) * k) by (nonlinear_arith);
            lemma_div_multiples_vanish(k, -b);
            if k * b == 0 {
                assert(k * b >= 0);
                assert(mag(k * b) == 0);
                assert(mag(k * b) / bm == 0) by {
                    vstd::arithmetic::div_mod::lemma_div_of0(bm);
                }
                assert(k == 0) by (nonlinear_arith)
                    requires
                        k * b == 0,
                        b != 0,
                        k >= 0,
                ;
            }
        } else {
            assert(k * b > 0) by (nonlinear_arith)
                requires
                    k < 0,
                    b < 0,
            ;
            assert(k * b == (-b) * (-k)) by (nonlinear_arith);
            lemma_div_multiples_vanish(-k, -b);
        }
    }
}

/// `point` rotated about `origin` by `rot`, with one truncating division by
/// [`SCALE`] per coordinate.
pub open spec fn rotate_spec(origin: Pos2D<i64>, point: Pos2D<i64>, rot: Rot) -> Pos2D<i64> {
    let dx = point.x - origin.x;
    let dy = point.y - origin.y;
    Pos2D {
        x: (origin.x + idiv(rot.c * dx - rot.s * dy, SCALE as int)) as i64,
        y: (origin.y + idiv(rot.s * dx + rot.c * dy, SCALE as int)) as i64,
    }
}

/// Rotates `point` about `origin` by the fixed-point rotation `rot`.
pub fn rotate_line(origin: Pos2D<i64>, point: Pos2D<i64>, rot: Rot) -> (r: Pos2D<i64>)
    requires
        center_in_bounds(origin),
        center_in_bounds(point),
        rot.wf(),
    ensures
        r == rotate_spec(origin, point, rot),
        pt_in_bounds(r),
{
    let dx = point.x - origin.x;
    let dy = point.y - origin.y;
    proof {
        lemma_mul_bound(rot.c as int, dx as int, SCALE as int, 8388608);
        lemma_mul_bound(rot.s as int, dy as int, SCALE as int, 8388608);
        lemma_mul_bound(rot.s as int, dx as int, SCALE as int, 8388608);
        lemma_mul_bound(rot.c as int, dy as int, SCALE as int, 8388608);
        lemma_idiv_bounded(rot.c * dx - rot.s * dy, SCALE as int, 16777216);
        lemma_idiv_bounded(rot.s * dx + rot.c * dy, SCALE as int, 16777216);
    }
    let qx = div_trunc(rot.c * dx - rot.s * dy, SCALE);
    let qy = div_trunc(rot.s * dx + rot.c * dy, SCALE);
    Pos2D { x: origin.x + qx, y: origin.y + qy }
}

/// Rotation by the identity pair moves nothing.
pub proof fn lemma_rotate_identity(origin: Pos2D<i64>, point: Pos2D<i64>)
    ensures
        rotate_spec(origin, point, rot_zero()) == point,
{
    let dx = point.x - origin.x;
    let dy = point.y - origin.y;
    let c = rot_zero().c as int;
    let s = rot_zero().s as int;
    assert(c * dx - s * dy == dx * c) by (nonlinear_arith)
        requires
            s == 0,
    ;
    assert(s * dx + c * dy == dy * c) by (nonlinear_arith)
        requires
            s == 0,
    ;
    lemma_idiv_multiple(dx, SCALE as int);
    lemma_idiv_multiple(dy, SCALE as int);
}

/// Clamps a fixed-point component back into the unit bound.
pub open spec fn clamp_unit(v: int) -> int {
    if v > SCALE {
        SCALE as int
    } else if v < -SCALE {
        -(SCALE as int)
    } else {
        v
    }
}

/// Composition of two fixed-point rotations (rotating by the sum of the
/// two angles), each component clamped back to the unit bound, since the
/// product of near-unit pairs can overshoot it by rounding.
pub open spec fn rot_compose_spec(a: Rot, b: Rot) -> Rot {
    Rot {
        c: clamp_unit(idiv(a.c * b.c - a.s * b.s, SCALE as int)) as i64,
        s: clamp_unit(idiv(a.s * b.c + a.c * b.s, SCALE as int)) as i64,
    }
}

/// Composes two rotations in fixed point.
pub fn rot_compose(a: Rot, b: Rot) -> (r: Rot)
    requires
        a.wf(),
        b.wf(),
    ensures
        r == rot_compose_spec(a, b),
        r.wf(),
{
    proof {
        lemma_mul_bound(a.c as int, b.c as int, SCALE as int, SCALE as int);
        lemma_mul_bound(a.s as int, b.s as int, SCALE as int, SCALE as int);
        lemma_mul_bound(a.s as int, b.c as int, SCALE as int, SCALE as int);
        lemma_mul_bound(a.c as int, b.s as int, SCALE as int, SCALE as int);
        lemma_idiv_bounded(a.c * b.c - a.s * b.s, SCALE as int, 2 * SCALE as int);
        lemma_idiv_bounded(a.s * b.c + a.c * b.s, SCALE as int, 2 * SCALE as int);
    }
    let mut c = div_trunc(a.c * b.c - a.s * b.s, SCALE);
    let mut s = div_trunc(a.s * b.c + a.c * b.s, SCALE);
    if c > SCALE {
        c = SCALE;
    }
    if c < -SCALE {
        c = -SCALE;
    }
    if s > SCALE {
        s = SCALE;
    }
    if s < -SCALE {
        s = -SCALE;
    }
    Rot { c, s }
}

/// The center cell of a rectangle, halving the extent with truncation.
pub open spec fn rect_center(r: Rect) -> Pos2D<i64> {
    Pos2D { x: (r.x + r.w / 2) as i64, y: (r.y + r.h / 2) as i64 }
}

/// The four corners of an axis-aligned rectangle in winding order (top-left,
/// top-right, bottom-right, bottom-left), with the first repeated to close
/// the polygon.
pub open spec fn rect_corners(r: Rect) -> Seq<Pos2D<i64>> {
    seq![
        Pos2D { x: r.x, y: r.y },
        Pos2D { x: (r.x + r.w) as i64, y: r.y },
        Pos2D { x: (r.x + r.w) as i64, y: (r.y + r.h) as i64 },
        Pos2D { x: r.x, y: (r.y + r.h) as i64 },
        Pos2D { x: r.x, y: r.y },
    ]
}

/// The closed corner polygon of `r` rotated about the rectangle's center.
pub open spec fn rotate_square_spec(r: Rect, rot: Rot) -> Seq<Pos2D<i64>> {
    let c = rect_center(r);
    seq![
        rotate_spec(c, rect_corners(r)[0], rot),
        rotate_spec(c, rect_corners(r)[1], rot),
        rotate_spec(c, rect_corners(r)[2], rot),
        rotate_spec(c, rect_corners(r)[3], rot),
        rotate_spec(c, rect_corners(r)[0], rot),
    ]
}

/// Every point of a polygon is a derived point within [`PT_LIMIT`].
pub open spec fn poly_in_bounds(s: Seq<Pos2D<i64>>) -> bool {
    forall|i: int| 0 <= i < s.len() ==> pt_in_bounds(#[trigger] s[i])
}

/// The oriented hitbox of a rectangle: its corners rotated about its center
/// in winding order, the first corner repeated to close the polygon.
pub fn rotate_square(r: Rect, rot: Rot) -> (v: Vec<Pos2D<i64>>)
    requires
        rect_body_wf(r),
        rot.wf(),
    ensures
        v@ == rotate_square_spec(r, rot),
        v@.len() == 5,
        poly_in_bounds(v@),
        v@[4] == v@[0],
{
    let halfw = div_trunc(r.w, 2);
    let halfh = div_trunc(r.h, 2);
    let c = Pos2D { x: r.x + halfw, y: r.y + halfh };
    assert(c == rect_center(r));
    let p1 = Pos2D { x: r.x, y: r.y };
    let p2 = Pos2D { x: r.x + r.w, y: r.y };
    let p3 = Pos2D { x: r.x + r.w, y: r.y + r.h };
    let p4 = Pos2D { x: r.x, y: r.y + r.h };
    let q1 = rotate_line(c, p1, rot);
    let q2 = rotate_line(c, p2, rot);
    let q3 = rotate_line(c, p3, rot);
    let q4 = rotate_line(c, p4, rot);
    let mut v: Vec<Pos2D<i64>> = Vec::new();
    v.push(q1);
    v.push(q2);
    v.push(q3);
    v.push(q4);
    v.push(q1);
    proof {
        assert(v@ =~= rotate_square_spec(r, rot));
    }
    v
}

/// The identity rotation leaves every corner of a rectangle in place: the
/// oriented hitbox at angle zero is the rectangle's own corner polygon.
pub proof fn lemma_rotate_square_identity(r: Rect)
    ensures
        rotate_square_spec(r, rot_zero()) == rect_corners(r),
{
    let c = rect_center(r);
    lemma_rotate_identity(c, rect_corners(r)[0]);
    lemma_rotate_identity(c, rect_corners(r)[1]);
    lemma_rotate_identity(c, rect_corners(r)[2]);
    lemma_rotate_identity(c, rect_corners(r)[3]);
    assert(rotate_square_spec(r, rot_zero()) =~= rect_corners(r));
}

/// The exact (pre-division) components of a vector rotated by `rot`.
pub open spec fn rot_vec_x(rot: Rot, dx: int, dy: int) -> int {
    rot.c * dx - rot.s * dy
}

/// The exact (pre-division) components of a vector rotated by `rot`.
pub open spec fn rot_vec_y(rot: Rot, dx: int, dy: int) -> int {
    rot.s * dx + rot.c * dy
}

/// Rotation by an exact unit pair is rigid: the exact rotated vector's
/// squared length is the original squared length times `SCALE * SCALE`.
/// (The executable corners divide each component by [`SCALE`] with
/// truncation afterwards, which is where the fixed-point rounding enters.)
pub proof fn lemma_rotation_rigid(rot: Rot, dx: int, dy: int)
    requires
        rot.is_unit(),
    ensures
        rot_vec_x(rot, dx, dy) * rot_vec_x(rot, dx, dy) + rot_vec_y(rot, dx, dy) * rot_vec_y(
            rot,
            dx,
            dy,
        ) == (SCALE * SCALE) * (dx * dx + dy * dy),
{
    let c = rot.c as int;
    let s = rot.s as int;
    let u = c * dx;
    let v = s * dy;
    let w = s * dx;
    let z = c * dy;
    assert((u - v) * (u - v) + (w + z) * (w + z) == u * u + v * v + w * w + z * z - 2 * (u * v) + 2
        * (w * z)) by (nonlinear_arith);
    assert((c * dx) * (s * dy) == (s * dx) * (c * dy)) by (nonlinear_arith);
    assert((c * dx) * (c * dx) == (c * c) * (dx * dx)) by (nonlinear_arith);
    assert((s * dy) * (s * dy) == (s * s) * (dy * dy)) by (nonlinear_arith);
    assert((s * dx) * (s * dx) == (s * s) * (dx * dx)) by (nonlinear_arith);
    assert((c * dy) * (c * dy) == (c * c) * (dy * dy)) by (nonlinear_arith);
    let cc = c * c;
    let ss = s * s;
    let xx = dx * dx;
    let yy = dy * dy;
    assert(cc * xx + ss * yy + ss * xx + cc * yy == (cc + ss) * (xx + yy)) by (nonlinear_arith);
}

/// The difference vector from corner `i` to corner `i + 1` of a rectangle.
pub open spec fn rect_side_vec(r: Rect, i: int) -> (int, int) {
    (
        rect_corners(r)[i + 1].x - rect_corners(r)[i].x,
        rect_corners(r)[i + 1].y - rect_corners(r)[i].y,
    )
}

/// Rotating a rectangle by an exact unit pair preserves each of the four
/// side lengths: the exact scaled side vector of the rotated polygon has
/// squared length `SCALE * SCALE` times the original side's squared length.
pub proof fn lemma_rotate_rect_rigid(r: Rect, rot: Rot, i: int)
    requires
        rot.is_unit(),
        0 <= i < 4,
    ensures
        ({
            let (dx, dy) = rect_side_vec(r, i);
            rot_vec_x(rot, dx, dy) * rot_vec_x(rot, dx, dy) + rot_vec_y(rot, dx, dy) * rot_vec_y(
                rot,
                dx,
                dy,
            ) == (SCALE * SCALE) * (dx * dx + dy * dy)
        }),
{
    let (dx, dy) = rect_side_vec(r, i);
    lemma_rotation_rigid(rot, dx, dy);
}

/// Squared distance between two derived points.
pub fn dist_sq(a: Pos2D<i64>, b: Pos2D<i64>) -> (r: i64)
    requires
        pt_in_bounds(a),
        pt_in_bounds(b),
    ensures
        r == dist2(a, b),
        r >= 0,
{
    let dx = a.x - b.x;
    let dy = a.y - b.y;
    proof {
        lemma_square_bound(dx as int, 2 * PT_LIMIT as int);
        lemma_square_bound(dy as int, 2 * PT_LIMIT as int);
    }
    dx * dx + dy * dy
}

/// Length of the diagonal of a `w`-by-`h` grid in world units: the floor
/// square root of the squared diagonal, times the tile size.
pub fn get_diagonal_size(w: i64, h: i64, ts: i64) -> (r: i64)
    requires
        0 <= w <= COORD_LIMIT,
        0 <= h <= COORD_LIMIT,
        0 <= ts <= COORD_LIMIT,
    ensures
        r == sqrt_floor(w * w + h * h) * ts,
{
    proof {
        lemma_square_bound(w as int, COORD_LIMIT as int);
        lemma_square_bound(h as int, COORD_LIMIT as int);
    }
    let d = isqrt(w * w + h * h);
    proof {
        assert(d <= 2097152) by (nonlinear_arith)
            requires
                d >= 0,
                d * d <= w * w + h * h,
                w * w + h * h <= 2 * 1099511627776,
        ;
        lemma_mul_bound(d as int, ts as int, 2097152, COORD_LIMIT as int);
    }
    d * ts
}

/// Unit vector toward `pt`, scaled by [`SCALE`]; the zero vector is returned
/// unchanged, so there is never a division by zero.
pub open spec fn normalize_spec(pt: Pos2D<i64>) -> Pos2D<i64> {
    if pt.x == 0 && pt.y == 0 {
        pt
    } else {
        let d = sqrt_floor(pt.x * pt.x + pt.y * pt.y);
        Pos2D { x: idiv(pt.x * SCALE, d) as i64, y: idiv(pt.y * SCALE, d) as i64 }
    }
}

/// Magnitude of a truncating quotient is bounded when the dividend is
/// bounded by a multiple of the divisor.
pub proof fn lemma_idiv_bounded(a: int, b: int, k: int)
    requires
        b > 0,
        k >= 0,
        mag(a) <= k * b,
    ensures
        -k <= idiv(a, b) <= k,
{
    lemma_div_is_ordered(mag(a), k * b, b);
    lemma_div_multiples_vanish(k, b);
    assert(k * b == b * k) by (nonlinear_arith);
    lemma_div_pos_is_pos(mag(a), b);
}

/// One component of a vector is bounded in magnitude by the floor square
/// root of the full squared length.
proof fn lemma_component_le_norm(x: int, n: int, d: int)
    requires
        x * x <= n,
        d >= 0,
        n < (d + 1) * (d + 1),
    ensures
        -d <= x <= d,
{
    assert(-d <= x <= d) by (nonlinear_arith)
        requires
            x * x <= n,
            d >= 0,
            n < (d + 1) * (d + 1),
    ;
}

/// Unit vector toward `pt` in fixed-point units; the zero vector comes back
/// unchanged (the deliberate division-by-zero guard).
pub fn normalize_point(pt: Pos2D<i64>) -> (r: Pos2D<i64>)
    requires
        pt_in_bounds(pt),
    ensures
        r == normalize_spec(pt),
        -SCALE <= r.x <= SCALE,
        -SCALE <= r.y <= SCALE,
        pt.x == 0 && pt.y == 0 ==> r == pt,
{
    if pt.x == 0 && pt.y == 0 {
        return pt;
    }
    proof {
        lemma_square_bound(pt.x as int, PT_LIMIT as int);
        lemma_square_bound(pt.y as int, PT_LIMIT as int);
    }
    let n: i64 = pt.x * pt.x + pt.y * pt.y;
    proof {
        assert(n >= 1) by (nonlinear_arith)
            requires
                n == pt.x * pt.x + pt.y * pt.y,
                !(pt.x == 0 && pt.y == 0),
        ;
    }
    let d: i64 = isqrt(n);
    proof {
        assert(d >= 1) by (nonlinear_arith)
            requires
                d >= 0,
                n < (d + 1) * (d + 1),
                n >= 1,
        ;
        assert(pt.x * pt.x <= n && pt.y * pt.y <= n) by (nonlinear_arith)
            requires
                n == pt.x * pt.x + pt.y * pt.y,
        ;
        lemma_component_le_norm(pt.x as int, n as int, d as int);
        lemma_component_le_norm(pt.y as int, n as int, d as int);
        lemma_mul_bound(pt.x as int, SCALE as int, PT_LIMIT as int, SCALE as int);
        lemma_mul_bound(pt.y as int, SCALE as int, PT_LIMIT as int, SCALE as int);
        lemma_mul_bound(pt.x as int, SCALE as int, d as int, SCALE as int);
        lemma_mul_bound(pt.y as int, SCALE as int, d as int, SCALE as int);
        lemma_idiv_bounded(pt.x * SCALE, d as int, SCALE as int);
        lemma_idiv_bounded(pt.y * SCALE, d as int, SCALE as int);
    }
    let qx = div_trunc(pt.x * SCALE, d);
    let qy = div_trunc(pt.y * SCALE, d);
    Pos2D { x: qx, y: qy }
}

} // verus!
