//! Raycasting against oriented rectangles, for line-of-sight and hit-scan
//! weapons.
//!
//! A ray is a segment from an observer toward a target. Every opaque
//! entity's oriented corner polygon is tested edge by edge with exact
//! signed-area orientation tests; each properly crossed edge yields an
//! intersection point (one truncating division per coordinate), and the
//! closest point to the ray origin wins. [`RayCasting::ray_cast`] promises
//! exactly that: the reported endpoint is a candidate point of the reported
//! entity and no candidate of any entity lies closer.

use vstd::prelude::*;
use crate::entity::EntityTrait;
use crate::geometry::{
    dist2, dist_sq, div_trunc_wide, idiv, lemma_idiv_multiple, lemma_mul_bound,
    lemma_rotate_square_identity, poly_in_bounds, pt_in_bounds, rect_corners, rect_wf,
    rotate_square_spec, Pos2D, Rect, Rot, rot_zero, PT_LIMIT,
};

verus! {

/// What kind of entity a ray ended on, with its index in the queried list.
#[derive(Clone, Copy, Debug, PartialEq, Eq, Structural)]
pub enum RayCastBlocType {
    Bloc(usize),
    Bot(usize),
    Player(usize),
    Other,
}

/// Outcome of a compound raycast: the clipped segment, what was hit and the
/// squared distance to the hit; or `Fail` when nothing blocks the ray out
/// to its full length.
#[derive(Clone, Copy, Debug)]
pub enum RayCastResult {
    Hit((Pos2D<i64>, Pos2D<i64>), RayCastBlocType, i64),
    Fail,
}

/// An entity's line of sight: facing, the current clipped endpoint, and the
/// raw result of the last cast.
#[derive(Clone, Copy, Debug)]
pub struct LOS {
    pub rot: Rot,
    pub angle_mdeg: i64,
    pub end_point: Pos2D<i64>,
    pub result: RayCastResult,
}

impl LOS {
    /// A line of sight facing angle zero with no cast yet.
    pub fn default() -> (r: Self)
        ensures
            r.rot == rot_zero(),
            r.angle_mdeg == 0,
            r.end_point == (Pos2D { x: 0i64, y: 0i64 }),
            r.result is Fail,
    {
        LOS {
            rot: Rot::zero(),
            angle_mdeg: 0,
            end_point: Pos2D { x: 0, y: 0 },
            result: RayCastResult::Fail,
        }
    }
}

/// Namespace for the raycasting routines.
pub struct RayCasting;

/// Signed-area orientation: the triangle `a`, `b`, `c` winds
/// counter-clockwise.
pub open spec fn ccw_spec(a: Pos2D<i64>, b: Pos2D<i64>, c: Pos2D<i64>) -> bool {
    (c.y - a.y) * (b.x - a.x) > (b.y - a.y) * (c.x - a.x)
}

/// Segments `a`-`b` and `c`-`d` properly cross: each segment's endpoints
/// wind opposite ways around the other.
pub open spec fn proper_intersect(a: Pos2D<i64>, b: Pos2D<i64>, c: Pos2D<i64>, d: Pos2D<i64>) -> bool {
    ccw_spec(a, c, d) != ccw_spec(b, c, d) && ccw_spec(a, b, c) != ccw_spec(a, b, d)
}

/// Denominator of the line-line intersection formula; zero exactly for
/// parallel lines.
pub open spec fn inter_den(
    x1: int, y1: int, x2: int, y2: int, x3: int, y3: int, x4: int, y4: int,
) -> int {
    (x1 - x2) * (y3 - y4) - (y1 - y2) * (x3 - x4)
}

/// Numerator of the intersection's x coordinate.
pub open spec fn inter_px_num(
    x1: int, y1: int, x2: int, y2: int, x3: int, y3: int, x4: int, y4: int,
) -> int {
    (x1 * y2 - y1 * x2) * (x3 - x4) - (x1 - x2) * (x3 * y4 - y3 * x4)
}

/// Numerator of the intersection's y coordinate.
pub open spec fn inter_py_num(
    x1: int, y1: int, x2: int, y2: int, x3: int, y3: int, x4: int, y4: int,
) -> int {
    (x1 * y2 - y1 * x2) * (y3 - y4) - (y1 - y2) * (x3 * y4 - y3 * x4)
}

/// The intersection's x coordinate, rounded toward zero.
pub open spec fn inter_px(
    x1: int, y1: int, x2: int, y2: int, x3: int, y3: int, x4: int, y4: int,
) -> int {
    idiv(
        inter_px_num(x1, y1, x2, y2, x3, y3, x4, y4),
        inter_den(x1, y1, x2, y2, x3, y3, x4, y4),
    )
}

/// The intersection's y coordinate, rounded toward zero.
pub open spec fn inter_py(
    x1: int, y1: int, x2: int, y2: int, x3: int, y3: int, x4: int, y4: int,
) -> int {
    idiv(
        inter_py_num(x1, y1, x2, y2, x3, y3, x4, y4),
        inter_den(x1, y1, x2, y2, x3, y3, x4, y4),
    )
}

/// The rounded intersection point of the lines through `a`-`b` and `c`-`d`
/// exists and is representable as a derived point.
pub open spec fn ipoint_defined(a: Pos2D<i64>, b: Pos2D<i64>, c: Pos2D<i64>, d: Pos2D<i64>) -> bool {
    &&& inter_den(a.x as int, a.y as int, b.x as int, b.y as int, c.x as int, c.y as int, d.x as int, d.y as int) != 0
    &&& -PT_LIMIT <= inter_px(a.x as int, a.y as int, b.x as int, b.y as int, c.x as int, c.y as int, d.x as int, d.y as int) <= PT_LIMIT
    &&& -PT_LIMIT <= inter_py(a.x as int, a.y as int, b.x as int, b.y as int, c.x as int, c.y as int, d.x as int, d.y as int) <= PT_LIMIT
}

/// The rounded intersection point of the lines through `a`-`b` and `c`-`d`.
pub open spec fn ipoint(a: Pos2D<i64>, b: Pos2D<i64>, c: Pos2D<i64>, d: Pos2D<i64>) -> Pos2D<i64> {
    Pos2D {
        x: inter_px(a.x as int, a.y as int, b.x as int, b.y as int, c.x as int, c.y as int, d.x as int, d.y as int) as i64,
        y: inter_py(a.x as int, a.y as int, b.x as int, b.y as int, c.x as int, c.y as int, d.x as int, d.y as int) as i64,
    }
}

/// The candidate hit point the segment `l1`-`l2` produces on the edge
/// `a`-`b`, when the segments properly cross and the point is
/// representable.
pub open spec fn edge_cand(l1: Pos2D<i64>, l2: Pos2D<i64>, a: Pos2D<i64>, b: Pos2D<i64>) -> Option<
    Pos2D<i64>,
> {
    if proper_intersect(l1, l2, a, b) && ipoint_defined(l1, l2, a, b) {
        Some(ipoint(l1, l2, a, b))
    } else {
        None
    }
}

/// `p` is a candidate hit point of the segment against one of the four
/// polygon edges.
pub open spec fn is_cand(l1: Pos2D<i64>, l2: Pos2D<i64>, poly: Seq<Pos2D<i64>>, p: Pos2D<i64>) -> bool {
    exists|k: int| 0 <= k < 4 && #[trigger] edge_cand(l1, l2, poly[k], poly[k + 1]) == Some(p)
}

/// The segment produces a candidate hit point on some polygon edge.
pub open spec fn any_cand(l1: Pos2D<i64>, l2: Pos2D<i64>, poly: Seq<Pos2D<i64>>) -> bool {
    exists|k: int| 0 <= k < 4 && (#[trigger] edge_cand(l1, l2, poly[k], poly[k + 1]) is Some)
}

/// A singleton or empty sequence from an optional point.
pub open spec fn opt_to_seq(o: Option<Pos2D<i64>>) -> Seq<Pos2D<i64>> {
    match o {
        Some(p) => seq![p],
        None => Seq::empty(),
    }
}

/// The candidate points of the segment against the polygon's first `k`
/// edges, in edge order.
pub open spec fn cand_seq_prefix(l1: Pos2D<i64>, l2: Pos2D<i64>, poly: Seq<Pos2D<i64>>, k: int) -> Seq<
    Pos2D<i64>,
>
    decreases k,
{
    if k <= 0 {
        Seq::empty()
    } else {
        cand_seq_prefix(l1, l2, poly, k - 1) + opt_to_seq(edge_cand(l1, l2, poly[k - 1], poly[k]))
    }
}

/// An entity's oriented hitbox polygon.
pub open spec fn entity_poly<E: EntityTrait>(e: E) -> Seq<Pos2D<i64>> {
    rotate_square_spec(e.hitbox_spec(), e.rot_spec())
}

/// Some opaque entity of the list is properly crossed by the segment.
pub open spec fn hits_any<E: EntityTrait>(l1: Pos2D<i64>, l2: Pos2D<i64>, list: Seq<E>) -> bool {
    exists|i: int|
        0 <= i < list.len() && !(#[trigger] list[i]).bypass_spec() && any_cand(
            l1,
            l2,
            entity_poly(list[i]),
        )
}

/// Whether the segment hits the first `i + 1` entities reduces to whether it
/// hits the first `i` and whether it crosses entity `i`.
proof fn lemma_hits_any_step<E: EntityTrait>(l1: Pos2D<i64>, l2: Pos2D<i64>, list: Seq<E>, i: int)
    requires
        0 <= i < list.len(),
    ensures
        hits_any(l1, l2, list.take(i + 1)) == (hits_any(l1, l2, list.take(i)) || (
        !list[i].bypass_spec() && any_cand(l1, l2, entity_poly(list[i])))),
{
    let a = list.take(i);
    let b = list.take(i + 1);
    assert(b =~= a.push(list[i]));
    if hits_any(l1, l2, b) {
        let w = choose|w: int|
            0 <= w < b.len() && !(#[trigger] b[w]).bypass_spec() && any_cand(
                l1,
                l2,
                entity_poly(b[w]),
            );
        if w < i {
            assert(a[w] == b[w]);
            assert(hits_any(l1, l2, a));
        } else {
            assert(b[w] == list[i]);
        }
    }
    if hits_any(l1, l2, a) {
        let w = choose|w: int|
            0 <= w < a.len() && !(#[trigger] a[w]).bypass_spec() && any_cand(
                l1,
                l2,
                entity_poly(a[w]),
            );
        assert(b[w] == a[w]);
        assert(hits_any(l1, l2, b));
    }
    if !list[i].bypass_spec() && any_cand(l1, l2, entity_poly(list[i])) {
        assert(b[i] == list[i]);
        assert(hits_any(l1, l2, b));
    }
}

/// `p` is the earliest candidate point of the polygon (in edge order)
/// whose distance from `l1` is minimal: every candidate strictly before it
/// is strictly farther. Ties therefore keep the first point found.
pub open spec fn earliest_min_cand(
    l1: Pos2D<i64>,
    l2: Pos2D<i64>,
    poly: Seq<Pos2D<i64>>,
    p: Pos2D<i64>,
) -> bool {
    exists|jj: int|
        {
            &&& 0 <= jj < cand_seq_prefix(l1, l2, poly, 4).len()
            &&& #[trigger] cand_seq_prefix(l1, l2, poly, 4)[jj] == p
            &&& forall|jj2: int|
                0 <= jj2 < jj ==> dist2(l1, #[trigger] cand_seq_prefix(l1, l2, poly, 4)[jj2])
                    > dist2(l1, p)
        }
}

/// Everything a single raycasting pass promises about its result `r`: the
/// segment keeps its origin, the endpoint is clipped to the closest
/// candidate hit point (never farther than the original endpoint nor than
/// any opaque entity's candidate), the hit flag says whether any opaque
/// entity was crossed, and the index names an entity whose candidate the
/// clipped endpoint is.
///
/// One rounding corner deserves note: the endpoint only moves to a
/// candidate *strictly* closer than the running endpoint. When rounding
/// lands every candidate exactly on (or beyond) the segment end — which
/// can only happen for a crossing at the very end of the segment — the
/// hit flag is still true but the index stays `None` and the segment
/// comes back whole. Callers must not assume an index on every hit; the
/// compound casts label such an outcome `Other`.
pub open spec fn ray_cast_post<E: EntityTrait>(
    los: (Pos2D<i64>, Pos2D<i64>),
    list: Seq<E>,
    r: ((Pos2D<i64>, Pos2D<i64>), Option<usize>, bool),
) -> bool {
    &&& r.0.0 == los.0
    &&& pt_in_bounds(r.0.1)
    &&& r.2 == hits_any(los.0, los.1, list)
    &&& dist2(los.0, r.0.1) <= dist2(los.0, los.1)
    &&& forall|i: int, p: Pos2D<i64>|
        0 <= i < list.len() && !list[i].bypass_spec() && #[trigger] is_cand(
            los.0,
            los.1,
            entity_poly(list[i]),
            p,
        ) ==> dist2(los.0, r.0.1) <= dist2(los.0, p)
    &&& (r.1 matches Some(i) ==> 0 <= i < list.len() && !list[i as int].bypass_spec() && is_cand(
        los.0,
        los.1,
        entity_poly(list[i as int]),
        r.0.1,
    ))
    &&& (r.1 matches Some(i) ==> forall|j: int, p: Pos2D<i64>|
        0 <= j < i && !list[j].bypass_spec() && #[trigger] is_cand(
            los.0,
            los.1,
            entity_poly(list[j]),
            p,
        ) ==> dist2(los.0, r.0.1) < dist2(los.0, p))
    &&& (r.1 matches Some(i) ==> earliest_min_cand(
        los.0,
        los.1,
        entity_poly(list[i as int]),
        r.0.1,
    ))
    &&& (r.1 is None ==> r.0.1 == los.1)
}

impl RayCasting {
    /// Squared distance between two points (distances are compared squared
    /// throughout, which is exact on integers).
    pub fn get_dist_sq(pt1: Pos2D<i64>, pt2: Pos2D<i64>) -> (r: i64)
        requires
            pt_in_bounds(pt1),
            pt_in_bounds(pt2),
        ensures
            r == dist2(pt1, pt2),
    {
        dist_sq(pt1, pt2)
    }

    /// Exact signed-area orientation test.
    pub fn ccw(a: Pos2D<i64>, b: Pos2D<i64>, c: Pos2D<i64>) -> (r: bool)
        requires
            pt_in_bounds(a),
            pt_in_bounds(b),
            pt_in_bounds(c),
        ensures
            r == ccw_spec(a, b, c),
    {
        proof {
            lemma_mul_bound(c.y - a.y, b.x - a.x, 67108864, 67108864);
            lemma_mul_bound(b.y - a.y, c.x - a.x, 67108864, 67108864);
        }
        (c.y - a.y) * (b.x - a.x) > (b.y - a.y) * (c.x - a.x)
    }

    /// The segments `a`-`b` and `c`-`d` properly cross.
    pub fn intersect(a: Pos2D<i64>, b: Pos2D<i64>, c: Pos2D<i64>, d: Pos2D<i64>) -> (r: bool)
        requires
            pt_in_bounds(a),
            pt_in_bounds(b),
            pt_in_bounds(c),
            pt_in_bounds(d),
        ensures
            r == proper_intersect(a, b, c, d),
    {
        let r1 = RayCasting::ccw(a, c, d);
        let r2 = RayCasting::ccw(b, c, d);
        let r3 = RayCasting::ccw(a, b, c);
        let r4 = RayCasting::ccw(a, b, d);
        r1 != r2 && r3 != r4
    }

    /// The two line segments properly cross.
    pub fn check_line_interact(l1: (Pos2D<i64>, Pos2D<i64>), l2: (Pos2D<i64>, Pos2D<i64>)) -> (r:
        bool)
        requires
            pt_in_bounds(l1.0),
            pt_in_bounds(l1.1),
            pt_in_bounds(l2.0),
            pt_in_bounds(l2.1),
        ensures
            r == proper_intersect(l1.0, l1.1, l2.0, l2.1),
    {
        RayCasting::intersect(l1.0, l1.1, l2.0, l2.1)
    }

    /// The rounded intersection point of the lines through
    /// `(x1,y1)`-`(x2,y2)` and `(x3,y3)`-`(x4,y4)`; `None` for parallel
    /// lines or a point outside the derived-point range.
    pub fn get_intersection_point(
        x1: i64,
        y1: i64,
        x2: i64,
        y2: i64,
        x3: i64,
        y3: i64,
        x4: i64,
        y4: i64,
    ) -> (r: Option<Pos2D<i64>>)
        requires
            -PT_LIMIT <= x1 <= PT_LIMIT,
            -PT_LIMIT <= y1 <= PT_LIMIT,
            -PT_LIMIT <= x2 <= PT_LIMIT,
            -PT_LIMIT <= y2 <= PT_LIMIT,
            -PT_LIMIT <= x3 <= PT_LIMIT,
            -PT_LIMIT <= y3 <= PT_LIMIT,
            -PT_LIMIT <= x4 <= PT_LIMIT,
            -PT_LIMIT <= y4 <= PT_LIMIT,
        ensures
            ({
                let den = inter_den(
                    x1 as int, y1 as int, x2 as int, y2 as int,
                    x3 as int, y3 as int, x4 as int, y4 as int,
                );
                let px = inter_px(
                    x1 as int, y1 as int, x2 as int, y2 as int,
                    x3 as int, y3 as int, x4 as int, y4 as int,
                );
                let py = inter_py(
                    x1 as int, y1 as int, x2 as int, y2 as int,
                    x3 as int, y3 as int, x4 as int, y4 as int,
                );
                match r {
                    Some(p) => den != 0 && p.x == px && p.y == py && -PT_LIMIT <= px <= PT_LIMIT
                        && -PT_LIMIT <= py <= PT_LIMIT,
                    None => den == 0 || !(-PT_LIMIT <= px <= PT_LIMIT) || !(-PT_LIMIT <= py
                        <= PT_LIMIT),
                }
            }),
    {
        proof {
            lemma_mul_bound(x1 - x2, y3 - y4, 67108864, 67108864);
            lemma_mul_bound(y1 - y2, x3 - x4, 67108864, 67108864);
            lemma_mul_bound(x1 as int, y2 as int, 33554432, 33554432);
            lemma_mul_bound(y1 as int, x2 as int, 33554432, 33554432);
            lemma_mul_bound(x3 as int, y4 as int, 33554432, 33554432);
            lemma_mul_bound(y3 as int, x4 as int, 33554432, 33554432);
        }
        let den: i128 = (x1 as i128 - x2 as i128) * (y3 as i128 - y4 as i128) - (y1 as i128
            - y2 as i128) * (x3 as i128 - x4 as i128);
        if den == 0 {
            return None;
        }
        let a12: i128 = x1 as i128 * y2 as i128 - y1 as i128 * x2 as i128;
        let a34: i128 = x3 as i128 * y4 as i128 - y3 as i128 * x4 as i128;
        proof {
            lemma_mul_bound(a12 as int, x3 - x4, 2251799813685248, 67108864);
            lemma_mul_bound(x1 - x2, a34 as int, 67108864, 2251799813685248);
            lemma_mul_bound(a12 as int, y3 - y4, 2251799813685248, 67108864);
            lemma_mul_bound(y1 - y2, a34 as int, 67108864, 2251799813685248);
        }
        let pxn: i128 = a12 * (x3 as i128 - x4 as i128) - (x1 as i128 - x2 as i128) * a34;
        let pyn: i128 = a12 * (y3 as i128 - y4 as i128) - (y1 as i128 - y2 as i128) * a34;
        let px = div_trunc_wide(pxn, den);
        let py = div_trunc_wide(pyn, den);
        if -33554432 <= px && px <= 33554432 && -33554432 <= py && py <= 33554432 {
            Some(Pos2D { x: px as i64, y: py as i64 })
        } else {
            None
        }
    }

    /// All candidate hit points of the segment against the four edges of an
    /// oriented rectangle polygon, in edge order.
    pub fn check_line_rect_intersection_points(
        line: (Pos2D<i64>, Pos2D<i64>),
        rect: Vec<Pos2D<i64>>,
    ) -> (result: Vec<Pos2D<i64>>)
        requires
            pt_in_bounds(line.0),
            pt_in_bounds(line.1),
            rect@.len() == 5,
            rect@[4] == rect@[0],
            poly_in_bounds(rect@),
        ensures
            result@ == cand_seq_prefix(line.0, line.1, rect@, 4),
            forall|j: int|
                0 <= j < result@.len() ==> is_cand(line.0, line.1, rect@, #[trigger] result@[j])
                    && pt_in_bounds(result@[j]),
            forall|k: int|
                0 <= k < 4 ==> (#[trigger] edge_cand(line.0, line.1, rect@[k], rect@[k + 1])
                    matches Some(p) ==> result@.contains(p)),
            (result@.len() > 0) == any_cand(line.0, line.1, rect@),
    {
        let mut result: Vec<Pos2D<i64>> = Vec::new();
        let (line_1, line_2) = line;
        let mut k: usize = 0;
        while k < 4
            invariant
                0 <= k <= 4,
                pt_in_bounds(line.0),
                pt_in_bounds(line.1),
                line_1 == line.0,
                line_2 == line.1,
                rect@.len() == 5,
                rect@[4] == rect@[0],
                poly_in_bounds(rect@),
                result@ == cand_seq_prefix(line.0, line.1, rect@, k as int),
                forall|j: int|
                    0 <= j < result@.len() ==> is_cand(
                        line.0,
                        line.1,
                        rect@,
                        #[trigger] result@[j],
                    ) && pt_in_bounds(result@[j]),
                forall|kk: int|
                    0 <= kk < k ==> (#[trigger] edge_cand(line.0, line.1, rect@[kk], rect@[kk + 1])
                        matches Some(p) ==> result@.contains(p)),
                (result@.len() > 0) == (exists|kk: int|
                    0 <= kk < k && (#[trigger] edge_cand(line.0, line.1, rect@[kk], rect@[kk + 1])
                    is Some)),
            decreases 4 - k,
        {
            let a = rect[k];
            let b = rect[k + 1];
            let ghost old_result = result@;
            if RayCasting::check_line_interact(line, (a, b)) {
                match RayCasting::get_intersection_point(
                    line_1.x, line_1.y, line_2.x, line_2.y, a.x, a.y, b.x, b.y,
                ) {
                    Some(p) => {
                        proof {
                            assert(edge_cand(line.0, line.1, rect@[k as int], rect@[k as int + 1])
                                == Some(p));
                        }
                        result.push(p);
                        proof {
                            assert(result@ == old_result.push(p));
                            assert forall|j: int| 0 <= j < result@.len() implies is_cand(
                                line.0,
                                line.1,
                                rect@,
                                #[trigger] result@[j],
                            ) && pt_in_bounds(result@[j]) by {
                                if j < old_result.len() {
                                    assert(result@[j] == old_result[j]);
                                } else {
                                    assert(result@[j] == p);
                                    assert(0 <= k < 4 && edge_cand(
                                        line.0,
                                        line.1,
                                        rect@[k as int],
                                        rect@[k as int + 1],
                                    ) == Some(p));
                                }
                            }
                            assert forall|kk: int|
                                0 <= kk < k + 1 && (#[trigger] edge_cand(
                                    line.0,
                                    line.1,
                                    rect@[kk],
                                    rect@[kk + 1],
                                ) is Some) implies result@.contains(
                                edge_cand(line.0, line.1, rect@[kk], rect@[kk + 1])->Some_0,
                            ) by {
                                let q = edge_cand(line.0, line.1, rect@[kk], rect@[kk + 1])->Some_0;
                                if kk < k {
                                    assert(old_result.contains(q));
                                    let w = choose|w: int|
                                        0 <= w < old_result.len() && old_result[w] == q;
                                    assert(result@[w] == q);
                                } else {
                                    assert(result@[old_result.len() as int] == q);
                                }
                            }
                        }
                    },
                    None => {
                        proof {
                            assert(edge_cand(line.0, line.1, rect@[k as int], rect@[k as int + 1])
                                is None);
                            assert(result@ == old_result + opt_to_seq(
                                edge_cand(line.0, line.1, rect@[k as int], rect@[k as int + 1]),
                            ));
                        }
                    },
                }
            } else {
                proof {
                    assert(edge_cand(line.0, line.1, rect@[k as int], rect@[k as int + 1])
                        is None);
                    assert(result@ == old_result + opt_to_seq(
                        edge_cand(line.0, line.1, rect@[k as int], rect@[k as int + 1]),
                    ));
                }
            }
            proof {
                assert(result@ =~= cand_seq_prefix(line.0, line.1, rect@, k as int + 1));
            }
            k = k + 1;
        }
        result
    }

    /// Casts the sight segment against every entity of the list. Returns
    /// the clipped segment, the index of the entity the clipped endpoint
    /// lies on, and whether any opaque entity was crossed at all. The
    /// clipped endpoint is never farther than the original endpoint nor
    /// than any candidate hit point of any opaque entity; ties keep the
    /// first candidate found. When no candidate improved strictly on the
    /// original endpoint (a crossing whose rounded point falls on the
    /// segment's very end), the index stays `None` and the segment comes
    /// back whole even though the hit flag is set; see [`ray_cast_post`].
    pub fn ray_cast<E: EntityTrait>(
        line_of_sight: (Pos2D<i64>, Pos2D<i64>),
        entity_list: &Vec<E>,
    ) -> (r: ((Pos2D<i64>, Pos2D<i64>), Option<usize>, bool))
        requires
            pt_in_bounds(line_of_sight.0),
            pt_in_bounds(line_of_sight.1),
            forall|i: int| 0 <= i < entity_list@.len() ==> (#[trigger] entity_list@[i]).wf(),
        ensures
            ray_cast_post(line_of_sight, entity_list@, r),
    {
        let los_startpoint = line_of_sight.0;
        let mut los_endpoint = line_of_sight.1;
        let mut r_item_index: Option<usize> = None;
        let mut is_hit = false;
        let ghost l0 = line_of_sight.0;
        let ghost l1 = line_of_sight.1;
        proof {
            assert(entity_list@.take(0) =~= Seq::<E>::empty());
        }
        let mut index: usize = 0;
        while index < entity_list.len()
            invariant
                0 <= index <= entity_list@.len(),
                pt_in_bounds(l0),
                pt_in_bounds(l1),
                l0 == line_of_sight.0,
                l1 == line_of_sight.1,
                los_startpoint == l0,
                forall|i: int| 0 <= i < entity_list@.len() ==> (#[trigger] entity_list@[i]).wf(),
                pt_in_bounds(los_endpoint),
                is_hit == hits_any(l0, l1, entity_list@.take(index as int)),
                dist2(l0, los_endpoint) <= dist2(l0, l1),
                forall|i: int, p: Pos2D<i64>|
                    0 <= i < index && !entity_list@[i].bypass_spec() && #[trigger] is_cand(
                        l0,
                        l1,
                        entity_poly(entity_list@[i]),
                        p,
                    ) ==> dist2(l0, los_endpoint) <= dist2(l0, p),
                r_item_index matches Some(i) ==> 0 <= i < index && !entity_list@[
                    i as int
                ].bypass_spec() && is_cand(l0, l1, entity_poly(entity_list@[i as int]), los_endpoint),
                r_item_index matches Some(i) ==> forall|jv: int, p: Pos2D<i64>|
                    0 <= jv < i && !entity_list@[jv].bypass_spec() && #[trigger] is_cand(
                        l0,
                        l1,
                        entity_poly(entity_list@[jv]),
                        p,
                    ) ==> dist2(l0, los_endpoint) < dist2(l0, p),
                r_item_index matches Some(i) ==> earliest_min_cand(
                    l0,
                    l1,
                    entity_poly(entity_list@[i as int]),
                    los_endpoint,
                ),
                r_item_index is None ==> los_endpoint == l1,
            decreases entity_list@.len() - index,
        {
            let entity = &entity_list[index];
            if !entity.ray_cast_bypass() {
                let poly = entity.rotated_hitbox();
                let ghost poly_view = poly@;
                proof {
                    assert(poly_view == entity_poly(entity_list@[index as int]));
                }
                let interaction_points = RayCasting::check_line_rect_intersection_points(
                    line_of_sight,
                    poly,
                );
                if interaction_points.len() > 0 {
                    is_hit = true;
                }
                let ghost mut best_jj: int = 0;
                let mut j: usize = 0;
                while j < interaction_points.len()
                    invariant
                        0 <= j <= interaction_points@.len(),
                        pt_in_bounds(l0),
                        pt_in_bounds(l1),
                        l0 == line_of_sight.0,
                        l1 == line_of_sight.1,
                        los_startpoint == l0,
                        0 <= index < entity_list@.len(),
                        forall|i: int|
                            0 <= i < entity_list@.len() ==> (#[trigger] entity_list@[i]).wf(),
                        !entity_list@[index as int].bypass_spec(),
                        poly_view == entity_poly(entity_list@[index as int]),
                        forall|jj: int|
                            0 <= jj < interaction_points@.len() ==> is_cand(
                                l0,
                                l1,
                                poly_view,
                                #[trigger] interaction_points@[jj],
                            ) && pt_in_bounds(interaction_points@[jj]),
                        pt_in_bounds(los_endpoint),
                        dist2(l0, los_endpoint) <= dist2(l0, l1),
                        forall|jj: int|
                            0 <= jj < j ==> dist2(l0, los_endpoint) <= dist2(
                                l0,
                                #[trigger] interaction_points@[jj],
                            ),
                        forall|i: int, p: Pos2D<i64>|
                            0 <= i < index && !entity_list@[i].bypass_spec() && #[trigger] is_cand(
                                l0,
                                l1,
                                entity_poly(entity_list@[i]),
                                p,
                            ) ==> dist2(l0, los_endpoint) <= dist2(l0, p),
                        r_item_index matches Some(i) ==> 0 <= i <= index && !entity_list@[
                            i as int
                        ].bypass_spec() && is_cand(
                            l0,
                            l1,
                            entity_poly(entity_list@[i as int]),
                            los_endpoint,
                        ),
                        interaction_points@ == cand_seq_prefix(l0, l1, poly_view, 4),
                        r_item_index matches Some(i) ==> (i < index ==> forall|jv: int, p: Pos2D<i64>|
                            0 <= jv < i && !entity_list@[jv].bypass_spec() && #[trigger] is_cand(
                                l0,
                                l1,
                                entity_poly(entity_list@[jv]),
                                p,
                            ) ==> dist2(l0, los_endpoint) < dist2(l0, p)),
                        r_item_index matches Some(i) ==> (i < index ==> earliest_min_cand(
                            l0,
                            l1,
                            entity_poly(entity_list@[i as int]),
                            los_endpoint,
                        )),
                        r_item_index matches Some(i) ==> (i == index ==> (forall|jv: int, p: Pos2D<i64>|
                            0 <= jv < index && !entity_list@[jv].bypass_spec() && #[trigger] is_cand(
                                l0,
                                l1,
                                entity_poly(entity_list@[jv]),
                                p,
                            ) ==> dist2(l0, los_endpoint) < dist2(l0, p)) && (0 <= best_jj < j
                            && interaction_points@[best_jj] == los_endpoint && forall|jj2: int|
                            0 <= jj2 < best_jj ==> dist2(
                                l0,
                                #[trigger] interaction_points@[jj2],
                            ) > dist2(l0, los_endpoint))),
                        r_item_index is None ==> los_endpoint == l1,
                    decreases interaction_points@.len() - j,
                {
                    let pt = interaction_points[j];
                    let dist_1 = dist_sq(los_startpoint, los_endpoint);
                    let dist_2 = dist_sq(los_startpoint, pt);
                    if dist_1 > dist_2 {
                        los_endpoint = pt;
                        r_item_index = Some(index);
                        proof {
                            best_jj = j as int;
                        }
                    }
                    j = j + 1;
                }
                proof {
                    assert forall|p: Pos2D<i64>|
                        #[trigger] is_cand(l0, l1, poly_view, p) implies dist2(l0, los_endpoint)
                        <= dist2(l0, p) by {
                        let k = choose|k: int|
                            0 <= k < 4 && #[trigger] edge_cand(l0, l1, poly_view[k], poly_view[k
                                + 1]) == Some(p);
                        assert(interaction_points@.contains(p));
                        let jj = choose|jj: int|
                            0 <= jj < interaction_points@.len() && interaction_points@[jj] == p;
                    }
                    lemma_hits_any_step(l0, l1, entity_list@, index as int);
                    assert((interaction_points@.len() > 0) == any_cand(l0, l1, poly_view));
                    if r_item_index matches Some(i) && i == index {
                        assert(earliest_min_cand(l0, l1, poly_view, los_endpoint));
                    }
                }
            } else {
                proof {
                    lemma_hits_any_step(l0, l1, entity_list@, index as int);
                }
            }
            index = index + 1;
        }
        proof {
            assert(entity_list@.take(entity_list@.len() as int) =~= entity_list@);
        }
        ((los_startpoint, los_endpoint), r_item_index, is_hit)
    }

    /// Two-pass compound cast: clip against the solid list first, then
    /// cast the already-clipped segment against the target list; the
    /// target wins only when strictly closer.
    fn cast_solid_then_target<S: EntityTrait, T: EntityTrait>(
        los: (Pos2D<i64>, Pos2D<i64>),
        solids: &Vec<S>,
        targets: &Vec<T>,
        target_is_player: bool,
    ) -> (r: RayCastResult)
        requires
            pt_in_bounds(los.0),
            pt_in_bounds(los.1),
            forall|i: int| 0 <= i < solids@.len() ==> (#[trigger] solids@[i]).wf(),
            forall|i: int| 0 <= i < targets@.len() ==> (#[trigger] targets@[i]).wf(),
        ensures
            two_pass_post(los, solids@, targets@, target_is_player, r),
    {
        let mut min_d = dist_sq(los.0, los.1);
        let mut is_hit = false;
        let mut hit_type = RayCastBlocType::Other;
        let mut new_los = los;
        let (tile_shot, tile_index, tile_is_hit) = RayCasting::ray_cast(los, solids);
        let ghost p1v = (tile_shot, tile_index, tile_is_hit);
        if tile_is_hit {
            is_hit = true;
            min_d = dist_sq(tile_shot.0, tile_shot.1);
            new_los = (los.0, tile_shot.1);
            hit_type = match tile_index {
                Some(i) => RayCastBlocType::Bloc(i),
                None => RayCastBlocType::Other,
            };
        }
        let (bot_shot, bot_index, bot_is_hit) = RayCasting::ray_cast(tile_shot, targets);
        let ghost p2v = (bot_shot, bot_index, bot_is_hit);
        if bot_is_hit {
            is_hit = true;
            let d = dist_sq(bot_shot.0, bot_shot.1);
            if d < min_d {
                match bot_index {
                    Some(bi) => {
                        min_d = d;
                        hit_type = if target_is_player {
                            RayCastBlocType::Player(bi)
                        } else {
                            RayCastBlocType::Bot(bi)
                        };
                        new_los = (los.0, bot_shot.1);
                    },
                    None => {},
                }
            }
        }
        let result = if is_hit {
            RayCastResult::Hit(new_los, hit_type, min_d)
        } else {
            RayCastResult::Fail
        };
        proof {
            assert(ray_cast_post(los, solids@, p1v));
            assert(ray_cast_post((los.0, p1v.0.1), targets@, p2v));
            assert(result == combine_two_pass(los, p1v, p2v, target_is_player));
        }
        result
    }

    /// Casts against the map's cells and then the monsters: a wall in
    /// front always occludes a monster behind it, because the monster
    /// pass only searches the segment the tile pass already clipped.
    pub fn ray_cast_tile_monster(
        los: (Pos2D<i64>, Pos2D<i64>),
        blocs: &Vec<crate::bloc::Bloc>,
        bots: &Vec<crate::monster::Monster>,
    ) -> (r: RayCastResult)
        requires
            pt_in_bounds(los.0),
            pt_in_bounds(los.1),
            forall|i: int| 0 <= i < blocs@.len() ==> (#[trigger] blocs@[i]).wf(),
            forall|i: int| 0 <= i < bots@.len() ==> (#[trigger] bots@[i]).wf(),
        ensures
            two_pass_post(los, blocs@, bots@, false, r),
    {
        RayCasting::cast_solid_then_target(los, blocs, bots, false)
    }

    /// The symmetric cast for monsters looking for the player: cells
    /// first, then the player list, on the already-clipped segment.
    pub fn ray_cast_tile_player(
        los: (Pos2D<i64>, Pos2D<i64>),
        blocs: &Vec<crate::bloc::Bloc>,
        players: &Vec<crate::player::Player>,
    ) -> (r: RayCastResult)
        requires
            pt_in_bounds(los.0),
            pt_in_bounds(los.1),
            forall|i: int| 0 <= i < blocs@.len() ==> (#[trigger] blocs@[i]).wf(),
            forall|i: int| 0 <= i < players@.len() ==> (#[trigger] players@[i]).wf(),
        ensures
            two_pass_post(los, blocs@, players@, true, r),
    {
        RayCasting::cast_solid_then_target(los, blocs, players, true)
    }
}

/// How the two raycast passes combine: the tile pass settles the clipped
/// segment and a baseline distance; a target hit wins only when it is
/// strictly closer. A pass that reports a crossing without naming an
/// entity (its candidates never improved on the segment end) leaves the
/// hit kind `Other`.
pub open spec fn combine_two_pass(
    los: (Pos2D<i64>, Pos2D<i64>),
    p1: ((Pos2D<i64>, Pos2D<i64>), Option<usize>, bool),
    p2: ((Pos2D<i64>, Pos2D<i64>), Option<usize>, bool),
    target_is_player: bool,
) -> RayCastResult {
    if !(p1.2 || p2.2) {
        RayCastResult::Fail
    } else {
        let min_d = if p1.2 {
            dist2(los.0, p1.0.1)
        } else {
            dist2(los.0, los.1)
        };
        let end0 = if p1.2 {
            p1.0.1
        } else {
            los.1
        };
        let kind0 = if p1.2 {
            match p1.1 {
                Some(i) => RayCastBlocType::Bloc(i),
                None => RayCastBlocType::Other,
            }
        } else {
            RayCastBlocType::Other
        };
        if p2.2 && p2.1 is Some && dist2(los.0, p2.0.1) < min_d {
            RayCastResult::Hit(
                (los.0, p2.0.1),
                if target_is_player {
                    RayCastBlocType::Player(p2.1->Some_0)
                } else {
                    RayCastBlocType::Bot(p2.1->Some_0)
                },
                dist2(los.0, p2.0.1) as i64,
            )
        } else {
            RayCastResult::Hit((los.0, end0), kind0, min_d as i64)
        }
    }
}

/// What a compound cast promises: some pair of pass results, the first
/// over the solid list on the whole segment and the second over the
/// target list on the segment already clipped by the first, combine to
/// the returned outcome. The second pass never searches beyond the first
/// pass's clipped endpoint, so a near wall always occludes a far target.
pub open spec fn two_pass_post<S: EntityTrait, T: EntityTrait>(
    los: (Pos2D<i64>, Pos2D<i64>),
    solids: Seq<S>,
    targets: Seq<T>,
    target_is_player: bool,
    r: RayCastResult,
) -> bool {
    exists|
        p1: ((Pos2D<i64>, Pos2D<i64>), Option<usize>, bool),
        p2: ((Pos2D<i64>, Pos2D<i64>), Option<usize>, bool),
    |
        {
            &&& #[trigger] ray_cast_post(los, solids, p1)
            &&& p1.0.0 == los.0
            &&& #[trigger] ray_cast_post((los.0, p1.0.1), targets, p2)
            &&& r == combine_two_pass(los, p1, p2, target_is_player)
        }
}

/// Candidate analysis for a horizontal segment fired from the left through
/// an axis-aligned rectangle: the left edge yields exactly the point on the
/// near edge at the segment's height, the two horizontal edges yield
/// nothing, and whatever the right edge yields lies on the far edge.
proof fn lemma_facing_rect_cands(l0: Pos2D<i64>, l1: Pos2D<i64>, rect: Rect)
    requires
        pt_in_bounds(l0),
        pt_in_bounds(l1),
        rect_wf(rect),
        l0.y == l1.y,
        rect.y < l0.y < rect.y + rect.h,
        l0.x < rect.x < l1.x,
        l1.x <= rect.x + rect.w,
        rect.w >= 1,
        rect.h >= 1,
    ensures
        ({
            let poly = rect_corners(rect);
            &&& edge_cand(l0, l1, poly[3], poly[4]) == Some(Pos2D { x: rect.x, y: l0.y })
            &&& edge_cand(l0, l1, poly[0], poly[1]) is None
            &&& edge_cand(l0, l1, poly[2], poly[3]) is None
            &&& (edge_cand(l0, l1, poly[1], poly[2]) matches Some(q) ==> q == (Pos2D {
                x: (rect.x + rect.w) as i64,
                y: l0.y,
            }))
        }),
{
    let poly = rect_corners(rect);
    let sx = l0.x as int;
    let sy = l0.y as int;
    let ex = l1.x as int;
    let rx = rect.x as int;
    let ry = rect.y as int;
    let w = rect.w as int;
    let h = rect.h as int;
    // Left edge: runs from the bottom-left to the top-left corner.
    let bl = poly[3];
    let tl = poly[4];
    assert(bl == Pos2D { x: rect.x, y: (rect.y + rect.h) as i64 });
    assert(tl == Pos2D { x: rect.x, y: rect.y });
    assert((ry - sy) * (rx - sx) < 0) by (nonlinear_arith)
        requires
            ry - sy < 0,
            rx - sx > 0,
    ;
    assert((ry + h - sy) * (rx - sx) > 0) by (nonlinear_arith)
        requires
            ry + h - sy > 0,
            rx - sx > 0,
    ;
    assert(!ccw_spec(l0, bl, tl));
    assert((ry - sy) * (rx - ex) > 0) by (nonlinear_arith)
        requires
            ry - sy < 0,
            rx - ex < 0,
    ;
    assert((ry + h - sy) * (rx - ex) < 0) by (nonlinear_arith)
        requires
            ry + h - sy > 0,
            rx - ex < 0,
    ;
    assert(ccw_spec(l1, bl, tl));
    assert((ry + h - sy) * (ex - sx) > 0) by (nonlinear_arith)
        requires
            ry + h - sy > 0,
            ex - sx > 0,
    ;
    assert((sy - sy) * (rx - sx) == 0) by (nonlinear_arith);
    assert(ccw_spec(l0, l1, bl));
    assert((ry - sy) * (ex - sx) < 0) by (nonlinear_arith)
        requires
            ry - sy < 0,
            ex - sx > 0,
    ;
    assert(!ccw_spec(l0, l1, tl));
    assert(proper_intersect(l0, l1, bl, tl));
    let den3 = inter_den(sx, sy, ex, sy, rx, ry + h, rx, ry);
    assert((sx - ex) * ((ry + h) - ry) - (sy - sy) * (rx - rx) == (sx - ex) * h)
        by (nonlinear_arith);
    assert(den3 == (sx - ex) * h);
    assert((sx - ex) * h != 0) by (nonlinear_arith)
        requires
            sx - ex < 0,
            h >= 1,
    ;
    let pxn3 = inter_px_num(sx, sy, ex, sy, rx, ry + h, rx, ry);
    assert((sx * sy - sy * ex) * (rx - rx) == 0) by (nonlinear_arith);
    assert(rx * ry - (ry + h) * rx == -(h * rx)) by (nonlinear_arith);
    assert((sx - ex) * (-(h * rx)) == -(rx * ((sx - ex) * h))) by (nonlinear_arith);
    assert(pxn3 == rx * ((sx - ex) * h));
    lemma_idiv_multiple(rx, (sx - ex) * h);
    assert(inter_px(sx, sy, ex, sy, rx, ry + h, rx, ry) == rx);
    let pyn3 = inter_py_num(sx, sy, ex, sy, rx, ry + h, rx, ry);
    assert((sy - sy) * (rx * ry - (ry + h) * rx) == 0) by (nonlinear_arith);
    assert((sx * sy - sy * ex) * ((ry + h) - ry) == sy * ((sx - ex) * h)) by (nonlinear_arith);
    assert(pyn3 == sy * ((sx - ex) * h));
    lemma_idiv_multiple(sy, (sx - ex) * h);
    assert(inter_py(sx, sy, ex, sy, rx, ry + h, rx, ry) == sy);
    assert(ipoint_defined(l0, l1, bl, tl));
    assert(ipoint(l0, l1, bl, tl) == Pos2D { x: rect.x, y: l0.y });
    // Top edge: the segment's endpoints both wind the same way.
    let tr = poly[1];
    assert(tr == Pos2D { x: (rect.x + rect.w) as i64, y: rect.y });
    assert((sy - sy) * (rx + w - sx) == 0) by (nonlinear_arith);
    assert(!ccw_spec(l0, l1, poly[0]));
    assert(!ccw_spec(l0, l1, tr));
    assert(!proper_intersect(l0, l1, poly[0], tr));
    // Bottom edge: likewise.
    let br = poly[2];
    assert(br == Pos2D { x: (rect.x + rect.w) as i64, y: (rect.y + rect.h) as i64 });
    assert((sy - sy) * (rx + w - sx) == 0) by (nonlinear_arith);
    assert(ccw_spec(l0, l1, br));
    assert(ccw_spec(l0, l1, bl));
    assert(!proper_intersect(l0, l1, br, bl));
    // Right edge: whatever candidate it yields lies on the far edge.
    let den1 = inter_den(sx, sy, ex, sy, rx + w, ry, rx + w, ry + h);
    assert((sx - ex) * (ry - (ry + h)) - (sy - sy) * ((rx + w) - (rx + w)) == -((sx - ex) * h))
        by (nonlinear_arith);
    assert(den1 == -((sx - ex) * h));
    if proper_intersect(l0, l1, tr, br) && ipoint_defined(l0, l1, tr, br) {
        let pxn1 = inter_px_num(sx, sy, ex, sy, rx + w, ry, rx + w, ry + h);
        assert((sx * sy - sy * ex) * ((rx + w) - (rx + w)) == 0) by (nonlinear_arith);
        assert((rx + w) * (ry + h) - ry * (rx + w) == (rx + w) * h) by (nonlinear_arith);
        assert((sx - ex) * ((rx + w) * h) == -((rx + w) * (-((sx - ex) * h)))) by (nonlinear_arith);
        assert(pxn1 == (rx + w) * (-((sx - ex) * h)));
        lemma_idiv_multiple(rx + w, -((sx - ex) * h));
        assert(inter_px(sx, sy, ex, sy, rx + w, ry, rx + w, ry + h) == rx + w);
        let pyn1 = inter_py_num(sx, sy, ex, sy, rx + w, ry, rx + w, ry + h);
        assert((sy - sy) * ((rx + w) * (ry + h) - ry * (rx + w)) == 0) by (nonlinear_arith);
        assert((sx * sy - sy * ex) * (ry - (ry + h)) == sy * (-((sx - ex) * h)))
            by (nonlinear_arith);
        assert(pyn1 == sy * (-((sx - ex) * h)));
        lemma_idiv_multiple(sy, -((sx - ex) * h));
        assert(inter_py(sx, sy, ex, sy, rx + w, ry, rx + w, ry + h) == sy);
    }
}

/// A ray fired horizontally from the left at a single opaque axis-aligned
/// rectangle directly ahead always hits, and the clipped endpoint lies
/// exactly on the rectangle's near (left) edge at the ray's height.
pub proof fn lemma_ray_hits_facing_rect<E: EntityTrait>(
    los: (Pos2D<i64>, Pos2D<i64>),
    e: E,
    r: ((Pos2D<i64>, Pos2D<i64>), Option<usize>, bool),
)
    requires
        ray_cast_post(los, seq![e], r),
        !e.bypass_spec(),
        e.rot_spec() == rot_zero(),
        rect_wf(e.hitbox_spec()),
        pt_in_bounds(los.0),
        pt_in_bounds(los.1),
        los.0.y == los.1.y,
        e.hitbox_spec().y < los.0.y < e.hitbox_spec().y + e.hitbox_spec().h,
        los.0.x < e.hitbox_spec().x < los.1.x,
        los.1.x <= e.hitbox_spec().x + e.hitbox_spec().w,
        e.hitbox_spec().w >= 1,
        e.hitbox_spec().h >= 1,
    ensures
        r.2 == true,
        r.0.1 == (Pos2D { x: e.hitbox_spec().x, y: los.0.y }),
        r.1 == Some(0usize),
{
    let rect = e.hitbox_spec();
    let near = Pos2D { x: rect.x, y: los.0.y };
    let far = Pos2D { x: (rect.x + rect.w) as i64, y: los.0.y };
    let list = seq![e];
    lemma_rotate_square_identity(rect);
    let poly = rect_corners(rect);
    assert(entity_poly(e) == poly);
    assert(list[0] == e);
    lemma_facing_rect_cands(los.0, los.1, rect);
    // The near-edge candidate exists, so the cast hits.
    assert(edge_cand(los.0, los.1, poly[3int], poly[3int + 1]) == Some(near));
    assert(any_cand(los.0, los.1, poly));
    assert(hits_any(los.0, los.1, list));
    assert(r.2);
    // The near point is a candidate, so the endpoint is at most as far.
    assert(is_cand(los.0, los.1, poly, near));
    assert(dist2(los.0, r.0.1) <= dist2(los.0, near));
    // The original endpoint and the far edge are strictly farther.
    assert((los.0.x - near.x) * (los.0.x - near.x) + (los.0.y - near.y) * (los.0.y - near.y) < (
    los.0.x - los.1.x) * (los.0.x - los.1.x) + (los.0.y - los.1.y) * (los.0.y - los.1.y))
        by (nonlinear_arith)
        requires
            near.y == los.0.y,
            los.1.y == los.0.y,
            los.0.x < near.x < los.1.x,
    ;
    assert(dist2(los.0, near) < dist2(los.0, los.1));
    assert((los.0.x - near.x) * (los.0.x - near.x) + (los.0.y - near.y) * (los.0.y - near.y) < (
    los.0.x - far.x) * (los.0.x - far.x) + (los.0.y - far.y) * (los.0.y - far.y))
        by (nonlinear_arith)
        requires
            near.y == los.0.y,
            far.y == los.0.y,
            los.0.x < near.x < far.x,
    ;
    assert(dist2(los.0, near) < dist2(los.0, far));
    // So the index is set, and the endpoint is one of the candidates.
    if r.1 is None {
        assert(r.0.1 == los.1);
        assert(false);
    }
    let i = r.1->Some_0;
    assert(0 <= i < 1);
    assert(is_cand(los.0, los.1, poly, r.0.1));
    let k = choose|k: int|
        0 <= k < 4 && #[trigger] edge_cand(los.0, los.1, poly[k], poly[k + 1]) == Some(r.0.1);
    if k == 1 {
        assert(r.0.1 == far);
        assert(false);
    }
    assert(k == 3);
    assert(r.0.1 == near);
}

/// The single-entity cast in any orientation: the hit flag is exactly
/// "the segment properly crosses the entity's polygon", and whenever some
/// candidate point improves strictly on the segment end, the result names
/// the entity and clips the segment to its earliest minimal candidate.
/// The candidate's exact location carries the one fixed-point rounding of
/// the intersection; only in the axis-aligned frontal configuration
/// ([`lemma_ray_hits_facing_rect`]) does it lie exactly on the near edge.
pub proof fn lemma_single_entity_cast<E: EntityTrait>(
    los: (Pos2D<i64>, Pos2D<i64>),
    e: E,
    r: ((Pos2D<i64>, Pos2D<i64>), Option<usize>, bool),
    p: Pos2D<i64>,
)
    requires
        ray_cast_post(los, seq![e], r),
        !e.bypass_spec(),
        is_cand(los.0, los.1, entity_poly(e), p),
        dist2(los.0, p) < dist2(los.0, los.1),
    ensures
        r.2 == true,
        r.1 == Some(0usize),
        is_cand(los.0, los.1, entity_poly(e), r.0.1),
        dist2(los.0, r.0.1) <= dist2(los.0, p),
        earliest_min_cand(los.0, los.1, entity_poly(e), r.0.1),
{
    let list = seq![e];
    assert(list[0] == e);
    let k = choose|k: int|
        0 <= k < 4 && #[trigger] edge_cand(los.0, los.1, entity_poly(e)[k], entity_poly(e)[k
            + 1]) == Some(p);
    assert(any_cand(los.0, los.1, entity_poly(e)));
    assert(hits_any(los.0, los.1, list));
    assert(r.2);
    assert(dist2(los.0, r.0.1) <= dist2(los.0, p));
    if r.1 is None {
        assert(r.0.1 == los.1);
        assert(false);
    }
    let i = r.1->Some_0;
    assert(0 <= i < 1);
}

/// The two-pass occlusion in any orientation: when the solid pass named a
/// solid and clipped the segment, and no target candidate on the clipped
/// segment comes strictly closer than the clip, the compound cast reports
/// that solid with the clipped segment — the target never wins.
pub proof fn lemma_solid_hit_prevails<S: EntityTrait, T: EntityTrait>(
    los: (Pos2D<i64>, Pos2D<i64>),
    solids: Seq<S>,
    targets: Seq<T>,
    p1: ((Pos2D<i64>, Pos2D<i64>), Option<usize>, bool),
    p2: ((Pos2D<i64>, Pos2D<i64>), Option<usize>, bool),
    r: RayCastResult,
    i: usize,
    target_is_player: bool,
)
    requires
        ray_cast_post(los, solids, p1),
        p1.0.0 == los.0,
        ray_cast_post((los.0, p1.0.1), targets, p2),
        r == combine_two_pass(los, p1, p2, target_is_player),
        p1.2,
        p1.1 == Some(i),
        forall|j: int, p: Pos2D<i64>|
            0 <= j < targets.len() && !targets[j].bypass_spec() && #[trigger] is_cand(
                los.0,
                p1.0.1,
                entity_poly(targets[j]),
                p,
            ) ==> dist2(los.0, p) >= dist2(los.0, p1.0.1),
    ensures
        r == RayCastResult::Hit(
            (los.0, p1.0.1),
            RayCastBlocType::Bloc(i),
            dist2(los.0, p1.0.1) as i64,
        ),
{
    if p2.2 && p2.1 is Some && dist2(los.0, p2.0.1) < dist2(los.0, p1.0.1) {
        let j = p2.1->Some_0;
        assert(is_cand(los.0, p1.0.1, entity_poly(targets[j as int]), p2.0.1));
        assert(false);
    }
}

/// A horizontal segment whose endpoints both lie strictly left of an
/// axis-aligned rectangle crosses none of its edges.
proof fn lemma_segment_left_of_rect(l0: Pos2D<i64>, l1: Pos2D<i64>, rect: Rect)
    requires
        rect_wf(rect),
        l0.y == l1.y,
        l0.x < rect.x,
        l1.x < rect.x,
    ensures
        !any_cand(l0, l1, rect_corners(rect)),
{
    let poly = rect_corners(rect);
    let sy = l0.y as int;
    let mx = rect.x as int;
    let my = rect.y as int;
    let w = rect.w as int;
    let h = rect.h as int;
    // Horizontal edges: both segment endpoints wind the same way.
    assert forall|k: int| 0 <= k < 4 implies #[trigger] edge_cand(l0, l1, poly[k], poly[k + 1])
        is None by {
        let c = poly[k];
        let d = poly[k + 1];
        if k == 0 || k == 2 {
            // A horizontal edge: both its ends share a y coordinate, so
            // the segment's two orientation tests agree.
            assert(((c.y - l0.y) * (l1.x - l0.x) > (l1.y - l0.y) * (c.x - l0.x)) == ((d.y - l0.y)
                * (l1.x - l0.x) > (l1.y - l0.y) * (d.x - l0.x))) by (nonlinear_arith)
                requires
                    c.y == d.y,
                    l0.y == l1.y,
            ;
            assert(ccw_spec(l0, l1, c) == ccw_spec(l0, l1, d));
            assert(!proper_intersect(l0, l1, c, d));
        } else {
            // A vertical edge strictly right of both endpoints: both
            // endpoints wind the same way around it.
            let vx = c.x as int;
            assert(vx > l0.x && vx > l1.x);
            assert(((d.y - l0.y) * (c.x - l0.x) > (c.y - l0.y) * (d.x - l0.x)) == (d.y > c.y))
                by (nonlinear_arith)
                requires
                    c.x == d.x,
                    c.x - l0.x > 0,
            ;
            assert(((d.y - l1.y) * (c.x - l1.x) > (c.y - l1.y) * (d.x - l1.x)) == (d.y > c.y))
                by (nonlinear_arith)
                requires
                    c.x == d.x,
                    c.x - l1.x > 0,
            ;
            assert(ccw_spec(l0, c, d) == ccw_spec(l1, c, d));
            assert(!proper_intersect(l0, l1, c, d));
        }
    }
    if any_cand(l0, l1, poly) {
        let k = choose|k: int|
            0 <= k < 4 && (#[trigger] edge_cand(l0, l1, poly[k], poly[k + 1]) is Some);
        assert(false);
    }
}

/// A wall strictly between the observer and a target occludes the target:
/// fired horizontally at an axis-aligned opaque wall directly ahead, with
/// the target's rectangle entirely beyond the wall's near edge, the
/// compound cast reports the wall, never the target, and clips the
/// segment to the wall's near edge.
pub proof fn lemma_wall_occludes_target<S: EntityTrait, T: EntityTrait>(
    los: (Pos2D<i64>, Pos2D<i64>),
    wall: S,
    target: T,
    p1: ((Pos2D<i64>, Pos2D<i64>), Option<usize>, bool),
    p2: ((Pos2D<i64>, Pos2D<i64>), Option<usize>, bool),
    r: RayCastResult,
    target_is_player: bool,
)
    requires
        ray_cast_post(los, seq![wall], p1),
        p1.0.0 == los.0,
        ray_cast_post((los.0, p1.0.1), seq![target], p2),
        r == combine_two_pass(los, p1, p2, target_is_player),
        !wall.bypass_spec(),
        wall.rot_spec() == rot_zero(),
        rect_wf(wall.hitbox_spec()),
        pt_in_bounds(los.0),
        pt_in_bounds(los.1),
        los.0.y == los.1.y,
        wall.hitbox_spec().y < los.0.y < wall.hitbox_spec().y + wall.hitbox_spec().h,
        los.0.x < wall.hitbox_spec().x < los.1.x,
        los.1.x <= wall.hitbox_spec().x + wall.hitbox_spec().w,
        wall.hitbox_spec().w >= 1,
        wall.hitbox_spec().h >= 1,
        target.rot_spec() == rot_zero(),
        rect_wf(target.hitbox_spec()),
        target.hitbox_spec().x > wall.hitbox_spec().x,
    ensures
        r == RayCastResult::Hit(
            (los.0, Pos2D { x: wall.hitbox_spec().x, y: los.0.y }),
            RayCastBlocType::Bloc(0),
            dist2(los.0, Pos2D { x: wall.hitbox_spec().x, y: los.0.y }) as i64,
        ),
{
    let near = Pos2D { x: wall.hitbox_spec().x, y: los.0.y };
    // The wall pass clips the segment exactly to the wall's near edge.
    lemma_ray_hits_facing_rect(los, wall, p1);
    assert(p1.2 && p1.0.1 == near && p1.1 == Some(0usize));
    // The clipped segment ends strictly left of the target, so the target
    // pass crosses nothing.
    lemma_rotate_square_identity(target.hitbox_spec());
    lemma_segment_left_of_rect(los.0, near, target.hitbox_spec());
    assert(entity_poly(target) == rect_corners(target.hitbox_spec()));
    if hits_any(los.0, near, seq![target]) {
        let w = choose|w: int|
            0 <= w < seq![target].len() && !(#[trigger] seq![target][w]).bypass_spec() && any_cand(
                los.0,
                near,
                entity_poly(seq![target][w]),
            );
        assert(seq![target][w] == target);
        assert(false);
    }
    assert(!p2.2);
}

} // verus!
