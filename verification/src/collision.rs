//! Collision tests and per-axis sweep movement resolution.
//!
//! [`CheckCollision::world_collision`] resolves a desired move against the
//! map's blocking cells: the horizontal and the vertical axis are tested
//! independently against the original rectangle, and each blocking cell in
//! turn clamps the moved rectangle to its near edge. The sequential,
//! order-dependent clamp is deliberate and is captured exactly by
//! [`world_resolve`].

use vstd::prelude::*;
use crate::bloc::{blocs_wf, Bloc};
use crate::geometry::{dist2, Circle, Pos2D, Rect, COORD_LIMIT, PT_LIMIT};

verus! {

/// How a point stands to a shape (inside, on the boundary, outside).
pub enum CollisionResult {
    In,
    Touch,
    Out,
}

/// Namespace for the collision tests.
pub struct CheckCollision;

/// Two axis-aligned rectangles overlap on a set of positive area.
pub open spec fn rects_overlap(r1: Rect, r2: Rect) -> bool {
    &&& r1.x < r2.x + r2.w
    &&& r1.x + r1.w > r2.x
    &&& r1.y < r2.y + r2.h
    &&& r1.y + r1.h > r2.y
}

/// A rectangle with possibly derived (clamped or translated) position.
pub open spec fn rect_loose_wf(r: Rect) -> bool {
    &&& -PT_LIMIT <= r.x <= PT_LIMIT
    &&& -PT_LIMIT <= r.y <= PT_LIMIT
    &&& 0 <= r.w <= COORD_LIMIT
    &&& 0 <= r.h <= COORD_LIMIT
}

/// The horizontal probe: the moved `x` with the original `y` and extent.
pub open spec fn probe_x(orig: Rect, cur: Rect) -> Rect {
    Rect { x: cur.x, y: orig.y, w: orig.w, h: orig.h }
}

/// The vertical probe: the original `x` with the moved `y` and extent.
pub open spec fn probe_y(orig: Rect, cur: Rect) -> Rect {
    Rect { x: orig.x, y: cur.y, w: orig.w, h: orig.h }
}

/// One blocking rectangle's clamp: the horizontal probe is tested and
/// clamped to the blocker's near vertical edge, then the vertical probe
/// likewise, choosing the edge by the side the entity approached from.
pub open spec fn resolve_step(orig: Rect, cur: Rect, b: Rect) -> Rect {
    let cur1 = if rects_overlap(b, probe_x(orig, cur)) {
        if orig.x - cur.x > 0 {
            Rect { x: (b.x + b.w) as i64, y: cur.y, w: cur.w, h: cur.h }
        } else {
            Rect { x: (b.x - orig.w) as i64, y: cur.y, w: cur.w, h: cur.h }
        }
    } else {
        cur
    };
    if rects_overlap(b, probe_y(orig, cur1)) {
        if orig.y - cur1.y > 0 {
            Rect { x: cur1.x, y: (b.y + b.h) as i64, w: cur1.w, h: cur1.h }
        } else {
            Rect { x: cur1.x, y: (b.y - orig.h) as i64, w: cur1.w, h: cur1.h }
        }
    } else {
        cur1
    }
}

/// The sequential clamp over a bloc list: transparent cells never block;
/// each blocking cell clamps the accumulator in list order.
pub open spec fn world_resolve(orig: Rect, cur: Rect, blocs: Seq<Bloc>) -> Rect
    decreases blocs.len(),
{
    if blocs.len() == 0 {
        cur
    } else {
        let c1 = if !blocs[0].tile_spec().transparent {
            resolve_step(orig, cur, blocs[0].tile_spec().hitbox)
        } else {
            cur
        };
        world_resolve(orig, c1, blocs.drop_first())
    }
}

impl CheckCollision {
    /// Strict overlap test between two axis-aligned rectangles.
    pub fn two_rect(rect1: Rect, rect2: Rect) -> (is_collision: bool)
        requires
            rect_loose_wf(rect1),
            rect_loose_wf(rect2),
        ensures
            is_collision == rects_overlap(rect1, rect2),
    {
        rect1.x < rect2.x + rect2.w && rect1.x + rect1.w > rect2.x && rect1.y < rect2.y + rect2.h
            && rect1.y + rect1.h > rect2.y
    }

    /// Strict circle overlap: the centers are closer than the radius sum.
    pub fn two_circle(circle1: Circle, circle2: Circle) -> (r: bool)
        requires
            crate::geometry::pt_in_bounds(circle1.center),
            crate::geometry::pt_in_bounds(circle2.center),
            0 <= circle1.radius <= COORD_LIMIT,
            0 <= circle2.radius <= COORD_LIMIT,
        ensures
            r == (dist2(circle1.center, circle2.center) < (circle1.radius + circle2.radius) * (
            circle1.radius + circle2.radius)),
    {
        let d2 = crate::geometry::dist_sq(circle1.center, circle2.center);
        let rsum = circle1.radius + circle2.radius;
        proof {
            crate::geometry::lemma_square_bound(rsum as int, 2 * COORD_LIMIT as int);
        }
        d2 < rsum * rsum
    }

    /// The point lies strictly inside the rectangle.
    pub fn point_in_rect(point: Pos2D<i64>, rect: Rect) -> (r: bool)
        requires
            crate::geometry::pt_in_bounds(point),
            rect_loose_wf(rect),
        ensures
            r == point_strictly_in_rect(point, rect),
    {
        let x1 = rect.x;
        let y1 = rect.y;
        let x2 = x1 + rect.w;
        let y2 = y1 + rect.h;
        if x1 < point.x && point.x < x2 && y1 < point.y && point.y < y2 {
            true
        } else {
            false
        }
    }

    /// The point of the line through `line` closest to `point`: built by
    /// intersecting the line with the perpendicular through the point.
    /// `None` for a degenerate (zero-length) line.
    pub fn get_closest_point(line: (Pos2D<i64>, Pos2D<i64>), point: Pos2D<i64>) -> (r: Option<
        Pos2D<i64>,
    >)
        requires
            crate::geometry::pos_in_bounds(line.0),
            crate::geometry::pos_in_bounds(line.1),
            crate::geometry::pos_in_bounds(point),
        ensures
            ({
                let q = perpendicular_foot_probe(line, point);
                let den = crate::raycast::inter_den(
                    line.0.x as int, line.0.y as int, line.1.x as int, line.1.y as int,
                    point.x as int, point.y as int, q.x as int, q.y as int,
                );
                let px = crate::raycast::inter_px(
                    line.0.x as int, line.0.y as int, line.1.x as int, line.1.y as int,
                    point.x as int, point.y as int, q.x as int, q.y as int,
                );
                let py = crate::raycast::inter_py(
                    line.0.x as int, line.0.y as int, line.1.x as int, line.1.y as int,
                    point.x as int, point.y as int, q.x as int, q.y as int,
                );
                match r {
                    Some(p) => den != 0 && p.x == px && p.y == py && -PT_LIMIT <= px <= PT_LIMIT
                        && -PT_LIMIT <= py <= PT_LIMIT,
                    None => den == 0 || !(-PT_LIMIT <= px <= PT_LIMIT) || !(-PT_LIMIT <= py
                        <= PT_LIMIT),
                }
            }),
    {
        let a_to_b = (line.1.x - line.0.x, line.1.y - line.0.y);
        let perpendicular = (-a_to_b.1, a_to_b.0);
        let q = Pos2D { x: point.x + perpendicular.0, y: point.y + perpendicular.1 };
        crate::raycast::RayCasting::get_intersection_point(
            line.0.x, line.0.y, line.1.x, line.1.y, point.x, point.y, q.x, q.y,
        )
    }

    /// Whether the line's closest point to the circle's center falls
    /// inside the circle; a degenerate line crosses nothing.
    pub fn line_cross_circle(line: (Pos2D<i64>, Pos2D<i64>), circle: Circle) -> (r: bool)
        requires
            crate::geometry::pos_in_bounds(line.0),
            crate::geometry::pos_in_bounds(line.1),
            crate::geometry::pos_in_bounds(circle.center),
            0 <= circle.radius <= COORD_LIMIT,
        ensures
            ({
                let q = perpendicular_foot_probe(line, circle.center);
                let den = crate::raycast::inter_den(
                    line.0.x as int, line.0.y as int, line.1.x as int, line.1.y as int,
                    circle.center.x as int, circle.center.y as int, q.x as int, q.y as int,
                );
                let px = crate::raycast::inter_px(
                    line.0.x as int, line.0.y as int, line.1.x as int, line.1.y as int,
                    circle.center.x as int, circle.center.y as int, q.x as int, q.y as int,
                );
                let py = crate::raycast::inter_py(
                    line.0.x as int, line.0.y as int, line.1.x as int, line.1.y as int,
                    circle.center.x as int, circle.center.y as int, q.x as int, q.y as int,
                );
                r == (den != 0 && -PT_LIMIT <= px <= PT_LIMIT && -PT_LIMIT <= py <= PT_LIMIT
                    && point_in_circle_spec(Pos2D { x: px as i64, y: py as i64 }, circle))
            }),
    {
        let closest_point = CheckCollision::get_closest_point(line, circle.center);
        match closest_point {
            Some(p) => CheckCollision::point_in_circle(p, circle),
            None => false,
        }
    }

    /// The point lies inside or on the circle.
    pub fn point_in_circle(point: Pos2D<i64>, circle: Circle) -> (r: bool)
        requires
            crate::geometry::pt_in_bounds(point),
            crate::geometry::pt_in_bounds(circle.center),
            0 <= circle.radius <= COORD_LIMIT,
        ensures
            r == point_in_circle_spec(point, circle),
    {
        let d2 = crate::geometry::dist_sq(point, circle.center);
        proof {
            crate::geometry::lemma_square_bound(circle.radius as int, COORD_LIMIT as int);
        }
        d2 <= circle.radius * circle.radius
    }

    /// Resolves a desired move of `entity_hitbox` by `delta_pos` against
    /// every blocking cell, in list order, per axis; see [`world_resolve`].
    pub fn world_collision(entity_hitbox: Rect, delta_pos: Pos2D<i64>, bloc_list: &Vec<Bloc>) -> (r:
        Rect)
        requires
            crate::geometry::rect_body_wf(entity_hitbox),
            -COORD_LIMIT <= delta_pos.x <= COORD_LIMIT,
            -COORD_LIMIT <= delta_pos.y <= COORD_LIMIT,
            blocs_wf(bloc_list@),
        ensures
            r == world_resolve(
                entity_hitbox,
                Rect {
                    x: (entity_hitbox.x + delta_pos.x) as i64,
                    y: (entity_hitbox.y + delta_pos.y) as i64,
                    w: entity_hitbox.w,
                    h: entity_hitbox.h,
                },
                bloc_list@,
            ),
            r.w == entity_hitbox.w,
            r.h == entity_hitbox.h,
            -3145728 <= r.x <= 3145728,
            -3145728 <= r.y <= 3145728,
    {
        let mut next_pos = Rect {
            x: entity_hitbox.x + delta_pos.x,
            y: entity_hitbox.y + delta_pos.y,
            w: entity_hitbox.w,
            h: entity_hitbox.h,
        };
        let ghost start = next_pos;
        proof {
            assert(bloc_list@.skip(0) =~= bloc_list@);
        }
        let mut i: usize = 0;
        while i < bloc_list.len()
            invariant
                0 <= i <= bloc_list@.len(),
                blocs_wf(bloc_list@),
                crate::geometry::rect_body_wf(entity_hitbox),
                -3145728 <= next_pos.x <= 3145728,
                -3145728 <= next_pos.y <= 3145728,
                next_pos.w == entity_hitbox.w,
                next_pos.h == entity_hitbox.h,
                world_resolve(entity_hitbox, next_pos, bloc_list@.skip(i as int)) == world_resolve(
                    entity_hitbox,
                    start,
                    bloc_list@,
                ),
            decreases bloc_list@.len() - i,
        {
            let tile = bloc_list[i].tile();
            let ghost prev = next_pos;
            if !tile.transparent {
                let dxr = Rect {
                    x: next_pos.x,
                    y: entity_hitbox.y,
                    w: entity_hitbox.w,
                    h: entity_hitbox.h,
                };
                if CheckCollision::two_rect(tile.hitbox, dxr) {
                    if entity_hitbox.x - next_pos.x > 0 {
                        next_pos.x = tile.hitbox.x + tile.hitbox.w;
                    } else {
                        next_pos.x = tile.hitbox.x - entity_hitbox.w;
                    }
                }
                let dyr = Rect {
                    x: entity_hitbox.x,
                    y: next_pos.y,
                    w: entity_hitbox.w,
                    h: entity_hitbox.h,
                };
                if CheckCollision::two_rect(tile.hitbox, dyr) {
                    if entity_hitbox.y - next_pos.y > 0 {
                        next_pos.y = tile.hitbox.y + tile.hitbox.h;
                    } else {
                        next_pos.y = tile.hitbox.y - entity_hitbox.h;
                    }
                }
                proof {
                    assert(next_pos == resolve_step(
                        entity_hitbox,
                        prev,
                        bloc_list@[i as int].tile_spec().hitbox,
                    ));
                }
            }
            proof {
                assert(bloc_list@.skip(i as int).drop_first() =~= bloc_list@.skip(i as int + 1));
                assert(bloc_list@.skip(i as int)[0] == bloc_list@[i as int]);
            }
            i = i + 1;
        }
        proof {
            assert(bloc_list@.skip(bloc_list@.len() as int) =~= Seq::<Bloc>::empty());
        }
        next_pos
    }
}

/// The second point of the perpendicular probe segment through `point`
/// used to find the closest point of a line.
pub open spec fn perpendicular_foot_probe(line: (Pos2D<i64>, Pos2D<i64>), point: Pos2D<i64>) -> Pos2D<
    i64,
> {
    Pos2D {
        x: (point.x - (line.1.y - line.0.y)) as i64,
        y: (point.y + (line.1.x - line.0.x)) as i64,
    }
}

/// The point lies strictly inside the rectangle.
pub open spec fn point_strictly_in_rect(point: Pos2D<i64>, rect: Rect) -> bool {
    &&& rect.x < point.x < rect.x + rect.w
    &&& rect.y < point.y < rect.y + rect.h
}

/// The point lies inside or on the circle.
pub open spec fn point_in_circle_spec(point: Pos2D<i64>, circle: Circle) -> bool {
    dist2(point, circle.center) <= circle.radius * circle.radius
}

/// Free movement: when no blocking cell overlaps either probe of the moved
/// rectangle, the sweep changes nothing and the move lands exactly at the
/// translated position.
pub proof fn lemma_resolve_free(orig: Rect, cur: Rect, blocs: Seq<Bloc>)
    requires
        forall|i: int|
            0 <= i < blocs.len() ==> ((#[trigger] blocs[i]).tile_spec().transparent || (
            !rects_overlap(blocs[i].tile_spec().hitbox, probe_x(orig, cur)) && !rects_overlap(
                blocs[i].tile_spec().hitbox,
                probe_y(orig, cur),
            ))),
    ensures
        world_resolve(orig, cur, blocs) == cur,
    decreases blocs.len(),
{
    if blocs.len() > 0 {
        assert(blocs[0] == blocs[0]);
        lemma_resolve_free(orig, cur, blocs.drop_first());
    }
}

/// Running into a single blocking cell from the left stops the mover's
/// right edge flush with the blocker's left edge, and resolving the clamped
/// rectangle again with zero delta moves nothing (no residual velocity
/// leaks into the next tick).
pub proof fn lemma_resolve_blocked_from_left(orig: Rect, cur: Rect, blocs: Seq<Bloc>)
    requires
        blocs.len() == 1,
        !blocs[0].tile_spec().transparent,
        blocs[0].tile_spec().wf(),
        crate::geometry::rect_wf(orig),
        cur.y == orig.y,
        cur.w == orig.w,
        cur.h == orig.h,
        cur.x > orig.x,
        rects_overlap(blocs[0].tile_spec().hitbox, probe_x(orig, cur)),
        !rects_overlap(blocs[0].tile_spec().hitbox, orig),
    ensures
        ({
            let b = blocs[0].tile_spec().hitbox;
            let stopped = world_resolve(orig, cur, blocs);
            &&& stopped.x + stopped.w == b.x
            &&& stopped.y == orig.y
            &&& stopped.w == orig.w
            &&& stopped.h == orig.h
            &&& world_resolve(stopped, stopped, blocs) == stopped
        }),
{
    let b = blocs[0].tile_spec().hitbox;
    let step = resolve_step(orig, cur, b);
    assert(probe_y(orig, Rect { x: (b.x - orig.w) as i64, y: cur.y, w: cur.w, h: cur.h }) == Rect {
        x: orig.x,
        y: orig.y,
        w: orig.w,
        h: orig.h,
    });
    assert(Rect { x: orig.x, y: orig.y, w: orig.w, h: orig.h } == orig);
    assert(blocs.drop_first().len() == 0);
    assert(world_resolve(orig, step, blocs.drop_first()) == step);
    let stopped = world_resolve(orig, cur, blocs);
    assert(stopped == step);
    assert(probe_x(stopped, stopped) == stopped);
    assert(probe_y(stopped, stopped) == stopped);
    assert(!rects_overlap(b, probe_x(stopped, stopped)));
    assert(!rects_overlap(b, probe_y(stopped, stopped)));
    assert(resolve_step(stopped, stopped, b) == stopped);
    assert(world_resolve(stopped, stopped, blocs.drop_first()) == stopped);
}

} // verus!
