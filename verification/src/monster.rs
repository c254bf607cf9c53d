//! Monsters and their perception. A monster's brain holds an IQ rolled at
//! spawn: the near-vision radius equals the IQ, the far-vision radius is
//! three times it, and a fixed-width vision cone follows the facing angle.
//! A target inside the near circle is always perceived; one outside the
//! far circle never is; in the ring between, perception depends on the
//! (possibly wrapping) cone.

use vstd::prelude::*;
use crate::bloc::Bloc;
use crate::collision::CheckCollision;
use crate::entity::EntityTrait;
use crate::geometry::{
    dist2, div_trunc, idiv, isqrt, normalize_point, normalize_spec, pos_in_bounds, pt_in_bounds,
    rect_center, rot_compose, rotate_square, sqrt_floor, Circle, Pos2D, Rect, Rot, COORD_LIMIT,
    SCALE,
};
use crate::id::IdManager;
use crate::pathfinding::{PathFinding, PathFindingResult};
use crate::raycast::LOS;
use crate::rng::rand_range;
use crate::weapon::{generate_drop, ObjectDrop, Weapon};

verus! {

/// Base movement speed of a test bot, world units per second.
pub const TEST_BOT_SPEED: i64 = 250;

/// Squared arrival threshold for popping a waypoint, in world units: a
/// waypoint counts as reached within two units of it. A strict sub-unit
/// test is unreliable with the truncating fixed-point mover: once the
/// remaining offset is a single unit on each axis, the scaled step can
/// truncate to zero and the walk would stall instead of arriving, so the
/// threshold must admit that one-unit-per-axis stall region.
pub const WAYPOINT_EPSILON_SQ: i64 = 4;

/// Full width of the vision cone, in millidegrees.
pub const VISION_CONE_MDEG: i64 = 100000;

/// The monster kinds.
pub enum MonsterType {
    TestBot,
}

/// A live monster.
pub enum Monster {
    TestBot(TestBot),
}

/// Perception state: the IQ scalar, the two vision circles, the cone
/// bounds in millidegrees, the perception flag, and the wandering path.
pub struct Brain {
    pub iq: i32,
    pub close_vision_circle: Circle,
    pub large_vision_circle: Circle,
    pub vision_cone: (i64, i64),
    pub see_something: bool,
    pub wandering_path: Vec<Pos2D<i64>>,
}

/// An angle in millidegrees folded into `[0, 360000)` the way the cone
/// test does it: one wrap for a negative value.
pub open spec fn norm_angle(a: int) -> int {
    if a < 0 {
        a + 360000
    } else {
        a
    }
}

/// The cone test on normalized angles, handling a cone that wraps through
/// zero (lower bound above upper bound).
pub open spec fn cone_contains(c0: int, c1: int, a: int) -> bool {
    let cc0 = norm_angle(c0);
    let cc1 = norm_angle(c1);
    let aa = norm_angle(a);
    (cc0 < aa && aa < cc1) || (cc1 < cc0 && ((cc0 < aa && aa > 0) || (aa < cc1 && aa >= 0)))
}

impl Brain {
    /// The IQ stays in the rolled band and the vision geometry stays
    /// within world bounds.
    pub open spec fn wf(self) -> bool {
        &&& 60 <= self.iq < 160
        &&& pt_in_bounds(self.close_vision_circle.center)
        &&& pt_in_bounds(self.large_vision_circle.center)
        &&& 0 <= self.close_vision_circle.radius <= COORD_LIMIT
        &&& 0 <= self.large_vision_circle.radius <= COORD_LIMIT
        &&& -720000 <= self.vision_cone.0 <= 720000
        &&& -720000 <= self.vision_cone.1 <= 720000
        &&& forall|i: int|
            0 <= i < self.wandering_path@.len() ==> pos_in_bounds(
                #[trigger] self.wandering_path@[i],
            )
    }

    /// Whether this brain perceives `point` when the angle from the
    /// observer to the point is `angle_mdeg`: inside the near circle
    /// always, inside the far circle only within the cone.
    pub open spec fn sees_spec(self, point: Pos2D<i64>, angle_mdeg: int) -> bool {
        ||| dist2(point, self.close_vision_circle.center) <= self.close_vision_circle.radius
            * self.close_vision_circle.radius
        ||| (dist2(point, self.large_vision_circle.center) <= self.large_vision_circle.radius
            * self.large_vision_circle.radius && cone_contains(
            self.vision_cone.0 as int,
            self.vision_cone.1 as int,
            angle_mdeg,
        ))
    }

    /// A fresh brain: an IQ rolled uniformly from the band, no perception
    /// yet, empty vision geometry, no path.
    pub fn new() -> (r: Self)
        ensures
            r.wf(),
            60 <= r.iq < 160,
            !r.see_something,
            r.wandering_path@.len() == 0,
            r.close_vision_circle == (Circle { center: Pos2D { x: 0i64, y: 0i64 }, radius: 0i64 }),
            r.large_vision_circle == (Circle { center: Pos2D { x: 0i64, y: 0i64 }, radius: 0i64 }),
            r.vision_cone == (0i64, 0i64),
    {
        let iq = rand_range(60, 160);
        Brain {
            iq: iq as i32,
            close_vision_circle: Circle::new(Pos2D { x: 0, y: 0 }, 0),
            large_vision_circle: Circle::new(Pos2D { x: 0, y: 0 }, 0),
            vision_cone: (0, 0),
            see_something: false,
            wandering_path: Vec::new(),
        }
    }

    /// Recomputes the vision geometry from the observer's position and
    /// facing: near radius IQ, far radius three IQ, cone half-width fixed.
    pub fn update(&mut self, entity_pos: Pos2D<i64>, entity_angle_mdeg: i64)
        requires
            old(self).wf(),
            pt_in_bounds(entity_pos),
            -360000 <= entity_angle_mdeg <= 360000,
        ensures
            final(self).wf(),
            final(self).iq == old(self).iq,
            final(self).see_something == old(self).see_something,
            final(self).wandering_path == old(self).wandering_path,
            final(self).vision_cone.0 == entity_angle_mdeg - VISION_CONE_MDEG / 2,
            final(self).vision_cone.1 == entity_angle_mdeg + VISION_CONE_MDEG / 2,
            final(self).close_vision_circle == (Circle {
                center: entity_pos,
                radius: old(self).iq as i64,
            }),
            final(self).large_vision_circle == (Circle {
                center: entity_pos,
                radius: (3 * old(self).iq) as i64,
            }),
    {
        let half = div_trunc(VISION_CONE_MDEG, 2);
        self.vision_cone = (entity_angle_mdeg - half, entity_angle_mdeg + half);
        self.close_vision_circle = Circle::new(entity_pos, self.iq as i64);
        self.large_vision_circle = Circle::new(entity_pos, 3 * (self.iq as i64));
    }

    /// Decides perception of `point` from the current vision geometry and
    /// records the outcome. The caller supplies the angle from the
    /// observer to the point in millidegrees.
    pub fn can_see(&mut self, entity_pos: Pos2D<i64>, point: Pos2D<i64>, angle_mdeg: i64) -> (r:
        bool)
        requires
            old(self).wf(),
            entity_pos == old(self).close_vision_circle.center,
            pt_in_bounds(point),
            -360000 <= angle_mdeg <= 360000,
        ensures
            r == old(self).sees_spec(point, angle_mdeg as int),
            final(self).see_something == r,
            final(self).iq == old(self).iq,
            final(self).close_vision_circle == old(self).close_vision_circle,
            final(self).large_vision_circle == old(self).large_vision_circle,
            final(self).vision_cone == old(self).vision_cone,
            final(self).wandering_path == old(self).wandering_path,
            final(self).wf(),
    {
        let mut result = false;
        if CheckCollision::point_in_circle(point, self.close_vision_circle) {
            result = true;
        }
        if !result {
            if CheckCollision::point_in_circle(point, self.large_vision_circle) {
                let mut angle_entity_point = angle_mdeg;
                let mut cone: (i64, i64) = (self.vision_cone.0, self.vision_cone.1);
                if cone.0 < 0 {
                    cone.0 = cone.0 + 360000;
                }
                if cone.1 < 0 {
                    cone.1 = cone.1 + 360000;
                }
                if angle_entity_point < 0 {
                    angle_entity_point = angle_entity_point + 360000;
                }
                let condition2 = (cone.0 < angle_entity_point && angle_entity_point < cone.1) || (
                cone.1 < cone.0 && ((cone.0 < angle_entity_point && angle_entity_point > 0) || (
                angle_entity_point < cone.1 && angle_entity_point >= 0)));
                if condition2 {
                    result = true;
                } else {
                    result = false;
                }
            } else {
                result = false;
            }
        }
        if result {
            self.see_something = true;
        } else {
            self.see_something = false;
        }
        result
    }
}

/// A target nearer than the near-vision radius is perceived whatever the
/// facing angle; a target farther than the far-vision radius never is.
pub proof fn lemma_perception_radii(b: Brain, point: Pos2D<i64>, angle_mdeg: int)
    requires
        b.close_vision_circle.center == b.large_vision_circle.center,
        b.close_vision_circle.radius == b.iq,
        b.large_vision_circle.radius == 3 * b.iq,
        b.iq >= 1,
    ensures
        dist2(point, b.close_vision_circle.center) <= (b.iq - 1) * (b.iq - 1) ==> b.sees_spec(
            point,
            angle_mdeg,
        ),
        dist2(point, b.large_vision_circle.center) >= (3 * b.iq + 1) * (3 * b.iq + 1)
            ==> !b.sees_spec(point, angle_mdeg),
{
    let iq = b.iq as int;
    assert((iq - 1) * (iq - 1) <= iq * iq) by (nonlinear_arith)
        requires
            iq >= 1,
    ;
    assert(iq * iq <= (3 * iq) * (3 * iq)) by (nonlinear_arith)
        requires
            iq >= 1,
    ;
    assert((3 * iq) * (3 * iq) < (3 * iq + 1) * (3 * iq + 1)) by (nonlinear_arith)
        requires
            iq >= 1,
    ;
}

/// What one perception tick leaves of a bot: identity, body and path are
/// kept; a bot that saw something last tick now faces the player; the
/// vision geometry is rebuilt around the bot's center with radii from its
/// wits; and the recorded flag is exactly the perception predicate at the
/// new facing.
pub open spec fn bot_perceive_step_ok(
    pre: TestBot,
    post: TestBot,
    player_pos: Pos2D<i64>,
    angle_to_player_mdeg: int,
) -> bool {
    &&& post.wf()
    &&& post.id == pre.id
    &&& post.name == pre.name
    &&& post.hp == pre.hp
    &&& post.hitbox == pre.hitbox
    &&& post.speed == pre.speed
    &&& post.brain.iq == pre.brain.iq
    &&& post.brain.wandering_path == pre.brain.wandering_path
    &&& (pre.brain.see_something ==> post.los.angle_mdeg == angle_to_player_mdeg)
    &&& post.brain.see_something == post.brain.sees_spec(
        player_pos,
        post.los.angle_mdeg as int,
    )
    &&& post.brain.close_vision_circle == (Circle {
        center: rect_center(pre.hitbox),
        radius: pre.brain.iq as i64,
    })
    &&& post.brain.large_vision_circle == (Circle {
        center: rect_center(pre.hitbox),
        radius: (3 * pre.brain.iq) as i64,
    })
}

/// What one movement tick leaves of a bot: identity and perception are
/// kept; with a path, the bot walks toward the first waypoint through the
/// collision sweep, abandons the path when fully blocked or pushed out of
/// the body range, and pops a waypoint reached within the arrival
/// threshold [`WAYPOINT_EPSILON_SQ`] (two units rather than one: see the
/// constant's note on the truncating mover's stall region).
pub open spec fn bot_walk_step_ok(
    pre: TestBot,
    post: TestBot,
    dt_ms: int,
    blocs: Seq<Bloc>,
) -> bool {
    &&& post.wf()
    &&& post.id == pre.id
    &&& post.name == pre.name
    &&& post.hp == pre.hp
    &&& post.speed == pre.speed
    &&& post.los == pre.los
    &&& post.brain.iq == pre.brain.iq
    &&& post.brain.see_something == pre.brain.see_something
    &&& (pre.brain.wandering_path@.len() == 0 ==> post.hitbox == pre.hitbox
        && post.brain.wandering_path@.len() == 0)
    &&& (pre.brain.wandering_path@.len() > 0 ==> ({
        let delta = bot_move_delta(
            rect_center(pre.hitbox),
            pre.brain.wandering_path@[0],
            pre.speed as int,
            dt_ms,
        );
        let moved = crate::collision::world_resolve(
            pre.hitbox,
            Rect {
                x: (pre.hitbox.x + delta.x) as i64,
                y: (pre.hitbox.y + delta.y) as i64,
                w: pre.hitbox.w,
                h: pre.hitbox.h,
            },
            blocs,
        );
        &&& (moved == pre.hitbox || !crate::geometry::rect_body_wf(moved) ==> post.hitbox
            == pre.hitbox && post.brain.wandering_path@.len() == 0)
        &&& (moved != pre.hitbox && crate::geometry::rect_body_wf(moved) ==> (post.hitbox
            == moved && post.brain.wandering_path@ == (if dist2(
            rect_center(moved),
            pre.brain.wandering_path@[0],
        ) <= WAYPOINT_EPSILON_SQ {
            pre.brain.wandering_path@.drop_first()
        } else {
            pre.brain.wandering_path@
        })))
    }))
}

/// Before walking, an idle bot (empty path) may be handed a valid route
/// toward some drawn goal inside the map border; any bot may also be left
/// as it is (failed search, exhausted search budget, or a body outside
/// the grid).
pub open spec fn bot_repath_ok(
    pre: TestBot,
    mid: TestBot,
    g: Seq<Seq<i32>>,
    ghosts: Seq<i32>,
    ts: int,
) -> bool {
    ||| mid == pre
    ||| {
        &&& pre.brain.wandering_path@.len() == 0
        &&& (exists|goal: Pos2D<i64>|
            {
                &&& ts <= goal.x < (g[0].len() - 1) * ts
                &&& ts <= goal.y < (g.len() - 1) * ts
                &&& #[trigger] crate::pathfinding::path_ok(
                    g,
                    ghosts,
                    ts,
                    g[0].len() as int,
                    g.len() as int,
                    crate::pathfinding::cell_of(rect_center(pre.hitbox), ts),
                    crate::pathfinding::cell_of(goal, ts),
                    mid.brain.wandering_path@,
                )
            })
        &&& mid == (TestBot {
            brain: Brain { wandering_path: mid.brain.wandering_path, ..pre.brain },
            ..pre
        })
    }
}

/// One whole movement tick of a monster: an optional re-path toward a
/// drawn goal, then the walk.
pub open spec fn bot_move_tick_ok(
    pre: TestBot,
    post: TestBot,
    dt_ms: int,
    blocs: Seq<Bloc>,
    g: Seq<Seq<i32>>,
    ghosts: Seq<i32>,
    ts: int,
) -> bool {
    exists|mid: TestBot|
        #[trigger] bot_repath_ok(pre, mid, g, ghosts, ts) && bot_walk_step_ok(
            mid,
            post,
            dt_ms,
            blocs,
        )
}

/// The moving body of the only monster kind: id, name, hit points, the
/// hitbox, speed, line of sight, and the brain.
pub struct TestBot {
    pub id: i32,
    pub name: String,
    pub hp: i32,
    pub hitbox: Rect,
    pub speed: i64,
    pub los: LOS,
    pub brain: Brain,
}

impl TestBot {
    /// Geometry and angles stay inside the bounds the physics needs.
    pub open spec fn wf(self) -> bool {
        &&& crate::geometry::rect_body_wf(self.hitbox)
        &&& 0 <= self.speed <= 1000
        &&& self.los.rot.wf()
        &&& -360000 <= self.los.angle_mdeg <= 360000
        &&& self.brain.wf()
    }

    /// A fresh bot at the given rectangle with full health and the given
    /// brain, facing angle zero.
    pub fn new(x: i64, y: i64, w: i64, h: i64, id: i32, brain: Brain) -> (r: Self)
        requires
            brain.wf(),
            -COORD_LIMIT <= x <= COORD_LIMIT,
            -COORD_LIMIT <= y <= COORD_LIMIT,
            0 <= w <= COORD_LIMIT,
            0 <= h <= COORD_LIMIT,
        ensures
            r.wf(),
            r.id == id,
            r.hp == 100,
            r.hitbox == (Rect { x, y, w, h }),
            r.speed == TEST_BOT_SPEED,
            r.brain.iq == brain.iq,
            r.brain.wandering_path == brain.wandering_path,
    {
        let hitbox = Rect { x, y, w, h };
        let los = LOS::default();
        let mut brain = brain;
        let halfw = div_trunc(w, 2);
        let halfh = div_trunc(h, 2);
        let center = Pos2D { x: x + halfw, y: y + halfh };
        brain.update(center, los.angle_mdeg);
        TestBot {
            id,
            hp: 100,
            name: "monster_name".to_string(),
            hitbox,
            speed: TEST_BOT_SPEED,
            los,
            brain,
        }
    }

    pub fn take_damages(&mut self, damage: i32)
        requires
            i32::MIN <= old(self).hp - damage <= i32::MAX,
        ensures
            *final(self) == (TestBot { hp: (old(self).hp - damage) as i32, ..*old(self) }),
    {
        self.hp = self.hp - damage;
    }

    /// Dead below one hit point.
    pub fn is_dead(&self) -> (r: bool)
        ensures
            r == (self.hp < 1),
    {
        if self.hp < 1 {
            true
        } else {
            false
        }
    }

    /// One perception tick: the idle facing sweeps slowly and wraps at a
    /// half turn; a bot that saw something last tick snaps its facing to
    /// the player. The vision geometry is rebuilt and perception decided
    /// against the player's position. The caller supplies the angle from
    /// the bot to the player in millidegrees.
    pub fn update(&mut self, player_pos: Pos2D<i64>, angle_to_player_mdeg: i64)
        requires
            old(self).wf(),
            pos_in_bounds(player_pos),
            -180000 <= angle_to_player_mdeg <= 180000,
        ensures
            bot_perceive_step_ok(*old(self), *final(self), player_pos, angle_to_player_mdeg as int),
    {
        // The idle sweep: roughly 0.006 radians per tick in millidegrees.
        self.los.angle_mdeg = self.los.angle_mdeg + 344;
        if self.los.angle_mdeg > 180000 {
            self.los.angle_mdeg = -180000;
        }
        self.los.rot = rot_compose(self.los.rot, Rot { c: 65535, s: 393 });
        let halfw = div_trunc(self.hitbox.w, 2);
        let halfh = div_trunc(self.hitbox.h, 2);
        proof {
            vstd::arithmetic::div_mod::lemma_div_pos_is_pos(self.hitbox.w as int, 2);
            vstd::arithmetic::div_mod::lemma_div_pos_is_pos(self.hitbox.h as int, 2);
        }
        let center = Pos2D { x: self.hitbox.x + halfw, y: self.hitbox.y + halfh };
        proof {
            assert(center == rect_center(self.hitbox));
        }
        if self.brain.see_something {
            self.los.angle_mdeg = angle_to_player_mdeg;
            let aim = normalize_point(
                Pos2D { x: player_pos.x - center.x, y: player_pos.y - center.y },
            );
            self.los.rot = Rot { c: aim.x, s: aim.y };
        }
        self.brain.update(center, self.los.angle_mdeg);
        self.brain.can_see(center, player_pos, self.los.angle_mdeg);
    }
}

/// The movement step toward a waypoint: the direction to the waypoint
/// normalized in fixed point, times the per-tick speed budget, clamped so
/// the bot never overshoots the waypoint.
pub open spec fn bot_move_delta(
    center: Pos2D<i64>,
    desired: Pos2D<i64>,
    speed: int,
    dt_ms: int,
) -> Pos2D<i64> {
    let dir = normalize_spec(
        Pos2D { x: (desired.x - center.x) as i64, y: (desired.y - center.y) as i64 },
    );
    let base = idiv(speed * dt_ms, 1000);
    let dist = sqrt_floor(dist2(center, desired));
    let step = if dist < base {
        dist
    } else {
        base
    };
    Pos2D { x: idiv(dir.x * step, SCALE as int) as i64, y: idiv(dir.y * step, SCALE as int) as i64 }
}

impl TestBot {
    /// One movement tick: walk toward the first waypoint of the wandering
    /// path through the collision sweep; a fully blocked move abandons the
    /// path, and a waypoint reached within [`WAYPOINT_EPSILON_SQ`] is
    /// popped (an arrival threshold of two units, not one, because the
    /// truncating fixed-point step can stall one unit short on each axis).
    pub fn update_movements(&mut self, dt_ms: i64, bloc_list: &Vec<Bloc>)
        requires
            old(self).wf(),
            0 <= dt_ms <= 10000,
            crate::bloc::blocs_wf(bloc_list@),
        ensures
            bot_walk_step_ok(*old(self), *final(self), dt_ms as int, bloc_list@),
    {
        if self.brain.wandering_path.len() > 0 {
            let desired_position = self.brain.wandering_path[0];
            let halfw = div_trunc(self.hitbox.w, 2);
            let halfh = div_trunc(self.hitbox.h, 2);
            proof {
                vstd::arithmetic::div_mod::lemma_div_pos_is_pos(self.hitbox.w as int, 2);
                vstd::arithmetic::div_mod::lemma_div_pos_is_pos(self.hitbox.h as int, 2);
            }
            let my_pos = Pos2D { x: self.hitbox.x + halfw, y: self.hitbox.y + halfh };
            proof {
                assert(my_pos == rect_center(self.hitbox));
            }
            let direction = normalize_point(
                Pos2D { x: desired_position.x - my_pos.x, y: desired_position.y - my_pos.y },
            );
            proof {
                crate::geometry::lemma_mul_bound(self.speed as int, dt_ms as int, 1000, 10000);
            }
            let mut speed = div_trunc(self.speed * dt_ms, 1000);
            proof {
                crate::geometry::lemma_idiv_bounded(self.speed * dt_ms, 1000, 10000);
                vstd::arithmetic::div_mod::lemma_div_pos_is_pos(
                    crate::geometry::mag(self.speed * dt_ms),
                    1000,
                );
                crate::geometry::lemma_square_bound(
                    my_pos.x - desired_position.x,
                    2 * crate::geometry::PT_LIMIT as int,
                );
                crate::geometry::lemma_square_bound(
                    my_pos.y - desired_position.y,
                    2 * crate::geometry::PT_LIMIT as int,
                );
            }
            let distance_to_desired_position = isqrt(
                crate::geometry::dist_sq(my_pos, desired_position),
            );
            if distance_to_desired_position < speed {
                speed = distance_to_desired_position;
            }
            proof {
                crate::geometry::lemma_mul_bound(direction.x as int, speed as int, SCALE as int, 10000);
                crate::geometry::lemma_mul_bound(direction.y as int, speed as int, SCALE as int, 10000);
                crate::geometry::lemma_idiv_bounded(direction.x * speed, SCALE as int, 10000);
                crate::geometry::lemma_idiv_bounded(direction.y * speed, SCALE as int, 10000);
            }
            let delta_x = div_trunc(direction.x * speed, SCALE);
            let delta_y = div_trunc(direction.y * speed, SCALE);
            let new_hitbox = CheckCollision::world_collision(
                self.hitbox,
                Pos2D { x: delta_x, y: delta_y },
                bloc_list,
            );
            // A fully blocked move, or one that would leave the world's
            // body range, abandons the path.
            if self.hitbox == new_hitbox || new_hitbox.x < -2097152 || new_hitbox.x > 2097152
                || new_hitbox.y < -2097152 || new_hitbox.y > 2097152 {
                self.brain.wandering_path = Vec::new();
            } else {
                self.hitbox = new_hitbox;
            }
        }
        if self.brain.wandering_path.len() > 0 {
            let halfw = div_trunc(self.hitbox.w, 2);
            let halfh = div_trunc(self.hitbox.h, 2);
            proof {
                vstd::arithmetic::div_mod::lemma_div_pos_is_pos(self.hitbox.w as int, 2);
                vstd::arithmetic::div_mod::lemma_div_pos_is_pos(self.hitbox.h as int, 2);
            }
            let center = Pos2D { x: self.hitbox.x + halfw, y: self.hitbox.y + halfh };
            let d2 = crate::geometry::dist_sq(center, self.brain.wandering_path[0]);
            if d2 <= WAYPOINT_EPSILON_SQ {
                self.brain.wandering_path.remove(0);
            }
        }
    }
}

impl Monster {
    /// The monster's hit points.
    pub open spec fn hp_spec(self) -> int {
        match self {
            Monster::TestBot(tb) => tb.hp as int,
        }
    }
}

/// An inert monster used to swap a live one out of the list while it is
/// worked on.
fn placeholder_monster() -> (r: Monster)
    ensures
        r.wf(),
{
    Monster::TestBot(
        TestBot {
            id: 0,
            hp: 0,
            name: String::new(),
            hitbox: Rect { x: 0, y: 0, w: 0, h: 0 },
            speed: 0,
            los: LOS::default(),
            brain: Brain {
                iq: 60,
                close_vision_circle: Circle::new(Pos2D { x: 0, y: 0 }, 0),
                large_vision_circle: Circle::new(Pos2D { x: 0, y: 0 }, 0),
                vision_cone: (0, 0),
                see_something: false,
                wandering_path: Vec::new(),
            },
        },
    )
}

/// Owns the live monsters.
pub struct MonsterManager {
    pub monster_list: Vec<Monster>,
}

/// Every monster in the list is well-formed.
pub open spec fn monsters_wf(s: Seq<Monster>) -> bool {
    forall|i: int| 0 <= i < s.len() ==> (#[trigger] s[i]).wf()
}

impl MonsterManager {
    /// No monsters yet.
    pub fn new() -> (r: Self)
        ensures
            r.monster_list@.len() == 0,
    {
        MonsterManager { monster_list: Vec::new() }
    }

    /// Spawns a bot of the given kind at the given rectangle with a fresh
    /// id and a freshly rolled brain.
    pub fn new_bot(
        &mut self,
        x: i64,
        y: i64,
        w: i64,
        h: i64,
        monster_type: MonsterType,
        id_manager: &mut IdManager,
    )
        requires
            monsters_wf(old(self).monster_list@),
            old(id_manager).wf(),
            old(id_manager).current() < i32::MAX,
            -COORD_LIMIT <= x <= COORD_LIMIT,
            -COORD_LIMIT <= y <= COORD_LIMIT,
            0 <= w <= COORD_LIMIT,
            0 <= h <= COORD_LIMIT,
        ensures
            final(id_manager).wf(),
            final(self).monster_list@.len() == old(self).monster_list@.len() + 1,
            monsters_wf(final(self).monster_list@),
            forall|i: int|
                0 <= i < old(self).monster_list@.len() ==> final(self).monster_list@[i] == old(
                    self,
                ).monster_list@[i],
            ({
                let added = final(self).monster_list@.last();
                &&& added.hitbox_spec() == (Rect { x, y, w, h })
                &&& added.id_spec() == old(id_manager).current() + 1
                &&& added.hp_spec() == 100
            }),
    {
        let brain = Brain::new();
        let new_monster = match monster_type {
            MonsterType::TestBot => Monster::TestBot(
                TestBot::new(x, y, w, h, id_manager.get_new_id(), brain),
            ),
        };
        self.monster_list.push(new_monster);
    }

    /// One perception tick for every monster; `angles` holds, per monster,
    /// the angle from that monster to the player in millidegrees.
    pub fn update(&mut self, player_pos: Pos2D<i64>, angles: &Vec<i64>)
        requires
            monsters_wf(old(self).monster_list@),
            pos_in_bounds(player_pos),
            angles@.len() == old(self).monster_list@.len(),
            forall|i: int| 0 <= i < angles@.len() ==> -180000 <= #[trigger] angles@[i] <= 180000,
        ensures
            final(self).monster_list@.len() == old(self).monster_list@.len(),
            monsters_wf(final(self).monster_list@),
            forall|i: int|
                0 <= i < final(self).monster_list@.len() ==> {
                    &&& (#[trigger] final(self).monster_list@[i]).hitbox_spec() == old(
                        self,
                    ).monster_list@[i].hitbox_spec()
                    &&& final(self).monster_list@[i].id_spec() == old(
                        self,
                    ).monster_list@[i].id_spec()
                    &&& final(self).monster_list@[i].hp_spec() == old(
                        self,
                    ).monster_list@[i].hp_spec()
                },
            forall|i: int|
                0 <= i < final(self).monster_list@.len() ==> bot_perceive_step_ok(
                    old(self).monster_list@[i]->TestBot_0,
                    (#[trigger] final(self).monster_list@[i])->TestBot_0,
                    player_pos,
                    angles@[i] as int,
                ),
    {
        let mut i: usize = 0;
        while i < self.monster_list.len()
            invariant
                0 <= i <= self.monster_list@.len(),
                self.monster_list@.len() == old(self).monster_list@.len(),
                pos_in_bounds(player_pos),
                angles@.len() == old(self).monster_list@.len(),
                forall|k: int|
                    0 <= k < angles@.len() ==> -180000 <= #[trigger] angles@[k] <= 180000,
                forall|k: int|
                    i <= k < self.monster_list@.len() ==> #[trigger] self.monster_list@[k] == old(
                        self,
                    ).monster_list@[k],
                monsters_wf(self.monster_list@),
                forall|k: int|
                    0 <= k < i ==> {
                        &&& (#[trigger] self.monster_list@[k]).hitbox_spec() == old(
                            self,
                        ).monster_list@[k].hitbox_spec()
                        &&& self.monster_list@[k].id_spec() == old(
                            self,
                        ).monster_list@[k].id_spec()
                        &&& self.monster_list@[k].hp_spec() == old(self).monster_list@[k].hp_spec()
                        &&& bot_perceive_step_ok(
                            old(self).monster_list@[k]->TestBot_0,
                            self.monster_list@[k]->TestBot_0,
                            player_pos,
                            angles@[k] as int,
                        )
                    },
            decreases self.monster_list@.len() - i,
        {
            let mut m = placeholder_monster();
            self.monster_list.set_and_swap(i, &mut m);
            match &mut m {
                Monster::TestBot(tb) => tb.update(player_pos, angles[i]),
            }
            self.monster_list.set_and_swap(i, &mut m);
            i = i + 1;
        }
    }

    /// One movement tick for every monster. A monster without a wandering
    /// path rolls a random goal inside the map border and asks the
    /// pathfinder for a route, at most three searches per tick; then every
    /// monster walks its path through the collision sweep.
    #[verifier::rlimit(100)]
    #[verifier::spinoff_prover]
    pub fn update_movements(
        &mut self,
        dt_ms: i64,
        bloc_list: &Vec<Bloc>,
        map_infos: &(Vec<Vec<i32>>, Vec<i32>, i64),
    )
        requires
            monsters_wf(old(self).monster_list@),
            crate::bloc::blocs_wf(bloc_list@),
            0 <= dt_ms <= 10000,
            map_infos.2 >= 1,
            map_infos.0@.len() >= 3,
            map_infos.0@[0]@.len() >= 3,
            crate::pathfinding::grid_rectangular(
                map_infos.0.deep_view(),
                map_infos.0@[0]@.len() as int,
            ),
            map_infos.0@.len() * map_infos.0@[0]@.len() <= 1000000,
            map_infos.0@.len() * map_infos.2 <= COORD_LIMIT,
            map_infos.0@[0]@.len() * map_infos.2 <= COORD_LIMIT,
        ensures
            final(self).monster_list@.len() == old(self).monster_list@.len(),
            monsters_wf(final(self).monster_list@),
            forall|i: int|
                0 <= i < final(self).monster_list@.len() ==> {
                    &&& (#[trigger] final(self).monster_list@[i]).id_spec() == old(
                        self,
                    ).monster_list@[i].id_spec()
                    &&& final(self).monster_list@[i].hp_spec() == old(
                        self,
                    ).monster_list@[i].hp_spec()
                },
            forall|i: int|
                0 <= i < final(self).monster_list@.len() ==> bot_move_tick_ok(
                    old(self).monster_list@[i]->TestBot_0,
                    (#[trigger] final(self).monster_list@[i])->TestBot_0,
                    dt_ms as int,
                    bloc_list@,
                    map_infos.0.deep_view(),
                    map_infos.1@,
                    map_infos.2 as int,
                ),
    {
        let pathfinding_threshold: usize = 3;
        let mut pathfinding_count: usize = 0;
        let mut i: usize = 0;
        while i < self.monster_list.len()
            invariant
                0 <= i <= self.monster_list@.len(),
                self.monster_list@.len() == old(self).monster_list@.len(),
                crate::bloc::blocs_wf(bloc_list@),
                0 <= dt_ms <= 10000,
                map_infos.2 >= 1,
                map_infos.0@.len() >= 3,
                map_infos.0@[0]@.len() >= 3,
                crate::pathfinding::grid_rectangular(
                    map_infos.0.deep_view(),
                    map_infos.0@[0]@.len() as int,
                ),
                map_infos.0@.len() * map_infos.0@[0]@.len() <= 1000000,
                map_infos.0@.len() * map_infos.2 <= COORD_LIMIT,
                map_infos.0@[0]@.len() * map_infos.2 <= COORD_LIMIT,
                forall|k: int|
                    i <= k < self.monster_list@.len() ==> #[trigger] self.monster_list@[k] == old(
                        self,
                    ).monster_list@[k],
                monsters_wf(self.monster_list@),
                forall|k: int|
                    0 <= k < i ==> {
                        &&& (#[trigger] self.monster_list@[k]).id_spec() == old(
                            self,
                        ).monster_list@[k].id_spec()
                        &&& self.monster_list@[k].hp_spec() == old(self).monster_list@[k].hp_spec()
                        &&& bot_move_tick_ok(
                            old(self).monster_list@[k]->TestBot_0,
                            self.monster_list@[k]->TestBot_0,
                            dt_ms as int,
                            bloc_list@,
                            map_infos.0.deep_view(),
                            map_infos.1@,
                            map_infos.2 as int,
                        )
                    },
            decreases self.monster_list@.len() - i,
        {
            let mut m = placeholder_monster();
            self.monster_list.set_and_swap(i, &mut m);
            let ghost pre_bot = m->TestBot_0;
            match &mut m {
                Monster::TestBot(tb) => {
                    if tb.brain.wandering_path.len() == 0 && pathfinding_count
                        < pathfinding_threshold {
                        pathfinding_count = pathfinding_count + 1;
                        roll_wander_path(tb, map_infos);
                    }
                    let ghost mid_bot = *tb;
                    proof {
                        // The re-path either left the bot alone or handed
                        // it a valid route toward the drawn goal.
                        assert(bot_repath_ok(
                            pre_bot,
                            mid_bot,
                            map_infos.0.deep_view(),
                            map_infos.1@,
                            map_infos.2 as int,
                        ));
                    }
                    tb.update_movements(dt_ms, bloc_list);
                    proof {
                        assert(bot_move_tick_ok(
                            pre_bot,
                            *tb,
                            dt_ms as int,
                            bloc_list@,
                            map_infos.0.deep_view(),
                            map_infos.1@,
                            map_infos.2 as int,
                        ));
                    }
                },
            }
            self.monster_list.set_and_swap(i, &mut m);
            i = i + 1;
        }
    }

    /// Whether damaging the indexed monster stays within machine limits.
    pub fn monster_damage_ok(&self, monster_index: usize, damage: i32) -> (r: bool)
        requires
            monster_index < self.monster_list@.len(),
        ensures
            r == self.monster_list@[monster_index as int].damage_pre(damage),
    {
        match &self.monster_list[monster_index] {
            Monster::TestBot(tb) => {
                (tb.hp as i64) - (damage as i64) >= i32::MIN as i64 && (tb.hp as i64) - (
                damage as i64) <= i32::MAX as i64
            },
        }
    }

    /// Damages the indexed monster; a dead monster is removed with a
    /// swap-remove and a random drop is rolled for it either way.
    pub fn damage_monster_isdead(
        &mut self,
        monster_index: usize,
        damage: i32,
        id_manager: &mut IdManager,
    ) -> (drop: ObjectDrop)
        requires
            monsters_wf(old(self).monster_list@),
            monster_index < old(self).monster_list@.len(),
            old(self).monster_list@[monster_index as int].damage_pre(damage),
            old(id_manager).wf(),
            old(id_manager).current() < i32::MAX - 1,
        ensures
            final(id_manager).wf(),
            old(id_manager).current() <= final(id_manager).current() <= old(
                id_manager,
            ).current() + 1,
            monsters_wf(final(self).monster_list@),
            ({
                let hit = Monster::damaged_spec(
                    old(self).monster_list@[monster_index as int],
                    damage,
                );
                if hit.hp_spec() < 1 {
                    final(self).monster_list@ == old(self).monster_list@.update(
                        monster_index as int,
                        old(self).monster_list@.last(),
                    ).drop_last()
                } else {
                    final(self).monster_list@ == old(self).monster_list@.update(
                        monster_index as int,
                        hit,
                    )
                }
            }),
            drop matches ObjectDrop::Dropped(w) ==> (w == Weapon::Pistol(
                crate::weapon::pistol_spec(old(id_manager).current() + 1),
            ) || w == Weapon::Knife(crate::weapon::knife_spec(old(id_manager).current() + 1))),
    {
        let mut monster_is_dead = false;
        let mut m = placeholder_monster();
        self.monster_list.set_and_swap(monster_index, &mut m);
        let drop: ObjectDrop;
        match &mut m {
            Monster::TestBot(tb) => {
                tb.take_damages(damage);
                if tb.is_dead() {
                    monster_is_dead = true;
                }
                drop = generate_drop(id_manager);
            },
        }
        self.monster_list.set_and_swap(monster_index, &mut m);
        if monster_is_dead {
            self.monster_list.swap_remove(monster_index);
        }
        drop
    }
}

/// Draws a random goal inside the map border and asks the pathfinder for
/// a route from the bot's center; a found route becomes the bot's
/// wandering path, a failed search (or a body outside the grid) changes
/// nothing.
fn roll_wander_path(tb: &mut TestBot, map_infos: &(Vec<Vec<i32>>, Vec<i32>, i64))
    requires
        old(tb).wf(),
        old(tb).brain.wandering_path@.len() == 0,
        map_infos.2 >= 1,
        map_infos.0@.len() >= 3,
        map_infos.0@[0]@.len() >= 3,
        crate::pathfinding::grid_rectangular(
            map_infos.0.deep_view(),
            map_infos.0@[0]@.len() as int,
        ),
        map_infos.0@.len() * map_infos.0@[0]@.len() <= 1000000,
        map_infos.0@.len() * map_infos.2 <= COORD_LIMIT,
        map_infos.0@[0]@.len() * map_infos.2 <= COORD_LIMIT,
    ensures
        final(tb).wf(),
        bot_repath_ok(
            *old(tb),
            *final(tb),
            map_infos.0.deep_view(),
            map_infos.1@,
            map_infos.2 as int,
        ),
{
    let ts = map_infos.2;
    let rows = map_infos.0.len();
    let cols = map_infos.0[0].len();
    proof {
        assert(cols <= 1000000 && rows <= 1000000) by (nonlinear_arith)
            requires
                rows as int * cols as int <= 1000000,
                rows >= 1,
                cols >= 1,
        ;
        vstd::arithmetic::mul::lemma_mul_inequality(cols as int - 1, cols as int, ts as int);
        vstd::arithmetic::mul::lemma_mul_inequality(rows as int - 1, rows as int, ts as int);
        vstd::arithmetic::mul::lemma_mul_strict_inequality(
            cols as int - 1,
            cols as int,
            ts as int,
        );
        vstd::arithmetic::mul::lemma_mul_strict_inequality(
            rows as int - 1,
            rows as int,
            ts as int,
        );
        assert(2 * ts <= (cols as int - 1) * ts) by (nonlinear_arith)
            requires
                cols as int - 1 >= 2,
                ts >= 1,
        ;
        assert(2 * ts <= (rows as int - 1) * ts) by (nonlinear_arith)
            requires
                rows as int - 1 >= 2,
                ts >= 1,
        ;
        assert((cols as int - 1) * ts == (cols as int) * ts - ts) by (nonlinear_arith);
        assert((rows as int - 1) * ts == (rows as int) * ts - ts) by (nonlinear_arith);
    }
    let random_desired_pos = Pos2D {
        x: rand_range(ts, ((cols - 1) as i64) * ts),
        y: rand_range(ts, ((rows - 1) as i64) * ts),
    };
    let halfw = div_trunc(tb.hitbox.w, 2);
    let halfh = div_trunc(tb.hitbox.h, 2);
    proof {
        vstd::arithmetic::div_mod::lemma_div_pos_is_pos(tb.hitbox.w as int, 2);
        vstd::arithmetic::div_mod::lemma_div_pos_is_pos(tb.hitbox.h as int, 2);
    }
    let center = Pos2D { x: tb.hitbox.x + halfw, y: tb.hitbox.y + halfh };
    proof {
        assert(center == rect_center(tb.hitbox));
    }
    if center.x >= 0 && center.x < (cols as i64) * ts && center.y >= 0 && center.y < (
    rows as i64) * ts {
        let path_result = PathFinding::Astar(center, random_desired_pos, map_infos);
        match path_result {
            PathFindingResult::Found(path) => {
                proof {
                    let g = map_infos.0.deep_view();
                    let cells = choose|cells: Seq<(int, int)>|
                        #[trigger] crate::pathfinding::path_cells_ok(
                            cells,
                            g,
                            map_infos.1@,
                            map_infos.2 as int,
                            g[0].len() as int,
                            g.len() as int,
                            crate::pathfinding::cell_of(center, map_infos.2 as int),
                            crate::pathfinding::cell_of(random_desired_pos, map_infos.2 as int),
                            path@,
                        );
                    assert forall|w: int|
                        0 <= w < path@.len() implies pos_in_bounds(#[trigger] path@[w]) by {
                        assert(0 <= (cells[w]).0);
                    }
                }
                tb.brain.wandering_path = path;
                proof {
                    assert(ts <= random_desired_pos.x < (map_infos.0.deep_view()[0].len() - 1)
                        * ts);
                    assert(ts <= random_desired_pos.y < (map_infos.0.deep_view().len() - 1) * ts);
                    assert(*tb == (TestBot {
                        brain: Brain { wandering_path: tb.brain.wandering_path, ..old(tb).brain },
                        ..*old(tb)
                    }));
                    assert(bot_repath_ok(
                        *old(tb),
                        *tb,
                        map_infos.0.deep_view(),
                        map_infos.1@,
                        map_infos.2 as int,
                    ));
                }
            },
            PathFindingResult::Fail => {},
        }
    }
}

impl EntityTrait for Monster {
    open spec fn hitbox_spec(&self) -> Rect {
        match *self {
            Monster::TestBot(tb) => tb.hitbox,
        }
    }

    open spec fn rot_spec(&self) -> Rot {
        match *self {
            Monster::TestBot(tb) => tb.los.rot,
        }
    }

    open spec fn bypass_spec(&self) -> bool {
        false
    }

    open spec fn id_spec(&self) -> int {
        match *self {
            Monster::TestBot(tb) => tb.id as int,
        }
    }

    open spec fn wf(&self) -> bool {
        match *self {
            Monster::TestBot(tb) => tb.wf(),
        }
    }

    open spec fn damaged_spec(pre: Self, damage: i32) -> Self {
        match pre {
            Monster::TestBot(tb) => Monster::TestBot(
                TestBot { hp: (tb.hp - damage) as i32, ..tb },
            ),
        }
    }

    open spec fn damage_pre(&self, damage: i32) -> bool {
        match *self {
            Monster::TestBot(tb) => i32::MIN <= tb.hp - damage <= i32::MAX,
        }
    }

    proof fn lemma_wf_geometry(&self) {
    }

    fn get_hitbox(&self) -> (r: Rect) {
        match self {
            Monster::TestBot(tb) => tb.hitbox,
        }
    }

    fn get_angle(&self) -> (r: Rot) {
        match self {
            Monster::TestBot(tb) => tb.los.rot,
        }
    }

    fn ray_cast_bypass(&self) -> (r: bool) {
        match self {
            Monster::TestBot(_tb) => false,
        }
    }

    fn rotated_hitbox(&self) -> (v: Vec<Pos2D<i64>>) {
        match self {
            Monster::TestBot(tb) => rotate_square(tb.hitbox, tb.los.rot),
        }
    }

    fn id(&self) -> (r: i32) {
        match self {
            Monster::TestBot(tb) => tb.id,
        }
    }

    fn damage_ok(&self, damage: i32) -> (r: bool) {
        match self {
            Monster::TestBot(tb) => {
                (tb.hp as i64) - (damage as i64) >= i32::MIN as i64 && (tb.hp as i64) - (
                damage as i64) <= i32::MAX as i64
            },
        }
    }

    fn take_damage(&mut self, damage: i32) {
        match self {
            Monster::TestBot(tb) => tb.take_damages(damage),
        }
    }
}

} // verus!
