//! Geometry, collision and raycasting behavior on concrete values.

use roguecore::collision::CheckCollision;
use roguecore::geometry::{
    dist_sq, get_diagonal_size, isqrt, normalize_point, rotate_line, rotate_square, Circle, Pos2D,
    Rect, Rot, SCALE,
};
use roguecore::raycast::{RayCastBlocType, RayCastResult, RayCasting};
use roguecore::bloc::{Bloc, Wall};
use roguecore::map::Tile;

fn wall_at(x: i64, y: i64, size: i64) -> Bloc {
    Bloc::Wall(Wall::new(1, Tile::new(x, y, size, 4, false, Rot::zero())))
}

#[test]
fn normalize_zero_vector_stays_zero() {
    let z = Pos2D { x: 0i64, y: 0i64 };
    let n = normalize_point(z);
    assert_eq!(n.x, 0);
    assert_eq!(n.y, 0);
}

#[test]
fn normalize_axis_vectors() {
    let n = normalize_point(Pos2D { x: 10, y: 0 });
    assert_eq!(n.x, SCALE);
    assert_eq!(n.y, 0);
    let n = normalize_point(Pos2D { x: 0, y: -7 });
    assert_eq!(n.x, 0);
    assert_eq!(n.y, -SCALE);
}

#[test]
fn isqrt_exact_values() {
    assert_eq!(isqrt(0), 0);
    assert_eq!(isqrt(1), 1);
    assert_eq!(isqrt(99), 9);
    assert_eq!(isqrt(100), 10);
    assert_eq!(isqrt(101), 10);
}

#[test]
fn diagonal_size_formula() {
    // A 3-by-4 grid has a diagonal of 5 cells.
    assert_eq!(get_diagonal_size(3, 4, 10), 50);
}

#[test]
fn rotate_rect_identity_returns_corners_in_order() {
    let r = Rect { x: 10, y: 20, w: 6, h: 4 };
    let poly = rotate_square(r, Rot::zero());
    assert_eq!(poly.len(), 5);
    assert_eq!((poly[0].x, poly[0].y), (10, 20));
    assert_eq!((poly[1].x, poly[1].y), (16, 20));
    assert_eq!((poly[2].x, poly[2].y), (16, 24));
    assert_eq!((poly[3].x, poly[3].y), (10, 24));
    assert_eq!((poly[4].x, poly[4].y), (10, 20));
}

#[test]
fn rotate_rect_quarter_turn_preserves_side_lengths() {
    // An exact unit rotation: cosine 0, sine 1 (a quarter turn).
    let r = Rect { x: 0, y: 0, w: 8, h: 6 };
    let quarter = Rot { c: 0, s: SCALE };
    let poly = rotate_square(r, quarter);
    for k in 0..4 {
        let orig = [(0i64, 0i64), (8, 0), (8, 6), (0, 6), (0, 0)];
        let (ax, ay) = orig[k];
        let (bx, by) = orig[k + 1];
        let side = (bx - ax) * (bx - ax) + (by - ay) * (by - ay);
        let rotated = dist_sq(poly[k], poly[k + 1]);
        assert_eq!(side, rotated);
    }
}

#[test]
fn rotate_point_quarter_turn() {
    let origin = Pos2D { x: 0i64, y: 0i64 };
    let p = Pos2D { x: 10i64, y: 0i64 };
    let quarter = Rot { c: 0, s: SCALE };
    let q = rotate_line(origin, p, quarter);
    assert_eq!((q.x, q.y), (0, 10));
}

#[test]
fn squared_distance_exact() {
    let a = Pos2D { x: 1i64, y: 2i64 };
    let b = Pos2D { x: 4i64, y: 6i64 };
    assert_eq!(RayCasting::get_dist_sq(a, b), 25);
}

#[test]
fn closest_point_on_a_horizontal_line() {
    let line = (Pos2D { x: 0i64, y: 3i64 }, Pos2D { x: 10i64, y: 3i64 });
    match CheckCollision::get_closest_point(line, Pos2D { x: 4i64, y: 9i64 }) {
        Some(p) => assert_eq!((p.x, p.y), (4, 3)),
        None => panic!("the line is not degenerate"),
    }
}

#[test]
fn line_crosses_circle_only_when_near_enough() {
    let line = (Pos2D { x: 0i64, y: 3i64 }, Pos2D { x: 10i64, y: 3i64 });
    let near = Circle::new(Pos2D { x: 5, y: 6 }, 4);
    let far = Circle::new(Pos2D { x: 5, y: 20 }, 4);
    assert!(CheckCollision::line_cross_circle(line, near));
    assert!(!CheckCollision::line_cross_circle(line, far));
}

#[test]
fn rect_overlap_is_strict() {
    let a = Rect { x: 0, y: 0, w: 10, h: 10 };
    let touching = Rect { x: 10, y: 0, w: 10, h: 10 };
    let overlapping = Rect { x: 9, y: 0, w: 10, h: 10 };
    assert!(!CheckCollision::two_rect(a, touching));
    assert!(CheckCollision::two_rect(a, overlapping));
}

#[test]
fn point_in_circle_includes_ring() {
    let c = Circle::new(Pos2D { x: 0, y: 0 }, 5);
    assert!(CheckCollision::point_in_circle(Pos2D { x: 3, y: 4 }, c));
    assert!(CheckCollision::point_in_circle(Pos2D { x: 0, y: 5 }, c));
    assert!(!CheckCollision::point_in_circle(Pos2D { x: 0, y: 6 }, c));
}

#[test]
fn free_move_lands_exactly_at_translation() {
    let entity = Rect { x: 100, y: 100, w: 10, h: 10 };
    let blocs = vec![wall_at(500, 500, 50)];
    let moved = CheckCollision::world_collision(entity, Pos2D { x: 7, y: -3 }, &blocs);
    assert_eq!((moved.x, moved.y, moved.w, moved.h), (107, 97, 10, 10));
}

#[test]
fn blocked_from_left_stops_flush_and_stays_put() {
    let entity = Rect { x: 80, y: 100, w: 10, h: 10 };
    let blocs = vec![wall_at(100, 90, 30)];
    // Running right into the wall: the right edge stops flush with the
    // wall's left edge.
    let moved = CheckCollision::world_collision(entity, Pos2D { x: 25, y: 0 }, &blocs);
    assert_eq!((moved.x, moved.y), (90, 100));
    assert_eq!(moved.x + moved.w, 100);
    // Resolving again with zero delta moves nothing.
    let again = CheckCollision::world_collision(moved, Pos2D { x: 0, y: 0 }, &blocs);
    assert_eq!((again.x, again.y), (90, 100));
}

#[test]
fn segment_intersection_point_exact() {
    // A horizontal and a vertical segment crossing at (5, 2).
    let p = RayCasting::get_intersection_point(0, 2, 10, 2, 5, -10, 5, 10);
    match p {
        Some(q) => assert_eq!((q.x, q.y), (5, 2)),
        None => panic!("segments must intersect"),
    }
}

#[test]
fn ray_hits_facing_wall_on_near_edge() {
    let blocs = vec![wall_at(100, 90, 30)];
    let los = (Pos2D { x: 0i64, y: 100i64 }, Pos2D { x: 120i64, y: 100i64 });
    let (seg, idx, hit) = RayCasting::ray_cast(los, &blocs);
    assert!(hit);
    assert_eq!(idx, Some(0));
    assert_eq!((seg.0.x, seg.0.y), (0, 100));
    assert_eq!((seg.1.x, seg.1.y), (100, 100));
}

#[test]
fn ray_misses_transparent_tile() {
    let ghost_tile = Bloc::Air(roguecore::bloc::Air::new(
        1,
        Tile::new(100, 90, 30, -1, true, Rot::zero()),
    ));
    let blocs = vec![ghost_tile];
    let los = (Pos2D { x: 0i64, y: 100i64 }, Pos2D { x: 120i64, y: 100i64 });
    let (seg, idx, hit) = RayCasting::ray_cast(los, &blocs);
    assert!(!hit);
    assert_eq!(idx, None);
    assert_eq!((seg.1.x, seg.1.y), (120, 100));
}

#[test]
fn wall_between_occludes_monster() {
    let blocs = vec![wall_at(100, 90, 30)];
    // A monster standing beyond the wall, also crossed by the unclipped ray.
    let mut brain = roguecore::monster::Brain::new();
    brain.wandering_path = Vec::new();
    let bot = roguecore::monster::TestBot::new(200, 95, 10, 10, 7, brain);
    let bots = vec![roguecore::monster::Monster::TestBot(bot)];
    let los = (Pos2D { x: 0i64, y: 100i64 }, Pos2D { x: 300i64, y: 100i64 });
    let result = RayCasting::ray_cast_tile_monster(los, &blocs, &bots);
    match result {
        RayCastResult::Hit(seg, kind, _d) => {
            assert!(matches!(kind, RayCastBlocType::Bloc(0)));
            assert_eq!((seg.1.x, seg.1.y), (100, 100));
        },
        RayCastResult::Fail => panic!("the wall must be hit"),
    }
}

#[test]
fn monster_hit_when_no_wall_blocks() {
    let blocs: Vec<Bloc> = Vec::new();
    let brain = roguecore::monster::Brain::new();
    let bot = roguecore::monster::TestBot::new(200, 95, 10, 10, 7, brain);
    let bots = vec![roguecore::monster::Monster::TestBot(bot)];
    let los = (Pos2D { x: 0i64, y: 100i64 }, Pos2D { x: 300i64, y: 100i64 });
    let result = RayCasting::ray_cast_tile_monster(los, &blocs, &bots);
    match result {
        RayCastResult::Hit(_seg, kind, _d) => {
            assert!(matches!(kind, RayCastBlocType::Bot(0)));
        },
        RayCastResult::Fail => panic!("the monster must be hit"),
    }
}
