//! Pathfinding and map generation behavior on concrete grids.

use roguecore::geometry::Pos2D;
use roguecore::id::IdManager;
use roguecore::map::GameMap;
use roguecore::monster::{Brain, TestBot};
use roguecore::pathfinding::{PathFinding, PathFindingResult};

/// A 10-by-10 grid: walls on the border, open ground inside.
fn open_grid() -> Vec<Vec<i32>> {
    let mut g: Vec<Vec<i32>> = Vec::new();
    for y in 0..10 {
        let mut row: Vec<i32> = Vec::new();
        for x in 0..10 {
            if x == 0 || y == 0 || x == 9 || y == 9 {
                row.push(4);
            } else {
                row.push(-1);
            }
        }
        g.push(row);
    }
    g
}

fn ghost_tiles() -> Vec<i32> {
    vec![-1, 9, 10, 18, 19, 20, 21]
}

#[test]
fn neighbours_are_clipped_to_the_grid() {
    // An interior cell has all four neighbours, in the fixed order.
    let n = PathFinding::get_neighbours((1, 1), (3, 3));
    assert_eq!(n, vec![(2, 1), (0, 1), (1, 2), (1, 0)]);
    // A corner cell keeps only the in-bounds ones.
    let n = PathFinding::get_neighbours((0, 0), (3, 3));
    assert_eq!(n, vec![(1, 0), (0, 1)]);
}

#[test]
fn pathfinding_grid_nodes_carry_costs_and_ids() {
    let infos = (open_grid(), ghost_tiles(), 10i64);
    let grid = PathFinding::construct_pf_grid(&infos, (1, 1), (8, 8));
    assert_eq!(grid.len(), 10);
    assert_eq!(grid[0].len(), 10);
    // Ids run row by row starting at 1.
    assert_eq!(grid[0][0].id, 1);
    assert_eq!(grid[2][3].id, 24);
    // Border cells are blocking, interior cells walkable.
    assert!(!grid[0][0].transparent);
    assert!(grid[1][1].transparent);
    // The costs are the octile distances to the endpoints, and the parent
    // link starts at the sentinel.
    assert_eq!(grid[1][1].g_cost, 0);
    assert_eq!(grid[1][1].h_cost, 7 * 14);
    assert_eq!(grid[1][1].parent_position, (-1, -1));
    assert_eq!(grid[4][5].position, (5, 4));
}

#[test]
fn octile_distance_formula() {
    // 14 per diagonal step, 10 per straight step.
    assert_eq!(PathFinding::get_distance((0, 0), (3, 0)), 30);
    assert_eq!(PathFinding::get_distance((0, 0), (0, 4)), 40);
    assert_eq!(PathFinding::get_distance((0, 0), (2, 5)), 2 * 14 + 3 * 10);
    assert_eq!(PathFinding::get_distance((5, 5), (5, 5)), 0);
}

#[test]
fn astar_same_cell_returns_single_center() {
    let infos = (open_grid(), ghost_tiles(), 10i64);
    let pos = Pos2D { x: 15i64, y: 15i64 };
    match PathFinding::Astar(pos, pos, &infos) {
        PathFindingResult::Found(path) => {
            assert_eq!(path.len(), 1);
            assert_eq!((path[0].x, path[0].y), (15, 15));
        },
        PathFindingResult::Fail => panic!("a trivial route must be found"),
    }
}

#[test]
fn astar_fails_on_wall_goal() {
    let infos = (open_grid(), ghost_tiles(), 10i64);
    let start = Pos2D { x: 15i64, y: 15i64 };
    // The goal lies in the border wall.
    let goal = Pos2D { x: 95i64, y: 15i64 };
    assert!(matches!(
        PathFinding::Astar(start, goal, &infos),
        PathFindingResult::Fail
    ));
}

#[test]
fn astar_open_grid_end_to_end() {
    let infos = (open_grid(), ghost_tiles(), 10i64);
    let start = Pos2D { x: 10i64, y: 10i64 };
    let goal = Pos2D { x: 80i64, y: 80i64 };
    match PathFinding::Astar(start, goal, &infos) {
        PathFindingResult::Found(path) => {
            assert!(path.len() >= 1);
            // The last waypoint is the goal cell's center.
            let last = path[path.len() - 1];
            assert_eq!((last.x, last.y), (85, 85));
            // The first waypoint is the center of a cell adjacent to the
            // start cell at (1, 1).
            let first = path[0];
            assert!(
                (first.x, first.y) == (25, 15) || (first.x, first.y) == (15, 25),
                "unexpected first waypoint ({}, {})",
                first.x,
                first.y
            );
            // Consecutive waypoints are centers of edge-adjacent cells.
            for i in 0..path.len() - 1 {
                let dx = (path[i + 1].x - path[i].x).abs();
                let dy = (path[i + 1].y - path[i].y).abs();
                assert_eq!(dx + dy, 10);
            }
        },
        PathFindingResult::Fail => panic!("an open grid must have a route"),
    }
}

#[test]
fn walked_path_reaches_goal_without_entering_walls() {
    let grid = open_grid();
    let infos = (grid, ghost_tiles(), 10i64);
    let start = Pos2D { x: 10i64, y: 10i64 };
    let goal = Pos2D { x: 80i64, y: 80i64 };
    let path = match PathFinding::Astar(start, goal, &infos) {
        PathFindingResult::Found(p) => p,
        PathFindingResult::Fail => panic!("an open grid must have a route"),
    };
    // Materialize the same grid so the walk collides with the real walls.
    let mut map = GameMap::new(10);
    map.map_file_content = infos.0.clone();
    map.ghost_tiles = ghost_tiles();
    let mut id_manager = IdManager::new();
    map.crate_tilemap(&mut id_manager);
    // A bot whose body fits a cell, placed so its center is the start
    // cell's center.
    let mut brain = Brain::new();
    brain.wandering_path = path;
    let mut bot = TestBot::new(12, 12, 6, 6, 99, brain);
    for _tick in 0..400 {
        bot.update_movements(50, &map.bloc_list);
        // The bot's body never enters a border wall cell.
        assert!(bot.hitbox.x > 10 && bot.hitbox.x + bot.hitbox.w < 90);
        assert!(bot.hitbox.y > 10 && bot.hitbox.y + bot.hitbox.h < 90);
        if bot.brain.wandering_path.len() == 0 {
            break;
        }
    }
    assert_eq!(bot.brain.wandering_path.len(), 0);
    // The bot ends within a small epsilon of the literal goal center.
    let cx = bot.hitbox.x + bot.hitbox.w / 2;
    let cy = bot.hitbox.y + bot.hitbox.h / 2;
    assert!((cx - 85).abs() <= 2, "ended at x {}", cx);
    assert!((cy - 85).abs() <= 2, "ended at y {}", cy);
}

#[test]
fn generated_map_has_walled_border_and_marked_cells() {
    let mut noise: Vec<Vec<i64>> = Vec::new();
    for y in 0..12 {
        let mut row: Vec<i64> = Vec::new();
        for x in 0..12 {
            // A mild checkered field: open ground with a few walls.
            if (x + y) % 5 == 0 {
                row.push(700);
            } else {
                row.push(0);
            }
        }
        noise.push(row);
    }
    let mut map = GameMap::new(10);
    let mut id_manager = IdManager::new();
    map.gen_new_map(&noise, &mut id_manager);
    assert_eq!(map.total_rows, 12);
    assert_eq!(map.total_cols, 12);
    assert_eq!(map.bloc_list.len(), 144);
    for x in 0..12 {
        assert_eq!(map.map_file_content[0][x], 4);
        assert_eq!(map.map_file_content[11][x], 4);
        assert_eq!(map.map_file_content[x][0], 4);
        assert_eq!(map.map_file_content[x][11], 4);
    }
    let sx = map.spawn.x as usize;
    let sy = map.spawn.y as usize;
    let ex = map.end.x as usize;
    let ey = map.end.y as usize;
    assert_eq!(map.map_file_content[sy][sx], 20);
    assert_eq!(map.map_file_content[ey][ex], 21);
}

#[test]
fn all_wall_interior_falls_back_to_carved_corridor() {
    // Every interior cell classifies to wall, so every sampling attempt
    // fails and the generator carves its guaranteed corridor.
    let mut noise: Vec<Vec<i64>> = Vec::new();
    for _y in 0..8 {
        let mut row: Vec<i64> = Vec::new();
        for _x in 0..8 {
            row.push(700);
        }
        noise.push(row);
    }
    let mut map = GameMap::new(10);
    let mut id_manager = IdManager::new();
    map.gen_new_map(&noise, &mut id_manager);
    assert_eq!((map.spawn.x, map.spawn.y), (1, 1));
    assert_eq!((map.end.x, map.end.y), (6, 6));
    assert_eq!(map.map_file_content[1][1], 20);
    assert_eq!(map.map_file_content[6][6], 21);
    // The corridor runs along row 1 and down the column left of the
    // border.
    for x in 2..7 {
        assert_eq!(map.map_file_content[1][x], -1);
    }
    for y in 2..6 {
        assert_eq!(map.map_file_content[y][6], -1);
    }
    // The pathfinder confirms the carved connection on the final grid.
    let infos = (map.map_file_content.clone(), ghost_tiles(), 10i64);
    let start = Pos2D { x: 15i64, y: 15i64 };
    let goal = Pos2D { x: 65i64, y: 65i64 };
    assert!(matches!(
        PathFinding::Astar(start, goal, &infos),
        PathFindingResult::Found(_)
    ));
}

#[test]
fn high_difficulty_turns_low_ground_to_lava() {
    let mut noise: Vec<Vec<i64>> = Vec::new();
    for _y in 0..6 {
        let mut row: Vec<i64> = Vec::new();
        for _x in 0..6 {
            row.push(-700);
        }
        noise.push(row);
    }
    let mut map = GameMap::new(10);
    map.difficulty = 25;
    let mut id_manager = IdManager::new();
    map.gen_new_map(&noise, &mut id_manager);
    // Interior cells classify to lava unless marked as spawn or exit.
    let mut lava_count = 0;
    for y in 1..5 {
        for x in 1..5 {
            let m = map.map_file_content[y][x];
            assert!(m == 18 || m == 20 || m == 21 || m == -1);
            if m == 18 {
                lava_count += 1;
            }
        }
    }
    assert!(lava_count > 0);
}
