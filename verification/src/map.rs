//! The tile map: per-cell tiles, the map that owns them, procedural
//! assembly from a sampled noise field, and tile effects on entities.

use vstd::prelude::*;
use crate::bloc::{blocs_wf, has_fresh_id, times_wf, Air, Bloc, Lava, Wall, Water};
use crate::entity::EntityTrait;
use crate::collision::point_strictly_in_rect;
use crate::geometry::{
    get_diagonal_size, rect_center, rect_wf, rotate_square, rotate_square_spec, rot_zero, Pos2D,
    Rect, Rot, COORD_LIMIT,
};
use crate::id::IdManager;
use crate::pathfinding::{contains_i32, PathFinding, PathFindingResult};
use crate::rng::rand_range;

verus! {

/// One cell of the map: a world-space hitbox, a material code, whether the
/// cell blocks movement and rays, and its orientation.
#[derive(Clone, Copy, Debug, PartialEq, Eq, Structural)]
pub struct Tile {
    pub hitbox: Rect,
    pub material: i32,
    pub transparent: bool,
    pub rot: Rot,
}

impl Tile {
    /// A tile's geometry stays inside the world bounds.
    pub open spec fn wf(self) -> bool {
        rect_wf(self.hitbox) && self.rot.wf()
    }

    /// A square tile at world position `(x, y)` with side `size`.
    pub fn new(x: i64, y: i64, size: i64, material: i32, transparent: bool, rot: Rot) -> (r: Self)
        ensures
            r.hitbox == (Rect { x, y, w: size, h: size }),
            r.material == material,
            r.transparent == transparent,
            r.rot == rot,
    {
        Tile { hitbox: Rect { x, y, w: size, h: size }, material, transparent, rot }
    }

    /// The tile's oriented corner polygon.
    pub fn get_rotated_hitbox(&self) -> (v: Vec<Pos2D<i64>>)
        requires
            self.wf(),
        ensures
            v@ == rotate_square_spec(self.hitbox, self.rot),
    {
        rotate_square(self.hitbox, self.rot)
    }
}

/// How many resampling attempts the generator makes before it falls back
/// to carving a guaranteed corridor.
pub const MAX_GEN_TRIES: usize = 64;

/// The level map: its title, the tile size, the raw material grid, the
/// materialized cell list, the ghost (non-blocking) material codes, the
/// dimensions, the difficulty counter, and the spawn and exit cells.
pub struct GameMap {
    pub map_title: String,
    pub tile_size: i64,
    pub map_file_content: Vec<Vec<i32>>,
    pub bloc_list: Vec<Bloc>,
    pub ghost_tiles: Vec<i32>,
    pub total_rows: i64,
    pub total_cols: i64,
    pub diag_size: i64,
    pub difficulty: u32,
    pub spawn: Pos2D<i64>,
    pub end: Pos2D<i64>,
}

/// The material an interior cell gets from its noise level (scaled by a
/// thousand): the lowest band is the difficulty-dependent hazard tier, the
/// middle band open ground, the top band wall.
pub open spec fn classify(level: int, difficulty: int) -> i32 {
    if level <= -600 {
        if 5 <= difficulty < 20 {
            9i32
        } else if difficulty >= 20 {
            18i32
        } else {
            -1i32
        }
    } else if level <= 500 {
        -1i32
    } else {
        4i32
    }
}

/// The material of a generated cell: border cells are always wall, the
/// interior is classified from the noise field.
pub open spec fn gen_cell(
    noise: Seq<Seq<i64>>,
    difficulty: int,
    x: int,
    y: int,
    cols: int,
    rows: int,
) -> i32 {
    if x == 0 || y == 0 || x == cols - 1 || y == rows - 1 {
        4i32
    } else {
        classify(noise[y][x] as int, difficulty)
    }
}

/// A material code the tilemap builder recognizes.
pub open spec fn material_recognized(m: i32) -> bool {
    m == -1 || m == 4 || m == 9 || m == 18 || m == 20 || m == 21
}

/// Every cell of the grid holds a recognized material.
pub open spec fn all_recognized(g: Seq<Seq<i32>>) -> bool {
    forall|y: int, x: int|
        0 <= y < g.len() && 0 <= x < g[y].len() ==> material_recognized(#[trigger] g[y][x])
}

/// What the tilemap builder makes of one cell: a square tile of the cell's
/// material at the cell's world rectangle, transparent exactly for ghost
/// materials, wrapped in the variant the material calls for (spawn and end
/// markers walk like ground), with ids running row by row.
pub open spec fn bloc_for_cell(
    b: Bloc,
    g: Seq<Seq<i32>>,
    ghosts: Seq<i32>,
    ts: int,
    cols: int,
    x: int,
    y: int,
    id_base: int,
) -> bool {
    let m = g[y][x];
    &&& b.tile_spec() == (Tile {
        hitbox: Rect { x: (x * ts) as i64, y: (y * ts) as i64, w: ts as i64, h: ts as i64 },
        material: m,
        transparent: ghosts.contains(m),
        rot: rot_zero(),
    })
    &&& b.id_spec() == id_base + y * cols + x + 1
    &&& ((b is Wall) <==> m == 4)
    &&& ((b is Water) <==> m == 9)
    &&& ((b is Lava) <==> m == 18)
    &&& ((b is Air) <==> (m == -1 || m == 20 || m == 21))
    &&& (b matches Bloc::Lava(l) ==> l.id_time_list@.len() == 0 && l.damage == 5
        && l.damage_speed == 500)
}

/// Every materialized cell corresponds to its grid cell.
pub open spec fn tilemap_built(
    blocs: Seq<Bloc>,
    g: Seq<Seq<i32>>,
    ghosts: Seq<i32>,
    ts: int,
    cols: int,
    rows: int,
    id_base: int,
) -> bool {
    &&& blocs.len() == rows * cols
    &&& forall|y: int, x: int|
        0 <= y < rows && 0 <= x < cols ==> bloc_for_cell(
            #[trigger] blocs[y * cols + x],
            g,
            ghosts,
            ts,
            cols,
            x,
            y,
            id_base,
        )
}

/// Writes one cell of the raw grid.
fn set_cell(grid: &mut Vec<Vec<i32>>, x: usize, y: usize, v: i32)
    requires
        y < old(grid)@.len(),
        x < old(grid)@[y as int]@.len(),
    ensures
        final(grid)@.len() == old(grid)@.len(),
        forall|yy: int|
            0 <= yy < old(grid)@.len() && yy != y ==> #[trigger] final(grid)@[yy] == old(
                grid,
            )@[yy],
        final(grid)@[y as int]@ == old(grid)@[y as int]@.update(x as int, v),
    {
    let mut row: Vec<i32> = Vec::new();
    grid.set_and_swap(y, &mut row);
    row.set(x, v);
    grid.set_and_swap(y, &mut row);
}

/// One hazard step: a lava cell whose rectangle strictly contains the
/// entity's center deals its damage exactly when no cooldown entry for the
/// entity's id is still fresh and the damage is within machine limits;
/// every other cell, a running cooldown, or out-of-limit damage changes
/// nothing.
pub open spec fn hazard_step_ok<E: EntityTrait>(b: Bloc, before: E, after: E, now: int) -> bool {
    if point_strictly_in_rect(rect_center(before.hitbox_spec()), b.tile_spec().hitbox) && (b
        is Lava) && !has_fresh_id(
        b->Lava_0.id_time_list@,
        before.id_spec(),
        now,
        b->Lava_0.damage_speed as int,
    ) && before.damage_pre(b->Lava_0.damage) {
        after == E::damaged_spec(before, b->Lava_0.damage)
    } else {
        after == before
    }
}

/// `states` records the entity before and after each cell of the walk and
/// every consecutive pair is one hazard step.
pub open spec fn hazard_trace_ok<E: EntityTrait>(blocs: Seq<Bloc>, states: Seq<E>, now: int) -> bool {
    &&& states.len() == blocs.len() + 1
    &&& forall|i: int|
        0 <= i < blocs.len() ==> #[trigger] hazard_step_ok(blocs[i], states[i], states[i + 1], now)
}

/// The entity after walking the hazard cells in list order: some trace of
/// intermediate states connects the old entity to the new one, one hazard
/// step per cell.
pub open spec fn hazard_steps_rel<E: EntityTrait>(
    blocs: Seq<Bloc>,
    e0: E,
    e1: E,
    now: int,
) -> bool {
    exists|states: Seq<E>|
        {
            &&& #[trigger] hazard_trace_ok(blocs, states, now)
            &&& states[0] == e0
            &&& states[states.len() - 1] == e1
        }
}

/// Every lava cell's cooldown table is well-formed.
pub open spec fn blocs_hazard_wf(s: Seq<Bloc>) -> bool {
    forall|i: int|
        0 <= i < s.len() ==> ((#[trigger] s[i]) matches Bloc::Lava(l) ==> times_wf(
            l.id_time_list@,
        ))
}

impl GameMap {
    /// An empty map waiting for generation.
    pub fn new(tile_size: i64) -> (r: Self)
        ensures
            r.tile_size == tile_size,
            r.map_file_content@.len() == 0,
            r.bloc_list@.len() == 0,
            r.ghost_tiles@.len() == 0,
            r.total_rows == 0,
            r.total_cols == 0,
            r.difficulty == 0,
    {
        GameMap {
            map_title: String::new(),
            tile_size,
            map_file_content: Vec::new(),
            bloc_list: Vec::new(),
            ghost_tiles: Vec::new(),
            total_rows: 0,
            total_cols: 0,
            diag_size: 0,
            difficulty: 0,
            spawn: Pos2D { x: 0, y: 0 },
            end: Pos2D { x: 0, y: 0 },
        }
    }

    /// Generates a fresh level from a sampled noise field (levels scaled
    /// by a thousand): the border is forced to wall, the interior is
    /// classified by noise bands, a connected spawn and exit pair is found
    /// by rejection sampling against the pathfinder with a bounded retry
    /// count, and a straight corridor is carved as a fallback so
    /// generation can never loop forever. The grid is then materialized
    /// into the bloc list.
    pub fn gen_new_map(&mut self, noise_levels: &Vec<Vec<i64>>, id_manager: &mut IdManager)
        requires
            old(id_manager).wf(),
            noise_levels@.len() >= 4,
            noise_levels@[0]@.len() >= 4,
            forall|y: int|
                0 <= y < noise_levels@.len() ==> (#[trigger] noise_levels@[y])@.len()
                    == noise_levels@[0]@.len(),
            noise_levels@.len() * noise_levels@[0]@.len() <= 1000000,
            old(self).tile_size >= 1,
            noise_levels@.len() * old(self).tile_size <= COORD_LIMIT,
            noise_levels@[0]@.len() * old(self).tile_size <= COORD_LIMIT,
            old(id_manager).current() + noise_levels@.len() * noise_levels@[0]@.len()
                < i32::MAX,
        ensures
            final(id_manager).wf(),
            final(self).tile_size == old(self).tile_size,
            final(self).difficulty == old(self).difficulty,
            final(self).total_rows == noise_levels@.len(),
            final(self).total_cols == noise_levels@[0]@.len(),
            final(self).map_file_content@.len() == noise_levels@.len(),
            forall|y: int|
                0 <= y < final(self).map_file_content@.len()
                    ==> (#[trigger] final(self).map_file_content@[y])@.len()
                    == noise_levels@[0]@.len(),
            ({
                let m = final(self).map_file_content@;
                let noise = noise_levels.deep_view();
                let rows = noise_levels@.len() as int;
                let cols = noise_levels@[0]@.len() as int;
                let sc = (final(self).spawn.x as int, final(self).spawn.y as int);
                let ec = (final(self).end.x as int, final(self).end.y as int);
                &&& forall|y: int, x: int|
                    0 <= y < rows && 0 <= x < cols && (x, y) != (sc.0, sc.1) && (x, y) != (
                    ec.0,
                    ec.1,
                    ) ==> ((#[trigger] m[y]@[x]) == gen_cell(
                        noise,
                        final(self).difficulty as int,
                        x,
                        y,
                        cols,
                        rows,
                    ) || (m[y]@[x] == -1 && ((y == 1 && 1 <= x < cols - 1) || (x == cols - 2 && 1
                        <= y < rows - 1))))
                &&& forall|y: int, x: int|
                    0 <= y < rows && 0 <= x < cols && (x == 0 || y == 0 || x == cols - 1 || y
                        == rows - 1) ==> (#[trigger] m[y]@[x]) == 4
                &&& 1 <= sc.0 < cols - 1 && 1 <= sc.1 < rows - 1
                &&& 1 <= ec.0 < cols - 1 && 1 <= ec.1 < rows - 1
                &&& sc != ec
                &&& m[sc.1]@[sc.0] == 20
                &&& m[ec.1]@[ec.0] == 21
                &&& crate::pathfinding::cells_connected(
                    final(self).map_file_content.deep_view(),
                    final(self).ghost_tiles@,
                    cols,
                    rows,
                    sc,
                    ec,
                )
                &&& tilemap_built(
                    final(self).bloc_list@,
                    final(self).map_file_content.deep_view(),
                    final(self).ghost_tiles@,
                    final(self).tile_size as int,
                    cols,
                    rows,
                    old(id_manager).current(),
                )
            }),
            final(self).ghost_tiles@ == seq![-1i32, 9i32, 10i32, 18i32, 19i32, 20i32, 21i32],
            blocs_wf(final(self).bloc_list@),
            blocs_hazard_wf(final(self).bloc_list@),
    {
        let ts = self.tile_size;
        let rows = noise_levels.len();
        let cols = noise_levels[0].len();
        let ghost noise = noise_levels.deep_view();
        let ghost diff = self.difficulty;
        let mut ghost_tiles: Vec<i32> = Vec::new();
        ghost_tiles.push(-1);
        ghost_tiles.push(9);
        ghost_tiles.push(10);
        ghost_tiles.push(18);
        ghost_tiles.push(19);
        ghost_tiles.push(20);
        ghost_tiles.push(21);
        proof {
            assert(ghost_tiles@ =~= seq![-1i32, 9i32, 10i32, 18i32, 19i32, 20i32, 21i32]);
            assert(cols <= 1000000 && rows <= 1000000) by (nonlinear_arith)
                requires
                    rows as int * cols as int <= 1000000,
                    rows >= 1,
                    cols >= 1,
            ;
        }
        self.ghost_tiles = ghost_tiles;
        // Classify the noise field into the material grid.
        let mut map_vec: Vec<Vec<i32>> = Vec::new();
        let mut y: usize = 0;
        while y < rows
            invariant
                0 <= y <= rows,
                rows == noise_levels@.len(),
                cols == noise_levels@[0]@.len(),
                4 <= rows <= 1000000,
                4 <= cols <= 1000000,
                noise == noise_levels.deep_view(),
                diff == self.difficulty,
                forall|yy: int|
                    0 <= yy < rows ==> (#[trigger] noise_levels@[yy])@.len() == cols,
                map_vec@.len() == y,
                forall|yy: int| 0 <= yy < y ==> (#[trigger] map_vec@[yy])@.len() == cols,
                forall|yy: int, xx: int|
                    0 <= yy < y && 0 <= xx < cols ==> (#[trigger] map_vec@[yy]@[xx]) == gen_cell(
                        noise,
                        diff as int,
                        xx,
                        yy,
                        cols as int,
                        rows as int,
                    ),
            decreases rows - y,
        {
            let mut line: Vec<i32> = Vec::new();
            let mut x: usize = 0;
            while x < cols
                invariant
                    0 <= x <= cols,
                    0 <= y < rows,
                    rows == noise_levels@.len(),
                    cols == noise_levels@[0]@.len(),
                    noise == noise_levels.deep_view(),
                    diff == self.difficulty,
                    forall|yy: int|
                        0 <= yy < rows ==> (#[trigger] noise_levels@[yy])@.len() == cols,
                    line@.len() == x,
                    forall|xx: int|
                        0 <= xx < x ==> (#[trigger] line@[xx]) == gen_cell(
                            noise,
                            diff as int,
                            xx,
                            y as int,
                            cols as int,
                            rows as int,
                        ),
                decreases cols - x,
            {
                proof {
                    assert(noise[y as int] =~= noise_levels@[y as int]@);
                }
                let m: i32 = if x == 0 || y == 0 || x == cols - 1 || y == rows - 1 {
                    4
                } else {
                    let level = noise_levels[y][x];
                    if level <= -600 {
                        if self.difficulty >= 5 && self.difficulty < 20 {
                            9
                        } else if self.difficulty >= 20 {
                            18
                        } else {
                            -1
                        }
                    } else if level <= 500 {
                        -1
                    } else {
                        4
                    }
                };
                line.push(m);
                x = x + 1;
            }
            map_vec.push(line);
            y = y + 1;
        }
        // Rejection-sample a connected spawn and exit pair, with a bounded
        // retry count.
        let mut start_cell: (usize, usize) = (1, 1);
        let mut end_cell: (usize, usize) = (cols - 2, rows - 2);
        let mut found = false;
        let mut ghosts2: Vec<i32> = Vec::new();
        ghosts2.push(-1);
        ghosts2.push(9);
        ghosts2.push(10);
        ghosts2.push(18);
        ghosts2.push(19);
        ghosts2.push(20);
        ghosts2.push(21);
        proof {
            assert(ghosts2@ =~= seq![-1i32, 9i32, 10i32, 18i32, 19i32, 20i32, 21i32]);
        }
        let map_infos = (map_vec, ghosts2, ts);
        let mut tries: usize = 0;
        while tries < MAX_GEN_TRIES && !found
            invariant
                rows == noise_levels@.len(),
                cols == noise_levels@[0]@.len(),
                4 <= rows <= 1000000,
                4 <= cols <= 1000000,
                rows * cols <= 1000000,
                ts >= 1,
                rows * ts <= COORD_LIMIT,
                cols * ts <= COORD_LIMIT,
                map_infos.2 == ts,
                map_infos.0@.len() == rows,
                forall|yy: int|
                    0 <= yy < rows ==> (#[trigger] map_infos.0@[yy])@.len() == cols,
                found ==> (1 <= start_cell.0 < cols - 1 && 1 <= start_cell.1 < rows - 1 && 1
                    <= end_cell.0 < cols - 1 && 1 <= end_cell.1 < rows - 1 && start_cell.0
                    < end_cell.0 && start_cell.1 < end_cell.1),
                found ==> crate::pathfinding::cells_connected(
                    map_infos.0.deep_view(),
                    map_infos.1@,
                    cols as int,
                    rows as int,
                    (start_cell.0 as int, start_cell.1 as int),
                    (end_cell.0 as int, end_cell.1 as int),
                ),
                !found ==> (start_cell == (1usize, 1usize) && end_cell == ((cols - 2) as usize, (
                rows - 2) as usize)),
            decreases MAX_GEN_TRIES - tries,
        {
            tries = tries + 1;
            proof {
                vstd::arithmetic::mul::lemma_mul_strict_inequality(
                    cols as int / 2,
                    cols as int,
                    ts as int,
                );
                vstd::arithmetic::mul::lemma_mul_strict_inequality(
                    rows as int / 2,
                    rows as int,
                    ts as int,
                );
            }
            let sx = rand_range(1, (cols / 2) as i64) as usize;
            let sy = rand_range(1, (rows / 2) as i64) as usize;
            let ex = rand_range((cols / 2) as i64, (cols - 1) as i64) as usize;
            let ey = rand_range((rows / 2) as i64, (rows - 1) as i64) as usize;
            proof {
                vstd::arithmetic::mul::lemma_mul_strict_inequality(
                    sx as int,
                    cols as int,
                    ts as int,
                );
                vstd::arithmetic::mul::lemma_mul_strict_inequality(
                    sy as int,
                    rows as int,
                    ts as int,
                );
                vstd::arithmetic::mul::lemma_mul_strict_inequality(
                    ex as int,
                    cols as int,
                    ts as int,
                );
                vstd::arithmetic::mul::lemma_mul_strict_inequality(
                    ey as int,
                    rows as int,
                    ts as int,
                );
                assert((sx as int) * ts >= 0 && (sy as int) * ts >= 0 && (ex as int) * ts >= 0
                    && (ey as int) * ts >= 0) by (nonlinear_arith)
                    requires
                        sx >= 0,
                        sy >= 0,
                        ex >= 0,
                        ey >= 0,
                        ts >= 1,
                ;
                let g0 = map_infos.0.deep_view();
                assert forall|yy: int| 0 <= yy < rows implies (#[trigger] g0[yy]).len()
                    == cols by {
                    assert(g0[yy] =~= map_infos.0@[yy]@);
                }
                assert(g0[0] =~= map_infos.0@[0]@);
            }
            let start_pos = Pos2D { x: (sx as i64) * ts, y: (sy as i64) * ts };
            let end_pos = Pos2D { x: (ex as i64) * ts, y: (ey as i64) * ts };
            match PathFinding::Astar(start_pos, end_pos, &map_infos) {
                PathFindingResult::Found(path) => {
                    found = true;
                    start_cell = (sx, sy);
                    end_cell = (ex, ey);
                    proof {
                        // The found route is a walkable chain between the
                        // sampled cells.
                        let g0 = map_infos.0.deep_view();
                        vstd::arithmetic::div_mod::lemma_div_multiples_vanish(
                            sx as int,
                            ts as int,
                        );
                        vstd::arithmetic::div_mod::lemma_div_multiples_vanish(
                            sy as int,
                            ts as int,
                        );
                        vstd::arithmetic::div_mod::lemma_div_multiples_vanish(
                            ex as int,
                            ts as int,
                        );
                        vstd::arithmetic::div_mod::lemma_div_multiples_vanish(
                            ey as int,
                            ts as int,
                        );
                        assert((sx as int) * ts == ts as int * (sx as int)) by (nonlinear_arith);
                        assert((sy as int) * ts == ts as int * (sy as int)) by (nonlinear_arith);
                        assert((ex as int) * ts == ts as int * (ex as int)) by (nonlinear_arith);
                        assert((ey as int) * ts == ts as int * (ey as int)) by (nonlinear_arith);
                        assert(crate::pathfinding::cell_of(start_pos, ts as int) == (
                        sx as int,
                        sy as int,
                        ));
                        assert(crate::pathfinding::cell_of(end_pos, ts as int) == (
                        ex as int,
                        ey as int,
                        ));
                        let cells = choose|cells: Seq<(int, int)>|
                            #[trigger] crate::pathfinding::path_cells_ok(
                                cells,
                                g0,
                                map_infos.1@,
                                ts as int,
                                g0[0].len() as int,
                                g0.len() as int,
                                (sx as int, sy as int),
                                (ex as int, ey as int),
                                path@,
                            );
                        assert(crate::pathfinding::walkable_chain(
                            cells,
                            g0,
                            map_infos.1@,
                            cols as int,
                            rows as int,
                            (sx as int, sy as int),
                            (ex as int, ey as int),
                        ));
                    }
                },
                PathFindingResult::Fail => {},
            }
        }
        let ghost classified = map_infos.0@;
        let ghost classified_dv = map_infos.0.deep_view();
        let (mut map_vec, _ghosts2, _ts2) = map_infos;
        proof {
            assert(map_vec@ == classified);
        }
        if !found {
            // Fallback: carve an L-shaped ground corridor between the two
            // default cells so the pair is connected by construction.
            let mut cx: usize = 1;
            while cx < cols - 1
                invariant
                    1 <= cx <= cols - 1,
                    4 <= rows,
                    4 <= cols,
                    map_vec@.len() == rows,
                    forall|yy: int| 0 <= yy < rows ==> (#[trigger] map_vec@[yy])@.len() == cols,
                    forall|yy: int, xx: int|
                        0 <= yy < rows && 0 <= xx < cols ==> ((#[trigger] map_vec@[yy]@[xx])
                            == classified[yy]@[xx] || (map_vec@[yy]@[xx] == -1 && ((yy == 1 && 1
                            <= xx < cols - 1) || (xx == cols - 2 && 1 <= yy < rows - 1)))),
                    forall|xx: int| 1 <= xx < cx ==> (#[trigger] map_vec@[1]@[xx]) == -1,
                decreases cols - 1 - cx,
            {
                let ghost pre = map_vec@;
                set_cell(&mut map_vec, cx, 1, -1);
                proof {
                    assert forall|yy: int, xx: int|
                        0 <= yy < rows && 0 <= xx < cols implies ((#[trigger] map_vec@[yy]@[xx])
                        == classified[yy]@[xx] || (map_vec@[yy]@[xx] == -1 && ((yy == 1 && 1 <= xx
                        < cols - 1) || (xx == cols - 2 && 1 <= yy < rows - 1)))) by {
                        if yy == 1 {
                            assert(map_vec@[yy]@ == pre[yy]@.update(cx as int, -1i32));
                        } else {
                            assert(map_vec@[yy] == pre[yy]);
                        }
                    }
                }
                cx = cx + 1;
            }
            let mut cy: usize = 1;
            while cy < rows - 1
                invariant
                    1 <= cy <= rows - 1,
                    4 <= rows,
                    4 <= cols,
                    map_vec@.len() == rows,
                    forall|yy: int| 0 <= yy < rows ==> (#[trigger] map_vec@[yy])@.len() == cols,
                    forall|yy: int, xx: int|
                        0 <= yy < rows && 0 <= xx < cols ==> ((#[trigger] map_vec@[yy]@[xx])
                            == classified[yy]@[xx] || (map_vec@[yy]@[xx] == -1 && ((yy == 1 && 1
                            <= xx < cols - 1) || (xx == cols - 2 && 1 <= yy < rows - 1)))),
                    forall|xx: int| 1 <= xx < cols - 1 ==> (#[trigger] map_vec@[1]@[xx]) == -1,
                    forall|yy: int| 1 <= yy < cy ==> (#[trigger] map_vec@[yy]@[cols - 2]) == -1,
                decreases rows - 1 - cy,
            {
                let ghost pre = map_vec@;
                set_cell(&mut map_vec, cols - 2, cy, -1);
                proof {
                    assert forall|yy: int, xx: int|
                        0 <= yy < rows && 0 <= xx < cols implies ((#[trigger] map_vec@[yy]@[xx])
                        == classified[yy]@[xx] || (map_vec@[yy]@[xx] == -1 && ((yy == 1 && 1 <= xx
                        < cols - 1) || (xx == cols - 2 && 1 <= yy < rows - 1)))) by {
                        if yy == cy {
                            assert(map_vec@[yy]@ == pre[yy]@.update(cols as int - 2, -1i32));
                        } else {
                            assert(map_vec@[yy] == pre[yy]);
                        }
                    }
                }
                cy = cy + 1;
            }
            proof {
                // The whole corridor is carved to ground.
                assert(forall|xx: int| 1 <= xx < cols - 1 ==> (#[trigger] map_vec@[1]@[xx]) == -1);
                assert(forall|yy: int|
                    1 <= yy < rows - 1 ==> (#[trigger] map_vec@[yy]@[cols - 2]) == -1);
            }
        }
        // Mark the chosen spawn and exit cells.
        let ghost carved = map_vec@;
        set_cell(&mut map_vec, start_cell.0, start_cell.1, 20);
        let ghost marked1 = map_vec@;
        set_cell(&mut map_vec, end_cell.0, end_cell.1, 21);
        self.spawn = Pos2D { x: start_cell.0 as i64, y: start_cell.1 as i64 };
        self.end = Pos2D { x: end_cell.0 as i64, y: end_cell.1 as i64 };
        self.map_file_content = map_vec;
        self.total_rows = rows as i64;
        self.total_cols = cols as i64;
        proof {
            vstd::arithmetic::mul::lemma_mul_inequality(1, rows as int, ts as int);
            vstd::arithmetic::mul::lemma_mul_inequality(1, cols as int, ts as int);
            assert(1 * (ts as int) == ts as int) by (nonlinear_arith);
            // The marks land on distinct interior cells.
            assert(self.map_file_content@[start_cell.1 as int]@[start_cell.0 as int] == 20);
            assert(self.map_file_content@[end_cell.1 as int]@[end_cell.0 as int] == 21);
            // Every unmarked cell is the classified material or carved
            // corridor ground on the corridor's two lines.
            assert forall|yy: int, xx: int|
                0 <= yy < rows && 0 <= xx < cols && (xx, yy) != (
                    start_cell.0 as int,
                    start_cell.1 as int,
                ) && (xx, yy) != (end_cell.0 as int, end_cell.1 as int) implies ((
                #[trigger] self.map_file_content@[yy]@[xx]) == gen_cell(
                    noise,
                    diff as int,
                    xx,
                    yy,
                    cols as int,
                    rows as int,
                ) || (self.map_file_content@[yy]@[xx] == -1 && ((yy == 1 && 1 <= xx < cols as int
                    - 1) || (xx == cols as int - 2 && 1 <= yy < rows as int - 1)))) by {
                if yy == end_cell.1 {
                    assert(self.map_file_content@[yy]@ == marked1[yy]@.update(
                        end_cell.0 as int,
                        21i32,
                    ));
                } else {
                    assert(self.map_file_content@[yy] == marked1[yy]);
                }
                if yy == start_cell.1 {
                    assert(marked1[yy]@ == carved[yy]@.update(start_cell.0 as int, 20i32));
                } else {
                    assert(marked1[yy] == carved[yy]);
                }
            }
            // Border cells keep their wall material.
            assert forall|yy: int, xx: int|
                0 <= yy < rows && 0 <= xx < cols && (xx == 0 || yy == 0 || xx == cols as int - 1
                    || yy == rows as int - 1) implies (#[trigger] self.map_file_content@[yy]@[xx])
                == 4 by {
                if yy == end_cell.1 {
                    assert(self.map_file_content@[yy]@ == marked1[yy]@.update(
                        end_cell.0 as int,
                        21i32,
                    ));
                } else {
                    assert(self.map_file_content@[yy] == marked1[yy]);
                }
                if yy == start_cell.1 {
                    assert(marked1[yy]@ == carved[yy]@.update(start_cell.0 as int, 20i32));
                } else {
                    assert(marked1[yy] == carved[yy]);
                }
                assert(self.map_file_content@[yy]@[xx] == carved[yy]@[xx]);
                assert(carved[yy]@[xx] == classified[yy]@[xx]);
            }
            // Everything in the grid is a recognized material.
            assert forall|yy: int, xx: int|
                0 <= yy < self.map_file_content.deep_view().len() && 0 <= xx
                    < self.map_file_content.deep_view()[yy].len() implies material_recognized(
                #[trigger] self.map_file_content.deep_view()[yy][xx],
            ) by {
                assert(self.map_file_content.deep_view()[yy] =~= self.map_file_content@[yy]@);
            }
            assert(all_recognized(self.map_file_content.deep_view()));
            assert forall|yy: int|
                0 <= yy < rows implies (#[trigger] self.map_file_content.deep_view()[yy]).len()
                == cols by {
                assert(self.map_file_content.deep_view()[yy] =~= self.map_file_content@[yy]@);
            }
            assert(self.map_file_content.deep_view()[0] =~= self.map_file_content@[0]@);
            // Spawn and exit stay connected: the found route survives the
            // two marks (both marks are walkable materials), and the
            // fallback corridor is a walkable chain by construction.
            let fdv = self.map_file_content.deep_view();
            let gseq = self.ghost_tiles@;
            assert(gseq[0] == -1i32 && gseq[5] == 20i32 && gseq[6] == 21i32);
            assert(gseq.contains(-1i32));
            assert(gseq.contains(20i32));
            assert(gseq.contains(21i32));
            assert forall|yy: int| 0 <= yy < rows implies #[trigger] fdv[yy]
                == self.map_file_content@[yy]@ by {
                assert(fdv[yy] =~= self.map_file_content@[yy]@);
            }
            let sc0 = (start_cell.0 as int, start_cell.1 as int);
            let ec0 = (end_cell.0 as int, end_cell.1 as int);
            if found {
                assert(carved == classified);
                assert forall|yy: int| 0 <= yy < rows implies #[trigger] classified_dv[yy]
                    == classified[yy]@ by {
                    assert(classified_dv[yy] =~= classified[yy]@);
                }
                let g2 = _ghosts2@;
                let cells = choose|cells: Seq<(int, int)>|
                    #[trigger] crate::pathfinding::walkable_chain(
                        cells,
                        classified_dv,
                        g2,
                        cols as int,
                        rows as int,
                        sc0,
                        ec0,
                    );
                assert forall|i: int| 0 <= i < cells.len() implies {
                    &&& 0 <= (#[trigger] cells[i]).0 < cols
                    &&& 0 <= cells[i].1 < rows
                    &&& crate::pathfinding::cell_walkable(fdv, gseq, cells[i].0, cells[i].1)
                } by {
                    let cx = cells[i].0;
                    let cy = cells[i].1;
                    if (cx, cy) == sc0 {
                        assert(fdv[cy][cx] == 20);
                    } else if (cx, cy) == ec0 {
                        assert(fdv[cy][cx] == 21);
                    } else {
                        if cy == end_cell.1 {
                            assert(self.map_file_content@[cy]@ == marked1[cy]@.update(
                                end_cell.0 as int,
                                21i32,
                            ));
                        } else {
                            assert(self.map_file_content@[cy] == marked1[cy]);
                        }
                        if cy == start_cell.1 {
                            assert(marked1[cy]@ == carved[cy]@.update(start_cell.0 as int, 20i32));
                        } else {
                            assert(marked1[cy] == carved[cy]);
                        }
                        assert(fdv[cy][cx] == classified[cy]@[cx]);
                        assert(crate::pathfinding::cell_walkable(classified_dv, g2, cx, cy));
                        assert(g2 =~= gseq);
                    }
                }
                assert(crate::pathfinding::walkable_chain(
                    cells,
                    fdv,
                    gseq,
                    cols as int,
                    rows as int,
                    sc0,
                    ec0,
                ));
            } else {
                // The explicit corridor chain: along row 1, then down the
                // column left of the border.
                let part1 = Seq::new((cols - 2) as nat, |i: int| (1 + i, 1int));
                let part2 = Seq::new(
                    (rows - 3) as nat,
                    |i: int| ((cols - 2) as int, 2 + i),
                );
                let chain = part1 + part2;
                assert(chain.len() == cols - 2 + rows - 3);
                assert(chain[0] == (1int, 1int));
                assert(chain[chain.len() - 1] == ((cols - 2) as int, (rows - 2) as int));
                assert(sc0 == (1int, 1int));
                assert(ec0 == ((cols - 2) as int, (rows - 2) as int));
                assert forall|i: int| 0 <= i < chain.len() implies {
                    &&& 0 <= (#[trigger] chain[i]).0 < cols
                    &&& 0 <= chain[i].1 < rows
                    &&& crate::pathfinding::cell_walkable(fdv, gseq, chain[i].0, chain[i].1)
                } by {
                    let cx = chain[i].0;
                    let cy = chain[i].1;
                    if i < cols - 2 {
                        assert(chain[i] == (1 + i, 1int));
                    } else {
                        assert(chain[i] == ((cols - 2) as int, 2 + (i - (cols - 2))));
                    }
                    if (cx, cy) == sc0 {
                        assert(fdv[cy][cx] == 20);
                    } else if (cx, cy) == ec0 {
                        assert(fdv[cy][cx] == 21);
                    } else {
                        if cy == end_cell.1 {
                            assert(self.map_file_content@[cy]@ == marked1[cy]@.update(
                                end_cell.0 as int,
                                21i32,
                            ));
                        } else {
                            assert(self.map_file_content@[cy] == marked1[cy]);
                        }
                        if cy == start_cell.1 {
                            assert(marked1[cy]@ == carved[cy]@.update(start_cell.0 as int, 20i32));
                        } else {
                            assert(marked1[cy] == carved[cy]);
                        }
                        assert(fdv[cy][cx] == carved[cy]@[cx]);
                        assert(carved[cy]@[cx] == -1);
                    }
                }
                assert forall|i: int| 0 <= i < chain.len() - 1 implies crate::pathfinding::cells_adjacent(
                    #[trigger] chain[i],
                    chain[i + 1],
                ) by {
                    if i + 1 < cols - 2 {
                        assert(chain[i] == (1 + i, 1int));
                        assert(chain[i + 1] == (1 + (i + 1), 1int));
                    } else if i + 1 == cols - 2 {
                        assert(chain[i] == (1 + i, 1int));
                        assert(chain[i + 1] == ((cols - 2) as int, 2int));
                        assert(1 + i == cols - 2 - 1 + 1 - 1 + 1);
                    } else {
                        assert(chain[i] == ((cols - 2) as int, 2 + (i - (cols - 2))));
                        assert(chain[i + 1] == ((cols - 2) as int, 2 + (i + 1 - (cols - 2))));
                    }
                }
                assert(crate::pathfinding::walkable_chain(
                    chain,
                    fdv,
                    gseq,
                    cols as int,
                    rows as int,
                    sc0,
                    ec0,
                ));
            }
        }
        self.diag_size = get_diagonal_size(cols as i64, rows as i64, ts);
        self.crate_tilemap(id_manager);
    }

    /// Materializes the raw grid into the bloc list: one bloc per cell,
    /// row by row, each wrapping a square tile of the cell's material,
    /// with fresh ids; a cell with an unrecognized material is skipped.
    pub fn crate_tilemap(&mut self, id_manager: &mut IdManager)
        requires
            old(id_manager).wf(),
            old(self).map_file_content@.len() >= 1,
            old(self).map_file_content@[0]@.len() >= 1,
            crate::pathfinding::grid_rectangular(
                old(self).map_file_content.deep_view(),
                old(self).map_file_content@[0]@.len() as int,
            ),
            old(self).map_file_content@.len() * old(self).map_file_content@[0]@.len() <= 1000000,
            old(self).tile_size >= 1,
            old(self).map_file_content@.len() * old(self).tile_size <= COORD_LIMIT,
            old(self).map_file_content@[0]@.len() * old(self).tile_size <= COORD_LIMIT,
            old(id_manager).current() + old(self).map_file_content@.len() * old(
                self,
            ).map_file_content@[0]@.len() < i32::MAX,
        ensures
            final(id_manager).wf(),
            final(self).map_file_content == old(self).map_file_content,
            final(self).ghost_tiles == old(self).ghost_tiles,
            final(self).tile_size == old(self).tile_size,
            final(self).difficulty == old(self).difficulty,
            final(self).spawn == old(self).spawn,
            final(self).end == old(self).end,
            final(self).total_rows == old(self).total_rows,
            final(self).total_cols == old(self).total_cols,
            final(self).map_title == old(self).map_title,
            blocs_wf(final(self).bloc_list@),
            blocs_hazard_wf(final(self).bloc_list@),
            all_recognized(old(self).map_file_content.deep_view()) ==> tilemap_built(
                final(self).bloc_list@,
                old(self).map_file_content.deep_view(),
                old(self).ghost_tiles@,
                old(self).tile_size as int,
                old(self).map_file_content@[0]@.len() as int,
                old(self).map_file_content@.len() as int,
                old(id_manager).current(),
            ),
    {
        let ts = self.tile_size;
        let rows = self.map_file_content.len();
        let cols = self.map_file_content[0].len();
        let ghost g = self.map_file_content.deep_view();
        let ghost id_base = id_manager.current();
        let mut bloclist: Vec<Bloc> = Vec::new();
        proof {
            id_manager.lemma_wf_nonneg();
            assert(cols <= 1000000 && rows <= 1000000) by (nonlinear_arith)
                requires
                    rows as int * cols as int <= 1000000,
                    rows >= 1,
                    cols >= 1,
            ;
            vstd::arithmetic::mul::lemma_mul_inequality(1, cols as int, ts as int);
            assert(1 * (ts as int) == ts as int) by (nonlinear_arith);
        }
        let mut y: usize = 0;
        while y < rows
            invariant
                0 <= y <= rows,
                rows == self.map_file_content@.len(),
                cols == self.map_file_content@[0]@.len(),
                1 <= cols <= 1000000,
                1 <= rows <= 1000000,
                g == self.map_file_content.deep_view(),
                crate::pathfinding::grid_rectangular(g, cols as int),
                rows * cols <= 1000000,
                ts == self.tile_size,
                ts >= 1,
                ts <= COORD_LIMIT,
                rows * ts <= COORD_LIMIT,
                cols * ts <= COORD_LIMIT,
                *self == *old(self),
                id_manager.wf(),
                id_base == old(id_manager).current(),
                id_base >= 0,
                id_base + rows * cols < i32::MAX,
                id_base <= id_manager.current() <= id_base + y * cols,
                bloclist@.len() <= y * cols,
                y * cols <= rows * cols,
                blocs_wf(bloclist@),
                blocs_hazard_wf(bloclist@),
                all_recognized(g) ==> (bloclist@.len() == y * cols && id_manager.current()
                    == id_base + y * cols && forall|yy: int, xx: int|
                    0 <= yy < y && 0 <= xx < cols ==> bloc_for_cell(
                        #[trigger] bloclist@[yy * cols + xx],
                        g,
                        self.ghost_tiles@,
                        ts as int,
                        cols as int,
                        xx,
                        yy,
                        id_base,
                    )),
            decreases rows - y,
        {
            proof {
                crate::pathfinding::lemma_pidx_bounds(0, y as int, cols as int, rows as int);
            }
            let mut x: usize = 0;
            while x < cols
                invariant
                    0 <= x <= cols,
                    0 <= y < rows,
                    rows == self.map_file_content@.len(),
                    cols == self.map_file_content@[0]@.len(),
                    1 <= cols <= 1000000,
                    1 <= rows <= 1000000,
                    g == self.map_file_content.deep_view(),
                    crate::pathfinding::grid_rectangular(g, cols as int),
                    rows * cols <= 1000000,
                    ts == self.tile_size,
                    ts >= 1,
                    ts <= COORD_LIMIT,
                    rows * ts <= COORD_LIMIT,
                    cols * ts <= COORD_LIMIT,
                    *self == *old(self),
                    id_manager.wf(),
                    id_base == old(id_manager).current(),
                    id_base >= 0,
                    id_base + rows * cols < i32::MAX,
                    id_base <= id_manager.current() <= id_base + y * cols + x,
                    bloclist@.len() <= y * cols + x,
                    blocs_wf(bloclist@),
                    blocs_hazard_wf(bloclist@),
                    all_recognized(g) ==> (bloclist@.len() == y * cols + x
                        && id_manager.current() == id_base + y * cols + x && (forall|
                        yy: int,
                        xx: int,
                    |
                        0 <= yy < y && 0 <= xx < cols ==> bloc_for_cell(
                            #[trigger] bloclist@[yy * cols + xx],
                            g,
                            self.ghost_tiles@,
                            ts as int,
                            cols as int,
                            xx,
                            yy,
                            id_base,
                        )) && (forall|xx: int|
                        0 <= xx < x ==> bloc_for_cell(
                            #[trigger] bloclist@[y * cols + xx],
                            g,
                            self.ghost_tiles@,
                            ts as int,
                            cols as int,
                            xx,
                            y as int,
                            id_base,
                        ))),
                decreases cols - x,
            {
                proof {
                    crate::pathfinding::lemma_pidx_bounds(
                        x as int,
                        y as int,
                        cols as int,
                        rows as int,
                    );
                    assert(g[y as int] == self.map_file_content@[y as int]@);
                    vstd::arithmetic::mul::lemma_mul_inequality(
                        x as int + 1,
                        cols as int,
                        ts as int,
                    );
                    assert((x as int + 1) * ts == (x as int) * ts + ts) by (nonlinear_arith);
                    assert((x as int) * ts >= 0) by (nonlinear_arith)
                        requires
                            x >= 0,
                            ts >= 1,
                    ;
                    vstd::arithmetic::mul::lemma_mul_inequality(
                        y as int + 1,
                        rows as int,
                        ts as int,
                    );
                    assert((y as int + 1) * ts == (y as int) * ts + ts) by (nonlinear_arith);
                    assert((y as int) * ts >= 0) by (nonlinear_arith)
                        requires
                            y >= 0,
                            ts >= 1,
                    ;
                }
                let material = self.map_file_content[y][x];
                let transparent = contains_i32(&self.ghost_tiles, material);
                let tile = Tile::new(
                    (x as i64) * ts,
                    (y as i64) * ts,
                    ts,
                    material,
                    transparent,
                    Rot::zero(),
                );
                let new_bloc: Option<Bloc> = if material == -1 || material == 20 || material
                    == 21 {
                    Some(Bloc::Air(Air::new(id_manager.get_new_id(), tile)))
                } else if material == 4 {
                    Some(Bloc::Wall(Wall::new(id_manager.get_new_id(), tile)))
                } else if material == 9 {
                    Some(Bloc::Water(Water::new(id_manager.get_new_id(), tile)))
                } else if material == 18 {
                    Some(Bloc::Lava(Lava::new(id_manager.get_new_id(), tile)))
                } else {
                    None
                };
                match new_bloc {
                    Some(nb) => {
                        let ghost pre_push = bloclist@;
                        bloclist.push(nb);
                        proof {
                            if all_recognized(g) {
                                assert(g[y as int] == self.map_file_content@[y as int]@);
                                assert(bloclist@[y as int * cols + x as int] == nb);
                                assert(bloc_for_cell(
                                    nb,
                                    g,
                                    self.ghost_tiles@,
                                    ts as int,
                                    cols as int,
                                    x as int,
                                    y as int,
                                    id_base,
                                ));
                                assert forall|yy: int, xx: int|
                                    0 <= yy < y && 0 <= xx < cols implies bloc_for_cell(
                                    #[trigger] bloclist@[yy * cols + xx],
                                    g,
                                    self.ghost_tiles@,
                                    ts as int,
                                    cols as int,
                                    xx,
                                    yy,
                                    id_base,
                                ) by {
                                    crate::pathfinding::lemma_pidx_bounds(
                                        xx,
                                        yy,
                                        cols as int,
                                        rows as int,
                                    );
                                    assert(yy * cols + xx < y as int * cols) by (nonlinear_arith)
                                        requires
                                            0 <= yy < y,
                                            0 <= xx < cols,
                                    ;
                                    assert(bloclist@[yy * cols + xx] == pre_push[yy * cols + xx]);
                                }
                                assert forall|xx: int| 0 <= xx < x + 1 implies bloc_for_cell(
                                    #[trigger] bloclist@[y as int * cols + xx],
                                    g,
                                    self.ghost_tiles@,
                                    ts as int,
                                    cols as int,
                                    xx,
                                    y as int,
                                    id_base,
                                ) by {
                                    if xx < x {
                                        assert(bloclist@[y as int * cols + xx] == pre_push[
                                            y as int * cols + xx
                                        ]);
                                    } else {
                                        assert(bloclist@[y as int * cols + xx] == nb);
                                    }
                                }
                            }
                        }
                    },
                    None => {
                        proof {
                            if all_recognized(g) {
                                assert(g[y as int] == self.map_file_content@[y as int]@);
                                assert(material_recognized(g[y as int][x as int]));
                                assert(false);
                            }
                        }
                    },
                }
                x = x + 1;
            }
            proof {
                assert((y as int + 1) * cols == y as int * cols + cols) by (nonlinear_arith);
                vstd::arithmetic::mul::lemma_mul_inequality(y as int + 1, rows as int, cols as int);
            }
            y = y + 1;
        }
        self.bloc_list = bloclist;
    }

    /// Applies tile effects to an overlapping entity: each lava cell whose
    /// rectangle strictly contains the entity's center damages it on the
    /// lava's cooldown; water and ground have no effect.
    pub fn bloc_effects<E: EntityTrait>(&mut self, entity: &mut E, now_ms: i64)
        requires
            old(entity).wf(),
            blocs_wf(old(self).bloc_list@),
            blocs_hazard_wf(old(self).bloc_list@),
            now_ms >= 0,
        ensures
            final(entity).wf(),
            final(entity).hitbox_spec() == old(entity).hitbox_spec(),
            final(self).bloc_list@.len() == old(self).bloc_list@.len(),
            blocs_wf(final(self).bloc_list@),
            blocs_hazard_wf(final(self).bloc_list@),
            forall|i: int|
                0 <= i < final(self).bloc_list@.len() ==> {
                    &&& (#[trigger] final(self).bloc_list@[i]).tile_spec() == old(
                        self,
                    ).bloc_list@[i].tile_spec()
                    &&& final(self).bloc_list@[i].id_spec() == old(self).bloc_list@[i].id_spec()
                    &&& ((final(self).bloc_list@[i] is Lava) <==> (old(self).bloc_list@[i]
                        is Lava))
                },
            final(self).map_file_content == old(self).map_file_content,
            final(self).ghost_tiles == old(self).ghost_tiles,
            final(self).tile_size == old(self).tile_size,
            hazard_steps_rel(
                old(self).bloc_list@,
                *old(entity),
                *final(entity),
                now_ms as int,
            ),
    {
        let ghost mut trace: Seq<E> = seq![*entity];
        proof {
            assert(old(self).bloc_list@.take(0) =~= Seq::<Bloc>::empty());
        }
        let mut bloc_index: usize = 0;
        while bloc_index < self.bloc_list.len()
            invariant
                0 <= bloc_index <= self.bloc_list@.len(),
                self.bloc_list@.len() == old(self).bloc_list@.len(),
                now_ms >= 0,
                entity.wf(),
                entity.hitbox_spec() == old(entity).hitbox_spec(),
                forall|k: int|
                    bloc_index <= k < self.bloc_list@.len() ==> #[trigger] self.bloc_list@[k]
                        == old(self).bloc_list@[k],
                blocs_wf(self.bloc_list@),
                blocs_hazard_wf(self.bloc_list@),
                forall|k: int|
                    0 <= k < bloc_index ==> {
                        &&& (#[trigger] self.bloc_list@[k]).tile_spec() == old(
                            self,
                        ).bloc_list@[k].tile_spec()
                        &&& self.bloc_list@[k].id_spec() == old(self).bloc_list@[k].id_spec()
                        &&& ((self.bloc_list@[k] is Lava) <==> (old(self).bloc_list@[k] is Lava))
                    },
                self.map_file_content == old(self).map_file_content,
                self.ghost_tiles == old(self).ghost_tiles,
                self.tile_size == old(self).tile_size,
                trace.len() == bloc_index + 1,
                trace[0] == *old(entity),
                trace[trace.len() - 1] == *entity,
                hazard_trace_ok(
                    old(self).bloc_list@.take(bloc_index as int),
                    trace,
                    now_ms as int,
                ),
            decreases self.bloc_list@.len() - bloc_index,
        {
            proof {
                entity.lemma_wf_geometry();
            }
            let hitbox = entity.get_hitbox();
            let halfw = crate::geometry::div_trunc(hitbox.w, 2);
            let halfh = crate::geometry::div_trunc(hitbox.h, 2);
            proof {
                vstd::arithmetic::div_mod::lemma_div_pos_is_pos(hitbox.w as int, 2);
                vstd::arithmetic::div_mod::lemma_div_pos_is_pos(hitbox.h as int, 2);
            }
            let center = Pos2D { x: hitbox.x + halfw, y: hitbox.y + halfh };
            proof {
                assert(center == rect_center(entity.hitbox_spec()));
            }
            let ghost pre_entity = *entity;
            let mut b = Bloc::Air(Air::new(0, Tile::new(0, 0, 0, 0, false, Rot::zero())));
            self.bloc_list.set_and_swap(bloc_index, &mut b);
            let ghost pre_b = b;
            let inside = crate::collision::CheckCollision::point_in_rect(center, b.tile().hitbox);
            if inside {
                match &mut b {
                    Bloc::Lava(l) => {
                        if entity.damage_ok(l.damage) {
                            l.damage(entity, now_ms);
                        }
                    },
                    _ => {},
                }
            }
            self.bloc_list.set_and_swap(bloc_index, &mut b);
            proof {
                let full = old(self).bloc_list@;
                let lastb = full[bloc_index as int];
                assert(pre_b == lastb);
                assert(inside == point_strictly_in_rect(
                    rect_center(pre_entity.hitbox_spec()),
                    lastb.tile_spec().hitbox,
                ));
                assert(hazard_step_ok(lastb, pre_entity, *entity, now_ms as int));
                let ghost old_trace = trace;
                trace = trace.push(*entity);
                assert forall|i: int|
                    0 <= i < full.take(bloc_index as int + 1).len() implies #[trigger] hazard_step_ok(
                    full.take(bloc_index as int + 1)[i],
                    trace[i],
                    trace[i + 1],
                    now_ms as int,
                ) by {
                    if i < bloc_index {
                        assert(hazard_step_ok(
                            full.take(bloc_index as int)[i],
                            old_trace[i],
                            old_trace[i + 1],
                            now_ms as int,
                        ));
                        assert(full.take(bloc_index as int + 1)[i] == full.take(
                            bloc_index as int,
                        )[i]);
                        assert(trace[i] == old_trace[i] && trace[i + 1] == old_trace[i + 1]);
                    } else {
                        assert(full.take(bloc_index as int + 1)[i] == lastb);
                        assert(trace[i] == pre_entity && trace[i + 1] == *entity);
                    }
                }
                assert(hazard_trace_ok(
                    full.take(bloc_index as int + 1),
                    trace,
                    now_ms as int,
                ));
            }
            bloc_index = bloc_index + 1;
        }
        proof {
            assert(old(self).bloc_list@.take(old(self).bloc_list@.len() as int) =~= old(
                self,
            ).bloc_list@);
            assert(hazard_trace_ok(old(self).bloc_list@, trace, now_ms as int));
        }
    }
}

} // verus!\n