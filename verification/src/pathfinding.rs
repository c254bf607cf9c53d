//! Grid pathfinding: a greedy best-first search over the tile grid, ordered
//! by an octile-style integer heuristic, producing world-space waypoints.
//!
//! The search pops the open node with the smallest heuristic cost, closes
//! it, and discovers its four axis neighbours; a cell's parent is set once,
//! at discovery. A found route is walked back through the parent links and
//! returned as the sequence of cell centers from the cell next to the start
//! up to the goal. [`path_cells_ok`] pins down what a returned path is: a
//! chain of adjacent, walkable, in-bounds cells ending at the goal cell and
//! beginning at (or next to) the start cell.

use vstd::prelude::*;
use crate::geometry::{
    div_trunc, idiv, mag, pos_in_bounds, Pos2D, COORD_LIMIT,
};
use vstd::arithmetic::mul::lemma_mul_inequality;

verus! {

/// A route as world-space waypoints, or no route.
pub enum PathFindingResult {
    Found(Vec<Pos2D<i64>>),
    Fail,
}

/// Namespace for the pathfinding routines.
pub struct PathFinding;

/// One search node: a stable id, whether the cell is walkable, its grid
/// position, the parent link (sentinel `(-1, -1)` until set), and the two
/// heuristic costs.
#[derive(Clone, Copy, Debug)]
pub struct PathFindingNode {
    pub id: i32,
    pub transparent: bool,
    pub position: (i32, i32),
    pub parent_position: (i32, i32),
    pub g_cost: i32,
    pub h_cost: i32,
}

impl PathFindingNode {
    /// A fresh node with the parent link still the sentinel.
    pub fn new(id: i32, transparent: bool, position: (i32, i32), g_cost: i32, h_cost: i32) -> (r:
        Self)
        ensures
            r == (PathFindingNode {
                id,
                transparent,
                position,
                parent_position: (-1i32, -1i32),
                g_cost,
                h_cost,
            }),
    {
        PathFindingNode { id, transparent, position, parent_position: (-1, -1), g_cost, h_cost }
    }
}

/// Octile-style integer distance: 14 per diagonal step, 10 per straight
/// step.
pub open spec fn octile(ax: int, ay: int, bx: int, by: int) -> int {
    let dx = mag(ax - bx);
    let dy = mag(ay - by);
    if dx < dy {
        14 * dx + 10 * (dy - dx)
    } else {
        14 * dy + 10 * (dx - dy)
    }
}

/// Every row of the grid has the same width.
pub open spec fn grid_rectangular(g: Seq<Seq<i32>>, cols: int) -> bool {
    forall|y: int| 0 <= y < g.len() ==> (#[trigger] g[y]).len() == cols
}

/// The cell's material is one of the ghost (non-blocking) materials.
pub open spec fn cell_walkable(g: Seq<Seq<i32>>, ghosts: Seq<i32>, x: int, y: int) -> bool {
    ghosts.contains(g[y][x])
}

/// The world-space center of a grid cell.
pub open spec fn cell_center(x: int, y: int, ts: int) -> Pos2D<i64> {
    Pos2D { x: (x * ts + ts / 2) as i64, y: (y * ts + ts / 2) as i64 }
}

/// The two cells share an edge.
pub open spec fn cells_adjacent(a: (int, int), b: (int, int)) -> bool {
    mag(a.0 - b.0) + mag(a.1 - b.1) == 1
}

/// What a returned waypoint list means: `cells` names the grid cell under
/// each waypoint; every cell is in bounds and walkable, consecutive cells
/// are edge-adjacent, the last cell is the goal, and the first cell is a
/// neighbour of the start cell (the start itself only for the singleton
/// start-equals-goal route, which never includes a second copy of the
/// start).
pub open spec fn path_cells_ok(
    cells: Seq<(int, int)>,
    g: Seq<Seq<i32>>,
    ghosts: Seq<i32>,
    ts: int,
    cols: int,
    rows: int,
    start_cell: (int, int),
    goal_cell: (int, int),
    path: Seq<Pos2D<i64>>,
) -> bool {
    &&& cells.len() == path.len()
    &&& path.len() >= 1
    &&& forall|i: int|
        0 <= i < cells.len() ==> {
            &&& 0 <= (#[trigger] cells[i]).0 < cols
            &&& 0 <= cells[i].1 < rows
            &&& cell_walkable(g, ghosts, cells[i].0, cells[i].1)
            &&& path[i] == cell_center(cells[i].0, cells[i].1, ts)
            &&& pos_in_bounds(path[i])
        }
    &&& forall|i: int| 0 <= i < cells.len() - 1 ==> cells_adjacent(#[trigger] cells[i], cells[i + 1])
    &&& cells[cells.len() - 1] == goal_cell
    &&& (cells[0] == start_cell || cells_adjacent(cells[0], start_cell))
    &&& (start_cell != goal_cell ==> cells_adjacent(cells[0], start_cell))
}

/// A returned waypoint list is a valid route to the goal.
pub open spec fn path_ok(
    g: Seq<Seq<i32>>,
    ghosts: Seq<i32>,
    ts: int,
    cols: int,
    rows: int,
    start_cell: (int, int),
    goal_cell: (int, int),
    path: Seq<Pos2D<i64>>,
) -> bool {
    exists|cells: Seq<(int, int)>|
        #[trigger] path_cells_ok(cells, g, ghosts, ts, cols, rows, start_cell, goal_cell, path)
}

/// What the search requires of its inputs: a rectangular grid of modest
/// size, a positive tile size that keeps every cell center inside the
/// world bounds, and world positions that fall inside the grid.
pub open spec fn astar_req(
    g: Seq<Seq<i32>>,
    ts: int,
    entity_position: Pos2D<i64>,
    desired_position: Pos2D<i64>,
) -> bool {
    &&& ts >= 1
    &&& g.len() >= 1
    &&& g[0].len() >= 1
    &&& grid_rectangular(g, g[0].len() as int)
    &&& g.len() * g[0].len() <= 1000000
    &&& g.len() * ts <= COORD_LIMIT
    &&& g[0].len() * ts <= COORD_LIMIT
    &&& 0 <= entity_position.x < g[0].len() * ts
    &&& 0 <= entity_position.y < g.len() * ts
    &&& 0 <= desired_position.x < g[0].len() * ts
    &&& 0 <= desired_position.y < g.len() * ts
}

/// The start and goal grid cells under a pair of world positions.
pub open spec fn cell_of(p: Pos2D<i64>, ts: int) -> (int, int) {
    (p.x as int / ts, p.y as int / ts)
}

/// What the search promises: a blocked goal cell fails; a search already
/// standing on a walkable goal cell returns that cell's center alone; and
/// any returned waypoint list is a valid route ([`path_ok`]) from the
/// start cell to the goal cell.
pub open spec fn astar_post(
    g: Seq<Seq<i32>>,
    ghosts: Seq<i32>,
    ts: int,
    entity_position: Pos2D<i64>,
    desired_position: Pos2D<i64>,
    r: PathFindingResult,
) -> bool {
    let sc = cell_of(entity_position, ts);
    let gc = cell_of(desired_position, ts);
    &&& (!cell_walkable(g, ghosts, gc.0, gc.1) ==> r is Fail)
    &&& (sc == gc && cell_walkable(g, ghosts, gc.0, gc.1) ==> (r matches
        PathFindingResult::Found(p) && p@.len() == 1 && p@[0] == cell_center(gc.0, gc.1, ts)))
    &&& (r matches PathFindingResult::Found(p) ==> path_ok(
        g,
        ghosts,
        ts,
        g[0].len() as int,
        g.len() as int,
        sc,
        gc,
        p@,
    ))
    &&& (r is Fail ==> !cells_connected(g, ghosts, g[0].len() as int, g.len() as int, sc, gc))
}

/// The integer pair a machine cell stands for.
pub open spec fn cint(c: (i32, i32)) -> (int, int) {
    (c.0 as int, c.1 as int)
}

/// A chain of in-bounds, walkable, edge-adjacent cells that begins at the
/// start cell or one of its neighbours (the start itself may stand in a
/// blocked cell) and ends at the goal cell.
pub open spec fn walkable_chain(
    cells: Seq<(int, int)>,
    g: Seq<Seq<i32>>,
    ghosts: Seq<i32>,
    cols: int,
    rows: int,
    sc: (int, int),
    gc: (int, int),
) -> bool {
    &&& cells.len() >= 1
    &&& forall|i: int|
        0 <= i < cells.len() ==> {
            &&& 0 <= (#[trigger] cells[i]).0 < cols
            &&& 0 <= cells[i].1 < rows
            &&& cell_walkable(g, ghosts, cells[i].0, cells[i].1)
        }
    &&& forall|i: int| 0 <= i < cells.len() - 1 ==> cells_adjacent(#[trigger] cells[i], cells[i + 1])
    &&& (cells[0] == sc || cells_adjacent(cells[0], sc))
    &&& cells[cells.len() - 1] == gc
}

/// Some walkable chain joins the start cell to the goal cell.
pub open spec fn cells_connected(
    g: Seq<Seq<i32>>,
    ghosts: Seq<i32>,
    cols: int,
    rows: int,
    sc: (int, int),
    gc: (int, int),
) -> bool {
    exists|cells: Seq<(int, int)>|
        #[trigger] walkable_chain(cells, g, ghosts, cols, rows, sc, gc)
}

/// A cell was discovered by the search: it is the start cell or its
/// parent link is set.
pub open spec fn discovered_at(
    parent: Seq<(i32, i32)>,
    cols: int,
    sc: (int, int),
    x: int,
    y: int,
) -> bool {
    (x, y) == sc || parent[y * cols + x] != (-1i32, -1i32)
}

/// A closed cell was discovered.
pub open spec fn closed_disc_at(
    closed: Seq<bool>,
    parent: Seq<(i32, i32)>,
    cols: int,
    sc: (int, int),
    x: int,
    y: int,
) -> bool {
    closed[y * cols + x] ==> discovered_at(parent, cols, sc, x, y)
}

/// Every in-bounds walkable axis neighbour of the cell was discovered.
pub open spec fn nbr_expanded_at(
    g: Seq<Seq<i32>>,
    ghosts: Seq<i32>,
    cols: int,
    rows: int,
    parent: Seq<(i32, i32)>,
    sc: (int, int),
    x: int,
    y: int,
) -> bool {
    &&& (x + 1 < cols && cell_walkable(g, ghosts, x + 1, y) ==> discovered_at(
        parent,
        cols,
        sc,
        x + 1,
        y,
    ))
    &&& (0 <= x - 1 && cell_walkable(g, ghosts, x - 1, y) ==> discovered_at(
        parent,
        cols,
        sc,
        x - 1,
        y,
    ))
    &&& (y + 1 < rows && cell_walkable(g, ghosts, x, y + 1) ==> discovered_at(
        parent,
        cols,
        sc,
        x,
        y + 1,
    ))
    &&& (0 <= y - 1 && cell_walkable(g, ghosts, x, y - 1) ==> discovered_at(
        parent,
        cols,
        sc,
        x,
        y - 1,
    ))
}

/// A closed cell has been fully expanded.
pub open spec fn closed_expanded_at(
    g: Seq<Seq<i32>>,
    ghosts: Seq<i32>,
    cols: int,
    rows: int,
    closed: Seq<bool>,
    parent: Seq<(i32, i32)>,
    sc: (int, int),
    x: int,
    y: int,
) -> bool {
    closed[y * cols + x] ==> nbr_expanded_at(g, ghosts, cols, rows, parent, sc, x, y)
}

/// After the open set empties, the closed set is closed under walkable
/// adjacency: a closed cell's in-bounds walkable neighbours are closed.
spec fn closure_at(
    g: Seq<Seq<i32>>,
    ghosts: Seq<i32>,
    cols: int,
    rows: int,
    closed: Seq<bool>,
    x: int,
    y: int,
) -> bool {
    closed[y * cols + x] ==> {
        &&& (x + 1 < cols && cell_walkable(g, ghosts, x + 1, y) ==> closed[y * cols + x + 1])
        &&& (0 <= x - 1 && cell_walkable(g, ghosts, x - 1, y) ==> closed[y * cols + x - 1])
        &&& (y + 1 < rows && cell_walkable(g, ghosts, x, y + 1) ==> closed[(y + 1) * cols + x])
        &&& (0 <= y - 1 && cell_walkable(g, ghosts, x, y - 1) ==> closed[(y - 1) * cols + x])
    }
}

/// Every cell of a walkable chain whose start is closed is itself closed,
/// by walking the closure along the chain.
#[verifier::rlimit(100)]
#[verifier::spinoff_prover]
proof fn lemma_chain_stays_closed(
    g: Seq<Seq<i32>>,
    ghosts: Seq<i32>,
    cols: int,
    rows: int,
    closed: Seq<bool>,
    sc: (int, int),
    gc: (int, int),
    cells: Seq<(int, int)>,
    i: int,
)
    requires
        walkable_chain(cells, g, ghosts, cols, rows, sc, gc),
        0 <= i < cells.len(),
        0 <= sc.0 < cols,
        0 <= sc.1 < rows,
        closed[sc.1 * cols + sc.0],
        forall|x: int, y: int|
            0 <= x < cols && 0 <= y < rows ==> #[trigger] closure_at(
                g,
                ghosts,
                cols,
                rows,
                closed,
                x,
                y,
            ),
    ensures
        closed[cells[i].1 * cols + cells[i].0],
    decreases i,
{
    if i == 0 {
        if cells[0] == sc {
        } else {
            assert(closure_at(g, ghosts, cols, rows, closed, sc.0, sc.1));
            let c = cells[0];
            assert(cells_adjacent(c, sc));
            if c.0 == sc.0 + 1 && c.1 == sc.1 {
            } else if c.0 == sc.0 - 1 && c.1 == sc.1 {
            } else if c.0 == sc.0 && c.1 == sc.1 + 1 {
            } else {
                assert(c.0 == sc.0 && c.1 == sc.1 - 1);
            }
        }
    } else {
        lemma_chain_stays_closed(g, ghosts, cols, rows, closed, sc, gc, cells, i - 1);
        let a = cells[i - 1];
        let c = cells[i];
        assert(cells_adjacent(a, c));
        assert(closure_at(g, ghosts, cols, rows, closed, a.0, a.1));
        if c.0 == a.0 + 1 && c.1 == a.1 {
        } else if c.0 == a.0 - 1 && c.1 == a.1 {
        } else if c.0 == a.0 && c.1 == a.1 + 1 {
        } else {
            assert(c.0 == a.0 && c.1 == a.1 - 1);
        }
    }
}

/// An entry of the open list: an in-bounds, not yet closed cell that is
/// the start cell or has its parent link set.
spec fn open_entry_ok(
    cols: int,
    rows: int,
    closed: Seq<bool>,
    parent: Seq<(i32, i32)>,
    sc: (int, int),
    c: (i32, i32),
) -> bool {
    &&& 0 <= c.0 < cols
    &&& 0 <= c.1 < rows
    &&& !closed[c.1 * cols + c.0]
    &&& (cint(c) == sc || parent[c.1 * cols + c.0] != (-1i32, -1i32))
}

/// The open list: well-formed entries, pairwise distinct.
spec fn open_ok(
    cols: int,
    rows: int,
    closed: Seq<bool>,
    parent: Seq<(i32, i32)>,
    sc: (int, int),
    open: Seq<(i32, i32)>,
) -> bool {
    &&& forall|k: int|
        0 <= k < open.len() ==> open_entry_ok(cols, rows, closed, parent, sc, #[trigger] open[k])
    &&& forall|k1: int, k2: int| 0 <= k1 < k2 < open.len() ==> open[k1] != open[k2]
}

/// The parent link of one cell, when set: the cell was discovered from an
/// adjacent in-bounds cell, is itself walkable and not the start, its rank
/// is above its parent's, and the parent is the start or discovered too.
spec fn par_entry_ok(
    g: Seq<Seq<i32>>,
    ghosts: Seq<i32>,
    cols: int,
    rows: int,
    parent: Seq<(i32, i32)>,
    rank: Map<(int, int), int>,
    sc: (int, int),
    x: int,
    y: int,
) -> bool {
    parent[y * cols + x] != (-1i32, -1i32) ==> {
        let p = parent[y * cols + x];
        &&& (x, y) != sc
        &&& 0 <= p.0 < cols
        &&& 0 <= p.1 < rows
        &&& cells_adjacent((x, y), cint(p))
        &&& cell_walkable(g, ghosts, x, y)
        &&& rank.dom().contains((x, y))
        &&& rank.dom().contains(cint(p))
        &&& rank[cint(p)] < rank[(x, y)]
        &&& (cint(p) == sc || parent[p.1 * cols + p.0] != (-1i32, -1i32))
    }
}

/// Every cell's parent link is well-formed.
spec fn pars_ok(
    g: Seq<Seq<i32>>,
    ghosts: Seq<i32>,
    cols: int,
    rows: int,
    parent: Seq<(i32, i32)>,
    rank: Map<(int, int), int>,
    sc: (int, int),
) -> bool {
    forall|x: int, y: int|
        0 <= x < cols && 0 <= y < rows ==> #[trigger] par_entry_ok(
            g,
            ghosts,
            cols,
            rows,
            parent,
            rank,
            sc,
            x,
            y,
        )
}

/// Discovery ranks are nonnegative and below the running counter.
spec fn rank_ok(rank: Map<(int, int), int>, ctr: int) -> bool {
    forall|c: (int, int)| rank.dom().contains(c) ==> 0 <= #[trigger] rank[c] < ctr
}

/// After a swap-remove, every element the list held is still there or was
/// the removed one.
proof fn lemma_swap_remove_contains(
    old_open: Seq<(i32, i32)>,
    new_open: Seq<(i32, i32)>,
    at: int,
    c: (i32, i32),
)
    requires
        0 <= at < old_open.len(),
        new_open == old_open.update(at, old_open.last()).drop_last(),
        old_open.contains(c),
    ensures
        new_open.contains(c) || c == old_open[at],
{
    let w = choose|w: int| 0 <= w < old_open.len() && old_open[w] == c;
    if w != at {
        if w == old_open.len() - 1 {
            assert(new_open[at] == c);
        } else {
            assert(new_open[w] == c);
        }
    }
}

/// Every discovered cell (parent link set) is on the open list or closed.
spec fn disc_tracked(
    cols: int,
    rows: int,
    closed: Seq<bool>,
    parent: Seq<(i32, i32)>,
    open: Seq<(i32, i32)>,
) -> bool {
    forall|x: int, y: int|
        0 <= x < cols && 0 <= y < rows && #[trigger] parent[y * cols + x] != (-1i32, -1i32)
            ==> closed[y * cols + x] || open.contains((x as i32, y as i32))
}

/// Distinct in-bounds cells have distinct flat indices.
proof fn lemma_pidx_injective(x1: int, y1: int, x2: int, y2: int, cols: int)
    requires
        0 <= x1 < cols,
        0 <= x2 < cols,
        0 <= y1,
        0 <= y2,
        y1 * cols + x1 == y2 * cols + x2,
    ensures
        x1 == x2 && y1 == y2,
{
    assert(x1 == x2 && y1 == y2) by (nonlinear_arith)
        requires
            0 <= x1 < cols,
            0 <= x2 < cols,
            0 <= y1,
            0 <= y2,
            y1 * cols + x1 == y2 * cols + x2,
    ;
}

proof fn lemma_count_trues_zero(s: Seq<bool>)
    requires
        forall|i: int| 0 <= i < s.len() ==> !(#[trigger] s[i]),
    ensures
        count_trues(s) == 0,
    decreases s.len(),
{
    if s.len() > 0 {
        lemma_count_trues_zero(s.drop_last());
    }
}

/// A cell center stays inside the world coordinate bounds.
proof fn lemma_center_bounds(x: int, y: int, ts: int, cols: int, rows: int)
    requires
        ts >= 1,
        0 <= x < cols,
        0 <= y < rows,
        cols * ts <= COORD_LIMIT,
        rows * ts <= COORD_LIMIT,
    ensures
        0 <= x * ts + ts / 2 < cols * ts,
        0 <= y * ts + ts / 2 < rows * ts,
        pos_in_bounds(cell_center(x, y, ts)),
{
    assert(x * ts >= 0) by (nonlinear_arith)
        requires
            x >= 0,
            ts >= 1,
    ;
    assert(y * ts >= 0) by (nonlinear_arith)
        requires
            y >= 0,
            ts >= 1,
    ;
    assert((x + 1) * ts <= cols * ts) by (nonlinear_arith)
        requires
            x + 1 <= cols,
            ts >= 1,
    ;
    assert((y + 1) * ts <= rows * ts) by (nonlinear_arith)
        requires
            y + 1 <= rows,
            ts >= 1,
    ;
    assert((x + 1) * ts == x * ts + ts) by (nonlinear_arith);
    assert((y + 1) * ts == y * ts + ts) by (nonlinear_arith);
    assert(0 <= ts / 2 < ts);
}

/// A world coordinate inside the grid divides down to an in-bounds cell.
proof fn lemma_coord_to_cell(v: int, ts: int, n: int)
    requires
        ts >= 1,
        n >= 1,
        0 <= v < n * ts,
    ensures
        0 <= idiv(v, ts) < n,
        idiv(v, ts) == v / ts,
{
    assert(idiv(v, ts) == v / ts);
    vstd::arithmetic::div_mod::lemma_div_pos_is_pos(v, ts);
    assert(n * ts == ts * n) by (nonlinear_arith);
    vstd::arithmetic::div_mod::lemma_multiply_divide_lt(v, ts, n);
}

/// How many entries of a boolean sequence are set.
spec fn count_trues(s: Seq<bool>) -> int
    decreases s.len(),
{
    if s.len() == 0 {
        0
    } else {
        count_trues(s.drop_last()) + if s.last() {
            1int
        } else {
            0int
        }
    }
}

proof fn lemma_count_trues_le_len(s: Seq<bool>)
    ensures
        0 <= count_trues(s) <= s.len(),
    decreases s.len(),
{
    if s.len() > 0 {
        lemma_count_trues_le_len(s.drop_last());
    }
}

proof fn lemma_count_trues_false_entry(s: Seq<bool>, i: int)
    requires
        0 <= i < s.len(),
        !s[i],
    ensures
        count_trues(s) <= s.len() - 1,
    decreases s.len(),
{
    lemma_count_trues_le_len(s.drop_last());
    if i == s.len() - 1 {
    } else {
        lemma_count_trues_false_entry(s.drop_last(), i);
    }
}

proof fn lemma_count_trues_set(s: Seq<bool>, i: int)
    requires
        0 <= i < s.len(),
        !s[i],
    ensures
        count_trues(s.update(i, true)) == count_trues(s) + 1,
    decreases s.len(),
{
    let t = s.update(i, true);
    if i == s.len() - 1 {
        assert(t.drop_last() =~= s.drop_last());
    } else {
        assert(t.drop_last() =~= s.drop_last().update(i, true));
        lemma_count_trues_set(s.drop_last(), i);
        assert(t.last() == s.last());
    }
}

/// An in-bounds cell's flat index is in range.
pub(crate) proof fn lemma_pidx_bounds(x: int, y: int, cols: int, rows: int)
    requires
        0 <= x < cols,
        0 <= y < rows,
    ensures
        0 <= y * cols + x < rows * cols,
{
    lemma_mul_inequality(y + 1, rows, cols);
    assert((y + 1) * cols == y * cols + cols) by (nonlinear_arith);
    assert(y * cols >= 0) by (nonlinear_arith)
        requires
            y >= 0,
            cols > 0,
    ;
}

/// Reads whether a value occurs in a list of materials.
pub(crate) fn contains_i32(v: &Vec<i32>, x: i32) -> (r: bool)
    ensures
        r == v@.contains(x),
{
    let mut i: usize = 0;
    while i < v.len()
        invariant
            0 <= i <= v@.len(),
            forall|j: int| 0 <= j < i ==> v@[j] != x,
        decreases v@.len() - i,
    {
        if v[i] == x {
            return true;
        }
        i = i + 1;
    }
    false
}

/// Reads whether a cell occurs in the open list.
fn open_contains(open: &Vec<(i32, i32)>, c: (i32, i32)) -> (r: bool)
    ensures
        r == open@.contains(c),
{
    let mut i: usize = 0;
    while i < open.len()
        invariant
            0 <= i <= open@.len(),
            forall|j: int| 0 <= j < i ==> open@[j] != c,
        decreases open@.len() - i,
    {
        if open[i].0 == c.0 && open[i].1 == c.1 {
            return true;
        }
        i = i + 1;
    }
    false
}

/// The node built for cell `(x, y)`: ids run row by row starting at 1,
/// walkability comes from the ghost material list, and the costs are the
/// heuristic distances to the search's two endpoints.
pub open spec fn node_built(
    n: PathFindingNode,
    g: Seq<Seq<i32>>,
    ghosts: Seq<i32>,
    cols: int,
    x: int,
    y: int,
    start_cell: (int, int),
    goal_cell: (int, int),
) -> bool {
    &&& n.id == y * cols + x + 1
    &&& n.transparent == cell_walkable(g, ghosts, x, y)
    &&& n.position.0 == x
    &&& n.position.1 == y
    &&& n.parent_position == (-1i32, -1i32)
    &&& n.g_cost == octile(x, y, start_cell.0, start_cell.1)
    &&& n.h_cost == octile(x, y, goal_cell.0, goal_cell.1)
}

impl PathFinding {
    /// The octile-style heuristic distance between two grid cells.
    pub fn get_distance(node_a: (i32, i32), node_b: (i32, i32)) -> (r: i32)
        requires
            -1000000 <= node_a.0 <= 1000000,
            -1000000 <= node_a.1 <= 1000000,
            -1000000 <= node_b.0 <= 1000000,
            -1000000 <= node_b.1 <= 1000000,
        ensures
            r == octile(node_a.0 as int, node_a.1 as int, node_b.0 as int, node_b.1 as int),
    {
        let dist_x: i32 = if node_a.0 >= node_b.0 {
            node_a.0 - node_b.0
        } else {
            node_b.0 - node_a.0
        };
        let dist_y: i32 = if node_a.1 >= node_b.1 {
            node_a.1 - node_b.1
        } else {
            node_b.1 - node_a.1
        };
        if dist_x < dist_y {
            14 * dist_x + 10 * (dist_y - dist_x)
        } else {
            14 * dist_y + 10 * (dist_x - dist_y)
        }
    }

    /// Builds the per-cell node grid for a search from `start_position`
    /// toward `desired_position` (both in grid cells): ids run row by row
    /// starting at 1, walkability comes from the ghost material list, and
    /// the costs are the heuristic distances to the two endpoints.
    pub fn construct_pf_grid(
        map_infos: &(Vec<Vec<i32>>, Vec<i32>, i64),
        start_position: (i32, i32),
        desired_position: (i32, i32),
    ) -> (grid: Vec<Vec<PathFindingNode>>)
        requires
            map_infos.0@.len() >= 1,
            map_infos.0@[0]@.len() >= 1,
            grid_rectangular(map_infos.0.deep_view(), map_infos.0@[0]@.len() as int),
            map_infos.0@.len() * map_infos.0@[0]@.len() <= 1000000,
            -1000000 <= start_position.0 <= 1000000,
            -1000000 <= start_position.1 <= 1000000,
            -1000000 <= desired_position.0 <= 1000000,
            -1000000 <= desired_position.1 <= 1000000,
        ensures
            grid@.len() == map_infos.0@.len(),
            forall|y: int|
                0 <= y < grid@.len() ==> (#[trigger] grid@[y])@.len() == map_infos.0@[0]@.len(),
            forall|y: int, x: int|
                0 <= y < grid@.len() && 0 <= x < grid@[y]@.len() ==> node_built(
                    #[trigger] grid@[y]@[x],
                    map_infos.0.deep_view(),
                    map_infos.1@,
                    map_infos.0@[0]@.len() as int,
                    x,
                    y,
                    (start_position.0 as int, start_position.1 as int),
                    (desired_position.0 as int, desired_position.1 as int),
                ),
    {
        let raw_map = &map_infos.0;
        let cols = raw_map[0].len();
        let rows = raw_map.len();
        proof {
            assert(cols <= 1000000 && rows <= 1000000) by (nonlinear_arith)
                requires
                    rows as int * cols as int <= 1000000,
                    rows >= 1,
                    cols >= 1,
            ;
        }
        let mut grid: Vec<Vec<PathFindingNode>> = Vec::new();
        let mut y: usize = 0;
        while y < rows
            invariant
                0 <= y <= rows,
                rows == raw_map@.len(),
                cols == raw_map@[0]@.len(),
                raw_map == &map_infos.0,
                grid_rectangular(raw_map.deep_view(), cols as int),
                rows * cols <= 1000000,
                cols >= 1,
                -1000000 <= start_position.0 <= 1000000,
                -1000000 <= start_position.1 <= 1000000,
                -1000000 <= desired_position.0 <= 1000000,
                -1000000 <= desired_position.1 <= 1000000,
                rows <= 1000000,
                cols <= 1000000,
                grid@.len() == y,
                forall|yy: int| 0 <= yy < y ==> (#[trigger] grid@[yy])@.len() == cols,
                forall|yy: int, x: int|
                    0 <= yy < y && 0 <= x < cols ==> node_built(
                        #[trigger] grid@[yy]@[x],
                        raw_map.deep_view(),
                        map_infos.1@,
                        cols as int,
                        x,
                        yy,
                        (start_position.0 as int, start_position.1 as int),
                        (desired_position.0 as int, desired_position.1 as int),
                    ),
            decreases rows - y,
        {
            let mut grid_new_row: Vec<PathFindingNode> = Vec::new();
            let mut x: usize = 0;
            proof {
                lemma_pidx_bounds(0, y as int, cols as int, rows as int);
            }
            while x < cols
                invariant
                    0 <= x <= cols,
                    0 <= y < rows,
                    rows == raw_map@.len(),
                    cols == raw_map@[0]@.len(),
                    raw_map == &map_infos.0,
                    grid_rectangular(raw_map.deep_view(), cols as int),
                    rows * cols <= 1000000,
                    cols >= 1,
                    -1000000 <= start_position.0 <= 1000000,
                    -1000000 <= start_position.1 <= 1000000,
                    -1000000 <= desired_position.0 <= 1000000,
                    -1000000 <= desired_position.1 <= 1000000,
                    rows <= 1000000,
                    cols <= 1000000,
                    grid_new_row@.len() == x,
                    forall|xx: int|
                        0 <= xx < x ==> node_built(
                            #[trigger] grid_new_row@[xx],
                            raw_map.deep_view(),
                            map_infos.1@,
                            cols as int,
                            xx,
                            y as int,
                            (start_position.0 as int, start_position.1 as int),
                            (desired_position.0 as int, desired_position.1 as int),
                        ),
                decreases cols - x,
            {
                proof {
                    lemma_pidx_bounds(x as int, y as int, cols as int, rows as int);
                    assert(raw_map.deep_view()[y as int] == raw_map@[y as int]@);
                }
                let material = raw_map[y][x];
                let transparent = contains_i32(&map_infos.1, material);
                let new_node = PathFindingNode::new(
                    (y * cols + x + 1) as i32,
                    transparent,
                    (x as i32, y as i32),
                    PathFinding::get_distance((x as i32, y as i32), start_position),
                    PathFinding::get_distance((x as i32, y as i32), desired_position),
                );
                grid_new_row.push(new_node);
                x = x + 1;
            }
            grid.push(grid_new_row);
            y = y + 1;
        }
        grid
    }

    /// The 4-connected in-bounds neighbours of a cell, in the fixed order
    /// right, left, down, up.
    pub fn get_neighbours(node_pos: (i32, i32), grid_size: (i32, i32)) -> (neighbours: Vec<
        (i32, i32),
    >)
        requires
            -1000000 <= node_pos.0 <= 1000000,
            -1000000 <= node_pos.1 <= 1000000,
            0 <= grid_size.0 <= 1000000,
            0 <= grid_size.1 <= 1000000,
        ensures
            forall|j: int|
                0 <= j < neighbours@.len() ==> {
                    &&& cells_adjacent(cint(#[trigger] neighbours@[j]), cint(node_pos))
                    &&& 0 <= neighbours@[j].0 < grid_size.0
                    &&& 0 <= neighbours@[j].1 < grid_size.1
                },
            0 <= node_pos.0 + 1 < grid_size.0 && 0 <= node_pos.1 < grid_size.1
                ==> neighbours@.contains(((node_pos.0 + 1) as i32, node_pos.1)),
            0 <= node_pos.0 - 1 < grid_size.0 && 0 <= node_pos.1 < grid_size.1
                ==> neighbours@.contains(((node_pos.0 - 1) as i32, node_pos.1)),
            0 <= node_pos.0 < grid_size.0 && 0 <= node_pos.1 + 1 < grid_size.1
                ==> neighbours@.contains((node_pos.0, (node_pos.1 + 1) as i32)),
            0 <= node_pos.0 < grid_size.0 && 0 <= node_pos.1 - 1 < grid_size.1
                ==> neighbours@.contains((node_pos.0, (node_pos.1 - 1) as i32)),
    {
        let mut neighbours: Vec<(i32, i32)> = Vec::new();
        let nei_list: [(i32, i32); 4] = [
            (node_pos.0 + 1, node_pos.1),
            (node_pos.0 - 1, node_pos.1),
            (node_pos.0, node_pos.1 + 1),
            (node_pos.0, node_pos.1 - 1),
        ];
        let mut k: usize = 0;
        while k < 4
            invariant
                0 <= k <= 4,
                nei_list@.len() == 4,
                nei_list@[0] == ((node_pos.0 + 1) as i32, node_pos.1),
                nei_list@[1] == ((node_pos.0 - 1) as i32, node_pos.1),
                nei_list@[2] == (node_pos.0, (node_pos.1 + 1) as i32),
                nei_list@[3] == (node_pos.0, (node_pos.1 - 1) as i32),
                -1000000 <= node_pos.0 <= 1000000,
                -1000000 <= node_pos.1 <= 1000000,
                0 <= grid_size.0 <= 1000000,
                0 <= grid_size.1 <= 1000000,
                forall|j: int|
                    0 <= j < 4 ==> cells_adjacent(cint(#[trigger] nei_list@[j]), cint(node_pos)),
                forall|j: int|
                    0 <= j < neighbours@.len() ==> {
                        &&& cells_adjacent(cint(#[trigger] neighbours@[j]), cint(node_pos))
                        &&& 0 <= neighbours@[j].0 < grid_size.0
                        &&& 0 <= neighbours@[j].1 < grid_size.1
                    },
                forall|j: int|
                    0 <= j < k && 0 <= (#[trigger] nei_list@[j]).0 < grid_size.0 && 0 <= nei_list@[
                        j
                    ].1 < grid_size.1 ==> neighbours@.contains(nei_list@[j]),
            decreases 4 - k,
        {
            let i = nei_list[k];
            let ghost pre = neighbours@;
            if i.0 >= 0 && i.0 < grid_size.0 && i.1 >= 0 && i.1 < grid_size.1 {
                neighbours.push(i);
            }
            proof {
                assert forall|j: int|
                    0 <= j < k + 1 && 0 <= (#[trigger] nei_list@[j]).0 < grid_size.0 && 0
                        <= nei_list@[j].1 < grid_size.1 implies neighbours@.contains(
                    nei_list@[j],
                ) by {
                    if j < k {
                        let w = choose|w: int| 0 <= w < pre.len() && pre[w] == nei_list@[j];
                        assert(neighbours@[w] == nei_list@[j]);
                    } else {
                        assert(neighbours@[neighbours@.len() - 1] == nei_list@[j]);
                    }
                }
            }
            k = k + 1;
        }
        neighbours
    }

    /// Greedy best-first search over the tile grid: pops the open cell
    /// with the smallest heuristic cost, closes it, and discovers its four
    /// axis neighbours, each walkable cell's parent set once at discovery.
    /// Fails when the goal cell is blocked or the open set empties before
    /// the goal is reached; otherwise returns the waypoints from the cell
    /// next to the start up to the goal cell's center ([`astar_post`]).
    #[allow(non_snake_case)]
    #[verifier::rlimit(100)]
    #[verifier::spinoff_prover]
    pub fn Astar(
        entity_position: Pos2D<i64>,
        desired_position: Pos2D<i64>,
        map_infos: &(Vec<Vec<i32>>, Vec<i32>, i64),
    ) -> (r: PathFindingResult)
        requires
            astar_req(
                map_infos.0.deep_view(),
                map_infos.2 as int,
                entity_position,
                desired_position,
            ),
        ensures
            astar_post(
                map_infos.0.deep_view(),
                map_infos.1@,
                map_infos.2 as int,
                entity_position,
                desired_position,
                r,
            ),
    {
        let ts = map_infos.2;
        let raw = &map_infos.0;
        let ghosts = &map_infos.1;
        let rows = raw.len();
        let cols = raw[0].len();
        let ghost g = raw.deep_view();
        proof {
            assert(cols <= 1000000 && rows <= 1000000) by (nonlinear_arith)
                requires
                    rows as int * cols as int <= 1000000,
                    rows >= 1,
                    cols >= 1,
            ;
            lemma_coord_to_cell(entity_position.x as int, ts as int, cols as int);
            lemma_coord_to_cell(entity_position.y as int, ts as int, rows as int);
            lemma_coord_to_cell(desired_position.x as int, ts as int, cols as int);
            lemma_coord_to_cell(desired_position.y as int, ts as int, rows as int);
        }
        let sx = div_trunc(entity_position.x, ts);
        let sy = div_trunc(entity_position.y, ts);
        let gx = div_trunc(desired_position.x, ts);
        let gy = div_trunc(desired_position.y, ts);
        let ghost sc = (sx as int, sy as int);
        let ghost gc = (gx as int, gy as int);
        proof {
            assert(sc == cell_of(entity_position, ts as int));
            assert(gc == cell_of(desired_position, ts as int));
            assert(g[gy as int] == raw@[gy as int]@);
            assert(g[sy as int] == raw@[sy as int]@);
            assert(g[0] == raw@[0]@);
        }
        // A blocked goal cell fails at once, and no walkable chain can
        // end on it.
        if !contains_i32(ghosts, raw[gy as usize][gx as usize]) {
            proof {
                if cells_connected(g, ghosts@, cols as int, rows as int, sc, gc) {
                    let cells = choose|cells: Seq<(int, int)>|
                        #[trigger] walkable_chain(
                            cells,
                            g,
                            ghosts@,
                            cols as int,
                            rows as int,
                            sc,
                            gc,
                        );
                    assert(cells[cells.len() - 1] == gc);
                    assert(cell_walkable(g, ghosts@, gc.0, gc.1));
                    assert(false);
                }
            }
            return PathFindingResult::Fail;
        }
        // Already standing on the goal cell: the route is that center.
        if sx == gx && sy == gy {
            proof {
                lemma_center_bounds(gx as int, gy as int, ts as int, cols as int, rows as int);
            }
            let half = div_trunc(ts, 2);
            let wp = Pos2D { x: gx * ts + half, y: gy * ts + half };
            let mut path: Vec<Pos2D<i64>> = Vec::new();
            path.push(wp);
            proof {
                let cells: Seq<(int, int)> = seq![gc];
                assert(path_cells_ok(
                    cells,
                    g,
                    ghosts@,
                    ts as int,
                    cols as int,
                    rows as int,
                    sc,
                    gc,
                    path@,
                ));
            }
            return PathFindingResult::Found(path);
        }
        // Search state: flat per-cell closed flags and parent links, the
        // open list, and a ghost discovery rank for each discovered cell.
        let total = rows * cols;
        let mut closed: Vec<bool> = Vec::new();
        while closed.len() < total
            invariant
                closed@.len() <= total,
                forall|i: int| 0 <= i < closed@.len() ==> !(#[trigger] closed@[i]),
            decreases total - closed@.len(),
        {
            closed.push(false);
        }
        let mut parent: Vec<(i32, i32)> = Vec::new();
        while parent.len() < total
            invariant
                parent@.len() <= total,
                forall|i: int| 0 <= i < parent@.len() ==> #[trigger] parent@[i] == (-1i32, -1i32),
            decreases total - parent@.len(),
        {
            parent.push((-1, -1));
        }
        let start32: (i32, i32) = (sx as i32, sy as i32);
        let goal32: (i32, i32) = (gx as i32, gy as i32);
        let mut open: Vec<(i32, i32)> = Vec::new();
        open.push(start32);
        let mut closed_count: usize = 0;
        let ghost mut rank: Map<(int, int), int> = Map::empty().insert(sc, 0);
        let ghost mut ctr: int = 1;
        let mut found = false;
        proof {
            lemma_count_trues_zero(closed@);
            lemma_pidx_bounds(sx as int, sy as int, cols as int, rows as int);
            lemma_pidx_bounds(gx as int, gy as int, cols as int, rows as int);
            assert forall|x: int, y: int| 0 <= x < cols && 0 <= y < rows implies #[trigger] closed_disc_at(
                closed@,
                parent@,
                cols as int,
                sc,
                x,
                y,
            ) by {
                lemma_pidx_bounds(x, y, cols as int, rows as int);
            }
            assert forall|x: int, y: int|
                0 <= x < cols && 0 <= y < rows && !(found && (x, y) == gc) implies #[trigger] closed_expanded_at(
                g,
                ghosts@,
                cols as int,
                rows as int,
                closed@,
                parent@,
                sc,
                x,
                y,
            ) by {
                lemma_pidx_bounds(x, y, cols as int, rows as int);
            }
            assert(open@[0] == start32);
            assert(open@.contains(start32));
            assert forall|x: int, y: int| 0 <= x < cols && 0 <= y < rows implies #[trigger] par_entry_ok(
                g,
                ghosts@,
                cols as int,
                rows as int,
                parent@,
                rank,
                sc,
                x,
                y,
            ) by {
                lemma_pidx_bounds(x, y, cols as int, rows as int);
            }
            assert forall|x: int, y: int|
                0 <= x < cols && 0 <= y < rows && #[trigger] parent@[y * cols + x] != (
                -1i32,
                -1i32,
                ) implies closed@[y * cols + x] || open@.contains((x as i32, y as i32)) by {
                lemma_pidx_bounds(x, y, cols as int, rows as int);
            }
        }
        while open.len() > 0 && !found
            invariant
                rows == raw@.len(),
                cols == raw@[0]@.len(),
                raw == &map_infos.0,
                ghosts == &map_infos.1,
                g == raw.deep_view(),
                grid_rectangular(g, cols as int),
                1 <= cols <= 1000000,
                1 <= rows <= 1000000,
                rows * cols == total,
                closed@.len() == total,
                parent@.len() == total,
                closed_count == count_trues(closed@),
                0 <= closed_count <= total,
                ts == map_infos.2,
                ts >= 1,
                cols * ts <= COORD_LIMIT,
                rows * ts <= COORD_LIMIT,
                0 <= sc.0 < cols,
                0 <= sc.1 < rows,
                0 <= gc.0 < cols,
                0 <= gc.1 < rows,
                sc != gc,
                cint(start32) == sc,
                cint(goal32) == gc,
                cell_walkable(g, ghosts@, gc.0, gc.1),
                open_ok(cols as int, rows as int, closed@, parent@, sc, open@),
                pars_ok(g, ghosts@, cols as int, rows as int, parent@, rank, sc),
                rank_ok(rank, ctr),
                rank.dom().contains(sc),
                parent@[sc.1 * cols + sc.0] == (-1i32, -1i32),
                open@.contains(start32) || closed@[sc.1 * cols + sc.0],
                disc_tracked(cols as int, rows as int, closed@, parent@, open@),
                found ==> parent@[gc.1 * cols + gc.0] != (-1i32, -1i32),
                forall|x: int, y: int|
                    0 <= x < cols && 0 <= y < rows ==> #[trigger] closed_disc_at(
                        closed@,
                        parent@,
                        cols as int,
                        sc,
                        x,
                        y,
                    ),
                forall|x: int, y: int|
                    0 <= x < cols && 0 <= y < rows && !(found && (x, y) == gc)
                        ==> #[trigger] closed_expanded_at(
                        g,
                        ghosts@,
                        cols as int,
                        rows as int,
                        closed@,
                        parent@,
                        sc,
                        x,
                        y,
                    ),
                !found ==> !closed@[gc.1 * cols + gc.0],
            decreases total - closed_count,
        {
            proof {
                lemma_pidx_bounds(sc.0, sc.1, cols as int, rows as int);
                lemma_pidx_bounds(gc.0, gc.1, cols as int, rows as int);
            }
            // Pop the open cell with the smallest heuristic cost.
            let mut best_idx: usize = 0;
            let mut t: usize = 1;
            while t < open.len()
                invariant
                    1 <= t <= open@.len(),
                    0 <= best_idx < open@.len(),
                    open@.len() > 0,
                    1 <= cols <= 1000000,
                    1 <= rows <= 1000000,
                    0 <= gc.0 < cols,
                    0 <= gc.1 < rows,
                    cint(goal32) == gc,
                    forall|k: int|
                        0 <= k < open@.len() ==> 0 <= (#[trigger] open@[k]).0 < cols && 0 <= open@[
                            k
                        ].1 < rows,
                decreases open@.len() - t,
            {
                if PathFinding::get_distance(open[t], goal32) < PathFinding::get_distance(
                    open[best_idx],
                    goal32,
                ) {
                    best_idx = t;
                }
                t = t + 1;
            }
            let ghost old_open = open@;
            let current = open.swap_remove(best_idx);
            let ghost popped_at = best_idx as int;
            proof {
                assert(current == old_open[popped_at]);
                assert(open_entry_ok(cols as int, rows as int, closed@, parent@, sc, current));
                // The rest of the open list keeps its properties and no
                // entry equals the popped cell.
                assert forall|k: int| 0 <= k < open@.len() implies open_entry_ok(
                    cols as int,
                    rows as int,
                    closed@,
                    parent@,
                    sc,
                    #[trigger] open@[k],
                ) && open@[k] != current by {
                    if k == popped_at {
                        assert(open@[k] == old_open[old_open.len() - 1]);
                    } else {
                        assert(open@[k] == old_open[k]);
                    }
                }
                assert forall|k1: int, k2: int| 0 <= k1 < k2 < open@.len() implies open@[k1]
                    != open@[k2] by {
                    let o1: int = if k1 == popped_at {
                        old_open.len() - 1
                    } else {
                        k1
                    };
                    let o2: int = if k2 == popped_at {
                        old_open.len() - 1
                    } else {
                        k2
                    };
                    assert(open@[k1] == old_open[o1]);
                    assert(open@[k2] == old_open[o2]);
                }
            }
            proof {
                lemma_pidx_bounds(current.0 as int, current.1 as int, cols as int, rows as int);
            }
            let ci = (current.1 as usize) * cols + (current.0 as usize);
            proof {
                lemma_count_trues_false_entry(closed@, ci as int);
                lemma_count_trues_set(closed@, ci as int);
            }
            let ghost old_closed = closed@;
            closed.set(ci, true);
            closed_count = closed_count + 1;
            proof {
                // Entries of the open list differ from the popped cell, so
                // they stay unclosed.
                assert forall|k: int| 0 <= k < open@.len() implies open_entry_ok(
                    cols as int,
                    rows as int,
                    closed@,
                    parent@,
                    sc,
                    #[trigger] open@[k],
                ) by {
                    let c = open@[k];
                    lemma_pidx_bounds(c.0 as int, c.1 as int, cols as int, rows as int);
                    if c.1 * cols + c.0 == ci as int {
                        lemma_pidx_injective(
                            c.0 as int,
                            c.1 as int,
                            current.0 as int,
                            current.1 as int,
                            cols as int,
                        );
                        assert(false);
                    }
                }
                if old_closed[sc.1 * cols + sc.0] {
                    assert(closed@[sc.1 * cols + sc.0]);
                } else {
                    lemma_swap_remove_contains(old_open, open@, popped_at, start32);
                    if start32 == old_open[popped_at] {
                        assert(cint(current) == sc);
                        assert(ci as int == sc.1 * cols + sc.0);
                        assert(closed@[sc.1 * cols + sc.0]);
                    }
                }
                // Every discovered cell is still tracked after the pop.
                assert forall|x: int, y: int|
                    0 <= x < cols && 0 <= y < rows && #[trigger] parent@[y * cols + x] != (
                    -1i32,
                    -1i32,
                    ) implies closed@[y * cols + x] || open@.contains((x as i32, y as i32)) by {
                    lemma_pidx_bounds(x, y, cols as int, rows as int);
                    if !old_closed[y * cols + x] {
                        assert(old_open.contains((x as i32, y as i32)));
                        lemma_swap_remove_contains(old_open, open@, popped_at, (x as i32, y as i32));
                        if (x as i32, y as i32) == old_open[popped_at] {
                            assert(x == current.0 as int && y == current.1 as int);
                            assert(closed@[y * cols + x]);
                        }
                    }
                }
                // A closed cell is still a discovered one; the expansion
                // facts survive for every cell but the popped one.
                assert forall|x: int, y: int| 0 <= x < cols && 0 <= y < rows implies #[trigger] closed_disc_at(
                    closed@,
                    parent@,
                    cols as int,
                    sc,
                    x,
                    y,
                ) by {
                    lemma_pidx_bounds(x, y, cols as int, rows as int);
                    if closed@[y * cols + x] && !old_closed[y * cols + x] {
                        assert(y * cols + x == ci as int);
                        lemma_pidx_injective(
                            x,
                            y,
                            current.0 as int,
                            current.1 as int,
                            cols as int,
                        );
                        assert((x, y) == cint(current));
                    } else {
                        assert(closed_disc_at(old_closed, parent@, cols as int, sc, x, y));
                    }
                }
                assert forall|x: int, y: int|
                    0 <= x < cols && 0 <= y < rows && (x, y) != cint(current) implies #[trigger] closed_expanded_at(
                    g,
                    ghosts@,
                    cols as int,
                    rows as int,
                    closed@,
                    parent@,
                    sc,
                    x,
                    y,
                ) by {
                    lemma_pidx_bounds(x, y, cols as int, rows as int);
                    if y * cols + x == ci as int {
                        lemma_pidx_injective(
                            x,
                            y,
                            current.0 as int,
                            current.1 as int,
                            cols as int,
                        );
                        assert(false);
                    }
                    assert(closed_expanded_at(
                        g,
                        ghosts@,
                        cols as int,
                        rows as int,
                        old_closed,
                        parent@,
                        sc,
                        x,
                        y,
                    ));
                }
                if !(cint(current) == gc) {
                    lemma_pidx_bounds(gc.0, gc.1, cols as int, rows as int);
                    if ci as int == gc.1 * cols + gc.0 {
                        lemma_pidx_injective(
                            gc.0,
                            gc.1,
                            current.0 as int,
                            current.1 as int,
                            cols as int,
                        );
                        assert(false);
                    }
                }
            }
            proof {
                if cint(current) != sc {
                    assert(par_entry_ok(
                        g,
                        ghosts@,
                        cols as int,
                        rows as int,
                        parent@,
                        rank,
                        sc,
                        current.0 as int,
                        current.1 as int,
                    ));
                }
            }
            if current.0 == goal32.0 && current.1 == goal32.1 {
                found = true;
                proof {
                    assert(cint(current) == gc);
                    assert(parent@[gc.1 * cols + gc.0] != (-1i32, -1i32));
                }
            } else {
                // Discover the four axis neighbours.
                let neis = PathFinding::get_neighbours(current, (cols as i32, rows as i32));
                let mut q: usize = 0;
                while q < neis.len()
                    invariant
                        0 <= q <= neis@.len(),
                        rows == raw@.len(),
                        cols == raw@[0]@.len(),
                        raw == &map_infos.0,
                        ghosts == &map_infos.1,
                        g == raw.deep_view(),
                        grid_rectangular(g, cols as int),
                        1 <= cols <= 1000000,
                        1 <= rows <= 1000000,
                        rows * cols == total,
                        closed@.len() == total,
                        parent@.len() == total,
                        closed_count == count_trues(closed@),
                        0 <= closed_count <= total,
                        ts == map_infos.2,
                        ts >= 1,
                        cols * ts <= COORD_LIMIT,
                        rows * ts <= COORD_LIMIT,
                        !found,
                        0 <= sc.0 < cols,
                        0 <= sc.1 < rows,
                        0 <= gc.0 < cols,
                        0 <= gc.1 < rows,
                        sc != gc,
                        cint(start32) == sc,
                        cint(goal32) == gc,
                        cell_walkable(g, ghosts@, gc.0, gc.1),
                        forall|j: int|
                            0 <= j < neis@.len() ==> cells_adjacent(
                                cint(#[trigger] neis@[j]),
                                cint(current),
                            ) && 0 <= neis@[j].0 < cols && 0 <= neis@[j].1 < rows,
                        0 <= current.0 < cols,
                        0 <= current.1 < rows,
                        closed@[current.1 * cols + current.0],
                        cint(current) == sc || parent@[current.1 * cols + current.0] != (
                        -1i32,
                        -1i32,
                        ),
                        open_ok(cols as int, rows as int, closed@, parent@, sc, open@),
                        pars_ok(g, ghosts@, cols as int, rows as int, parent@, rank, sc),
                        rank_ok(rank, ctr),
                        rank.dom().contains(sc),
                        rank.dom().contains(cint(current)),
                        parent@[sc.1 * cols + sc.0] == (-1i32, -1i32),
                        open@.contains(start32) || closed@[sc.1 * cols + sc.0],
                        disc_tracked(cols as int, rows as int, closed@, parent@, open@),
                        forall|x: int, y: int|
                            0 <= x < cols && 0 <= y < rows ==> #[trigger] closed_disc_at(
                                closed@,
                                parent@,
                                cols as int,
                                sc,
                                x,
                                y,
                            ),
                        forall|x: int, y: int|
                            0 <= x < cols && 0 <= y < rows && (x, y) != cint(current)
                                ==> #[trigger] closed_expanded_at(
                                g,
                                ghosts@,
                                cols as int,
                                rows as int,
                                closed@,
                                parent@,
                                sc,
                                x,
                                y,
                            ),
                        !closed@[gc.1 * cols + gc.0],
                        forall|q2: int|
                            0 <= q2 < q && cell_walkable(
                                g,
                                ghosts@,
                                (#[trigger] neis@[q2]).0 as int,
                                neis@[q2].1 as int,
                            ) ==> discovered_at(
                                parent@,
                                cols as int,
                                sc,
                                neis@[q2].0 as int,
                                neis@[q2].1 as int,
                            ),
                    decreases neis@.len() - q,
                {
                    proof {
                        lemma_pidx_bounds(sc.0, sc.1, cols as int, rows as int);
                        lemma_pidx_bounds(gc.0, gc.1, cols as int, rows as int);
                        lemma_pidx_bounds(
                            current.0 as int,
                            current.1 as int,
                            cols as int,
                            rows as int,
                        );
                    }
                    let n = neis[q];
                    if n.0 >= 0 && (n.0 as usize) < cols && n.1 >= 0 && (n.1 as usize) < rows {
                        proof {
                            lemma_pidx_bounds(n.0 as int, n.1 as int, cols as int, rows as int);
                            assert(g[n.1 as int] == raw@[n.1 as int]@);
                        }
                        let ni = (n.1 as usize) * cols + (n.0 as usize);
                        let walk_n = contains_i32(ghosts, raw[n.1 as usize][n.0 as usize]);
                        let closed_n = closed[ni];
                        let open_n = open_contains(&open, n);
                        if walk_n && !closed_n && !open_n {
                            proof {
                                // The neighbour is unclosed and not open,
                                // so it is not the start cell and has no
                                // parent yet.
                                if cint(n) == sc {
                                    assert(n == start32);
                                    assert(ni as int == sc.1 * cols + sc.0);
                                    assert(!closed@[sc.1 * cols + sc.0]);
                                    assert(!open@.contains(start32));
                                    assert(false);
                                }
                                if parent@[ni as int] != (-1i32, -1i32) {
                                    assert(closed@[ni as int] || open@.contains(
                                        (n.0 as int as i32, n.1 as int as i32),
                                    ));
                                    assert((n.0 as int as i32, n.1 as int as i32) == n);
                                    assert(false);
                                }
                                assert(cint(current) != cint(n));
                            }
                            let ghost old_parent = parent@;
                            let ghost old_rank = rank;
                            parent.set(ni, current);
                            proof {
                                // An undiscovered cell is nobody's parent,
                                // so every old link keeps its meaning.
                                assert(old_parent[ni as int] == (-1i32, -1i32));
                                rank = rank.insert(cint(n), ctr);
                                ctr = ctr + 1;
                                assert(old_rank.dom().contains(sc));
                                assert(0 <= old_rank[sc]);
                                assert forall|c: (int, int)| rank.dom().contains(c) implies 0 <= #[trigger] rank[c]
                                    < ctr by {
                                    if c != cint(n) {
                                        assert(rank[c] == old_rank[c]);
                                        assert(old_rank.dom().contains(c));
                                        assert(0 <= old_rank[c]);
                                    }
                                }
                                if ni as int == sc.1 * cols + sc.0 {
                                    lemma_pidx_injective(
                                        n.0 as int,
                                        n.1 as int,
                                        sc.0,
                                        sc.1,
                                        cols as int,
                                    );
                                    assert(false);
                                }
                                assert(parent@[sc.1 * cols + sc.0] == (-1i32, -1i32));
                                assert forall|x: int, y: int|
                                    0 <= x < cols && 0 <= y < rows implies #[trigger] par_entry_ok(
                                    g,
                                    ghosts@,
                                    cols as int,
                                    rows as int,
                                    parent@,
                                    rank,
                                    sc,
                                    x,
                                    y,
                                ) by {
                                    lemma_pidx_bounds(x, y, cols as int, rows as int);
                                    assert(par_entry_ok(
                                        g,
                                        ghosts@,
                                        cols as int,
                                        rows as int,
                                        old_parent,
                                        old_rank,
                                        sc,
                                        x,
                                        y,
                                    ));
                                    if y * cols + x == ni as int {
                                        lemma_pidx_injective(
                                            x,
                                            y,
                                            n.0 as int,
                                            n.1 as int,
                                            cols as int,
                                        );
                                        assert((x, y) == cint(n));
                                        if current.1 * cols + current.0 == ni as int {
                                            lemma_pidx_injective(
                                                current.0 as int,
                                                current.1 as int,
                                                n.0 as int,
                                                n.1 as int,
                                                cols as int,
                                            );
                                            assert(false);
                                        }
                                        assert(parent@[current.1 * cols + current.0] == old_parent[
                                            current.1 * cols + current.0
                                        ]);
                                        assert(rank[cint(current)] == old_rank[cint(current)]);
                                        assert(rank[cint(current)] < rank[(x, y)]);
                                    } else {
                                        assert(parent@[y * cols + x] == old_parent[y * cols + x]);
                                        if old_parent[y * cols + x] != (-1i32, -1i32) {
                                            let p = old_parent[y * cols + x];
                                            if p.1 * cols + p.0 == ni as int {
                                                lemma_pidx_injective(
                                                    p.0 as int,
                                                    p.1 as int,
                                                    n.0 as int,
                                                    n.1 as int,
                                                    cols as int,
                                                );
                                                assert(cint(p) == cint(n));
                                                assert(old_parent[ni as int] != (-1i32, -1i32)
                                                    || cint(p) == sc);
                                                assert(cint(n) == sc);
                                                assert(false);
                                            }
                                            assert((x, y) != cint(n));
                                            assert(rank[(x, y)] == old_rank[(x, y)]);
                                            lemma_pidx_bounds(
                                                p.0 as int,
                                                p.1 as int,
                                                cols as int,
                                                rows as int,
                                            );
                                            assert(parent@[p.1 * cols + p.0] == old_parent[p.1
                                                * cols + p.0]);
                                            if cint(p) != cint(n) {
                                                assert(rank[cint(p)] == old_rank[cint(p)]);
                                            }
                                        }
                                    }
                                }
                                // Open entries are untouched by the new link.
                                assert forall|k: int| 0 <= k < open@.len() implies open_entry_ok(
                                    cols as int,
                                    rows as int,
                                    closed@,
                                    parent@,
                                    sc,
                                    #[trigger] open@[k],
                                ) by {
                                    let c = open@[k];
                                    lemma_pidx_bounds(c.0 as int, c.1 as int, cols as int, rows as int);
                                    assert(open_entry_ok(
                                        cols as int,
                                        rows as int,
                                        closed@,
                                        old_parent,
                                        sc,
                                        c,
                                    ));
                                    if c.1 * cols + c.0 == ni as int {
                                    } else {
                                        assert(parent@[c.1 * cols + c.0] == old_parent[c.1 * cols
                                            + c.0]);
                                    }
                                }
                                // Discovery is monotone: the new link keeps
                                // every earlier discovery.
                                assert forall|x: int, y: int|
                                    0 <= x < cols && 0 <= y < rows && discovered_at(
                                        old_parent,
                                        cols as int,
                                        sc,
                                        x,
                                        y,
                                    ) implies #[trigger] discovered_at(
                                    parent@,
                                    cols as int,
                                    sc,
                                    x,
                                    y,
                                ) by {
                                    lemma_pidx_bounds(x, y, cols as int, rows as int);
                                    if y * cols + x != ni as int {
                                        assert(parent@[y * cols + x] == old_parent[y * cols + x]);
                                    }
                                }
                                assert forall|x: int, y: int|
                                    0 <= x < cols && 0 <= y < rows implies #[trigger] closed_disc_at(
                                    closed@,
                                    parent@,
                                    cols as int,
                                    sc,
                                    x,
                                    y,
                                ) by {
                                    lemma_pidx_bounds(x, y, cols as int, rows as int);
                                    assert(closed_disc_at(
                                        closed@,
                                        old_parent,
                                        cols as int,
                                        sc,
                                        x,
                                        y,
                                    ));
                                }
                                assert forall|x: int, y: int|
                                    0 <= x < cols && 0 <= y < rows && (x, y) != cint(current)
                                        implies #[trigger] closed_expanded_at(
                                    g,
                                    ghosts@,
                                    cols as int,
                                    rows as int,
                                    closed@,
                                    parent@,
                                    sc,
                                    x,
                                    y,
                                ) by {
                                    lemma_pidx_bounds(x, y, cols as int, rows as int);
                                    assert(closed_expanded_at(
                                        g,
                                        ghosts@,
                                        cols as int,
                                        rows as int,
                                        closed@,
                                        old_parent,
                                        sc,
                                        x,
                                        y,
                                    ));
                                }
                            }
                            let ghost pre_push = open@;
                            open.push(n);
                            proof {
                                assert forall|k1: int, k2: int|
                                    0 <= k1 < k2 < open@.len() implies open@[k1] != open@[k2] by {
                                    if k2 == open@.len() - 1 {
                                        assert(open@[k1] == pre_push[k1]);
                                        assert(!pre_push.contains(n));
                                        assert(pre_push[k1] != n);
                                    }
                                }
                                assert(open_entry_ok(
                                    cols as int,
                                    rows as int,
                                    closed@,
                                    parent@,
                                    sc,
                                    n,
                                ));
                                if pre_push.contains(start32) {
                                    let w = choose|w: int|
                                        0 <= w < pre_push.len() && pre_push[w] == start32;
                                    assert(open@[w] == start32);
                                    assert(open@.contains(start32));
                                }
                                assert forall|x: int, y: int|
                                    0 <= x < cols && 0 <= y < rows && #[trigger] parent@[y * cols
                                    + x] != (-1i32, -1i32) implies closed@[y * cols + x]
                                    || open@.contains((x as i32, y as i32)) by {
                                    lemma_pidx_bounds(x, y, cols as int, rows as int);
                                    if y * cols + x == ni as int {
                                        lemma_pidx_injective(
                                            x,
                                            y,
                                            n.0 as int,
                                            n.1 as int,
                                            cols as int,
                                        );
                                        assert(open@[open@.len() - 1] == n);
                                        assert((x as i32, y as i32) == n);
                                        assert(open@.contains((x as i32, y as i32)));
                                    } else {
                                        assert(parent@[y * cols + x] == old_parent[y * cols + x]);
                                        if !closed@[y * cols + x] {
                                            assert(pre_push.contains((x as i32, y as i32)));
                                            let w = choose|w: int|
                                                0 <= w < pre_push.len() && pre_push[w] == (
                                                x as i32,
                                                y as i32,
                                                );
                                            assert(open@[w] == (x as i32, y as i32));
                                            assert(open@.contains((x as i32, y as i32)));
                                        }
                                    }
                                }
                            }
                        }
                        proof {
                            // The neighbour is discovered when walkable:
                            // freshly linked, already closed, or still on
                            // the open list.
                            if walk_n {
                                if closed_n {
                                    assert(closed_disc_at(
                                        closed@,
                                        parent@,
                                        cols as int,
                                        sc,
                                        n.0 as int,
                                        n.1 as int,
                                    ));
                                } else if open_n {
                                    let w = choose|w: int|
                                        0 <= w < open@.len() && open@[w] == n;
                                    assert(open_entry_ok(
                                        cols as int,
                                        rows as int,
                                        closed@,
                                        parent@,
                                        sc,
                                        open@[w],
                                    ));
                                }
                                assert(discovered_at(
                                    parent@,
                                    cols as int,
                                    sc,
                                    n.0 as int,
                                    n.1 as int,
                                ));
                            }
                            assert(neis@[q as int] == n);
                        }
                    }
                    q = q + 1;
                }
            }
        }
        if !found {
            proof {
                // The open set is empty, so every discovered cell is
                // closed; the closed set is therefore closed under
                // walkable adjacency and contains the start cell, while
                // the goal cell was never closed. No walkable chain can
                // then join the start to the goal.
                lemma_pidx_bounds(sc.0, sc.1, cols as int, rows as int);
                lemma_pidx_bounds(gc.0, gc.1, cols as int, rows as int);
                if !closed@[sc.1 * cols + sc.0] {
                    assert(open@.contains(start32));
                    let w = choose|w: int| 0 <= w < open@.len() && open@[w] == start32;
                    assert(false);
                }
                assert forall|x: int, y: int| 0 <= x < cols && 0 <= y < rows implies #[trigger] closure_at(
                    g,
                    ghosts@,
                    cols as int,
                    rows as int,
                    closed@,
                    x,
                    y,
                ) by {
                    lemma_pidx_bounds(x, y, cols as int, rows as int);
                    if closed@[y * cols + x] {
                        assert(closed_expanded_at(
                            g,
                            ghosts@,
                            cols as int,
                            rows as int,
                            closed@,
                            parent@,
                            sc,
                            x,
                            y,
                        ));
                        if x + 1 < cols && cell_walkable(g, ghosts@, x + 1, y) {
                            let nx = x + 1;
                            lemma_pidx_bounds(nx, y, cols as int, rows as int);
                            assert(discovered_at(parent@, cols as int, sc, nx, y));
                            if !closed@[y * cols + nx] {
                                if (nx, y) == sc {
                                    assert(false);
                                } else {
                                    assert(open@.contains((nx as i32, y as i32)));
                                    let w = choose|w: int|
                                        0 <= w < open@.len() && open@[w] == (nx as i32, y as i32);
                                    assert(false);
                                }
                            }
                        }
                        if 0 <= x - 1 && cell_walkable(g, ghosts@, x - 1, y) {
                            let nx = x - 1;
                            lemma_pidx_bounds(nx, y, cols as int, rows as int);
                            assert(discovered_at(parent@, cols as int, sc, nx, y));
                            if !closed@[y * cols + nx] {
                                if (nx, y) == sc {
                                    assert(false);
                                } else {
                                    assert(open@.contains((nx as i32, y as i32)));
                                    let w = choose|w: int|
                                        0 <= w < open@.len() && open@[w] == (nx as i32, y as i32);
                                    assert(false);
                                }
                            }
                        }
                        if y + 1 < rows && cell_walkable(g, ghosts@, x, y + 1) {
                            let ny = y + 1;
                            lemma_pidx_bounds(x, ny, cols as int, rows as int);
                            assert(discovered_at(parent@, cols as int, sc, x, ny));
                            if !closed@[ny * cols + x] {
                                if (x, ny) == sc {
                                    assert(false);
                                } else {
                                    assert(open@.contains((x as i32, ny as i32)));
                                    let w = choose|w: int|
                                        0 <= w < open@.len() && open@[w] == (x as i32, ny as i32);
                                    assert(false);
                                }
                            }
                        }
                        if 0 <= y - 1 && cell_walkable(g, ghosts@, x, y - 1) {
                            let ny = y - 1;
                            lemma_pidx_bounds(x, ny, cols as int, rows as int);
                            assert(discovered_at(parent@, cols as int, sc, x, ny));
                            if !closed@[ny * cols + x] {
                                if (x, ny) == sc {
                                    assert(false);
                                } else {
                                    assert(open@.contains((x as i32, ny as i32)));
                                    let w = choose|w: int|
                                        0 <= w < open@.len() && open@[w] == (x as i32, ny as i32);
                                    assert(false);
                                }
                            }
                        }
                    }
                }
                if cells_connected(g, ghosts@, cols as int, rows as int, sc, gc) {
                    let cells = choose|cells: Seq<(int, int)>|
                        #[trigger] walkable_chain(
                            cells,
                            g,
                            ghosts@,
                            cols as int,
                            rows as int,
                            sc,
                            gc,
                        );
                    lemma_chain_stays_closed(
                        g,
                        ghosts@,
                        cols as int,
                        rows as int,
                        closed@,
                        sc,
                        gc,
                        cells,
                        cells.len() - 1,
                    );
                    assert(cells[cells.len() - 1] == gc);
                    assert(closed@[gc.1 * cols + gc.0]);
                    assert(false);
                }
            }
            return PathFindingResult::Fail;
        }
        // Walk the parent links back from the goal, then reverse.
        let mut backtrack: Vec<Pos2D<i64>> = Vec::new();
        let ghost mut cells: Seq<(int, int)> = Seq::empty();
        let mut cur: (i32, i32) = goal32;
        let half = div_trunc(ts, 2);
        proof {
            lemma_pidx_bounds(gc.0, gc.1, cols as int, rows as int);
            assert(par_entry_ok(
                g,
                ghosts@,
                cols as int,
                rows as int,
                parent@,
                rank,
                sc,
                gc.0,
                gc.1,
            ));
        }
        let mut done = false;
        while !done
            invariant
                done ==> parent@[cur.1 * cols + cur.0] == (-1i32, -1i32),
                rows == raw@.len(),
                cols == raw@[0]@.len(),
                raw == &map_infos.0,
                ghosts == &map_infos.1,
                g == raw.deep_view(),
                grid_rectangular(g, cols as int),
                1 <= cols <= 1000000,
                1 <= rows <= 1000000,
                rows * cols == total,
                parent@.len() == total,
                ts == map_infos.2,
                ts >= 1,
                cols * ts <= COORD_LIMIT,
                rows * ts <= COORD_LIMIT,
                half == ts / 2,
                0 <= sc.0 < cols,
                0 <= sc.1 < rows,
                0 <= gc.0 < cols,
                0 <= gc.1 < rows,
                0 <= cur.0 < cols,
                0 <= cur.1 < rows,
                pars_ok(g, ghosts@, cols as int, rows as int, parent@, rank, sc),
                rank_ok(rank, ctr),
                rank.dom().contains(sc),
                rank.dom().contains(cint(cur)),
                parent@[sc.1 * cols + sc.0] == (-1i32, -1i32),
                cint(cur) == sc || parent@[cur.1 * cols + cur.0] != (-1i32, -1i32),
                backtrack@.len() == cells.len(),
                forall|i: int|
                    0 <= i < cells.len() ==> {
                        &&& 0 <= (#[trigger] cells[i]).0 < cols
                        &&& 0 <= cells[i].1 < rows
                        &&& cell_walkable(g, ghosts@, cells[i].0, cells[i].1)
                        &&& backtrack@[i] == cell_center(cells[i].0, cells[i].1, ts as int)
                        &&& pos_in_bounds(backtrack@[i])
                    },
                forall|i: int|
                    0 <= i < cells.len() - 1 ==> cells_adjacent(#[trigger] cells[i + 1], cells[i]),
                cells.len() > 0 ==> cells[0] == gc,
                cells.len() > 0 ==> (cells_adjacent(cells[cells.len() - 1], cint(cur)) && (cint(
                    cur,
                ) == sc || cell_walkable(g, ghosts@, cur.0 as int, cur.1 as int))),
                cells.len() == 0 ==> cint(cur) == gc,
                cells.len() == 0 ==> parent@[gc.1 * cols + gc.0] != (-1i32, -1i32),
                sc != gc,
            decreases rank[cint(cur)] + if done { 0int } else { 1int },
        {
            proof {
                lemma_pidx_bounds(cur.0 as int, cur.1 as int, cols as int, rows as int);
                lemma_pidx_bounds(sc.0, sc.1, cols as int, rows as int);
                lemma_pidx_bounds(gc.0, gc.1, cols as int, rows as int);
            }
            let p = parent[(cur.1 as usize) * cols + (cur.0 as usize)];
            if p.0 == -1 && p.1 == -1 {
                done = true;
                proof {
                    assert(p == (-1i32, -1i32));
                }
            } else {
                proof {
                    assert(par_entry_ok(
                        g,
                        ghosts@,
                        cols as int,
                        rows as int,
                        parent@,
                        rank,
                        sc,
                        cur.0 as int,
                        cur.1 as int,
                    ));
                    lemma_center_bounds(
                        cur.0 as int,
                        cur.1 as int,
                        ts as int,
                        cols as int,
                        rows as int,
                    );
                }
                let wp = Pos2D { x: (cur.0 as i64) * ts + half, y: (cur.1 as i64) * ts + half };
                backtrack.push(wp);
                proof {
                    cells = cells.push(cint(cur));
                    lemma_pidx_bounds(p.0 as int, p.1 as int, cols as int, rows as int);
                    if cint(p) != sc {
                        assert(par_entry_ok(
                            g,
                            ghosts@,
                            cols as int,
                            rows as int,
                            parent@,
                            rank,
                            sc,
                            p.0 as int,
                            p.1 as int,
                        ));
                    }
                }
                cur = p;
            }
        }
        proof {
            // The walk can only stop at the start cell.
            assert(cint(cur) == sc);
            assert(cells.len() >= 1);
        }
        let mut path: Vec<Pos2D<i64>> = Vec::new();
        let mut t: usize = backtrack.len();
        while t > 0
            invariant
                t <= backtrack@.len(),
                path@.len() == backtrack@.len() - t,
                forall|i: int|
                    0 <= i < path@.len() ==> #[trigger] path@[i] == backtrack@[backtrack@.len() - 1
                        - i],
            decreases t,
        {
            t = t - 1;
            path.push(backtrack[t]);
        }
        proof {
            let rcells = cells.reverse();
            assert forall|i: int| 0 <= i < rcells.len() implies {
                &&& 0 <= (#[trigger] rcells[i]).0 < cols
                &&& 0 <= rcells[i].1 < rows
                &&& cell_walkable(g, ghosts@, rcells[i].0, rcells[i].1)
                &&& path@[i] == cell_center(rcells[i].0, rcells[i].1, ts as int)
                &&& pos_in_bounds(path@[i])
            } by {
                assert(rcells[i] == cells[cells.len() - 1 - i]);
                assert(path@[i] == backtrack@[backtrack@.len() - 1 - i]);
            }
            assert forall|i: int| 0 <= i < rcells.len() - 1 implies cells_adjacent(
                #[trigger] rcells[i],
                rcells[i + 1],
            ) by {
                assert(rcells[i] == cells[cells.len() - 1 - i]);
                assert(rcells[i + 1] == cells[cells.len() - 2 - i]);
                let j = cells.len() - 2 - i;
                assert(cells_adjacent(cells[j + 1], cells[j]));
                assert(cells[j + 1] == rcells[i] && cells[j] == rcells[i + 1]);
                assert(cells_adjacent(rcells[i], rcells[i + 1])) by (nonlinear_arith)
                    requires
                        cells_adjacent(cells[j + 1], cells[j]),
                        cells[j + 1] == rcells[i],
                        cells[j] == rcells[i + 1],
                ;
            }
            assert(rcells[rcells.len() - 1] == cells[0]);
            assert(rcells[0] == cells[cells.len() - 1]);
            assert(cells_adjacent(rcells[0], sc));
            assert(path_cells_ok(
                rcells,
                g,
                ghosts@,
                ts as int,
                cols as int,
                rows as int,
                sc,
                gc,
                path@,
            ));
        }
        PathFindingResult::Found(path)
    }
}

} // verus!
