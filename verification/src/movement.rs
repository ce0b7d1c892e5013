use vstd::prelude::*;
use crate::gameworld::position::{Position, manhattan, manhattan_distance};
use crate::grid_sum::{missing_in_box, score_in_box, lemma_box_measures_nonneg, lemma_box_measures_insert};
use crate::pos_map::PosMap;
use crate::tile::{Tile, TileType};

verus! {

/// The width of a grid: the length of its first row, or 0 when it has none.
pub open spec fn grid_width(grid: Seq<Vec<Tile>>) -> int {
    if grid.len() > 0 { grid[0]@.len() as int } else { 0 }
}

/// `p` is a tile of the grid (rows are indexed by y, columns by x).
pub open spec fn in_grid(grid: Seq<Vec<Tile>>, p: Position) -> bool {
    0 <= p.x < grid_width(grid) && 0 <= p.y < grid.len()
}

/// A move to one of the four orthogonal neighbours inside the grid.
pub open spec fn grid_step(grid: Seq<Vec<Tile>>, a: Position, b: Position) -> bool {
    manhattan(a, b) == 1 && in_grid(grid, b)
}

/// `path` is a sequence of orthogonal moves from `from` (which is not part of it).
pub open spec fn is_grid_walk(grid: Seq<Vec<Tile>>, from: Position, path: Seq<Position>) -> bool {
    forall|i: int|
        0 <= i < path.len() ==> grid_step(grid, if i == 0 { from } else { path[i - 1] }, #[trigger] path[i])
}

/// `path` is a non-empty grid walk from `from` that ends at `to`.
pub open spec fn grid_reaches(grid: Seq<Vec<Tile>>, from: Position, path: Seq<Position>, to: Position) -> bool {
    is_grid_walk(grid, from, path) && path.len() > 0 && path.last() == to
}

/// Some grid walk leads from `from` to `to`.
pub open spec fn grid_reachable(grid: Seq<Vec<Tile>>, from: Position, to: Position) -> bool {
    exists|path: Seq<Position>| #[trigger] grid_reaches(grid, from, path, to)
}

/// Cost of entering a tile: 1, or 10000 for lakes and mountains.
pub open spec fn entry_weight(t: TileType) -> int {
    match t {
        TileType::Lake => 10000,
        TileType::Mountain => 10000,
        _ => 1,
    }
}

/// The position of a coordinate pair.
pub open spec fn to_pos(p: (i32, i32)) -> Position {
    Position { x: p.0, y: p.1 }
}

/// The coordinate pairs of positions.
pub open spec fn to_pairs(s: Seq<Position>) -> Seq<(i32, i32)> {
    s.map_values(|p: Position| (p.x, p.y))
}

/// The four directions, in the order the search visits them.
pub open spec fn grid_direction(k: int) -> (int, int) {
    if k == 0 {
        (1, 0)
    } else if k == 1 {
        (-1, 0)
    } else if k == 2 {
        (0, 1)
    } else {
        (0, -1)
    }
}

/// The cost of entering the tile at `p`.
pub open spec fn tile_weight(grid: Seq<Vec<Tile>>, p: Position) -> int {
    entry_weight(grid[p.y as int]@[p.x as int].kind())
}

/// The total cost of the tiles a walk enters.
pub open spec fn walk_cost(grid: Seq<Vec<Tile>>, path: Seq<Position>) -> int
    decreases path.len(),
{
    if path.len() == 0 {
        0
    } else {
        tile_weight(grid, path[0]) + walk_cost(grid, path.drop_first())
    }
}

/// The neighbour of `p` in direction `d`.
spec fn grid_neighbor(p: Position, d: int) -> Position {
    Position { x: (p.x + grid_direction(d).0) as i32, y: (p.y + grid_direction(d).1) as i32 }
}

/// The position a walk from `from` has reached after `j` moves.
spec fn walk_point(from: Position, path: Seq<Position>, j: int) -> Position {
    if j == 0 {
        from
    } else {
        path[j - 1]
    }
}

/// An entry of the open list of the grid search.
#[derive(Clone, Copy, Debug)]
struct GridNode {
    position: Position,
    g_score: u128,
    h_score: u128,
}

spec fn grid_open_has(open: Seq<GridNode>, p: Position) -> bool {
    exists|i: int| 0 <= i < open.len() && open[i].position == p
}

/// Some open entry holds `p` with score `gp`.
spec fn grid_open_exact(open: Seq<GridNode>, p: Position, gp: u128) -> bool {
    exists|i: int| 0 <= i < open.len() && open[i].position == p && open[i].g_score == gp
}

/// Every neighbour of `p` is known, at a score no worse than through `p`.
spec fn grid_expanded(grid: Seq<Vec<Tile>>, g: Map<Position, u128>, p: Position) -> bool {
    forall|q: Position| #[trigger]
        grid_step(grid, p, q) ==> g.contains_key(q) && g[q] <= g[p] + tile_weight(grid, q)
}

/// Each known position but `ex` is open at its current score or expanded.
spec fn grid_frontier_inv(
    grid: Seq<Vec<Tile>>,
    g: Map<Position, u128>,
    open: Seq<GridNode>,
    ex: Option<Position>,
) -> bool {
    forall|p: Position| #[trigger]
        g.contains_key(p) ==> (ex == Some(p) || grid_open_exact(open, p, g[p]) || grid_expanded(grid, g, p))
}

spec fn grid_chain_inv(
    grid: Seq<Vec<Tile>>,
    start: Position,
    g: Map<Position, u128>,
    cf: Map<Position, Position>,
) -> bool {
    &&& g.contains_key(start)
    &&& g[start] == 0
    &&& !cf.contains_key(start)
    &&& forall|p: Position| #[trigger] g.contains_key(p) <==> (p == start || cf.contains_key(p))
    &&& forall|p: Position| #[trigger]
        cf.contains_key(p) ==> g.contains_key(cf[p]) && grid_step(grid, cf[p], p) && g[cf[p]] + tile_weight(
            grid,
            p,
        ) <= g[p]
}

spec fn grid_maps_inv(
    grid: Seq<Vec<Tile>>,
    start: Position,
    g: Map<Position, u128>,
    cf: Map<Position, Position>,
    gsize: nat,
) -> bool {
    &&& grid_chain_inv(grid, start, g, cf)
    &&& forall|p: Position| #[trigger] g.contains_key(p) ==> g[p] <= 10000 * gsize
    &&& forall|p: Position| #[trigger] g.contains_key(p) ==> p == start || in_grid(grid, p)
}

spec fn grid_open_inv(g: Map<Position, u128>, open: Seq<GridNode>, goal: Position) -> bool {
    &&& forall|i: int|
        0 <= i < open.len() ==> g.contains_key((#[trigger] open[i]).position) && open[i].g_score >= g[open[i].position]
            && open[i].h_score == manhattan(open[i].position, goal)
    &&& g.contains_key(goal) ==> grid_open_has(open, goal)
}

proof fn lemma_grid_open_remove(open: Seq<GridNode>, idx: int, p: Position)
    requires
        0 <= idx < open.len(),
        grid_open_has(open, p),
        open[idx].position != p,
    ensures
        grid_open_has(open.remove(idx), p),
{
    let i = choose|i: int| 0 <= i < open.len() && open[i].position == p;
    if i < idx {
        assert(open.remove(idx)[i].position == p);
    } else {
        assert(open.remove(idx)[i - 1].position == p);
    }
}

proof fn lemma_grid_open_push(open: Seq<GridNode>, n: GridNode, p: Position)
    requires
        grid_open_has(open, p) || n.position == p,
    ensures
        grid_open_has(open.push(n), p),
{
    if n.position == p {
        assert(open.push(n)[open.len() as int].position == p);
    } else {
        let i = choose|i: int| 0 <= i < open.len() && open[i].position == p;
        assert(open.push(n)[i].position == p);
    }
}

proof fn lemma_open_exact_remove(open: Seq<GridNode>, idx: int, p: Position, gp: u128)
    requires
        0 <= idx < open.len(),
        grid_open_exact(open, p, gp),
        open[idx].position != p,
    ensures
        grid_open_exact(open.remove(idx), p, gp),
{
    let i = choose|i: int| 0 <= i < open.len() && open[i].position == p && open[i].g_score == gp;
    if i < idx {
        assert(open.remove(idx)[i] == open[i]);
    } else {
        assert(open.remove(idx)[i - 1] == open[i]);
    }
}

proof fn lemma_open_exact_push(open: Seq<GridNode>, n: GridNode, p: Position, gp: u128)
    requires
        grid_open_exact(open, p, gp) || (n.position == p && n.g_score == gp),
    ensures
        grid_open_exact(open.push(n), p, gp),
{
    if n.position == p && n.g_score == gp {
        assert(open.push(n)[open.len() as int] == n);
    } else {
        let i = choose|i: int| 0 <= i < open.len() && open[i].position == p && open[i].g_score == gp;
        assert(open.push(n)[i] == open[i]);
    }
}

/// The cost of two walks one after the other is the sum of their costs.
proof fn lemma_walk_cost_append(grid: Seq<Vec<Tile>>, a: Seq<Position>, b: Seq<Position>)
    ensures
        walk_cost(grid, a + b) == walk_cost(grid, a) + walk_cost(grid, b),
    decreases a.len(),
{
    if a.len() == 0 {
        assert(a + b =~= b);
    } else {
        lemma_walk_cost_append(grid, a.drop_first(), b);
        assert((a + b).drop_first() =~= a.drop_first() + b);
    }
}

/// What is left of a walk after `j` moves is a walk from the point reached.
proof fn lemma_walk_skip(grid: Seq<Vec<Tile>>, from: Position, path: Seq<Position>, j: int)
    requires
        is_grid_walk(grid, from, path),
        0 <= j <= path.len(),
    ensures
        is_grid_walk(grid, walk_point(from, path, j), path.skip(j)),
{
    let s = path.skip(j);
    assert forall|i: int| 0 <= i < s.len() implies grid_step(
        grid,
        if i == 0 { walk_point(from, path, j) } else { s[i - 1] },
        #[trigger] s[i],
    ) by {
        assert(s[i] == path[i + j]);
        if i > 0 {
            assert(s[i - 1] == path[i + j - 1]);
        }
    }
}

/// A walk to `goal` costs at least the Manhattan distance it covers.
proof fn lemma_walk_cost_covers_distance(
    grid: Seq<Vec<Tile>>,
    from: Position,
    path: Seq<Position>,
    goal: Position,
)
    requires
        is_grid_walk(grid, from, path),
        path.len() == 0 ==> from == goal,
        path.len() > 0 ==> path.last() == goal,
    ensures
        manhattan(from, goal) <= walk_cost(grid, path),
    decreases path.len(),
{
    if path.len() > 0 {
        lemma_walk_skip(grid, from, path, 1);
        assert(path.skip(1) =~= path.drop_first());
        assert(grid_step(grid, from, path[0]));
        if path.len() > 1 {
            assert(path.drop_first().last() == path.last());
        }
        lemma_walk_cost_covers_distance(grid, path[0], path.drop_first(), goal);
    }
}

/// One more move along a walk: its cost grows by the weight of the tile entered.
proof fn lemma_walk_cost_take_next(grid: Seq<Vec<Tile>>, w: Seq<Position>, j: int)
    requires
        0 <= j < w.len(),
    ensures
        walk_cost(grid, w.take(j + 1)) == walk_cost(grid, w.take(j)) + tile_weight(grid, w[j]),
{
    let u = w[j];
    assert(w.take(j + 1) =~= w.take(j) + seq![u]);
    lemma_walk_cost_append(grid, w.take(j), seq![u]);
    assert(seq![u].drop_first() =~= Seq::<Position>::empty());
    assert(walk_cost(grid, Seq::<Position>::empty()) == 0);
    assert(walk_cost(grid, seq![u]) == tile_weight(grid, u));
}

/// A walk costs what its first `j` moves cost plus what the rest costs.
proof fn lemma_walk_cost_split(grid: Seq<Vec<Tile>>, w: Seq<Position>, j: int)
    requires
        0 <= j <= w.len(),
    ensures
        walk_cost(grid, w) == walk_cost(grid, w.take(j)) + walk_cost(grid, w.skip(j)),
{
    assert(w =~= w.take(j) + w.skip(j));
    lemma_walk_cost_append(grid, w.take(j), w.skip(j));
}

/// Along any walk from `start` to `goal`, the first position that is not
/// expanded (or the goal itself) is known at no more than the walk's cost
/// up to it; so the walk costs at least the goal's score or the key of some
/// open entry.
proof fn lemma_walk_bound_from(
    grid: Seq<Vec<Tile>>,
    g: Map<Position, u128>,
    open: Seq<GridNode>,
    start: Position,
    goal: Position,
    w: Seq<Position>,
    j: int,
)
    requires
        grid_frontier_inv(grid, g, open, None),
        forall|i: int| 0 <= i < open.len() ==> (#[trigger] open[i]).h_score == manhattan(open[i].position, goal),
        grid_reaches(grid, start, w, goal),
        0 <= j <= w.len(),
        g.contains_key(walk_point(start, w, j)),
        g[walk_point(start, w, j)] <= walk_cost(grid, w.take(j)),
    ensures
        (g.contains_key(goal) && g[goal] <= walk_cost(grid, w)) || (exists|i: int|
            0 <= i < open.len() && (#[trigger] open[i]).g_score + open[i].h_score <= walk_cost(grid, w)),
    decreases w.len() - j,
{
    let v = walk_point(start, w, j);
    if j == w.len() {
        assert(w.take(j) =~= w);
    } else if grid_expanded(grid, g, v) {
        let u = w[j];
        assert(grid_step(grid, if j == 0 { start } else { w[j - 1] }, w[j]));
        assert(grid_step(grid, v, u));
        lemma_walk_cost_take_next(grid, w, j);
        assert(walk_point(start, w, j + 1) == u);
        lemma_walk_bound_from(grid, g, open, start, goal, w, j + 1);
    } else {
        assert(grid_open_exact(open, v, g[v]));
        let i = choose|i: int| 0 <= i < open.len() && open[i].position == v && open[i].g_score == g[v];
        lemma_walk_skip(grid, start, w, j);
        assert(w.skip(j).last() == w.last());
        lemma_walk_cost_covers_distance(grid, v, w.skip(j), goal);
        lemma_walk_cost_split(grid, w, j);
        assert(open[i].g_score + open[i].h_score <= walk_cost(grid, w));
    }
}

proof fn lemma_grid_walk_costed(
    grid: Seq<Vec<Tile>>,
    g: Map<Position, u128>,
    from: Position,
    path: Seq<Position>,
    n: int,
)
    requires
        g.contains_key(from),
        is_grid_walk(grid, from, path),
        0 <= n <= path.len(),
        forall|p: Position| #[trigger]
            g.contains_key(p) ==> (forall|q: Position| #[trigger] grid_step(grid, p, q) ==> g.contains_key(q)),
    ensures
        forall|i: int| 0 <= i < n ==> g.contains_key(#[trigger] path[i]),
    decreases n,
{
    if n > 0 {
        lemma_grid_walk_costed(grid, g, from, path, n - 1);
        let prev = if n - 1 == 0 { from } else { path[n - 2] };
        assert(grid_step(grid, prev, path[n - 1]));
        assert(g.contains_key(prev));
    }
}

pub proof fn lemma_grid_walk_prepend(grid: Seq<Vec<Tile>>, prev: Position, cur: Position, path: Seq<Position>)
    requires
        grid_step(grid, prev, cur),
        is_grid_walk(grid, cur, path),
    ensures
        is_grid_walk(grid, prev, seq![cur] + path),
{
    let np = seq![cur] + path;
    assert forall|i: int| 0 <= i < np.len() implies grid_step(
        grid,
        if i == 0 { prev } else { np[i - 1] },
        #[trigger] np[i],
    ) by {
        if i > 0 {
            assert(np[i] == path[i - 1]);
            if i > 1 {
                assert(np[i - 1] == path[i - 2]);
            }
        }
    }
}

/// Every orthogonal neighbour is the neighbour in one of the four directions.
proof fn lemma_step_direction(p: Position, q: Position)
    requires
        manhattan(p, q) == 1,
    ensures
        exists|k: int| 0 <= k < 4 && q == #[trigger] grid_neighbor(p, k),
{
    let k = if q.x == p.x + 1 {
        0
    } else if q.x == p.x - 1 {
        1
    } else if q.y == p.y + 1 {
        2
    } else {
        3
    };
    assert(q == grid_neighbor(p, k));
}

/// Lowering the score of `n` (and opening it at the new score) keeps every
/// other position open or expanded.
proof fn lemma_frontier_relax(
    grid: Seq<Vec<Tile>>,
    g: Map<Position, u128>,
    open: Seq<GridNode>,
    cur: Position,
    node: GridNode,
)
    requires
        grid_frontier_inv(grid, g, open, Some(cur)),
        node.position != cur,
        !g.contains_key(node.position) || node.g_score < g[node.position],
    ensures
        grid_frontier_inv(grid, g.insert(node.position, node.g_score), open.push(node), Some(cur)),
{
    let n = node.position;
    let g2 = g.insert(n, node.g_score);
    assert forall|p: Position| #[trigger] g2.contains_key(p) implies (Some(cur) == Some(p) || grid_open_exact(
        open.push(node),
        p,
        g2[p],
    ) || grid_expanded(grid, g2, p)) by {
        if p == n {
            lemma_open_exact_push(open, node, p, node.g_score);
        } else if grid_open_exact(open, p, g[p]) {
            lemma_open_exact_push(open, node, p, g[p]);
        } else if p != cur {
            assert(grid_expanded(grid, g, p));
            assert forall|q: Position| #[trigger] grid_step(grid, p, q) implies g2.contains_key(q) && g2[q] <= g2[p]
                + tile_weight(grid, q) by {
                assert(g.contains_key(q));
            }
        }
    }
}

/// Lowering the score of `n` and opening it keeps the open list consistent.
proof fn lemma_open_relax(g: Map<Position, u128>, open: Seq<GridNode>, node: GridNode, goal: Position)
    requires
        grid_open_inv(g, open, goal),
        !g.contains_key(node.position) || node.g_score < g[node.position],
        node.h_score == manhattan(node.position, goal),
        node.g_score <= 10000 * 0x1_0000_0000_0000_0000,
        node.h_score <= 0x4_0000_0000,
        forall|i: int|
            0 <= i < open.len() ==> (#[trigger] open[i]).g_score <= 10000 * 0x1_0000_0000_0000_0000
                && open[i].h_score <= 0x4_0000_0000,
    ensures
        grid_open_inv(g.insert(node.position, node.g_score), open.push(node), goal),
        forall|i: int|
            0 <= i < open.push(node).len() ==> (#[trigger] open.push(node)[i]).g_score <= 10000
                * 0x1_0000_0000_0000_0000 && open.push(node)[i].h_score <= 0x4_0000_0000,
{
    let g2 = g.insert(node.position, node.g_score);
    let o2 = open.push(node);
    if g2.contains_key(goal) {
        lemma_grid_open_push(open, node, goal);
    }
    assert forall|i: int| 0 <= i < o2.len() implies g2.contains_key((#[trigger] o2[i]).position) && o2[i].g_score
        >= g2[o2[i].position] && o2[i].h_score == manhattan(o2[i].position, goal) && o2[i].g_score <= 10000
        * 0x1_0000_0000_0000_0000 && o2[i].h_score <= 0x4_0000_0000 by {
        if i < open.len() {
            assert(o2[i] == open[i]);
        }
    }
}

/// Reaching `n` through `cur` at a lower score keeps the predecessor chains.
proof fn lemma_maps_relax(
    grid: Seq<Vec<Tile>>,
    start: Position,
    g: Map<Position, u128>,
    cf: Map<Position, Position>,
    gsize: nat,
    new_size: nat,
    cur: Position,
    n: Position,
    t: u128,
)
    requires
        grid_maps_inv(grid, start, g, cf, gsize),
        g.contains_key(cur),
        grid_step(grid, cur, n),
        t == g[cur] + tile_weight(grid, n),
        tile_weight(grid, n) <= 10000,
        !g.contains_key(n) || t < g[n],
        new_size == (if g.contains_key(n) { gsize } else { gsize + 1 }),
    ensures
        grid_maps_inv(grid, start, g.insert(n, t), cf.insert(n, cur), new_size),
{
    assert(n != start);
    let g2 = g.insert(n, t);
    let cf2 = cf.insert(n, cur);
    assert forall|p: Position| #[trigger] g2.contains_key(p) implies g2[p] <= 10000 * new_size by {
        if p != n {
            assert(g[p] <= 10000 * gsize);
        }
    }
    assert forall|p: Position| #[trigger] cf2.contains_key(p) implies g2.contains_key(cf2[p]) && grid_step(
        grid,
        cf2[p],
        p,
    ) && g2[cf2[p]] + tile_weight(grid, p) <= g2[p] by {
        if p != n {
            assert(cf.contains_key(p));
        }
    }
    assert forall|p: Position| #[trigger] g2.contains_key(p) <==> (p == start || cf2.contains_key(p)) by {
        assert(g.contains_key(p) <==> (p == start || cf.contains_key(p)));
    }
}

/// Index of the first open entry with the smallest `g + h`.
fn grid_min_index(open: &Vec<GridNode>) -> (idx: usize)
    requires
        open@.len() > 0,
        forall|i: int| 0 <= i < open@.len() ==> (#[trigger] open@[i]).g_score + open@[i].h_score <= u128::MAX,
    ensures
        idx < open@.len(),
        forall|j: int|
            0 <= j < open@.len() ==> open@[idx as int].g_score + open@[idx as int].h_score <= (#[trigger] open@[j]).g_score
                + open@[j].h_score,
        forall|j: int|
            0 <= j < idx ==> open@[idx as int].g_score + open@[idx as int].h_score < (#[trigger] open@[j]).g_score
                + open@[j].h_score,
{
    let mut best: usize = 0;
    let mut i: usize = 1;
    while i < open.len()
        invariant
            1 <= i <= open@.len(),
            best < i,
            forall|j: int| 0 <= j < open@.len() ==> (#[trigger] open@[j]).g_score + open@[j].h_score <= u128::MAX,
            forall|j: int|
                0 <= j < i ==> open@[best as int].g_score + open@[best as int].h_score <= (#[trigger] open@[j]).g_score
                    + open@[j].h_score,
            forall|j: int|
                0 <= j < best ==> open@[best as int].g_score + open@[best as int].h_score < (#[trigger] open@[j]).g_score
                    + open@[j].h_score,
        decreases open@.len() - i,
    {
        if open[i].g_score + open[i].h_score < open[best].g_score + open[best].h_score {
            best = i;
        }
        i = i + 1;
    }
    best
}

/// The Manhattan distance between two coordinate pairs.
fn heuristic_cost_estimate(start: (i32, i32), end: (i32, i32)) -> (d: u128)
    ensures
        d == manhattan(to_pos(start), to_pos(end)),
{
    let d = manhattan_distance(Position { x: start.0, y: start.1 }, Position { x: end.0, y: end.1 });
    d as u128
}

/// The positions of coordinate pairs, in reverse order: the walk a returned
/// path stands for.
pub open spec fn path_of(r: Seq<(i32, i32)>) -> Seq<Position> {
    r.map_values(|p: (i32, i32)| to_pos(p)).reverse()
}

/// Follows the predecessor map back from `current`; the result lists the walk
/// from `start` to `current` backwards, without `start`.
fn reconstruct_path(
    came_from: &PosMap<Position>,
    current: Position,
    Ghost(grid): Ghost<Seq<Vec<Tile>>>,
    Ghost(start): Ghost<Position>,
    Ghost(g): Ghost<Map<Position, u128>>,
) -> (r: Vec<(i32, i32)>)
    requires
        came_from.wf(),
        grid_chain_inv(grid, start, g, came_from@),
        g.contains_key(current),
    ensures
        current == start ==> r@.len() == 0,
        current != start ==> grid_reaches(grid, start, path_of(r@), current),
        walk_cost(grid, path_of(r@)) <= g[current],
{
    let mut path: Vec<(i32, i32)> = Vec::new();
    let ghost mut fwd: Seq<Position> = Seq::empty();
    let mut cur = current;
    let mut next = came_from.get(cur);
    proof {
        assert(path_of(path@) =~= fwd);
    }
    while next.is_some()
        invariant
            came_from.wf(),
            grid_chain_inv(grid, start, g, came_from@),
            g.contains_key(cur),
            g.contains_key(current),
            next == (if came_from@.contains_key(cur) { Some(came_from@[cur]) } else { None }),
            fwd.len() == 0 ==> cur == current,
            fwd.len() > 0 ==> came_from@.contains_key(current) && fwd.last() == current,
            is_grid_walk(grid, cur, fwd),
            path_of(path@) == fwd,
            walk_cost(grid, fwd) + g[cur] <= g[current],
        decreases g[cur],
    {
        let prev = next.unwrap();
        proof {
            lemma_grid_walk_prepend(grid, prev, cur, fwd);
        }
        let ghost old_path = path@;
        path.push((cur.x, cur.y));
        proof {
            let nf = seq![cur] + fwd;
            assert(to_pos((cur.x, cur.y)) == cur);
            assert(path_of(path@) =~= nf);
            assert(nf.drop_first() =~= fwd);
            assert(walk_cost(grid, nf) == tile_weight(grid, cur) + walk_cost(grid, fwd));
            fwd = nf;
        }
        cur = prev;
        next = came_from.get(cur);
    }
    path
}

/// A* search on the grid from `start_pos` to `end_pos` with orthogonal moves;
/// entering a lake or mountain costs 10000, any other tile 1, and the
/// Manhattan distance guides the search. The result lists the cheapest walk
/// backwards, from `end_pos` to the first move (without `start_pos`); `None`
/// when `end_pos` cannot be reached.
pub fn find_path(grid: Vec<Vec<Tile>>, start_pos: (i32, i32), end_pos: (i32, i32)) -> (r: Option<
    Vec<(i32, i32)>,
>)
    requires
        grid@.len() <= i32::MAX,
        grid_width(grid@) <= i32::MAX,
        forall|y: int| 0 <= y < grid@.len() ==> (#[trigger] grid@[y])@.len() >= grid_width(grid@),
        grid@.len() > 0 || start_pos == end_pos || start_pos.0 < -1,
        i32::MIN < start_pos.0 < i32::MAX,
        i32::MIN < start_pos.1 < i32::MAX,
    ensures
        start_pos == end_pos ==> r is Some && r->0@.len() == 0,
        start_pos != end_pos ==> (r is Some <==> grid_reachable(grid@, to_pos(start_pos), to_pos(end_pos))),
        start_pos != end_pos ==> (r matches Some(p) ==> grid_reaches(grid@, to_pos(start_pos), path_of(p@), to_pos(end_pos))),
        r matches Some(p) ==> forall|w: Seq<Position>|
            #[trigger] grid_reaches(grid@, to_pos(start_pos), w, to_pos(end_pos)) ==> walk_cost(grid@, path_of(p@))
                <= walk_cost(grid@, w),
{
    let start = Position { x: start_pos.0, y: start_pos.1 };
    let goal = Position { x: end_pos.0, y: end_pos.1 };
    let width: usize = if grid.len() > 0 { grid[0].len() } else { 0 };
    let height: usize = grid.len();
    let mut open_set: Vec<GridNode> = Vec::new();
    open_set.push(GridNode { position: start, g_score: 0, h_score: heuristic_cost_estimate(start_pos, end_pos) });
    let mut g_score: PosMap<u128> = PosMap::new();
    g_score.insert(start, 0);
    let mut came_from: PosMap<Position> = PosMap::new();
    proof {
        assert(open_set@[0].position == start);
        assert(grid_open_has(open_set@, start));
        assert(grid_open_exact(open_set@, start, 0));
    }
    let ghost x1 = grid_width(grid@) - 1;
    let ghost y1 = grid@.len() - 1;
    loop
        invariant
            start == to_pos(start_pos),
            goal == to_pos(end_pos),
            width == grid_width(grid@),
            height == grid@.len(),
            x1 == grid_width(grid@) - 1,
            y1 == grid@.len() - 1,
            grid@.len() <= i32::MAX,
            grid_width(grid@) <= i32::MAX,
            forall|y: int| 0 <= y < grid@.len() ==> (#[trigger] grid@[y])@.len() >= grid_width(grid@),
            i32::MIN < start.x < i32::MAX,
            i32::MIN < start.y < i32::MAX,
            g_score.wf(),
            came_from.wf(),
            grid_maps_inv(grid@, start, g_score@, came_from@, g_score.size()),
            grid_open_inv(g_score@, open_set@, goal),
            grid_frontier_inv(grid@, g_score@, open_set@, None),
            forall|i: int|
                0 <= i < open_set@.len() ==> (#[trigger] open_set@[i]).g_score <= 10000 * 0x1_0000_0000_0000_0000
                    && open_set@[i].h_score <= 0x4_0000_0000,
        decreases missing_in_box(g_score@, 0, x1, 0, y1), score_in_box(g_score@, 0, x1, 0, y1), open_set@.len(),
    {
        if open_set.len() == 0 {
            proof {
                if start != goal && grid_reachable(grid@, start, goal) {
                    let path = choose|path: Seq<Position>| #[trigger] grid_reaches(grid@, start, path, goal);
                    assert forall|p: Position| #[trigger] g_score@.contains_key(p) implies (forall|q: Position| #[trigger]
                        grid_step(grid@, p, q) ==> g_score@.contains_key(q)) by {
                        assert(!grid_open_exact(open_set@, p, g_score@[p]));
                        assert(grid_expanded(grid@, g_score@, p));
                    }
                    lemma_grid_walk_costed(grid@, g_score@, start, path, path.len() as int);
                    assert(g_score@.contains_key(path.last()));
                    assert(!grid_open_has(open_set@, goal));
                }
            }
            return None;
        }
        let idx = grid_min_index(&open_set);
        let ghost open_before = open_set@;
        let current_node = open_set.remove(idx);
        let cur = current_node.position;
        proof {
            assert(g_score@.contains_key(open_before[idx as int].position));
        }
        if cur == goal {
            let path = reconstruct_path(&came_from, goal, Ghost(grid@), Ghost(start), Ghost(g_score@));
            proof {
                assert forall|w: Seq<Position>| #[trigger] grid_reaches(grid@, start, w, goal) implies g_score@[goal]
                    <= walk_cost(grid@, w) by {
                    assert(w.take(0) =~= Seq::<Position>::empty());
                    assert(walk_point(start, w, 0) == start);
                    lemma_walk_bound_from(grid@, g_score@, open_before, start, goal, w, 0);
                    if !(g_score@.contains_key(goal) && g_score@[goal] <= walk_cost(grid@, w)) {
                        let i = choose|i: int|
                            0 <= i < open_before.len() && (#[trigger] open_before[i]).g_score + open_before[i].h_score
                                <= walk_cost(grid@, w);
                        assert(open_before[idx as int].g_score + open_before[idx as int].h_score <= open_before[i].g_score
                            + open_before[i].h_score);
                        assert(open_before[idx as int].h_score == 0);
                    }
                }
            }
            return Some(path);
        }
        proof {
            assert forall|p: Position| #[trigger] g_score@.contains_key(p) implies (Some(cur) == Some(p)
                || grid_open_exact(open_set@, p, g_score@[p]) || grid_expanded(grid@, g_score@, p)) by {
                if p != cur && grid_open_exact(open_before, p, g_score@[p]) {
                    lemma_open_exact_remove(open_before, idx as int, p, g_score@[p]);
                }
            }
            if g_score@.contains_key(goal) {
                lemma_grid_open_remove(open_before, idx as int, goal);
            }
            assert forall|i: int| 0 <= i < open_set@.len() implies g_score@.contains_key(
                (#[trigger] open_set@[i]).position,
            ) && open_set@[i].g_score >= g_score@[open_set@[i].position] && open_set@[i].h_score == manhattan(
                open_set@[i].position,
                goal,
            ) && open_set@[i].g_score <= 10000 * 0x1_0000_0000_0000_0000 && open_set@[i].h_score <= 0x4_0000_0000 by {
                if i < idx {
                    assert(open_set@[i] == open_before[i]);
                } else {
                    assert(open_set@[i] == open_before[i + 1]);
                }
            }
        }
        let gc = g_score.get(cur).unwrap();
        let ghost g0 = g_score@;
        let ghost open_popped = open_set@;
        let ghost mut changed = false;
        proof {
            lemma_box_measures_nonneg(g0, 0, x1, 0, y1);
        }
        let mut k: usize = 0;
        while k < 4
            invariant
                start == to_pos(start_pos),
                goal == to_pos(end_pos),
                width == grid_width(grid@),
                height == grid@.len(),
                x1 == grid_width(grid@) - 1,
                y1 == grid@.len() - 1,
                grid@.len() <= i32::MAX,
                grid_width(grid@) <= i32::MAX,
                forall|y: int| 0 <= y < grid@.len() ==> (#[trigger] grid@[y])@.len() >= grid_width(grid@),
                i32::MIN < start.x < i32::MAX,
                i32::MIN < start.y < i32::MAX,
                g_score.wf(),
                came_from.wf(),
                grid_maps_inv(grid@, start, g_score@, came_from@, g_score.size()),
                grid_open_inv(g_score@, open_set@, goal),
                grid_frontier_inv(grid@, g_score@, open_set@, Some(cur)),
                forall|i: int|
                    0 <= i < open_set@.len() ==> (#[trigger] open_set@[i]).g_score <= 10000 * 0x1_0000_0000_0000_0000
                        && open_set@[i].h_score <= 0x4_0000_0000,
                cur != goal,
                cur == start || in_grid(grid@, cur),
                g_score@.contains_key(cur),
                g_score@[cur] == gc,
                0 <= k <= 4,
                forall|d: int|
                    0 <= d < k && #[trigger] in_grid(grid@, grid_neighbor(cur, d)) ==> g_score@.contains_key(
                        grid_neighbor(cur, d),
                    ) && g_score@[grid_neighbor(cur, d)] <= gc + tile_weight(grid@, grid_neighbor(cur, d)),
                forall|p: Position| #[trigger] g0.contains_key(p) ==> g_score@.contains_key(p),
                missing_in_box(g_score@, 0, x1, 0, y1) <= missing_in_box(g0, 0, x1, 0, y1),
                missing_in_box(g0, 0, x1, 0, y1) >= 0,
                score_in_box(g0, 0, x1, 0, y1) >= 0,
                !changed ==> g_score@ == g0 && open_set@ == open_popped,
                changed ==> (missing_in_box(g_score@, 0, x1, 0, y1) < missing_in_box(g0, 0, x1, 0, y1) || (
                missing_in_box(g_score@, 0, x1, 0, y1) == missing_in_box(g0, 0, x1, 0, y1) && score_in_box(g_score@, 0, x1, 0, y1)
                    < score_in_box(g0, 0, x1, 0, y1))),
            decreases 4 - k,
        {
            let (dx, dy): (i32, i32) = if k == 0 {
                (1, 0)
            } else if k == 1 {
                (-1, 0)
            } else if k == 2 {
                (0, 1)
            } else {
                (0, -1)
            };
            let new_x = cur.x + dx;
            let new_y = cur.y + dy;
            let neighbor = Position { x: new_x, y: new_y };
            assert(neighbor == grid_neighbor(cur, k as int));
            if !(new_x < 0 || new_x >= width as i32 || new_y < 0 || new_y >= height as i32) {
                let new_tile = &grid[new_y as usize][new_x as usize];
                let new_weight: u128 = match new_tile.get_tile_type() {
                    TileType::Forest | TileType::Village | TileType::Dungeon => 1,
                    TileType::Lake | TileType::Mountain => 10000,
                };
                assert(new_weight == tile_weight(grid@, neighbor));
                // the number of known positions (a `usize`) bounds every score
                let _known: usize = g_score.len();
                let tentative_g_score: u128 = gc + new_weight;
                let better = match g_score.get(neighbor) {
                    Some(old_score) => tentative_g_score < old_score,
                    None => true,
                };
                if better {
                    let ghost g_prev = g_score@;
                    let ghost open_prev = open_set@;
                    proof {
                        lemma_box_measures_insert(g_prev, neighbor, tentative_g_score, 0, x1, 0, y1);
                        lemma_box_measures_nonneg(g_prev.insert(neighbor, tentative_g_score), 0, x1, 0, y1);
                        assert(grid_step(grid@, cur, neighbor));
                        lemma_maps_relax(
                            grid@,
                            start,
                            g_prev,
                            came_from@,
                            g_score.size(),
                            if g_prev.contains_key(neighbor) { g_score.size() } else { g_score.size() + 1 },
                            cur,
                            neighbor,
                            tentative_g_score,
                        );
                    }
                    came_from.insert(neighbor, cur);
                    g_score.insert(neighbor, tentative_g_score);
                    let node = GridNode {
                        position: neighbor,
                        g_score: tentative_g_score,
                        h_score: heuristic_cost_estimate((new_x, new_y), end_pos),
                    };
                    open_set.push(node);
                    proof {
                        changed = true;
                        lemma_frontier_relax(grid@, g_prev, open_prev, cur, node);
                        lemma_open_relax(g_prev, open_prev, node, goal);
                        assert forall|d: int|
                            0 <= d <= k && #[trigger] in_grid(grid@, grid_neighbor(cur, d)) implies g_score@.contains_key(
                            grid_neighbor(cur, d),
                        ) && g_score@[grid_neighbor(cur, d)] <= gc + tile_weight(grid@, grid_neighbor(cur, d)) by {
                            if d < k {
                                assert(g_prev.contains_key(grid_neighbor(cur, d)));
                            }
                        }
                    }
                }
            }
            k = k + 1;
        }
        proof {
            lemma_box_measures_nonneg(g_score@, 0, x1, 0, y1);
            assert forall|q: Position| #[trigger] grid_step(grid@, cur, q) implies g_score@.contains_key(q)
                && g_score@[q] <= g_score@[cur] + tile_weight(grid@, q) by {
                lemma_step_direction(cur, q);
                let d = choose|d: int| 0 <= d < 4 && q == #[trigger] grid_neighbor(cur, d);
                assert(in_grid(grid@, grid_neighbor(cur, d)));
            }
            assert(grid_expanded(grid@, g_score@, cur));
        }
    }
}

} // verus!
