use vstd::prelude::*;
use crate::gameworld::position::{Position, abs_diff, manhattan, manhattan_distance};
use crate::gameworld::tile::Tile;
use crate::gameworld::tile_types::{TileType, travel_weight};
use crate::gameworld::world::{GameWorld, first_index, is_first_index, seq_tile_at};
use crate::grid_sum::{missing_in_box, score_in_box, lemma_box_measures_nonneg, lemma_box_measures_insert};
use crate::pos_map::PosMap;

verus! {

/// `b` is one of the eight positions around `a`.
pub open spec fn is_adjacent(a: Position, b: Position) -> bool {
    abs_diff(a.x as int, b.x as int) <= 1 && abs_diff(a.y as int, b.y as int) <= 1 && a != b
}

/// An agent may enter `p`: it lies in the bounding box, the world has a tile
/// there, and that tile is not a lake.
#[verifier::opaque]
pub open spec fn passable(world: &GameWorld, p: Position) -> bool {
    &&& world.in_bounds(p)
    &&& match world.tile_type_at(p) {
        Some(t) => travel_weight(t) != 0,
        None => false,
    }
}

/// A single move from `a` to `b`.
pub open spec fn step(world: &GameWorld, a: Position, b: Position) -> bool {
    is_adjacent(a, b) && passable(world, b)
}

/// `path` is a sequence of moves starting from `from` (which is not part of it).
pub open spec fn is_walk(world: &GameWorld, from: Position, path: Seq<Position>) -> bool {
    forall|i: int|
        0 <= i < path.len() ==> step(world, if i == 0 { from } else { path[i - 1] }, #[trigger] path[i])
}

/// `path` is a non-empty walk from `from` that ends at `to`.
pub open spec fn reaches(world: &GameWorld, from: Position, path: Seq<Position>, to: Position) -> bool {
    is_walk(world, from, path) && path.len() > 0 && path.last() == to
}

/// Some walk leads from `from` to `to`.
pub open spec fn reachable(world: &GameWorld, from: Position, to: Position) -> bool {
    exists|path: Seq<Position>| #[trigger] reaches(world, from, path, to)
}

/// Neither coordinate of `p` is at the edge of the `i32` range, so its
/// neighbours can be computed.
pub open spec fn safe_position(p: Position) -> bool {
    i32::MIN < p.x < i32::MAX && i32::MIN < p.y < i32::MAX
}

/// No position in the bounding box is at the edge of the `i32` range.
pub open spec fn safe_bounds(world: &GameWorld) -> bool {
    &&& world.width_mind > i32::MIN
    &&& world.width_max < i32::MAX
    &&& world.height_min > i32::MIN
    &&& world.height_max < i32::MAX
}

/// The eight directions, in the order the search visits them.
pub open spec fn direction(k: int) -> (int, int) {
    if k == 0 {
        (0, 1)
    } else if k == 1 {
        (1, 0)
    } else if k == 2 {
        (0, -1)
    } else if k == 3 {
        (-1, 0)
    } else if k == 4 {
        (1, 1)
    } else if k == 5 {
        (1, -1)
    } else if k == 6 {
        (-1, -1)
    } else {
        (-1, 1)
    }
}

/// The neighbour of `p` in direction `k`.
pub open spec fn candidate(p: Position, k: int) -> Position {
    Position { x: (p.x + direction(k).0) as i32, y: (p.y + direction(k).1) as i32 }
}

/// The neighbours of `p` in the first `n` directions that lie in the bounding box.
pub open spec fn neighbor_seq(world: &GameWorld, p: Position, n: int) -> Seq<Position>
    decreases n,
{
    if n <= 0 {
        Seq::empty()
    } else if world.in_bounds(candidate(p, n - 1)) {
        neighbor_seq(world, p, n - 1).push(candidate(p, n - 1))
    } else {
        neighbor_seq(world, p, n - 1)
    }
}

proof fn lemma_neighbor_seq(world: &GameWorld, p: Position, n: int)
    requires
        safe_position(p),
        0 <= n <= 8,
    ensures
        forall|q: Position| #[trigger]
            neighbor_seq(world, p, n).contains(q) <==> (exists|k: int|
                0 <= k < n && candidate(p, k) == q && world.in_bounds(q)),
        forall|i: int|
            0 <= i < neighbor_seq(world, p, n).len() ==> world.in_bounds(
                #[trigger] neighbor_seq(world, p, n)[i],
            ) && is_adjacent(p, neighbor_seq(world, p, n)[i]),
    decreases n,
{
    if n > 0 {
        lemma_neighbor_seq(world, p, n - 1);
        let prev = neighbor_seq(world, p, n - 1);
        let c = candidate(p, n - 1);
        assert forall|q: Position| #[trigger]
            neighbor_seq(world, p, n).contains(q) <==> (exists|k: int|
                0 <= k < n && candidate(p, k) == q && world.in_bounds(q)) by {
            if neighbor_seq(world, p, n).contains(q) {
                let i = choose|i: int| 0 <= i < neighbor_seq(world, p, n).len() && neighbor_seq(world, p, n)[i] == q;
                if i < prev.len() {
                    assert(prev.contains(q));
                } else {
                    assert(q == c);
                }
            }
            if exists|k: int| 0 <= k < n && candidate(p, k) == q && world.in_bounds(q) {
                let k = choose|k: int| 0 <= k < n && candidate(p, k) == q && world.in_bounds(q);
                if k < n - 1 {
                    assert(prev.contains(q));
                    let i = choose|i: int| 0 <= i < prev.len() && prev[i] == q;
                    assert(neighbor_seq(world, p, n)[i] == q);
                } else {
                    assert(neighbor_seq(world, p, n)[prev.len() as int] == q);
                }
            }
        }
    }
}

/// Every adjacent position is the neighbour in some direction.
proof fn lemma_adjacent_is_candidate(p: Position, q: Position)
    requires
        safe_position(p),
        is_adjacent(p, q),
    ensures
        exists|k: int| 0 <= k < 8 && #[trigger] candidate(p, k) == q,
{
    let dx = q.x - p.x;
    let dy = q.y - p.y;
    let k = if dx == 0 && dy == 1 {
        0
    } else if dx == 1 && dy == 0 {
        1
    } else if dx == 0 && dy == -1 {
        2
    } else if dx == -1 && dy == 0 {
        3
    } else if dx == 1 && dy == 1 {
        4
    } else if dx == 1 && dy == -1 {
        5
    } else if dx == -1 && dy == -1 {
        6
    } else {
        7
    };
    assert(candidate(p, k) == q);
}

/// The neighbours of `position`, diagonals included, that lie in the world's
/// bounding box, in the fixed direction order.
pub fn get_neighbors(world: &GameWorld, position: Position) -> (r: Vec<Position>)
    requires
        safe_position(position),
    ensures
        r@ == neighbor_seq(world, position, 8),
        forall|q: Position| r@.contains(q) <==> is_adjacent(position, q) && world.in_bounds(q),
        forall|i: int| 0 <= i < r@.len() ==> world.in_bounds(#[trigger] r@[i]) && is_adjacent(position, r@[i]),
{
    let mut result: Vec<Position> = Vec::new();
    let mut k: usize = 0;
    while k < 8
        invariant
            0 <= k <= 8,
            safe_position(position),
            result@ == neighbor_seq(world, position, k as int),
        decreases 8 - k,
    {
        let (dx, dy): (i32, i32) = if k == 0 {
            (0, 1)
        } else if k == 1 {
            (1, 0)
        } else if k == 2 {
            (0, -1)
        } else if k == 3 {
            (-1, 0)
        } else if k == 4 {
            (1, 1)
        } else if k == 5 {
            (1, -1)
        } else if k == 6 {
            (-1, -1)
        } else {
            (-1, 1)
        };
        let neighbor = Position { x: position.x + dx, y: position.y + dy };
        assert(neighbor == candidate(position, k as int));
        if world.is_within_bounds(neighbor) {
            result.push(neighbor);
        }
        k = k + 1;
    }
    proof {
        lemma_neighbor_seq(world, position, 8);
        assert forall|q: Position| result@.contains(q) <==> is_adjacent(position, q) && world.in_bounds(q) by {
            if is_adjacent(position, q) && world.in_bounds(q) {
                lemma_adjacent_is_candidate(position, q);
            }
            if result@.contains(q) {
                let i = choose|i: int| 0 <= i < result@.len() && result@[i] == q;
                assert(world.in_bounds(result@[i]));
            }
        }
    }
    result
}

/// The search heuristic: the Manhattan distance, in quarter steps.
pub open spec fn heuristic_spec(a: Position, b: Position) -> int {
    4 * manhattan(a, b)
}

/// The Manhattan distance from `a` to `b` in quarter steps.
pub fn heuristic(a: Position, b: Position) -> (h: u128)
    ensures
        h == heuristic_spec(a, b),
{
    let d = manhattan_distance(a, b);
    4 * (d as u128)
}

/// Number of positions of the bounding box that `m` has no entry for.
pub open spec fn missing_measure(world: &GameWorld, m: Map<Position, u128>) -> int {
    missing_in_box(m, world.width_mind as int, world.width_max as int, world.height_min as int, world.height_max as int)
}

/// Sum of the entries of `m` over the bounding box.
pub open spec fn score_measure(world: &GameWorld, m: Map<Position, u128>) -> int {
    score_in_box(m, world.width_mind as int, world.width_max as int, world.height_min as int, world.height_max as int)
}

proof fn lemma_measures_nonneg(world: &GameWorld, m: Map<Position, u128>)
    ensures
        missing_measure(world, m) >= 0,
        score_measure(world, m) >= 0,
{
    lemma_box_measures_nonneg(m, world.width_mind as int, world.width_max as int, world.height_min as int, world.height_max as int);
}

proof fn lemma_measures_insert(world: &GameWorld, m: Map<Position, u128>, q: Position, v: u128)
    requires
        world.in_bounds(q),
        m.contains_key(q) ==> v < m[q],
    ensures
        missing_measure(world, m.insert(q, v)) <= missing_measure(world, m),
        !m.contains_key(q) ==> missing_measure(world, m.insert(q, v)) < missing_measure(world, m),
        m.contains_key(q) ==> missing_measure(world, m.insert(q, v)) == missing_measure(world, m),
        m.contains_key(q) ==> score_measure(world, m.insert(q, v)) < score_measure(world, m),
{
    lemma_box_measures_insert(m, q, v, world.width_mind as int, world.width_max as int, world.height_min as int, world.height_max as int);
}

/// An entry of the open list of the search.
#[derive(Clone, Copy, Debug)]
struct Node {
    position: Position,
    cost: u128,
    estimated_total_cost: u128,
}

/// Some entry of the open list is at `p`.
spec fn open_has(open: Seq<Node>, p: Position) -> bool {
    exists|i: int| 0 <= i < open.len() && open[i].position == p
}

/// The predecessor map `cf` leads from every costed position back to `start`
/// along moves of strictly decreasing cost.
spec fn chain_inv(
    world: &GameWorld,
    start: Position,
    g: Map<Position, u128>,
    cf: Map<Position, Position>,
) -> bool {
    &&& g.contains_key(start)
    &&& g[start] == 0
    &&& !cf.contains_key(start)
    &&& forall|p: Position| #[trigger] g.contains_key(p) <==> (p == start || cf.contains_key(p))
    &&& forall|p: Position| #[trigger]
        cf.contains_key(p) ==> g.contains_key(cf[p]) && step(world, cf[p], p) && g[cf[p]] < g[p]
}

/// Facts about the cost map `g` and the predecessor map `cf` of the search.
spec fn maps_inv(
    world: &GameWorld,
    start: Position,
    g: Map<Position, u128>,
    cf: Map<Position, Position>,
    gsize: nat,
) -> bool {
    &&& chain_inv(world, start, g, cf)
    &&& forall|p: Position| #[trigger] g.contains_key(p) ==> g[p] <= 5 * gsize
    &&& forall|p: Position| #[trigger] g.contains_key(p) ==> p == start || world.in_bounds(p)
}

/// Every open entry has a cost, and the goal, once it has a cost, is open.
spec fn open_inv(g: Map<Position, u128>, open: Seq<Node>, goal: Position) -> bool {
    &&& forall|i: int| 0 <= i < open.len() ==> g.contains_key(#[trigger] open[i].position)
    &&& g.contains_key(goal) ==> open_has(open, goal)
}

/// Every position with a cost, but `ex`, is open or has all its successors costed.
spec fn closed_inv(world: &GameWorld, g: Map<Position, u128>, open: Seq<Node>, ex: Option<Position>) -> bool {
    forall|p: Position| #[trigger]
        g.contains_key(p) ==> (ex == Some(p) || open_has(open, p) || (forall|q: Position| #[trigger]
            step(world, p, q) ==> g.contains_key(q)))
}

proof fn lemma_open_remove(open: Seq<Node>, idx: int, p: Position)
    requires
        0 <= idx < open.len(),
        open_has(open, p),
        open[idx].position != p,
    ensures
        open_has(open.remove(idx), p),
{
    let i = choose|i: int| 0 <= i < open.len() && open[i].position == p;
    if i < idx {
        assert(open.remove(idx)[i].position == p);
    } else {
        assert(open.remove(idx)[i - 1].position == p);
    }
}

proof fn lemma_open_push(open: Seq<Node>, n: Node, p: Position)
    requires
        open_has(open, p) || n.position == p,
    ensures
        open_has(open.push(n), p),
{
    if n.position == p {
        assert(open.push(n)[open.len() as int].position == p);
    } else {
        let i = choose|i: int| 0 <= i < open.len() && open[i].position == p;
        assert(open.push(n)[i].position == p);
    }
}

/// A walk from a costed position stays among costed positions when every
/// costed position has all its successors costed.
proof fn lemma_walk_costed(
    world: &GameWorld,
    g: Map<Position, u128>,
    from: Position,
    path: Seq<Position>,
    n: int,
)
    requires
        g.contains_key(from),
        is_walk(world, from, path),
        0 <= n <= path.len(),
        forall|p: Position| #[trigger]
            g.contains_key(p) ==> (forall|q: Position| #[trigger] step(world, p, q) ==> g.contains_key(q)),
    ensures
        forall|i: int| 0 <= i < n ==> g.contains_key(#[trigger] path[i]),
    decreases n,
{
    if n > 0 {
        lemma_walk_costed(world, g, from, path, n - 1);
        let prev = if n - 1 == 0 { from } else { path[n - 2] };
        assert(step(world, prev, path[n - 1]));
        assert(g.contains_key(prev));
    }
}

/// Putting a move in front of a walk gives a walk.
proof fn lemma_walk_prepend(world: &GameWorld, prev: Position, cur: Position, path: Seq<Position>)
    requires
        step(world, prev, cur),
        is_walk(world, cur, path),
    ensures
        is_walk(world, prev, seq![cur] + path),
{
    let np = seq![cur] + path;
    assert forall|i: int| 0 <= i < np.len() implies step(
        world,
        if i == 0 { prev } else { np[i - 1] },
        #[trigger] np[i],
    ) by {
        if i > 0 {
            assert(np[i] == path[i - 1]);
            if i > 1 {
                assert(np[i - 1] == path[i - 2]);
            }
        }
    }
}

/// Index of the first open entry with the smallest estimated total cost.
fn min_index(open: &Vec<Node>) -> (idx: usize)
    requires
        open@.len() > 0,
    ensures
        idx < open@.len(),
        forall|j: int| 0 <= j < open@.len() ==> open@[idx as int].estimated_total_cost <= #[trigger] open@[j].estimated_total_cost,
        forall|j: int| 0 <= j < idx ==> open@[idx as int].estimated_total_cost < #[trigger] open@[j].estimated_total_cost,
{
    let mut best: usize = 0;
    let mut i: usize = 1;
    while i < open.len()
        invariant
            1 <= i <= open@.len(),
            best < i,
            forall|j: int| 0 <= j < i ==> open@[best as int].estimated_total_cost <= #[trigger] open@[j].estimated_total_cost,
            forall|j: int| 0 <= j < best ==> open@[best as int].estimated_total_cost < #[trigger] open@[j].estimated_total_cost,
        decreases open@.len() - i,
    {
        if open[i].estimated_total_cost < open[best].estimated_total_cost {
            best = i;
        }
        i = i + 1;
    }
    best
}

/// Follows the predecessor map back from `current` to `start`; the result is
/// the walk from `start` to `current` (without `start`).
fn reconstruct_path(
    world: &GameWorld,
    came_from: &PosMap<Position>,
    current: Position,
    Ghost(start): Ghost<Position>,
    Ghost(g): Ghost<Map<Position, u128>>,
) -> (r: Vec<Position>)
    requires
        came_from.wf(),
        chain_inv(world, start, g, came_from@),
        g.contains_key(current),
    ensures
        current == start ==> r@.len() == 0,
        current != start ==> reaches(world, start, r@, current),
        r@.no_duplicates(),
        !r@.contains(start),
{
    let mut path: Vec<Position> = Vec::new();
    let mut cur = current;
    let mut next = came_from.get(cur);
    while next.is_some()
        invariant
            came_from.wf(),
            chain_inv(world, start, g, came_from@),
            g.contains_key(cur),
            next == (if came_from@.contains_key(cur) { Some(came_from@[cur]) } else { None }),
            path@.len() == 0 ==> cur == current,
            path@.len() > 0 ==> came_from@.contains_key(current),
            is_walk(world, cur, path@),
            path@.len() > 0 ==> path@.last() == current,
            forall|i: int| 0 <= i < path@.len() ==> came_from@.contains_key(#[trigger] path@[i]),
            forall|i: int, j: int| 0 <= i < j < path@.len() ==> g[#[trigger] path@[i]] < g[#[trigger] path@[j]],
            path@.len() > 0 ==> g[cur] < g[path@[0]],
        decreases g[cur],
    {
        let prev = next.unwrap();
        let ghost old_path = path@;
        path.insert(0, cur);
        proof {
            assert(path@ == seq![cur] + old_path);
            lemma_walk_prepend(world, prev, cur, old_path);
            assert forall|i: int, j: int| 0 <= i < j < path@.len() implies g[#[trigger] path@[i]] < g[#[trigger] path@[j]] by {
                if i == 0 {
                    if j > 1 {
                        assert(path@[j] == old_path[j - 1]);
                        assert(g[old_path[0]] < g[old_path[j - 1]]);
                    }
                } else {
                    assert(path@[i] == old_path[i - 1] && path@[j] == old_path[j - 1]);
                }
            }
            assert forall|i: int| 0 <= i < path@.len() implies came_from@.contains_key(#[trigger] path@[i]) by {
                if i > 0 {
                    assert(path@[i] == old_path[i - 1]);
                }
            }
        }
        cur = prev;
        next = came_from.get(cur);
    }
    proof {
        assert forall|i: int, j: int| 0 <= i < path@.len() && 0 <= j < path@.len() && i != j implies path@[i]
            != path@[j] by {
            if i < j {
                assert(g[path@[i]] < g[path@[j]]);
            } else {
                assert(g[path@[j]] < g[path@[i]]);
            }
        }
        if path@.contains(start) {
            let k = choose|k: int| 0 <= k < path@.len() && path@[k] == start;
            assert(came_from@.contains_key(path@[k]));
        }
    }
    path
}

/// The A* search from `start` to `goal`: the walk it finds (without `start`),
/// or an empty path when the goal is unreachable or equal to the start.
fn a_star_search(world: &GameWorld, start: Position, goal: Position) -> (r: Vec<Position>)
    requires
        safe_position(start),
        safe_bounds(world),
    ensures
        start == goal ==> r@.len() == 0,
        r@.len() > 0 ==> reaches(world, start, r@, goal),
        start != goal ==> (r@.len() > 0 <==> reachable(world, start, goal)),
        r@.no_duplicates(),
        !r@.contains(start),
{
    let mut open: Vec<Node> = Vec::new();
    open.push(Node { position: start, cost: 0, estimated_total_cost: heuristic(start, goal) });
    let mut g_score: PosMap<u128> = PosMap::new();
    g_score.insert(start, 0);
    let mut came_from: PosMap<Position> = PosMap::new();
    proof {
        assert(open@[0].position == start);
        assert(open_has(open@, start));
    }
    loop
        invariant
            safe_position(start),
            safe_bounds(world),
            g_score.wf(),
            came_from.wf(),
            maps_inv(world, start, g_score@, came_from@, g_score.size()),
            open_inv(g_score@, open@, goal),
            closed_inv(world, g_score@, open@, None),
        decreases missing_measure(world, g_score@), score_measure(world, g_score@), open@.len(),
    {
        if open.len() == 0 {
            proof {
                if start != goal && reachable(world, start, goal) {
                    let path = choose|path: Seq<Position>| #[trigger] reaches(world, start, path, goal);
                    lemma_walk_costed(world, g_score@, start, path, path.len() as int);
                    assert(g_score@.contains_key(path.last()));
                    assert(!open_has(open@, goal));
                }
            }
            return Vec::new();
        }
        let idx = min_index(&open);
        let ghost open_before = open@;
        let current = open.remove(idx);
        let cur = current.position;
        proof {
            assert(g_score@.contains_key(open_before[idx as int].position));
        }
        if cur == goal {
            return reconstruct_path(world, &came_from, cur, Ghost(start), Ghost(g_score@));
        }
        proof {
            assert forall|p: Position| #[trigger] g_score@.contains_key(p) implies (Some(cur) == Some(p)
                || open_has(open@, p) || (forall|q: Position| #[trigger]
                step(world, p, q) ==> g_score@.contains_key(q))) by {
                if p != cur && open_has(open_before, p) {
                    lemma_open_remove(open_before, idx as int, p);
                }
            }
            if g_score@.contains_key(goal) {
                lemma_open_remove(open_before, idx as int, goal);
            }
        }
        let gc = g_score.get(cur).unwrap();
        let neighbors = get_neighbors(world, cur);
        let ghost g0 = g_score@;
        let ghost open_popped = open@;
        let ghost mut changed = false;
        proof {
            lemma_measures_nonneg(world, g0);
        }
        let mut j: usize = 0;
        while j < neighbors.len()
            invariant
                safe_position(start),
                safe_bounds(world),
                g_score.wf(),
                came_from.wf(),
                maps_inv(world, start, g_score@, came_from@, g_score.size()),
                open_inv(g_score@, open@, goal),
                closed_inv(world, g_score@, open@, Some(cur)),
                cur != goal,
                g_score@.contains_key(cur),
                g_score@[cur] == gc,
                neighbors@ == neighbor_seq(world, cur, 8),
                forall|q: Position| neighbors@.contains(q) <==> is_adjacent(cur, q) && world.in_bounds(q),
                forall|i: int| 0 <= i < neighbors@.len() ==> world.in_bounds(#[trigger] neighbors@[i])
                    && is_adjacent(cur, neighbors@[i]),
                0 <= j <= neighbors@.len(),
                forall|k: int| 0 <= k < j && passable(world, #[trigger] neighbors@[k]) ==> g_score@.contains_key(neighbors@[k]),
                forall|p: Position| #[trigger] g0.contains_key(p) ==> g_score@.contains_key(p),
                missing_measure(world, g_score@) <= missing_measure(world, g0),
                missing_measure(world, g0) >= 0,
                score_measure(world, g0) >= 0,
                !changed ==> g_score@ == g0 && open@ == open_popped,
                changed ==> (missing_measure(world, g_score@) < missing_measure(world, g0) || (
                missing_measure(world, g_score@) == missing_measure(world, g0) && score_measure(world, g_score@) < score_measure(world, g0))),
            decreases neighbors@.len() - j,
        {
            let neighbor = neighbors[j];
            proof {
                reveal(passable);
            }
            match world.get_tile_type(neighbor.x, neighbor.y) {
                Some(tile_type) => {
                    let travel_weight = tile_type.get_travel_weight();
                    if travel_weight != 0 {
                        let gsize = g_score.len();
                        let tentative_g_score: u128 = gc + travel_weight as u128;
                        let better = match g_score.get(neighbor) {
                            Some(old_score) => tentative_g_score < old_score,
                            None => true,
                        };
                        if better {
                            let ghost g_prev = g_score@;
                            let ghost open_prev = open@;
                            proof {
                                lemma_measures_insert(world, g_prev, neighbor, tentative_g_score);
                                lemma_measures_nonneg(world, g_prev.insert(neighbor, tentative_g_score));
                                assert(step(world, cur, neighbor));
                            }
                            came_from.insert(neighbor, cur);
                            g_score.insert(neighbor, tentative_g_score);
                            let node = Node {
                                position: neighbor,
                                cost: tentative_g_score,
                                estimated_total_cost: tentative_g_score + heuristic(neighbor, goal),
                            };
                            open.push(node);
                            proof {
                                changed = true;
                                assert forall|p: Position| #[trigger] g_score@.contains_key(p) implies (Some(cur) == Some(p)
                                    || open_has(open@, p) || (forall|q: Position| #[trigger]
                                    step(world, p, q) ==> g_score@.contains_key(q))) by {
                                    if p == neighbor || open_has(open_prev, p) {
                                        lemma_open_push(open_prev, node, p);
                                    }
                                }
                                if g_score@.contains_key(goal) {
                                    lemma_open_push(open_prev, node, goal);
                                }
                                assert forall|i: int| 0 <= i < open@.len() implies g_score@.contains_key(#[trigger] open@[i].position) by {
                                    if i < open_prev.len() {
                                        assert(open@[i] == open_prev[i]);
                                    }
                                }
                            }
                        }
                    }
                },
                None => {},
            }
            j = j + 1;
        }
        proof {
            lemma_measures_nonneg(world, g_score@);
            assert forall|q: Position| #[trigger] step(world, cur, q) implies g_score@.contains_key(q) by {
                reveal(passable);
                assert(neighbors@.contains(q));
                let k = choose|k: int| 0 <= k < neighbors@.len() && neighbors@[k] == q;
                assert(passable(world, neighbors@[k]));
            }
        }
    }
}


/// `r` is what the search from `from` to `goal` gives: nothing when they are
/// equal, otherwise a walk to the goal exactly when the goal is reachable.
pub open spec fn search_result(world: &GameWorld, from: Position, goal: Position, r: Seq<Position>) -> bool {
    &&& from == goal ==> r.len() == 0
    &&& r.len() > 0 ==> reaches(world, from, r, goal)
    &&& from != goal ==> (r.len() > 0 <==> reachable(world, from, goal))
    &&& r.no_duplicates()
    &&& !r.contains(from)
}

/// `r` is what continuing `current` towards `goal` gives: nothing for an empty
/// path, the path itself when it already ends at `goal`, otherwise the path
/// without its last position followed by a walk from that position to `goal`,
/// or nothing when the goal cannot be reached from there.
pub open spec fn continuation_result(world: &GameWorld, current: Seq<Position>, goal: Position, r: Seq<Position>) -> bool {
    &&& current.len() == 0 ==> r.len() == 0
    &&& current.len() > 0 && current.last() == goal ==> r == current
    &&& current.len() > 0 && current.last() != goal ==> {
        &&& (r.len() > 0 <==> reachable(world, current.last(), goal))
        &&& r.len() > 0 ==> {
            let n = current.len() - 1;
            &&& r.len() > n
            &&& r.take(n) == current.drop_last()
            &&& reaches(world, current.last(), r.skip(n), goal)
        }
    }
}

/// Every position of `s` is safe.
pub open spec fn all_safe(s: Seq<Position>) -> bool {
    forall|i: int| 0 <= i < s.len() ==> safe_position(#[trigger] s[i])
}

/// Every position of a walk lies in the bounding box, so it is safe when the
/// bounding box is.
pub proof fn lemma_walk_safe(world: &GameWorld, from: Position, path: Seq<Position>)
    requires
        safe_bounds(world),
        is_walk(world, from, path),
    ensures
        all_safe(path),
{
    reveal(passable);
    assert forall|i: int| 0 <= i < path.len() implies safe_position(#[trigger] path[i]) by {
        assert(step(world, if i == 0 { from } else { path[i - 1] }, path[i]));
    }
}

/// A search result is made of safe positions.
pub proof fn lemma_search_result_safe(world: &GameWorld, from: Position, goal: Position, r: Seq<Position>)
    requires
        safe_bounds(world),
        search_result(world, from, goal, r),
    ensures
        all_safe(r),
{
    if r.len() > 0 {
        lemma_walk_safe(world, from, r);
    }
}

/// The first and the last position of `s`, when it has any, are safe.
pub open spec fn ends_safe(s: Seq<Position>) -> bool {
    s.len() > 0 ==> safe_position(s[0]) && safe_position(s.last())
}

/// Continuing a path whose ends are safe gives a path whose ends are safe.
pub proof fn lemma_continuation_ends_safe(world: &GameWorld, current: Seq<Position>, goal: Position, r: Seq<Position>)
    requires
        safe_bounds(world),
        ends_safe(current),
        continuation_result(world, current, goal, r),
    ensures
        ends_safe(r),
{
    if current.len() > 0 && current.last() != goal && r.len() > 0 {
        let n = current.len() - 1;
        lemma_walk_safe(world, current.last(), r.skip(n));
        assert(r.last() == r.skip(n)[r.len() - 1 - n]);
        if n > 0 {
            assert(r[0] == r.take(n)[0]);
            assert(r[0] == current[0]);
        } else {
            assert(r[0] == r.skip(n)[0]);
        }
    }
}

/// A* path finding from `start` to `goal`. Moves go to any of the eight
/// neighbouring positions inside the bounding box that hold a non-lake tile;
/// entering a forest or mountain costs 1.25, any other tile 1; the Manhattan
/// distance guides the search. The result is the walk found, without `start`,
/// or an empty path when there is none (or `start == goal`).
pub fn a_star_pathfinding(world: &GameWorld, start: Position, goal: Position) -> (r: Vec<Position>)
    requires
        safe_position(start),
        safe_bounds(world),
    ensures
        search_result(world, start, goal, r@),
{
    a_star_search(world, start, goal)
}

/// Continues a path towards `goal`: an empty path gives an empty result, a path
/// already ending at `goal` is returned as it is; otherwise the search runs from
/// the path's last position, and its walk replaces that last position (or the
/// result is empty when the goal is unreachable from there).
pub fn a_star_with_current_path(world: &GameWorld, current_path: Vec<Position>, goal: Position) -> (r: Vec<
    Position,
>)
    requires
        current_path@.len() > 0 ==> safe_position(current_path@.last()),
        safe_bounds(world),
    ensures
        continuation_result(world, current_path@, goal, r@),
{
    if current_path.len() == 0 {
        return Vec::new();
    }
    let last = current_path[current_path.len() - 1];
    if last == goal {
        return current_path;
    }
    let mut recalculated = a_star_search(world, last, goal);
    if recalculated.len() == 0 {
        return Vec::new();
    }
    let ghost rec = recalculated@;
    let mut reusable_path = current_path;
    reusable_path.pop();
    let ghost prefix = reusable_path@;
    reusable_path.append(&mut recalculated);
    proof {
        assert(reusable_path@.take(prefix.len() as int) =~= prefix);
        assert(reusable_path@.skip(prefix.len() as int) =~= rec);
    }
    reusable_path
}

/// `q` lies in the bounding box and in the square around one of the centres.
pub open spec fn in_avoid_area(world: &GameWorld, avoids: Seq<(Position, i32)>, q: Position) -> bool {
    &&& world.in_bounds(q)
    &&& exists|i: int|
        0 <= i < avoids.len() && abs_diff(q.x as int, (#[trigger] avoids[i]).0.x as int) <= avoids[i].1
            && abs_diff(q.y as int, avoids[i].0.y as int) <= avoids[i].1
}

/// `c` is a candidate start outside the avoided area that is, on each axis,
/// at least as far from every centre as `s` is.
pub open spec fn is_escape(world: &GameWorld, avoids: Seq<(Position, i32)>, s: Position, c: Position) -> bool {
    &&& world.in_bounds(c)
    &&& !in_avoid_area(world, avoids, c)
    &&& forall|i: int|
        0 <= i < avoids.len() ==> abs_diff(c.x as int, (#[trigger] avoids[i]).0.x as int) >= abs_diff(
            s.x as int,
            avoids[i].0.x as int,
        ) && abs_diff(c.y as int, avoids[i].0.y as int) >= abs_diff(s.y as int, avoids[i].0.y as int)
}

/// `c` is an escape within `radius` steps of `s` on each axis.
pub open spec fn escape_within(
    world: &GameWorld,
    avoids: Seq<(Position, i32)>,
    s: Position,
    radius: int,
    c: Position,
) -> bool {
    abs_diff(c.x as int, s.x as int) <= radius && abs_diff(c.y as int, s.y as int) <= radius
        && is_escape(world, avoids, s, c)
}

/// Candidates are ordered by distance from `s`, then by x, then by y.
pub open spec fn escape_le(s: Position, a: Position, b: Position) -> bool {
    ||| manhattan(s, a) < manhattan(s, b)
    ||| manhattan(s, a) == manhattan(s, b) && a.x < b.x
    ||| manhattan(s, a) == manhattan(s, b) && a.x == b.x && a.y <= b.y
}

/// `c` is the first escape of the smallest radius (at most `limit`) that has one.
pub open spec fn chosen_escape(
    world: &GameWorld,
    avoids: Seq<(Position, i32)>,
    s: Position,
    limit: int,
    c: Position,
) -> bool {
    exists|radius: int|
        1 <= radius <= limit && #[trigger] escape_within(world, avoids, s, radius, c) && (forall|k: int,
            d: Position| 1 <= k < radius ==> !#[trigger] escape_within(world, avoids, s, k, d)) && (forall|
            d: Position,
        | #[trigger] escape_within(world, avoids, s, radius, d) ==> escape_le(s, c, d))
}

/// No radius from 1 to `limit` has an escape.
pub open spec fn no_escape(world: &GameWorld, avoids: Seq<(Position, i32)>, s: Position, limit: int) -> bool {
    forall|k: int, d: Position| 1 <= k <= limit ==> !#[trigger] escape_within(world, avoids, s, k, d)
}

/// Checks whether `q` is in the avoided area.
fn check_avoid_area(world: &GameWorld, avoids: &Vec<(Position, i32)>, q: Position) -> (b: bool)
    ensures
        b == in_avoid_area(world, avoids@, q),
{
    if !world.is_within_bounds(q) {
        return false;
    }
    let mut i: usize = 0;
    while i < avoids.len()
        invariant
            0 <= i <= avoids@.len(),
            world.in_bounds(q),
            forall|k: int|
                0 <= k < i ==> !(abs_diff(q.x as int, (#[trigger] avoids@[k]).0.x as int) <= avoids@[k].1
                    && abs_diff(q.y as int, avoids@[k].0.y as int) <= avoids@[k].1),
        decreases avoids@.len() - i,
    {
        let (center, radius) = avoids[i];
        let dx: i64 = if q.x >= center.x { q.x as i64 - center.x as i64 } else { center.x as i64 - q.x as i64 };
        let dy: i64 = if q.y >= center.y { q.y as i64 - center.y as i64 } else { center.y as i64 - q.y as i64 };
        if dx <= radius as i64 && dy <= radius as i64 {
            assert(abs_diff(q.x as int, avoids@[i as int].0.x as int) <= avoids@[i as int].1 && abs_diff(
                q.y as int,
                avoids@[i as int].0.y as int,
            ) <= avoids@[i as int].1);
            return true;
        }
        i = i + 1;
    }
    false
}

/// Checks whether `c` is an escape from `s`.
fn check_escape(world: &GameWorld, avoids: &Vec<(Position, i32)>, s: Position, c: Position) -> (b: bool)
    ensures
        b == is_escape(world, avoids@, s, c),
{
    if !world.is_within_bounds(c) || check_avoid_area(world, avoids, c) {
        return false;
    }
    let mut i: usize = 0;
    while i < avoids.len()
        invariant
            0 <= i <= avoids@.len(),
            world.in_bounds(c),
            !in_avoid_area(world, avoids@, c),
            forall|k: int|
                0 <= k < i ==> abs_diff(c.x as int, (#[trigger] avoids@[k]).0.x as int) >= abs_diff(
                    s.x as int,
                    avoids@[k].0.x as int,
                ) && abs_diff(c.y as int, avoids@[k].0.y as int) >= abs_diff(s.y as int, avoids@[k].0.y as int),
        decreases avoids@.len() - i,
    {
        let center = avoids[i].0;
        let cdx: i64 = if c.x >= center.x { c.x as i64 - center.x as i64 } else { center.x as i64 - c.x as i64 };
        let cdy: i64 = if c.y >= center.y { c.y as i64 - center.y as i64 } else { center.y as i64 - c.y as i64 };
        let sdx: i64 = if s.x >= center.x { s.x as i64 - center.x as i64 } else { center.x as i64 - s.x as i64 };
        let sdy: i64 = if s.y >= center.y { s.y as i64 - center.y as i64 } else { center.y as i64 - s.y as i64 };
        if !(cdx >= sdx && cdy >= sdy) {
            return false;
        }
        i = i + 1;
    }
    true
}


/// The first escape (in the order dx, then dy) at the smallest Manhattan
/// distance among those within `radius` of `s`.
fn best_escape_at(world: &GameWorld, avoids: &Vec<(Position, i32)>, s: Position, radius: i64) -> (r: Option<
    Position,
>)
    requires
        1 <= radius <= 0x1_0000_0000,
    ensures
        match r {
            Some(c) => escape_within(world, avoids@, s, radius as int, c) && forall|d: Position|
                #[trigger] escape_within(world, avoids@, s, radius as int, d) ==> escape_le(s, c, d),
            None => forall|d: Position| !#[trigger] escape_within(world, avoids@, s, radius as int, d),
        },
{
    let mut best: Option<Position> = None;
    let mut best_key: i64 = 0;
    let mut dx: i64 = -radius;
    while dx <= radius
        invariant
            1 <= radius <= 0x1_0000_0000,
            -radius <= dx <= radius + 1,
            match best {
                Some(c) => {
                    &&& escape_within(world, avoids@, s, radius as int, c)
                    &&& c.x - s.x < dx
                    &&& best_key == manhattan(s, c)
                    &&& forall|d: Position|
                        #[trigger] escape_within(world, avoids@, s, radius as int, d) && d.x - s.x < dx
                            ==> escape_le(s, c, d)
                },
                None => forall|d: Position|
                    #[trigger] escape_within(world, avoids@, s, radius as int, d) ==> d.x - s.x >= dx,
            },
        decreases radius + 1 - dx,
    {
        let mut dy: i64 = -radius;
        while dy <= radius
            invariant
                1 <= radius <= 0x1_0000_0000,
                -radius <= dx <= radius,
                -radius <= dy <= radius + 1,
                match best {
                    Some(c) => {
                        &&& escape_within(world, avoids@, s, radius as int, c)
                        &&& (c.x - s.x < dx || (c.x - s.x == dx && c.y - s.y < dy))
                        &&& best_key == manhattan(s, c)
                        &&& forall|d: Position|
                            #[trigger] escape_within(world, avoids@, s, radius as int, d) && (d.x - s.x < dx
                                || (d.x - s.x == dx && d.y - s.y < dy)) ==> escape_le(s, c, d)
                    },
                    None => forall|d: Position|
                        #[trigger] escape_within(world, avoids@, s, radius as int, d) ==> (d.x - s.x > dx || (
                        d.x - s.x == dx && d.y - s.y >= dy)),
                },
            decreases radius + 1 - dy,
        {
            let cx: i64 = s.x as i64 + dx;
            let cy: i64 = s.y as i64 + dy;
            if i32::MIN as i64 <= cx && cx <= i32::MAX as i64 && i32::MIN as i64 <= cy && cy
                <= i32::MAX as i64 {
                let candidate = Position { x: cx as i32, y: cy as i32 };
                if check_escape(world, avoids, s, candidate) {
                    let key: i64 = (if dx >= 0 { dx } else { -dx }) + (if dy >= 0 { dy } else { -dy });
                    assert(key == manhattan(s, candidate));
                    assert(escape_within(world, avoids@, s, radius as int, candidate));
                    if best.is_none() || key < best_key {
                        best = Some(candidate);
                        best_key = key;
                    }
                }
            }
            dy = dy + 1;
        }
        dx = dx + 1;
    }
    best
}

/// Searches squares of growing radius around `s` for an escape; gives up
/// once the radius exceeds `limit`.
fn find_escape(world: &GameWorld, avoids: &Vec<(Position, i32)>, s: Position, limit: i64) -> (r: Option<
    Position,
>)
    requires
        limit <= 0x1_0000_0000,
    ensures
        match r {
            Some(c) => chosen_escape(world, avoids@, s, limit as int, c),
            None => no_escape(world, avoids@, s, limit as int),
        },
{
    let mut radius: i64 = 1;
    loop
        invariant
            limit <= 0x1_0000_0000,
            1 <= radius,
            radius == 1 || radius <= limit,
            forall|k: int, d: Position| 1 <= k < radius ==> !#[trigger] escape_within(world, avoids@, s, k, d),
        decreases limit + 1 - radius,
    {
        match best_escape_at(world, avoids, s, radius) {
            Some(c) => {
                if radius > limit {
                    return None;
                }
                assert(escape_within(world, avoids@, s, radius as int, c));
                return Some(c);
            },
            None => {},
        }
        radius = radius + 1;
        if radius > limit {
            return None;
        }
    }
}


/// `path` enters no position of the avoided areas.
pub open spec fn avoids_areas(world: &GameWorld, avoids: Seq<(Position, i32)>, path: Seq<Position>) -> bool {
    forall|i: int| 0 <= i < path.len() ==> !in_avoid_area(world, avoids, #[trigger] path[i])
}

/// Some walk leads from `from` to `to` without entering the avoided areas.
pub open spec fn reachable_avoiding(
    world: &GameWorld,
    avoids: Seq<(Position, i32)>,
    from: Position,
    to: Position,
) -> bool {
    exists|path: Seq<Position>| #[trigger] reaches(world, from, path, to) && avoids_areas(world, avoids, path)
}

/// What the search from `from` to `goal` around the avoided areas gives: when
/// some walk leads there without entering them, a walk to the goal that
/// enters none of them, never repeats a position and never returns to
/// `from`; otherwise (or when `from` is the goal) the ordinary search.
pub open spec fn detour_search(
    world: &GameWorld,
    avoids: Seq<(Position, i32)>,
    from: Position,
    goal: Position,
    r: Seq<Position>,
) -> bool {
    if from != goal && reachable_avoiding(world, avoids, from, goal) {
        &&& reaches(world, from, r, goal)
        &&& avoids_areas(world, avoids, r)
        &&& r.no_duplicates()
        &&& !r.contains(from)
    } else {
        search_result(world, from, goal, r)
    }
}

/// `w` is `world` with every tile inside the avoided areas made a lake.
spec fn blocked_from(world: &GameWorld, avoids: Seq<(Position, i32)>, w: &GameWorld) -> bool {
    &&& w.width_mind == world.width_mind
    &&& w.width_max == world.width_max
    &&& w.height_min == world.height_min
    &&& w.height_max == world.height_max
    &&& w.tiles@.len() == world.tiles@.len()
    &&& forall|i: int|
        0 <= i < world.tiles@.len() ==> (#[trigger] w.tiles@[i]).0 == world.tiles@[i].0 && w.tiles@[i].1 == (if in_avoid_area(
            world,
            avoids,
            world.tiles@[i].0,
        ) {
            Tile { tile_type: TileType::Lake }
        } else {
            world.tiles@[i].1
        })
}

/// A copy of `world` whose tiles inside the avoided areas are lakes.
fn blocked_world(world: &GameWorld, avoids: &Vec<(Position, i32)>) -> (w: GameWorld)
    ensures
        blocked_from(world, avoids@, &w),
{
    let mut tiles: Vec<(Position, Tile)> = Vec::new();
    let mut i: usize = 0;
    while i < world.tiles.len()
        invariant
            0 <= i <= world.tiles@.len(),
            tiles@.len() == i,
            forall|j: int|
                0 <= j < i ==> (#[trigger] tiles@[j]).0 == world.tiles@[j].0 && tiles@[j].1 == (if in_avoid_area(
                    world,
                    avoids@,
                    world.tiles@[j].0,
                ) {
                    Tile { tile_type: TileType::Lake }
                } else {
                    world.tiles@[j].1
                }),
        decreases world.tiles@.len() - i,
    {
        let (p, t) = world.tiles[i];
        if check_avoid_area(world, avoids, p) {
            tiles.push((p, Tile::new(TileType::Lake)));
        } else {
            tiles.push((p, t));
        }
        i = i + 1;
    }
    GameWorld {
        tiles,
        width_mind: world.width_mind,
        height_min: world.height_min,
        width_max: world.width_max,
        height_max: world.height_max,
    }
}

/// In the blocked copy, exactly the passable positions outside the avoided
/// areas are passable.
proof fn lemma_blocked_passable(world: &GameWorld, avoids: Seq<(Position, i32)>, w: &GameWorld, q: Position)
    requires
        blocked_from(world, avoids, w),
    ensures
        passable(w, q) == (passable(world, q) && !in_avoid_area(world, avoids, q)),
{
    reveal(passable);
    let s0 = world.tiles@;
    let s1 = w.tiles@;
    if exists|i: int| #[trigger] is_first_index(s0, q, i) {
        let i0 = choose|i: int| #[trigger] is_first_index(s0, q, i);
        assert(s1[i0].0 == s0[i0].0);
        assert forall|j: int| 0 <= j < i0 implies s1[j].0 != q by {
            assert(s1[j].0 == s0[j].0);
        }
        assert(is_first_index(s1, q, i0));
        let k0 = first_index(s0, q);
        let k1 = first_index(s1, q);
        assert(is_first_index(s0, q, k0));
        assert(is_first_index(s1, q, k1));
        if k0 < i0 {
            assert(s0[k0].0 != q);
        }
        if i0 < k0 {
            assert(s0[i0].0 != q);
        }
        assert(s1[k1].0 == s0[k1].0);
        if k1 < i0 {
            assert(s0[k1].0 != q);
        }
        if i0 < k1 {
            assert(s1[i0].0 != q);
        }
        assert(seq_tile_at(s1, q) == Some(s1[i0].1));
        assert(seq_tile_at(s0, q) == Some(s0[i0].1));
    } else {
        assert forall|i: int| !is_first_index(s1, q, i) by {
            if is_first_index(s1, q, i) {
                assert(s0[i].0 == s1[i].0);
                assert forall|j: int| 0 <= j < i implies s0[j].0 != q by {
                    assert(s1[j].0 == s0[j].0);
                }
                assert(is_first_index(s0, q, i));
            }
        }
        assert(seq_tile_at(s1, q) is None);
    }
}

/// A walk in the blocked copy is a walk in `world` that enters no avoided
/// area, and the other way round.
proof fn lemma_blocked_walk(
    world: &GameWorld,
    avoids: Seq<(Position, i32)>,
    w: &GameWorld,
    from: Position,
    path: Seq<Position>,
)
    requires
        blocked_from(world, avoids, w),
    ensures
        is_walk(w, from, path) == (is_walk(world, from, path) && avoids_areas(world, avoids, path)),
{
    assert forall|q: Position| #[trigger] passable(w, q) == (passable(world, q) && !in_avoid_area(world, avoids, q)) by {
        lemma_blocked_passable(world, avoids, w, q);
    }
    if is_walk(w, from, path) {
        assert forall|i: int| 0 <= i < path.len() implies step(
            world,
            if i == 0 { from } else { path[i - 1] },
            #[trigger] path[i],
        ) by {
            assert(step(w, if i == 0 { from } else { path[i - 1] }, path[i]));
        }
        assert forall|i: int| 0 <= i < path.len() implies !in_avoid_area(world, avoids, #[trigger] path[i]) by {
            assert(step(w, if i == 0 { from } else { path[i - 1] }, path[i]));
        }
    }
    if is_walk(world, from, path) && avoids_areas(world, avoids, path) {
        assert forall|i: int| 0 <= i < path.len() implies step(
            w,
            if i == 0 { from } else { path[i - 1] },
            #[trigger] path[i],
        ) by {
            assert(step(world, if i == 0 { from } else { path[i - 1] }, path[i]));
            assert(!in_avoid_area(world, avoids, path[i]));
        }
    }
}

/// Searches from `from` to `goal` around the avoided areas (see
/// `detour_search`): first in a copy of the world whose avoided tiles are
/// lakes, then, when that finds nothing, in the world itself.
fn search_around(world: &GameWorld, avoids: &Vec<(Position, i32)>, from: Position, goal: Position) -> (r: Vec<
    Position,
>)
    requires
        safe_position(from),
        safe_bounds(world),
    ensures
        detour_search(world, avoids@, from, goal, r@),
{
    let blocked = blocked_world(world, avoids);
    let r1 = a_star_search(&blocked, from, goal);
    if r1.len() > 0 {
        proof {
            lemma_blocked_walk(world, avoids@, &blocked, from, r1@);
            assert(reaches(world, from, r1@, goal) && avoids_areas(world, avoids@, r1@));
            assert(reachable_avoiding(world, avoids@, from, goal));
        }
        return r1;
    }
    proof {
        if from != goal && reachable_avoiding(world, avoids@, from, goal) {
            let path = choose|path: Seq<Position>|
                #[trigger] reaches(world, from, path, goal) && avoids_areas(world, avoids@, path);
            lemma_blocked_walk(world, avoids@, &blocked, from, path);
            assert(reaches(&blocked, from, path, goal));
            assert(reachable(&blocked, from, goal));
        }
    }
    a_star_search(world, from, goal)
}

/// A result of the search around avoided areas is made of safe positions.
pub proof fn lemma_detour_search_safe(
    world: &GameWorld,
    avoids: Seq<(Position, i32)>,
    from: Position,
    goal: Position,
    r: Seq<Position>,
)
    requires
        safe_bounds(world),
        detour_search(world, avoids, from, goal, r),
    ensures
        all_safe(r),
{
    if from != goal && reachable_avoiding(world, avoids, from, goal) {
        lemma_walk_safe(world, from, r);
    } else {
        lemma_search_result_safe(world, from, goal, r);
    }
}

/// What a path recalculation around avoided areas gives for the start `s`:
/// the search around the areas from `s` when `s` is outside them, otherwise
/// from the chosen escape, or nothing when no escape exists within `limit`.
pub open spec fn recalculation_result(
    world: &GameWorld,
    avoids: Seq<(Position, i32)>,
    s: Position,
    limit: int,
    goal: Position,
    r: Seq<Position>,
) -> bool {
    &&& !in_avoid_area(world, avoids, s) ==> detour_search(world, avoids, s, goal, r)
    &&& in_avoid_area(world, avoids, s) ==> {
        ||| exists|c: Position| #[trigger]
            chosen_escape(world, avoids, s, limit, c) && detour_search(world, avoids, c, goal, r)
        ||| no_escape(world, avoids, s, limit) && r.len() == 0
    }
}

/// Moves the start out of the avoided areas when needed, then searches.
fn recalculate_from(
    world: &GameWorld,
    avoids: &Vec<(Position, i32)>,
    start: Position,
    limit: i64,
    goal: Position,
) -> (r: Vec<Position>)
    requires
        safe_position(start),
        safe_bounds(world),
        limit <= 0x1_0000_0000,
    ensures
        recalculation_result(world, avoids@, start, limit as int, goal, r@),
{
    let mut adjusted_start = start;
    if check_avoid_area(world, avoids, start) {
        match find_escape(world, avoids, start, limit) {
            Some(c) => {
                adjusted_start = c;
            },
            None => {
                return Vec::new();
            },
        }
    }
    proof {
        // The adjusted start is never inside an avoided area: an escape lies outside them all.
        assert(!in_avoid_area(world, avoids@, adjusted_start));
    }
    let r = search_around(world, avoids, adjusted_start, goal);
    proof {
        if in_avoid_area(world, avoids@, start) {
            assert(chosen_escape(world, avoids@, start, limit as int, adjusted_start));
        }
    }
    r
}

/// Recalculates a path from the first position of `current_path` to `goal`
/// around the square of radius `avoid_radius` around `avoid_position`: a
/// first position inside that square is first moved to the nearest escape
/// (see `chosen_escape`); from there the path goes around the square whenever
/// some walk does, and is the ordinary search otherwise (see
/// `detour_search`); no escape within twice the radius, or an empty
/// `current_path`, gives an empty path.
pub fn recalculate_path_around_position(
    world: &GameWorld,
    current_path: Vec<Position>,
    avoid_position: Position,
    avoid_radius: i32,
    goal: Position,
) -> (r: Vec<Position>)
    requires
        current_path@.len() > 0 ==> safe_position(current_path@[0]),
        safe_bounds(world),
    ensures
        current_path@.len() == 0 ==> r@.len() == 0,
        current_path@.len() > 0 ==> recalculation_result(
            world,
            seq![(avoid_position, avoid_radius)],
            current_path@[0],
            2 * avoid_radius,
            goal,
            r@,
        ),
{
    if current_path.len() == 0 {
        return Vec::new();
    }
    let start = current_path[0];
    let mut avoids: Vec<(Position, i32)> = Vec::new();
    avoids.push((avoid_position, avoid_radius));
    assert(avoids@ =~= seq![(avoid_position, avoid_radius)]);
    recalculate_from(world, &avoids, start, 2 * (avoid_radius as i64), goal)
}

/// The largest avoid radius, or 1 when there are none.
pub open spec fn max_radius(avoids: Seq<(Position, i32)>) -> int
    decreases avoids.len(),
{
    if avoids.len() == 0 {
        1
    } else if avoids.len() == 1 {
        avoids[0].1 as int
    } else {
        let m = max_radius(avoids.drop_last());
        if avoids.last().1 > m { avoids.last().1 as int } else { m }
    }
}

/// `r` is what a recalculation of `current` around `avoids` gives: nothing for
/// an empty path, otherwise the recalculation from its first position, whose
/// search for an escape gives up beyond twice the largest radius.
pub open spec fn detour_result(
    world: &GameWorld,
    current: Seq<Position>,
    avoids: Seq<(Position, i32)>,
    goal: Position,
    r: Seq<Position>,
) -> bool {
    &&& current.len() == 0 ==> r.len() == 0
    &&& current.len() > 0 ==> recalculation_result(world, avoids, current[0], 2 * max_radius(avoids), goal, r)
}

/// A recalculated path is made of safe positions.
pub proof fn lemma_detour_safe(
    world: &GameWorld,
    current: Seq<Position>,
    avoids: Seq<(Position, i32)>,
    goal: Position,
    r: Seq<Position>,
)
    requires
        safe_bounds(world),
        detour_result(world, current, avoids, goal, r),
    ensures
        all_safe(r),
{
    if r.len() > 0 {
        let s = current[0];
        let limit = 2 * max_radius(avoids);
        if !in_avoid_area(world, avoids, s) {
            lemma_detour_search_safe(world, avoids, s, goal, r);
        } else if exists|c: Position| #[trigger] chosen_escape(world, avoids, s, limit, c) && detour_search(world, avoids, c, goal, r) {
            let c = choose|c: Position| #[trigger] chosen_escape(world, avoids, s, limit, c) && detour_search(world, avoids, c, goal, r);
            lemma_detour_search_safe(world, avoids, c, goal, r);
        }
    }
}

/// Like `recalculate_path_around_position`, for several areas at once: the
/// path goes around all of them whenever some walk does; the search for an
/// escape gives up beyond twice the largest radius.
pub fn recalculate_path_around_multiple_positions(
    world: &GameWorld,
    current_path: Vec<Position>,
    avoid_positions: Vec<(Position, i32)>,
    goal: Position,
) -> (r: Vec<Position>)
    requires
        current_path@.len() > 0 ==> safe_position(current_path@[0]),
        safe_bounds(world),
    ensures
        detour_result(world, current_path@, avoid_positions@, goal, r@),
{
    if current_path.len() == 0 {
        return Vec::new();
    }
    let start = current_path[0];
    let mut max_r: i32 = 1;
    let mut i: usize = 0;
    while i < avoid_positions.len()
        invariant
            0 <= i <= avoid_positions@.len(),
            i > 0 ==> max_r == max_radius(avoid_positions@.take(i as int)),
            i == 0 ==> max_r == 1,
        decreases avoid_positions@.len() - i,
    {
        let radius = avoid_positions[i].1;
        assert(avoid_positions@.take(i as int + 1).drop_last() =~= avoid_positions@.take(i as int));
        if i == 0 || radius > max_r {
            max_r = radius;
        }
        i = i + 1;
    }
    assert(avoid_positions@.take(i as int) =~= avoid_positions@);
    recalculate_from(world, &avoid_positions, start, 2 * (max_r as i64), goal)
}

} // verus!
