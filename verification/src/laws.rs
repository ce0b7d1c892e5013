use vstd::prelude::*;
use crate::gameworld::position::{Position, manhattan};
use crate::npcs::agent::{AgentView, remember, remove_first, reward_added, reward_removed};
use crate::npcs::npc_action::{NpcAction, all_actions};
use crate::npcs::npc_base::{NPCBase, energy_added};
use crate::npcs::npc_status::Status;
use crate::system::mcst_system::expansion::expand_all;
use crate::system::mcst_tree::mcst_node::{NodeType, NodeView};
use crate::system::mcst_tree::mcst_tree::{
    MCTSTree, action_child, arena_wf, backprop, backprop_fits, depth_step, depth_update, depths_only, expanded,
    forward_from, has_child_spec, is_first_action_child, lemma_depth_update_frame, lemma_depth_update_tree,
    lemma_fits_frame, lemma_reach_bounded, lemma_reach_monotone, listed_once_from, reaches_within, same_before,
};
use crate::system::mcst_system::selection::selected_child;
use crate::gameworld::tile::Tile as MapTile;
use crate::gameworld::tile_types::TileType as MapTileType;
use crate::gameworld::world::{
    GameWorld, char_tile_type, closest_pairs, distinct_positions, is_closest_other, is_first_index, lemma_closest_other_exists,
    lemma_closest_pairs_cover, lemma_village_positions_cover, map_tiles, row_tiles, village_positions,
};
use crate::movement::{grid_reachable, grid_reaches, grid_step, in_grid, lemma_grid_walk_prepend};
use crate::tile::Tile;
use crate::pathfinding::{
    avoids_areas, in_avoid_area, is_adjacent, is_walk, passable, reachable_avoiding, recalculation_result, reaches,
    search_result,
};
use crate::system::simulation::handle_npc_movement::{step_along, walk};
use crate::system::simulation::handle_selected_action::near;
use crate::tile::TileType;
use crate::world::{
    changes_explained, lemma_sweep_rows_explained, lemma_sweep_rows_narrows, lemma_sweep_rows_settled, settled_cell,
    spawns_narrowed, spawns_settled, sweep_rows,
};

verus! {

/// Being next to a target is symmetric: `a` is within `d` tiles of `b` exactly
/// when `b` is within `d` tiles of `a`.
pub proof fn law_next_to_target_symmetric(a: Position, b: Position, d: int)
    ensures
        near(a, b, d) == near(b, a, d),
{
}

/// An agent never keeps more than 50 memories: remembering something puts it
/// first, and keeps all earlier memories but, at the limit, the oldest.
pub proof fn law_memory_bounded(m: Seq<(i32, NpcAction)>, agent_id: i32, action: NpcAction)
    requires
        m.len() <= 50,
    ensures
        remember(m, agent_id, action).len() <= 50,
        remember(m, agent_id, action)[0] == (agent_id, action),
        m.len() < 50 ==> remember(m, agent_id, action) == seq![(agent_id, action)] + m,
        m.len() == 50 ==> remember(m, agent_id, action) == seq![(agent_id, action)] + m.drop_last(),
{
    if m.len() == 50 {
        assert((seq![(agent_id, action)] + m).drop_last() =~= seq![(agent_id, action)] + m.drop_last());
    }
}

/// Taking away a reward that was just added gives back the agent as it was.
pub proof fn law_reward_round_trip(v: AgentView, x: u32)
    requires
        v.reward + x <= u32::MAX,
    ensures
        reward_removed(reward_added(v, x), x) == v,
{
}

/// Removing a follower that was just added, and that the agent did not have
/// before, gives back the followers as they were.
pub proof fn law_follower_round_trip(followers: Seq<i32>, x: i32)
    requires
        !followers.contains(x),
    ensures
        remove_first(followers + seq![x], x) == followers,
{
    let s = followers + seq![x];
    let n = followers.len() as int;
    assert(s[n] == x);
    assert forall|k: int| 0 <= k < n implies s[k] != x by {
        assert(s[k] == followers[k]);
    }
    let i = choose|i: int| 0 <= i < s.len() && s[i] == x && forall|k: int| 0 <= k < i ==> s[k] != x;
    assert(0 <= i < s.len() && s[i] == x);
    if i < n {
        assert(s[i] == followers[i]);
    }
    assert(s.remove(n) =~= followers);
}

/// Energy never goes above the maximum: adding energy to an NPC within its
/// maximum leaves it within its maximum.
pub proof fn law_energy_capped(b: NPCBase, e: u32)
    requires
        b.energy <= b.max_energy,
        b.energy + e <= u32::MAX,
    ensures
        energy_added(b, e).energy <= energy_added(b, e).max_energy,
        energy_added(b, e).energy >= b.energy,
{
}

/// Recording an agent that was not there and then removing it gives back the
/// map of agents as it was.
pub proof fn law_agent_record_round_trip(m: Map<u32, (usize, usize)>, id: u32, pos: (usize, usize))
    requires
        !m.contains_key(id),
    ensures
        m.insert(id, pos).remove(id) == m,
        m.insert(id, pos)[id] == pos,
{
    assert(m.insert(id, pos).remove(id) =~= m);
}

/// A moving agent that follows its whole path ends on the path's last
/// position, idle, with an empty path.
pub proof fn law_walk_to_end(a: AgentView, b: NPCBase)
    requires
        a.status == Status::Moving,
        a.path matches Some(p) && p.len() > 0,
    ensures
        walk(a, b, a.path.unwrap().len()) == (
            AgentView { path: Some(Seq::<Position>::empty()), status: Status::Idle, ..a },
            NPCBase { position: a.path.unwrap().last(), ..b },
        ),
    decreases a.path.unwrap().len(),
{
    let p = a.path.unwrap();
    let (a1, b1) = step_along(a, b);
    if p.len() == 1 {
        assert(p.skip(1) =~= Seq::<Position>::empty());
        assert(walk(a1, b1, 0) == (a1, b1));
    } else {
        assert(a1.path == Some(p.skip(1)));
        law_walk_to_end(a1, b1);
        assert(p.skip(1).last() == p.last());
        assert(p.skip(1).len() == p.len() - 1);
    }
}

/// Expansion leaves every earlier node type and every earlier child of node
/// `n` in place.
proof fn lemma_expanded_keeps(a: Seq<NodeView>, n: int, action: NpcAction, t: NodeType)
    requires
        arena_wf(a),
        0 <= n < a.len(),
        a.len() + 2 <= usize::MAX,
        has_child_spec(a, n, t),
    ensures
        has_child_spec(expanded(a, n, action), n, t),
        arena_wf(expanded(a, n, action)),
        expanded(a, n, action).len() == a.len() + 2,
{
    let a2 = expanded(a, n, action);
    let j = choose|j: int| 0 <= j < a[n].children.len() && #[trigger] a[a[n].children[j] as int].node_type == t;
    let c = a[n].children[j] as int;
    assert(a2[n].children[j] == a[n].children[j]);
    assert(a2[c].node_type == a[c].node_type);
    assert(a2[a2[n].children[j] as int].node_type == t);
    lemma_expanded_wf(a, n, action);
}

proof fn lemma_expanded_wf(a: Seq<NodeView>, n: int, action: NpcAction)
    requires
        arena_wf(a),
        0 <= n < a.len(),
        a.len() + 2 <= usize::MAX,
    ensures
        arena_wf(expanded(a, n, action)),
        expanded(a, n, action).len() == a.len() + 2,
        has_child_spec(expanded(a, n, action), n, NodeType::ActionNode { action }),
{
    let a2 = expanded(a, n, action);
    assert forall|i: int| 0 <= i < a2.len() implies match (#[trigger] a2[i]).parent {
        Some(p) => p < i,
        None => true,
    } by {
        if i < a.len() {
            assert(a2[i].parent == a[i].parent);
        } else if i == a.len() {
            assert(a2[i] == a[n]);
        }
    }
    assert forall|i: int, j: int| 0 <= i < a2.len() && 0 <= j < a2[i].children.len() implies (#[trigger] a2[i].children[j]) < a2.len() by {
        if i == n {
            if j < a[n].children.len() {
                assert(a2[i].children[j] == a[n].children[j]);
            }
        } else if i < a.len() {
            assert(a2[i] == a[i]);
        } else if i == a.len() {
            assert(a2[i] == a[n]);
        }
    }
    let k = a[n].children.len() as int;
    assert(a2[n].children[k] == (a.len() + 1) as usize);
    assert(((a.len() + 1) as usize) as int == a.len() + 1);
    assert(a2[a.len() + 1int].node_type == NodeType::ActionNode { action });
    assert(a2[a2[n].children[k] as int].node_type == NodeType::ActionNode { action });
}

/// After the first `k` actions of `acts` are expanded, node `n` has an action
/// node for each of them.
proof fn lemma_expand_all_covers(a: Seq<NodeView>, n: int, acts: Seq<NpcAction>, k: int)
    requires
        arena_wf(a),
        0 <= n < a.len(),
        0 <= k <= acts.len(),
        a.len() + 2 * k <= usize::MAX,
    ensures
        arena_wf(expand_all(a, n, acts, k)),
        a.len() <= expand_all(a, n, acts, k).len() <= a.len() + 2 * k,
        forall|j: int|
            0 <= j < k ==> has_child_spec(expand_all(a, n, acts, k), n, NodeType::ActionNode { action: #[trigger] acts[j] }),
    decreases k,
{
    if k > 0 {
        lemma_expand_all_covers(a, n, acts, k - 1);
        let a1 = expand_all(a, n, acts, k - 1);
        let t = NodeType::ActionNode { action: acts[k - 1] };
        if !has_child_spec(a1, n, t) {
            lemma_expanded_wf(a1, n, acts[k - 1]);
            assert forall|j: int| 0 <= j < k implies has_child_spec(expand_all(a, n, acts, k), n, NodeType::ActionNode { action: #[trigger] acts[j] }) by {
                if j < k - 1 {
                    lemma_expanded_keeps(a1, n, acts[k - 1], NodeType::ActionNode { action: acts[j] });
                }
            }
        }
    }
}

/// Expanding a node gives it an action node for every action.
pub proof fn law_expansion_covers_all_actions(a: Seq<NodeView>, n: int)
    requires
        arena_wf(a),
        0 <= n < a.len(),
        a.len() + 14 <= usize::MAX,
    ensures
        forall|j: int|
            0 <= j < all_actions().len() ==> has_child_spec(
                expand_all(a, n, all_actions(), all_actions().len() as int),
                n,
                NodeType::ActionNode { action: #[trigger] all_actions()[j] },
            ),
{
    lemma_expand_all_covers(a, n, all_actions(), all_actions().len() as int);
}

/// Propagating a reward up from a node changes no node after it.
proof fn lemma_backprop_frame(a: Seq<NodeView>, i: int, reward: int)
    requires
        0 <= i < a.len(),
    ensures
        backprop(a, i, reward).len() == a.len(),
        forall|k: int| i < k < a.len() ==> #[trigger] backprop(a, i, reward)[k] == a[k],
    decreases i,
{
    let n = a[i];
    let v = n.visits + 1;
    let a1 = a.update(i, NodeView { visits: v as usize, total_reward: (n.total_reward + reward) as u32, ..n });
    match n.parent {
        Some(p) => if 0 <= p < i {
            lemma_backprop_frame(a1, p as int, reward / v);
        },
        None => {},
    }
}

/// Propagating a reward up from a node counts one more visit of that node and
/// adds the full reward to it.
pub proof fn law_backprop_counts_visit(a: Seq<NodeView>, i: int, reward: int)
    requires
        0 <= i < a.len(),
        a[i].visits + 1 <= usize::MAX,
        0 <= a[i].total_reward + reward <= u32::MAX,
    ensures
        backprop(a, i, reward).len() == a.len(),
        backprop(a, i, reward)[i].visits == a[i].visits + 1,
        backprop(a, i, reward)[i].total_reward == a[i].total_reward + reward,
{
    let n = a[i];
    let v = n.visits + 1;
    let a1 = a.update(i, NodeView { visits: v as usize, total_reward: (n.total_reward + reward) as u32, ..n });
    match n.parent {
        Some(p) => if 0 <= p < i {
            lemma_backprop_frame(a1, p as int, reward / v);
            assert(backprop(a1, p as int, reward / v)[i] == a1[i]);
        },
        None => {},
    }
}

/// Node `k` lies on the way from node `i` up to its root.
pub open spec fn on_chain(a: Seq<NodeView>, i: int, k: int) -> bool
    decreases i,
{
    k == i || match a[i].parent {
        Some(p) => 0 <= p < i && on_chain(a, p as int, k),
        None => false,
    }
}

proof fn lemma_chain_below(a: Seq<NodeView>, i: int, k: int)
    requires
        on_chain(a, i, k),
    ensures
        k <= i,
    decreases i,
{
    if k != i {
        let p = a[i].parent.unwrap();
        lemma_chain_below(a, p as int, k);
    }
}

proof fn lemma_chain_frame(a: Seq<NodeView>, b: Seq<NodeView>, i: int, k: int)
    requires
        0 <= i < a.len(),
        a.len() == b.len(),
        forall|j: int| 0 <= j <= i ==> (#[trigger] a[j]).parent == b[j].parent,
    ensures
        on_chain(a, i, k) == on_chain(b, i, k),
    decreases i,
{
    match a[i].parent {
        Some(p) => if 0 <= p < i {
            lemma_chain_frame(a, b, p as int, k);
        },
        None => {},
    }
}

/// Propagating a reward up from node `i` counts one more visit of every node
/// on the way from `i` up to its root, and of no other node.
pub proof fn law_backprop_visits_chain(a: Seq<NodeView>, i: int, reward: int, k: int)
    requires
        0 <= i < a.len(),
        0 <= k < a.len(),
        backprop_fits(a, i, reward),
    ensures
        backprop(a, i, reward)[k].visits == a[k].visits + if on_chain(a, i, k) { 1int } else { 0int },
    decreases i,
{
    let n = a[i];
    let v = n.visits + 1;
    let a1 = a.update(i, NodeView { visits: v as usize, total_reward: (n.total_reward + reward) as u32, ..n });
    lemma_backprop_frame(a, i, reward);
    match n.parent {
        Some(p) => if 0 <= p < i {
            lemma_fits_parent(a, a1, i, reward);
            law_backprop_visits_chain(a1, p as int, reward / v, k);
            lemma_chain_frame(a, a1, p as int, k);
            if k == i {
                if on_chain(a1, p as int, k) {
                    lemma_chain_below(a1, p as int, k);
                }
            }
        },
        None => {},
    }
}

proof fn lemma_fits_parent(a: Seq<NodeView>, a1: Seq<NodeView>, i: int, reward: int)
    requires
        0 <= i < a.len(),
        backprop_fits(a, i, reward),
        a1 == a.update(i, NodeView {
            visits: (a[i].visits + 1) as usize,
            total_reward: (a[i].total_reward + reward) as u32,
            ..a[i]
        }),
        a[i].parent matches Some(p) && 0 <= p < i,
    ensures
        backprop_fits(a1, a[i].parent.unwrap() as int, reward / (a[i].visits + 1)),
{
    let p = a[i].parent.unwrap() as int;
    lemma_fits_frame(a, a1, p, reward / (a[i].visits + 1));
}

/// The child that selection moves to is a child of the node it starts from,
/// and an action node for the action the scores picked.
pub proof fn law_selected_child_is_child(t: MCTSTree, n: usize, best: Option<NpcAction>)
    requires
        selected_child(t, n, best) is Some,
    ensures
        exists|j: int|
            0 <= j < t.arena()[n as int].children.len() && #[trigger] t.arena()[n as int].children[j]
                == selected_child(t, n, best).unwrap(),
        t.arena()[selected_child(t, n, best).unwrap() as int].node_type == (NodeType::ActionNode {
            action: best.unwrap(),
        }),
{
    let a = t.arena();
    let b = best.unwrap();
    let j = choose|j: int| is_first_action_child(a, n as int, b, j);
    assert(is_first_action_child(a, n as int, b, j));
    assert(action_child(a, n as int, b) == Some(a[n as int].children[j]));
}

/// Setting the valid spawns keeps every tile type, never allows spawning
/// where it was forbidden, changes it only on villages, mountains and lakes
/// and within 5 tiles of a village, and leaves no village, mountain or lake
/// that allows it; so setting them a second time changes nothing.
pub proof fn law_valid_spawns_settle(a: Seq<Seq<(TileType, bool)>>)
    ensures
        spawns_narrowed(a, sweep_rows(a, a.len() as int)),
        changes_explained(a, sweep_rows(a, a.len() as int)),
        spawns_settled(sweep_rows(a, a.len() as int)),
        sweep_rows(sweep_rows(a, a.len() as int), a.len() as int) == sweep_rows(a, a.len() as int),
{
    let s = sweep_rows(a, a.len() as int);
    lemma_sweep_rows_narrows(a, a.len() as int);
    lemma_sweep_rows_explained(a, a.len() as int);
    assert forall|rr: int, cc: int| 0 <= rr < s.len() && 0 <= cc < s[rr].len() implies #[trigger] settled_cell(
        s,
        rr,
        cc,
    ) by {
        assert(s[rr].len() == a[rr].len());
    }
    lemma_sweep_rows_settled(s, a.len() as int);
}

/// Updating the depths under a node of a tree (where, from that node on,
/// children come after their parents and no node is listed twice as a
/// child) changes nothing but depths and nothing outside the node's subtree,
/// puts the node one level below its parent if it is an action node (on its
/// parent's level otherwise), and puts every node of the subtree one level
/// below its parent if it is an action node, on its parent's level otherwise.
pub proof fn law_update_depth(a: Seq<NodeView>, i: int, parent_depth: int)
    requires
        arena_wf(a),
        0 <= i < a.len(),
        forward_from(a, i),
        listed_once_from(a, i),
        0 <= parent_depth,
        parent_depth + a.len() <= u32::MAX,
    ensures
        depths_only(a, depth_update(a, i, parent_depth, a.len())),
        same_before(a, depth_update(a, i, parent_depth, a.len()), i),
        depth_update(a, i, parent_depth, a.len())[i].depth == parent_depth + depth_step(a[i]),
        forall|x: int|
            0 <= x < a.len() && !reaches_within(a, i, x, a.len()) ==> #[trigger] depth_update(a, i, parent_depth, a.len())[x]
                == a[x],
        forall|p: int, n: nat, j: int|
            #![trigger reaches_within(a, i, p, n), a[p].children[j]]
            0 <= p < a.len() && reaches_within(a, i, p, n) && 0 <= j < a[p].children.len() ==> depth_update(
                a,
                i,
                parent_depth,
                a.len(),
            )[a[p].children[j] as int].depth == depth_update(a, i, parent_depth, a.len())[p].depth + depth_step(
                a[a[p].children[j] as int],
            ),
{
    lemma_depth_update_frame(a, i, parent_depth, a.len());
    lemma_depth_update_tree(a, i, parent_depth, a.len());
    assert forall|p: int, n: nat, j: int|
        #![trigger reaches_within(a, i, p, n), a[p].children[j]]
        0 <= p < a.len() && reaches_within(a, i, p, n) && 0 <= j < a[p].children.len() implies depth_update(
        a,
        i,
        parent_depth,
        a.len(),
    )[a[p].children[j] as int].depth == depth_update(a, i, parent_depth, a.len())[p].depth + depth_step(
        a[a[p].children[j] as int],
    ) by {
        lemma_reach_bounded(a, i, i, p, n);
        let c = a[p].children[j] as int;
        assert(c > p && c < a.len());
        lemma_reach_monotone(a, i, p, (p - i) as nat, (a.len() - 2) as nat);
    }
}

/// A recalculated path goes around the avoided areas: from a start outside
/// them, whenever some walk leads to the goal without entering them, the
/// path is not empty, ends at the goal and enters none of them.
pub proof fn law_recalculation_goes_around(
    world: &GameWorld,
    avoids: Seq<(Position, i32)>,
    start: Position,
    limit: int,
    goal: Position,
    r: Seq<Position>,
)
    requires
        recalculation_result(world, avoids, start, limit, goal, r),
        !in_avoid_area(world, avoids, start),
        start != goal,
        reachable_avoiding(world, avoids, start, goal),
    ensures
        r.len() > 0,
        r.last() == goal,
        reaches(world, start, r, goal),
        avoids_areas(world, avoids, r),
{
}

/// Every tile of the grid can be entered, so from a tile of the grid every
/// other tile of the grid is reached: across, then along.
proof fn lemma_grid_reachable_on_grid(grid: Seq<Vec<Tile>>, s: Position, e: Position)
    requires
        in_grid(grid, s),
        in_grid(grid, e),
        s != e,
    ensures
        grid_reachable(grid, s, e),
    decreases manhattan(s, e),
{
    let next = if s.x < e.x {
        Position { x: (s.x + 1) as i32, y: s.y }
    } else if s.x > e.x {
        Position { x: (s.x - 1) as i32, y: s.y }
    } else if s.y < e.y {
        Position { x: s.x, y: (s.y + 1) as i32 }
    } else {
        Position { x: s.x, y: (s.y - 1) as i32 }
    };
    assert(grid_step(grid, s, next));
    if next == e {
        let path = seq![e];
        assert(grid_reaches(grid, s, path, e));
    } else {
        lemma_grid_reachable_on_grid(grid, next, e);
        let rest = choose|path: Seq<Position>| #[trigger] grid_reaches(grid, next, path, e);
        lemma_grid_walk_prepend(grid, s, next, rest);
        let path = seq![next] + rest;
        assert(path.last() == rest.last());
        assert(grid_reaches(grid, s, path, e));
    }
}

/// No grid walk ends off the grid.
proof fn lemma_grid_unreachable_off_grid(grid: Seq<Vec<Tile>>, s: Position, e: Position)
    requires
        !in_grid(grid, e),
    ensures
        !grid_reachable(grid, s, e),
{
    if grid_reachable(grid, s, e) {
        let path = choose|path: Seq<Position>| #[trigger] grid_reaches(grid, s, path, e);
        let n = path.len() - 1;
        assert(grid_step(grid, if n == 0 { s } else { path[n - 1] }, path[n]));
    }
}

/// From a tile of the grid, a grid path to another position exists exactly
/// when that position is a tile of the grid: every tile can be entered.
pub proof fn law_grid_path_exists_on_grid(grid: Seq<Vec<Tile>>, s: Position, e: Position)
    requires
        in_grid(grid, s),
        s != e,
    ensures
        grid_reachable(grid, s, e) <==> in_grid(grid, e),
{
    if in_grid(grid, e) {
        lemma_grid_reachable_on_grid(grid, s, e);
    } else {
        lemma_grid_unreachable_off_grid(grid, s, e);
    }
}

/// Every entry of the tiles of a map is the tile a character of it stands
/// for, at the character's column and row.
proof fn lemma_map_tiles_entry(rows: Seq<Seq<char>>, i: int)
    requires
        0 <= i < map_tiles(rows).len(),
    ensures
        exists|y: int, x: int|
            #![trigger rows[y][x]]
            0 <= y < rows.len() && 0 <= x < rows[y].len() && map_tiles(rows)[i] == (
                Position { x: x as i32, y: y as i32 },
                MapTile { tile_type: char_tile_type(rows[y][x]) },
            ),
    decreases rows.len(),
{
    let front = rows.drop_last();
    let n = map_tiles(front).len();
    assert(map_tiles(rows) == map_tiles(front) + row_tiles(rows.last(), rows.len() - 1));
    if i < n {
        lemma_map_tiles_entry(front, i);
        let (y, x) = choose|y: int, x: int|
            #![trigger front[y][x]]
            0 <= y < front.len() && 0 <= x < front[y].len() && map_tiles(front)[i] == (
                Position { x: x as i32, y: y as i32 },
                MapTile { tile_type: char_tile_type(front[y][x]) },
            );
        assert(rows[y] == front[y]);
        assert(rows[y][x] == front[y][x]);
        assert(map_tiles(rows)[i] == map_tiles(front)[i]);
    } else {
        let y = rows.len() - 1;
        let x = i - n;
        assert(rows[y] == rows.last());
        assert(map_tiles(rows)[i] == row_tiles(rows.last(), rows.len() - 1)[x]);
        assert(rows[y][x] == rows.last()[x]);
    }
}

/// Every character of a map has its tile among the tiles of the map.
proof fn lemma_map_tiles_cover(rows: Seq<Seq<char>>, y: int, x: int)
    requires
        0 <= y < rows.len(),
        0 <= x < rows[y].len(),
    ensures
        exists|i: int|
            0 <= i < map_tiles(rows).len() && #[trigger] map_tiles(rows)[i] == (
                Position { x: x as i32, y: y as i32 },
                MapTile { tile_type: char_tile_type(rows[y][x]) },
            ),
    decreases rows.len(),
{
    let front = rows.drop_last();
    let n = map_tiles(front).len();
    if y == rows.len() - 1 {
        assert(map_tiles(rows)[n + x] == (
            Position { x: x as i32, y: y as i32 },
            MapTile { tile_type: char_tile_type(rows[y][x]) },
        ));
    } else {
        assert(front[y] == rows[y]);
        lemma_map_tiles_cover(front, y, x);
        let i = choose|i: int|
            0 <= i < map_tiles(front).len() && #[trigger] map_tiles(front)[i] == (
                Position { x: x as i32, y: y as i32 },
                MapTile { tile_type: char_tile_type(front[y][x]) },
            );
        assert(map_tiles(rows)[i] == map_tiles(front)[i]);
    }
}

/// A world made from a map has, at column `x` of row `y`, the tile that the
/// character there stands for, and no tile anywhere else.
pub proof fn law_world_from_map(w: &GameWorld, rows: Seq<Seq<char>>)
    requires
        w.tiles@ == map_tiles(rows),
        w.wf(),
        rows.len() <= i32::MAX,
        forall|r: int| 0 <= r < rows.len() ==> #[trigger] rows[r].len() <= i32::MAX,
    ensures
        forall|y: int, x: int|
            0 <= y < rows.len() && 0 <= x < rows[y].len() ==> w.tile_type_at(Position { x: x as i32, y: y as i32 })
                == Some(char_tile_type(#[trigger] rows[y][x])),
        forall|p: Position| #[trigger] w.has_position(p) ==> 0 <= p.y < rows.len() && 0 <= p.x < rows[p.y as int].len(),
{
    let s = w.tiles@;
    assert forall|y: int, x: int| 0 <= y < rows.len() && 0 <= x < rows[y].len() implies w.tile_type_at(
        Position { x: x as i32, y: y as i32 },
    ) == Some(char_tile_type(#[trigger] rows[y][x])) by {
        lemma_map_tiles_cover(rows, y, x);
        let p = Position { x: x as i32, y: y as i32 };
        let i = choose|i: int|
            0 <= i < map_tiles(rows).len() && #[trigger] map_tiles(rows)[i] == (
                p,
                MapTile { tile_type: char_tile_type(rows[y][x]) },
            );
        assert forall|j: int| 0 <= j < i implies s[j].0 != p by {
            assert(distinct_positions(s));
        }
        assert(is_first_index(s, p, i));
        w.lemma_first_index(p, i);
    }
    assert forall|p: Position| #[trigger] w.has_position(p) implies 0 <= p.y < rows.len() && 0 <= p.x < rows[p.y as int].len() by {
        let i = choose|i: int| 0 <= i < s.len() && s[i].0 == p;
        lemma_map_tiles_entry(rows, i);
        let (y, x) = choose|y: int, x: int|
            #![trigger rows[y][x]]
            0 <= y < rows.len() && 0 <= x < rows[y].len() && map_tiles(rows)[i] == (
            Position { x: x as i32, y: y as i32 },
            MapTile { tile_type: char_tile_type(rows[y][x]) },
        );
        assert(rows[y].len() <= i32::MAX);
        assert(p.x == x && p.y == y);
    }
}

/// Every village of a world that has another village somewhere else is paired
/// with its closest other village in what `find_closest_villages` gives.
pub proof fn law_closest_villages_cover(tiles: Seq<(Position, MapTile)>, i: int, j: int)
    requires
        0 <= i < tiles.len(),
        0 <= j < tiles.len(),
        tiles[i].1.tile_type == MapTileType::Village,
        tiles[j].1.tile_type == MapTileType::Village,
        tiles[i].0 != tiles[j].0,
    ensures
        exists|a: int, k: int|
            #![trigger village_positions(tiles)[a], village_positions(tiles)[k]]
            0 <= a < village_positions(tiles).len() && village_positions(tiles)[a] == tiles[i].0 && is_closest_other(
                village_positions(tiles),
                a,
                k,
            ) && closest_pairs(village_positions(tiles), village_positions(tiles).len() as int).contains(
                (tiles[i].0, village_positions(tiles)[k]),
            ),
{
    let vs = village_positions(tiles);
    lemma_village_positions_cover(tiles, i);
    lemma_village_positions_cover(tiles, j);
    let a = choose|a: int| 0 <= a < vs.len() && vs[a] == tiles[i].0;
    let b = choose|b: int| 0 <= b < vs.len() && vs[b] == tiles[j].0;
    lemma_closest_other_exists(vs, a, b);
    let k = choose|k: int| #[trigger] is_closest_other(vs, a, k);
    lemma_closest_pairs_cover(vs, vs.len() as int, a, k);
    assert(vs[a] == tiles[i].0 && vs[k] == vs[k]);
}

/// `path` goes from `from` over map tiles: each position is next to the one
/// before (diagonals included), lies in the bounding box, and holds a tile of
/// the map that is not a lake.
pub open spec fn map_walk(world: &GameWorld, from: Position, path: Seq<Position>) -> bool {
    forall|i: int|
        0 <= i < path.len() ==> is_adjacent(if i == 0 { from } else { path[i - 1] }, #[trigger] path[i])
            && world.in_bounds(path[i]) && match world.tile_type_at(path[i]) {
            Some(t) => t != MapTileType::Lake,
            None => false,
        }
}

proof fn lemma_walk_is_map_walk(world: &GameWorld, from: Position, path: Seq<Position>)
    ensures
        is_walk(world, from, path) == map_walk(world, from, path),
{
    reveal(passable);
}

/// The search finds nothing exactly when no walk over map tiles leads from
/// the start to a different goal, and what it finds is such a walk.
pub proof fn law_search_follows_map_tiles(world: &GameWorld, from: Position, goal: Position, r: Seq<Position>)
    requires
        search_result(world, from, goal, r),
        from != goal,
    ensures
        r.len() == 0 <==> !exists|path: Seq<Position>|
            path.len() > 0 && path.last() == goal && #[trigger] map_walk(world, from, path),
        r.len() > 0 ==> map_walk(world, from, r) && r.last() == goal,
{
    lemma_walk_is_map_walk(world, from, r);
    if exists|path: Seq<Position>| path.len() > 0 && path.last() == goal && #[trigger] map_walk(world, from, path) {
        let path = choose|path: Seq<Position>| path.len() > 0 && path.last() == goal && #[trigger] map_walk(world, from, path);
        lemma_walk_is_map_walk(world, from, path);
        assert(reaches(world, from, path, goal));
    }
    if r.len() > 0 {
        assert(r.len() > 0 && r.last() == goal && map_walk(world, from, r));
    }
}

} // verus!
