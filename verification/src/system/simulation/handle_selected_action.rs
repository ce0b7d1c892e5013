use vstd::prelude::*;
use crate::gameworld::position::{Position, abs_diff, manhattan, manhattan_distance};
use crate::gameworld::tile_types::TileType;
use crate::gameworld::world::{GameWorld, closest_of_type};
use crate::npcs::agent::{Agent, AgentView};
use crate::npcs::monster::Monster;
use crate::npcs::npc_action::{NpcAction, WorkType};
use crate::npcs::npc_base::NPCBase;
use crate::npcs::npc_status::Status;
use crate::npcs::target::Target;
use crate::npcs::treasure::Treasure;
use crate::pathfinding::{
    a_star_pathfinding, a_star_with_current_path, continuation_result, detour_result, ends_safe,
    lemma_continuation_ends_safe, lemma_detour_safe, lemma_search_result_safe,
    recalculate_path_around_multiple_positions, safe_bounds, safe_position, search_result,
};

verus! {

/// `a` is within `d` tiles of `b` along both axes.
pub open spec fn near(a: Position, b: Position, d: int) -> bool {
    abs_diff(a.x as int, b.x as int) <= d && abs_diff(a.y as int, b.y as int) <= d
}

/// The current position is within `distance_in_tiles` tiles of the target
/// along both axes.
pub fn is_next_to_target(current_position: Position, target_position: Position, distance_in_tiles: i32) -> (b: bool)
    ensures
        b == near(current_position, target_position, distance_in_tiles as int),
{
    let dx = current_position.x as i64 - target_position.x as i64;
    let dy = current_position.y as i64 - target_position.y as i64;
    let adx = if dx < 0 { -dx } else { dx };
    let ady = if dy < 0 { -dy } else { dy };
    adx <= distance_in_tiles as i64 && ady <= distance_in_tiles as i64
}

/// The index of the first occurrence of `x` in `s`, if any.
pub open spec fn index_of_first(s: Seq<i32>, x: i32) -> Option<int> {
    if exists|i: int| 0 <= i < s.len() && s[i] == x && forall|k: int| 0 <= k < i ==> s[k] != x {
        Some(choose|i: int| 0 <= i < s.len() && s[i] == x && forall|k: int| 0 <= k < i ==> s[k] != x)
    } else {
        None
    }
}

/// The first index of `x` is the one before which `x` does not occur.
pub proof fn lemma_index_of_first(s: Seq<i32>, x: i32, i: int)
    requires
        0 <= i < s.len(),
        s[i] == x,
        forall|k: int| 0 <= k < i ==> s[k] != x,
    ensures
        index_of_first(s, x) == Some(i),
{
    let j = choose|j: int| 0 <= j < s.len() && s[j] == x && forall|k: int| 0 <= k < j ==> s[k] != x;
    assert(0 <= j < s.len() && s[j] == x && forall|k: int| 0 <= k < j ==> s[k] != x);
    if j < i {
        assert(s[j] != x);
    } else if i < j {
        assert(s[i] != x);
    }
}

/// The ids of the agents, in order.
pub open spec fn agent_ids(refs: Seq<(Position, Agent, NPCBase)>) -> Seq<i32> {
    refs.map_values(|r: (Position, Agent, NPCBase)| r.1@.id)
}

/// The ids of the monsters, in order.
pub open spec fn monster_ids(refs: Seq<(Position, Monster, NPCBase)>) -> Seq<i32> {
    refs.map_values(|r: (Position, Monster, NPCBase)| r.1@.id)
}

/// The ids of the treasures, in order.
pub open spec fn treasure_ids(refs: Seq<(Position, Treasure, NPCBase)>) -> Seq<i32> {
    refs.map_values(|r: (Position, Treasure, NPCBase)| r.1.id_spec())
}

/// The positions of the monsters, in order.
pub open spec fn monster_positions(refs: Seq<(Position, Monster, NPCBase)>) -> Seq<Position> {
    refs.map_values(|r: (Position, Monster, NPCBase)| r.0)
}

/// The positions of the treasures, in order.
pub open spec fn treasure_positions(refs: Seq<(Position, Treasure, NPCBase)>) -> Seq<Position> {
    refs.map_values(|r: (Position, Treasure, NPCBase)| r.0)
}

/// `k` is the first index of a position at the smallest Manhattan distance from `from`.
pub open spec fn is_nearest(ps: Seq<Position>, from: Position, k: int) -> bool {
    &&& 0 <= k < ps.len()
    &&& forall|j: int| 0 <= j < ps.len() ==> manhattan(from, ps[k]) <= manhattan(from, #[trigger] ps[j])
    &&& forall|j: int| 0 <= j < k ==> manhattan(from, ps[k]) < manhattan(from, #[trigger] ps[j])
}

/// The index of the first position nearest to `from`, if there is any position.
pub open spec fn nearest_index(ps: Seq<Position>, from: Position) -> Option<int> {
    if ps.len() > 0 {
        Some(choose|k: int| is_nearest(ps, from, k))
    } else {
        None
    }
}

pub proof fn lemma_nearest_index(ps: Seq<Position>, from: Position, k: int)
    requires
        is_nearest(ps, from, k),
    ensures
        nearest_index(ps, from) == Some(k),
{
    let c = choose|c: int| is_nearest(ps, from, c);
    assert(is_nearest(ps, from, c));
    if c < k {
        assert(manhattan(from, ps[k]) < manhattan(from, ps[c]));
    } else if k < c {
        assert(manhattan(from, ps[c]) < manhattan(from, ps[k]));
    }
}

/// The index of the first agent with the given id.
fn find_agent(refs: &[(Position, Agent, NPCBase)], id: i32) -> (r: Option<usize>)
    ensures
        match r {
            Some(i) => index_of_first(agent_ids(refs@), id) == Some(i as int) && i < refs@.len(),
            None => index_of_first(agent_ids(refs@), id) is None,
        },
{
    let ghost ids = agent_ids(refs@);
    let mut i: usize = 0;
    while i < refs.len()
        invariant
            0 <= i <= refs@.len(),
            ids == agent_ids(refs@),
            forall|k: int| 0 <= k < i ==> ids[k] != id,
        decreases refs@.len() - i,
    {
        if refs[i].1.get_id() == id {
            proof {
                lemma_index_of_first(ids, id, i as int);
            }
            return Some(i);
        }
        i = i + 1;
    }
    None
}

/// The index of the first monster with the given id.
fn find_monster(refs: &[(Position, Monster, NPCBase)], id: i32) -> (r: Option<usize>)
    ensures
        match r {
            Some(i) => index_of_first(monster_ids(refs@), id) == Some(i as int) && i < refs@.len(),
            None => index_of_first(monster_ids(refs@), id) is None,
        },
{
    let ghost ids = monster_ids(refs@);
    let mut i: usize = 0;
    while i < refs.len()
        invariant
            0 <= i <= refs@.len(),
            ids == monster_ids(refs@),
            forall|k: int| 0 <= k < i ==> ids[k] != id,
        decreases refs@.len() - i,
    {
        if refs[i].1.get_id() == id {
            proof {
                lemma_index_of_first(ids, id, i as int);
            }
            return Some(i);
        }
        i = i + 1;
    }
    None
}

/// The index of the first treasure with the given id.
fn find_treasure(refs: &[(Position, Treasure, NPCBase)], id: i32) -> (r: Option<usize>)
    ensures
        match r {
            Some(i) => index_of_first(treasure_ids(refs@), id) == Some(i as int) && i < refs@.len(),
            None => index_of_first(treasure_ids(refs@), id) is None,
        },
{
    let ghost ids = treasure_ids(refs@);
    let mut i: usize = 0;
    while i < refs.len()
        invariant
            0 <= i <= refs@.len(),
            ids == treasure_ids(refs@),
            forall|k: int| 0 <= k < i ==> ids[k] != id,
        decreases refs@.len() - i,
    {
        if refs[i].1.get_id() == id {
            proof {
                lemma_index_of_first(ids, id, i as int);
            }
            return Some(i);
        }
        i = i + 1;
    }
    None
}

/// The index of the first monster nearest to `from`.
fn nearest_monster(refs: &[(Position, Monster, NPCBase)], from: Position) -> (r: Option<usize>)
    ensures
        match r {
            Some(i) => nearest_index(monster_positions(refs@), from) == Some(i as int) && i < refs@.len(),
            None => nearest_index(monster_positions(refs@), from) is None,
        },
{
    let ghost ps = monster_positions(refs@);
    if refs.len() == 0 {
        return None;
    }
    let mut best: usize = 0;
    let mut best_d: i64 = manhattan_distance(from, refs[0].0);
    let mut i: usize = 1;
    while i < refs.len()
        invariant
            1 <= i <= refs@.len(),
            ps == monster_positions(refs@),
            best < i,
            best_d == manhattan(from, ps[best as int]),
            forall|j: int| 0 <= j < i ==> manhattan(from, ps[best as int]) <= manhattan(from, #[trigger] ps[j]),
            forall|j: int| 0 <= j < best ==> manhattan(from, ps[best as int]) < manhattan(from, #[trigger] ps[j]),
        decreases refs@.len() - i,
    {
        let d = manhattan_distance(from, refs[i].0);
        if d < best_d {
            best = i;
            best_d = d;
        }
        i = i + 1;
    }
    proof {
        lemma_nearest_index(ps, from, best as int);
    }
    Some(best)
}

/// The index of the first treasure nearest to `from`.
fn nearest_treasure(refs: &[(Position, Treasure, NPCBase)], from: Position) -> (r: Option<usize>)
    ensures
        match r {
            Some(i) => nearest_index(treasure_positions(refs@), from) == Some(i as int) && i < refs@.len(),
            None => nearest_index(treasure_positions(refs@), from) is None,
        },
{
    let ghost ps = treasure_positions(refs@);
    if refs.len() == 0 {
        return None;
    }
    let mut best: usize = 0;
    let mut best_d: i64 = manhattan_distance(from, refs[0].0);
    let mut i: usize = 1;
    while i < refs.len()
        invariant
            1 <= i <= refs@.len(),
            ps == treasure_positions(refs@),
            best < i,
            best_d == manhattan(from, ps[best as int]),
            forall|j: int| 0 <= j < i ==> manhattan(from, ps[best as int]) <= manhattan(from, #[trigger] ps[j]),
            forall|j: int| 0 <= j < best ==> manhattan(from, ps[best as int]) < manhattan(from, #[trigger] ps[j]),
        decreases refs@.len() - i,
    {
        let d = manhattan_distance(from, refs[i].0);
        if d < best_d {
            best = i;
            best_d = d;
        }
        i = i + 1;
    }
    proof {
        lemma_nearest_index(ps, from, best as int);
    }
    Some(best)
}

/// The first and the last position of the agent's path, if it has any, are
/// safe: a search can start from either.
pub open spec fn path_safe(v: AgentView) -> bool {
    match v.path {
        Some(p) => ends_safe(p),
        None => true,
    }
}

/// `new` is `old` heading for `goal` along a path found from `from`, with the
/// status `Moving`.
pub open spec fn sets_out(world: &GameWorld, old: AgentView, new: AgentView, from: Position, goal: Position) -> bool {
    exists|r: Seq<Position>|
        #[trigger] search_result(world, from, goal, r) && new == (AgentView {
            path: Some(r),
            status: Status::Moving,
            ..old
        })
}

/// The position of the village closest to `from`, if any.
pub open spec fn closest_village(world: &GameWorld, from: Position) -> Option<Position> {
    closest_of_type(world.tiles@, from, TileType::Village)
}

/// What finishing a task does: head for the closest village with the status
/// `Finished` and that village as the tile target, or ask for instructions
/// when there is no village.
pub open spec fn finish_outcome(world: &GameWorld, from: Position, old: AgentView, new: AgentView) -> bool {
    match closest_village(world, from) {
        Some(v) => exists|r: Seq<Position>|
            #[trigger] search_result(world, from, v, r) && new == (AgentView {
                path: Some(r),
                status: Status::Finished,
                tile_target: Some(v),
                ..old
            }),
        None => new == (AgentView { status: Status::RequiresInstruction, ..old }),
    }
}

/// What an idle agent does for its action: it goes for its target, or starts
/// on the action when it is already close enough. `best` and `worst` are the
/// agents it thinks best and worst of.
pub open spec fn idle_outcome(
    world: &GameWorld,
    agents: Seq<(Position, Agent, NPCBase)>,
    monsters: Seq<(Position, Monster, NPCBase)>,
    treasures: Seq<(Position, Treasure, NPCBase)>,
    from: Position,
    best: Option<i32>,
    worst: Option<i32>,
    old: AgentView,
    new: AgentView,
) -> bool {
    match old.action {
        NpcAction::AttackAgent => match best {
            Some(id) => match index_of_first(agent_ids(agents), id) {
                Some(k) => {
                    let t = AgentView { agent_target_id: id, ..old };
                    if near(from, agents[k].0, 1) {
                        new == (AgentView { status: Status::Attacking, ..t })
                    } else {
                        sets_out(world, t, new, from, agents[k].0)
                    }
                },
                None => new == old,
            },
            None => new == old,
        },
        NpcAction::AttackMonster => match nearest_index(monster_positions(monsters), from) {
            Some(k) => {
                let t = AgentView { monster_target_id: monsters[k].1@.id, ..old };
                if near(from, monsters[k].0, 1) {
                    new == (AgentView { status: Status::Attacking, ..t })
                } else {
                    sets_out(world, t, new, from, monsters[k].0)
                }
            },
            None => new == old,
        },
        NpcAction::Steal => match worst {
            Some(id) => match index_of_first(agent_ids(agents), id) {
                Some(k) => {
                    let t = AgentView { agent_target_id: id, ..old };
                    if near(from, agents[k].0, 1) {
                        new == (AgentView { status: Status::Working, ..t })
                    } else {
                        sets_out(world, t, new, from, agents[k].0)
                    }
                },
                None => new == old,
            },
            None => new == old,
        },
        NpcAction::TreasureHunt => match nearest_index(treasure_positions(treasures), from) {
            Some(k) => {
                let t = AgentView { treasure_target_id: treasures[k].1.id_spec(), ..old };
                if near(from, treasures[k].0, 1) {
                    new == (AgentView { status: Status::Working, ..t })
                } else {
                    sets_out(world, t, new, from, treasures[k].0)
                }
            },
            None => new == old,
        },
        NpcAction::Rest | NpcAction::Talk => match closest_village(world, from) {
            Some(v) => if near(from, v, 0) {
                new == (AgentView {
                    status: if old.action == NpcAction::Rest { Status::Recovering } else { Status::Talking },
                    ..old
                })
            } else {
                sets_out(world, old, new, from, v)
            },
            None => new == old,
        },
        NpcAction::Work(WorkType::Farming(p)) | NpcAction::Work(WorkType::Mining(p)) => if near(from, p, 0) {
            new == (AgentView { status: Status::Working, ..old })
        } else {
            sets_out(world, old, new, from, p)
        },
        NpcAction::Work(WorkType::Merchant) => match closest_village(world, from) {
            Some(v) => if near(from, v, 0) {
                new == (AgentView { status: Status::Working, ..old })
            } else {
                sets_out(world, old, new, from, v)
            },
            None => new == old,
        },
        NpcAction::NoAction => new == old,
    }
}

/// Finds a path from `from` to `goal` and sets the agent on its way.
fn head_for(agent: &mut Agent, world: &GameWorld, from: Position, goal: Position)
    requires
        safe_position(from),
        safe_bounds(world),
    ensures
        sets_out(world, old(agent)@, final(agent)@, from, goal),
        path_safe(final(agent)@),
{
    let path = a_star_pathfinding(world, from, goal);
    proof {
        lemma_search_result_safe(world, from, goal, path@);
    }
    agent.set_path(path);
    agent.set_status(Status::Moving);
}

/// The task is done: head back to the closest village, or ask for instructions.
fn set_finish(agent: &mut Agent, npc_base: &NPCBase, world: &GameWorld)
    requires
        safe_position(npc_base.position),
        safe_bounds(world),
    ensures
        finish_outcome(world, npc_base.position, old(agent)@, final(agent)@),
        path_safe(old(agent)@) ==> path_safe(final(agent)@),
{
    let from = npc_base.get_position();
    match world.find_closest_tiletype(from, TileType::Village) {
        Some(target_village) => {
            let path = a_star_pathfinding(world, from, target_village);
            proof {
                lemma_search_result_safe(world, from, target_village, path@);
            }
            agent.set_path(path);
            agent.set_status(Status::Finished);
            agent.set_tile_target(Some(target_village));
        },
        None => {
            agent.set_status(Status::RequiresInstruction);
        },
    }
}

/// Starts an idle agent on its action (see `idle_outcome`).
pub fn handle_idle_actions(
    agent: &mut Agent,
    npc_base: &NPCBase,
    world: &GameWorld,
    agent_positions: &[(Position, Agent, NPCBase)],
    monster_positions: &[(Position, Monster, NPCBase)],
    treasure_positions: &[(Position, Treasure, NPCBase)],
    best_agent: Option<i32>,
    worst_agent: Option<i32>,
)
    requires
        safe_position(npc_base.position),
        safe_bounds(world),
    ensures
        idle_outcome(
            world,
            agent_positions@,
            monster_positions@,
            treasure_positions@,
            npc_base.position,
            best_agent,
            worst_agent,
            old(agent)@,
            final(agent)@,
        ),
        path_safe(old(agent)@) ==> path_safe(final(agent)@),
{
    let agent_position = npc_base.get_position();
    match agent.get_action() {
        NpcAction::AttackAgent => {
            if let Some(target_id) = best_agent {
                if let Some(k) = find_agent(agent_positions, target_id) {
                    let target_position = agent_positions[k].0;
                    if is_next_to_target(agent_position, target_position, 1) {
                        agent.set_status(Status::Attacking);
                        agent.set_agent_target_id(target_id);
                    } else {
                        agent.set_agent_target_id(target_id);
                        head_for(agent, world, agent_position, target_position);
                    }
                }
            }
        },
        NpcAction::AttackMonster => {
            if let Some(k) = nearest_monster(monster_positions, agent_position) {
                let monster_position = monster_positions[k].0;
                let monster_id = monster_positions[k].1.get_id();
                if is_next_to_target(agent_position, monster_position, 1) {
                    agent.set_status(Status::Attacking);
                    agent.set_monster_target_id(monster_id);
                } else {
                    agent.set_monster_target_id(monster_id);
                    head_for(agent, world, agent_position, monster_position);
                }
            }
        },
        NpcAction::Steal => {
            if let Some(target_id) = worst_agent {
                if let Some(k) = find_agent(agent_positions, target_id) {
                    let target_position = agent_positions[k].0;
                    if is_next_to_target(agent_position, target_position, 1) {
                        agent.set_status(Status::Working);
                        agent.set_agent_target_id(target_id);
                    } else {
                        agent.set_agent_target_id(target_id);
                        head_for(agent, world, agent_position, target_position);
                    }
                }
            }
        },
        NpcAction::TreasureHunt => {
            if let Some(k) = nearest_treasure(treasure_positions, agent_position) {
                let treasure_position = treasure_positions[k].0;
                let treasure_id = treasure_positions[k].1.get_id();
                if is_next_to_target(agent_position, treasure_position, 1) {
                    agent.set_status(Status::Working);
                    agent.set_treasure_target_id(treasure_id);
                } else {
                    agent.set_treasure_target_id(treasure_id);
                    head_for(agent, world, agent_position, treasure_position);
                }
            }
        },
        NpcAction::Rest | NpcAction::Talk => {
            if let Some(village_position) = world.find_closest_tiletype(agent_position, TileType::Village) {
                if is_next_to_target(agent_position, village_position, 0) {
                    let action = agent.get_action();
                    agent.set_status(
                        if action == NpcAction::Rest {
                            Status::Recovering
                        } else {
                            Status::Talking
                        },
                    );
                } else {
                    head_for(agent, world, agent_position, village_position);
                }
            }
        },
        NpcAction::Work(work_type) => match work_type {
            WorkType::Farming(target_position) | WorkType::Mining(target_position) => {
                if is_next_to_target(agent_position, target_position, 0) {
                    agent.set_status(Status::Working);
                } else {
                    head_for(agent, world, agent_position, target_position);
                }
            },
            WorkType::Merchant => {
                if let Some(village_position) = world.find_closest_tiletype(agent_position, TileType::Village) {
                    if is_next_to_target(agent_position, village_position, 0) {
                        agent.set_status(Status::Working);
                    } else {
                        head_for(agent, world, agent_position, village_position);
                    }
                }
            },
        },
        NpcAction::NoAction => {},
    }
}

/// The monsters within 4 tiles of `from` along both axes, each with the
/// avoid radius 4, in order.
pub open spec fn nearby_monsters(monsters: Seq<(Position, Monster, NPCBase)>, from: Position) -> Seq<(Position, i32)>
    decreases monsters.len(),
{
    if monsters.len() == 0 {
        Seq::empty()
    } else {
        let rest = nearby_monsters(monsters.drop_last(), from);
        if near(monsters.last().0, from, 4) {
            rest.push((monsters.last().0, 4i32))
        } else {
            rest
        }
    }
}

/// One of the avoided positions lies within 3 tiles, along both axes, of one of
/// the first three positions of `path`.
pub open spec fn threatens(avoids: Seq<(Position, i32)>, path: Seq<Position>) -> bool {
    exists|a: int, j: int|
        #![trigger avoids[a], path[j]]
        0 <= a < avoids.len() && 0 <= j < path.len() && j < 3 && near(avoids[a].0, path[j], 3)
}

/// What keeping on course for `target` does: a path that does not end at the
/// target is continued towards it; when monsters near the agent lie close to
/// the next steps and the agent chooses flight (`flee`), the path is then
/// recalculated around them. An agent without a path is left as it is.
pub open spec fn avoidance_outcome(
    world: &GameWorld,
    monsters: Seq<(Position, Monster, NPCBase)>,
    target: Position,
    from: Position,
    flee: bool,
    old: AgentView,
    new: AgentView,
) -> bool {
    match old.path {
        None => new == old,
        Some(path) => exists|p1: Seq<Position>|
            #[trigger] continuation_result(world, path, target, p1) && {
                let avoids = nearby_monsters(monsters, from);
                if avoids.len() > 0 && threatens(avoids, p1) && flee {
                    exists|p2: Seq<Position>|
                        #[trigger] detour_result(world, p1, avoids, target, p2) && new == (AgentView {
                            path: Some(p2),
                            ..old
                        })
                } else {
                    new == (AgentView { path: Some(p1), ..old })
                }
            },
    }
}

/// What a moving agent does for its action: once close enough to its target it
/// starts on the action, otherwise it keeps on course (see `avoidance_outcome`).
pub open spec fn moving_outcome(
    world: &GameWorld,
    agents: Seq<(Position, Agent, NPCBase)>,
    monsters: Seq<(Position, Monster, NPCBase)>,
    treasures: Seq<(Position, Treasure, NPCBase)>,
    from: Position,
    flee: bool,
    old: AgentView,
    new: AgentView,
) -> bool {
    match old.action {
        NpcAction::AttackAgent | NpcAction::Steal => match index_of_first(agent_ids(agents), old.agent_target_id) {
            Some(k) => if near(from, agents[k].0, 1) {
                new == (AgentView { status: Status::Attacking, path: Some(Seq::empty()), ..old })
            } else {
                avoidance_outcome(world, monsters, agents[k].0, from, flee, old, new)
            },
            None => new == old,
        },
        NpcAction::AttackMonster => match index_of_first(monster_ids(monsters), old.monster_target_id) {
            Some(k) => if near(from, monsters[k].0, 1) {
                new == (AgentView { status: Status::Attacking, path: Some(Seq::empty()), ..old })
            } else {
                avoidance_outcome(world, monsters, monsters[k].0, from, flee, old, new)
            },
            None => new == old,
        },
        NpcAction::TreasureHunt => match index_of_first(treasure_ids(treasures), old.treasure_target_id) {
            Some(k) => if near(from, treasures[k].0, 1) {
                new == (AgentView { status: Status::Working, path: Some(Seq::empty()), ..old })
            } else {
                avoidance_outcome(world, monsters, treasures[k].0, from, flee, old, new)
            },
            None => new == old,
        },
        NpcAction::Rest | NpcAction::Talk => match closest_village(world, from) {
            Some(v) => if near(from, v, 0) {
                new == (AgentView {
                    status: if old.action == NpcAction::Rest { Status::Recovering } else { Status::Talking },
                    ..old
                })
            } else {
                avoidance_outcome(world, monsters, v, from, flee, old, new)
            },
            None => new == old,
        },
        NpcAction::Work(WorkType::Farming(p)) | NpcAction::Work(WorkType::Mining(p)) => if near(from, p, 0) {
            new == (AgentView { status: Status::Working, ..old })
        } else {
            avoidance_outcome(world, monsters, p, from, flee, old, new)
        },
        NpcAction::Work(WorkType::Merchant) => match closest_village(world, from) {
            Some(v) => if near(from, v, 0) {
                new == (AgentView { status: Status::Working, ..old })
            } else {
                avoidance_outcome(world, monsters, v, from, flee, old, new)
            },
            None => new == old,
        },
        NpcAction::NoAction => new == (AgentView { status: Status::Idle, ..old }),
    }
}

/// A copy of a path.
fn copy_path(path: &Vec<Position>) -> (r: Vec<Position>)
    ensures
        r@ == path@,
{
    let mut r: Vec<Position> = Vec::new();
    let mut i: usize = 0;
    while i < path.len()
        invariant
            0 <= i <= path@.len(),
            r@ == path@.take(i as int),
        decreases path@.len() - i,
    {
        r.push(path[i]);
        i = i + 1;
        assert(r@ =~= path@.take(i as int));
    }
    assert(r@ =~= path@);
    r
}

/// The monsters within 4 tiles of `from`, with the avoid radius 4.
fn collect_nearby_monsters(monsters: &[(Position, Monster, NPCBase)], from: Position) -> (r: Vec<(Position, i32)>)
    ensures
        r@ == nearby_monsters(monsters@, from),
{
    let mut r: Vec<(Position, i32)> = Vec::new();
    let mut i: usize = 0;
    while i < monsters.len()
        invariant
            0 <= i <= monsters@.len(),
            r@ == nearby_monsters(monsters@.take(i as int), from),
        decreases monsters@.len() - i,
    {
        assert(monsters@.take(i as int + 1).drop_last() =~= monsters@.take(i as int));
        let monster_position = monsters[i].0;
        if is_next_to_target(monster_position, from, 4) {
            r.push((monster_position, 4));
        }
        i = i + 1;
    }
    assert(monsters@.take(i as int) =~= monsters@);
    r
}

/// Whether an avoided position lies close to the next three steps of `path`.
fn path_threatened(avoids: &Vec<(Position, i32)>, path: &Vec<Position>) -> (b: bool)
    ensures
        b == threatens(avoids@, path@),
{
    let mut i: usize = 0;
    while i < avoids.len()
        invariant
            0 <= i <= avoids@.len(),
            forall|a: int, j: int|
                #![trigger avoids@[a], path@[j]]
                0 <= a < i && 0 <= j < path@.len() && j < 3 ==> !near(avoids@[a].0, path@[j], 3),
        decreases avoids@.len() - i,
    {
        let mut j: usize = 0;
        while j < path.len() && j < 3
            invariant
                0 <= i < avoids@.len(),
                0 <= j <= path@.len(),
                forall|a: int, j2: int|
                    #![trigger avoids@[a], path@[j2]]
                    0 <= a < i && 0 <= j2 < path@.len() && j2 < 3 ==> !near(avoids@[a].0, path@[j2], 3),
                forall|j2: int| 0 <= j2 < j && j2 < path@.len() ==> !near(avoids@[i as int].0, #[trigger] path@[j2], 3),
            decreases path@.len() - j,
        {
            if is_next_to_target(avoids[i].0, path[j], 3) {
                assert(near(avoids@[i as int].0, path@[j as int], 3));
                return true;
            }
            j = j + 1;
        }
        i = i + 1;
    }
    false
}

/// Keeps a moving agent on course for `target` (see `avoidance_outcome`);
/// `flee` is the agent's choice between flight and fight when monsters are near.
pub fn handle_path_recalculation_and_monster_avoidance(
    agent: &mut Agent,
    world: &GameWorld,
    monster_query: &[(Position, Monster, NPCBase)],
    target_position: Position,
    agent_position: Position,
    flee: bool,
)
    requires
        path_safe(old(agent)@),
        safe_bounds(world),
    ensures
        avoidance_outcome(world, monster_query@, target_position, agent_position, flee, old(agent)@, final(agent)@),
        path_safe(final(agent)@),
{
    if let Some(path) = agent.get_path() {
        let ghost old_path = path@;
        let mut recalculated_path = path;
        let n = recalculated_path.len();
        if n == 0 || recalculated_path[n - 1] != target_position {
            recalculated_path = a_star_with_current_path(world, recalculated_path, target_position);
            let copy = copy_path(&recalculated_path);
            agent.set_path(copy);
        }
        assert(continuation_result(world, old_path, target_position, recalculated_path@));
        assert(agent@ == (AgentView { path: Some(recalculated_path@), ..old(agent)@ }));
        proof {
            lemma_continuation_ends_safe(world, old_path, target_position, recalculated_path@);
        }
        let ghost p1 = recalculated_path@;
        let avoid_positions = collect_nearby_monsters(monster_query, agent_position);
        if avoid_positions.len() > 0 {
            if path_threatened(&avoid_positions, &recalculated_path) {
                if flee {
                    let new_path = recalculate_path_around_multiple_positions(
                        world,
                        recalculated_path,
                        avoid_positions,
                        target_position,
                    );
                    proof {
                        lemma_detour_safe(world, p1, nearby_monsters(monster_query@, agent_position), target_position, new_path@);
                    }
                    agent.set_path(new_path);
                }
            }
        }
        assert(continuation_result(world, old_path, target_position, p1));
    }
}

/// Moves an agent on towards the target of its action (see `moving_outcome`).
pub fn handle_moving_actions(
    agent: &mut Agent,
    npc_base: &NPCBase,
    world: &GameWorld,
    agent_query: &[(Position, Agent, NPCBase)],
    monster_query: &[(Position, Monster, NPCBase)],
    treasure_query: &[(Position, Treasure, NPCBase)],
    flee: bool,
)
    requires
        path_safe(old(agent)@),
        safe_bounds(world),
    ensures
        moving_outcome(
            world,
            agent_query@,
            monster_query@,
            treasure_query@,
            npc_base.position,
            flee,
            old(agent)@,
            final(agent)@,
        ),
        path_safe(final(agent)@),
{
    let agent_position = npc_base.get_position();
    match agent.get_action() {
        NpcAction::AttackAgent | NpcAction::Steal => {
            let target_id = agent.get_agent_target_id();
            if let Some(k) = find_agent(agent_query, target_id) {
                let target_position = agent_query[k].0;
                if is_next_to_target(agent_position, target_position, 1) {
                    agent.set_status(Status::Attacking);
                    agent.set_path(Vec::new());
                } else {
                    handle_path_recalculation_and_monster_avoidance(
                        agent,
                        world,
                        monster_query,
                        target_position,
                        agent_position,
                        flee,
                    );
                }
            }
        },
        NpcAction::AttackMonster => {
            let target_id = agent.get_monster_target_id();
            if let Some(k) = find_monster(monster_query, target_id) {
                let monster_position = monster_query[k].0;
                if is_next_to_target(agent_position, monster_position, 1) {
                    agent.set_status(Status::Attacking);
                    agent.set_path(Vec::new());
                } else {
                    handle_path_recalculation_and_monster_avoidance(
                        agent,
                        world,
                        monster_query,
                        monster_position,
                        agent_position,
                        flee,
                    );
                }
            }
        },
        NpcAction::TreasureHunt => {
            let target_id = agent.get_treasure_target_id();
            if let Some(k) = find_treasure(treasure_query, target_id) {
                let treasure_position = treasure_query[k].0;
                if is_next_to_target(agent_position, treasure_position, 1) {
                    agent.set_status(Status::Working);
                    agent.set_path(Vec::new());
                } else {
                    handle_path_recalculation_and_monster_avoidance(
                        agent,
                        world,
                        monster_query,
                        treasure_position,
                        agent_position,
                        flee,
                    );
                }
            }
        },
        NpcAction::Rest | NpcAction::Talk => {
            if let Some(village_position) = world.find_closest_tiletype(agent_position, TileType::Village) {
                if is_next_to_target(agent_position, village_position, 0) {
                    let action = agent.get_action();
                    agent.set_status(
                        if action == NpcAction::Rest {
                            Status::Recovering
                        } else {
                            Status::Talking
                        },
                    );
                } else {
                    handle_path_recalculation_and_monster_avoidance(
                        agent,
                        world,
                        monster_query,
                        village_position,
                        agent_position,
                        flee,
                    );
                }
            }
        },
        NpcAction::Work(work_type) => match work_type {
            WorkType::Farming(target_position) | WorkType::Mining(target_position) => {
                if is_next_to_target(agent_position, target_position, 0) {
                    agent.set_status(Status::Working);
                } else {
                    handle_path_recalculation_and_monster_avoidance(
                        agent,
                        world,
                        monster_query,
                        target_position,
                        agent_position,
                        flee,
                    );
                }
            },
            WorkType::Merchant => {
                if let Some(village_position) = world.find_closest_tiletype(agent_position, TileType::Village) {
                    if is_next_to_target(agent_position, village_position, 0) {
                        agent.set_status(Status::Working);
                    } else {
                        handle_path_recalculation_and_monster_avoidance(
                            agent,
                            world,
                            monster_query,
                            village_position,
                            agent_position,
                            flee,
                        );
                    }
                }
            },
        },
        NpcAction::NoAction => {
            agent.set_status(Status::Idle);
        },
    }
}

/// The choices an agent makes from its genes and opinions, worked out before
/// its turn: the agents it thinks best and worst of, and whether it flees
/// from monsters (flight) rather than fighting them.
#[derive(Clone, Copy, Debug)]
pub struct AgentChoices {
    pub best_agent: Option<i32>,
    pub worst_agent: Option<i32>,
    pub flee: bool,
}

/// What an agent engaged with the agent it targets does: it goes after a
/// target out of reach, finishes when the target is spent, dead or gone, and
/// otherwise keeps at it.
pub open spec fn engage_agent_outcome(
    world: &GameWorld,
    agents: Seq<(Position, Agent, NPCBase)>,
    from: Position,
    old: AgentView,
    new: AgentView,
) -> bool {
    match index_of_first(agent_ids(agents), old.agent_target_id) {
        Some(k) => if !near(from, agents[k].0, 1) {
            sets_out(world, old, new, from, agents[k].0)
        } else if agents[k].2.energy == 0 || agents[k].1@.status == Status::Dead {
            finish_outcome(world, from, old, new)
        } else {
            new == old
        },
        None => finish_outcome(world, from, old, new),
    }
}

/// Like `engage_agent_outcome`, for the monster the agent targets.
pub open spec fn engage_monster_outcome(
    world: &GameWorld,
    monsters: Seq<(Position, Monster, NPCBase)>,
    from: Position,
    old: AgentView,
    new: AgentView,
) -> bool {
    match index_of_first(monster_ids(monsters), old.monster_target_id) {
        Some(k) => if !near(from, monsters[k].0, 1) {
            sets_out(world, old, new, from, monsters[k].0)
        } else if monsters[k].2.energy == 0 || monsters[k].1@.status == Status::Dead {
            finish_outcome(world, from, old, new)
        } else {
            new == old
        },
        None => finish_outcome(world, from, old, new),
    }
}

/// The agent is done retaliating or fleeing: what it retaliates against is
/// gone, out of reach, spent or dead.
pub open spec fn retaliation_over(
    agents: Seq<(Position, Agent, NPCBase)>,
    monsters: Seq<(Position, Monster, NPCBase)>,
    from: Position,
    old: AgentView,
) -> bool {
    match old.retaliation_target {
        Target::Agent => match index_of_first(agent_ids(agents), old.retaliation_target_id) {
            Some(k) => !near(from, agents[k].0, 1) || agents[k].2.energy == 0 || agents[k].1@.status
                == Status::Dead,
            None => true,
        },
        Target::Monster => match index_of_first(monster_ids(monsters), old.retaliation_target_id) {
            Some(k) => !near(from, monsters[k].0, 1) || monsters[k].2.energy == 0 || monsters[k].1@.status
                == Status::Dead,
            None => true,
        },
        _ => true,
    }
}

/// What one agent does in a turn, by its status.
pub open spec fn step_outcome(
    world: &GameWorld,
    agents: Seq<(Position, Agent, NPCBase)>,
    monsters: Seq<(Position, Monster, NPCBase)>,
    treasures: Seq<(Position, Treasure, NPCBase)>,
    base: NPCBase,
    choices: AgentChoices,
    old: AgentView,
    new: AgentView,
) -> bool {
    let from = base.position;
    let idle = AgentView { status: Status::Idle, ..old };
    let back_to_idle = idle_outcome(
        world,
        agents,
        monsters,
        treasures,
        from,
        choices.best_agent,
        choices.worst_agent,
        idle,
        new,
    );
    let ask = new == (AgentView { status: Status::RequiresInstruction, ..old });
    match old.status {
        Status::Idle => idle_outcome(
            world,
            agents,
            monsters,
            treasures,
            from,
            choices.best_agent,
            choices.worst_agent,
            old,
            new,
        ),
        Status::Moving => moving_outcome(world, agents, monsters, treasures, from, choices.flee, old, new),
        Status::Attacking => match old.target {
            Target::Agent => engage_agent_outcome(world, agents, from, old, new),
            Target::Monster => engage_monster_outcome(world, monsters, from, old, new),
            _ => ask,
        },
        Status::Finished => match old.tile_target {
            Some(v) => avoidance_outcome(world, monsters, v, from, choices.flee, old, new),
            None => ask,
        },
        Status::Working => match old.action {
            NpcAction::Steal => engage_agent_outcome(world, agents, from, old, new),
            NpcAction::TreasureHunt | NpcAction::Work(_) => new == old,
            _ => ask,
        },
        Status::Following => match index_of_first(agent_ids(agents), old.leader_id) {
            Some(k) => if agents[k].1@.action != old.action || base.energy == 0 || agents[k].1@.status
                == Status::Dead {
                back_to_idle
            } else {
                new == old
            },
            None => back_to_idle,
        },
        Status::Retaliating | Status::Fleeing => if retaliation_over(agents, monsters, from, old) {
            back_to_idle
        } else {
            new == old
        },
        Status::Recovering => if base.energy >= base.max_energy {
            back_to_idle
        } else {
            new == old
        },
        Status::Dead | Status::RequiresInstruction | Status::Talking => new == old,
    }
}

/// Goes after the agent targeted, or finishes (see `engage_agent_outcome`).
fn engage_agent(
    agent: &mut Agent,
    npc_base: &NPCBase,
    world: &GameWorld,
    agent_references: &[(Position, Agent, NPCBase)],
)
    requires
        safe_position(npc_base.position),
        safe_bounds(world),
    ensures
        engage_agent_outcome(world, agent_references@, npc_base.position, old(agent)@, final(agent)@),
        path_safe(old(agent)@) ==> path_safe(final(agent)@),
{
    let from = npc_base.get_position();
    let target_id = agent.get_agent_target_id();
    match find_agent(agent_references, target_id) {
        Some(k) => {
            let target_position = agent_references[k].0;
            if !is_next_to_target(from, target_position, 1) {
                head_for(agent, world, from, target_position);
            } else if agent_references[k].2.get_energy() == 0 || agent_references[k].1.get_status()
                == Status::Dead {
                set_finish(agent, npc_base, world);
            }
        },
        None => {
            set_finish(agent, npc_base, world);
        },
    }
}

/// Goes after the monster targeted, or finishes (see `engage_monster_outcome`).
fn engage_monster(
    agent: &mut Agent,
    npc_base: &NPCBase,
    world: &GameWorld,
    monster_references: &[(Position, Monster, NPCBase)],
)
    requires
        safe_position(npc_base.position),
        safe_bounds(world),
    ensures
        engage_monster_outcome(world, monster_references@, npc_base.position, old(agent)@, final(agent)@),
        path_safe(old(agent)@) ==> path_safe(final(agent)@),
{
    let from = npc_base.get_position();
    let target_id = agent.get_monster_target_id();
    match find_monster(monster_references, target_id) {
        Some(k) => {
            let target_position = monster_references[k].0;
            if !is_next_to_target(from, target_position, 1) {
                head_for(agent, world, from, target_position);
            } else if monster_references[k].2.get_energy() == 0 || monster_references[k].1.get_status()
                == Status::Dead {
                set_finish(agent, npc_base, world);
            }
        },
        None => {
            set_finish(agent, npc_base, world);
        },
    }
}

/// Whether the agent is done retaliating or fleeing (see `retaliation_over`).
fn check_retaliation_over(
    agent: &Agent,
    npc_base: &NPCBase,
    agent_references: &[(Position, Agent, NPCBase)],
    monster_references: &[(Position, Monster, NPCBase)],
) -> (b: bool)
    ensures
        b == retaliation_over(agent_references@, monster_references@, npc_base.position, agent@),
{
    let from = npc_base.get_position();
    let retaliation_target_id = agent.get_retaliation_target_id();
    match agent.get_retaliation_target() {
        Target::Agent => match find_agent(agent_references, retaliation_target_id) {
            Some(k) => !is_next_to_target(from, agent_references[k].0, 1) || agent_references[k].2.get_energy()
                == 0 || agent_references[k].1.get_status() == Status::Dead,
            None => true,
        },
        Target::Monster => match find_monster(monster_references, retaliation_target_id) {
            Some(k) => !is_next_to_target(from, monster_references[k].0, 1)
                || monster_references[k].2.get_energy() == 0 || monster_references[k].1.get_status()
                == Status::Dead,
            None => true,
        },
        _ => true,
    }
}

/// Carries one agent through its turn (see `step_outcome`).
pub fn handle_selected_action(
    agent: &mut Agent,
    npc_base: &NPCBase,
    world: &GameWorld,
    agent_references: &[(Position, Agent, NPCBase)],
    monster_references: &[(Position, Monster, NPCBase)],
    treasure_references: &[(Position, Treasure, NPCBase)],
    choices: AgentChoices,
)
    requires
        safe_position(npc_base.position),
        safe_bounds(world),
        path_safe(old(agent)@),
    ensures
        step_outcome(
            world,
            agent_references@,
            monster_references@,
            treasure_references@,
            *npc_base,
            choices,
            old(agent)@,
            final(agent)@,
        ),
        path_safe(final(agent)@),
{
    match agent.get_status() {
        Status::Idle => {
            handle_idle_actions(
                agent,
                npc_base,
                world,
                agent_references,
                monster_references,
                treasure_references,
                choices.best_agent,
                choices.worst_agent,
            );
        },
        Status::Moving => {
            handle_moving_actions(
                agent,
                npc_base,
                world,
                agent_references,
                monster_references,
                treasure_references,
                choices.flee,
            );
        },
        Status::Attacking => match agent.get_target() {
            Target::Agent => {
                engage_agent(agent, npc_base, world, agent_references);
            },
            Target::Monster => {
                engage_monster(agent, npc_base, world, monster_references);
            },
            _ => {
                agent.set_status(Status::RequiresInstruction);
            },
        },
        Status::Finished => match agent.get_tile_target() {
            Some(village_position) => {
                handle_path_recalculation_and_monster_avoidance(
                    agent,
                    world,
                    monster_references,
                    village_position,
                    npc_base.get_position(),
                    choices.flee,
                );
            },
            None => {
                agent.set_status(Status::RequiresInstruction);
            },
        },
        Status::Working => match agent.get_action() {
            NpcAction::Steal => {
                engage_agent(agent, npc_base, world, agent_references);
            },
            NpcAction::TreasureHunt | NpcAction::Work(_) => {},
            _ => {
                agent.set_status(Status::RequiresInstruction);
            },
        },
        Status::Following => {
            let leader_id = agent.get_leader_id();
            let back_to_idle = match find_agent(agent_references, leader_id) {
                Some(k) => agent_references[k].1.get_action() != agent.get_action() || npc_base.get_energy()
                    == 0 || agent_references[k].1.get_status() == Status::Dead,
                None => true,
            };
            if back_to_idle {
                agent.set_status(Status::Idle);
                handle_idle_actions(
                    agent,
                    npc_base,
                    world,
                    agent_references,
                    monster_references,
                    treasure_references,
                    choices.best_agent,
                    choices.worst_agent,
                );
            }
        },
        Status::Retaliating | Status::Fleeing => {
            if check_retaliation_over(agent, npc_base, agent_references, monster_references) {
                agent.set_status(Status::Idle);
                handle_idle_actions(
                    agent,
                    npc_base,
                    world,
                    agent_references,
                    monster_references,
                    treasure_references,
                    choices.best_agent,
                    choices.worst_agent,
                );
            }
        },
        Status::Recovering => {
            if npc_base.get_energy() >= npc_base.get_max_energy() {
                agent.set_status(Status::Idle);
                handle_idle_actions(
                    agent,
                    npc_base,
                    world,
                    agent_references,
                    monster_references,
                    treasure_references,
                    choices.best_agent,
                    choices.worst_agent,
                );
            }
        },
        Status::Dead | Status::RequiresInstruction | Status::Talking => {},
    }
}

/// Carries every agent through its turn; each acts on the snapshot of agents,
/// monsters and treasures taken before the turn. `npc_bases[i]` and
/// `choices[i]` belong to `agents[i]`.
pub fn handle_selected_action_system(
    agents: &mut Vec<Agent>,
    npc_bases: &[NPCBase],
    choices: &[AgentChoices],
    agent_references: &[(Position, Agent, NPCBase)],
    monster_references: &[(Position, Monster, NPCBase)],
    treasure_references: &[(Position, Treasure, NPCBase)],
    world: &GameWorld,
)
    requires
        old(agents)@.len() == npc_bases@.len(),
        old(agents)@.len() == choices@.len(),
        safe_bounds(world),
        forall|i: int| 0 <= i < npc_bases@.len() ==> safe_position(#[trigger] npc_bases@[i].position),
        forall|i: int| 0 <= i < old(agents)@.len() ==> path_safe(#[trigger] old(agents)@[i]@),
    ensures
        final(agents)@.len() == old(agents)@.len(),
        forall|i: int|
            0 <= i < old(agents)@.len() ==> step_outcome(
                world,
                agent_references@,
                monster_references@,
                treasure_references@,
                npc_bases@[i],
                choices@[i],
                old(agents)@[i]@,
                #[trigger] final(agents)@[i]@,
            ),
        forall|i: int| 0 <= i < final(agents)@.len() ==> path_safe(#[trigger] final(agents)@[i]@),
{
    let ghost before = agents@;
    let mut i: usize = 0;
    while i < agents.len()
        invariant
            agents@.len() == before.len(),
            before.len() == npc_bases@.len(),
            before.len() == choices@.len(),
            0 <= i <= before.len(),
            safe_bounds(world),
            forall|k: int| 0 <= k < npc_bases@.len() ==> safe_position(#[trigger] npc_bases@[k].position),
            forall|k: int| i <= k < before.len() ==> #[trigger] agents@[k] == before[k],
            forall|k: int| 0 <= k < before.len() ==> path_safe(#[trigger] before[k]@),
            forall|k: int|
                0 <= k < i ==> step_outcome(
                    world,
                    agent_references@,
                    monster_references@,
                    treasure_references@,
                    npc_bases@[k],
                    choices@[k],
                    before[k]@,
                    #[trigger] agents@[k]@,
                ),
            forall|k: int| 0 <= k < i ==> path_safe(#[trigger] agents@[k]@),
        decreases before.len() - i,
    {
        assert(path_safe(before[i as int]@));
        handle_selected_action(
            &mut agents[i],
            &npc_bases[i],
            world,
            agent_references,
            monster_references,
            treasure_references,
            choices[i],
        );
        i = i + 1;
    }
}

} // verus!
