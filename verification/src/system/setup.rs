use vstd::prelude::*;
use rand::rngs::StdRng;
use rand::seq::SliceRandom;
use crate::gameworld::position::{Position, abs_diff};
use crate::gameworld::tile::Tile;
use crate::gameworld::tile_types::TileType;
use crate::gameworld::world::{GameWorld, village_positions};
use crate::npcs::agent::{Agent, fresh_agent};
use crate::npcs::monster::{Monster, MonsterView};
use crate::npcs::npc_base::NPCBase;
use crate::npcs::npc_status::Status;
use crate::npcs::npc_type::NPCType;
use crate::npcs::treasure::Treasure;
use crate::system::mcst_tree::mcst_node::{NodeType, NodeView};
use crate::system::mcst_tree::mcst_tree::MCTSTree;
use crate::system::mcst_tree::simulation_tree::{SimulationTree, tree_of};

verus! {

/// `rand`'s seedable generator `rand::rngs::StdRng`, carried through as an
/// opaque value: nothing is known of its state.
#[verifier::external_type_specification]
#[verifier::external_body]
pub struct ExStdRng(StdRng);

/// The number of agents placed at the start.
pub const START_AGENT_COUNT: usize = 10;

/// The number of monsters placed at the start.
pub const START_MONSTER_COUNT: usize = 5;

/// The number of treasures placed at the start.
pub const START_TREASURE_COUNT: usize = 5;

/// Picks one of `spawns` with `rand`'s `SliceRandom::choose`, which gives
/// nothing exactly when the slice is empty and otherwise one of its elements,
/// drawn with `rng`.
#[verifier::external_body]
fn choose_spawn(rng: &mut StdRng, spawns: &[Position]) -> (r: Option<Position>)
    ensures
        r is None <==> spawns@.len() == 0,
        r matches Some(p) ==> spawns@.contains(p),
{
    spawns.choose(rng).copied()
}

/// The positions of the village tiles, in tile order: where the player and
/// the agents start.
pub fn spawn_locations(world: &GameWorld) -> (v: Vec<Position>)
    ensures
        v@ == village_positions(world.tiles@),
{
    let mut v: Vec<Position> = Vec::new();
    let mut i: usize = 0;
    while i < world.tiles.len()
        invariant
            0 <= i <= world.tiles@.len(),
            v@ == village_positions(world.tiles@.take(i as int)),
        decreases world.tiles@.len() - i,
    {
        assert(world.tiles@.take(i as int + 1).drop_last() =~= world.tiles@.take(i as int));
        let entry = world.tiles[i];
        if entry.1.get_tile_type() == TileType::Village {
            v.push(entry.0);
        }
        i = i + 1;
    }
    assert(world.tiles@.take(i as int) =~= world.tiles@);
    v
}

/// A monster or treasure may appear on a tile of this type.
pub open spec fn spawnable_type(t: TileType) -> bool {
    t != TileType::Village && t != TileType::Mountain && t != TileType::Lake
}

/// `p` lies more than 5 tiles away, along at least one axis, from every village.
pub open spec fn far_from_villages(p: Position, villages: Seq<Position>) -> bool {
    forall|k: int|
        0 <= k < villages.len() ==> abs_diff(villages[k].x as int, p.x as int) > 5 || abs_diff(
            villages[k].y as int,
            p.y as int,
        ) > 5
}

/// The positions, in tile order, of the tiles where monsters and treasures may
/// appear: of a spawnable type and far from the villages.
pub open spec fn monster_spawn_positions(s: Seq<(Position, Tile)>, villages: Seq<Position>) -> Seq<Position>
    decreases s.len(),
{
    if s.len() == 0 {
        Seq::empty()
    } else {
        let rest = monster_spawn_positions(s.drop_last(), villages);
        if spawnable_type(s.last().1.tile_type) && far_from_villages(s.last().0, villages) {
            rest.push(s.last().0)
        } else {
            rest
        }
    }
}

fn is_far_from_villages(p: Position, villages: &[Position]) -> (b: bool)
    ensures
        b == far_from_villages(p, villages@),
{
    let mut k: usize = 0;
    while k < villages.len()
        invariant
            0 <= k <= villages@.len(),
            forall|j: int|
                0 <= j < k ==> abs_diff(villages@[j].x as int, p.x as int) > 5 || abs_diff(
                    villages@[j].y as int,
                    p.y as int,
                ) > 5,
        decreases villages@.len() - k,
    {
        let v = villages[k];
        let dx: i64 = if v.x >= p.x { v.x as i64 - p.x as i64 } else { p.x as i64 - v.x as i64 };
        let dy: i64 = if v.y >= p.y { v.y as i64 - p.y as i64 } else { p.y as i64 - v.y as i64 };
        if !(dx > 5 || dy > 5) {
            return false;
        }
        k = k + 1;
    }
    true
}

/// The positions where monsters and treasures may appear (see
/// `monster_spawn_positions`).
pub fn valid_monster_treasure_spawns(world: &GameWorld, spawn_locations: &[Position]) -> (v: Vec<Position>)
    ensures
        v@ == monster_spawn_positions(world.tiles@, spawn_locations@),
{
    let mut v: Vec<Position> = Vec::new();
    let mut i: usize = 0;
    while i < world.tiles.len()
        invariant
            0 <= i <= world.tiles@.len(),
            v@ == monster_spawn_positions(world.tiles@.take(i as int), spawn_locations@),
        decreases world.tiles@.len() - i,
    {
        assert(world.tiles@.take(i as int + 1).drop_last() =~= world.tiles@.take(i as int));
        let entry = world.tiles[i];
        let tile_type = entry.1.get_tile_type();
        if tile_type != TileType::Village && tile_type != TileType::Mountain && tile_type != TileType::Lake {
            if is_far_from_villages(entry.0, spawn_locations) {
                v.push(entry.0);
            }
        }
        i = i + 1;
    }
    assert(world.tiles@.take(i as int) =~= world.tiles@);
    v
}

/// The player, at full energy on `spawn`.
pub fn add_player(spawn: Position) -> (b: NPCBase)
    ensures
        b == (NPCBase { npc_type: NPCType::Player, position: spawn, energy: 100, max_energy: 100 }),
{
    NPCBase::new(spawn.x, spawn.y, NPCType::Player)
}

/// A fresh search tree: a null root of depth 1 that is also the current node,
/// above an unused null node of depth 0, in the selection phase and not ready
/// for expansion.
pub open spec fn is_fresh_tree(t: MCTSTree) -> bool {
    &&& t.wf()
    &&& t.arena() == seq![
        NodeView {
            node_type: NodeType::NullNode,
            visits: 0,
            total_reward: 0,
            depth: 0,
            parent: None,
            children: Seq::empty(),
        },
        NodeView {
            node_type: NodeType::NullNode,
            visits: 0,
            total_reward: 0,
            depth: 1,
            parent: None,
            children: Seq::empty(),
        },
    ]
    &&& t.root == Some(1usize)
    &&& t.current_node == Some(1usize)
    &&& t.in_selection_phase
    &&& !t.ready_for_expansion
}

/// `r` holds `count` new agents with the ids `first_id`, `first_id + 1`, ...,
/// agent `i` at full energy on `spawns[i % spawns.len()]`.
pub open spec fn agents_placed(r: Seq<(Agent, NPCBase)>, count: int, spawns: Seq<Position>, first_id: int) -> bool {
    &&& r.len() == count
    &&& forall|i: int|
        0 <= i < count ==> {
            &&& (#[trigger] r[i]).0@ == fresh_agent((first_id + i) as i32)
            &&& r[i].1 == (NPCBase {
                npc_type: NPCType::Agent,
                position: spawns[i % spawns.len() as int],
                energy: 100,
                max_energy: 100,
            })
        }
}

/// The agents with the ids `first_id` to `first_id + count - 1` have fresh
/// trees in `after`; every other agent has the tree it had in `before`.
pub open spec fn trees_assigned(
    before: Seq<(i32, MCTSTree)>,
    after: Seq<(i32, MCTSTree)>,
    first_id: int,
    count: int,
) -> bool {
    &&& forall|id: i32|
        first_id <= id < first_id + count ==> (#[trigger] tree_of(after, id) matches Some(t) && is_fresh_tree(t))
    &&& forall|id: i32|
        !(first_id <= id < first_id + count) ==> #[trigger] tree_of(after, id) == tree_of(before, id)
}

/// `r` holds a new monster at full energy on a position of `valid` for each of
/// `count` draws, or none when `valid` is empty.
pub open spec fn monsters_placed(r: Seq<(Monster, NPCBase)>, count: int, valid: Seq<Position>) -> bool {
    &&& r.len() == (if valid.len() == 0 { 0 } else { count })
    &&& forall|i: int|
        0 <= i < r.len() ==> {
            let p = (#[trigger] r[i]).1.position;
            &&& valid.contains(p)
            &&& r[i].1 == (NPCBase { npc_type: NPCType::Monster, position: p, energy: 100, max_energy: 100 })
            &&& r[i].0@ == (MonsterView {
                id: 0,
                start_position: p,
                current_position: p,
                target_id: i32::MAX,
                reward: 0,
                status: Status::Idle,
            })
        }
}

/// `r` holds a new treasure of reward 100 at full energy on a position of
/// `valid` for each of `count` draws, numbered on from `last_id`, or none
/// when `valid` is empty.
pub open spec fn treasures_placed(r: Seq<(Treasure, NPCBase)>, count: int, valid: Seq<Position>, last_id: int) -> bool {
    &&& r.len() == (if valid.len() == 0 { 0 } else { count })
    &&& forall|i: int|
        0 <= i < r.len() ==> {
            let p = (#[trigger] r[i]).1.position;
            &&& valid.contains(p)
            &&& r[i].1 == (NPCBase { npc_type: NPCType::Treasure, position: p, energy: 100, max_energy: 100 })
            &&& r[i].0.id_spec() == last_id + i + 1
            &&& r[i].0.reward_spec() == 100
        }
}

/// Gives the agent a fresh search tree, replacing any tree it had.
pub fn assign_tree(agent: &Agent, simulation_tree: &mut SimulationTree)
    requires
        old(simulation_tree).wf(),
    ensures
        final(simulation_tree).wf(),
        tree_of(final(simulation_tree).trees@, agent@.id) matches Some(t) && is_fresh_tree(t),
        forall|other: i32|
            other != agent@.id ==> #[trigger] tree_of(final(simulation_tree).trees@, other) == tree_of(
                old(simulation_tree).trees@,
                other,
            ),
{
    let mut tree = MCTSTree::new();
    tree.initialize_tree();
    assert(tree.arena() =~= seq![
        NodeView {
            node_type: NodeType::NullNode,
            visits: 0,
            total_reward: 0,
            depth: 0,
            parent: None,
            children: Seq::empty(),
        },
        NodeView {
            node_type: NodeType::NullNode,
            visits: 0,
            total_reward: 0,
            depth: 1,
            parent: None,
            children: Seq::empty(),
        },
    ]);
    simulation_tree.add_tree(agent.get_id(), tree);
}

/// A new agent with id `id` on `spawn`, at full energy and with a fresh tree.
pub fn add_agent(spawn: Position, id: i32, simulation_tree: &mut SimulationTree) -> (r: (Agent, NPCBase))
    requires
        old(simulation_tree).wf(),
    ensures
        final(simulation_tree).wf(),
        r.0@ == fresh_agent(id),
        r.1 == (NPCBase { npc_type: NPCType::Agent, position: spawn, energy: 100, max_energy: 100 }),
        tree_of(final(simulation_tree).trees@, id) matches Some(t) && is_fresh_tree(t),
        forall|other: i32|
            other != id ==> #[trigger] tree_of(final(simulation_tree).trees@, other) == tree_of(
                old(simulation_tree).trees@,
                other,
            ),
{
    let npc_base = NPCBase::new(spawn.x, spawn.y, NPCType::Agent);
    let agent = Agent::new_agent(id);
    assign_tree(&agent, simulation_tree);
    (agent, npc_base)
}

/// Places `count` new agents with the ids `first_id`, `first_id + 1`, ...,
/// agent `i` on `spawn_locations[i % spawn_locations.len()]`, each with a
/// fresh tree.
pub fn populate_agents(
    count: usize,
    spawn_locations: &[Position],
    first_id: i32,
    simulation_tree: &mut SimulationTree,
) -> (r: Vec<(Agent, NPCBase)>)
    requires
        old(simulation_tree).wf(),
        count > 0 ==> spawn_locations@.len() > 0,
        first_id + count <= i32::MAX,
        count <= i32::MAX,
    ensures
        final(simulation_tree).wf(),
        agents_placed(r@, count as int, spawn_locations@, first_id as int),
        trees_assigned(old(simulation_tree).trees@, final(simulation_tree).trees@, first_id as int, count as int),
{
    let mut r: Vec<(Agent, NPCBase)> = Vec::new();
    let mut i: usize = 0;
    while i < count
        invariant
            simulation_tree.wf(),
            count > 0 ==> spawn_locations@.len() > 0,
            first_id + count <= i32::MAX,
            count <= i32::MAX,
            0 <= i <= count,
            r@.len() == i,
            forall|k: int|
                0 <= k < i ==> {
                    &&& (#[trigger] r@[k]).0@ == fresh_agent((first_id + k) as i32)
                    &&& r@[k].1 == (NPCBase {
                        npc_type: NPCType::Agent,
                        position: spawn_locations@[k % spawn_locations@.len() as int],
                        energy: 100,
                        max_energy: 100,
                    })
                },
            forall|id: i32|
                first_id <= id < first_id + i ==> (#[trigger] tree_of(simulation_tree.trees@, id) matches Some(
                    t,
                ) && is_fresh_tree(t)),
            forall|id: i32|
                !(first_id <= id < first_id + i) ==> #[trigger] tree_of(simulation_tree.trees@, id) == tree_of(
                    old(simulation_tree).trees@,
                    id,
                ),
        decreases count - i,
    {
        let spawn = spawn_locations[i % spawn_locations.len()];
        let id = first_id + i as i32;
        let ghost before = simulation_tree.trees@;
        let entry = add_agent(spawn, id, simulation_tree);
        r.push(entry);
        proof {
            assert forall|x: i32| first_id <= x < first_id + i + 1 implies (#[trigger] tree_of(simulation_tree.trees@, x) matches Some(
                t,
            ) && is_fresh_tree(t)) by {
                if x != id {
                    assert(tree_of(simulation_tree.trees@, x) == tree_of(before, x));
                }
            }
        }
        i = i + 1;
    }
    r
}

/// Places up to `count` monsters, each on a position drawn from
/// `valid_spawns`; none when there is no valid position.
pub fn populate_monsters(count: usize, valid_spawns: &[Position], rng: &mut StdRng) -> (r: Vec<(Monster, NPCBase)>)
    ensures
        monsters_placed(r@, count as int, valid_spawns@),
{
    let mut r: Vec<(Monster, NPCBase)> = Vec::new();
    let mut i: usize = 0;
    while i < count
        invariant
            0 <= i <= count,
            r@.len() == (if valid_spawns@.len() == 0 { 0 } else { i as int }),
            forall|k: int|
                0 <= k < r@.len() ==> {
                    let p = (#[trigger] r@[k]).1.position;
                    &&& valid_spawns@.contains(p)
                    &&& r@[k].1 == (NPCBase { npc_type: NPCType::Monster, position: p, energy: 100, max_energy: 100 })
                    &&& r@[k].0@ == (MonsterView {
                        id: 0,
                        start_position: p,
                        current_position: p,
                        target_id: i32::MAX,
                        reward: 0,
                        status: Status::Idle,
                    })
                },
        decreases count - i,
    {
        if let Some(spawn) = choose_spawn(rng, valid_spawns) {
            let npc_base = NPCBase::new(spawn.x, spawn.y, NPCType::Monster);
            let monster = Monster::new_monster(spawn);
            r.push((monster, npc_base));
        }
        i = i + 1;
    }
    r
}

/// Places up to `count` treasures, each on a position drawn from
/// `valid_spawns`, numbering them on from `*next_id` (each new treasure gets
/// the number after the last one); none when there is no valid position.
pub fn populate_treasures(
    count: usize,
    valid_spawns: &[Position],
    rng: &mut StdRng,
    next_id: &mut i32,
) -> (r: Vec<(Treasure, NPCBase)>)
    requires
        *old(next_id) + count <= i32::MAX,
    ensures
        treasures_placed(r@, count as int, valid_spawns@, *old(next_id) as int),
        *final(next_id) == *old(next_id) + r@.len(),
{
    let mut r: Vec<(Treasure, NPCBase)> = Vec::new();
    let mut i: usize = 0;
    while i < count
        invariant
            0 <= i <= count,
            *old(next_id) + count <= i32::MAX,
            r@.len() == (if valid_spawns@.len() == 0 { 0 } else { i as int }),
            *next_id == *old(next_id) + r@.len(),
            forall|k: int|
                0 <= k < r@.len() ==> {
                    let p = (#[trigger] r@[k]).1.position;
                    &&& valid_spawns@.contains(p)
                    &&& r@[k].1 == (NPCBase {
                        npc_type: NPCType::Treasure,
                        position: p,
                        energy: 100,
                        max_energy: 100,
                    })
                    &&& r@[k].0.id_spec() == *old(next_id) + k + 1
                    &&& r@[k].0.reward_spec() == 100
                },
        decreases count - i,
    {
        if let Some(spawn) = choose_spawn(rng, valid_spawns) {
            let npc_base = NPCBase::new(spawn.x, spawn.y, NPCType::Treasure);
            *next_id = *next_id + 1;
            let treasure = Treasure::new_treasure(*next_id);
            r.push((treasure, npc_base));
        }
        i = i + 1;
    }
    r
}

/// What setting up a game gives: the player, the agents, monsters and
/// treasures with their NPCs, the copy of the world that simulations run on,
/// and the number of iterations.
pub struct SetupState {
    pub player: Option<NPCBase>,
    pub agents: Vec<(Agent, NPCBase)>,
    pub monsters: Vec<(Monster, NPCBase)>,
    pub treasures: Vec<(Treasure, NPCBase)>,
    pub world_sim: GameWorld,
    pub iteration_total: i32,
}

/// Sets up a game on `world`: the player starts on the first village; 10
/// agents with the ids from `first_agent_id` on start on the villages in turn,
/// each with a fresh tree; 5 monsters and 5 treasures (numbered on from
/// `*next_treasure_id`) appear on positions drawn from those where they may
/// appear; the simulation world is a copy of `world`, and 50 iterations are
/// run.
pub fn setup(
    world: &GameWorld,
    rng: &mut StdRng,
    simulation_tree: &mut SimulationTree,
    first_agent_id: i32,
    next_treasure_id: &mut i32,
) -> (s: SetupState)
    requires
        old(simulation_tree).wf(),
        village_positions(world.tiles@).len() > 0,
        first_agent_id + START_AGENT_COUNT <= i32::MAX,
        *old(next_treasure_id) + START_TREASURE_COUNT <= i32::MAX,
    ensures
        final(simulation_tree).wf(),
        s.player == Some(
            NPCBase {
                npc_type: NPCType::Player,
                position: village_positions(world.tiles@)[0],
                energy: 100,
                max_energy: 100,
            },
        ),
        agents_placed(s.agents@, START_AGENT_COUNT as int, village_positions(world.tiles@), first_agent_id as int),
        trees_assigned(
            old(simulation_tree).trees@,
            final(simulation_tree).trees@,
            first_agent_id as int,
            START_AGENT_COUNT as int,
        ),
        monsters_placed(
            s.monsters@,
            START_MONSTER_COUNT as int,
            monster_spawn_positions(world.tiles@, village_positions(world.tiles@)),
        ),
        treasures_placed(
            s.treasures@,
            START_TREASURE_COUNT as int,
            monster_spawn_positions(world.tiles@, village_positions(world.tiles@)),
            *old(next_treasure_id) as int,
        ),
        *final(next_treasure_id) == *old(next_treasure_id) + s.treasures@.len(),
        s.world_sim.tiles@ == world.tiles@,
        s.world_sim.width_mind == world.width_mind,
        s.world_sim.height_min == world.height_min,
        s.world_sim.width_max == world.width_max,
        s.world_sim.height_max == world.height_max,
        s.iteration_total == 50,
{
    let spawns = spawn_locations(world);
    let player = if spawns.len() > 0 {
        Some(add_player(spawns[0]))
    } else {
        None
    };
    let agents = populate_agents(START_AGENT_COUNT, spawns.as_slice(), first_agent_id, simulation_tree);
    let valid = valid_monster_treasure_spawns(world, spawns.as_slice());
    let monsters = populate_monsters(START_MONSTER_COUNT, valid.as_slice(), rng);
    let treasures = populate_treasures(START_TREASURE_COUNT, valid.as_slice(), rng, next_treasure_id);
    SetupState { player, agents, monsters, treasures, world_sim: world.copy(), iteration_total: 50 }
}

} // verus!
