use vstd::prelude::*;
use crate::gameworld::position::{Position, abs_diff, manhattan};
use crate::gameworld::tile::Tile;
use crate::gameworld::world::GameWorld;
use crate::npcs::agent::{Agent, AgentView};
use crate::npcs::monster::Monster;
use crate::npcs::npc_action::NpcAction;
use crate::npcs::npc_base::NPCBase;
use crate::npcs::npc_status::Status;
use crate::npcs::target::Target;
use crate::npcs::treasure::Treasure;
use crate::system::agent_messages::{
    MessageVerdict, agent_slot, attack_outcome, rest_outcome, reward_outcome, share_out, steal_outcome, village_for,
};
use crate::gameworld::tile_types::TileType;
use crate::gameworld::world::{closest_of_type, is_closest_of_type, lemma_village_positions_cover, village_positions};
use crate::system::simulation::agent_status::{SelectionObservation, Surroundings, actual_status_step, mcst_step};
use crate::system::simulation::handle_selected_action::{agent_ids, closest_village, index_of_first, lemma_index_of_first};
use crate::system::messages::{AgentMessage, MessageType, MonsterMessage};
use crate::system::mcst_tree::mcst_node::NodeView;
use crate::system::mcst_tree::mcst_tree::{height, max_child_height};
use crate::system::setup::{monster_spawn_positions, spawnable_type};
use crate::system::simulation::agent_status::{StatusObservation, status_step};
use crate::system::simulation::handle_selected_action::{
    idle_outcome, is_nearest, lemma_nearest_index, monster_positions, near, treasure_positions,
};

verus! {

/// An idle treasure hunter goes for the treasure nearest to it (in Manhattan
/// distance, the first of several equally near): it targets that treasure,
/// works at it when it stands next to it, and otherwise sets off.
pub proof fn law_idle_hunter_takes_nearest_treasure(
    world: &GameWorld,
    agents: Seq<(Position, Agent, NPCBase)>,
    monsters: Seq<(Position, Monster, NPCBase)>,
    treasures: Seq<(Position, Treasure, NPCBase)>,
    from: Position,
    best: Option<i32>,
    worst: Option<i32>,
    old: AgentView,
    new: AgentView,
    k: int,
)
    requires
        old.action == NpcAction::TreasureHunt,
        idle_outcome(world, agents, monsters, treasures, from, best, worst, old, new),
        0 <= k < treasures.len(),
        forall|j: int|
            0 <= j < treasures.len() ==> manhattan(from, treasures[k].0) <= manhattan(from, #[trigger] treasures[j].0),
        forall|j: int| 0 <= j < k ==> manhattan(from, treasures[k].0) < manhattan(from, #[trigger] treasures[j].0),
    ensures
        new.treasure_target_id == treasures[k].1.id_spec(),
        near(from, treasures[k].0, 1) ==> new.status == Status::Working && new.path == old.path,
        !near(from, treasures[k].0, 1) ==> new.status == Status::Moving,
{
    let ps = treasure_positions(treasures);
    assert forall|j: int| 0 <= j < ps.len() implies manhattan(from, ps[k]) <= manhattan(from, #[trigger] ps[j]) by {
        assert(ps[j] == treasures[j].0);
        assert(ps[k] == treasures[k].0);
    }
    assert forall|j: int| 0 <= j < k implies manhattan(from, ps[k]) < manhattan(from, #[trigger] ps[j]) by {
        assert(ps[j] == treasures[j].0);
        assert(ps[k] == treasures[k].0);
    }
    assert(is_nearest(ps, from, k));
    lemma_nearest_index(ps, from, k);
}

/// An idle agent attacking monsters goes for the monster nearest to it (the
/// first of several equally near): it targets that monster, attacks when it
/// stands next to it, and otherwise sets off.
pub proof fn law_idle_hunter_takes_nearest_monster(
    world: &GameWorld,
    agents: Seq<(Position, Agent, NPCBase)>,
    monsters: Seq<(Position, Monster, NPCBase)>,
    treasures: Seq<(Position, Treasure, NPCBase)>,
    from: Position,
    best: Option<i32>,
    worst: Option<i32>,
    old: AgentView,
    new: AgentView,
    k: int,
)
    requires
        old.action == NpcAction::AttackMonster,
        idle_outcome(world, agents, monsters, treasures, from, best, worst, old, new),
        0 <= k < monsters.len(),
        forall|j: int|
            0 <= j < monsters.len() ==> manhattan(from, monsters[k].0) <= manhattan(from, #[trigger] monsters[j].0),
        forall|j: int| 0 <= j < k ==> manhattan(from, monsters[k].0) < manhattan(from, #[trigger] monsters[j].0),
    ensures
        new.monster_target_id == monsters[k].1@.id,
        near(from, monsters[k].0, 1) ==> new.status == Status::Attacking && new.path == old.path,
        !near(from, monsters[k].0, 1) ==> new.status == Status::Moving,
{
    let ps = monster_positions(monsters);
    assert forall|j: int| 0 <= j < ps.len() implies manhattan(from, ps[k]) <= manhattan(from, #[trigger] ps[j]) by {
        assert(ps[j] == monsters[j].0);
        assert(ps[k] == monsters[k].0);
    }
    assert forall|j: int| 0 <= j < k implies manhattan(from, ps[k]) < manhattan(from, #[trigger] ps[j]) by {
        assert(ps[j] == monsters[j].0);
        assert(ps[k] == monsters[k].0);
    }
    assert(is_nearest(ps, from, k));
    lemma_nearest_index(ps, from, k);
}

/// Monsters and treasures may appear exactly on the tiles of a spawnable type
/// that lie more than 5 tiles away, along at least one axis, from every
/// village.
pub proof fn law_spawns_far_from_every_village(s: Seq<(Position, Tile)>, villages: Seq<Position>)
    ensures
        forall|i: int, k: int|
            0 <= i < monster_spawn_positions(s, villages).len() && 0 <= k < villages.len() ==> abs_diff(
                (#[trigger] villages[k]).x as int,
                (#[trigger] monster_spawn_positions(s, villages)[i]).x as int,
            ) > 5 || abs_diff(villages[k].y as int, monster_spawn_positions(s, villages)[i].y as int) > 5,
        forall|i: int|
            #![trigger monster_spawn_positions(s, villages)[i]]
            0 <= i < monster_spawn_positions(s, villages).len() ==> exists|j: int|
                0 <= j < s.len() && #[trigger] s[j].0 == monster_spawn_positions(s, villages)[i] && spawnable_type(
                    s[j].1.tile_type,
                ),
        forall|j: int|
            0 <= j < s.len() && spawnable_type(#[trigger] s[j].1.tile_type) && (forall|k: int|
                0 <= k < villages.len() ==> abs_diff((#[trigger] villages[k]).x as int, s[j].0.x as int) > 5 || abs_diff(
                    villages[k].y as int,
                    s[j].0.y as int,
                ) > 5) ==> monster_spawn_positions(s, villages).contains(s[j].0),
    decreases s.len(),
{
    if s.len() > 0 {
        let front = s.drop_last();
        law_spawns_far_from_every_village(front, villages);
        let rf = monster_spawn_positions(front, villages);
        let r = monster_spawn_positions(s, villages);
        assert forall|i: int, k: int|
            0 <= i < r.len() && 0 <= k < villages.len() implies abs_diff(
            (#[trigger] villages[k]).x as int,
            (#[trigger] r[i]).x as int,
        ) > 5 || abs_diff(villages[k].y as int, r[i].y as int) > 5 by {
            if i < rf.len() {
                assert(r[i] == rf[i]);
                assert(abs_diff(villages[k].x as int, rf[i].x as int) > 5 || abs_diff(villages[k].y as int, rf[i].y as int)
                    > 5);
            } else {
                assert(r[i] == s.last().0);
            }
        }
        assert forall|i: int| #![trigger r[i]] 0 <= i < r.len() implies exists|j: int|
            0 <= j < s.len() && #[trigger] s[j].0 == r[i] && spawnable_type(s[j].1.tile_type) by {
            if i < rf.len() {
                assert(r[i] == rf[i]);
                let j = choose|j: int|
                    0 <= j < front.len() && #[trigger] front[j].0 == rf[i] && spawnable_type(front[j].1.tile_type);
                assert(s[j] == front[j]);
            } else {
                assert(r[i] == s.last().0);
                assert(s[s.len() - 1] == s.last());
            }
        }
        assert forall|j: int|
            0 <= j < s.len() && spawnable_type(#[trigger] s[j].1.tile_type) && (forall|k: int|
                0 <= k < villages.len() ==> abs_diff((#[trigger] villages[k]).x as int, s[j].0.x as int) > 5
                    || abs_diff(villages[k].y as int, s[j].0.y as int) > 5) implies r.contains(s[j].0) by {
            if j < front.len() {
                assert(front[j] == s[j]);
                assert(spawnable_type(front[j].1.tile_type));
                assert(rf.contains(front[j].0));
                let i = choose|i: int| 0 <= i < rf.len() && rf[i] == front[j].0;
                assert(r[i] == rf[i]);
            } else {
                assert(s[j] == s.last());
                assert(r[rf.len() as int] == s.last().0);
            }
        }
    }
}

proof fn lemma_max_child_height(a: Seq<NodeView>, cs: Seq<usize>, k: int, fuel: nat)
    requires
        0 <= k <= cs.len(),
    ensures
        forall|j: int| 0 <= j < k ==> max_child_height(a, cs, k, fuel) >= height(a, #[trigger] cs[j] as int, fuel),
        k > 0 ==> exists|j: int| 0 <= j < k && max_child_height(a, cs, k, fuel) == height(a, #[trigger] cs[j] as int, fuel),
        k == 0 ==> max_child_height(a, cs, k, fuel) == 0,
    decreases k,
{
    if k > 0 {
        lemma_max_child_height(a, cs, k - 1, fuel);
        if k > 1 {
            let j0 = choose|j: int| 0 <= j < k - 1 && max_child_height(a, cs, k - 1, fuel) == height(a, #[trigger] cs[j] as int, fuel);
            assert(0 <= j0 < k);
        }
        assert(height(a, cs[k - 1] as int, fuel) == height(a, cs[k - 1] as int, fuel));
    }
}

/// The height of a node is one more than the height of its highest child:
/// at least one more than the height of every child, exactly one more than
/// that of some child, and 1 for a leaf.
pub proof fn law_height_tops_every_child(a: Seq<NodeView>, i: int, fuel: nat)
    requires
        0 <= i < a.len(),
        fuel > 0,
    ensures
        a[i].children.len() == 0 ==> height(a, i, fuel) == 1,
        forall|j: int|
            0 <= j < a[i].children.len() ==> height(a, i, fuel) >= 1 + height(
                a,
                #[trigger] a[i].children[j] as int,
                (fuel - 1) as nat,
            ),
        a[i].children.len() > 0 ==> exists|j: int|
            0 <= j < a[i].children.len() && height(a, i, fuel) == 1 + height(
                a,
                #[trigger] a[i].children[j] as int,
                (fuel - 1) as nat,
            ),
{
    lemma_max_child_height(a, a[i].children, a[i].children.len() as int, (fuel - 1) as nat);
}

/// An attacked leader of a group acts on what the group decided: it turns on
/// the attacker and strikes back with 3 for each member (kept to a byte),
/// towards the monster for a monster's attack, or, without a fight, flees
/// towards the village given for it (keeping its tile target when none is
/// given) and sends nothing. No other agent changes.
pub proof fn law_attacked_group_fights_or_flees(
    agents: Seq<AgentView>,
    bases: Seq<NPCBase>,
    r: int,
    sender: i32,
    x: u8,
    v: MessageVerdict,
    villages: Seq<(i32, Position)>,
    monster: bool,
)
    requires
        0 <= r < agents.len(),
        agents.len() == bases.len(),
        agents[r].leader,
        agents[r].followers.len() > 0,
    ensures
        ({
            let o = attack_outcome(agents, bases, r, sender, x, v, villages, monster);
            let a = agents[r];
            let strike = ((3 * (a.followers.len() + 1)) % 256) as u8;
            &&& o.0.len() == agents.len()
            &&& forall|j: int| 0 <= j < agents.len() && j != r ==> #[trigger] o.0[j] == agents[j]
            &&& o.0[r].id == a.id && o.0[r].followers == a.followers && o.0[r].reward == a.reward
            &&& !v.fight ==> {
                &&& o.0[r].status == Status::Fleeing
                &&& o.0[r].tile_target == (match village_for(villages, a.id) {
                    Some(p) => Some(p),
                    None => a.tile_target,
                })
                &&& o.2.len() == 0
                &&& o.3.len() == 0
            }
            &&& v.fight ==> {
                &&& o.0[r].status == Status::Retaliating
                &&& o.0[r].retaliation_target == Target::Agent
                &&& o.0[r].retaliation_target_id == sender
                &&& monster ==> o.2.len() == 0 && o.3 == seq![
                    MonsterMessage { sender_id: a.id, receiver_id: sender, message_type: MessageType::Attack(strike) },
                ]
                &&& !monster ==> o.3.len() == 0 && o.2 == seq![
                    AgentMessage { sender_id: a.id, receiver_id: sender, message_type: MessageType::Attack(strike) },
                ]
            }
        }),
{
}

/// An agent alone that is attacked loses the attack's strength in energy
/// (down to 0); unless already busy it flees without a fight, or turns on
/// the attacker and strikes back with 5.
pub proof fn law_attacked_agent_alone(
    agents: Seq<AgentView>,
    bases: Seq<NPCBase>,
    r: int,
    sender: i32,
    x: u8,
    v: MessageVerdict,
    villages: Seq<(i32, Position)>,
    monster: bool,
)
    requires
        0 <= r < agents.len(),
        agents.len() == bases.len(),
        agents[r].leader,
        agents[r].followers.len() == 0,
    ensures
        ({
            let o = attack_outcome(agents, bases, r, sender, x, v, villages, monster);
            let a = agents[r];
            let busy = a.status == Status::Retaliating || a.status == Status::Fleeing || a.status == Status::Recovering
                || a.status == Status::Attacking;
            &&& o.1.len() == bases.len()
            &&& o.1[r].energy == (if bases[r].energy >= x { bases[r].energy - x } else { 0 })
            &&& forall|j: int| 0 <= j < bases.len() && j != r ==> #[trigger] o.1[j] == bases[j]
            &&& busy ==> o.0 == agents && o.2.len() == 0 && o.3.len() == 0
            &&& !busy && !v.fight ==> o.0[r].status == Status::Fleeing && o.2.len() == 0 && o.3.len() == 0
            &&& !busy && v.fight ==> {
                &&& o.0[r].status == Status::Retaliating
                &&& o.0[r].retaliation_target_id == sender
                &&& o.0[r].retaliation_target == (if monster { Target::Monster } else { Target::Agent })
                &&& o.2.len() + o.3.len() == 1
            }
        }),
{
}

/// A non-leading agent that is idle or moving and reaches the target of its
/// action starts on the action, and needs no path: a thief, a talker or a
/// treasure hunter works, an attacker attacks, a resting agent at the
/// closest village recovers.
pub proof fn law_arriving_starts_the_action(a: AgentView, at: Position, o: StatusObservation)
    requires
        !a.leader,
        a.status == Status::Idle || a.status == Status::Moving,
    ensures
        a.action == NpcAction::Steal && o.near_agent ==> status_step(a, at, o).0.status == Status::Working
            && !status_step(a, at, o).1,
        a.action == NpcAction::Talk && o.near_agent ==> status_step(a, at, o).0.status == Status::Working
            && !status_step(a, at, o).1,
        a.action == NpcAction::AttackAgent && o.near_agent ==> status_step(a, at, o).0.status == Status::Attacking
            && !status_step(a, at, o).1,
        a.action == NpcAction::AttackMonster && o.near_monster ==> status_step(a, at, o).0.status == Status::Attacking
            && !status_step(a, at, o).1,
        a.action == NpcAction::TreasureHunt && o.near_treasure ==> status_step(a, at, o).0.status == Status::Working
            && !status_step(a, at, o).1,
        a.action == NpcAction::Rest && o.village == Some(at) ==> status_step(a, at, o).0.status == Status::Recovering
            && !status_step(a, at, o).1,
        status_step(a, at, o).0.action == a.action,
        status_step(a, at, o).0.agent_target_id == a.agent_target_id,
{
}

/// A non-leading agent that is idle or moving and has not reached the
/// target of its action is on its way and needs a path.
pub proof fn law_not_arrived_keeps_moving(a: AgentView, at: Position, o: StatusObservation)
    requires
        !a.leader,
        a.status == Status::Idle || a.status == Status::Moving,
        (a.action == NpcAction::Steal || a.action == NpcAction::Talk || a.action == NpcAction::AttackAgent) ==> !o.near_agent,
        a.action == NpcAction::AttackMonster ==> !o.near_monster,
        a.action == NpcAction::TreasureHunt ==> !o.near_treasure,
        a.action == NpcAction::Rest ==> o.village != Some(at),
    ensures
        status_step(a, at, o).0.status == Status::Moving,
        status_step(a, at, o).1,
{
}

/// Among the first `m` marked entries of `d`, one is smallest, the first
/// such when several are.
proof fn lemma_first_min(d: Seq<int>, good: Seq<bool>, m: int)
    requires
        d.len() == good.len(),
        0 <= m <= d.len(),
        exists|j: int| 0 <= j < m && #[trigger] good[j],
    ensures
        exists|k: int|
            0 <= k < m && good[k] && (forall|j: int| 0 <= j < m && #[trigger] good[j] ==> d[k] <= d[j]) && (forall|j: int|
                0 <= j < k && #[trigger] good[j] ==> d[k] < d[j]),
    decreases m,
{
    if exists|j: int| 0 <= j < m - 1 && #[trigger] good[j] {
        lemma_first_min(d, good, m - 1);
        let k = choose|k: int|
            0 <= k < m - 1 && good[k] && (forall|j: int| 0 <= j < m - 1 && #[trigger] good[j] ==> d[k] <= d[j]) && (forall|j: int|
                0 <= j < k && #[trigger] good[j] ==> d[k] < d[j]);
        if good[m - 1] && d[m - 1] < d[k] {
            assert(forall|j: int| 0 <= j < m && #[trigger] good[j] ==> d[m - 1] <= d[j]);
            assert(forall|j: int| 0 <= j < m - 1 && #[trigger] good[j] ==> d[m - 1] < d[j]);
        } else {
            assert(forall|j: int| 0 <= j < m && #[trigger] good[j] ==> d[k] <= d[j]);
        }
    } else {
        assert(good[m - 1]);
        assert(forall|j: int| 0 <= j < m && #[trigger] good[j] ==> j == m - 1);
    }
}

/// The closest tile of a type is a tile of that type at the smallest
/// Manhattan distance; there is one whenever a tile of that type lies closer
/// than `i32::MAX`.
pub proof fn law_closest_of_type_is_nearest(s: Seq<(Position, Tile)>, pos: Position, tt: TileType)
    ensures
        closest_of_type(s, pos, tt) matches Some(p) ==> exists|k: int|
            0 <= k < s.len() && #[trigger] s[k].0 == p && s[k].1.tile_type == tt && forall|j: int|
                0 <= j < s.len() && (#[trigger] s[j]).1.tile_type == tt ==> manhattan(pos, p) <= manhattan(pos, s[j].0),
        (exists|j: int| 0 <= j < s.len() && (#[trigger] s[j]).1.tile_type == tt && manhattan(pos, s[j].0) < i32::MAX)
            ==> closest_of_type(s, pos, tt) is Some,
{
    if exists|k: int| is_closest_of_type(s, pos, tt, k) {
        let k = choose|k: int| is_closest_of_type(s, pos, tt, k);
        assert(s[k].0 == s[k].0);
    }
    if exists|j: int| 0 <= j < s.len() && (#[trigger] s[j]).1.tile_type == tt && manhattan(pos, s[j].0) < i32::MAX {
        let j0 = choose|j: int| 0 <= j < s.len() && (#[trigger] s[j]).1.tile_type == tt && manhattan(pos, s[j].0) < i32::MAX;
        let d = s.map_values(|e: (Position, Tile)| manhattan(pos, e.0));
        let good = s.map_values(|e: (Position, Tile)| e.1.tile_type == tt);
        assert(good[j0]);
        lemma_first_min(d, good, s.len() as int);
        let k = choose|k: int|
            0 <= k < s.len() && good[k] && (forall|j: int| 0 <= j < s.len() && #[trigger] good[j] ==> d[k] <= d[j]) && (
            forall|j: int| 0 <= j < k && #[trigger] good[j] ==> d[k] < d[j]);
        assert(d[k] <= d[j0]);
        assert forall|j: int| 0 <= j < s.len() && (#[trigger] s[j]).1.tile_type == tt implies manhattan(pos, s[k].0)
            <= manhattan(pos, s[j].0) by {
            assert(good[j]);
        }
        assert forall|j: int| 0 <= j < k && (#[trigger] s[j]).1.tile_type == tt implies manhattan(pos, s[k].0)
            < manhattan(pos, s[j].0) by {
            assert(good[j]);
        }
        assert(is_closest_of_type(s, pos, tt, k));
    }
}

/// An idle agent attacking or robbing another goes for the agent it picked
/// (the best to attack, the worst to rob), found by id: it targets it,
/// attacks or robs when next to it and otherwise sets off; with no agent
/// picked, or none with that id, nothing changes.
pub proof fn law_idle_agent_goes_for_picked_agent(
    world: &GameWorld,
    agents: Seq<(Position, Agent, NPCBase)>,
    monsters: Seq<(Position, Monster, NPCBase)>,
    treasures: Seq<(Position, Treasure, NPCBase)>,
    from: Position,
    best: Option<i32>,
    worst: Option<i32>,
    old: AgentView,
    new: AgentView,
    k: int,
)
    requires
        old.action == NpcAction::AttackAgent || old.action == NpcAction::Steal,
        idle_outcome(world, agents, monsters, treasures, from, best, worst, old, new),
    ensures
        ({
            let picked = if old.action == NpcAction::AttackAgent { best } else { worst };
            &&& picked is None ==> new == old
            &&& picked matches Some(id) ==> {
                &&& (forall|j: int| 0 <= j < agents.len() ==> (#[trigger] agents[j]).1@.id != id) ==> new == old
                &&& 0 <= k < agents.len() && agents[k].1@.id == id && (forall|j: int|
                    0 <= j < k ==> (#[trigger] agents[j]).1@.id != id) ==> {
                    &&& new.agent_target_id == id
                    &&& near(from, agents[k].0, 1) ==> new.status == (if old.action == NpcAction::AttackAgent {
                        Status::Attacking
                    } else {
                        Status::Working
                    })
                    &&& !near(from, agents[k].0, 1) ==> new.status == Status::Moving
                }
            }
        }),
{
    let picked = if old.action == NpcAction::AttackAgent { best } else { worst };
    if let Some(id) = picked {
        let ids = agent_ids(agents);
        if forall|j: int| 0 <= j < agents.len() ==> (#[trigger] agents[j]).1@.id != id {
            if index_of_first(ids, id) is Some {
                let i = choose|i: int| 0 <= i < ids.len() && ids[i] == id && forall|m: int| 0 <= m < i ==> ids[m] != id;
                assert(agents[i].1@.id == ids[i]);
            }
        }
        if 0 <= k < agents.len() && agents[k].1@.id == id && (forall|j: int| 0 <= j < k ==> (#[trigger] agents[j]).1@.id != id) {
            assert forall|m: int| 0 <= m < k implies ids[m] != id by {
                assert(ids[m] == agents[m].1@.id);
            }
            assert(ids[k] == id);
            lemma_index_of_first(ids, id, k);
        }
    }
}

/// An idle agent that rests or talks goes to the closest village: there it
/// recovers or talks, otherwise it sets off; with no village nothing changes.
pub proof fn law_idle_agent_rests_at_closest_village(
    world: &GameWorld,
    agents: Seq<(Position, Agent, NPCBase)>,
    monsters: Seq<(Position, Monster, NPCBase)>,
    treasures: Seq<(Position, Treasure, NPCBase)>,
    from: Position,
    best: Option<i32>,
    worst: Option<i32>,
    old: AgentView,
    new: AgentView,
)
    requires
        old.action == NpcAction::Rest || old.action == NpcAction::Talk,
        idle_outcome(world, agents, monsters, treasures, from, best, worst, old, new),
    ensures
        closest_village(world, from) is None ==> new == old,
        closest_village(world, from) == Some(from) ==> new.status == (if old.action == NpcAction::Rest {
            Status::Recovering
        } else {
            Status::Talking
        }) && new.path == old.path && new.tile_target == old.tile_target,
        closest_village(world, from) matches Some(v) && v != from ==> new.status == Status::Moving,
{
    if let Some(v) = closest_village(world, from) {
        if v == from {
            assert(near(from, v, 0));
        } else {
            assert(!near(from, v, 0));
        }
    }
}

/// A reward for an agent that leads no group goes to it whole; no other
/// agent changes.
pub proof fn law_reward_whole_outside_groups(agents: Seq<AgentView>, r: int, x: u32, v: MessageVerdict)
    requires
        0 <= r < agents.len(),
        !(agents[r].leader && agents[r].followers.len() > 0),
        agents[r].reward + x <= u32::MAX,
    ensures
        reward_outcome(agents, r, x, v).len() == agents.len(),
        reward_outcome(agents, r, x, v)[r].reward == agents[r].reward + x,
        forall|j: int| 0 <= j < agents.len() && j != r ==> #[trigger] reward_outcome(agents, r, x, v)[j] == agents[j],
{
}

proof fn lemma_share_out(s: Seq<AgentView>, ids: Seq<i32>, share: u32)
    requires
        forall|a: int, b: int| 0 <= a < b < s.len() ==> (#[trigger] s[a]).id != (#[trigger] s[b]).id,
        ids.no_duplicates(),
        forall|j: int| 0 <= j < s.len() ==> (#[trigger] s[j]).reward + share <= u32::MAX,
    ensures
        share_out(s, ids, share).len() == s.len(),
        forall|j: int|
            0 <= j < s.len() ==> (#[trigger] share_out(s, ids, share)[j]) == (AgentView {
                reward: if ids.contains(s[j].id) { (s[j].reward + share) as u32 } else { s[j].reward },
                ..s[j]
            }),
    decreases ids.len(),
{
    if ids.len() > 0 {
        let front = ids.drop_last();
        assert(front.no_duplicates());
        lemma_share_out(s, front, share);
        let b = share_out(s, front, share);
        let id = ids.last();
        assert(!front.contains(id)) by {
            if front.contains(id) {
                let m = choose|m: int| 0 <= m < front.len() && front[m] == id;
                assert(ids[m] == ids[ids.len() - 1]);
            }
        }
        let bids = b.map_values(|a: AgentView| a.id);
        assert forall|j: int| 0 <= j < b.len() implies b[j].id == s[j].id by {
            assert(b[j] == share_out(s, front, share)[j]);
        }
        match agent_slot(b, id) {
            Some(k) => {
                let i = choose|i: int|
                    0 <= i < bids.len() && bids[i] == id && forall|m: int| 0 <= m < i ==> bids[m] != id;
                lemma_index_of_first(bids, id, i);
                assert(bids[i] == b[i].id);
                assert forall|j: int| 0 <= j < s.len() implies (#[trigger] share_out(s, ids, share)[j]) == (AgentView {
                    reward: if ids.contains(s[j].id) { (s[j].reward + share) as u32 } else { s[j].reward },
                    ..s[j]
                }) by {
                    if j == k {
                        assert(ids[ids.len() - 1] == id);
                        assert(!front.contains(s[j].id));
                    } else {
                        assert(s[j].id != s[k].id);
                        if ids.contains(s[j].id) {
                            let m = choose|m: int| 0 <= m < ids.len() && ids[m] == s[j].id;
                            assert(m < ids.len() - 1);
                            assert(front[m] == s[j].id);
                        }
                        if front.contains(s[j].id) {
                            let m = choose|m: int| 0 <= m < front.len() && front[m] == s[j].id;
                            assert(ids[m] == s[j].id);
                        }
                    }
                }
            },
            None => {
                assert forall|j: int| 0 <= j < s.len() implies (#[trigger] share_out(s, ids, share)[j]) == (AgentView {
                    reward: if ids.contains(s[j].id) { (s[j].reward + share) as u32 } else { s[j].reward },
                    ..s[j]
                }) by {
                    if s[j].id == id {
                        assert(bids[j] == id);
                        assert(exists|i: int| 0 <= i < bids.len() && bids[i] == id);
                        let i0 = choose|i: int| 0 <= i < bids.len() && bids[i] == id;
                        assert(false) by {
                            lemma_first_exists(bids, id, i0);
                        }
                    }
                    if ids.contains(s[j].id) {
                        let m = choose|m: int| 0 <= m < ids.len() && ids[m] == s[j].id;
                        if m < ids.len() - 1 {
                            assert(front[m] == s[j].id);
                        }
                    }
                    if front.contains(s[j].id) {
                        let m = choose|m: int| 0 <= m < front.len() && front[m] == s[j].id;
                        assert(ids[m] == s[j].id);
                    }
                }
            },
        }
    } else {
        assert forall|j: int| 0 <= j < s.len() implies !ids.contains(#[trigger] s[j].id) by {}
    }
}

/// When `x` occurs in `s`, it has a first occurrence.
proof fn lemma_first_exists(s: Seq<i32>, x: i32, i: int)
    requires
        0 <= i < s.len(),
        s[i] == x,
    ensures
        index_of_first(s, x) is Some,
    decreases i,
{
    if exists|m: int| 0 <= m < i && s[m] == x {
        let m = choose|m: int| 0 <= m < i && s[m] == x;
        lemma_first_exists(s, x, m);
    } else {
        lemma_index_of_first(s, x, i);
    }
}

/// A reward for the leader of a group (with distinct agent ids, followers
/// listed once and not including the leader) gives the group's share to the
/// leader and to every follower, and nothing to anyone else.
pub proof fn law_reward_shared_by_group(agents: Seq<AgentView>, r: int, x: u32, v: MessageVerdict)
    requires
        0 <= r < agents.len(),
        agents[r].leader,
        agents[r].followers.len() > 0,
        forall|a: int, b: int| 0 <= a < b < agents.len() ==> (#[trigger] agents[a]).id != (#[trigger] agents[b]).id,
        agents[r].followers.no_duplicates(),
        !agents[r].followers.contains(agents[r].id),
        forall|j: int| 0 <= j < agents.len() ==> (#[trigger] agents[j]).reward + 2 * v.reward_share <= u32::MAX,
    ensures
        reward_outcome(agents, r, x, v).len() == agents.len(),
        reward_outcome(agents, r, x, v)[r].reward == agents[r].reward + v.reward_share,
        forall|j: int|
            0 <= j < agents.len() && j != r ==> (#[trigger] reward_outcome(agents, r, x, v)[j]).reward == agents[j].reward
                + (if agents[r].followers.contains(agents[j].id) { v.reward_share as int } else { 0 }),
{
    let a = agents[r];
    let s1 = agents.update(r, AgentView { reward: (a.reward + v.reward_share) as u32, ..a });
    assert forall|p: int, q: int| 0 <= p < q < s1.len() implies (#[trigger] s1[p]).id != (#[trigger] s1[q]).id by {
        assert(s1[p].id == agents[p].id && s1[q].id == agents[q].id);
    }
    assert forall|j: int| 0 <= j < s1.len() implies (#[trigger] s1[j]).reward + v.reward_share <= u32::MAX by {
        assert(agents[j].reward + 2 * v.reward_share <= u32::MAX);
    }
    lemma_share_out(s1, a.followers, v.reward_share);
}

/// A theft of up to `x` takes what the victim has of it (all it has when
/// that is less) and sends exactly that to the thief.
pub proof fn law_theft_takes_what_there_is(agents: Seq<AgentView>, r: int, sender: i32, x: u32, v: MessageVerdict)
    requires
        0 <= r < agents.len(),
    ensures
        ({
            let o = steal_outcome(agents, r, sender, x, v);
            let taken = if agents[r].reward >= x { x as int } else { agents[r].reward as int };
            &&& o.0.len() == agents.len()
            &&& o.0[r].reward == agents[r].reward - taken
            &&& o.1.len() >= 1
            &&& o.1[0] == (AgentMessage { sender_id: agents[r].id, receiver_id: sender, message_type: MessageType::Reward(taken as u32) })
            &&& forall|j: int| 0 <= j < agents.len() && j != r ==> #[trigger] o.0[j] == agents[j]
            &&& !agents[r].leader ==> o.1.len() == 2 && o.1[1] == (AgentMessage {
                sender_id: sender,
                receiver_id: agents[r].leader_id,
                message_type: MessageType::Reward(0),
            }) && o.0[r].status == agents[r].status
            &&& agents[r].leader && !(v.noticed && v.fight) ==> o.1.len() == 1 && o.0[r].status == agents[r].status
        }),
{
}

/// A rest gives 10 energy, up to the maximum, and ends in idleness exactly
/// when the energy is then full.
pub proof fn law_rest_restores_energy(agents: Seq<AgentView>, bases: Seq<NPCBase>, r: int)
    requires
        0 <= r < agents.len(),
        agents.len() == bases.len(),
        bases[r].energy <= bases[r].max_energy,
    ensures
        ({
            let o = rest_outcome(agents, bases, r);
            let e = if bases[r].energy + 10 <= bases[r].max_energy { bases[r].energy + 10 } else { bases[r].max_energy as int };
            &&& o.1[r].energy == e
            &&& o.1[r].max_energy == bases[r].max_energy
            &&& (e == bases[r].max_energy) ==> o.0[r].status == Status::Idle
            &&& (e != bases[r].max_energy) ==> o.0[r] == agents[r]
            &&& forall|j: int| 0 <= j < agents.len() && j != r ==> #[trigger] o.0[j] == agents[j] && o.1[j] == bases[j]
        }),
{
}

/// While actions are picked: an idle agent with a score of at least 0 takes
/// the first action of its queue (which loses it) and keeps the search
/// going, or, with an empty queue, finishes with its reward negated as
/// score; an idle agent with a negative score stays as it is.
pub proof fn law_search_hands_out_queued_actions(
    a: AgentView,
    at: Position,
    score: i32,
    queue: Seq<NpcAction>,
    o: SelectionObservation,
    s: Surroundings,
)
    requires
        a.status == Status::Idle,
        a.reward <= i32::MAX,
    ensures
        ({
            let r = mcst_step(a, at, score, queue, o, s);
            &&& score < 0 ==> r.0 == a && r.1 == score && r.2 == queue && !r.3
            &&& score >= 0 && queue.len() == 0 ==> r.0.status == Status::Finished && r.1 == -(a.reward as int) && !r.3
            &&& score >= 0 && queue.len() > 0 ==> r.0.action == queue[0] && r.2 == queue.drop_first() && r.1 == score
                && r.3
        }),
{
}

/// Once the run goes on: an agent fleeing to its tile target recovers there;
/// a recovered agent at its tile target attacks (for an attack) or works,
/// and elsewhere moves on; a retaliating agent whose attacker still attacks
/// flees exactly when its judgement says so.
pub proof fn law_run_moves_statuses_on(a: AgentView, at: Position, attacker_attacks: bool, flee: bool, full: bool)
    ensures
        a.status == Status::Fleeing ==> actual_status_step(a, at, attacker_attacks, flee, full).status == (if a.tile_target
            == Some(at) {
            Status::Recovering
        } else {
            Status::Fleeing
        }),
        a.status == Status::Recovering && full && a.tile_target == Some(at) ==> actual_status_step(
            a,
            at,
            attacker_attacks,
            flee,
            full,
        ).status == (if a.action == NpcAction::AttackAgent || a.action == NpcAction::AttackMonster {
            Status::Attacking
        } else {
            Status::Working
        }),
        a.status == Status::Recovering && full && a.tile_target != Some(at) ==> actual_status_step(
            a,
            at,
            attacker_attacks,
            flee,
            full,
        ).status == Status::Moving,
        a.status == Status::Recovering && !full ==> actual_status_step(a, at, attacker_attacks, flee, full) == a,
        a.status == Status::Retaliating && attacker_attacks ==> actual_status_step(
            a,
            at,
            attacker_attacks,
            flee,
            full,
        ).status == (if flee { Status::Fleeing } else { Status::Retaliating }),
        actual_status_step(a, at, attacker_attacks, flee, full).tile_target == a.tile_target,
        actual_status_step(a, at, attacker_attacks, flee, full).action == a.action,
{
}

/// A leader is left to its group's handling; a non-leading retaliating agent
/// next to its target flees to the closest village when its judgement says so.
pub proof fn law_status_of_leaders_and_fighters(a: AgentView, at: Position, o: StatusObservation)
    ensures
        a.leader ==> status_step(a, at, o) == (a, false),
        !a.leader && a.status == Status::Retaliating && o.near_agent && o.flee && o.village is Some ==> status_step(
            a,
            at,
            o,
        ).0.status == Status::Fleeing && status_step(a, at, o).0.tile_target == o.village,
        !a.leader && a.status == Status::Retaliating && o.near_agent && !o.flee ==> status_step(a, at, o) == (a, false),
{
}

/// Each spawn location is the position of a village tile.
pub proof fn law_spawn_location_is_a_village(s: Seq<(Position, Tile)>, i: int)
    requires
        0 <= i < village_positions(s).len(),
    ensures
        exists|j: int| 0 <= j < s.len() && #[trigger] s[j].0 == village_positions(s)[i] && s[j].1.tile_type == TileType::Village,
    decreases s.len(),
{
    let front = s.drop_last();
    let vf = village_positions(front);
    if i < vf.len() {
        law_spawn_location_is_a_village(front, i);
        assert(village_positions(s)[i] == vf[i]);
        let j = choose|j: int| 0 <= j < front.len() && #[trigger] front[j].0 == vf[i] && front[j].1.tile_type == TileType::Village;
        assert(s[j] == front[j]);
    } else {
        assert(village_positions(s)[i] == s.last().0);
        assert(s[s.len() - 1] == s.last());
    }
}

/// Every village tile's position is a spawn location.
pub proof fn law_every_village_is_a_spawn_location(s: Seq<(Position, Tile)>, j: int)
    requires
        0 <= j < s.len(),
        s[j].1.tile_type == TileType::Village,
    ensures
        village_positions(s).contains(s[j].0),
{
    lemma_village_positions_cover(s, j);
}

} // verus!
