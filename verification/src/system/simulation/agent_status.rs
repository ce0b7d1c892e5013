use vstd::prelude::*;
use crate::gameworld::position::Position;
use crate::npcs::agent::{Agent, AgentView};
use crate::npcs::npc_action::NpcAction;
use crate::npcs::npc_status::Status;
use crate::npcs::target::Target;
use crate::gameworld::tile_types::TileType;
use crate::gameworld::world::{GameWorld, closest_of_type};
use crate::system::agent_messages::village_for;
use crate::system::simulation::handle_selected_action::{is_next_to_target, near};
use crate::system::simulation::handle_selected_action::{index_of_first, lemma_index_of_first};

verus! {

/// What an agent's surroundings say this turn: whether it stands next to the
/// agent, the monster or the treasure it targets, the closest village (if the
/// map has one) and where the targeted treasure lies, and whether its own
/// judgement tells it to flee the fight it is in.
#[derive(Clone, Copy, Debug)]
pub struct StatusObservation {
    pub near_agent: bool,
    pub near_monster: bool,
    pub near_treasure: bool,
    pub village: Option<Position>,
    pub treasure_position: Option<Position>,
    pub flee: bool,
}

/// The agent after it reaches the target of its action, if it has: an
/// attack begins, a theft, treasure hunt or talk gets to work (a treasure
/// hunt heads for the treasure), a rest at the closest village begins
/// recovery there; `None` when the agent has not reached it.
pub open spec fn arrival(a: AgentView, at: Position, o: StatusObservation) -> Option<AgentView> {
    match a.action {
        NpcAction::AttackAgent => if o.near_agent { Some(AgentView { status: Status::Attacking, ..a }) } else { None },
        NpcAction::AttackMonster => if o.near_monster {
            Some(AgentView { status: Status::Attacking, ..a })
        } else {
            None
        },
        NpcAction::Steal => if o.near_agent { Some(AgentView { status: Status::Working, ..a }) } else { None },
        NpcAction::TreasureHunt => if o.near_treasure {
            Some(AgentView { status: Status::Working, tile_target: o.treasure_position, ..a })
        } else {
            None
        },
        NpcAction::Rest => if o.village == Some(at) {
            Some(AgentView { status: Status::Recovering, tile_target: o.village, ..a })
        } else {
            None
        },
        NpcAction::Talk => if o.near_agent { Some(AgentView { status: Status::Working, ..a }) } else { None },
        _ => None,
    }
}

/// The agent after a move, once it reaches its target: like `arrival`, but
/// the tile target stays as it is.
pub open spec fn moving_arrival(a: AgentView, at: Position, o: StatusObservation) -> Option<AgentView> {
    match a.action {
        NpcAction::AttackAgent => if o.near_agent { Some(AgentView { status: Status::Attacking, ..a }) } else { None },
        NpcAction::Steal | NpcAction::Talk => if o.near_agent {
            Some(AgentView { status: Status::Working, ..a })
        } else {
            None
        },
        NpcAction::AttackMonster => if o.near_monster {
            Some(AgentView { status: Status::Attacking, ..a })
        } else {
            None
        },
        NpcAction::TreasureHunt => if o.near_treasure { Some(AgentView { status: Status::Working, ..a }) } else { None },
        NpcAction::Rest => if o.village == Some(at) { Some(AgentView { status: Status::Recovering, ..a }) } else { None },
        _ => None,
    }
}

/// One agent's turn of status handling, and whether it must look for a path
/// to its tile target. Leaders are left to their group's handling. An idle
/// agent that reached its target starts on its action, otherwise it sets
/// off (and needs a path); a moving agent that reached its target starts on
/// its action, otherwise it needs a path; a retaliating agent next to the
/// agent it targets flees to the closest village when its judgement says so,
/// and otherwise starts on its action once it reached its target.
pub open spec fn status_step(a: AgentView, at: Position, o: StatusObservation) -> (AgentView, bool) {
    if a.leader {
        (a, false)
    } else {
        match a.status {
            Status::Idle => match arrival(a, at, o) {
                Some(b) => (b, false),
                None => (AgentView { status: Status::Moving, ..a }, true),
            },
            Status::Moving => match moving_arrival(a, at, o) {
                Some(b) => (b, false),
                None => (a, true),
            },
            Status::Retaliating => if o.near_agent {
                if o.flee && o.village is Some {
                    (AgentView { status: Status::Fleeing, tile_target: o.village, ..a }, false)
                } else {
                    (a, false)
                }
            } else {
                match arrival(a, at, o) {
                    Some(b) => (b, false),
                    None => (a, false),
                }
            },
            _ => (a, false),
        }
    }
}

/// A treasure hunt that reaches its treasure knows where the treasure is.
pub open spec fn observation_fits(a: AgentView, o: StatusObservation) -> bool {
    a.action == NpcAction::TreasureHunt && o.near_treasure && !a.leader && (a.status == Status::Idle || (a.status
        == Status::Retaliating && !o.near_agent)) ==> o.treasure_position is Some
}

/// `p` is the position `at`.
fn same_place(p: Option<Position>, at: Position) -> (b: bool)
    ensures
        b == (p == Some(at)),
{
    match p {
        Some(q) => q == at,
        None => false,
    }
}

fn arrive(agent: &mut Agent, at: Position, o: StatusObservation, moving: bool) -> (reached: bool)
    ensures
        !moving ==> match arrival(old(agent)@, at, o) {
            Some(b) => reached && final(agent)@ == b,
            None => !reached && final(agent)@ == old(agent)@,
        },
        moving ==> match moving_arrival(old(agent)@, at, o) {
            Some(b) => reached && final(agent)@ == b,
            None => !reached && final(agent)@ == old(agent)@,
        },
{
    match agent.get_action() {
        NpcAction::AttackAgent => {
            if o.near_agent {
                agent.set_status(Status::Attacking);
                return true;
            }
        },
        NpcAction::AttackMonster => {
            if o.near_monster {
                agent.set_status(Status::Attacking);
                return true;
            }
        },
        NpcAction::Steal => {
            if o.near_agent {
                agent.set_status(Status::Working);
                return true;
            }
        },
        NpcAction::TreasureHunt => {
            if o.near_treasure {
                if !moving {
                    agent.set_tile_target(o.treasure_position);
                }
                agent.set_status(Status::Working);
                return true;
            }
        },
        NpcAction::Rest => {
            if same_place(o.village, at) {
                agent.set_status(Status::Recovering);
                if !moving {
                    agent.set_tile_target(o.village);
                }
                return true;
            }
        },
        NpcAction::Talk => {
            if o.near_agent {
                agent.set_status(Status::Working);
                return true;
            }
        },
        _ => {},
    }
    false
}

/// One agent's turn of status handling (see `status_step`); the result says
/// whether the agent must look for a path to its tile target.
pub fn current_status_step(agent: &mut Agent, at: Position, o: StatusObservation) -> (needs_path: bool)
    requires
        observation_fits(old(agent)@, o),
    ensures
        (final(agent)@, needs_path) == status_step(old(agent)@, at, o),
{
    if agent.is_leader() {
        return false;
    }
    match agent.get_status() {
        Status::Idle => {
            if arrive(agent, at, o, false) {
                false
            } else {
                agent.set_status(Status::Moving);
                true
            }
        },
        Status::Moving => !arrive(agent, at, o, true),
        Status::Retaliating => {
            if o.near_agent {
                if o.flee {
                    if let Some(v) = o.village {
                        agent.set_status(Status::Fleeing);
                        agent.set_tile_target(Some(v));
                    }
                }
            } else {
                let _ = arrive(agent, at, o, false);
            }
            false
        },
        _ => false,
    }
}

/// During the search or the run, handles the status of every agent (see
/// `status_step`) at its position with what it observes, and says which
/// agents must look for a path; otherwise nothing changes and nobody moves.
pub fn handle_current_agent_status(
    agents: &mut Vec<Agent>,
    positions: &[Position],
    observations: &[StatusObservation],
    mcst_flag: bool,
    running_flag: bool,
) -> (needs_path: Vec<bool>)
    requires
        old(agents)@.len() == positions@.len(),
        old(agents)@.len() == observations@.len(),
        forall|i: int| 0 <= i < old(agents)@.len() ==> observation_fits(#[trigger] old(agents)@[i]@, observations@[i]),
    ensures
        !mcst_flag && !running_flag ==> final(agents)@ == old(agents)@ && needs_path@.len() == 0,
        mcst_flag || running_flag ==> {
            &&& final(agents)@.len() == old(agents)@.len()
            &&& needs_path@.len() == old(agents)@.len()
            &&& forall|i: int|
                0 <= i < old(agents)@.len() ==> (#[trigger] final(agents)@[i]@, needs_path@[i]) == status_step(
                    old(agents)@[i]@,
                    positions@[i],
                    observations@[i],
                )
        },
{
    let mut needs: Vec<bool> = Vec::new();
    if !mcst_flag && !running_flag {
        return needs;
    }
    let ghost before = agents@;
    let mut i: usize = 0;
    while i < agents.len()
        invariant
            0 <= i <= agents@.len(),
            agents@.len() == before.len(),
            before.len() == positions@.len(),
            before.len() == observations@.len(),
            needs@.len() == i,
            forall|j: int|
                0 <= j < i ==> (#[trigger] agents@[j]@, needs@[j]) == status_step(before[j]@, positions@[j], observations@[j]),
            forall|j: int| i <= j < agents@.len() ==> #[trigger] agents@[j] == before[j],
            forall|j: int| 0 <= j < before.len() ==> observation_fits(#[trigger] before[j]@, observations@[j]),
        decreases agents@.len() - i,
    {
        let n = current_status_step(&mut agents[i], positions[i], observations[i]);
        needs.push(n);
        i = i + 1;
    }
    needs
}

/// The agent's status once the search has picked its actions and the run
/// goes on: a retaliating agent whose attacker still attacks flees when its
/// judgement says so; otherwise it gets to work if it stands on its tile
/// target and moves on if not. A fleeing agent that reached its tile target
/// recovers, and a recovered agent (at full energy) attacks or works at its
/// tile target, or moves on towards it.
pub open spec fn actual_status_step(
    a: AgentView,
    at: Position,
    attacker_attacks: bool,
    flee: bool,
    full_energy: bool,
) -> AgentView {
    match a.status {
        Status::Retaliating => if attacker_attacks {
            if flee { AgentView { status: Status::Fleeing, ..a } } else { a }
        } else if a.tile_target == Some(at) {
            AgentView { status: Status::Working, ..a }
        } else {
            AgentView { status: Status::Moving, ..a }
        },
        Status::Fleeing => if a.tile_target == Some(at) { AgentView { status: Status::Recovering, ..a } } else { a },
        Status::Recovering => if !full_energy {
            a
        } else if a.tile_target == Some(at) {
            if a.action == NpcAction::AttackAgent || a.action == NpcAction::AttackMonster {
                AgentView { status: Status::Attacking, ..a }
            } else {
                AgentView { status: Status::Working, ..a }
            }
        } else {
            AgentView { status: Status::Moving, ..a }
        },
        _ => a,
    }
}

/// One agent's status once the run goes on (see `actual_status_step`):
/// `attacker_attacks` says whether the one it retaliates against is still
/// there and attacking, `flee` what its judgement says, `full_energy`
/// whether its energy is at its maximum.
pub fn set_actual_status(agent: &mut Agent, at: Position, attacker_attacks: bool, flee: bool, full_energy: bool)
    requires
        old(agent)@.status == Status::Retaliating && !attacker_attacks ==> old(agent)@.tile_target is Some,
        old(agent)@.status == Status::Fleeing ==> old(agent)@.tile_target is Some,
        old(agent)@.status == Status::Recovering && full_energy ==> old(agent)@.tile_target is Some,
    ensures
        final(agent)@ == actual_status_step(old(agent)@, at, attacker_attacks, flee, full_energy),
{
    match agent.get_status() {
        Status::Retaliating => {
            if attacker_attacks {
                if flee {
                    agent.set_status(Status::Fleeing);
                }
            } else if same_place(agent.get_tile_target(), at) {
                agent.set_status(Status::Working);
            } else {
                agent.set_status(Status::Moving);
            }
        },
        Status::Fleeing => {
            if same_place(agent.get_tile_target(), at) {
                agent.set_status(Status::Recovering);
            }
        },
        Status::Recovering => {
            if full_energy {
                if same_place(agent.get_tile_target(), at) {
                    let action = agent.get_action();
                    if matches!(action, NpcAction::AttackAgent | NpcAction::AttackMonster) {
                        agent.set_status(Status::Attacking);
                    } else {
                        agent.set_status(Status::Working);
                    }
                } else {
                    agent.set_status(Status::Moving);
                }
            }
        },
        _ => {},
    }
}

/// The entry `(target id, position)` given for the agent `id` in a list of
/// `(agent id, target id, position)`, if any.
pub open spec fn closest_for(s: Seq<(i32, i32, Position)>, id: i32) -> Option<(i32, Position)> {
    match index_of_first(s.map_values(|e: (i32, i32, Position)| e.0), id) {
        Some(i) => Some((s[i].1, s[i].2)),
        None => None,
    }
}

/// The agent with its tile target on what it targets, when that is found in
/// the lists of positions of agents, monsters and treasures by id.
pub open spec fn current_target(
    a: AgentView,
    agents: Seq<(i32, Position)>,
    monsters: Seq<(i32, Position)>,
    treasures: Seq<(i32, Position)>,
) -> AgentView {
    let found = match a.target {
        Target::Agent => village_for(agents, a.agent_target_id),
        Target::Monster => village_for(monsters, a.monster_target_id),
        Target::Treasure => village_for(treasures, a.treasure_target_id),
        _ => None,
    };
    match found {
        Some(p) => AgentView { tile_target: Some(p), ..a },
        None => a,
    }
}

/// The agent with its targets set for `action`: the chosen agent for an
/// attack on an agent, a theft or a talk (heading where that agent is); the
/// closest monster or treasure given for it; the closest village to rest in.
pub open spec fn targeted(
    a: AgentView,
    action: NpcAction,
    best_agent: i32,
    agents: Seq<(i32, Position)>,
    closest_monsters: Seq<(i32, i32, Position)>,
    closest_treasures: Seq<(i32, i32, Position)>,
    closest_villages: Seq<(i32, Position)>,
) -> AgentView {
    match action {
        NpcAction::AttackAgent | NpcAction::Steal | NpcAction::Talk => current_target(
            AgentView { agent_target_id: best_agent, target: Target::Agent, ..a },
            agents,
            Seq::empty(),
            Seq::empty(),
        ),
        NpcAction::AttackMonster => match closest_for(closest_monsters, a.id) {
            Some((t, p)) => AgentView { monster_target_id: t, tile_target: Some(p), target: Target::Monster, ..a },
            None => a,
        },
        NpcAction::TreasureHunt => match closest_for(closest_treasures, a.id) {
            Some((t, p)) => AgentView { treasure_target_id: t, tile_target: Some(p), target: Target::Treasure, ..a },
            None => a,
        },
        NpcAction::Rest => match village_for(closest_villages, a.id) {
            Some(p) => AgentView { tile_target: Some(p), target: Target::Tile, ..a },
            None => a,
        },
        _ => a,
    }
}

/// The position given for `id` in a list of `(id, position)`.
fn position_for(s: &[(i32, Position)], id: i32) -> (r: Option<Position>)
    ensures
        r == village_for(s@, id),
{
    let ghost ids = s@.map_values(|p: (i32, Position)| p.0);
    let mut i: usize = 0;
    while i < s.len()
        invariant
            0 <= i <= s@.len(),
            ids == s@.map_values(|p: (i32, Position)| p.0),
            forall|k: int| 0 <= k < i ==> ids[k] != id,
        decreases s@.len() - i,
    {
        if s[i].0 == id {
            proof {
                lemma_index_of_first(ids, id, i as int);
            }
            return Some(s[i].1);
        }
        i = i + 1;
    }
    proof {
        if index_of_first(ids, id) is Some {
            let j = choose|j: int| 0 <= j < ids.len() && ids[j] == id && forall|k: int| 0 <= k < j ==> ids[k] != id;
            assert(ids[j] != id);
        }
    }
    None
}

/// The entry given for the agent `id` in a list of `(agent id, target id,
/// position)`.
fn closest_entry(s: &[(i32, i32, Position)], id: i32) -> (r: Option<(i32, Position)>)
    ensures
        r == closest_for(s@, id),
{
    let ghost ids = s@.map_values(|e: (i32, i32, Position)| e.0);
    let mut i: usize = 0;
    while i < s.len()
        invariant
            0 <= i <= s@.len(),
            ids == s@.map_values(|e: (i32, i32, Position)| e.0),
            forall|k: int| 0 <= k < i ==> ids[k] != id,
        decreases s@.len() - i,
    {
        if s[i].0 == id {
            proof {
                lemma_index_of_first(ids, id, i as int);
            }
            return Some((s[i].1, s[i].2));
        }
        i = i + 1;
    }
    proof {
        if index_of_first(ids, id) is Some {
            let j = choose|j: int| 0 <= j < ids.len() && ids[j] == id && forall|k: int| 0 <= k < j ==> ids[k] != id;
            assert(ids[j] != id);
        }
    }
    None
}

/// Points the agent's tile target at what it targets (see `current_target`).
pub fn set_current_target(
    agent: &mut Agent,
    agents: &[(i32, Position)],
    monsters: &[(i32, Position)],
    treasures: &[(i32, Position)],
)
    ensures
        final(agent)@ == current_target(old(agent)@, agents@, monsters@, treasures@),
{
    let found = match agent.get_target() {
        Target::Agent => position_for(agents, agent.get_agent_target_id()),
        Target::Monster => position_for(monsters, agent.get_monster_target_id()),
        Target::Treasure => position_for(treasures, agent.get_treasure_target_id()),
        _ => None,
    };
    if let Some(p) = found {
        agent.set_tile_target(Some(p));
    }
}

/// Sets the agent's targets for `action` (see `targeted`).
pub fn set_mcst_agent_actions(
    agent: &mut Agent,
    action: NpcAction,
    best_agent: i32,
    agents: &[(i32, Position)],
    closest_monsters: &[(i32, i32, Position)],
    closest_treasures: &[(i32, i32, Position)],
    closest_villages: &[(i32, Position)],
)
    ensures
        final(agent)@ == targeted(
            old(agent)@,
            action,
            best_agent,
            agents@,
            closest_monsters@,
            closest_treasures@,
            closest_villages@,
        ),
{
    match action {
        NpcAction::AttackAgent | NpcAction::Steal | NpcAction::Talk => {
            agent.set_agent_target_id(best_agent);
            agent.set_target(Target::Agent);
            let none: [(i32, Position); 0] = [];
            set_current_target(agent, agents, &none, &none);
            assert(none@ =~= Seq::<(i32, Position)>::empty());
        },
        NpcAction::AttackMonster => {
            let id = agent.get_id();
            if let Some((t, p)) = closest_entry(closest_monsters, id) {
                agent.set_monster_target_id(t);
                agent.set_tile_target(Some(p));
                agent.set_target(Target::Monster);
            }
        },
        NpcAction::TreasureHunt => {
            let id = agent.get_id();
            if let Some((t, p)) = closest_entry(closest_treasures, id) {
                agent.set_treasure_target_id(t);
                agent.set_target(Target::Treasure);
                agent.set_tile_target(Some(p));
            }
        },
        NpcAction::Rest => {
            let id = agent.get_id();
            if let Some(p) = position_for(closest_villages, id) {
                agent.set_tile_target(Some(p));
                agent.set_target(Target::Tile);
            }
        },
        _ => {},
    }
}

/// Where the things agents may target are: agents, monsters and treasures by
/// id, and for each agent the closest monster and treasure (with their ids)
/// and the closest village.
pub struct Surroundings {
    pub agents: Vec<(i32, Position)>,
    pub monsters: Vec<(i32, Position)>,
    pub treasures: Vec<(i32, Position)>,
    pub closest_monsters: Vec<(i32, i32, Position)>,
    pub closest_treasures: Vec<(i32, i32, Position)>,
    pub closest_villages: Vec<(i32, Position)>,
}

/// What an agent's situation says while actions are picked: whether the one
/// it retaliates against is still there attacking it, whether its judgement
/// says to flee, whether its energy is full, and the agent it would pick for
/// an action on another agent.
#[derive(Clone, Copy, Debug)]
pub struct SelectionObservation {
    pub attacker_attacks: bool,
    pub flee: bool,
    pub full_energy: bool,
    pub best_agent: i32,
}

/// `targeted` with the lists of `s`.
pub open spec fn targeted_in(a: AgentView, action: NpcAction, best_agent: i32, s: Surroundings) -> AgentView {
    targeted(a, action, best_agent, s.agents@, s.closest_monsters@, s.closest_treasures@, s.closest_villages@)
}

/// `current_target` with the lists of `s`.
pub open spec fn current_target_in(a: AgentView, s: Surroundings) -> AgentView {
    current_target(a, s.agents@, s.monsters@, s.treasures@)
}

/// One agent's turn while the search picks actions, with its score and its
/// queue of actions to try: an idle agent with a score of at least 0 takes
/// the next action of its queue and its targets, or, with none left,
/// finishes with its reward (negated) as score; a retaliating agent still
/// under attack flees when its judgement says so, and otherwise returns to
/// its action's targets; a fleeing agent at its tile target recovers; a
/// recovered agent (full energy) asks for instructions; an agent asking for
/// instructions gets its action's targets. The last result says whether the
/// agent keeps the search from finishing: an idle agent that took an action,
/// or an agent in any other status.
pub open spec fn mcst_step(
    a: AgentView,
    at: Position,
    score: i32,
    queue: Seq<NpcAction>,
    o: SelectionObservation,
    s: Surroundings,
) -> (AgentView, i32, Seq<NpcAction>, bool) {
    match a.status {
        Status::Idle => if score < 0 {
            (a, score, queue, false)
        } else if queue.len() == 0 {
            (AgentView { status: Status::Finished, ..a }, (0 - a.reward) as i32, queue, false)
        } else {
            (targeted_in(AgentView { action: queue[0], ..a }, queue[0], o.best_agent, s), score, queue.drop_first(), true)
        },
        Status::Retaliating => if o.attacker_attacks {
            (if o.flee { AgentView { status: Status::Fleeing, ..a } } else { a }, score, queue, false)
        } else {
            (targeted_in(current_target_in(a, s), a.action, o.best_agent, s), score, queue, false)
        },
        Status::Fleeing => (
            if a.tile_target == Some(at) { AgentView { status: Status::Recovering, ..a } } else { a },
            score,
            queue,
            false,
        ),
        Status::Recovering => (
            if o.full_energy {
                AgentView { status: Status::RequiresInstruction, ..current_target_in(a, s) }
            } else {
                a
            },
            score,
            queue,
            false,
        ),
        Status::RequiresInstruction => (targeted_in(a, a.action, o.best_agent, s), score, queue, false),
        _ => (a, score, queue, true),
    }
}

/// The step can be taken without a panic: a fleeing agent has a tile target,
/// and a finishing agent's reward fits the score.
pub open spec fn mcst_step_fits(a: AgentView, score: i32, queue: Seq<NpcAction>) -> bool {
    &&& a.status == Status::Fleeing ==> a.tile_target is Some
    &&& a.status == Status::Idle && score >= 0 && queue.len() == 0 ==> a.reward <= i32::MAX
}

fn mcst_agent_step(
    agent: &mut Agent,
    at: Position,
    score: &mut i32,
    queue: &mut Vec<NpcAction>,
    o: SelectionObservation,
    s: &Surroundings,
) -> (unfinished: bool)
    requires
        mcst_step_fits(old(agent)@, *old(score), old(queue)@),
    ensures
        (final(agent)@, *final(score), final(queue)@, unfinished) == mcst_step(
            old(agent)@,
            at,
            *old(score),
            old(queue)@,
            o,
            *s,
        ),
{
    match agent.get_status() {
        Status::Idle => {
            if *score < 0 {
                false
            } else if queue.len() == 0 {
                let reward = agent.get_reward();
                *score = 0 - (reward as i32);
                agent.set_status(Status::Finished);
                false
            } else {
                let action = queue.remove(0);
                agent.set_action(action);
                set_mcst_agent_actions(
                    agent,
                    action,
                    o.best_agent,
                    &s.agents,
                    &s.closest_monsters,
                    &s.closest_treasures,
                    &s.closest_villages,
                );
                true
            }
        },
        Status::Retaliating => {
            if o.attacker_attacks {
                if o.flee {
                    agent.set_status(Status::Fleeing);
                }
            } else {
                let action = agent.get_action();
                set_current_target(agent, &s.agents, &s.monsters, &s.treasures);
                set_mcst_agent_actions(
                    agent,
                    action,
                    o.best_agent,
                    &s.agents,
                    &s.closest_monsters,
                    &s.closest_treasures,
                    &s.closest_villages,
                );
            }
            false
        },
        Status::Fleeing => {
            if same_place(agent.get_tile_target(), at) {
                agent.set_status(Status::Recovering);
            }
            false
        },
        Status::Recovering => {
            if o.full_energy {
                set_current_target(agent, &s.agents, &s.monsters, &s.treasures);
                agent.set_status(Status::RequiresInstruction);
            }
            false
        },
        Status::RequiresInstruction => {
            let action = agent.get_action();
            set_mcst_agent_actions(
                agent,
                action,
                o.best_agent,
                &s.agents,
                &s.closest_monsters,
                &s.closest_treasures,
                &s.closest_villages,
            );
            false
        },
        _ => true,
    }
}

/// A copy of a list of actions.
fn copy_actions(v: &Vec<NpcAction>) -> (r: Vec<NpcAction>)
    ensures
        r@ == v@,
{
    let mut r: Vec<NpcAction> = Vec::new();
    let mut i: usize = 0;
    while i < v.len()
        invariant
            0 <= i <= v@.len(),
            r@ == v@.take(i as int),
        decreases v@.len() - i,
    {
        r.push(v[i]);
        i = i + 1;
        assert(r@ =~= v@.take(i as int));
    }
    assert(v@.take(v@.len() as int) =~= v@);
    r
}

/// While the search trees are being built, takes every agent's turn (see
/// `mcst_step`) with its score, its queue of actions and what it observes,
/// and says whether the picking of actions is finished: no agent keeps it
/// from finishing. Outside the search nothing changes and nothing is
/// finished.
pub fn set_mcst_actions(
    agents: &mut Vec<Agent>,
    positions: &[Position],
    scores: &mut Vec<i32>,
    queues: &mut Vec<Vec<NpcAction>>,
    observations: &[SelectionObservation],
    surroundings: &Surroundings,
    mcst_flag: bool,
) -> (finished: bool)
    requires
        old(agents)@.len() == positions@.len(),
        old(agents)@.len() == old(scores)@.len(),
        old(agents)@.len() == old(queues)@.len(),
        old(agents)@.len() == observations@.len(),
        forall|i: int|
            0 <= i < old(agents)@.len() ==> mcst_step_fits(#[trigger] old(agents)@[i]@, old(scores)@[i], old(queues)@[i]@),
    ensures
        !mcst_flag ==> !finished && final(agents)@ == old(agents)@ && final(scores)@ == old(scores)@ && final(queues)@
            == old(queues)@,
        mcst_flag ==> {
            &&& final(agents)@.len() == old(agents)@.len()
            &&& final(scores)@.len() == old(scores)@.len()
            &&& final(queues)@.len() == old(queues)@.len()
            &&& forall|i: int|
                0 <= i < old(agents)@.len() ==> {
                    let r = mcst_step(
                        old(agents)@[i]@,
                        positions@[i],
                        old(scores)@[i],
                        old(queues)@[i]@,
                        observations@[i],
                        *surroundings,
                    );
                    &&& (#[trigger] final(agents)@[i])@ == r.0
                    &&& final(scores)@[i] == r.1
                    &&& final(queues)@[i]@ == r.2
                }
            &&& finished == forall|i: int|
                0 <= i < old(agents)@.len() ==> !(#[trigger] mcst_step(
                    old(agents)@[i]@,
                    positions@[i],
                    old(scores)@[i],
                    old(queues)@[i]@,
                    observations@[i],
                    *surroundings,
                )).3
        },
{
    if !mcst_flag {
        return false;
    }
    let ghost a0 = agents@;
    let ghost s0 = scores@;
    let ghost q0 = queues@;
    let mut finished = true;
    let mut i: usize = 0;
    while i < agents.len()
        invariant
            0 <= i <= agents@.len(),
            agents@.len() == a0.len(),
            scores@.len() == a0.len(),
            queues@.len() == a0.len(),
            a0.len() == positions@.len(),
            a0.len() == observations@.len(),
            s0.len() == a0.len(),
            q0.len() == a0.len(),
            forall|j: int| 0 <= j < a0.len() ==> mcst_step_fits(#[trigger] a0[j]@, s0[j], q0[j]@),
            forall|j: int|
                0 <= j < i ==> {
                    let r = mcst_step(a0[j]@, positions@[j], s0[j], q0[j]@, observations@[j], *surroundings);
                    &&& (#[trigger] agents@[j])@ == r.0
                    &&& scores@[j] == r.1
                    &&& queues@[j]@ == r.2
                },
            forall|j: int| i <= j < a0.len() ==> #[trigger] agents@[j] == a0[j],
            forall|j: int| i <= j < a0.len() ==> #[trigger] scores@[j] == s0[j],
            forall|j: int| i <= j < a0.len() ==> #[trigger] queues@[j] == q0[j],
            finished == forall|j: int|
                0 <= j < i ==> !(#[trigger] mcst_step(a0[j]@, positions@[j], s0[j], q0[j]@, observations@[j], *surroundings)).3,
        decreases a0.len() - i,
    {
        let mut score = scores[i];
        let mut queue = copy_actions(&queues[i]);
        let unfinished = mcst_agent_step(&mut agents[i], positions[i], &mut score, &mut queue, observations[i], surroundings);
        scores.set(i, score);
        queues.set(i, queue);
        if unfinished {
            finished = false;
        }
        i = i + 1;
    }
    finished
}

/// One agent's turn once the run goes on: an idle agent whose search tree
/// picked an action gets that action's targets (the action itself stays as
/// it was); every other agent's status moves on (see `actual_status_step`).
pub open spec fn actual_turn(
    a: AgentView,
    at: Position,
    picked: Option<NpcAction>,
    o: SelectionObservation,
    s: Surroundings,
) -> AgentView {
    if a.status == Status::Idle {
        match picked {
            Some(action) => targeted_in(a, action, o.best_agent, s),
            None => a,
        }
    } else {
        actual_status_step(a, at, o.attacker_attacks, o.flee, o.full_energy)
    }
}

/// The agent's tile target is there wherever its turn looks at it.
pub open spec fn actual_turn_fits(a: AgentView, o: SelectionObservation) -> bool {
    &&& a.status == Status::Retaliating && !o.attacker_attacks ==> a.tile_target is Some
    &&& a.status == Status::Fleeing ==> a.tile_target is Some
    &&& a.status == Status::Recovering && o.full_energy ==> a.tile_target is Some
}

/// During the run, takes every agent's turn (see `actual_turn`) with the
/// action its tree picked, if any, and what it observes; otherwise nothing
/// changes.
pub fn set_actual_simulation_actions(
    agents: &mut Vec<Agent>,
    positions: &[Position],
    picked: &[Option<NpcAction>],
    observations: &[SelectionObservation],
    surroundings: &Surroundings,
    running_flag: bool,
)
    requires
        old(agents)@.len() == positions@.len(),
        old(agents)@.len() == picked@.len(),
        old(agents)@.len() == observations@.len(),
        forall|i: int| 0 <= i < old(agents)@.len() ==> actual_turn_fits(#[trigger] old(agents)@[i]@, observations@[i]),
    ensures
        final(agents)@.len() == old(agents)@.len(),
        !running_flag ==> final(agents)@ == old(agents)@,
        running_flag ==> forall|i: int|
            0 <= i < old(agents)@.len() ==> (#[trigger] final(agents)@[i])@ == actual_turn(
                old(agents)@[i]@,
                positions@[i],
                picked@[i],
                observations@[i],
                *surroundings,
            ),
{
    if !running_flag {
        return;
    }
    let ghost a0 = agents@;
    let mut i: usize = 0;
    while i < agents.len()
        invariant
            0 <= i <= agents@.len(),
            agents@.len() == a0.len(),
            a0.len() == positions@.len(),
            a0.len() == picked@.len(),
            a0.len() == observations@.len(),
            forall|j: int| 0 <= j < a0.len() ==> actual_turn_fits(#[trigger] a0[j]@, observations@[j]),
            forall|j: int|
                0 <= j < i ==> (#[trigger] agents@[j])@ == actual_turn(
                    a0[j]@,
                    positions@[j],
                    picked@[j],
                    observations@[j],
                    *surroundings,
                ),
            forall|j: int| i <= j < a0.len() ==> #[trigger] agents@[j] == a0[j],
        decreases a0.len() - i,
    {
        let o = observations[i];
        assert(actual_turn_fits(a0[i as int]@, o));
        if agents[i].get_status() == Status::Idle {
            match picked[i] {
                Some(action) => set_mcst_agent_actions(
                    &mut agents[i],
                    action,
                    o.best_agent,
                    &surroundings.agents,
                    &surroundings.closest_monsters,
                    &surroundings.closest_treasures,
                    &surroundings.closest_villages,
                ),
                None => {},
            }
        } else {
            set_actual_status(&mut agents[i], positions[i], o.attacker_attacks, o.flee, o.full_energy);
        }
        i = i + 1;
    }
}

/// Whether `at` is within one tile of the position given for `id`.
pub open spec fn next_to(s: Seq<(i32, Position)>, id: i32, at: Position) -> bool {
    match village_for(s, id) {
        Some(p) => near(at, p, 1),
        None => false,
    }
}

/// What the agent standing at `at` observes: whether it is within one tile
/// of the agent, monster and treasure with the id of its agent target (the id
/// the turn compares against for all three), the closest village, where the
/// treasure it hunts lies, and the flight its own judgement decided.
pub open spec fn observation_of(
    world: &GameWorld,
    a: AgentView,
    at: Position,
    s: Surroundings,
    flee: bool,
) -> StatusObservation {
    StatusObservation {
        near_agent: next_to(s.agents@, a.agent_target_id, at),
        near_monster: next_to(s.monsters@, a.agent_target_id, at),
        near_treasure: next_to(s.treasures@, a.agent_target_id, at),
        village: closest_of_type(world.tiles@, at, TileType::Village),
        treasure_position: village_for(s.treasures@, a.treasure_target_id),
        flee,
    }
}

fn is_next_to(s: &[(i32, Position)], id: i32, at: Position) -> (b: bool)
    ensures
        b == next_to(s@, id, at),
{
    match position_for(s, id) {
        Some(p) => is_next_to_target(at, p, 1),
        None => false,
    }
}

/// Computes what the agent standing at `at` observes (see `observation_of`).
pub fn observe(
    world: &GameWorld,
    agent: &Agent,
    at: Position,
    surroundings: &Surroundings,
    flee: bool,
) -> (o: StatusObservation)
    ensures
        o == observation_of(world, agent@, at, *surroundings, flee),
{
    let id = agent.get_agent_target_id();
    StatusObservation {
        near_agent: is_next_to(&surroundings.agents, id, at),
        near_monster: is_next_to(&surroundings.monsters, id, at),
        near_treasure: is_next_to(&surroundings.treasures, id, at),
        village: world.find_closest_tiletype(at, TileType::Village),
        treasure_position: position_for(&surroundings.treasures, agent.get_treasure_target_id()),
        flee,
    }
}

} // verus!
