use vstd::prelude::*;
use crate::gameworld::position::Position;
use crate::npcs::agent::{Agent, AgentView};
use crate::npcs::npc_base::NPCBase;
use crate::npcs::npc_status::Status;

verus! {

/// What a turn of movement does to an agent and its NPC: a moving agent with a
/// non-empty path steps onto the first position of the path, which leaves the
/// path; it becomes idle when the path is used up. Anything else stays as it is.
pub open spec fn step_along(a: AgentView, b: NPCBase) -> (AgentView, NPCBase) {
    match a.path {
        Some(p) => if a.status == Status::Moving && p.len() > 0 {
            (
                AgentView {
                    path: Some(p.skip(1)),
                    status: if p.len() == 1 { Status::Idle } else { Status::Moving },
                    ..a
                },
                NPCBase { position: p[0], ..b },
            )
        } else {
            (a, b)
        },
        None => (a, b),
    }
}

/// `(new_agent, new_base)` is what a turn of movement makes of `(old_agent, old_base)`.
pub open spec fn movement_outcome(old_agent: AgentView, old_base: NPCBase, new_agent: AgentView, new_base: NPCBase) -> bool {
    (new_agent, new_base) == step_along(old_agent, old_base)
}

/// The agent and its NPC after `n` turns of movement.
pub open spec fn walk(a: AgentView, b: NPCBase, n: nat) -> (AgentView, NPCBase)
    decreases n,
{
    if n == 0 {
        (a, b)
    } else {
        let (a1, b1) = step_along(a, b);
        walk(a1, b1, (n - 1) as nat)
    }
}

/// Moves one agent a step along its path (see `movement_outcome`).
pub fn move_agent_along_path(agent: &mut Agent, npc_base: &mut NPCBase)
    ensures
        movement_outcome(old(agent)@, *old(npc_base), final(agent)@, *final(npc_base)),
{
    if agent.get_status() == Status::Moving {
        if let Some(mut path) = agent.get_path() {
            if path.len() > 0 {
                let next_position: Position = path[0];
                npc_base.move_to(next_position.x, next_position.y);
                let ghost p = path@;
                path.remove(0);
                assert(path@ =~= p.skip(1));
                let now_empty = path.len() == 0;
                agent.set_path(path);
                if now_empty {
                    agent.set_status(Status::Idle);
                }
            }
        }
    }
}

/// Moves every moving agent a step along its path; `npc_bases[i]` belongs to
/// `agents[i]`.
pub fn handle_agent_movement(agents: &mut Vec<Agent>, npc_bases: &mut Vec<NPCBase>)
    requires
        old(agents)@.len() == old(npc_bases)@.len(),
    ensures
        final(agents)@.len() == old(agents)@.len(),
        final(npc_bases)@.len() == old(npc_bases)@.len(),
        forall|i: int|
            0 <= i < old(agents)@.len() ==> movement_outcome(
                old(agents)@[i]@,
                old(npc_bases)@[i],
                #[trigger] final(agents)@[i]@,
                final(npc_bases)@[i],
            ),
{
    let ghost agents_before = agents@;
    let ghost bases_before = npc_bases@;
    let mut i: usize = 0;
    while i < agents.len()
        invariant
            agents@.len() == agents_before.len(),
            npc_bases@.len() == bases_before.len(),
            agents_before.len() == bases_before.len(),
            0 <= i <= agents_before.len(),
            forall|k: int| i <= k < agents_before.len() ==> #[trigger] agents@[k] == agents_before[k],
            forall|k: int| i <= k < bases_before.len() ==> #[trigger] npc_bases@[k] == bases_before[k],
            forall|k: int|
                0 <= k < i ==> movement_outcome(
                    agents_before[k]@,
                    bases_before[k],
                    #[trigger] agents@[k]@,
                    npc_bases@[k],
                ),
        decreases agents_before.len() - i,
    {
        move_agent_along_path(&mut agents[i], &mut npc_bases[i]);
        i = i + 1;
    }
}

} // verus!
