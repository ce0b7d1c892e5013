use vstd::prelude::*;
use crate::gameworld::position::{int_text, nat_text};
use crate::npcs::agent::Agent;
use crate::npcs::monster::Monster;
use crate::npcs::npc_base::NPCBase;
use crate::npcs::npc_type::NPCType;
use crate::npcs::treasure::Treasure;
use crate::text::{
    action_debug_text, debug_action, debug_position, debug_status, format_i32, format_u32,
    position_debug_text, status_debug_text,
};

verus! {

/// `Energy: e/max` of an NPC.
pub open spec fn energy_text(b: NPCBase) -> Seq<char> {
    "\nEnergy: "@ + nat_text(b.energy as nat) + "/"@ + nat_text(b.max_energy as nat)
}

/// The text the panel shows for the selected NPC: its kind, position and
/// energy, with the id, status and action of an agent, the reward of a monster
/// or treasure; an error when the details of its kind are missing, and
/// `No NPC Selected` without a selected NPC.
pub open spec fn npc_info_text(
    npc_base: Option<NPCBase>,
    agent: Option<(i32, crate::npcs::npc_status::Status, crate::npcs::npc_action::NpcAction)>,
    monster_reward: Option<u32>,
    treasure_reward: Option<u32>,
) -> Seq<char> {
    match npc_base {
        None => "No NPC Selected"@,
        Some(b) => match b.npc_type {
            NPCType::Agent => match agent {
                Some((id, status, action)) => "NPC Type: Agent\nPosition: "@ + position_debug_text(b.position)
                    + energy_text(b) + "\nID: "@ + int_text(id as int) + "\nStatus: "@ + status_debug_text(
                    status,
                ) + "\nAction: "@ + action_debug_text(action),
                None => "Error: Unable to retrieve Agent information."@,
            },
            NPCType::Monster => match monster_reward {
                Some(r) => "NPC Type: Monster\nPosition: "@ + position_debug_text(b.position) + energy_text(b)
                    + "\nReward: "@ + nat_text(r as nat),
                None => "Error: Unable to retrieve Monster information."@,
            },
            NPCType::Treasure => match treasure_reward {
                Some(r) => "NPC Type: Treasure\nPosition: "@ + position_debug_text(b.position) + "\nReward: "@
                    + nat_text(r as nat),
                None => "Error: Unable to retrieve Treasure information."@,
            },
            NPCType::Player => "NPC Type: Player\nPosition: "@ + position_debug_text(b.position) + energy_text(b),
        },
    }
}

fn append_energy(s: &mut String, b: &NPCBase)
    ensures
        final(s)@ == old(s)@ + energy_text(*b),
{
    s.append("\nEnergy: ");
    let e = format_u32(b.energy);
    s.append(e.as_str());
    s.append("/");
    let m = format_u32(b.max_energy);
    s.append(m.as_str());
}

/// The text the panel shows for the selected NPC (see `npc_info_text`);
/// `agent`, `monster` and `treasure` are the details of the selected NPC, for
/// the kind it has them for.
pub fn update_selected_npc_text(
    npc_base: Option<&NPCBase>,
    agent: Option<&Agent>,
    monster: Option<&Monster>,
    treasure: Option<&Treasure>,
) -> (s: String)
    ensures
        s@ == npc_info_text(
            match npc_base {
                Some(b) => Some(*b),
                None => None,
            },
            match agent {
                Some(a) => Some((a@.id, a@.status, a@.action)),
                None => None,
            },
            match monster {
                Some(m) => Some(m@.reward),
                None => None,
            },
            match treasure {
                Some(t) => Some(t.reward_spec()),
                None => None,
            },
        ),
{
    match npc_base {
        None => "No NPC Selected".to_owned(),
        Some(b) => match b.npc_type {
            NPCType::Agent => match agent {
                Some(a) => {
                    let mut s = "NPC Type: Agent\nPosition: ".to_owned();
                    let p = debug_position(b.position);
                    s.append(p.as_str());
                    append_energy(&mut s, b);
                    s.append("\nID: ");
                    let id = format_i32(a.get_id());
                    s.append(id.as_str());
                    s.append("\nStatus: ");
                    let st = debug_status(a.get_status());
                    s.append(st.as_str());
                    s.append("\nAction: ");
                    let act = debug_action(a.get_action());
                    s.append(act.as_str());
                    s
                },
                None => "Error: Unable to retrieve Agent information.".to_owned(),
            },
            NPCType::Monster => match monster {
                Some(m) => {
                    let mut s = "NPC Type: Monster\nPosition: ".to_owned();
                    let p = debug_position(b.position);
                    s.append(p.as_str());
                    append_energy(&mut s, b);
                    s.append("\nReward: ");
                    let r = format_u32(m.get_reward());
                    s.append(r.as_str());
                    s
                },
                None => "Error: Unable to retrieve Monster information.".to_owned(),
            },
            NPCType::Treasure => match treasure {
                Some(t) => {
                    let mut s = "NPC Type: Treasure\nPosition: ".to_owned();
                    let p = debug_position(b.position);
                    s.append(p.as_str());
                    s.append("\nReward: ");
                    let r = format_u32(t.get_reward());
                    s.append(r.as_str());
                    s
                },
                None => "Error: Unable to retrieve Treasure information.".to_owned(),
            },
            NPCType::Player => {
                let mut s = "NPC Type: Player\nPosition: ".to_owned();
                let p = debug_position(b.position);
                s.append(p.as_str());
                append_energy(&mut s, b);
                s
            },
        },
    }
}

} // verus!
