//! The non-player characters: agents, monsters and treasures.

pub mod agent;
pub mod monster;
pub mod npc_action;
pub mod npc_base;
pub mod npc_status;
pub mod npc_type;
pub mod target;
pub mod treasure;
