//! Carrying out the actions the agents have selected.

pub mod handle_npc_movement;
pub mod handle_selected_action;
pub mod agent_status;
