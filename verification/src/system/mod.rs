//! The turn systems: acting on the selected actions and the search trees of
//! actions.

pub mod mcst_system;
pub mod mcst_tree;
pub mod messages;
pub mod agent_messages;
pub mod player_system;
pub mod setup;
pub mod simulation;
