//! The per-agent search trees of actions.

pub mod mcst_node;
pub mod mcst_tree;
pub mod simulation_tree;
