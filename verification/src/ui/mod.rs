//! What the side panel shows.

pub mod npc_click;
