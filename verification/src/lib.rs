//! Grid world, path finding and decision logic for a turn based NPC simulation.

pub mod components;
pub mod errors;
pub mod gameworld;
pub mod tile;
pub mod world;
pub mod pos_map;
pub mod grid_sum;
pub mod pathfinding;
pub mod movement;
pub mod npcs;
pub mod system;
pub mod laws;
pub mod turn_laws;
pub mod world_sim;
pub mod text;
pub mod ui;
