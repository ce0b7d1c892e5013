//! The tile based world that agents move in.

pub mod position;
pub mod tile;
pub mod tile_types;
pub mod world;
