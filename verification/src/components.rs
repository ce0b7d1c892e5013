use vstd::prelude::*;
use crate::gameworld::tile_types::TileType;

verus! {

/// A grid position attached to a displayed entity.
#[derive(Clone, Copy, Debug, PartialEq, Eq, Structural, Hash)]
pub struct Position {
    pub x: i32,
    pub y: i32,
}

/// The kind of tile a displayed tile entity shows.
#[derive(Clone, Copy, Debug)]
pub struct TileComponent {
    pub tile_type: TileType,
}

} // verus!
