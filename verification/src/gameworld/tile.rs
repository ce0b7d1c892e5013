use vstd::prelude::*;
use crate::gameworld::tile_types::TileType;

verus! {

/// A single tile of the game world.
#[derive(Clone, Copy, Debug, PartialEq, Eq, Structural)]
pub struct Tile {
    pub tile_type: TileType,
}

impl Tile {
    /// Creates a tile of the given type.
    pub fn new(tile_type: TileType) -> (t: Tile)
        ensures
            t.tile_type == tile_type,
    {
        Tile { tile_type }
    }

    /// The type of the tile.
    pub fn get_tile_type(&self) -> (t: TileType)
        ensures
            t == self.tile_type,
    {
        self.tile_type
    }
}

} // verus!
