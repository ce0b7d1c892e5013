use vstd::prelude::*;

verus! {

/// A tile of the fixed-size grid world.
#[derive(Clone, Copy, Debug)]
pub struct Tile {
    tile_type: TileType,
    valid_monster_spawn: bool,
}

/// The kinds of terrain of the grid world.
#[derive(Debug, Clone, Copy, PartialEq, Eq, Structural)]
pub enum TileType {
    Forest,
    Mountain,
    Lake,
    Village,
    Dungeon,
}

impl Tile {
    /// The type of the tile.
    pub closed spec fn kind(&self) -> TileType {
        self.tile_type
    }

    /// Monsters may spawn on the tile.
    pub closed spec fn spawnable(&self) -> bool {
        self.valid_monster_spawn
    }

    /// Creates a tile of the given type on which monsters may spawn.
    pub fn new(tile_type: TileType) -> (t: Tile)
        ensures
            t.kind() == tile_type,
            t.spawnable(),
    {
        Tile { tile_type, valid_monster_spawn: true }
    }

    /// The type of the tile.
    pub fn get_tile_type(&self) -> (t: TileType)
        ensures
            t == self.kind(),
    {
        self.tile_type
    }

    /// Changes the type of the tile.
    pub fn update_tile_type(&mut self, new_tile_type: TileType)
        ensures
            final(self).kind() == new_tile_type,
            final(self).spawnable() == old(self).spawnable(),
    {
        self.tile_type = new_tile_type;
    }

    /// Sets whether monsters may spawn on the tile.
    pub fn set_monster_spawn(&mut self, spawn: bool)
        ensures
            final(self).kind() == old(self).kind(),
            final(self).spawnable() == spawn,
    {
        self.valid_monster_spawn = spawn;
    }

    /// Whether monsters may spawn on the tile.
    pub fn is_monster_spawn(&mut self) -> (b: bool)
        ensures
            b == old(self).spawnable(),
            *final(self) == *old(self),
    {
        self.valid_monster_spawn
    }

    /// A copy of the tile.
    pub fn copy_tile(&self) -> (t: Tile)
        ensures
            t == *self,
    {
        Tile { tile_type: self.tile_type, valid_monster_spawn: self.valid_monster_spawn }
    }
}

} // verus!
