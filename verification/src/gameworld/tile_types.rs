use vstd::prelude::*;

verus! {

/// The kinds of terrain a world tile can have.
#[derive(Debug, Clone, Copy, PartialEq, Eq, Structural, Hash)]
pub enum TileType {
    Forest,
    Mountain,
    Lake,
    Village,
    Dungeon,
    Farm,
    Mine,
}

/// The display name of a tile type.
pub open spec fn tile_type_name(t: TileType) -> Seq<char> {
    match t {
        TileType::Forest => "Forest"@,
        TileType::Mountain => "Mountain"@,
        TileType::Lake => "Water"@,
        TileType::Village => "Village"@,
        TileType::Dungeon => "Dungeon"@,
        TileType::Farm => "Farm"@,
        TileType::Mine => "Mine"@,
    }
}

/// Cost of entering a tile of the given type, in quarter steps: forests and
/// mountains cost one and a quarter steps, lakes are impassable (cost 0), all
/// other tiles cost one step.
pub open spec fn travel_weight(t: TileType) -> int {
    match t {
        TileType::Forest => 5,
        TileType::Mountain => 5,
        TileType::Lake => 0,
        _ => 4,
    }
}

impl TileType {
    /// The display name of each tile type.
    pub fn to_string(&self) -> (s: &'static str)
        ensures
            s@ == tile_type_name(*self),
    {
        proof {
            reveal_strlit("Forest");
            reveal_strlit("Mountain");
            reveal_strlit("Water");
            reveal_strlit("Village");
            reveal_strlit("Dungeon");
            reveal_strlit("Farm");
            reveal_strlit("Mine");
        }
        match self {
            TileType::Forest => "Forest",
            TileType::Mountain => "Mountain",
            TileType::Lake => "Water",
            TileType::Village => "Village",
            TileType::Dungeon => "Dungeon",
            TileType::Farm => "Farm",
            TileType::Mine => "Mine",
        }
    }

    /// The travel weight of the tile type in quarter steps (see `travel_weight`).
    pub fn get_travel_weight(&self) -> (w: u64)
        ensures
            w == travel_weight(*self),
    {
        match self {
            TileType::Forest => 5,
            TileType::Village => 4,
            TileType::Dungeon => 4,
            TileType::Mountain => 5,
            TileType::Lake => 0,
            TileType::Farm => 4,
            TileType::Mine => 4,
        }
    }
}

} // verus!
