use vstd::prelude::*;

verus! {

/// The errors of the world's operations.
#[derive(Debug, Clone, Copy, PartialEq, Eq, Structural)]
pub enum MyError {
    PositionError,
    OtherError,
    TileNotFound,
    AgentNotFound,
    MonsterNotFound,
    TreasureNotFound,
}

/// The message of each error.
pub open spec fn error_message(e: MyError) -> Seq<char> {
    match e {
        MyError::PositionError => "Position Error"@,
        MyError::OtherError => "Other Error"@,
        MyError::TileNotFound => "Tile Not Found"@,
        MyError::AgentNotFound => "Agent Not Found"@,
        MyError::MonsterNotFound => "Monster Not Found"@,
        MyError::TreasureNotFound => "Treasure Not Found"@,
    }
}

impl MyError {
    /// The message of the error.
    pub fn to_string(&self) -> (s: String)
        ensures
            s@ == error_message(*self),
    {
        proof {
            reveal_strlit("Position Error");
            reveal_strlit("Other Error");
            reveal_strlit("Tile Not Found");
            reveal_strlit("Agent Not Found");
            reveal_strlit("Monster Not Found");
            reveal_strlit("Treasure Not Found");
        }
        let text = match self {
            MyError::PositionError => "Position Error",
            MyError::OtherError => "Other Error",
            MyError::TileNotFound => "Tile Not Found",
            MyError::AgentNotFound => "Agent Not Found",
            MyError::MonsterNotFound => "Monster Not Found",
            MyError::TreasureNotFound => "Treasure Not Found",
        };
        text.to_owned()
    }
}

/// The error of a position outside the world.
#[derive(Debug, Clone, Copy, PartialEq, Eq, Structural)]
pub struct PositionError;

impl PositionError {
    /// The message of the error.
    pub fn to_string(&self) -> (s: String)
        ensures
            s@ == "Position is out of bounds"@,
    {
        "Position is out of bounds".to_owned()
    }
}

} // verus!
