use vstd::prelude::*;

verus! {

/// The kinds of non-player characters.
#[derive(Clone, Copy, Debug, PartialEq, Eq, Structural)]
pub enum NPCType {
    Agent,
    Monster,
    Treasure,
    Player,
}

/// The name of each kind, which is also the name of its texture.
pub open spec fn npc_type_name(t: NPCType) -> Seq<char> {
    match t {
        NPCType::Agent => "agent"@,
        NPCType::Monster => "monster"@,
        NPCType::Treasure => "treasure"@,
        NPCType::Player => "player"@,
    }
}

impl NPCType {
    /// The name of the kind.
    pub fn to_string(&self) -> (s: &'static str)
        ensures
            s@ == npc_type_name(*self),
    {
        proof {
            reveal_strlit("agent");
            reveal_strlit("monster");
            reveal_strlit("treasure");
            reveal_strlit("player");
        }
        match self {
            NPCType::Agent => "agent",
            NPCType::Monster => "monster",
            NPCType::Treasure => "treasure",
            NPCType::Player => "player",
        }
    }
}

} // verus!
