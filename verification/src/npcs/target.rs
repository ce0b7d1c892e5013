use vstd::prelude::*;

verus! {

/// What kind of thing an agent is targeting.
#[derive(Clone, Copy, Debug, PartialEq, Eq, Structural)]
pub enum Target {
    Agent,
    Monster,
    NoTarget,
    Tile,
    Treasure,
}

} // verus!
