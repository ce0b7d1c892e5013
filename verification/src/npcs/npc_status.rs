use vstd::prelude::*;

verus! {

/// What an NPC is currently doing.
#[derive(Clone, Copy, Debug, PartialEq, Eq, Structural)]
pub enum Status {
    Idle,
    Finished,
    Working,
    Moving,
    Dead,
    Following,
    Retaliating,
    Fleeing,
    Recovering,
    Attacking,
    Talking,
    RequiresInstruction,
}

} // verus!
