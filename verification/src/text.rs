use vstd::prelude::*;
use crate::gameworld::position::{Position, int_text, nat_text};
use crate::npcs::npc_action::NpcAction;
use crate::npcs::npc_status::Status;
use crate::npcs::npc_type::NPCType;

verus! {

/// The text that `{:?}` gives for an action.
pub uninterp spec fn action_debug_text(a: NpcAction) -> Seq<char>;

/// The text that `{:?}` gives for a kind of NPC.
pub uninterp spec fn npc_type_debug_text(t: NPCType) -> Seq<char>;

/// The text that `{:?}` gives for a position.
pub uninterp spec fn position_debug_text(p: Position) -> Seq<char>;

/// The text that `{:?}` gives for a status.
pub uninterp spec fn status_debug_text(s: Status) -> Seq<char>;

/// Formats an action with `{:?}`, the `Debug` text that `derive` writes.
#[verifier::external_body]
pub(crate) fn debug_action(a: NpcAction) -> (s: String)
    ensures
        s@ == action_debug_text(a),
{
    format!("{:?}", a)
}

/// Formats a kind of NPC with `{:?}`, the `Debug` text that `derive` writes.
#[verifier::external_body]
pub(crate) fn debug_npc_type(t: NPCType) -> (s: String)
    ensures
        s@ == npc_type_debug_text(t),
{
    format!("{:?}", t)
}

/// Formats a position with `{:?}`, the `Debug` text that `derive` writes.
#[verifier::external_body]
pub(crate) fn debug_position(p: Position) -> (s: String)
    ensures
        s@ == position_debug_text(p),
{
    format!("{:?}", p)
}

/// Formats a status with `{:?}`, the `Debug` text that `derive` writes.
#[verifier::external_body]
pub(crate) fn debug_status(st: Status) -> (s: String)
    ensures
        s@ == status_debug_text(st),
{
    format!("{:?}", st)
}

/// Formats an unsigned number with `{}`, which writes its decimal digits.
#[verifier::external_body]
pub(crate) fn format_u32(n: u32) -> (s: String)
    ensures
        s@ == nat_text(n as nat),
{
    format!("{}", n)
}

/// Formats a signed number with `{}`, which writes its decimal digits after a
/// `-` when it is negative.
#[verifier::external_body]
pub(crate) fn format_i32(n: i32) -> (s: String)
    ensures
        s@ == int_text(n as int),
{
    format!("{}", n)
}

} // verus!
