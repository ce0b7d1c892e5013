use vstd::prelude::*;
use crate::gameworld::position::{Position, pair_text};

verus! {

/// The kinds of work an agent can do.
#[derive(Clone, Copy, Debug, PartialEq, Eq, Structural, Hash)]
pub enum WorkType {
    Farming(Position),
    Mining(Position),
    Merchant,
}

/// The actions an agent can choose.
#[derive(Clone, Copy, Debug, PartialEq, Eq, Structural, Hash)]
pub enum NpcAction {
    AttackAgent,
    AttackMonster,
    Steal,
    TreasureHunt,
    Rest,
    Talk,
    Work(WorkType),
    NoAction,
}

/// The description of a kind of work.
pub open spec fn work_type_text(w: WorkType) -> Seq<char> {
    match w {
        WorkType::Farming(p) => "Farming at "@ + pair_text(p.x as int, p.y as int),
        WorkType::Mining(p) => "Mining at "@ + pair_text(p.x as int, p.y as int),
        WorkType::Merchant => "Merchant"@,
    }
}

/// The description of an action.
pub open spec fn npc_action_text(a: NpcAction) -> Seq<char> {
    match a {
        NpcAction::AttackAgent => "Attack Agent"@,
        NpcAction::AttackMonster => "Attack Monster"@,
        NpcAction::Steal => "Steal"@,
        NpcAction::TreasureHunt => "Treasure Hunt"@,
        NpcAction::Rest => "Rest"@,
        NpcAction::Talk => "Talk"@,
        NpcAction::NoAction => "Root"@,
        NpcAction::Work(w) => work_type_text(w) + " Work "@,
    }
}

/// The actions that do not carry work, in their fixed order.
pub open spec fn all_actions() -> Seq<NpcAction> {
    seq![
        NpcAction::AttackAgent,
        NpcAction::AttackMonster,
        NpcAction::Steal,
        NpcAction::TreasureHunt,
        NpcAction::Rest,
        NpcAction::Talk,
        NpcAction::NoAction,
    ]
}

impl WorkType {
    /// The description of the work.
    pub fn to_string(&self) -> (s: String)
        ensures
            s@ == work_type_text(*self),
    {
        proof {
            reveal_strlit("Farming at ");
            reveal_strlit("Mining at ");
            reveal_strlit("Merchant");
        }
        match self {
            WorkType::Farming(position) => {
                let mut s = "Farming at ".to_owned();
                let p = position.to_string();
                s.append(p.as_str());
                s
            },
            WorkType::Mining(position) => {
                let mut s = "Mining at ".to_owned();
                let p = position.to_string();
                s.append(p.as_str());
                s
            },
            WorkType::Merchant => "Merchant".to_owned(),
        }
    }
}

impl NpcAction {
    /// The actions that do not carry work, in their fixed order.
    pub fn iter() -> (v: Vec<NpcAction>)
        ensures
            v@ == all_actions(),
    {
        let v = vec![
            NpcAction::AttackAgent,
            NpcAction::AttackMonster,
            NpcAction::Steal,
            NpcAction::TreasureHunt,
            NpcAction::Rest,
            NpcAction::Talk,
            NpcAction::NoAction,
        ];
        assert(v@ =~= all_actions());
        v
    }

    /// The description of the action.
    pub fn to_string(&self) -> (s: String)
        ensures
            s@ == npc_action_text(*self),
    {
        match self {
            NpcAction::AttackAgent => "Attack Agent".to_owned(),
            NpcAction::AttackMonster => "Attack Monster".to_owned(),
            NpcAction::Steal => "Steal".to_owned(),
            NpcAction::TreasureHunt => "Treasure Hunt".to_owned(),
            NpcAction::Rest => "Rest".to_owned(),
            NpcAction::Talk => "Talk".to_owned(),
            NpcAction::NoAction => "Root".to_owned(),
            NpcAction::Work(work_type) => {
                let mut s = work_type.to_string();
                s.append(" Work ");
                s
            },
        }
    }
}

} // verus!
