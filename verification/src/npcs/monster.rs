use vstd::prelude::*;
use crate::gameworld::position::Position;
use crate::npcs::npc_status::Status;

verus! {

/// The state of a monster as plain values.
pub ghost struct MonsterView {
    pub id: i32,
    pub start_position: Position,
    pub current_position: Position,
    pub target_id: i32,
    pub reward: u32,
    pub status: Status,
}

/// A monster: where it started, where it is, whom it hunts and its reward.
#[derive(Clone, Copy, Debug)]
pub struct Monster {
    id: i32,
    start_position: Position,
    current_position: Position,
    target_id: i32,
    reward: u32,
    status: Status,
}

impl View for Monster {
    type V = MonsterView;

    closed spec fn view(&self) -> MonsterView {
        MonsterView {
            id: self.id,
            start_position: self.start_position,
            current_position: self.current_position,
            target_id: self.target_id,
            reward: self.reward,
            status: self.status,
        }
    }
}

impl Monster {
    /// A new idle monster at `start_position`, with id 0, no reward and no
    /// target.
    pub fn new_monster(start_position: Position) -> (m: Monster)
        ensures
            m@ == (MonsterView {
                id: 0,
                start_position,
                current_position: start_position,
                target_id: i32::MAX,
                reward: 0,
                status: Status::Idle,
            }),
    {
        Monster {
            id: 0,
            reward: 0,
            status: Status::Idle,
            start_position,
            current_position: start_position,
            target_id: i32::MAX,
        }
    }

    /// The monster's id.
    pub fn get_id(&self) -> (r: i32)
        ensures
            r == self@.id,
    {
        self.id
    }

    /// Sets what the monster is doing.
    pub fn set_status(&mut self, status: Status)
        ensures
            final(self)@ == (MonsterView { status, ..old(self)@ }),
    {
        self.status = status;
    }

    /// What the monster is doing.
    pub fn get_status(&self) -> (r: Status)
        ensures
            r == self@.status,
    {
        self.status
    }

    /// Sets the reward.
    pub fn set_reward(&mut self, reward: u32)
        ensures
            final(self)@ == (MonsterView { reward, ..old(self)@ }),
    {
        self.reward = reward;
    }

    /// The reward.
    pub fn get_reward(&self) -> (r: u32)
        ensures
            r == self@.reward,
    {
        self.reward
    }

    /// Adds to the reward.
    pub fn add_reward(&mut self, reward: u32)
        requires
            old(self)@.reward + reward <= u32::MAX,
        ensures
            final(self)@ == (MonsterView { reward: (old(self)@.reward + reward) as u32, ..old(self)@ }),
    {
        self.reward = self.reward + reward;
    }

    /// Takes from the reward, stopping at zero.
    pub fn remove_reward(&mut self, reward: u32)
        ensures
            final(self)@ == (MonsterView {
                reward: if old(self)@.reward >= reward { (old(self)@.reward - reward) as u32 } else { 0 },
                ..old(self)@
            }),
    {
        self.reward = self.reward.saturating_sub(reward);
    }

    /// Sets the id of the agent the monster hunts.
    pub fn set_target_id(&mut self, target_id: i32)
        ensures
            final(self)@ == (MonsterView { target_id, ..old(self)@ }),
    {
        self.target_id = target_id;
    }

    /// The id of the agent the monster hunts.
    pub fn get_target_id(&self) -> (r: i32)
        ensures
            r == self@.target_id,
    {
        self.target_id
    }
}

} // verus!
