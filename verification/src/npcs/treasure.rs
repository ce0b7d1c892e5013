use vstd::prelude::*;

verus! {

/// The reward a new treasure holds.
pub const TREASURE_REWARD: u32 = 100;

/// A treasure with its id and the reward it holds.
#[derive(Clone, Copy, Debug)]
pub struct Treasure {
    id: i32,
    reward: u32,
}

impl Treasure {
    /// The treasure's id.
    pub closed spec fn id_spec(&self) -> i32 {
        self.id
    }

    /// The reward the treasure holds.
    pub closed spec fn reward_spec(&self) -> u32 {
        self.reward
    }

    /// A new treasure with the given id, holding a reward of 100. Ids are
    /// handed out by the caller, one after another, starting at 1.
    pub fn new_treasure(id: i32) -> (t: Treasure)
        ensures
            t.id_spec() == id,
            t.reward_spec() == 100,
    {
        Treasure { id, reward: TREASURE_REWARD }
    }

    /// Sets the reward.
    pub fn set_reward(&mut self, reward: u32)
        ensures
            final(self).reward_spec() == reward,
            final(self).id_spec() == old(self).id_spec(),
    {
        self.reward = reward;
    }

    /// The reward.
    pub fn get_reward(&self) -> (r: u32)
        ensures
            r == self.reward_spec(),
    {
        self.reward
    }

    /// Adds to the reward.
    pub fn add_reward(&mut self, reward: u32)
        requires
            old(self).reward_spec() + reward <= u32::MAX,
        ensures
            final(self).reward_spec() == old(self).reward_spec() + reward,
            final(self).id_spec() == old(self).id_spec(),
    {
        self.reward = self.reward + reward;
    }

    /// Takes from the reward, stopping at zero.
    pub fn remove_reward(&mut self, reward: u32)
        ensures
            final(self).reward_spec() == (if old(self).reward_spec() >= reward {
                old(self).reward_spec() - reward
            } else {
                0
            }),
            final(self).id_spec() == old(self).id_spec(),
    {
        self.reward = self.reward.saturating_sub(reward);
    }

    /// The treasure's id.
    pub fn get_id(&self) -> (r: i32)
        ensures
            r == self.id_spec(),
    {
        self.id
    }
}

} // verus!
