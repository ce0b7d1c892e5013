use vstd::prelude::*;
use crate::gameworld::position::Position;
use crate::npcs::npc_action::NpcAction;
use crate::npcs::npc_status::Status;
use crate::npcs::target::Target;
use crate::gameworld::position::int_text;
use crate::text::format_i32;

verus! {

/// The state of an agent as plain values.
pub ghost struct AgentView {
    pub action: NpcAction,
    pub id: i32,
    pub reward: u32,
    pub status: Status,
    pub target: Target,
    pub retaliation_target: Target,
    pub retaliation_target_id: i32,
    pub monster_target_id: i32,
    pub agent_target_id: i32,
    pub treasure_target_id: i32,
    pub tile_target: Option<Position>,
    pub path: Option<Seq<Position>>,
    pub leader: bool,
    pub follower: bool,
    pub leader_id: i32,
    pub followers: Seq<i32>,
    pub memory: Seq<(i32, NpcAction)>,
}


/// A new agent with the given id: idle, without action, target, path,
/// followers or memories, leading its own group.
pub open spec fn fresh_agent(id: i32) -> AgentView {
    AgentView {
        action: NpcAction::NoAction,
        id,
        reward: 0,
        status: Status::Idle,
        target: Target::NoTarget,
        retaliation_target: Target::NoTarget,
        retaliation_target_id: i32::MAX,
        monster_target_id: i32::MAX,
        agent_target_id: i32::MAX,
        treasure_target_id: i32::MAX,
        tile_target: None,
        path: None,
        leader: true,
        follower: false,
        leader_id: i32::MAX,
        followers: Seq::empty(),
        memory: Seq::empty(),
    }
}

/// The agent with `x` more reward.
pub open spec fn reward_added(v: AgentView, x: u32) -> AgentView {
    AgentView { reward: (v.reward + x) as u32, ..v }
}

/// The agent with `x` less reward, stopping at zero.
pub open spec fn reward_removed(v: AgentView, x: u32) -> AgentView {
    AgentView { reward: if v.reward >= x { (v.reward - x) as u32 } else { 0 }, ..v }
}

/// What the agent is doing, as a sentence.
pub open spec fn status_message_text(v: AgentView) -> Seq<char> {
    let who = "Agent "@ + int_text(v.id as int);
    who + match v.status {
        Status::Idle => " is idle."@,
        Status::Finished => " has finished its task."@,
        Status::Working => " is currently working."@,
        Status::Moving => " is moving."@,
        Status::Dead => " is dead."@,
        Status::Following => " is following."@,
        Status::Retaliating => " is Retaliating."@,
        Status::Fleeing => " is Fleeing."@,
        Status::Recovering => " is Recovering."@,
        Status::Attacking => " is Attacking."@,
        Status::RequiresInstruction => " is Awaiting Instructions."@,
        Status::Talking => " is Talking."@,
    }
}

/// What the agent is targeting, as a sentence.
pub open spec fn target_message_text(v: AgentView) -> Seq<char> {
    let who = "Agent "@ + int_text(v.id as int);
    who + match v.target {
        Target::Agent => " is targeting another agent."@,
        Target::Monster => " is targeting a monster."@,
        Target::NoTarget => " has no specific target."@,
        Target::Tile => match v.tile_target {
            Some(p) => " is targeting a tile at coordinates ("@ + int_text(p.x as int) + ", "@ + int_text(
                p.y as int,
            ) + ")."@,
            None => " is not targeting any specific tile."@,
        },
        Target::Treasure => " is targeting treasure."@,
    }
}

/// An agent: what it is doing, whom it targets, its group and its memory.
#[derive(Clone, Debug)]
pub struct Agent {
    action: NpcAction,
    id: i32,
    reward: u32,
    status: Status,
    target: Target,
    retaliation_target: Target,
    retaliation_target_id: i32,
    monster_target_id: i32,
    agent_target_id: i32,
    treasure_target_id: i32,
    tile_target: Option<Position>,
    path: Option<Vec<Position>>,
    leader: bool,
    follower: bool,
    leader_id: i32,
    followers: Vec<i32>,
    memory: Vec<(i32, NpcAction)>,
}

/// The largest number of memories an agent keeps.
pub const MEMORY_LIMIT: usize = 50;

impl View for Agent {
    type V = AgentView;

    closed spec fn view(&self) -> AgentView {
        AgentView {
            action: self.action,
            id: self.id,
            reward: self.reward,
            status: self.status,
            target: self.target,
            retaliation_target: self.retaliation_target,
            retaliation_target_id: self.retaliation_target_id,
            monster_target_id: self.monster_target_id,
            agent_target_id: self.agent_target_id,
            treasure_target_id: self.treasure_target_id,
            tile_target: self.tile_target,
            path: match self.path {
                Some(p) => Some(p@),
                None => None,
            },
            leader: self.leader,
            follower: self.follower,
            leader_id: self.leader_id,
            followers: self.followers@,
            memory: self.memory@,
        }
    }
}

impl Agent {
    /// A new agent with the given id: idle, without action, target, path,
    /// followers or memories, leading its own group.
    pub fn new_agent(id: i32) -> (a: Agent)
        ensures
            a@ == fresh_agent(id),
    {
        let a = Agent {
            action: NpcAction::NoAction,
            id,
            reward: 0,
            status: Status::Idle,
            target: Target::NoTarget,
            retaliation_target: Target::NoTarget,
            retaliation_target_id: i32::MAX,
            monster_target_id: i32::MAX,
            agent_target_id: i32::MAX,
            treasure_target_id: i32::MAX,
            tile_target: None,
            path: None,
            leader: true,
            follower: false,
            leader_id: i32::MAX,
            followers: Vec::new(),
            memory: Vec::new(),
        };
        assert(a@.followers =~= Seq::<i32>::empty());
        assert(a@.memory =~= Seq::<(i32, NpcAction)>::empty());
        a
    }

    /// An agent with id 0: idle, without action, target, path, followers or
    /// memories, and not leading.
    pub fn default() -> (a: Agent)
        ensures
            a@ == (AgentView {
                action: NpcAction::NoAction,
                id: 0,
                reward: 0,
                status: Status::Idle,
                target: Target::NoTarget,
                retaliation_target: Target::NoTarget,
                retaliation_target_id: i32::MAX,
                monster_target_id: i32::MAX,
                agent_target_id: i32::MAX,
                treasure_target_id: i32::MAX,
                tile_target: None,
                path: None,
                leader: false,
                follower: false,
                leader_id: 0,
                followers: Seq::empty(),
                memory: Seq::empty(),
            }),
    {
        let a = Agent {
            action: NpcAction::NoAction,
            id: 0,
            reward: 0,
            status: Status::Idle,
            target: Target::NoTarget,
            retaliation_target: Target::NoTarget,
            retaliation_target_id: i32::MAX,
            monster_target_id: i32::MAX,
            agent_target_id: i32::MAX,
            treasure_target_id: i32::MAX,
            tile_target: None,
            path: None,
            leader: false,
            follower: false,
            leader_id: 0,
            followers: Vec::new(),
            memory: Vec::new(),
        };
        assert(a@.followers =~= Seq::<i32>::empty());
        assert(a@.memory =~= Seq::<(i32, NpcAction)>::empty());
        a
    }

    /// The reward collected so far.
    pub fn get_reward(&self) -> (r: u32)
        ensures
            r == self@.reward,
    {
        self.reward
    }

    /// Adds to the reward.
    pub fn add_reward(&mut self, reward: u32)
        requires
            old(self)@.reward + reward <= u32::MAX,
        ensures
            final(self)@ == reward_added(old(self)@, reward),
    {
        self.reward = self.reward + reward;
    }

    /// Takes from the reward, stopping at zero.
    pub fn remove_reward(&mut self, reward: u32)
        ensures
            final(self)@ == reward_removed(old(self)@, reward),
    {
        self.reward = self.reward.saturating_sub(reward);
    }

    /// The agent's id.
    pub fn get_id(&self) -> (r: i32)
        ensures
            r == self@.id,
    {
        self.id
    }

    /// The kind of thing the agent targets.
    pub fn get_target(&self) -> (r: Target)
        ensures
            r == self@.target,
    {
        self.target
    }

    /// Sets the kind of thing the agent targets.
    pub fn set_target(&mut self, target: Target)
        ensures
            final(self)@ == (AgentView { target: target, ..old(self)@ }),
    {
        self.target = target;
    }

    /// The kind of thing the agent retaliates against.
    pub fn get_retaliation_target(&self) -> (r: Target)
        ensures
            r == self@.retaliation_target,
    {
        self.retaliation_target
    }

    /// Sets the kind of thing the agent retaliates against.
    pub fn set_retaliation_target(&mut self, target: Target)
        ensures
            final(self)@ == (AgentView { retaliation_target: target, ..old(self)@ }),
    {
        self.retaliation_target = target;
    }

    /// The id of what the agent retaliates against.
    pub fn get_retaliation_target_id(&self) -> (r: i32)
        ensures
            r == self@.retaliation_target_id,
    {
        self.retaliation_target_id
    }

    /// Sets the id of what the agent retaliates against.
    pub fn set_retaliation_target_id(&mut self, retaliation_target_id: i32)
        ensures
            final(self)@ == (AgentView { retaliation_target_id: retaliation_target_id, ..old(self)@ }),
    {
        self.retaliation_target_id = retaliation_target_id;
    }

    /// The id of the targeted agent.
    pub fn get_agent_target_id(&self) -> (r: i32)
        ensures
            r == self@.agent_target_id,
    {
        self.agent_target_id
    }

    /// Sets the id of the targeted agent.
    pub fn set_agent_target_id(&mut self, agent_target_id: i32)
        ensures
            final(self)@ == (AgentView { agent_target_id: agent_target_id, ..old(self)@ }),
    {
        self.agent_target_id = agent_target_id;
    }

    /// The id of the targeted monster.
    pub fn get_monster_target_id(&self) -> (r: i32)
        ensures
            r == self@.monster_target_id,
    {
        self.monster_target_id
    }

    /// Sets the id of the targeted monster.
    pub fn set_monster_target_id(&mut self, monster_target_id: i32)
        ensures
            final(self)@ == (AgentView { monster_target_id: monster_target_id, ..old(self)@ }),
    {
        self.monster_target_id = monster_target_id;
    }

    /// The id of the targeted treasure.
    pub fn get_treasure_target_id(&self) -> (r: i32)
        ensures
            r == self@.treasure_target_id,
    {
        self.treasure_target_id
    }

    /// Sets the id of the targeted treasure.
    pub fn set_treasure_target_id(&mut self, treasure_target_id: i32)
        ensures
            final(self)@ == (AgentView { treasure_target_id: treasure_target_id, ..old(self)@ }),
    {
        self.treasure_target_id = treasure_target_id;
    }

    /// The targeted tile, if any.
    pub fn get_tile_target(&self) -> (r: Option<Position>)
        ensures
            r == self@.tile_target,
    {
        self.tile_target
    }

    /// Sets the targeted tile.
    pub fn set_tile_target(&mut self, tile_target: Option<Position>)
        ensures
            final(self)@ == (AgentView { tile_target: tile_target, ..old(self)@ }),
    {
        self.tile_target = tile_target;
    }

    /// Sets what the agent is doing.
    pub fn set_status(&mut self, status: Status)
        ensures
            final(self)@ == (AgentView { status: status, ..old(self)@ }),
    {
        self.status = status;
    }

    /// What the agent is doing.
    pub fn get_status(&self) -> (r: Status)
        ensures
            r == self@.status,
    {
        self.status
    }

    /// The action the agent has chosen.
    pub fn get_action(&self) -> (r: NpcAction)
        ensures
            r == self@.action,
    {
        self.action
    }

    /// Sets the action of the agent.
    pub fn set_action(&mut self, action: NpcAction)
        ensures
            final(self)@ == (AgentView { action: action, ..old(self)@ }),
    {
        self.action = action;
    }

    /// The agent's path, if it has one.
    pub fn get_path(&self) -> (r: Option<Vec<Position>>)
        ensures
            match r {
                Some(p) => self@.path == Some(p@),
                None => self@.path is None,
            },
    {
        match &self.path {
            Some(p) => {
                let mut copy: Vec<Position> = Vec::new();
                let mut i: usize = 0;
                while i < p.len()
                    invariant
                        0 <= i <= p@.len(),
                        copy@ == p@.take(i as int),
                    decreases p@.len() - i,
                {
                    copy.push(p[i]);
                    i = i + 1;
                    assert(copy@ =~= p@.take(i as int));
                }
                assert(copy@ =~= p@);
                Some(copy)
            },
            None => None,
        }
    }

    /// Sets the agent's path.
    pub fn set_path(&mut self, new_path: Vec<Position>)
        ensures
            final(self)@ == (AgentView { path: Some(new_path@), ..old(self)@ }),
    {
        self.path = Some(new_path);
    }

    /// The agent leads a group.
    pub fn is_leader(&self) -> (r: bool)
        ensures
            r == self@.leader,
    {
        self.leader
    }

    /// Sets whether the agent leads a group.
    pub fn set_is_leader(&mut self, is_leader: bool)
        ensures
            final(self)@ == (AgentView { leader: is_leader, ..old(self)@ }),
    {
        self.leader = is_leader;
    }

    /// The id of the agent's leader.
    pub fn get_leader_id(&self) -> (r: i32)
        ensures
            r == self@.leader_id,
    {
        self.leader_id
    }

    /// Sets the id of the agent's leader.
    pub fn set_leader_id(&mut self, leader_id: i32)
        ensures
            final(self)@ == (AgentView { leader_id: leader_id, ..old(self)@ }),
    {
        self.leader_id = leader_id;
    }

    /// The agent follows a leader.
    pub fn is_follower(&self) -> (r: bool)
        ensures
            r == self@.follower,
    {
        self.follower
    }

    /// Sets whether the agent follows a leader.
    pub fn set_is_follower(&mut self, is_follower: bool)
        ensures
            final(self)@ == (AgentView { follower: is_follower, ..old(self)@ }),
    {
        self.follower = is_follower;
    }

    /// Adds followers at the end of the list of followers.
    pub fn add_follower(&mut self, followers: Vec<i32>)
        ensures
            final(self)@ == (AgentView { followers: old(self)@.followers + followers@, ..old(self)@ }),
    {
        let mut i: usize = 0;
        while i < followers.len()
            invariant
                0 <= i <= followers@.len(),
                self@ == (AgentView { followers: old(self)@.followers + followers@.take(i as int), ..old(self)@ }),
            decreases followers@.len() - i,
        {
            self.followers.push(followers[i]);
            i = i + 1;
            assert(self@.followers =~= old(self)@.followers + followers@.take(i as int));
        }
        assert(followers@.take(i as int) =~= followers@);
    }

    /// Removes the first occurrence of a follower, if there is one.
    pub fn remove_follower(&mut self, follower_id: i32)
        ensures
            final(self)@ == (AgentView { followers: remove_first(old(self)@.followers, follower_id), ..old(self)@ }),
    {
        let mut i: usize = 0;
        while i < self.followers.len()
            invariant
                0 <= i <= self.followers@.len(),
                self@ == old(self)@,
                forall|k: int| 0 <= k < i ==> self.followers@[k] != follower_id,
            decreases self.followers@.len() - i,
        {
            if self.followers[i] == follower_id {
                proof {
                    lemma_remove_first(old(self)@.followers, follower_id, i as int);
                }
                self.followers.remove(i);
                return;
            }
            i = i + 1;
        }
        proof {
            lemma_remove_first_absent(old(self)@.followers, follower_id);
        }
    }

    /// The agent has followers.
    pub fn has_followers(&self) -> (b: bool)
        ensures
            b == (self@.followers.len() > 0),
    {
        self.followers.len() > 0
    }

    /// The ids of the agent's followers.
    pub fn get_followers(&self) -> (r: Vec<i32>)
        ensures
            r@ == self@.followers,
    {
        let mut copy: Vec<i32> = Vec::new();
        let mut i: usize = 0;
        while i < self.followers.len()
            invariant
                0 <= i <= self.followers@.len(),
                copy@ == self.followers@.take(i as int),
            decreases self.followers@.len() - i,
        {
            copy.push(self.followers[i]);
            i = i + 1;
            assert(copy@ =~= self.followers@.take(i as int));
        }
        assert(copy@ =~= self.followers@);
        copy
    }

    /// The number of followers.
    pub fn get_group_size(&self) -> (n: i32)
        requires
            self@.followers.len() <= i32::MAX,
        ensures
            n == self@.followers.len(),
    {
        self.followers.len() as i32
    }

    /// Remembers what an agent did, newest first, keeping at most 50 memories.
    pub fn add_to_memory(&mut self, agent_id: i32, action: NpcAction)
        ensures
            final(self)@ == (AgentView { memory: remember(old(self)@.memory, agent_id, action), ..old(self)@ }),
    {
        self.memory.insert(0, (agent_id, action));
        if self.memory.len() > MEMORY_LIMIT {
            self.memory.pop();
        }
        assert(self@.memory =~= remember(old(self)@.memory, agent_id, action));
    }

    /// What the agent is doing, as a sentence (see `status_message_text`).
    pub fn status_message(&self) -> (s: String)
        ensures
            s@ == status_message_text(self@),
    {
        let mut s = "Agent ".to_owned();
        let id = format_i32(self.id);
        s.append(id.as_str());
        let rest = match self.status {
            Status::Idle => " is idle.",
            Status::Finished => " has finished its task.",
            Status::Working => " is currently working.",
            Status::Moving => " is moving.",
            Status::Dead => " is dead.",
            Status::Following => " is following.",
            Status::Retaliating => " is Retaliating.",
            Status::Fleeing => " is Fleeing.",
            Status::Recovering => " is Recovering.",
            Status::Attacking => " is Attacking.",
            Status::RequiresInstruction => " is Awaiting Instructions.",
            Status::Talking => " is Talking.",
        };
        s.append(rest);
        s
    }

    /// What the agent is targeting, as a sentence (see `target_message_text`).
    pub fn target_message(&self) -> (s: String)
        ensures
            s@ == target_message_text(self@),
    {
        let mut s = "Agent ".to_owned();
        let id = format_i32(self.id);
        s.append(id.as_str());
        match self.target {
            Target::Agent => s.append(" is targeting another agent."),
            Target::Monster => s.append(" is targeting a monster."),
            Target::NoTarget => s.append(" has no specific target."),
            Target::Tile => match self.tile_target {
                Some(p) => {
                    s.append(" is targeting a tile at coordinates (");
                    let x = format_i32(p.x);
                    s.append(x.as_str());
                    s.append(", ");
                    let y = format_i32(p.y);
                    s.append(y.as_str());
                    s.append(").");
                },
                None => s.append(" is not targeting any specific tile."),
            },
            Target::Treasure => s.append(" is targeting treasure."),
        }
        s
    }

    /// The agent's memories, newest first.
    pub fn get_memory(&self) -> (m: &Vec<(i32, NpcAction)>)
        ensures
            m@ == self@.memory,
    {
        &self.memory
    }
}

/// `s` without its first occurrence of `x`.
pub open spec fn remove_first(s: Seq<i32>, x: i32) -> Seq<i32> {
    if exists|i: int| 0 <= i < s.len() && s[i] == x {
        let i = choose|i: int| 0 <= i < s.len() && s[i] == x && forall|k: int| 0 <= k < i ==> s[k] != x;
        s.remove(i)
    } else {
        s
    }
}

proof fn lemma_remove_first(s: Seq<i32>, x: i32, i: int)
    requires
        0 <= i < s.len(),
        s[i] == x,
        forall|k: int| 0 <= k < i ==> s[k] != x,
    ensures
        remove_first(s, x) == s.remove(i),
{
    let j = choose|j: int| 0 <= j < s.len() && s[j] == x && forall|k: int| 0 <= k < j ==> s[k] != x;
    assert(0 <= j < s.len() && s[j] == x && forall|k: int| 0 <= k < j ==> s[k] != x);
    if j < i {
        assert(s[j] != x);
    } else if i < j {
        assert(s[i] != x);
    }
}

proof fn lemma_remove_first_absent(s: Seq<i32>, x: i32)
    requires
        forall|k: int| 0 <= k < s.len() ==> s[k] != x,
    ensures
        remove_first(s, x) == s,
{
}

/// The memories after remembering `(agent_id, action)`: it comes first, and
/// the oldest memory is forgotten when there would be more than 50.
pub open spec fn remember(m: Seq<(i32, NpcAction)>, agent_id: i32, action: NpcAction) -> Seq<(i32, NpcAction)> {
    let n = seq![(agent_id, action)] + m;
    if n.len() > 50 { n.drop_last() } else { n }
}

} // verus!
