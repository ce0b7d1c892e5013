use vstd::prelude::*;
use crate::npcs::agent::{Agent, AgentView};
use crate::npcs::npc_action::NpcAction;
use crate::npcs::npc_status::Status;

verus! {

/// What one NPC tells another in a turn.
#[derive(Debug, PartialEq, Eq)]
pub enum MessageType {
    Attack(u8),
    MonsterAttack(u8),
    GroupDamage(u8),
    GroupReward(u32),
    Reward(u32),
    Steal(u32),
    Cooperate(Vec<u32>),
    CheckStartCooperate,
    BecomeFollower,
    SetLeader(u32),
    StopCooperating,
    Move((u32, u32)),
    Rest,
    Talk,
    /// `true` adds the energy, `false` takes it.
    Energy(bool, u8),
    Inherit(Vec<u32>, u32),
}

/// The place of a kind of message in the order messages are handled in.
pub open spec fn message_rank(m: MessageType) -> int {
    match m {
        MessageType::Attack(_) => 0,
        MessageType::MonsterAttack(_) => 1,
        MessageType::GroupDamage(_) => 2,
        MessageType::GroupReward(_) => 3,
        MessageType::Reward(_) => 4,
        MessageType::Steal(_) => 5,
        MessageType::Cooperate(_) => 6,
        MessageType::CheckStartCooperate => 7,
        MessageType::BecomeFollower => 8,
        MessageType::SetLeader(_) => 9,
        MessageType::StopCooperating => 10,
        MessageType::Move(_) => 11,
        MessageType::Energy(_, _) => 12,
        MessageType::Inherit(_, _) => 13,
        MessageType::Rest => 14,
        MessageType::Talk => 15,
    }
}

impl MessageType {
    /// The place of this kind of message in the order messages are handled in.
    pub fn rank(&self) -> (r: u8)
        ensures
            r == message_rank(*self),
    {
        match self {
            MessageType::Attack(_) => 0,
            MessageType::MonsterAttack(_) => 1,
            MessageType::GroupDamage(_) => 2,
            MessageType::GroupReward(_) => 3,
            MessageType::Reward(_) => 4,
            MessageType::Steal(_) => 5,
            MessageType::Cooperate(_) => 6,
            MessageType::CheckStartCooperate => 7,
            MessageType::BecomeFollower => 8,
            MessageType::SetLeader(_) => 9,
            MessageType::StopCooperating => 10,
            MessageType::Move(_) => 11,
            MessageType::Energy(_, _) => 12,
            MessageType::Inherit(_, _) => 13,
            MessageType::Rest => 14,
            MessageType::Talk => 15,
        }
    }
}

/// A message from one agent to another.
#[derive(Debug, PartialEq, Eq)]
pub struct AgentMessage {
    pub sender_id: i32,
    pub receiver_id: i32,
    pub message_type: MessageType,
}

impl AgentMessage {
    /// A message from `sender_id` to `receiver_id`.
    pub fn new(sender_id: i32, receiver_id: i32, message_type: MessageType) -> (m: AgentMessage)
        ensures
            m == (AgentMessage { sender_id, receiver_id, message_type }),
    {
        AgentMessage { sender_id, receiver_id, message_type }
    }
}

/// The messages agents have sent and nobody has handled yet.
pub struct AgentMessages {
    pub messages: Vec<AgentMessage>,
}

impl AgentMessages {
    /// No messages.
    pub fn new() -> (m: AgentMessages)
        ensures
            m.messages@ == Seq::<AgentMessage>::empty(),
    {
        AgentMessages { messages: Vec::new() }
    }

    /// Adds a message at the end.
    pub fn add_message(&mut self, message: AgentMessage)
        ensures
            final(self).messages@ == old(self).messages@.push(message),
    {
        self.messages.push(message);
    }

    /// There are no messages.
    pub fn is_empty(&self) -> (b: bool)
        ensures
            b == (self.messages@.len() == 0),
    {
        self.messages.len() == 0
    }
}

/// A message from an agent to a monster.
#[derive(Debug, PartialEq, Eq)]
pub struct MonsterMessage {
    pub sender_id: i32,
    pub receiver_id: i32,
    pub message_type: MessageType,
}

impl MonsterMessage {
    /// A message from `sender_id` to the monster `receiver_id`.
    pub fn new(sender_id: i32, receiver_id: i32, message_type: MessageType) -> (m: MonsterMessage)
        ensures
            m == (MonsterMessage { sender_id, receiver_id, message_type }),
    {
        MonsterMessage { sender_id, receiver_id, message_type }
    }
}

/// The messages sent to monsters and not handled yet.
pub struct MonsterMessages {
    pub messages: Vec<MonsterMessage>,
}

impl MonsterMessages {
    /// No messages.
    pub fn new() -> (m: MonsterMessages)
        ensures
            m.messages@ == Seq::<MonsterMessage>::empty(),
    {
        MonsterMessages { messages: Vec::new() }
    }

    /// Adds a message at the end.
    pub fn add_message(&mut self, message: MonsterMessage)
        ensures
            final(self).messages@ == old(self).messages@.push(message),
    {
        self.messages.push(message);
    }
}

/// A message from an agent to a treasure.
#[derive(Debug, PartialEq, Eq)]
pub struct TreasureMessage {
    pub sender_id: i32,
    pub receiver_id: i32,
    pub message_type: MessageType,
}

impl TreasureMessage {
    /// A message from `sender_id` to the treasure `receiver_id`.
    pub fn new(sender_id: i32, receiver_id: i32, message_type: MessageType) -> (m: TreasureMessage)
        ensures
            m == (TreasureMessage { sender_id, receiver_id, message_type }),
    {
        TreasureMessage { sender_id, receiver_id, message_type }
    }
}

/// The messages sent to treasures and not handled yet.
pub struct TreasureMessages {
    pub messages: Vec<TreasureMessage>,
}

impl TreasureMessages {
    /// No messages.
    pub fn new() -> (m: TreasureMessages)
        ensures
            m.messages@ == Seq::<TreasureMessage>::empty(),
    {
        TreasureMessages { messages: Vec::new() }
    }

    /// Adds a message at the end.
    pub fn _add_message(&mut self, message: TreasureMessage)
        ensures
            final(self).messages@ == old(self).messages@.push(message),
    {
        self.messages.push(message);
    }
}

/// Queues a message from `sender_id` to the agent `receiver_id`.
pub fn send_agent_message(
    sender_id: i32,
    receiver_id: i32,
    message_content: MessageType,
    agent_messages: &mut AgentMessages,
)
    ensures
        final(agent_messages).messages@ == old(agent_messages).messages@.push(
            AgentMessage { sender_id, receiver_id, message_type: message_content },
        ),
{
    let message = AgentMessage::new(sender_id, receiver_id, message_content);
    agent_messages.messages.push(message);
}

/// Queues a message from `sender_id` to the monster `receiver_id`.
pub fn send_monster_message(
    sender_id: i32,
    receiver_id: i32,
    message_content: MessageType,
    monster_messages: &mut MonsterMessages,
)
    ensures
        final(monster_messages).messages@ == old(monster_messages).messages@.push(
            MonsterMessage { sender_id, receiver_id, message_type: message_content },
        ),
{
    let message = MonsterMessage::new(sender_id, receiver_id, message_content);
    monster_messages.messages.push(message);
}

/// Queues a message from `sender_id` to the treasure `receiver_id`.
pub fn send_treasure_message(
    sender_id: i32,
    receiver_id: i32,
    message_content: MessageType,
    treasure_messages: &mut TreasureMessages,
)
    ensures
        final(treasure_messages).messages@ == old(treasure_messages).messages@.push(
            TreasureMessage { sender_id, receiver_id, message_type: message_content },
        ),
{
    let message = TreasureMessage::new(sender_id, receiver_id, message_content);
    treasure_messages.messages.push(message);
}

/// The strength an agent acts with: 5 for each of its followers, or 5 when it
/// has none.
pub open spec fn group_amount(a: AgentView) -> int {
    if a.followers.len() == 0 {
        5
    } else {
        5 * a.followers.len() as int
    }
}

/// The agent acts on a target with the strength of its group this turn:
/// it attacks, or it works at stealing from an agent or a treasure.
pub open spec fn acts_with_group(a: AgentView) -> bool {
    a.status == Status::Attacking || (a.status == Status::Working && (a.action == NpcAction::Steal
        || a.action == NpcAction::TreasureHunt))
}

/// The strength of an agent's group fits the message it goes into: an attack
/// carries at most 255, a theft at most `u32::MAX`.
pub open spec fn amount_fits(a: AgentView) -> bool {
    &&& acts_with_group(a) ==> group_amount(a) <= u32::MAX
    &&& a.status == Status::Attacking ==> group_amount(a) <= u8::MAX
}

/// The message an agent sends to another agent when it acts: a theft or a
/// talk while working at it, or an attack.
pub open spec fn agent_outbox(a: AgentView) -> Seq<AgentMessage> {
    match a.status {
        Status::Working => match a.action {
            NpcAction::Steal => seq![
                AgentMessage {
                    sender_id: a.id,
                    receiver_id: a.agent_target_id,
                    message_type: MessageType::Steal(group_amount(a) as u32),
                },
            ],
            NpcAction::Talk => seq![
                AgentMessage { sender_id: a.id, receiver_id: a.agent_target_id, message_type: MessageType::Talk },
            ],
            _ => Seq::empty(),
        },
        Status::Attacking => seq![
            AgentMessage {
                sender_id: a.id,
                receiver_id: a.agent_target_id,
                message_type: MessageType::Attack(group_amount(a) as u8),
            },
        ],
        _ => Seq::empty(),
    }
}

/// The message an agent sends to a treasure when it acts: a theft while
/// hunting it.
pub open spec fn treasure_outbox(a: AgentView) -> Seq<TreasureMessage> {
    if a.status == Status::Working && a.action == NpcAction::TreasureHunt {
        seq![
            TreasureMessage {
                sender_id: a.id,
                receiver_id: a.treasure_target_id,
                message_type: MessageType::Steal(group_amount(a) as u32),
            },
        ]
    } else {
        Seq::empty()
    }
}

/// The messages to agents that the agents of `s` send, in their order.
pub open spec fn agent_outboxes(s: Seq<AgentView>) -> Seq<AgentMessage>
    decreases s.len(),
{
    if s.len() == 0 {
        Seq::empty()
    } else {
        agent_outboxes(s.drop_last()) + agent_outbox(s.last())
    }
}

/// The messages to treasures that the agents of `s` send, in their order.
pub open spec fn treasure_outboxes(s: Seq<AgentView>) -> Seq<TreasureMessage>
    decreases s.len(),
{
    if s.len() == 0 {
        Seq::empty()
    } else {
        treasure_outboxes(s.drop_last()) + treasure_outbox(s.last())
    }
}

/// The views of the agents.
pub open spec fn agent_views(agents: Seq<Agent>) -> Seq<AgentView> {
    agents.map_values(|a: Agent| a@)
}

/// The strength of the agent's group.
fn group_amount_of(agent: &Agent) -> (r: u32)
    requires
        group_amount(agent@) <= u32::MAX,
    ensures
        r == group_amount(agent@),
{
    let n = agent.get_followers().len();
    if n == 0 {
        5
    } else {
        5 * (n as u32)
    }
}

/// While the search trees are being built, each agent that attacks, steals,
/// hunts a treasure or talks sends the matching message: an attack or a
/// theft carries 5 for each follower of the agent (5 when it has none), a
/// talk nothing. Agents doing anything else send nothing, and outside the
/// search nothing is sent.
pub fn perform_action(
    agents: &Vec<Agent>,
    mcst_flag: bool,
    agent_messages: &mut AgentMessages,
    treasure_messages: &mut TreasureMessages,
)
    requires
        forall|i: int| 0 <= i < agents@.len() ==> amount_fits(#[trigger] agents@[i]@),
    ensures
        final(agent_messages).messages@ == old(agent_messages).messages@ + (if mcst_flag {
            agent_outboxes(agent_views(agents@))
        } else {
            Seq::empty()
        }),
        final(treasure_messages).messages@ == old(treasure_messages).messages@ + (if mcst_flag {
            treasure_outboxes(agent_views(agents@))
        } else {
            Seq::empty()
        }),
{
    let ghost views = agent_views(agents@);
    if !mcst_flag {
        assert(agent_messages.messages@ + Seq::<AgentMessage>::empty() =~= agent_messages.messages@);
        assert(treasure_messages.messages@ + Seq::<TreasureMessage>::empty() =~= treasure_messages.messages@);
        return;
    }
    let ghost am0 = agent_messages.messages@;
    let ghost tm0 = treasure_messages.messages@;
    let mut i: usize = 0;
    proof {
        assert(views.take(0) =~= Seq::<AgentView>::empty());
        assert(am0 + agent_outboxes(views.take(0)) =~= am0);
        assert(tm0 + treasure_outboxes(views.take(0)) =~= tm0);
    }
    while i < agents.len()
        invariant
            0 <= i <= agents@.len(),
            views == agent_views(agents@),
            forall|j: int| 0 <= j < agents@.len() ==> amount_fits(#[trigger] agents@[j]@),
            agent_messages.messages@ == am0 + agent_outboxes(views.take(i as int)),
            treasure_messages.messages@ == tm0 + treasure_outboxes(views.take(i as int)),
        decreases agents@.len() - i,
    {
        let agent = &agents[i];
        let ghost a = agent@;
        let ghost am1 = agent_messages.messages@;
        let ghost tm1 = treasure_messages.messages@;
        assert(amount_fits(agents@[i as int]@));
        match agent.get_status() {
            Status::Working => match agent.get_action() {
                NpcAction::Steal => {
                    let amount = group_amount_of(agent);
                    send_agent_message(
                        agent.get_id(),
                        agent.get_agent_target_id(),
                        MessageType::Steal(amount),
                        agent_messages,
                    );
                },
                NpcAction::TreasureHunt => {
                    let amount = group_amount_of(agent);
                    send_treasure_message(
                        agent.get_id(),
                        agent.get_treasure_target_id(),
                        MessageType::Steal(amount),
                        treasure_messages,
                    );
                },
                NpcAction::Talk => {
                    send_agent_message(agent.get_id(), agent.get_agent_target_id(), MessageType::Talk, agent_messages);
                },
                _ => {},
            },
            Status::Attacking => {
                let amount = group_amount_of(agent);
                send_agent_message(
                    agent.get_id(),
                    agent.get_agent_target_id(),
                    MessageType::Attack(amount as u8),
                    agent_messages,
                );
            },
            _ => {},
        }
        proof {
            let next = views.take(i + 1);
            assert(next.drop_last() =~= views.take(i as int));
            assert(next.last() == a);
            assert(agent_messages.messages@ =~= am1 + agent_outbox(a));
            assert(treasure_messages.messages@ =~= tm1 + treasure_outbox(a));
            assert(am0 + agent_outboxes(next) =~= am0 + agent_outboxes(views.take(i as int)) + agent_outbox(a));
            assert(tm0 + treasure_outboxes(next) =~= tm0 + treasure_outboxes(views.take(i as int)) + treasure_outbox(a));
        }
        i = i + 1;
    }
    proof {
        assert(views.take(agents@.len() as int) =~= views);
    }
}

/// `a` comes no later than `b` when messages are ordered by receiver, then
/// by sender, then by the rank of their kind.
pub open spec fn message_key_le(a: AgentMessage, b: AgentMessage) -> bool {
    a.receiver_id < b.receiver_id || (a.receiver_id == b.receiver_id && (a.sender_id < b.sender_id || (a.sender_id
        == b.sender_id && message_rank(a.message_type) <= message_rank(b.message_type))))
}

/// The messages are in order of receiver, sender and rank.
pub open spec fn messages_sorted(s: Seq<AgentMessage>) -> bool {
    forall|i: int, j: int| 0 <= i < j < s.len() ==> message_key_le(#[trigger] s[i], #[trigger] s[j])
}

fn key_le(a: &AgentMessage, b: &AgentMessage) -> (r: bool)
    ensures
        r == message_key_le(*a, *b),
{
    a.receiver_id < b.receiver_id || (a.receiver_id == b.receiver_id && (a.sender_id < b.sender_id || (a.sender_id
        == b.sender_id && a.message_type.rank() <= b.message_type.rank())))
}

/// The index of the first message that no other message comes before.
fn first_least(s: &Vec<AgentMessage>) -> (m: usize)
    requires
        s@.len() > 0,
    ensures
        m < s@.len(),
        forall|j: int| 0 <= j < s@.len() ==> message_key_le(s@[m as int], #[trigger] s@[j]),
{
    let mut best: usize = 0;
    let mut i: usize = 1;
    while i < s.len()
        invariant
            1 <= i <= s@.len(),
            best < i,
            forall|j: int| 0 <= j < i ==> message_key_le(s@[best as int], #[trigger] s@[j]),
        decreases s@.len() - i,
    {
        if !key_le(&s[best], &s[i]) {
            best = i;
        }
        i = i + 1;
    }
    best
}

/// The messages ordered by receiver, then sender, then the rank of their
/// kind: the order in which agents handle them.
pub fn sort_agent_messages(messages: Vec<AgentMessage>) -> (r: Vec<AgentMessage>)
    ensures
        r@.to_multiset() == messages@.to_multiset(),
        messages_sorted(r@),
{
    let ghost all = messages@.to_multiset();
    let mut rest = messages;
    let mut out: Vec<AgentMessage> = Vec::new();
    proof {
        assert forall|a: AgentMessage| out@.to_multiset().count(a) == 0 by {
            vstd::seq_lib::to_multiset_contains(out@, a);
        }
        assert(out@.to_multiset().add(rest@.to_multiset()) =~= all);
    }
    while rest.len() > 0
        invariant
            out@.to_multiset().add(rest@.to_multiset()) == all,
            messages_sorted(out@),
            forall|i: int, j: int|
                0 <= i < out@.len() && 0 <= j < rest@.len() ==> message_key_le(#[trigger] out@[i], #[trigger] rest@[j]),
        decreases rest@.len(),
    {
        let m = first_least(&rest);
        let ghost r0 = rest@;
        let ghost o0 = out@;
        let x = rest.remove(m);
        out.push(x);
        proof {
            assert(r0[m as int] == x);
            assert(r0.contains(x));
            vstd::seq_lib::to_multiset_contains(r0, x);
            vstd::seq_lib::to_multiset_remove(r0, m as int);
            vstd::seq_lib::to_multiset_build(o0, x);
            assert(r0.to_multiset().count(x) > 0);
            assert(rest@ == r0.remove(m as int));
            assert(out@ == o0.push(x));
            assert(rest@.to_multiset() == r0.to_multiset().remove(x));
            assert(out@.to_multiset() == o0.to_multiset().insert(x));
            assert(out@.to_multiset().add(rest@.to_multiset()) =~= all);
            assert forall|i: int, j: int| 0 <= i < j < out@.len() implies message_key_le(
                #[trigger] out@[i],
                #[trigger] out@[j],
            ) by {
                if j == o0.len() {
                    assert(out@[i] == o0[i]);
                    assert(r0[m as int] == x);
                } else {
                    assert(out@[i] == o0[i] && out@[j] == o0[j]);
                }
            }
            assert forall|i: int, j: int|
                0 <= i < out@.len() && 0 <= j < rest@.len() implies message_key_le(
                #[trigger] out@[i],
                #[trigger] rest@[j],
            ) by {
                let jj = if j < m { j } else { j + 1 };
                assert(rest@[j] == r0[jj]);
                if i < o0.len() {
                    assert(out@[i] == o0[i]);
                }
            }
        }
    }
    proof {
        assert forall|a: AgentMessage| rest@.to_multiset().count(a) == 0 by {
            vstd::seq_lib::to_multiset_contains(rest@, a);
        }
        assert(out@.to_multiset() =~= all);
    }
    out
}

} // verus!
