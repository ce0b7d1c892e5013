use vstd::prelude::*;
use crate::gameworld::position::Position;
use crate::npcs::agent::{Agent, AgentView, reward_added, reward_removed};
use crate::npcs::npc_base::{NPCBase, energy_added, energy_removed};
use crate::npcs::npc_status::Status;
use crate::npcs::target::Target;
use crate::system::messages::{
    AgentMessage, AgentMessages, MessageType, MonsterMessage, MonsterMessages, agent_views, messages_sorted,
    send_agent_message, send_monster_message, sort_agent_messages,
};
use crate::system::simulation::handle_selected_action::{index_of_first, lemma_index_of_first};

verus! {

/// What the judgement of the agents decided about one message: whether the
/// receiver (or its group, by vote) fights back, whether it noticed a theft,
/// which member of a group takes an attack (0 for the leader, `k` for its
/// `k`-th follower), and the share of a reward each member of a group gets.
#[derive(Clone, Copy, Debug)]
pub struct MessageVerdict {
    pub fight: bool,
    pub noticed: bool,
    pub victim: usize,
    pub reward_share: u32,
}

/// The index of the first agent with the given id, if any.
pub open spec fn agent_slot(s: Seq<AgentView>, id: i32) -> Option<int> {
    index_of_first(s.map_values(|a: AgentView| a.id), id)
}

/// The flight target given for the agent `id`, if any.
pub open spec fn village_for(villages: Seq<(i32, Position)>, id: i32) -> Option<Position> {
    match index_of_first(villages.map_values(|p: (i32, Position)| p.0), id) {
        Some(i) => Some(villages[i].1),
        None => None,
    }
}

/// The agent is already fighting, fleeing or recovering.
pub open spec fn busy(a: AgentView) -> bool {
    a.status == Status::Retaliating || a.status == Status::Fleeing || a.status == Status::Recovering || a.status
        == Status::Attacking
}

/// The agent leads a group of its own with nobody in it.
pub open spec fn alone(a: AgentView) -> bool {
    a.leader && a.followers.len() == 0
}

/// The agent turns on `sender`.
pub open spec fn retaliating(a: AgentView, sender: i32, target: Target) -> AgentView {
    AgentView { status: Status::Retaliating, retaliation_target: target, retaliation_target_id: sender, ..a }
}

/// The agent flees, towards the village given for it when there is one.
pub open spec fn fleeing(a: AgentView, villages: Seq<(i32, Position)>) -> AgentView {
    AgentView {
        status: Status::Fleeing,
        tile_target: match village_for(villages, a.id) {
            Some(p) => Some(p),
            None => a.tile_target,
        },
        ..a
    }
}

/// The strength of a group's counter-attack: 3 for each member, kept to a byte.
pub open spec fn group_strike(a: AgentView) -> u8 {
    ((3 * (a.followers.len() + 1)) % 256) as u8
}

/// The member of the group that takes an attack.
pub open spec fn victim_id(a: AgentView, k: int) -> i32 {
    if k == 0 {
        a.id
    } else {
        a.followers[k - 1]
    }
}

/// What a message leaves behind: the agents, their bases, and the messages
/// sent to agents and to monsters in answer.
pub type Outcome = (Seq<AgentView>, Seq<NPCBase>, Seq<AgentMessage>, Seq<MonsterMessage>);

/// An attack of strength `x` from `sender` on the agent at `r`: an agent
/// alone loses the energy and, unless already busy, fights back with 5 or
/// flees; a leader's group fights back with its strength or flees, and the
/// chosen member loses the energy; a follower passes the attack to its
/// leader. A monster's attack is answered towards the monster, and a follower
/// passes it on with strength 5.
pub open spec fn attack_outcome(
    agents: Seq<AgentView>,
    bases: Seq<NPCBase>,
    r: int,
    sender: i32,
    x: u8,
    v: MessageVerdict,
    villages: Seq<(i32, Position)>,
    monster: bool,
) -> Outcome {
    let a = agents[r];
    if alone(a) {
        let bases2 = bases.update(r, energy_removed(bases[r], x as u32));
        if busy(a) {
            (agents, bases2, Seq::empty(), Seq::empty())
        } else if v.fight {
            if monster {
                (
                    agents.update(r, retaliating(a, sender, Target::Monster)),
                    bases2,
                    Seq::empty(),
                    seq![MonsterMessage { sender_id: a.id, receiver_id: sender, message_type: MessageType::Attack(5) }],
                )
            } else {
                (
                    agents.update(r, retaliating(a, sender, Target::Agent)),
                    bases2,
                    seq![AgentMessage { sender_id: a.id, receiver_id: sender, message_type: MessageType::Attack(5) }],
                    Seq::empty(),
                )
            }
        } else {
            (agents.update(r, fleeing(a, villages)), bases2, Seq::empty(), Seq::empty())
        }
    } else if a.leader {
        let agents2 = agents.update(r, if v.fight { retaliating(a, sender, Target::Agent) } else { fleeing(a, villages) });
        let bases2 = match agent_slot(agents2, victim_id(a, v.victim as int)) {
            Some(k) => bases.update(k, energy_removed(bases[k], x as u32)),
            None => bases,
        };
        if !v.fight {
            (agents2, bases2, Seq::empty(), Seq::empty())
        } else if monster {
            (
                agents2,
                bases2,
                Seq::empty(),
                seq![MonsterMessage { sender_id: a.id, receiver_id: sender, message_type: MessageType::Attack(group_strike(a)) }],
            )
        } else {
            (
                agents2,
                bases2,
                seq![AgentMessage { sender_id: a.id, receiver_id: sender, message_type: MessageType::Attack(group_strike(a)) }],
                Seq::empty(),
            )
        }
    } else {
        (
            agents,
            bases,
            seq![
                AgentMessage {
                    sender_id: sender,
                    receiver_id: a.leader_id,
                    message_type: if monster { MessageType::MonsterAttack(5) } else { MessageType::Attack(x) },
                },
            ],
            Seq::empty(),
        )
    }
}

/// Each follower id in `ids`, in turn, adds `share` to the first agent with
/// that id.
pub open spec fn share_out(s: Seq<AgentView>, ids: Seq<i32>, share: u32) -> Seq<AgentView>
    decreases ids.len(),
{
    if ids.len() == 0 {
        s
    } else {
        let before = share_out(s, ids.drop_last(), share);
        match agent_slot(before, ids.last()) {
            Some(k) => before.update(k, reward_added(before[k], share)),
            None => before,
        }
    }
}

/// A reward of `x` for the agent at `r`: a leader and each of its followers
/// get the share of the group, anyone else the whole reward.
pub open spec fn reward_outcome(agents: Seq<AgentView>, r: int, x: u32, v: MessageVerdict) -> Seq<AgentView> {
    let a = agents[r];
    if a.leader && a.followers.len() > 0 {
        share_out(agents.update(r, reward_added(a, v.reward_share)), a.followers, v.reward_share)
    } else {
        agents.update(r, reward_added(a, x))
    }
}

/// A theft of up to `x` by `sender` from the agent at `r`: the agent loses
/// what it has of it, and the thief is sent that much as a reward. An agent
/// alone or a leader that noticed the theft and decided to fight back turns
/// on the thief, unless already busy, with 5 or with the group's strength; a
/// follower's leader is told of the theft with a reward of 0.
pub open spec fn steal_outcome(
    agents: Seq<AgentView>,
    r: int,
    sender: i32,
    x: u32,
    v: MessageVerdict,
) -> (Seq<AgentView>, Seq<AgentMessage>) {
    let a = agents[r];
    let robbed = reward_removed(a, x);
    let reply = AgentMessage {
        sender_id: a.id,
        receiver_id: sender,
        message_type: MessageType::Reward((a.reward - robbed.reward) as u32),
    };
    if a.leader {
        if v.noticed && v.fight && !busy(a) {
            (
                agents.update(r, retaliating(robbed, sender, Target::Agent)),
                seq![
                    reply,
                    AgentMessage {
                        sender_id: a.id,
                        receiver_id: sender,
                        message_type: MessageType::Attack(if alone(a) { 5 } else { group_strike(a) }),
                    },
                ],
            )
        } else {
            (agents.update(r, robbed), seq![reply])
        }
    } else {
        (
            agents.update(r, robbed),
            seq![reply, AgentMessage { sender_id: sender, receiver_id: a.leader_id, message_type: MessageType::Reward(0) }],
        )
    }
}

/// A rest for the agent at `r`: 10 more energy, and idle once full.
pub open spec fn rest_outcome(agents: Seq<AgentView>, bases: Seq<NPCBase>, r: int) -> (Seq<AgentView>, Seq<NPCBase>) {
    let b = energy_added(bases[r], 10);
    (
        if b.energy == b.max_energy { agents.update(r, AgentView { status: Status::Idle, ..agents[r] }) } else { agents },
        bases.update(r, b),
    )
}

/// What handling one message does. A message for an agent that is not there,
/// a talk (which only moves opinions) and the other kinds change nothing.
pub open spec fn message_outcome(
    agents: Seq<AgentView>,
    bases: Seq<NPCBase>,
    m: AgentMessage,
    v: MessageVerdict,
    villages: Seq<(i32, Position)>,
) -> Outcome {
    match agent_slot(agents, m.receiver_id) {
        None => (agents, bases, Seq::empty(), Seq::empty()),
        Some(r) => match m.message_type {
            MessageType::Attack(x) => attack_outcome(agents, bases, r, m.sender_id, x, v, villages, false),
            MessageType::MonsterAttack(x) => attack_outcome(agents, bases, r, m.sender_id, x, v, villages, true),
            MessageType::Reward(x) => (reward_outcome(agents, r, x, v), bases, Seq::empty(), Seq::empty()),
            MessageType::Steal(x) => {
                let (s, out) = steal_outcome(agents, r, m.sender_id, x, v);
                (s, bases, out, Seq::empty())
            },
            MessageType::Rest => {
                let (s, b) = rest_outcome(agents, bases, r);
                (s, b, Seq::empty(), Seq::empty())
            },
            _ => (agents, bases, Seq::empty(), Seq::empty()),
        },
    }
}

/// The message can be handled without overflow and with a verdict that fits
/// the receiver: a group's victim is one of its members, rewards stay within
/// `u32`, and a rest does not overflow the energy.
pub open spec fn message_fits(
    agents: Seq<AgentView>,
    bases: Seq<NPCBase>,
    m: AgentMessage,
    v: MessageVerdict,
) -> bool {
    match agent_slot(agents, m.receiver_id) {
        None => true,
        Some(r) => {
            let a = agents[r];
            match m.message_type {
                MessageType::Attack(_) | MessageType::MonsterAttack(_) => a.leader && a.followers.len() > 0 ==> v.victim
                    < a.followers.len(),
                MessageType::Reward(x) => forall|j: int|
                    0 <= j < agents.len() ==> (#[trigger] agents[j]).reward + (a.followers.len() + 1) * (if v.reward_share
                        >= x { v.reward_share } else { x }) <= u32::MAX,
                MessageType::Rest => bases[r].energy + 10 <= u32::MAX,
                _ => true,
            }
        },
    }
}

/// The index of the first agent with the given id.
pub fn find_agent(agents: &Vec<Agent>, id: i32) -> (r: Option<usize>)
    ensures
        match r {
            Some(i) => agent_slot(agent_views(agents@), id) == Some(i as int) && i < agents@.len(),
            None => agent_slot(agent_views(agents@), id) is None,
        },
{
    let ghost ids = agent_views(agents@).map_values(|a: AgentView| a.id);
    let mut i: usize = 0;
    while i < agents.len()
        invariant
            0 <= i <= agents@.len(),
            ids == agent_views(agents@).map_values(|a: AgentView| a.id),
            forall|k: int| 0 <= k < i ==> ids[k] != id,
        decreases agents@.len() - i,
    {
        if agents[i].get_id() == id {
            proof {
                lemma_index_of_first(ids, id, i as int);
            }
            return Some(i);
        }
        i = i + 1;
    }
    proof {
        if index_of_first(ids, id) is Some {
            let j = choose|j: int| 0 <= j < ids.len() && ids[j] == id && forall|k: int| 0 <= k < j ==> ids[k] != id;
            assert(ids[j] != id);
        }
    }
    None
}

/// The flight target given for the agent `id`.
fn find_village(villages: &[(i32, Position)], id: i32) -> (r: Option<Position>)
    ensures
        r == village_for(villages@, id),
{
    let ghost ids = villages@.map_values(|p: (i32, Position)| p.0);
    let mut i: usize = 0;
    while i < villages.len()
        invariant
            0 <= i <= villages@.len(),
            ids == villages@.map_values(|p: (i32, Position)| p.0),
            forall|k: int| 0 <= k < i ==> ids[k] != id,
        decreases villages@.len() - i,
    {
        if villages[i].0 == id {
            proof {
                lemma_index_of_first(ids, id, i as int);
            }
            return Some(villages[i].1);
        }
        i = i + 1;
    }
    proof {
        if index_of_first(ids, id) is Some {
            let j = choose|j: int| 0 <= j < ids.len() && ids[j] == id && forall|k: int| 0 <= k < j ==> ids[k] != id;
            assert(ids[j] != id);
        }
    }
    None
}

/// Turns the agent on `sender`.
fn strike_back(agent: &mut Agent, sender: i32, target: Target)
    ensures
        final(agent)@ == retaliating(old(agent)@, sender, target),
{
    agent.set_status(Status::Retaliating);
    agent.set_retaliation_target(target);
    agent.set_retaliation_target_id(sender);
}

/// Makes the agent flee.
fn flee(agent: &mut Agent, villages: &[(i32, Position)])
    ensures
        final(agent)@ == fleeing(old(agent)@, villages@),
{
    agent.set_status(Status::Fleeing);
    let id = agent.get_id();
    if let Some(p) = find_village(villages, id) {
        agent.set_tile_target(Some(p));
    }
}

/// The agent at `r` after `f`, among the views of all agents.
proof fn lemma_views_update(before: Seq<Agent>, after: Seq<Agent>, r: int)
    requires
        0 <= r < before.len(),
        after == before.update(r, after[r]),
    ensures
        agent_views(after) == agent_views(before).update(r, after[r]@),
{
    assert(agent_views(after) =~= agent_views(before).update(r, after[r]@));
}

/// Takes `amount` energy from the base at `k`.
fn drain(bases: &mut Vec<NPCBase>, k: usize, amount: u32)
    requires
        k < old(bases)@.len(),
    ensures
        final(bases)@ == old(bases)@.update(k as int, energy_removed(old(bases)@[k as int], amount)),
{
    let mut b = bases[k];
    b.remove_energy(amount);
    bases.set(k, b);
}

fn attack_step(
    agents: &mut Vec<Agent>,
    bases: &mut Vec<NPCBase>,
    r: usize,
    sender: i32,
    x: u8,
    v: MessageVerdict,
    villages: &[(i32, Position)],
    monster: bool,
    agent_out: &mut AgentMessages,
    monster_out: &mut MonsterMessages,
)
    requires
        r < old(agents)@.len(),
        old(agents)@.len() == old(bases)@.len(),
        old(agents)@[r as int]@.leader && old(agents)@[r as int]@.followers.len() > 0 ==> v.victim
            < old(agents)@[r as int]@.followers.len(),
    ensures
        ({
            let o = attack_outcome(agent_views(old(agents)@), old(bases)@, r as int, sender, x, v, villages@, monster);
            &&& agent_views(final(agents)@) == o.0
            &&& final(bases)@ == o.1
            &&& final(agent_out).messages@ == old(agent_out).messages@ + o.2
            &&& final(monster_out).messages@ == old(monster_out).messages@ + o.3
        }),
{
    let ghost s0 = agent_views(agents@);
    let ghost a = agents@[r as int]@;
    let ghost am0 = agent_out.messages@;
    let ghost mm0 = monster_out.messages@;
    let ghost o = attack_outcome(s0, bases@, r as int, sender, x, v, villages@, monster);
    let id = agents[r].get_id();
    let leader = agents[r].is_leader();
    let grouped = agents[r].has_followers();
    if leader && !grouped {
        drain(bases, r, x as u32);
        let st = agents[r].get_status();
        if !(st == Status::Retaliating || st == Status::Fleeing || st == Status::Recovering || st == Status::Attacking) {
            let ghost before = agents@;
            if v.fight {
                if monster {
                    strike_back(&mut agents[r], sender, Target::Monster);
                    send_monster_message(id, sender, MessageType::Attack(5), monster_out);
                } else {
                    strike_back(&mut agents[r], sender, Target::Agent);
                    send_agent_message(id, sender, MessageType::Attack(5), agent_out);
                }
            } else {
                flee(&mut agents[r], villages);
            }
            proof {
                lemma_views_update(before, agents@, r as int);
            }
        }
        proof {
            assert(agent_out.messages@ =~= am0 + o.2);
            assert(monster_out.messages@ =~= mm0 + o.3);
        }
    } else if leader {
        let followers = agents[r].get_followers();
        let n = followers.len();
        let ghost before = agents@;
        if v.fight {
            strike_back(&mut agents[r], sender, Target::Agent);
        } else {
            flee(&mut agents[r], villages);
        }
        proof {
            lemma_views_update(before, agents@, r as int);
        }
        let vid = if v.victim == 0 { id } else { followers[v.victim - 1] };
        match find_agent(agents, vid) {
            Some(k) => drain(bases, k, x as u32),
            None => {},
        }
        if v.fight {
            let strike: u8 = ((3 * (n as u128 + 1)) % 256) as u8;
            if monster {
                send_monster_message(id, sender, MessageType::Attack(strike), monster_out);
            } else {
                send_agent_message(id, sender, MessageType::Attack(strike), agent_out);
            }
        }
        proof {
            assert(agent_out.messages@ =~= am0 + o.2);
            assert(monster_out.messages@ =~= mm0 + o.3);
        }
    } else {
        let l = agents[r].get_leader_id();
        let kind = if monster { MessageType::MonsterAttack(5) } else { MessageType::Attack(x) };
        send_agent_message(sender, l, kind, agent_out);
        proof {
            assert(agent_out.messages@ =~= am0 + o.2);
            assert(monster_out.messages@ =~= mm0 + o.3);
        }
    }
}

fn reward_step(agents: &mut Vec<Agent>, r: usize, x: u32, v: MessageVerdict)
    requires
        r < old(agents)@.len(),
        forall|j: int|
            0 <= j < old(agents)@.len() ==> (#[trigger] old(agents)@[j])@.reward + (old(agents)@[r as int]@.followers.len()
                + 1) * (if v.reward_share >= x { v.reward_share } else { x }) <= u32::MAX,
    ensures
        agent_views(final(agents)@) == reward_outcome(agent_views(old(agents)@), r as int, x, v),
{
    let ghost s0 = agent_views(agents@);
    let ghost a = s0[r as int];
    let ghost big: int = if v.reward_share >= x { v.reward_share as int } else { x as int };
    assert(s0[r as int] == agents@[r as int]@);
    if agents[r].is_leader() && agents[r].has_followers() {
        let followers = agents[r].get_followers();
        let share = v.reward_share;
        let ghost before = agents@;
        assert(agents@[r as int]@.reward + share <= u32::MAX) by (nonlinear_arith)
            requires
                agents@[r as int]@.reward + (followers@.len() + 1) * big <= u32::MAX,
                share <= big,
                followers@.len() >= 1,
        ;
        Agent::add_reward(&mut agents[r], share);
        proof {
            lemma_views_update(before, agents@, r as int);
        }
        let ghost s1 = agent_views(agents@);
        let mut i: usize = 0;
        proof {
            assert(followers@.take(0) =~= Seq::<i32>::empty());
        }
        while i < followers.len()
            invariant
                0 <= i <= followers@.len(),
                followers@ == a.followers,
                share == v.reward_share,
                agents@.len() == s0.len(),
                s1 == s0.update(r as int, reward_added(a, share)),
                agent_views(agents@) == share_out(s1, followers@.take(i as int), share),
                forall|j: int|
                    0 <= j < s0.len() ==> (#[trigger] agents@[j])@.reward <= s0[j].reward + (i + 1) * share,
                forall|j: int| 0 <= j < s0.len() ==> s0[j].reward + (followers@.len() + 1) * big <= u32::MAX,
                share <= big,
                forall|j: int| 0 <= j < s0.len() ==> (#[trigger] s0[j]) == old(agents)@[j]@,
            decreases followers@.len() - i,
        {
            let ghost cur = agents@;
            let fid = followers[i];
            match find_agent(agents, fid) {
                Some(k) => {
                    assert(agents@[k as int]@.reward + share <= u32::MAX) by (nonlinear_arith)
                        requires
                            agents@[k as int]@.reward <= s0[k as int].reward + (i + 1) * share,
                            s0[k as int].reward + (followers@.len() + 1) * big <= u32::MAX,
                            share <= big,
                            i < followers@.len(),
                    ;
                    Agent::add_reward(&mut agents[k], share);
                    proof {
                        lemma_views_update(cur, agents@, k as int);
                        assert forall|j: int| 0 <= j < s0.len() implies (#[trigger] agents@[j])@.reward <= s0[j].reward
                            + (i + 2) * share by {
                            assert((i + 1) * share + share == (i + 2) * share) by (nonlinear_arith);
                            if j != k {
                                assert(agents@[j] == cur[j]);
                            }
                        }
                    }
                },
                None => {
                    proof {
                        assert forall|j: int| 0 <= j < s0.len() implies (#[trigger] agents@[j])@.reward <= s0[j].reward
                            + (i + 2) * share by {
                            assert((i + 1) * share <= (i + 2) * share) by (nonlinear_arith);
                        }
                    }
                },
            }
            proof {
                let t = followers@.take(i + 1);
                assert(t.drop_last() =~= followers@.take(i as int));
                assert(t.last() == fid);
            }
            i = i + 1;
        }
        proof {
            assert(followers@.take(followers@.len() as int) =~= followers@);
        }
    } else {
        let ghost before = agents@;
        assert(agents@[r as int]@.reward + x <= u32::MAX) by (nonlinear_arith)
            requires
                agents@[r as int]@.reward + (a.followers.len() + 1) * big <= u32::MAX,
                x <= big,
        ;
        Agent::add_reward(&mut agents[r], x);
        proof {
            lemma_views_update(before, agents@, r as int);
        }
    }
}

fn steal_step(agents: &mut Vec<Agent>, r: usize, sender: i32, x: u32, v: MessageVerdict, agent_out: &mut AgentMessages)
    requires
        r < old(agents)@.len(),
    ensures
        ({
            let o = steal_outcome(agent_views(old(agents)@), r as int, sender, x, v);
            &&& agent_views(final(agents)@) == o.0
            &&& final(agent_out).messages@ == old(agent_out).messages@ + o.1
        }),
{
    let ghost s0 = agent_views(agents@);
    let ghost am0 = agent_out.messages@;
    let ghost o = steal_outcome(s0, r as int, sender, x, v);
    let ghost before = agents@;
    let id = agents[r].get_id();
    let leader = agents[r].is_leader();
    let grouped = agents[r].has_followers();
    let n = agents[r].get_followers().len();
    let st = agents[r].get_status();
    let owned = agents[r].get_reward();
    Agent::remove_reward(&mut agents[r], x);
    let left = agents[r].get_reward();
    send_agent_message(id, sender, MessageType::Reward(owned - left), agent_out);
    if leader {
        if v.noticed && v.fight && !(st == Status::Retaliating || st == Status::Fleeing || st == Status::Recovering || st
            == Status::Attacking) {
            strike_back(&mut agents[r], sender, Target::Agent);
            let strike: u8 = if !grouped { 5 } else { ((3 * (n as u128 + 1)) % 256) as u8 };
            send_agent_message(id, sender, MessageType::Attack(strike), agent_out);
        }
    } else {
        let l = agents[r].get_leader_id();
        send_agent_message(sender, l, MessageType::Reward(0), agent_out);
    }
    proof {
        assert(agents@ =~= before.update(r as int, agents@[r as int]));
        lemma_views_update(before, agents@, r as int);
        assert(agent_out.messages@ =~= am0 + o.1);
    }
}

fn rest_step(agents: &mut Vec<Agent>, bases: &mut Vec<NPCBase>, r: usize)
    requires
        r < old(agents)@.len(),
        old(agents)@.len() == old(bases)@.len(),
        old(bases)@[r as int].energy + 10 <= u32::MAX,
    ensures
        ({
            let o = rest_outcome(agent_views(old(agents)@), old(bases)@, r as int);
            &&& agent_views(final(agents)@) == o.0
            &&& final(bases)@ == o.1
        }),
{
    let mut b = bases[r];
    b.add_energy(10);
    bases.set(r, b);
    if b.get_energy() == b.get_max_energy() {
        let ghost before = agents@;
        Agent::set_status(&mut agents[r], Status::Idle);
        proof {
            lemma_views_update(before, agents@, r as int);
        }
    }
}

/// Handles one message to an agent: finds the receiver and applies what the
/// message does, with the judgement in `verdict` where the agents decide
/// (fighting back, noticing a theft, the member an attack hits, a group's
/// share of a reward). Answers go to `agent_out` and `monster_out`.
pub fn handle_agent_message(
    agents: &mut Vec<Agent>,
    bases: &mut Vec<NPCBase>,
    message: &AgentMessage,
    verdict: MessageVerdict,
    villages: &[(i32, Position)],
    agent_out: &mut AgentMessages,
    monster_out: &mut MonsterMessages,
)
    requires
        old(agents)@.len() == old(bases)@.len(),
        message_fits(agent_views(old(agents)@), old(bases)@, *message, verdict),
    ensures
        ({
            let o = message_outcome(agent_views(old(agents)@), old(bases)@, *message, verdict, villages@);
            &&& agent_views(final(agents)@) == o.0
            &&& final(bases)@ == o.1
            &&& final(agent_out).messages@ == old(agent_out).messages@ + o.2
            &&& final(monster_out).messages@ == old(monster_out).messages@ + o.3
        }),
{
    let ghost am0 = agent_out.messages@;
    let ghost mm0 = monster_out.messages@;
    match find_agent(agents, message.receiver_id) {
        None => {
            proof {
                assert(am0 + Seq::<AgentMessage>::empty() =~= am0);
                assert(mm0 + Seq::<MonsterMessage>::empty() =~= mm0);
            }
        },
        Some(r) => {
            assert(agent_views(agents@)[r as int] == agents@[r as int]@);
            match &message.message_type {
                MessageType::Attack(x) => attack_step(
                    agents,
                    bases,
                    r,
                    message.sender_id,
                    *x,
                    verdict,
                    villages,
                    false,
                    agent_out,
                    monster_out,
                ),
                MessageType::MonsterAttack(x) => attack_step(
                    agents,
                    bases,
                    r,
                    message.sender_id,
                    *x,
                    verdict,
                    villages,
                    true,
                    agent_out,
                    monster_out,
                ),
                MessageType::Reward(x) => {
                    proof {
                        let big: int = if verdict.reward_share >= *x { verdict.reward_share as int } else { *x as int };
                        assert forall|j: int| 0 <= j < agents@.len() implies (#[trigger] agents@[j])@.reward + (
                        agents@[r as int]@.followers.len() + 1) * big <= u32::MAX by {
                            assert(agent_views(agents@)[j] == agents@[j]@);
                        }
                    }
                    reward_step(agents, r, *x, verdict);
                    proof {
                        assert(am0 + Seq::<AgentMessage>::empty() =~= am0);
                        assert(mm0 + Seq::<MonsterMessage>::empty() =~= mm0);
                    }
                },
                MessageType::Steal(x) => {
                    steal_step(agents, r, message.sender_id, *x, verdict, agent_out);
                    proof {
                        assert(mm0 + Seq::<MonsterMessage>::empty() =~= mm0);
                    }
                },
                MessageType::Rest => {
                    rest_step(agents, bases, r);
                    proof {
                        assert(am0 + Seq::<AgentMessage>::empty() =~= am0);
                        assert(mm0 + Seq::<MonsterMessage>::empty() =~= mm0);
                    }
                },
                _ => {
                    proof {
                        assert(am0 + Seq::<AgentMessage>::empty() =~= am0);
                        assert(mm0 + Seq::<MonsterMessage>::empty() =~= mm0);
                    }
                },
            }
        },
    }
}

/// Takes the waiting messages for this round of handling, ordered by
/// receiver, sender and rank (the last is handled first). Outside the search
/// and the run nothing is taken and the messages stay where they are.
pub fn take_agent_messages(agent_messages: &mut AgentMessages, mcst_flag: bool, running_flag: bool) -> (q: Vec<
    AgentMessage,
>)
    ensures
        !mcst_flag && !running_flag ==> q@.len() == 0 && final(agent_messages).messages@ == old(agent_messages).messages@,
        mcst_flag || running_flag ==> final(agent_messages).messages@.len() == 0 && q@.to_multiset()
            == old(agent_messages).messages@.to_multiset() && messages_sorted(q@),
{
    if !mcst_flag && !running_flag {
        return Vec::new();
    }
    let mut taken: Vec<AgentMessage> = Vec::new();
    std::mem::swap(&mut taken, &mut agent_messages.messages);
    sort_agent_messages(taken)
}

} // verus!
