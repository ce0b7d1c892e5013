use npc_sim::npcs::agent::Agent;
use npc_sim::npcs::npc_action::NpcAction;
use npc_sim::npcs::npc_status::Status;
use npc_sim::system::messages::{
    perform_action, send_agent_message, send_monster_message, send_treasure_message, AgentMessage, AgentMessages,
    MessageType, MonsterMessage, MonsterMessages, TreasureMessage, TreasureMessages,
};

fn acting(id: i32, status: Status, action: NpcAction, target: i32, followers: Vec<i32>) -> Agent {
    let mut a = Agent::new_agent(id);
    a.set_status(status);
    a.set_action(action);
    a.set_agent_target_id(target);
    a.set_treasure_target_id(target);
    if !followers.is_empty() {
        a.add_follower(followers);
    }
    a
}

#[test]
fn stealing_alone_takes_five() {
    let agents = vec![acting(1, Status::Working, NpcAction::Steal, 7, vec![])];
    let mut am = AgentMessages::new();
    let mut tm = TreasureMessages::new();
    perform_action(&agents, true, &mut am, &mut tm);
    assert_eq!(am.messages, vec![AgentMessage::new(1, 7, MessageType::Steal(5))]);
    assert!(tm.messages.is_empty());
}

#[test]
fn a_group_attacks_with_five_per_follower() {
    let agents = vec![acting(2, Status::Attacking, NpcAction::AttackAgent, 9, vec![3, 4, 5])];
    let mut am = AgentMessages::new();
    let mut tm = TreasureMessages::new();
    perform_action(&agents, true, &mut am, &mut tm);
    assert_eq!(am.messages, vec![AgentMessage::new(2, 9, MessageType::Attack(15))]);
}

#[test]
fn treasure_hunters_write_to_the_treasure() {
    let agents = vec![
        acting(1, Status::Working, NpcAction::TreasureHunt, 4, vec![8, 9]),
        acting(2, Status::Working, NpcAction::Talk, 1, vec![]),
        acting(3, Status::Idle, NpcAction::Steal, 1, vec![]),
        acting(5, Status::Working, NpcAction::Rest, 1, vec![]),
    ];
    let mut am = AgentMessages::new();
    let mut tm = TreasureMessages::new();
    perform_action(&agents, true, &mut am, &mut tm);
    assert_eq!(tm.messages, vec![TreasureMessage::new(1, 4, MessageType::Steal(10))]);
    assert_eq!(am.messages, vec![AgentMessage::new(2, 1, MessageType::Talk)]);
}

#[test]
fn nothing_is_sent_outside_the_search() {
    let agents = vec![acting(1, Status::Attacking, NpcAction::AttackAgent, 2, vec![])];
    let mut am = AgentMessages::new();
    let mut tm = TreasureMessages::new();
    perform_action(&agents, false, &mut am, &mut tm);
    assert!(am.is_empty());
    assert!(tm.messages.is_empty());
}

#[test]
fn sent_messages_are_queued_in_order() {
    let mut am = AgentMessages::new();
    send_agent_message(1, 2, MessageType::Rest, &mut am);
    send_agent_message(3, 4, MessageType::Reward(7), &mut am);
    assert_eq!(am.messages, vec![AgentMessage::new(1, 2, MessageType::Rest), AgentMessage::new(3, 4, MessageType::Reward(7))]);
    let mut mm = MonsterMessages::new();
    send_monster_message(1, 5, MessageType::Attack(5), &mut mm);
    assert_eq!(mm.messages, vec![MonsterMessage::new(1, 5, MessageType::Attack(5))]);
    let mut tm = TreasureMessages::new();
    send_treasure_message(1, 6, MessageType::Steal(5), &mut tm);
    assert_eq!(tm.messages, vec![TreasureMessage::new(1, 6, MessageType::Steal(5))]);
}

#[test]
fn message_kinds_are_ranked() {
    assert_eq!(MessageType::Attack(1).rank(), 0);
    assert_eq!(MessageType::Steal(1).rank(), 5);
    assert_eq!(MessageType::Move((1, 2)).rank(), 11);
    assert_eq!(MessageType::Talk.rank(), 15);
}

use npc_sim::gameworld::position::Position;
use npc_sim::npcs::npc_base::NPCBase;
use npc_sim::npcs::npc_type::NPCType;
use npc_sim::npcs::target::Target;
use npc_sim::system::agent_messages::{handle_agent_message, take_agent_messages, MessageVerdict};

fn verdict(fight: bool, noticed: bool, victim: usize, reward_share: u32) -> MessageVerdict {
    MessageVerdict { fight, noticed, victim, reward_share }
}

fn bases(n: usize) -> Vec<NPCBase> {
    (0..n).map(|i| NPCBase::new(i as i32, 0, NPCType::Agent)).collect()
}

fn follower_of(id: i32, leader: i32) -> Agent {
    let mut a = Agent::new_agent(id);
    a.set_is_leader(false);
    a.set_is_follower(true);
    a.set_leader_id(leader);
    a
}

fn run(
    agents: &mut Vec<Agent>,
    bs: &mut Vec<NPCBase>,
    m: AgentMessage,
    v: MessageVerdict,
    villages: &[(i32, Position)],
) -> (Vec<AgentMessage>, Vec<MonsterMessage>) {
    let mut am = AgentMessages::new();
    let mut mm = MonsterMessages::new();
    handle_agent_message(agents, bs, &m, v, villages, &mut am, &mut mm);
    (am.messages, mm.messages)
}

#[test]
fn an_agent_alone_strikes_back_at_its_attacker() {
    let mut agents = vec![Agent::new_agent(1), Agent::new_agent(2)];
    let mut bs = bases(2);
    let (am, mm) = run(&mut agents, &mut bs, AgentMessage::new(2, 1, MessageType::Attack(10)), verdict(true, false, 0, 0), &[]);
    assert_eq!(bs[0].get_energy(), 90);
    assert_eq!(agents[0].get_status(), Status::Retaliating);
    assert_eq!(agents[0].get_retaliation_target(), Target::Agent);
    assert_eq!(agents[0].get_retaliation_target_id(), 2);
    assert_eq!(am, vec![AgentMessage::new(1, 2, MessageType::Attack(5))]);
    assert!(mm.is_empty());
}

#[test]
fn an_agent_alone_flees_to_its_village() {
    let mut agents = vec![Agent::new_agent(1)];
    let mut bs = bases(1);
    let villages = [(1, Position::new(4, 4))];
    let (am, _) = run(&mut agents, &mut bs, AgentMessage::new(7, 1, MessageType::Attack(30)), verdict(false, false, 0, 0), &villages);
    assert_eq!(bs[0].get_energy(), 70);
    assert_eq!(agents[0].get_status(), Status::Fleeing);
    assert_eq!(agents[0].get_tile_target(), Some(Position::new(4, 4)));
    assert!(am.is_empty());
}

#[test]
fn a_busy_agent_only_loses_energy() {
    let mut agents = vec![Agent::new_agent(1)];
    agents[0].set_status(Status::Recovering);
    let mut bs = bases(1);
    let (am, _) = run(&mut agents, &mut bs, AgentMessage::new(7, 1, MessageType::Attack(5)), verdict(true, false, 0, 0), &[]);
    assert_eq!(bs[0].get_energy(), 95);
    assert_eq!(agents[0].get_status(), Status::Recovering);
    assert!(am.is_empty());
}

#[test]
fn a_follower_passes_an_attack_to_its_leader() {
    let mut agents = vec![follower_of(3, 9)];
    let mut bs = bases(1);
    let (am, _) = run(&mut agents, &mut bs, AgentMessage::new(7, 3, MessageType::Attack(12)), verdict(true, false, 0, 0), &[]);
    assert_eq!(am, vec![AgentMessage::new(7, 9, MessageType::Attack(12))]);
    assert_eq!(bs[0].get_energy(), 100);
    let (am, _) = run(&mut agents, &mut bs, AgentMessage::new(7, 3, MessageType::MonsterAttack(12)), verdict(true, false, 0, 0), &[]);
    assert_eq!(am, vec![AgentMessage::new(7, 9, MessageType::MonsterAttack(5))]);
}

#[test]
fn a_group_strikes_back_and_the_chosen_member_is_hit() {
    let mut leader = Agent::new_agent(1);
    leader.add_follower(vec![2, 3]);
    let mut agents = vec![leader, follower_of(2, 1), follower_of(3, 1)];
    let mut bs = bases(3);
    let (am, _) = run(&mut agents, &mut bs, AgentMessage::new(8, 1, MessageType::Attack(20)), verdict(true, false, 1, 0), &[]);
    assert_eq!(am, vec![AgentMessage::new(1, 8, MessageType::Attack(9))]);
    assert_eq!(agents[0].get_status(), Status::Retaliating);
    assert_eq!(bs[0].get_energy(), 100);
    assert_eq!(bs[1].get_energy(), 80);
    assert_eq!(bs[2].get_energy(), 100);
}

#[test]
fn an_agent_alone_strikes_back_at_a_monster() {
    let mut agents = vec![Agent::new_agent(1)];
    let mut bs = bases(1);
    let (am, mm) = run(&mut agents, &mut bs, AgentMessage::new(40, 1, MessageType::MonsterAttack(10)), verdict(true, false, 0, 0), &[]);
    assert!(am.is_empty());
    assert_eq!(mm, vec![MonsterMessage::new(1, 40, MessageType::Attack(5))]);
    assert_eq!(agents[0].get_retaliation_target(), Target::Monster);
}

#[test]
fn rewards_go_to_the_agent_or_are_shared_by_the_group() {
    let mut leader = Agent::new_agent(1);
    leader.add_follower(vec![2]);
    let mut agents = vec![leader, follower_of(2, 1), Agent::new_agent(3)];
    let mut bs = bases(3);
    run(&mut agents, &mut bs, AgentMessage::new(0, 3, MessageType::Reward(40)), verdict(false, false, 0, 0), &[]);
    assert_eq!(agents[2].get_reward(), 40);
    run(&mut agents, &mut bs, AgentMessage::new(0, 1, MessageType::Reward(40)), verdict(false, false, 0, 61), &[]);
    assert_eq!(agents[0].get_reward(), 61);
    assert_eq!(agents[1].get_reward(), 61);
}

#[test]
fn a_theft_takes_what_there_is_and_may_be_answered() {
    let mut agents = vec![Agent::new_agent(1)];
    agents[0].add_reward(30);
    let mut bs = bases(1);
    let (am, _) = run(&mut agents, &mut bs, AgentMessage::new(5, 1, MessageType::Steal(50)), verdict(true, true, 0, 0), &[]);
    assert_eq!(agents[0].get_reward(), 0);
    assert_eq!(am, vec![AgentMessage::new(1, 5, MessageType::Reward(30)), AgentMessage::new(1, 5, MessageType::Attack(5))]);
    assert_eq!(agents[0].get_status(), Status::Retaliating);
}

#[test]
fn an_unnoticed_theft_is_only_paid() {
    let mut agents = vec![Agent::new_agent(1)];
    agents[0].add_reward(30);
    let mut bs = bases(1);
    let (am, _) = run(&mut agents, &mut bs, AgentMessage::new(5, 1, MessageType::Steal(10)), verdict(true, false, 0, 0), &[]);
    assert_eq!(agents[0].get_reward(), 20);
    assert_eq!(am, vec![AgentMessage::new(1, 5, MessageType::Reward(10))]);
    assert_eq!(agents[0].get_status(), Status::Idle);
}

#[test]
fn a_theft_from_a_follower_is_reported_to_the_leader() {
    let mut agents = vec![follower_of(2, 1)];
    agents[0].add_reward(8);
    let mut bs = bases(1);
    let (am, _) = run(&mut agents, &mut bs, AgentMessage::new(5, 2, MessageType::Steal(5)), verdict(true, true, 0, 0), &[]);
    assert_eq!(am, vec![AgentMessage::new(2, 5, MessageType::Reward(5)), AgentMessage::new(5, 1, MessageType::Reward(0))]);
}

#[test]
fn resting_restores_energy_and_ends_when_full() {
    let mut agents = vec![Agent::new_agent(1)];
    agents[0].set_status(Status::Recovering);
    let mut bs = bases(1);
    bs[0].set_energy(50);
    run(&mut agents, &mut bs, AgentMessage::new(1, 1, MessageType::Rest), verdict(false, false, 0, 0), &[]);
    assert_eq!(bs[0].get_energy(), 60);
    assert_eq!(agents[0].get_status(), Status::Recovering);
    bs[0].set_energy(95);
    run(&mut agents, &mut bs, AgentMessage::new(1, 1, MessageType::Rest), verdict(false, false, 0, 0), &[]);
    assert_eq!(bs[0].get_energy(), 100);
    assert_eq!(agents[0].get_status(), Status::Idle);
}

#[test]
fn messages_for_nobody_change_nothing() {
    let mut agents = vec![Agent::new_agent(1)];
    let mut bs = bases(1);
    let (am, mm) = run(&mut agents, &mut bs, AgentMessage::new(2, 6, MessageType::Attack(50)), verdict(true, true, 0, 0), &[]);
    assert!(am.is_empty() && mm.is_empty());
    assert_eq!(bs[0].get_energy(), 100);
}

#[test]
fn messages_are_taken_in_order_of_receiver_sender_and_kind() {
    let mut am = AgentMessages::new();
    send_agent_message(3, 2, MessageType::Talk, &mut am);
    send_agent_message(1, 2, MessageType::Rest, &mut am);
    send_agent_message(1, 2, MessageType::Attack(4), &mut am);
    send_agent_message(9, 1, MessageType::Reward(1), &mut am);
    let kept = take_agent_messages(&mut am, false, false);
    assert!(kept.is_empty());
    assert_eq!(am.messages.len(), 4);
    let q = take_agent_messages(&mut am, true, false);
    assert!(am.is_empty());
    assert_eq!(
        q,
        vec![
            AgentMessage::new(9, 1, MessageType::Reward(1)),
            AgentMessage::new(1, 2, MessageType::Attack(4)),
            AgentMessage::new(1, 2, MessageType::Rest),
            AgentMessage::new(3, 2, MessageType::Talk),
        ]
    );
}
