use npc_sim::errors::{MyError, PositionError};
use npc_sim::gameworld::position::Position;
use npc_sim::npcs::agent::Agent;
use npc_sim::npcs::monster::Monster;
use npc_sim::npcs::npc_action::{NpcAction, WorkType};
use npc_sim::npcs::npc_base::NPCBase;
use npc_sim::npcs::npc_status::Status;
use npc_sim::npcs::npc_type::NPCType;
use npc_sim::npcs::target::Target;
use npc_sim::npcs::treasure::Treasure;

#[test]
fn new_agent_is_an_idle_leader() {
    let a = Agent::new_agent(7);
    assert_eq!(a.get_id(), 7);
    assert_eq!(a.get_status(), Status::Idle);
    assert_eq!(a.get_action(), NpcAction::NoAction);
    assert_eq!(a.get_target(), Target::NoTarget);
    assert!(a.is_leader());
    assert!(!a.is_follower());
    assert_eq!(a.get_leader_id(), i32::MAX);
    assert_eq!(a.get_agent_target_id(), i32::MAX);
    assert!(a.get_path().is_none());
    assert_eq!(a.get_reward(), 0);
    assert!(!a.has_followers());
}

#[test]
fn default_agent_does_not_lead() {
    let a = Agent::default();
    assert_eq!(a.get_id(), 0);
    assert!(!a.is_leader());
    assert_eq!(a.get_leader_id(), 0);
}

#[test]
fn reward_added_then_removed_is_restored() {
    let mut a = Agent::new_agent(1);
    a.add_reward(40);
    a.add_reward(2);
    assert_eq!(a.get_reward(), 42);
    a.remove_reward(2);
    assert_eq!(a.get_reward(), 40);
    a.remove_reward(100);
    assert_eq!(a.get_reward(), 0);
}

#[test]
fn memory_keeps_the_newest_fifty() {
    let mut a = Agent::new_agent(1);
    for i in 0..55 {
        a.add_to_memory(i, NpcAction::Talk);
    }
    let m = a.get_memory();
    assert_eq!(m.len(), 50);
    assert_eq!(m[0], (54, NpcAction::Talk));
    assert_eq!(m[49], (5, NpcAction::Talk));
}

#[test]
fn followers_are_added_and_removed() {
    let mut a = Agent::new_agent(1);
    a.add_follower(vec![3, 4, 3]);
    assert_eq!(a.get_followers(), vec![3, 4, 3]);
    assert_eq!(a.get_group_size(), 3);
    a.remove_follower(3);
    assert_eq!(a.get_followers(), vec![4, 3]);
    a.remove_follower(9);
    assert_eq!(a.get_followers(), vec![4, 3]);
    let mut b = Agent::new_agent(2);
    b.add_follower(vec![8]);
    b.remove_follower(8);
    assert!(!b.has_followers());
}

#[test]
fn agent_setters_change_one_field() {
    let mut a = Agent::new_agent(1);
    a.set_status(Status::Moving);
    a.set_action(NpcAction::Rest);
    a.set_target(Target::Monster);
    a.set_monster_target_id(5);
    a.set_tile_target(Some(Position::new(1, 2)));
    a.set_path(vec![Position::new(0, 1)]);
    a.set_is_leader(false);
    a.set_is_follower(true);
    a.set_leader_id(3);
    assert_eq!(a.get_status(), Status::Moving);
    assert_eq!(a.get_action(), NpcAction::Rest);
    assert_eq!(a.get_target(), Target::Monster);
    assert_eq!(a.get_monster_target_id(), 5);
    assert_eq!(a.get_tile_target(), Some(Position::new(1, 2)));
    assert_eq!(a.get_path(), Some(vec![Position::new(0, 1)]));
    assert!(!a.is_leader());
    assert!(a.is_follower());
    assert_eq!(a.get_leader_id(), 3);
    assert_eq!(a.get_id(), 1);
}

#[test]
fn energy_stays_between_zero_and_the_maximum() {
    let mut b = NPCBase::new(2, 3, NPCType::Agent);
    assert_eq!(b.get_energy(), 100);
    assert_eq!(b.get_max_energy(), 100);
    assert_eq!(b.get_position(), Position::new(2, 3));
    b.remove_energy(30);
    assert_eq!(b.get_energy(), 70);
    b.add_energy(50);
    assert_eq!(b.get_energy(), 100);
    b.remove_energy(500);
    assert_eq!(b.get_energy(), 0);
    b.set_max_energy(10);
    b.add_energy(7);
    assert_eq!(b.get_energy(), 7);
    b.move_to(-1, 4);
    assert_eq!(b.get_position(), Position::new(-1, 4));
}

#[test]
fn monsters_start_idle_with_id_zero() {
    let mut m = Monster::new_monster(Position::new(4, 4));
    assert_eq!(m.get_id(), 0);
    assert_eq!(m.get_status(), Status::Idle);
    assert_eq!(m.get_target_id(), i32::MAX);
    m.add_reward(10);
    m.remove_reward(3);
    assert_eq!(m.get_reward(), 7);
    m.set_reward(1);
    m.remove_reward(5);
    assert_eq!(m.get_reward(), 0);
    m.set_target_id(2);
    m.set_status(Status::Dead);
    assert_eq!(m.get_target_id(), 2);
    assert_eq!(m.get_status(), Status::Dead);
}

#[test]
fn treasures_hold_a_hundred() {
    let mut t = Treasure::new_treasure(3);
    assert_eq!(t.get_id(), 3);
    assert_eq!(t.get_reward(), 100);
    t.add_reward(5);
    assert_eq!(t.get_reward(), 105);
    t.remove_reward(200);
    assert_eq!(t.get_reward(), 0);
    t.set_reward(9);
    assert_eq!(t.get_reward(), 9);
}

#[test]
fn action_descriptions() {
    assert_eq!(NpcAction::AttackAgent.to_string(), "Attack Agent");
    assert_eq!(NpcAction::TreasureHunt.to_string(), "Treasure Hunt");
    assert_eq!(NpcAction::NoAction.to_string(), "Root");
    assert_eq!(
        NpcAction::Work(WorkType::Farming(Position::new(1, 2))).to_string(),
        "Farming at (1, 2) Work "
    );
    assert_eq!(WorkType::Mining(Position::new(-3, 0)).to_string(), "Mining at (-3, 0)");
    assert_eq!(WorkType::Merchant.to_string(), "Merchant");
    assert_eq!(NpcAction::iter().len(), 7);
    assert_eq!(NpcAction::iter()[0], NpcAction::AttackAgent);
    assert_eq!(NpcAction::iter()[6], NpcAction::NoAction);
}

#[test]
fn npc_type_names() {
    assert_eq!(NPCType::Agent.to_string(), "agent");
    assert_eq!(NPCType::Monster.to_string(), "monster");
    assert_eq!(NPCType::Treasure.to_string(), "treasure");
    assert_eq!(NPCType::Player.to_string(), "player");
}

#[test]
fn error_messages() {
    assert_eq!(MyError::PositionError.to_string(), "Position Error");
    assert_eq!(MyError::OtherError.to_string(), "Other Error");
    assert_eq!(MyError::TileNotFound.to_string(), "Tile Not Found");
    assert_eq!(MyError::AgentNotFound.to_string(), "Agent Not Found");
    assert_eq!(MyError::MonsterNotFound.to_string(), "Monster Not Found");
    assert_eq!(MyError::TreasureNotFound.to_string(), "Treasure Not Found");
    assert_eq!(PositionError.to_string(), "Position is out of bounds");
}

#[test]
fn status_and_target_sentences() {
    let mut a = Agent::new_agent(3);
    assert_eq!(a.status_message(), "Agent 3 is idle.");
    a.set_status(Status::RequiresInstruction);
    assert_eq!(a.status_message(), "Agent 3 is Awaiting Instructions.");
    assert_eq!(a.target_message(), "Agent 3 has no specific target.");
    a.set_target(Target::Tile);
    assert_eq!(a.target_message(), "Agent 3 is not targeting any specific tile.");
    a.set_tile_target(Some(Position::new(1, -2)));
    assert_eq!(a.target_message(), "Agent 3 is targeting a tile at coordinates (1, -2).");
    let b = Agent::new_agent(-5);
    assert_eq!(b.status_message(), "Agent -5 is idle.");
}
