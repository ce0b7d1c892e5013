use npc_sim::gameworld::position::Position;
use npc_sim::gameworld::world::GameWorld;
use npc_sim::npcs::agent::Agent;
use npc_sim::npcs::monster::Monster;
use npc_sim::npcs::npc_action::{NpcAction, WorkType};
use npc_sim::npcs::npc_base::NPCBase;
use npc_sim::npcs::npc_status::Status;
use npc_sim::npcs::npc_type::NPCType;
use npc_sim::npcs::target::Target;
use npc_sim::npcs::treasure::Treasure;
use npc_sim::system::simulation::handle_npc_movement::{handle_agent_movement, move_agent_along_path};
use npc_sim::system::simulation::handle_selected_action::{
    handle_idle_actions, handle_moving_actions, handle_path_recalculation_and_monster_avoidance,
    handle_selected_action, handle_selected_action_system, is_next_to_target, AgentChoices,
};

fn world() -> GameWorld {
    GameWorld::create_world(vec!["vffff".to_string(), "fffff".to_string(), "fffff".to_string()])
}

fn agent_with(id: i32, action: NpcAction, status: Status) -> Agent {
    let mut a = Agent::new_agent(id);
    a.set_action(action);
    a.set_status(status);
    a
}

fn base(x: i32, y: i32) -> NPCBase {
    NPCBase::new(x, y, NPCType::Agent)
}

const NO_CHOICES: AgentChoices = AgentChoices { best_agent: None, worst_agent: None, flee: false };

#[test]
fn next_to_target_along_both_axes() {
    assert!(is_next_to_target(Position::new(0, 0), Position::new(1, 1), 1));
    assert!(!is_next_to_target(Position::new(0, 0), Position::new(2, 1), 1));
    assert!(is_next_to_target(Position::new(3, 3), Position::new(3, 3), 0));
    assert!(is_next_to_target(Position::new(1, 1), Position::new(0, 0), 1));
    assert!(!is_next_to_target(Position::new(i32::MIN, 0), Position::new(i32::MAX, 0), 1));
}

#[test]
fn idle_agent_heads_for_the_village_to_rest() {
    let w = world();
    let mut a = agent_with(1, NpcAction::Rest, Status::Idle);
    handle_idle_actions(&mut a, &base(3, 0), &w, &[], &[], &[], None, None);
    assert_eq!(a.get_status(), Status::Moving);
    let path = a.get_path().unwrap();
    assert_eq!(path, vec![Position::new(2, 0), Position::new(1, 0), Position::new(0, 0)]);
}

#[test]
fn idle_agent_at_the_village_starts_its_action() {
    let w = world();
    let mut a = agent_with(1, NpcAction::Rest, Status::Idle);
    handle_idle_actions(&mut a, &base(0, 0), &w, &[], &[], &[], None, None);
    assert_eq!(a.get_status(), Status::Recovering);
    let mut b = agent_with(1, NpcAction::Talk, Status::Idle);
    handle_idle_actions(&mut b, &base(0, 0), &w, &[], &[], &[], None, None);
    assert_eq!(b.get_status(), Status::Talking);
    let mut c = agent_with(1, NpcAction::Work(WorkType::Merchant), Status::Idle);
    handle_idle_actions(&mut c, &base(0, 0), &w, &[], &[], &[], None, None);
    assert_eq!(c.get_status(), Status::Working);
    let mut d = agent_with(1, NpcAction::Work(WorkType::Farming(Position::new(2, 2))), Status::Idle);
    handle_idle_actions(&mut d, &base(2, 2), &w, &[], &[], &[], None, None);
    assert_eq!(d.get_status(), Status::Working);
    assert!(d.get_path().is_none());
}

#[test]
fn idle_agent_goes_for_its_targets() {
    let w = world();
    let monsters = [(Position::new(4, 2), Monster::new_monster(Position::new(4, 2)), base(4, 2)),
        (Position::new(1, 0), Monster::new_monster(Position::new(1, 0)), base(1, 0))];
    let mut a = agent_with(1, NpcAction::AttackMonster, Status::Idle);
    handle_idle_actions(&mut a, &base(0, 0), &w, &[], &monsters, &[], None, None);
    assert_eq!(a.get_status(), Status::Attacking);
    assert_eq!(a.get_monster_target_id(), 0);

    let treasures = [(Position::new(3, 2), Treasure::new_treasure(3), base(3, 2))];
    let mut t = agent_with(1, NpcAction::TreasureHunt, Status::Idle);
    handle_idle_actions(&mut t, &base(0, 0), &w, &[], &[], &treasures, None, None);
    assert_eq!(t.get_status(), Status::Moving);
    assert_eq!(t.get_treasure_target_id(), 3);
    assert_eq!(*t.get_path().unwrap().last().unwrap(), Position::new(3, 2));

    let others = [(Position::new(4, 2), Agent::new_agent(9), base(4, 2))];
    let mut h = agent_with(1, NpcAction::AttackAgent, Status::Idle);
    handle_idle_actions(&mut h, &base(0, 0), &w, &others, &[], &[], Some(9), None);
    assert_eq!(h.get_status(), Status::Moving);
    assert_eq!(h.get_agent_target_id(), 9);
    let mut s = agent_with(1, NpcAction::Steal, Status::Idle);
    handle_idle_actions(&mut s, &base(3, 1), &w, &others, &[], &[], None, Some(9));
    assert_eq!(s.get_status(), Status::Working);
    let mut n = agent_with(1, NpcAction::AttackAgent, Status::Idle);
    handle_idle_actions(&mut n, &base(0, 0), &w, &others, &[], &[], Some(4), None);
    assert_eq!(n.get_status(), Status::Idle);
    let mut none = agent_with(1, NpcAction::NoAction, Status::Idle);
    handle_idle_actions(&mut none, &base(0, 0), &w, &others, &[], &[], Some(9), Some(9));
    assert_eq!(none.get_status(), Status::Idle);
}

#[test]
fn moving_agent_reaches_its_target() {
    let w = world();
    let others = [(Position::new(2, 1), Agent::new_agent(9), base(2, 1))];
    let mut a = agent_with(1, NpcAction::AttackAgent, Status::Moving);
    a.set_agent_target_id(9);
    a.set_path(vec![Position::new(2, 1)]);
    handle_moving_actions(&mut a, &base(1, 1), &w, &others, &[], &[], false);
    assert_eq!(a.get_status(), Status::Attacking);
    assert_eq!(a.get_path(), Some(Vec::new()));
    let mut r = agent_with(1, NpcAction::NoAction, Status::Moving);
    handle_moving_actions(&mut r, &base(1, 1), &w, &others, &[], &[], false);
    assert_eq!(r.get_status(), Status::Idle);
}

#[test]
fn moving_agent_keeps_a_path_that_ends_at_the_target() {
    let w = world();
    let mut a = agent_with(1, NpcAction::Rest, Status::Moving);
    a.set_path(vec![Position::new(0, 0)]);
    handle_moving_actions(&mut a, &base(1, 0), &w, &[], &[], &[], false);
    assert_eq!(a.get_status(), Status::Moving);
    assert_eq!(a.get_path(), Some(vec![Position::new(0, 0)]));
}

#[test]
fn fleeing_agent_recalculates_around_monsters() {
    let w = world();
    let monsters = [(Position::new(2, 0), Monster::new_monster(Position::new(2, 0)), base(2, 0))];
    let path = vec![Position::new(1, 0), Position::new(2, 0), Position::new(3, 0), Position::new(4, 0)];
    let mut fighter = agent_with(1, NpcAction::Rest, Status::Moving);
    fighter.set_path(path.clone());
    handle_path_recalculation_and_monster_avoidance(&mut fighter, &w, &monsters, Position::new(4, 0), Position::new(0, 0), false);
    assert_eq!(fighter.get_path(), Some(path.clone()));
    let mut runner = agent_with(1, NpcAction::Rest, Status::Moving);
    runner.set_path(path.clone());
    handle_path_recalculation_and_monster_avoidance(&mut runner, &w, &monsters, Position::new(4, 0), Position::new(0, 0), true);
    // The monster's area covers the whole small world, so no escape exists.
    assert_eq!(runner.get_path(), Some(Vec::new()));
    let mut pathless = agent_with(1, NpcAction::Rest, Status::Moving);
    handle_path_recalculation_and_monster_avoidance(&mut pathless, &w, &monsters, Position::new(4, 0), Position::new(0, 0), true);
    assert!(pathless.get_path().is_none());
}

#[test]
fn movement_follows_the_path_to_its_end() {
    let mut a = agent_with(1, NpcAction::Rest, Status::Moving);
    a.set_path(vec![Position::new(2, 0), Position::new(1, 0), Position::new(0, 0)]);
    let mut agents = vec![a];
    let mut bases = vec![base(3, 0)];
    handle_agent_movement(&mut agents, &mut bases);
    assert_eq!(bases[0].get_position(), Position::new(2, 0));
    assert_eq!(agents[0].get_status(), Status::Moving);
    handle_agent_movement(&mut agents, &mut bases);
    handle_agent_movement(&mut agents, &mut bases);
    assert_eq!(bases[0].get_position(), Position::new(0, 0));
    assert_eq!(agents[0].get_status(), Status::Idle);
    assert_eq!(agents[0].get_path(), Some(Vec::new()));
    handle_agent_movement(&mut agents, &mut bases);
    assert_eq!(bases[0].get_position(), Position::new(0, 0));
}

#[test]
fn only_moving_agents_move() {
    let mut a = agent_with(1, NpcAction::Rest, Status::Idle);
    a.set_path(vec![Position::new(2, 0)]);
    let mut b = base(3, 0);
    move_agent_along_path(&mut a, &mut b);
    assert_eq!(b.get_position(), Position::new(3, 0));
    assert_eq!(a.get_path(), Some(vec![Position::new(2, 0)]));
}

#[test]
fn attacking_agent_finishes_when_the_target_is_spent() {
    let w = world();
    let mut spent = base(0, 1);
    spent.set_energy(0);
    let others = [(Position::new(0, 1), Agent::new_agent(9), spent)];
    let mut a = agent_with(1, NpcAction::AttackAgent, Status::Attacking);
    a.set_target(Target::Agent);
    a.set_agent_target_id(9);
    handle_selected_action(&mut a, &base(0, 0), &w, &others, &[], &[], NO_CHOICES);
    assert_eq!(a.get_status(), Status::Finished);
    assert_eq!(a.get_tile_target(), Some(Position::new(0, 0)));
    assert_eq!(a.get_path(), Some(Vec::new()));

    let fresh = [(Position::new(0, 1), Agent::new_agent(9), base(0, 1))];
    let mut b = agent_with(1, NpcAction::AttackAgent, Status::Attacking);
    b.set_target(Target::Agent);
    b.set_agent_target_id(9);
    handle_selected_action(&mut b, &base(0, 0), &w, &fresh, &[], &[], NO_CHOICES);
    assert_eq!(b.get_status(), Status::Attacking);

    let mut c = agent_with(1, NpcAction::AttackAgent, Status::Attacking);
    c.set_target(Target::Tile);
    handle_selected_action(&mut c, &base(0, 0), &w, &fresh, &[], &[], NO_CHOICES);
    assert_eq!(c.get_status(), Status::RequiresInstruction);
}

#[test]
fn recovered_agent_goes_back_to_its_action() {
    let w = world();
    let mut a = agent_with(1, NpcAction::Rest, Status::Recovering);
    handle_selected_action(&mut a, &base(0, 0), &w, &[], &[], &[], NO_CHOICES);
    assert_eq!(a.get_status(), Status::Recovering);
    let mut tired = base(0, 0);
    tired.set_energy(50);
    let mut b = agent_with(1, NpcAction::Rest, Status::Recovering);
    handle_selected_action(&mut b, &tired, &w, &[], &[], &[], NO_CHOICES);
    assert_eq!(b.get_status(), Status::Recovering);
    let mut c = agent_with(1, NpcAction::Talk, Status::Recovering);
    handle_selected_action(&mut c, &base(0, 0), &w, &[], &[], &[], NO_CHOICES);
    assert_eq!(c.get_status(), Status::Talking);
}

#[test]
fn follower_without_a_leader_acts_alone() {
    let w = world();
    let mut a = agent_with(1, NpcAction::Rest, Status::Following);
    a.set_leader_id(4);
    handle_selected_action(&mut a, &base(0, 0), &w, &[], &[], &[], NO_CHOICES);
    assert_eq!(a.get_status(), Status::Recovering);
    let mut leader = Agent::new_agent(4);
    leader.set_action(NpcAction::Rest);
    let refs = [(Position::new(1, 1), leader, base(1, 1))];
    let mut b = agent_with(1, NpcAction::Rest, Status::Following);
    b.set_leader_id(4);
    handle_selected_action(&mut b, &base(0, 0), &w, &refs, &[], &[], NO_CHOICES);
    assert_eq!(b.get_status(), Status::Following);
}

#[test]
fn retaliation_ends_when_the_target_is_gone() {
    let w = world();
    let mut a = agent_with(1, NpcAction::Rest, Status::Retaliating);
    a.set_retaliation_target(Target::Monster);
    a.set_retaliation_target_id(0);
    handle_selected_action(&mut a, &base(0, 0), &w, &[], &[], &[], NO_CHOICES);
    assert_eq!(a.get_status(), Status::Recovering);
    let monsters = [(Position::new(1, 0), Monster::new_monster(Position::new(1, 0)), base(1, 0))];
    let mut b = agent_with(1, NpcAction::Rest, Status::Fleeing);
    b.set_retaliation_target(Target::Monster);
    b.set_retaliation_target_id(0);
    handle_selected_action(&mut b, &base(0, 0), &w, &[], &monsters, &[], NO_CHOICES);
    assert_eq!(b.get_status(), Status::Fleeing);
}

#[test]
fn working_and_finished_agents() {
    let w = world();
    let mut a = agent_with(1, NpcAction::TreasureHunt, Status::Working);
    handle_selected_action(&mut a, &base(0, 0), &w, &[], &[], &[], NO_CHOICES);
    assert_eq!(a.get_status(), Status::Working);
    let mut b = agent_with(1, NpcAction::Rest, Status::Working);
    handle_selected_action(&mut b, &base(0, 0), &w, &[], &[], &[], NO_CHOICES);
    assert_eq!(b.get_status(), Status::RequiresInstruction);
    let mut c = agent_with(1, NpcAction::Rest, Status::Finished);
    handle_selected_action(&mut c, &base(0, 0), &w, &[], &[], &[], NO_CHOICES);
    assert_eq!(c.get_status(), Status::RequiresInstruction);
    let mut d = agent_with(1, NpcAction::Rest, Status::Finished);
    d.set_tile_target(Some(Position::new(0, 0)));
    d.set_path(vec![Position::new(1, 0), Position::new(0, 0)]);
    handle_selected_action(&mut d, &base(2, 0), &w, &[], &[], &[], NO_CHOICES);
    assert_eq!(d.get_status(), Status::Finished);
    assert_eq!(d.get_path(), Some(vec![Position::new(1, 0), Position::new(0, 0)]));
}

#[test]
fn every_agent_takes_its_turn() {
    let w = world();
    let mut agents = vec![
        agent_with(1, NpcAction::Rest, Status::Idle),
        agent_with(2, NpcAction::Rest, Status::Dead),
    ];
    let bases = [base(3, 0), base(4, 0)];
    let choices = [NO_CHOICES, NO_CHOICES];
    handle_selected_action_system(&mut agents, &bases, &choices, &[], &[], &[], &w);
    assert_eq!(agents[0].get_status(), Status::Moving);
    assert_eq!(agents[1].get_status(), Status::Dead);
    assert!(agents[1].get_path().is_none());
}
