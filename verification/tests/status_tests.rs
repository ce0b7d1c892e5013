use npc_sim::gameworld::position::Position;
use npc_sim::npcs::agent::Agent;
use npc_sim::npcs::npc_action::NpcAction;
use npc_sim::npcs::npc_status::Status;
use npc_sim::npcs::target::Target;
use npc_sim::system::simulation::agent_status::{
    current_status_step, handle_current_agent_status, observe, set_actual_simulation_actions, set_actual_status,
    set_current_target, set_mcst_actions, set_mcst_agent_actions, SelectionObservation, StatusObservation,
    Surroundings,
};

fn follower(id: i32, status: Status, action: NpcAction) -> Agent {
    let mut a = Agent::new_agent(id);
    a.set_is_leader(false);
    a.set_is_follower(true);
    a.set_status(status);
    a.set_action(action);
    a
}

fn seen(near_agent: bool, near_monster: bool, near_treasure: bool) -> StatusObservation {
    StatusObservation { near_agent, near_monster, near_treasure, village: None, treasure_position: None, flee: false }
}

fn empty_surroundings() -> Surroundings {
    Surroundings {
        agents: vec![],
        monsters: vec![],
        treasures: vec![],
        closest_monsters: vec![],
        closest_treasures: vec![],
        closest_villages: vec![],
    }
}

#[test]
fn an_idle_agent_next_to_its_target_attacks() {
    let mut a = follower(1, Status::Idle, NpcAction::AttackAgent);
    assert!(!current_status_step(&mut a, Position::new(0, 0), seen(true, false, false)));
    assert_eq!(a.get_status(), Status::Attacking);
}

#[test]
fn an_idle_agent_far_from_its_target_sets_off() {
    let mut a = follower(1, Status::Idle, NpcAction::Steal);
    assert!(current_status_step(&mut a, Position::new(0, 0), seen(false, true, true)));
    assert_eq!(a.get_status(), Status::Moving);
}

#[test]
fn a_treasure_hunter_heads_for_the_treasure() {
    let mut a = follower(1, Status::Idle, NpcAction::TreasureHunt);
    let mut o = seen(false, false, true);
    o.treasure_position = Some(Position::new(3, 4));
    assert!(!current_status_step(&mut a, Position::new(3, 3), o));
    assert_eq!(a.get_status(), Status::Working);
    assert_eq!(a.get_tile_target(), Some(Position::new(3, 4)));
}

#[test]
fn a_moving_agent_rests_once_at_the_village() {
    let mut a = follower(1, Status::Moving, NpcAction::Rest);
    let mut o = seen(false, false, false);
    o.village = Some(Position::new(2, 2));
    assert!(current_status_step(&mut a, Position::new(1, 2), o));
    assert_eq!(a.get_status(), Status::Moving);
    assert!(!current_status_step(&mut a, Position::new(2, 2), o));
    assert_eq!(a.get_status(), Status::Recovering);
    assert_eq!(a.get_tile_target(), None);
}

#[test]
fn a_retaliating_agent_flees_when_it_must() {
    let mut a = follower(1, Status::Retaliating, NpcAction::AttackAgent);
    let mut o = seen(true, false, false);
    o.flee = true;
    o.village = Some(Position::new(9, 9));
    assert!(!current_status_step(&mut a, Position::new(0, 0), o));
    assert_eq!(a.get_status(), Status::Fleeing);
    assert_eq!(a.get_tile_target(), Some(Position::new(9, 9)));
}

#[test]
fn leaders_and_inactive_runs_are_left_alone() {
    let mut agents = vec![Agent::new_agent(1), follower(2, Status::Idle, NpcAction::Talk)];
    let positions = [Position::new(0, 0), Position::new(1, 0)];
    let obs = [seen(true, false, false), seen(true, false, false)];
    let needs = handle_current_agent_status(&mut agents, &positions, &obs, false, false);
    assert!(needs.is_empty());
    assert_eq!(agents[1].get_status(), Status::Idle);
    let needs = handle_current_agent_status(&mut agents, &positions, &obs, true, false);
    assert_eq!(needs, vec![false, false]);
    assert_eq!(agents[0].get_status(), Status::Idle);
    assert_eq!(agents[1].get_status(), Status::Working);
}

#[test]
fn targets_follow_the_action() {
    let s = Surroundings {
        agents: vec![(7, Position::new(5, 5))],
        monsters: vec![],
        treasures: vec![],
        closest_monsters: vec![(1, 30, Position::new(2, 8))],
        closest_treasures: vec![(1, 40, Position::new(6, 1))],
        closest_villages: vec![(1, Position::new(0, 9))],
    };
    let mut a = Agent::new_agent(1);
    set_mcst_agent_actions(&mut a, NpcAction::Steal, 7, &s.agents, &s.closest_monsters, &s.closest_treasures, &s.closest_villages);
    assert_eq!(a.get_target(), Target::Agent);
    assert_eq!(a.get_agent_target_id(), 7);
    assert_eq!(a.get_tile_target(), Some(Position::new(5, 5)));
    set_mcst_agent_actions(&mut a, NpcAction::AttackMonster, 7, &s.agents, &s.closest_monsters, &s.closest_treasures, &s.closest_villages);
    assert_eq!(a.get_target(), Target::Monster);
    assert_eq!(a.get_monster_target_id(), 30);
    assert_eq!(a.get_tile_target(), Some(Position::new(2, 8)));
    set_mcst_agent_actions(&mut a, NpcAction::Rest, 7, &s.agents, &s.closest_monsters, &s.closest_treasures, &s.closest_villages);
    assert_eq!(a.get_target(), Target::Tile);
    assert_eq!(a.get_tile_target(), Some(Position::new(0, 9)));
    set_mcst_agent_actions(&mut a, NpcAction::TreasureHunt, 7, &s.agents, &s.closest_monsters, &s.closest_treasures, &s.closest_villages);
    assert_eq!(a.get_target(), Target::Treasure);
    assert_eq!(a.get_treasure_target_id(), 40);
    let mut b = Agent::new_agent(2);
    b.set_target(Target::Monster);
    b.set_monster_target_id(3);
    set_current_target(&mut b, &[], &[(3, Position::new(4, 4))], &[]);
    assert_eq!(b.get_tile_target(), Some(Position::new(4, 4)));
}

#[test]
fn the_search_hands_out_queued_actions_until_none_are_left() {
    let mut agents = vec![Agent::new_agent(1)];
    agents[0].add_reward(12);
    let positions = [Position::new(0, 0)];
    let mut scores = vec![0];
    let mut queues = vec![vec![NpcAction::Talk]];
    let obs = [SelectionObservation { attacker_attacks: false, flee: false, full_energy: false, best_agent: 4 }];
    let s = empty_surroundings();
    assert!(!set_mcst_actions(&mut agents, &positions, &mut scores, &mut queues, &obs, &s, true));
    assert_eq!(agents[0].get_action(), NpcAction::Talk);
    assert_eq!(agents[0].get_agent_target_id(), 4);
    assert!(queues[0].is_empty());
    assert!(set_mcst_actions(&mut agents, &positions, &mut scores, &mut queues, &obs, &s, true));
    assert_eq!(scores[0], -12);
    assert_eq!(agents[0].get_status(), Status::Finished);
    assert!(!set_mcst_actions(&mut agents, &positions, &mut scores, &mut queues, &obs, &s, false));
}

#[test]
fn the_run_moves_statuses_on() {
    let mut fleeing = Agent::new_agent(1);
    fleeing.set_status(Status::Fleeing);
    fleeing.set_tile_target(Some(Position::new(2, 2)));
    let mut recovered = Agent::new_agent(2);
    recovered.set_status(Status::Recovering);
    recovered.set_action(NpcAction::AttackMonster);
    recovered.set_tile_target(Some(Position::new(3, 3)));
    let idle = Agent::new_agent(3);
    let mut agents = vec![fleeing, recovered, idle];
    let positions = [Position::new(2, 2), Position::new(3, 3), Position::new(0, 0)];
    let picked = [None, None, Some(NpcAction::Rest)];
    let o = SelectionObservation { attacker_attacks: false, flee: false, full_energy: true, best_agent: 0 };
    let mut s = empty_surroundings();
    s.closest_villages = vec![(3, Position::new(1, 1))];
    set_actual_simulation_actions(&mut agents, &positions, &picked, &[o, o, o], &s, true);
    assert_eq!(agents[0].get_status(), Status::Recovering);
    assert_eq!(agents[1].get_status(), Status::Attacking);
    assert_eq!(agents[2].get_tile_target(), Some(Position::new(1, 1)));
    assert_eq!(agents[2].get_action(), NpcAction::NoAction);
    let mut r = Agent::new_agent(4);
    r.set_status(Status::Retaliating);
    r.set_tile_target(Some(Position::new(5, 5)));
    set_actual_status(&mut r, Position::new(4, 5), false, false, false);
    assert_eq!(r.get_status(), Status::Moving);
}

#[test]
fn observations_come_from_the_surroundings() {
    let w = npc_sim::gameworld::world::GameWorld::create_world(vec!["fffv".to_string(), "ffff".to_string()]);
    let mut a = Agent::new_agent(1);
    a.set_agent_target_id(7);
    a.set_treasure_target_id(9);
    let mut s = empty_surroundings();
    s.agents = vec![(7, Position::new(1, 1))];
    s.treasures = vec![(9, Position::new(3, 1))];
    let o = observe(&w, &a, Position::new(0, 0), &s, true);
    assert!(o.near_agent);
    assert!(!o.near_monster);
    assert!(!o.near_treasure);
    assert_eq!(o.village, Some(Position::new(3, 0)));
    assert_eq!(o.treasure_position, Some(Position::new(3, 1)));
    assert!(o.flee);
}
