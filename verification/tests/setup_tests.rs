use npc_sim::gameworld::position::Position;
use npc_sim::gameworld::world::GameWorld;
use npc_sim::npcs::npc_type::NPCType;
use npc_sim::system::mcst_tree::simulation_tree::SimulationTree;
use npc_sim::system::player_system::highlight_squares::{highlight_moveable_player_squares, moveable_player_squares};
use npc_sim::system::setup::{setup, spawn_locations, valid_monster_treasure_spawns};
use npc_sim::world_sim::WorldSim;
use rand::rngs::StdRng;
use rand::SeedableRng;

fn big_world() -> GameWorld {
    let mut rows = vec!["vfffffffff".to_string()];
    for _ in 0..9 {
        rows.push("ffffffffff".to_string());
    }
    rows[9] = "ffffffffml".to_string();
    GameWorld::create_world(rows)
}

#[test]
fn spawn_points_of_a_world() {
    let w = big_world();
    let villages = spawn_locations(&w);
    assert_eq!(villages, vec![Position::new(0, 0)]);
    let valid = valid_monster_treasure_spawns(&w, &villages);
    assert!(!valid.contains(&Position::new(5, 5)));
    assert!(valid.contains(&Position::new(6, 0)));
    assert!(valid.contains(&Position::new(0, 6)));
    assert!(!valid.contains(&Position::new(8, 9)));
    assert!(!valid.contains(&Position::new(9, 9)));
    assert_eq!(valid.len(), 100 - 36 - 2);
}

#[test]
fn setup_places_everyone() {
    let w = big_world();
    let mut rng = StdRng::seed_from_u64(7);
    let mut trees = SimulationTree::default();
    let mut next_treasure = 0;
    let state = setup(&w, &mut rng, &mut trees, 0, &mut next_treasure);
    assert_eq!(state.player.unwrap().position, Position::new(0, 0));
    assert_eq!(state.player.unwrap().npc_type, NPCType::Player);
    assert_eq!(state.agents.len(), 10);
    for (i, (agent, base)) in state.agents.iter().enumerate() {
        assert_eq!(agent.get_id(), i as i32);
        assert_eq!(base.position, Position::new(0, 0));
        let tree = trees.get_tree(i as i32).expect("each agent has a tree");
        assert_eq!(tree.get_root(), Some(1));
    }
    assert_eq!(state.monsters.len(), 5);
    assert_eq!(state.treasures.len(), 5);
    let valid = valid_monster_treasure_spawns(&w, &spawn_locations(&w));
    for (monster, base) in &state.monsters {
        assert_eq!(monster.get_id(), 0);
        assert!(valid.contains(&base.position));
    }
    for (i, (treasure, base)) in state.treasures.iter().enumerate() {
        assert_eq!(treasure.get_id(), i as i32 + 1);
        assert_eq!(treasure.get_reward(), 100);
        assert!(valid.contains(&base.position));
    }
    assert_eq!(next_treasure, 5);
    assert_eq!(state.iteration_total, 50);
    assert_eq!(state.world_sim.get_tiles().len(), w.get_tiles().len());
}

#[test]
fn player_moves_to_free_crossable_squares() {
    let w = GameWorld::create_world(vec!["ffl".to_string(), "fff".to_string(), "mff".to_string()]);
    let squares = moveable_player_squares(&w, Position::new(1, 1), &[Position::new(0, 0)]);
    assert_eq!(
        squares,
        vec![
            Position::new(2, 1),
            Position::new(0, 1),
            Position::new(1, 2),
            Position::new(1, 0),
            Position::new(2, 2),
            Position::new(0, 2),
        ]
    );
    let mut on = true;
    assert_eq!(
        highlight_moveable_player_squares(&mut on, &w, Some(Position::new(0, 2)), &[]),
        Some(vec![Position::new(1, 2), Position::new(0, 1), Position::new(1, 1)])
    );
    assert!(!on);
    assert_eq!(highlight_moveable_player_squares(&mut on, &w, Some(Position::new(0, 2)), &[]), None);
}

#[test]
fn simulation_world_is_a_copy() {
    let w = big_world();
    let sim = WorldSim(GameWorld::new());
    let copy = sim.copy_world(&w);
    assert_eq!(copy.get_world().get_tiles().len(), 100);
    assert_eq!(copy.get_world().get_width_max(), 9);
}
