use npc_sim::errors::MyError;
use npc_sim::tile::{Tile, TileType};
use npc_sim::world::{create_world, World};

#[test]
fn default_map_tiles() {
    let w = create_world();
    assert_eq!(w.get_grid().len(), 21);
    assert_eq!(w.get_tile_type(0, 0), Ok(Some(TileType::Village)));
    assert_eq!(w.get_tile_type(1, 0), Ok(Some(TileType::Mountain)));
    assert_eq!(w.get_tile_type(18, 1), Ok(Some(TileType::Lake)));
    assert_eq!(w.get_tile_type(2, 0), Ok(Some(TileType::Forest)));
    assert_eq!(w.get_tile_type(25, 0), Err(MyError::PositionError));
    assert_eq!(w.get_tile(25, 0).err(), Some(MyError::TileNotFound));
    assert!(w.is_valid_position_bool(19, 0));
    assert!(!w.is_valid_position_bool(20, 0));
    assert!(!w.is_valid_position_bool(-1, 0));
}

#[test]
fn villages_row_after_row() {
    let w = create_world();
    assert_eq!(w.villages(), vec![(0, 0), (7, 2), (8, 17)]);
    assert_eq!(w.populate_agents(4), vec![(0, 0), (7, 2), (8, 17), (0, 0)]);
}

#[test]
fn agents_are_recorded_moved_and_removed() {
    let mut w = World::new();
    assert_eq!(w.add_agent(1, 2, 3), Ok(()));
    assert_eq!(w.get_agent_position(1), Ok((2, 3)));
    assert_eq!(w.add_agent(2, 50, 0), Err(MyError::PositionError));
    assert_eq!(w.get_agent_position(2), Err(MyError::AgentNotFound));
    assert_eq!(w.move_agent(1, 7, 8), Ok(()));
    assert_eq!(w.get_agent_position(1), Ok((7, 8)));
    assert_eq!(w.move_agent(9, 0, 0), Err(MyError::AgentNotFound));
    assert_eq!(w.remove_agent(1), Ok(()));
    assert_eq!(w.remove_agent(1), Err(MyError::AgentNotFound));
    assert_eq!(w.get_agent_position(1), Err(MyError::AgentNotFound));
}

#[test]
fn monsters_and_treasures_are_recorded_and_removed() {
    let mut w = World::new();
    assert_eq!(w.add_monster(4, 1, 1), Ok(()));
    assert_eq!(w.get_monster_position(4), Ok((1, 1)));
    assert_eq!(w.remove_monster(4), Ok(()));
    assert_eq!(w.remove_monster(4), Err(MyError::MonsterNotFound));
    assert_eq!(w.add_treasure(5, 29, 29), Ok(()));
    assert_eq!(w.get_treasure_position(5), Ok((29, 29)));
    assert_eq!(w.add_treasure(6, 30, 0), Err(MyError::PositionError));
    assert_eq!(w.remove_treasure(5), Ok(()));
    assert_eq!(w.get_treasure_position(5), Err(MyError::TreasureNotFound));
}

#[test]
fn copies_are_independent() {
    let mut w = World::new();
    w.add_agent(1, 0, 0).unwrap();
    let c = w.copy();
    w.remove_agent(1).unwrap();
    assert_eq!(c.get_agent_position(1), Ok((0, 0)));
    assert_eq!(c.get_tile_type(0, 0), Ok(Some(TileType::Forest)));
}

#[test]
fn tiles_written_in_place() {
    let mut w = World::new();
    match w.get_tile_mut(3, 4) {
        Ok(Some(t)) => t.update_tile_type(TileType::Lake),
        _ => panic!("tile (3, 4) exists"),
    }
    assert_eq!(w.get_tile_type(3, 4), Ok(Some(TileType::Lake)));
    assert!(w.get_tile_mut(31, 0).is_err());
}

#[test]
fn tile_spawn_flag() {
    let mut t = Tile::new(TileType::Forest);
    assert_eq!(t.get_tile_type(), TileType::Forest);
    assert!(t.is_monster_spawn());
    t.set_monster_spawn(false);
    assert!(!t.is_monster_spawn());
    t.update_tile_type(TileType::Dungeon);
    let mut c = t.copy_tile();
    assert_eq!(c.get_tile_type(), TileType::Dungeon);
    assert!(!c.is_monster_spawn());
}

#[test]
fn monster_places_come_from_the_spawns() {
    let spawns = vec![vec![(1, 1), (2, 2)], vec![(3, 3)]];
    let some = World::populate_monsters(spawns.clone(), 2);
    assert_eq!(some.len(), 2);
    for p in &some {
        assert!([(1, 1), (2, 2), (3, 3)].contains(p));
    }
    assert_ne!(some[0], some[1]);
    let mut all = World::populate_monsters(spawns, 5);
    all.sort();
    assert_eq!(all, vec![(1, 1), (2, 2), (3, 3)]);
}

fn spawnable(w: &World, x: usize, y: usize) -> bool {
    w.get_tile(x, y).unwrap().copy_tile().is_monster_spawn()
}

#[test]
fn spawning_is_forbidden_near_villages_and_on_mountains_and_lakes() {
    let mut w = create_world();
    assert!(spawnable(&w, 3, 3));
    w.set_valid_spawns();
    assert!(spawnable(&w, 15, 0));
    assert!(!spawnable(&w, 3, 3));
    assert!(!spawnable(&w, 1, 0));
    assert!(!spawnable(&w, 18, 1));
    assert!(!spawnable(&w, 12, 7));
    assert!(spawnable(&w, 13, 7));
}

#[test]
fn monster_spawns_row_by_row() {
    let w = World::new();
    let spawns = w.find_valid_monster_spawns();
    assert_eq!(spawns.len(), 30);
    assert_eq!(spawns[0].len(), 30);
    assert_eq!(spawns[0][1], (0, 1));
    assert_eq!(spawns[2][3], (2, 3));
    let d = create_world();
    let rows = d.find_valid_monster_spawns();
    assert_eq!(rows[0], vec![(1, 0)]);
    assert_eq!(rows[1], vec![(2, 0), (2, 1), (2, 2), (2, 3), (2, 4), (2, 5), (2, 6)]);
}

fn spawn_flags(w: &World) -> Vec<Vec<(Option<TileType>, bool)>> {
    let g = w.get_grid();
    (0..g.len())
        .map(|y| (0..g[y].len()).map(|x| (w.get_tile_type(x, y).unwrap(), spawnable(w, x, y))).collect())
        .collect()
}

#[test]
fn setting_the_valid_spawns_twice_is_setting_them_once() {
    let mut w = create_world();
    let before = spawn_flags(&w);
    w.set_valid_spawns();
    let once = spawn_flags(&w);
    w.set_valid_spawns();
    assert_eq!(spawn_flags(&w), once);
    for (row_before, row_once) in before.iter().zip(once.iter()) {
        for (b, o) in row_before.iter().zip(row_once.iter()) {
            assert_eq!(b.0, o.0);
            assert!(!o.1 || b.1);
            if matches!(o.0, Some(TileType::Village) | Some(TileType::Mountain) | Some(TileType::Lake)) {
                assert!(!o.1);
            }
        }
    }
}
