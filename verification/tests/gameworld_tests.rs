use npc_sim::gameworld::position::{manhattan_distance, Position};
use npc_sim::gameworld::tile_types::TileType;
use npc_sim::gameworld::world::{squared_distance, GameWorld};

fn small_world() -> GameWorld {
    GameWorld::create_world(vec!["fvl".to_string(), "mFM".to_string()])
}

#[test]
fn position_to_string_writes_both_coordinates() {
    assert_eq!(Position::new(3, -4).to_string(), "(3, -4)");
    assert_eq!(Position::new(0, 12).to_string(), "(0, 12)");
    let p = Position::new(5, 6);
    assert_eq!(p.get_x(), 5);
    assert_eq!(p.get_y(), 6);
}

#[test]
fn manhattan_and_squared_distances() {
    assert_eq!(manhattan_distance(Position::new(0, 0), Position::new(-2, 3)), 5);
    assert_eq!(squared_distance(Position::new(1, 1), Position::new(4, 5)), 25);
    assert_eq!(
        manhattan_distance(Position::new(i32::MIN, 0), Position::new(i32::MAX, 0)),
        u32::MAX as i64
    );
}

#[test]
fn tile_type_names_and_weights() {
    assert_eq!(TileType::Forest.to_string(), "Forest");
    assert_eq!(TileType::Lake.to_string(), "Water");
    assert_eq!(TileType::Mine.to_string(), "Mine");
    assert_eq!(TileType::Forest.get_travel_weight(), 5);
    assert_eq!(TileType::Mountain.get_travel_weight(), 5);
    assert_eq!(TileType::Lake.get_travel_weight(), 0);
    assert_eq!(TileType::Village.get_travel_weight(), 4);
}

#[test]
fn create_world_reads_each_character() {
    let w = small_world();
    assert_eq!(w.get_tiles().len(), 6);
    assert_eq!(w.get_tile_type(0, 0), Some(TileType::Forest));
    assert_eq!(w.get_tile_type(1, 0), Some(TileType::Village));
    assert_eq!(w.get_tile_type(2, 0), Some(TileType::Lake));
    assert_eq!(w.get_tile_type(0, 1), Some(TileType::Mountain));
    assert_eq!(w.get_tile_type(1, 1), Some(TileType::Farm));
    assert_eq!(w.get_tile_type(2, 1), Some(TileType::Mine));
    assert_eq!(w.get_tile_type(3, 0), None);
    assert_eq!(w.get_width_mind(), 0);
    assert_eq!(w.get_width_max(), 2);
    assert_eq!(w.get_height_min(), 0);
    assert_eq!(w.get_height_max(), 1);
}

#[test]
fn empty_world_has_inverted_bounds() {
    let w = GameWorld::new();
    assert_eq!(w.get_tiles().len(), 0);
    assert_eq!(w.get_width_mind(), i32::MAX);
    assert_eq!(w.get_width_max(), i32::MIN);
    assert!(!w.is_within_bounds(Position::new(0, 0)));
}

#[test]
fn valid_positions_and_bounds() {
    let w = small_world();
    assert!(w.is_valid_position(2, 1));
    assert!(!w.is_valid_position(3, 0));
    assert!(!w.is_valid_position(-1, 0));
    assert!(w.is_within_bounds(Position::new(2, 1)));
    assert!(!w.is_within_bounds(Position::new(2, 2)));
}

#[test]
fn copy_keeps_tiles_and_bounds() {
    let w = small_world();
    let c = w.copy();
    assert_eq!(c.get_tiles().len(), w.get_tiles().len());
    assert_eq!(c.get_tile_type(1, 1), Some(TileType::Farm));
    assert_eq!(c.get_height_max(), w.get_height_max());
}

#[test]
fn tile_written_through_get_tile_mut_is_read_back() {
    let mut w = small_world();
    if let Some(tile) = w.get_tile_mut(0, 0) {
        tile.tile_type = TileType::Dungeon;
    } else {
        panic!("tile (0, 0) exists");
    }
    assert_eq!(w.get_tile_type(0, 0), Some(TileType::Dungeon));
    assert!(w.get_tile_mut(5, 5).is_none());
    assert_eq!(w.get_tile(5, 5).map(|t| t.get_tile_type()), None);
}

#[test]
fn closest_tile_of_a_type() {
    let w = small_world();
    assert_eq!(w.find_closest_tiletype(Position::new(0, 1), TileType::Village), Some(Position::new(1, 0)));
    assert_eq!(w.find_closest_tiletype(Position::new(0, 0), TileType::Dungeon), None);
    let two = GameWorld::create_world(vec!["vfffv".to_string()]);
    // Both villages are two steps from the middle; the first in tile order wins.
    assert_eq!(two.find_closest_tiletype(Position::new(2, 0), TileType::Village), Some(Position::new(0, 0)));
    assert_eq!(two.find_closest_tiletype(Position::new(3, 0), TileType::Village), Some(Position::new(4, 0)));
}

#[test]
fn closest_villages_pair_each_village() {
    let w = GameWorld::create_world(vec!["vfv".to_string(), "fff".to_string(), "vff".to_string()]);
    let pairs = w.find_closest_villages();
    assert_eq!(
        pairs,
        vec![
            (Position::new(0, 0), Position::new(2, 0)),
            (Position::new(2, 0), Position::new(0, 0)),
            (Position::new(0, 2), Position::new(0, 0)),
        ]
    );
    let lone = GameWorld::create_world(vec!["vff".to_string()]);
    assert!(lone.find_closest_villages().is_empty());
}
