use npc_sim::gameworld::position::Position;
use npc_sim::gameworld::world::GameWorld;
use npc_sim::movement::find_path;
use npc_sim::pathfinding::{
    a_star_pathfinding, a_star_with_current_path, get_neighbors, heuristic,
    recalculate_path_around_multiple_positions, recalculate_path_around_position,
};
use npc_sim::tile::{Tile, TileType};

fn world(rows: &[&str]) -> GameWorld {
    GameWorld::create_world(rows.iter().map(|r| r.to_string()).collect())
}

fn adjacent(a: Position, b: Position) -> bool {
    (a.x - b.x).abs() <= 1 && (a.y - b.y).abs() <= 1 && a != b
}

fn is_walk(start: Position, path: &[Position]) -> bool {
    let mut prev = start;
    for p in path {
        if !adjacent(prev, *p) {
            return false;
        }
        prev = *p;
    }
    true
}

#[test]
fn neighbours_inside_the_box_in_direction_order() {
    let w = world(&["fff", "fff", "fff"]);
    assert_eq!(
        get_neighbors(&w, Position::new(0, 0)),
        vec![Position::new(0, 1), Position::new(1, 0), Position::new(1, 1)]
    );
    assert_eq!(get_neighbors(&w, Position::new(1, 1)).len(), 8);
}

#[test]
fn heuristic_is_four_times_manhattan() {
    assert_eq!(heuristic(Position::new(0, 0), Position::new(2, 3)), 20);
    assert_eq!(heuristic(Position::new(-1, -1), Position::new(-1, -1)), 0);
}

#[test]
fn a_star_takes_the_diagonal() {
    let w = world(&["fff", "fff", "fff"]);
    let path = a_star_pathfinding(&w, Position::new(0, 0), Position::new(2, 2));
    assert_eq!(path, vec![Position::new(1, 1), Position::new(2, 2)]);
}

#[test]
fn a_star_walks_around_a_lake() {
    let w = world(&["ffff", "lllf", "ffff"]);
    let start = Position::new(0, 0);
    let goal = Position::new(0, 2);
    let path = a_star_pathfinding(&w, start, goal);
    assert!(!path.is_empty());
    assert_eq!(*path.last().unwrap(), goal);
    assert!(is_walk(start, &path));
    for p in &path {
        assert!(p.y != 1 || p.x == 3);
    }
}

#[test]
fn a_star_without_a_way_gives_nothing() {
    let w = world(&["flf", "flf", "flf"]);
    assert!(a_star_pathfinding(&w, Position::new(0, 0), Position::new(2, 0)).is_empty());
    assert!(a_star_pathfinding(&w, Position::new(0, 0), Position::new(0, 0)).is_empty());
    assert!(a_star_pathfinding(&w, Position::new(0, 0), Position::new(9, 9)).is_empty());
}

#[test]
fn continuing_a_path() {
    let w = world(&["ffff", "ffff", "ffff", "ffff"]);
    let done = vec![Position::new(1, 1), Position::new(2, 2)];
    assert_eq!(a_star_with_current_path(&w, done.clone(), Position::new(2, 2)), done);
    assert!(a_star_with_current_path(&w, Vec::new(), Position::new(2, 2)).is_empty());
    let longer = a_star_with_current_path(&w, done.clone(), Position::new(3, 3));
    assert_eq!(longer, vec![Position::new(1, 1), Position::new(3, 3)]);
    let blocked = world(&["fflf", "fflf", "fflf"]);
    assert!(a_star_with_current_path(&blocked, vec![Position::new(1, 1)], Position::new(3, 1)).is_empty());
}

#[test]
fn recalculation_around_an_area() {
    let w = world(&["fffff", "fffff", "fffff", "fffff", "fffff"]);
    let goal = Position::new(4, 4);
    let r = recalculate_path_around_position(&w, vec![Position::new(0, 0)], Position::new(0, 0), 1, goal);
    assert!(!r.is_empty());
    assert_eq!(*r.last().unwrap(), goal);
    assert!(recalculate_path_around_position(&w, Vec::new(), Position::new(0, 0), 1, goal).is_empty());
    // A start outside every area searches from the start itself.
    let direct = recalculate_path_around_multiple_positions(
        &w,
        vec![Position::new(4, 0)],
        vec![(Position::new(0, 4), 1)],
        goal,
    );
    assert_eq!(direct, vec![Position::new(4, 1), Position::new(4, 2), Position::new(4, 3), Position::new(4, 4)]);
}

#[test]
fn recalculation_without_an_escape_gives_nothing() {
    let w = world(&["fff", "fff", "fff"]);
    let r = recalculate_path_around_position(&w, vec![Position::new(1, 1)], Position::new(1, 1), 5, Position::new(2, 2));
    assert!(r.is_empty());
}

fn grid(rows: &[&str]) -> Vec<Vec<Tile>> {
    rows.iter()
        .map(|r| {
            r.chars()
                .map(|c| {
                    Tile::new(match c {
                        'l' => TileType::Lake,
                        'm' => TileType::Mountain,
                        'v' => TileType::Village,
                        _ => TileType::Forest,
                    })
                })
                .collect()
        })
        .collect()
}

#[test]
fn grid_path_is_listed_from_the_end() {
    let g = grid(&["fff", "fff", "fff"]);
    let path = find_path(g, (0, 0), (2, 2)).expect("a path exists");
    assert_eq!(path.len(), 4);
    assert_eq!(path[0], (2, 2));
    let mut prev = (2, 2);
    for p in path.iter().skip(1) {
        assert_eq!((p.0 - prev.0).abs() + (p.1 - prev.1).abs(), 1);
        prev = *p;
    }
    assert_eq!((prev.0 - 0).abs() + (prev.1 - 0).abs(), 1);
}

#[test]
fn grid_path_to_the_start_is_empty() {
    let g = grid(&["ff", "ff"]);
    assert_eq!(find_path(g, (1, 1), (1, 1)), Some(Vec::new()));
}

#[test]
fn grid_path_outside_the_grid_is_none() {
    let g = grid(&["ff", "ff"]);
    assert_eq!(find_path(g, (0, 0), (5, 5)), None);
}

#[test]
fn grid_path_along_a_row_is_listed_backwards() {
    let g = grid(&["ffff"]);
    assert_eq!(find_path(g, (0, 0), (3, 0)), Some(vec![(3, 0), (2, 0), (1, 0)]));
}

#[test]
fn grid_path_goes_around_a_lake() {
    let g = grid(&["flf", "fff"]);
    let path = find_path(g, (0, 0), (2, 0)).expect("a path exists");
    assert_eq!(path.len(), 4);
    assert_eq!(path[0], (2, 0));
    assert!(!path.contains(&(1, 0)));
}

#[test]
fn grid_path_crosses_a_mountain_only_when_it_must() {
    let g = grid(&["fmf"]);
    assert_eq!(find_path(g, (0, 0), (2, 0)), Some(vec![(2, 0), (1, 0)]));
}

#[test]
fn searched_paths_never_revisit_a_position_nor_the_start() {
    let w = world(&["fffff", "fllff", "fffff"]);
    let start = Position::new(0, 1);
    let path = a_star_pathfinding(&w, start, Position::new(4, 1));
    assert!(!path.is_empty());
    assert!(!path.contains(&start));
    for i in 0..path.len() {
        for j in (i + 1)..path.len() {
            assert_ne!(path[i], path[j]);
        }
    }
    assert_eq!(path.last(), Some(&Position::new(4, 1)));
}

fn inside(p: Position, c: Position, r: i32) -> bool {
    (p.x - c.x).abs() <= r && (p.y - c.y).abs() <= r
}

#[test]
fn recalculated_paths_go_around_the_avoided_square() {
    let w = world(&["fffff", "fffff", "fffff", "fffff", "fffff"]);
    let goal = Position::new(4, 2);
    let centre = Position::new(2, 2);
    let r = recalculate_path_around_position(&w, vec![Position::new(0, 2)], centre, 1, goal);
    assert_eq!(r.last(), Some(&goal));
    assert!(is_walk(Position::new(0, 2), &r));
    assert!(r.iter().all(|p| !inside(*p, centre, 1)));
}

#[test]
fn recalculated_paths_go_around_every_area() {
    let w = world(&["fffffff", "fffffff", "fffffff", "fffffff", "fffffff"]);
    let goal = Position::new(6, 2);
    let areas = vec![(Position::new(2, 1), 1), (Position::new(4, 3), 0)];
    let r = recalculate_path_around_multiple_positions(&w, vec![Position::new(0, 4)], areas.clone(), goal);
    assert_eq!(r.last(), Some(&goal));
    assert!(is_walk(Position::new(0, 4), &r));
    assert!(r.iter().all(|p| areas.iter().all(|(c, rad)| !inside(*p, *c, *rad))));
}

#[test]
fn recalculation_into_an_avoided_square_still_arrives() {
    let w = world(&["fffff", "fffff", "fffff", "fffff", "fffff"]);
    let goal = Position::new(2, 2);
    let r = recalculate_path_around_position(&w, vec![Position::new(0, 0)], Position::new(3, 3), 1, goal);
    assert_eq!(r.last(), Some(&goal));
}
