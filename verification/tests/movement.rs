//! Tests of movement legality on hand-built levels.

use dungeon_core::levels::level::generation::empty_out_hallway_and_new_room;
use dungeon_core::levels::level::{Level, LevelError, Tile, TileType};
use dungeon_core::rng::GameRng;
use dungeon_core::utils::Point;

fn open_tile() -> Tile {
    Tile { tile: TileType::Floor, seen: false }
}

fn wall_tile() -> Tile {
    Tile { tile: TileType::Wall, seen: false }
}

/// A 5x5 level of open floor with a wall at (2, 2) and (2, 1).
fn test_level() -> Level {
    let mut tiles: Vec<Vec<Tile>> = vec![vec![open_tile(); 5]; 5];
    tiles[2][2] = wall_tile();
    tiles[1][2] = wall_tile();
    Level {
        columns: 5,
        rows: 5,
        tiles,
        exit: Point { col: 4, row: 4 },
        entrance: Point { col: 1, row: 1 },
    }
}

fn p(col: usize, row: usize) -> Point {
    Point { col, row }
}

#[test]
fn staying_in_place_is_allowed() {
    let level = test_level();
    assert_eq!(level.can_move_to(p(1, 1), p(1, 1)), Ok(true));
}

#[test]
fn orthogonal_step_onto_floor_is_allowed() {
    let level = test_level();
    assert_eq!(level.can_move_to(p(1, 2), p(1, 1)), Ok(true));
    assert_eq!(level.can_move_to(p(0, 1), p(1, 1)), Ok(true));
}

#[test]
fn orthogonal_step_onto_wall_is_refused() {
    let level = test_level();
    assert_eq!(level.can_move_to(p(2, 2), p(1, 2)), Ok(false));
    assert_eq!(level.can_move_to(p(2, 1), p(2, 0)), Ok(false));
}

#[test]
fn diagonal_step_needs_an_open_corner() {
    let level = test_level();
    // from (1, 2) to (2, 3): corners (2, 2) wall and (1, 3) open
    assert_eq!(level.can_move_to(p(2, 3), p(1, 2)), Ok(true));
    // a diagonal step onto a wall is refused regardless of the corners
    assert_eq!(level.can_move_to(p(2, 1), p(3, 0)), Ok(false));
    assert_eq!(level.can_move_to(p(2, 1), p(3, 2)), Ok(false));
}

#[test]
fn diagonal_step_through_a_solid_corner_is_refused() {
    // walls above and left of the destination pinch the diagonal shut
    let mut tiles: Vec<Vec<Tile>> = vec![vec![open_tile(); 4]; 4];
    tiles[1][2] = wall_tile();
    tiles[2][1] = wall_tile();
    let level = Level {
        columns: 4,
        rows: 4,
        tiles,
        exit: Point { col: 3, row: 3 },
        entrance: Point { col: 1, row: 1 },
    };
    // move from (1, 1) to (2, 2): both corners (2, 1) and (1, 2) are walls
    assert_eq!(level.can_move_to(p(2, 2), p(1, 1)), Ok(false));
}

#[test]
fn long_moves_are_refused() {
    let level = test_level();
    assert_eq!(level.can_move_to(p(3, 1), p(1, 1)), Ok(false));
    assert_eq!(level.can_move_to(p(4, 4), p(0, 0)), Ok(false));
}

#[test]
fn out_of_bounds_moves_fail() {
    let level = test_level();
    // a single step off the grid
    assert_eq!(level.can_move_to(p(5, 4), p(4, 4)), Err(LevelError::OutOfBounds));
    // staying in place off the grid reads nothing, as in a no-op move
    assert_eq!(level.can_move_to(p(9, 9), p(9, 9)), Ok(true));
    // far-apart points read nothing either
    assert_eq!(level.can_move_to(p(9, 9), p(0, 0)), Ok(false));
}

#[test]
fn movement_is_a_pure_function_of_grid_and_points() {
    let mut level = test_level();
    let before = level.can_move_to(p(2, 3), p(1, 2));
    // other queries and even a render in between do not change the answer
    let _ = level.can_move_to(p(0, 0), p(1, 1));
    let _ = level.map_vec(&p(1, 1));
    let _ = level.can_move_to(p(1, 2), p(2, 3));
    let after = level.can_move_to(p(2, 3), p(1, 2));
    assert_eq!(before, after);
}

#[test]
fn stair_queries_fail_off_the_grid() {
    let level = test_level();
    assert_eq!(level.is_stair_down_at(5, 0), Err(LevelError::OutOfBounds));
    assert_eq!(level.is_stair_up_at(0, 5), Err(LevelError::OutOfBounds));
    assert_eq!(level.tile_at(17, 17), Err(LevelError::OutOfBounds));
    assert_eq!(level.is_seen_at(17, 17), Err(LevelError::OutOfBounds));
}

#[test]
fn hallway_carving_refuses_bad_doorways() {
    let mut rng = GameRng::from_seed(21);
    // an all-wall level with one open patch in the middle
    let mut tiles: Vec<Vec<Tile>> = vec![vec![wall_tile(); 40]; 40];
    for y in 15..20 {
        for x in 15..20 {
            tiles[y][x] = open_tile();
        }
    }
    let mut level = Level {
        columns: 40,
        rows: 40,
        tiles,
        exit: Point { col: 17, row: 17 },
        entrance: Point { col: 17, row: 17 },
    };
    let snapshot: Vec<Vec<Tile>> = level.tiles.clone();
    // a doorway too close to the edge is refused
    assert!(!empty_out_hallway_and_new_room(&mut level, &mut rng, 1, 17, 7, 7));
    assert_eq!(level.tiles, snapshot);
    // a doorway on open floor is refused
    assert!(!empty_out_hallway_and_new_room(&mut level, &mut rng, 17, 17, 7, 7));
    assert_eq!(level.tiles, snapshot);
    // a doorway deep in stone, nowhere near a floor boundary, is refused
    assert!(!empty_out_hallway_and_new_room(&mut level, &mut rng, 5, 5, 7, 7));
    assert_eq!(level.tiles, snapshot);
}
