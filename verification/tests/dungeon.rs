//! Tests of the level collection: lazy, gapless generation and forwarding.

use dungeon_core::levels::{DungeonError, Levels};
use dungeon_core::rng::GameRng;
use dungeon_core::utils::Point;

#[test]
fn requesting_level_five_generates_all_six() {
    let mut levels = Levels::default();
    let mut rng = GameRng::from_seed(1);
    assert_eq!(levels.len(), 0);
    levels.level(5, &mut rng).expect("generation should succeed");
    assert_eq!(levels.len(), 6);
}

#[test]
fn levels_are_generated_lazily_and_in_order() {
    let mut levels = Levels::default();
    let mut rng = GameRng::from_seed(2);
    levels.level(1, &mut rng).expect("generation should succeed");
    assert_eq!(levels.len(), 2);
    // asking again for a generated level adds nothing
    levels.level(0, &mut rng).expect("level 0 exists");
    levels.level(1, &mut rng).expect("level 1 exists");
    assert_eq!(levels.len(), 2);
    levels.level(2, &mut rng).expect("generation should succeed");
    assert_eq!(levels.len(), 3);
}

#[test]
fn generated_levels_are_kept_unchanged() {
    let mut levels = Levels::default();
    let mut rng = GameRng::from_seed(3);
    let start1 = levels.level_start_position(1, &mut rng).unwrap();
    let exit1 = levels.level_exit_position(1, &mut rng).unwrap();
    levels.level(2, &mut rng).expect("generation should succeed");
    assert_eq!(levels.level_start_position(1, &mut rng).unwrap(), start1);
    assert_eq!(levels.level_exit_position(1, &mut rng).unwrap(), exit1);
}

#[test]
fn start_and_exit_positions_forward_to_the_level() {
    let mut levels = Levels::default();
    let mut rng = GameRng::from_seed(4);
    let start = levels.level_start_position(0, &mut rng).unwrap();
    let exit = levels.level_exit_position(0, &mut rng).unwrap();
    let level = levels.level(0, &mut rng).unwrap();
    assert_eq!(start, level.entrance());
    assert_eq!(exit, level.exit());
    assert_eq!(start, Point { col: level.width() / 2, row: level.height() / 2 });
}

#[test]
fn dungeon_map_renders_the_requested_level() {
    let mut levels = Levels::default();
    let mut rng = GameRng::from_seed(5);
    let start = levels.level_start_position(0, &mut rng).unwrap();
    let m = levels.map_vec(0, &start, &mut rng).expect("render should succeed");
    let level = levels.level(0, &mut rng).unwrap();
    assert_eq!(m.len(), level.height());
    assert_eq!(m[0].len(), level.width());
    // the spawn cell is in view: open floor, or the down stair if it
    // happened to be placed exactly there
    let c = m[start.row][start.col];
    assert!(c == '.' || c == '>');
}

#[test]
fn dungeon_map_rejects_positions_off_the_level() {
    let mut levels = Levels::default();
    let mut rng = GameRng::from_seed(6);
    let off = Point { col: 1_000_000, row: 1_000_000 };
    assert_eq!(levels.map_vec(0, &off, &mut rng), Err(DungeonError::OutOfBounds));
}

#[test]
fn memory_persists_across_renders_through_the_collection() {
    let mut levels = Levels::default();
    let mut rng = GameRng::from_seed(8);
    let start = levels.level_start_position(0, &mut rng).unwrap();
    let first = levels.map_vec(0, &start, &mut rng).expect("render should succeed");
    // walk one cell and render again: everything drawn before stays drawn
    let moved = Point { col: start.col + 1, row: start.row };
    let second = levels.map_vec(0, &moved, &mut rng).expect("render should succeed");
    for (y, row) in first.iter().enumerate() {
        for (x, c) in row.iter().enumerate() {
            if *c != ' ' {
                assert_ne!(second[y][x], ' ', "cell ({}, {}) was forgotten", x, y);
            }
        }
    }
}
