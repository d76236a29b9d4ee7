//! Tests of level generation: sizing, stairway layout and connectivity.

use dungeon_core::levels::level::connectivity::is_fully_connected;
use dungeon_core::levels::level::generation::{generate, generate_width_and_height};
use dungeon_core::levels::level::{Level, TileType};
use dungeon_core::rng::GameRng;

fn gen_level(n: usize, seed: u64) -> Level {
    let mut rng = GameRng::from_seed(seed);
    generate(n, &mut rng).expect("generation should succeed")
}

fn count_stairs(level: &Level) -> (usize, usize) {
    let mut down: usize = 0;
    let mut up: usize = 0;
    for y in 0..level.height() {
        for x in 0..level.width() {
            match level.tile_at(x, y).unwrap() {
                TileType::StairDown => down += 1,
                TileType::StairUp => up += 1,
                _ => {}
            }
        }
    }
    (down, up)
}

#[test]
fn level_zero_matches_logistic_sizing() {
    let level = gen_level(0, 1);
    assert_eq!(level.height(), 91);
    assert_eq!(level.width(), 182);
    let (down, up) = count_stairs(&level);
    assert_eq!(down, 1);
    assert_eq!(up, 0);
    assert!(is_fully_connected(&level));
}

#[test]
fn deeper_level_has_one_up_stair_at_entrance() {
    let level = gen_level(1, 7);
    let (down, up) = count_stairs(&level);
    assert_eq!(down, 1);
    assert_eq!(up, 1);
    let entrance = level.entrance();
    assert_eq!(
        level.tile_at(entrance.col, entrance.row).unwrap(),
        TileType::StairUp
    );
    assert!(level.is_stair_up_at(entrance.col, entrance.row).unwrap());
}

#[test]
fn exit_marks_the_single_down_stair() {
    let level = gen_level(0, 3);
    let exit = level.exit();
    assert_eq!(level.tile_at(exit.col, exit.row).unwrap(), TileType::StairDown);
    assert!(level.is_stair_down_at(exit.col, exit.row).unwrap());
    // no other cell is a down stair
    for y in 0..level.height() {
        for x in 0..level.width() {
            if x != exit.col || y != exit.row {
                assert!(!level.is_stair_down_at(x, y).unwrap());
            }
        }
    }
}

#[test]
fn entrance_is_walkable_on_level_zero() {
    let level = gen_level(0, 11);
    let entrance = level.entrance();
    assert_eq!(entrance.col, level.width() / 2);
    assert_eq!(entrance.row, level.height() / 2);
    let t = level.tile_at(entrance.col, entrance.row).unwrap();
    assert!(t == TileType::Floor || t == TileType::StairDown);
}

#[test]
fn sizing_is_monotonic_and_width_is_twice_height() {
    let mut prev_height: usize = 0;
    for n in 0..30 {
        let (w, h) = generate_width_and_height(n);
        assert!(h >= prev_height);
        assert_eq!(w, 2 * h);
        prev_height = h;
    }
    assert_eq!(generate_width_and_height(0), (182, 91));
    assert_eq!(generate_width_and_height(1), (350, 175));
    assert_eq!(generate_width_and_height(5), (1620, 810));
    assert_eq!(generate_width_and_height(14), (2000, 1000));
    assert_eq!(generate_width_and_height(40), (2000, 1000));
}

#[test]
fn every_walkable_cell_is_reachable_from_entrance() {
    let level = gen_level(0, 5);
    // an independent flood fill over the movement queries
    let w = level.width();
    let h = level.height();
    let entrance = level.entrance();
    let mut visited = vec![vec![false; w]; h];
    let mut stack: Vec<(usize, usize)> = Vec::new();
    assert_ne!(level.tile_at(entrance.col, entrance.row).unwrap(), TileType::Wall);
    visited[entrance.row][entrance.col] = true;
    stack.push((entrance.col, entrance.row));
    while let Some((cx, cy)) = stack.pop() {
        let mut neighbors: Vec<(usize, usize)> = Vec::new();
        if cx > 0 {
            neighbors.push((cx - 1, cy));
        }
        if cx + 1 < w {
            neighbors.push((cx + 1, cy));
        }
        if cy > 0 {
            neighbors.push((cx, cy - 1));
        }
        if cy + 1 < h {
            neighbors.push((cx, cy + 1));
        }
        for (nx, ny) in neighbors {
            if !visited[ny][nx] && level.tile_at(nx, ny).unwrap() != TileType::Wall {
                visited[ny][nx] = true;
                stack.push((nx, ny));
            }
        }
    }
    for y in 0..h {
        for x in 0..w {
            if level.tile_at(x, y).unwrap() != TileType::Wall {
                assert!(visited[y][x], "walkable cell ({}, {}) unreachable", x, y);
            }
        }
    }
    // and the library's own checker agrees
    assert!(is_fully_connected(&level));
}

#[test]
fn generation_starts_with_nothing_seen() {
    let level = gen_level(0, 9);
    for y in 0..level.height() {
        for x in 0..level.width() {
            assert!(!level.is_seen_at(x, y).unwrap());
        }
    }
}

#[test]
fn border_rows_and_columns_stay_wall() {
    let level = gen_level(0, 13);
    let w = level.width();
    let h = level.height();
    for x in 0..w {
        assert_eq!(level.tile_at(x, 0).unwrap(), TileType::Wall);
        assert_eq!(level.tile_at(x, h - 1).unwrap(), TileType::Wall);
    }
    for y in 0..h {
        assert_eq!(level.tile_at(0, y).unwrap(), TileType::Wall);
        assert_eq!(level.tile_at(w - 1, y).unwrap(), TileType::Wall);
    }
}

#[test]
fn exit_sits_in_open_ground_away_from_the_edge() {
    let level = gen_level(1, 17);
    let exit = level.exit();
    assert!(2 <= exit.col && exit.col <= level.width() - 2);
    assert!(2 <= exit.row && exit.row <= level.height() - 2);
    for dy in 0..3usize {
        for dx in 0..3usize {
            if (dx, dy) != (1, 1) {
                assert_eq!(
                    level.tile_at(exit.col + dx - 1, exit.row + dy - 1).unwrap(),
                    TileType::Floor
                );
            }
        }
    }
}
