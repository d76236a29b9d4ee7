//! Tests of the field-of-view computation and the rendered symbol map.

use dungeon_core::levels::level::{Level, Tile, TileType};
use dungeon_core::utils::Point;

fn open_tile() -> Tile {
    Tile { tile: TileType::Floor, seen: false }
}

fn wall_tile() -> Tile {
    Tile { tile: TileType::Wall, seen: false }
}

/// A 5-row, 7-column level of open floor with a full wall down column 2.
fn walled_level() -> Level {
    let mut tiles: Vec<Vec<Tile>> = vec![vec![open_tile(); 7]; 5];
    for row in tiles.iter_mut() {
        row[2] = wall_tile();
    }
    Level {
        columns: 7,
        rows: 5,
        tiles,
        exit: Point { col: 6, row: 4 },
        entrance: Point { col: 4, row: 2 },
    }
}

#[test]
fn player_cell_renders_visible() {
    let mut level = walled_level();
    let entrance = level.entrance();
    let m = level.map_vec(&entrance);
    assert_eq!(m[entrance.row][entrance.col], '.');
}

#[test]
fn cells_behind_a_wall_render_unseen() {
    let mut level = walled_level();
    let entrance = level.entrance();
    let m = level.map_vec(&entrance);
    // the wall right next to the player is in view
    assert_eq!(m[2][2], '#');
    // everything beyond the wall has never come into view
    for y in 0..5 {
        for x in 0..2 {
            assert_eq!(m[y][x], ' ', "cell ({}, {}) should be blank", x, y);
        }
    }
}

#[test]
fn open_cells_around_the_player_render_in_view() {
    let mut level = walled_level();
    let m = level.map_vec(&Point { col: 4, row: 2 });
    assert_eq!(m.len(), 5);
    for row in m.iter() {
        assert_eq!(row.len(), 7);
    }
    assert_eq!(m[2][3], '.');
    assert_eq!(m[2][5], '.');
    assert_eq!(m[0][4], '.');
    assert_eq!(m[4][6], '.');
}

#[test]
fn stairs_render_when_in_view() {
    let mut level = walled_level();
    level.tiles[4][6] = Tile { tile: TileType::StairDown, seen: false };
    level.tiles[0][4] = Tile { tile: TileType::StairUp, seen: false };
    let m = level.map_vec(&Point { col: 4, row: 2 });
    assert_eq!(m[4][6], '>');
    assert_eq!(m[0][4], '<');
}

#[test]
fn seen_cells_stay_seen() {
    let mut level = walled_level();
    let _ = level.map_vec(&Point { col: 4, row: 2 });
    let mut seen_before: Vec<(usize, usize)> = Vec::new();
    for y in 0..5 {
        for x in 0..7 {
            if level.is_seen_at(x, y).unwrap() {
                seen_before.push((x, y));
            }
        }
    }
    assert!(!seen_before.is_empty());
    // render again from other positions; nothing is ever un-seen
    let _ = level.map_vec(&Point { col: 6, row: 4 });
    let _ = level.map_vec(&Point { col: 3, row: 0 });
    for (x, y) in seen_before {
        assert!(level.is_seen_at(x, y).unwrap());
    }
}

#[test]
fn remembered_floor_renders_dim_when_out_of_view() {
    // a long corridor: the far end leaves view range once the player
    // walks away, but stays remembered
    let length: usize = 100;
    let tiles: Vec<Vec<Tile>> = vec![vec![open_tile(); length]; 1];
    let mut level = Level {
        columns: length,
        rows: 1,
        tiles,
        exit: Point { col: 0, row: 0 },
        entrance: Point { col: 0, row: 0 },
    };
    let _ = level.map_vec(&Point { col: 0, row: 0 });
    assert!(level.is_seen_at(30, 0).unwrap());
    // from the far end, cell 30 is out of view range but remembered
    let m = level.map_vec(&Point { col: 99, row: 0 });
    assert_eq!(m[0][30], ':');
    // and cells that were never in view from either end stay blank
    assert_eq!(m[0][50], ' ');
}

#[test]
fn update_visibility_and_render_split_agrees() {
    let mut level = walled_level();
    let player = Point { col: 4, row: 2 };
    let visible = level.update_visibility(&player);
    assert!(visible[2][4]);
    assert!(!visible[2][0]);
    let m = level.render_symbols(&visible);
    assert_eq!(m[2][4], '.');
    assert_eq!(m[2][0], ' ');
}

#[test]
fn view_range_ends_at_the_view_distance() {
    // a long open corridor: the view reaches exactly 33 cells
    let length: usize = 80;
    let tiles: Vec<Vec<Tile>> = vec![vec![open_tile(); length]; 1];
    let mut level = Level {
        columns: length,
        rows: 1,
        tiles,
        exit: Point { col: 0, row: 0 },
        entrance: Point { col: 0, row: 0 },
    };
    let _ = level.map_vec(&Point { col: 0, row: 0 });
    assert!(level.is_seen_at(33, 0).unwrap());
    assert!(!level.is_seen_at(34, 0).unwrap());
}

#[test]
fn view_range_is_anisotropic() {
    // the range check weights columns half: at equal offsets the view
    // reaches farther along a row than down a column
    let tiles: Vec<Vec<Tile>> = vec![vec![open_tile(); 71]; 71];
    let mut level = Level {
        columns: 71,
        rows: 71,
        tiles,
        exit: Point { col: 0, row: 0 },
        entrance: Point { col: 35, row: 35 },
    };
    let _ = level.map_vec(&Point { col: 35, row: 35 });
    // 33 columns and 20 rows away: within range
    assert!(level.is_seen_at(35 + 33, 35 + 20).unwrap());
    // 20 columns and 33 rows away: the mirrored offset is out of range
    assert!(!level.is_seen_at(35 + 20, 35 + 33).unwrap());
}
