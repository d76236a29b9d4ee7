//! Tests of the screen state and the viewport computation.

use dungeon_core::screen::{Screen, ScreenType, COLUMN_WIDTH, ROW_HEIGHT};

#[test]
fn header_round_trips() {
    let mut screen = Screen::default();
    assert_eq!(screen.get_header(), "");
    screen.set_header("Dungeon Crawler");
    assert_eq!(screen.get_header(), "Dungeon Crawler");
}

#[test]
fn texts_are_stored_independently() {
    let mut screen = Screen::default();
    screen.set_header("head");
    screen.set_footer("foot");
    screen.set_msg("hello");
    assert_eq!(screen.header, "head");
    assert_eq!(screen.footer, "foot");
    assert_eq!(screen.msg, "hello");
    assert_eq!(screen.screen_type, ScreenType::Display);
}

#[test]
fn default_buffer_is_blank() {
    let screen = Screen::default();
    assert_eq!(screen.buffer.len(), ROW_HEIGHT);
    for row in screen.buffer.iter() {
        assert_eq!(row.len(), COLUMN_WIDTH);
        assert!(row.iter().all(|c| *c == ' '));
    }
}

#[test]
fn viewport_centers_on_the_player() {
    let mut screen = Screen::default();
    // a 3x3 map with distinct corners
    let map = vec![
        vec!['a', 'b', 'c'],
        vec!['d', 'e', 'f'],
        vec!['g', 'h', 'i'],
    ];
    screen.set_map(map, 1, 1);
    let msg: Vec<char> = screen.msg.chars().collect();
    // 21 rows of 80 columns joined by 20 newlines
    assert_eq!(msg.len(), 21 * 80 + 20);
    let rows: Vec<&str> = screen.msg.split('\n').collect();
    assert_eq!(rows.len(), 21);
    for row in rows.iter() {
        assert_eq!(row.len(), 80);
    }
    // the player marker replaces the map symbol at the center
    let center_row: Vec<char> = rows[10].chars().collect();
    assert_eq!(center_row[40], '@');
    // the map's corner symbols sit around the marker
    let above: Vec<char> = rows[9].chars().collect();
    assert_eq!(above[39], 'a');
    assert_eq!(above[40], 'b');
    assert_eq!(above[41], 'c');
    let below: Vec<char> = rows[11].chars().collect();
    assert_eq!(below[39], 'g');
    assert_eq!(below[41], 'i');
    assert_eq!(center_row[39], 'd');
    assert_eq!(center_row[41], 'f');
    // beyond the map the viewport is blank
    assert_eq!(above[42], ' ');
    assert_eq!(center_row[0], ' ');
}

#[test]
fn viewport_handles_positions_near_the_origin() {
    let mut screen = Screen::default();
    let map = vec![vec!['x'; 3]; 3];
    // the viewport's top-left lies far in the negative range
    screen.set_map(map, 0, 0);
    let rows: Vec<&str> = screen.msg.split('\n').collect();
    let center: Vec<char> = rows[10].chars().collect();
    assert_eq!(center[40], '@');
    assert_eq!(center[39], ' ');
    assert_eq!(center[41], 'x');
}
