//! Tests of the geometry utilities, the dice roller and the text helpers.

use dungeon_core::rng::GameRng;
use dungeon_core::utils::{
    count_newlines, d, strip_trailing_newline, vec_between_points, CompoundTime, Point,
};

fn p(col: usize, row: usize) -> Point {
    Point { col, row }
}

#[test]
fn line_covers_a_horizontal_run() {
    let line = vec_between_points(&p(2, 5), &p(6, 5));
    assert_eq!(line.len(), 5);
    assert_eq!(line[0], p(2, 5));
    assert_eq!(line[4], p(6, 5));
    for (i, cell) in line.iter().enumerate() {
        assert_eq!(*cell, p(2 + i, 5));
    }
}

#[test]
fn line_covers_a_vertical_run_downwards_and_upwards() {
    let down = vec_between_points(&p(3, 1), &p(3, 4));
    assert_eq!(down.len(), 4);
    assert_eq!(down[0], p(3, 1));
    assert_eq!(down[3], p(3, 4));
    let up = vec_between_points(&p(3, 4), &p(3, 1));
    assert_eq!(up.len(), 4);
    assert_eq!(up[0], p(3, 4));
    assert_eq!(up[3], p(3, 1));
}

#[test]
fn line_walks_a_diagonal() {
    let line = vec_between_points(&p(0, 0), &p(3, 3));
    assert_eq!(line.len(), 4);
    for (i, cell) in line.iter().enumerate() {
        assert_eq!(*cell, p(i, i));
    }
}

#[test]
fn line_of_one_cell() {
    let line = vec_between_points(&p(7, 7), &p(7, 7));
    assert_eq!(line.len(), 1);
    assert_eq!(line[0], p(7, 7));
}

#[test]
fn line_stays_within_the_bounding_box() {
    let a = p(10, 3);
    let b = p(2, 9);
    let line = vec_between_points(&a, &b);
    assert_eq!(line.len(), 9);
    assert_eq!(line[0], a);
    assert_eq!(line[8], b);
    for cell in line.iter() {
        assert!(cell.col >= 2 && cell.col <= 10);
        assert!(cell.row >= 3 && cell.row <= 9);
    }
}

#[test]
fn dice_rolls_stay_on_the_die() {
    let mut rng = GameRng::from_seed(99);
    for _ in 0..200 {
        let roll = d(&mut rng, 6);
        assert!((1..=6).contains(&roll));
    }
    assert_eq!(d(&mut rng, 0), 0);
    for _ in 0..20 {
        assert_eq!(d(&mut rng, 1), 1);
    }
}

#[test]
fn seeded_rolls_are_reproducible() {
    let mut a = GameRng::from_seed(1234);
    let mut b = GameRng::from_seed(1234);
    for _ in 0..50 {
        assert_eq!(a.random_range(0, 1000), b.random_range(0, 1000));
    }
}

#[test]
fn newline_counting_follows_grapheme_clusters() {
    assert_eq!(count_newlines(""), 1);
    assert_eq!(count_newlines("one line"), 1);
    assert_eq!(count_newlines("a\nb"), 2);
    assert_eq!(count_newlines("a\nb\nc\n"), 4);
    // a \r\n pair is one cluster that is not a bare newline
    assert_eq!(count_newlines("a\r\nb"), 1);
}

#[test]
fn trailing_newlines_are_stripped() {
    assert_eq!(strip_trailing_newline("abc\n"), "abc");
    assert_eq!(strip_trailing_newline("abc\r\n"), "abc");
    assert_eq!(strip_trailing_newline("abc"), "abc");
    assert_eq!(strip_trailing_newline("\n"), "");
    assert_eq!(strip_trailing_newline("a\nb\n"), "a\nb");
    assert_eq!(strip_trailing_newline(""), "");
}

#[test]
fn compound_time_balances_seconds() {
    let t = CompoundTime::new(90061);
    assert_eq!((t.d, t.h, t.m, t.s), (1, 1, 1, 1));
    let t = CompoundTime::new(0);
    assert_eq!((t.d, t.h, t.m, t.s), (0, 0, 0, 0));
    let t = CompoundTime::new(59);
    assert_eq!((t.d, t.h, t.m, t.s), (0, 0, 0, 59));
    let t = CompoundTime::new(60);
    assert_eq!((t.d, t.h, t.m, t.s), (0, 0, 1, 0));
    let t = CompoundTime::new(86399);
    assert_eq!((t.d, t.h, t.m, t.s), (0, 23, 59, 59));
}

#[test]
fn balance_keeps_the_total() {
    let mut t = CompoundTime { d: 0, h: 0, m: 119, s: 61 };
    t.balance();
    assert_eq!((t.d, t.h, t.m, t.s), (0, 2, 0, 1));
}
