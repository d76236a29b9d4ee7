//! Geometry utilities: grid points and line rasterization.
//!
//! `vec_between_points` produces the ordered sequence of grid cells between
//! two points (Bresenham), used by the visibility engine to cast rays.

use vstd::prelude::*;
use crate::rng::GameRng;

verus! {

/// Largest coordinate the line rasterizer accepts; keeps its internal
/// signed arithmetic far away from overflow.
pub const MAX_COORD: usize = 0x1000_0000;

/// A position on the game grid, addressed as (column, row).
#[derive(Clone, Copy, Debug, Default, PartialEq, Eq, Structural)]
pub struct Point {
    pub col: usize,
    pub row: usize,
}

/// Absolute difference of two coordinates.
pub open spec fn abs_diff(a: int, b: int) -> int {
    if a >= b {
        a - b
    } else {
        b - a
    }
}

/// `p` lies within the axis-aligned bounding box of `a` and `b`.
pub open spec fn in_box(p: Point, a: Point, b: Point) -> bool {
    &&& (a.col <= p.col || b.col <= p.col)
    &&& (p.col <= a.col || p.col <= b.col)
    &&& (a.row <= p.row || b.row <= p.row)
    &&& (p.row <= a.row || p.row <= b.row)
}

/// Consecutive cells of a rasterized line differ by at most one in each axis.
pub open spec fn chebyshev_adjacent_steps(line: Seq<Point>) -> bool {
    forall|i: int|
        0 <= i < line.len() - 1 ==> abs_diff((#[trigger] line[i]).col as int, line[i + 1].col as int)
            <= 1 && abs_diff(line[i].row as int, line[i + 1].row as int) <= 1
}

/// Along the line, both coordinates move monotonically away from the
/// start: a later cell is never nearer on either axis.
pub open spec fn recedes_from_start(line: Seq<Point>, start: Point) -> bool {
    forall|i: int, j: int|
        #![trigger line[i], line[j]]
        0 <= i <= j < line.len() ==> abs_diff(line[i].row as int, start.row as int) <= abs_diff(
            line[j].row as int,
            start.row as int,
        ) && abs_diff(line[i].col as int, start.col as int) <= abs_diff(
            line[j].col as int,
            start.col as int,
        )
}

/// How far the rasterizer's minor coordinate `cur` has stepped from its
/// start `base`, counted positive in the direction of travel.
pub open spec fn minor_steps(base: int, cur: int, up: bool) -> int {
    if up {
        cur - base
    } else {
        base - cur
    }
}

/// Generates the cells of a line whose column grows by one per cell
/// (slope magnitude at most one), from `p0` to `p1`.
fn vec_between_points_low(p0: &Point, p1: &Point) -> (line: Vec<Point>)
    requires
        p0.col <= p1.col,
        p1.col <= MAX_COORD,
        p0.row <= MAX_COORD,
        p1.row <= MAX_COORD,
        abs_diff(p1.row as int, p0.row as int) <= p1.col - p0.col,
    ensures
        line@.len() == p1.col - p0.col + 1,
        forall|i: int| 0 <= i < line@.len() ==> (#[trigger] line@[i]).col == p0.col + i,
        forall|i: int| 0 <= i < line@.len() ==> in_box(#[trigger] line@[i], *p0, *p1),
        line@[0] == *p0,
        line@[line@.len() - 1] == *p1,
        chebyshev_adjacent_steps(line@),
        recedes_from_start(line@, *p0),
        forall|i: int, j: int|
            #![trigger line@[i], line@[j]]
            0 <= i <= j < line@.len() ==> (p1.row >= p0.row ==> line@[i].row <= line@[j].row) && (
            p1.row <= p0.row ==> line@[i].row >= line@[j].row),
        forall|i: int|
            0 <= i < line@.len() - 1 ==> #[trigger] line@[i] != line@[i + 1],
{
    let ghost up = p1.row >= p0.row;
    let dx: i64 = (p1.col - p0.col) as i64;
    let mut dy: i64 = p1.row as i64 - p0.row as i64;
    let mut yi: i64 = 1;
    if dy < 0 {
        yi = -1;
        dy = -dy;
    }
    let mut diff: i64 = (2 * dy) - dx;
    let mut y: i64 = p0.row as i64;

    proof {
        assert(2 * dy * (0 + 1) == 2 * dy && 2 * dx * 0 == 0) by (nonlinear_arith);
    }

    let mut line: Vec<Point> = Vec::new();
    let mut x: usize = p0.col;
    while x <= p1.col
        invariant
            p0.col <= x <= p1.col + 1,
            p1.col <= MAX_COORD,
            p0.row <= MAX_COORD,
            p1.row <= MAX_COORD,
            dx == p1.col - p0.col,
            dy == abs_diff(p1.row as int, p0.row as int),
            0 <= dy <= dx,
            up == (p1.row >= p0.row),
            yi == (if up {
                1int
            } else {
                -1int
            }),
            0 <= minor_steps(p0.row as int, y as int, up),
            dy == 0 ==> y == p0.row,
            diff == 2 * dy * ((x - p0.col) + 1) - dx - 2 * dx * minor_steps(
                p0.row as int,
                y as int,
                up,
            ),
            x <= p1.col ==> 2 * dy * (x - p0.col) - dx <= 2 * dx * minor_steps(
                p0.row as int,
                y as int,
                up,
            ) <= 2 * dy * (x - p0.col) + dx,
            x <= p1.col ==> minor_steps(p0.row as int, y as int, up) <= dy,
            line@.len() == x - p0.col,
            forall|i: int| 0 <= i < line@.len() ==> (#[trigger] line@[i]).col == p0.col + i,
            forall|i: int| 0 <= i < line@.len() ==> in_box(#[trigger] line@[i], *p0, *p1),
            line@.len() > 0 ==> line@[0] == *p0,
            line@.len() > 0 && x <= p1.col ==> abs_diff(line@[line@.len() - 1].row as int, y as int)
                <= 1,
            x > p1.col ==> line@.len() > 0 && line@[line@.len() - 1] == *p1,
            chebyshev_adjacent_steps(line@),
            forall|i: int|
                0 <= i < line@.len() ==> (up ==> p0.row <= (#[trigger] line@[i]).row as int
                    <= y as int) && (!up ==> y as int <= line@[i].row as int <= p0.row as int),
            forall|i: int, j: int|
                #![trigger line@[i], line@[j]]
                0 <= i <= j < line@.len() ==> (up ==> line@[i].row <= line@[j].row) && (!up
                    ==> line@[i].row >= line@[j].row),
        decreases p1.col + 1 - x,
    {
        let ghost k = x - p0.col;
        let ghost j = minor_steps(p0.row as int, y as int, up);
        proof {
            assert(0 <= j <= dy);
            if up {
                assert(p0.row <= y <= p1.row);
            } else {
                assert(p1.row <= y <= p0.row);
            }
            if k == 0 {
                // the first pushed cell is exactly p0
                assert(j == 0) by (nonlinear_arith)
                    requires
                        0 <= j,
                        2 * dy * 0 - dx <= 2 * dx * j <= 2 * dy * 0 + dx,
                        0 <= dy <= dx,
                        dy == 0 ==> j == 0,
                ;
                assert(y == p0.row);
            }
        }
        let ghost push_row = y as int;
        line.push(Point { col: x, row: y as usize });
        let ghost old_diff = diff;
        if diff > 0 {
            y += yi;
            diff += 2 * (dy - dx);
        } else {
            diff += 2 * dy;
        }
        x += 1;
        proof {
            let jn = minor_steps(p0.row as int, y as int, up);
            assert(dy == 0 ==> old_diff <= 0) by (nonlinear_arith)
                requires
                    old_diff == 2 * dy * (k + 1) - dx - 2 * dx * j,
                    dy == 0 ==> j == 0,
                    dx >= 0,
                    j >= 0,
            ;
            assert((old_diff > 0 ==> jn == j + 1) && (old_diff <= 0 ==> jn == j));
            assert(dy == 0 ==> jn == 0);
            // the diff bookkeeping equation is preserved
            assert(diff == 2 * dy * (k + 2) - dx - 2 * dx * jn) by (nonlinear_arith)
                requires
                    old_diff == 2 * dy * (k + 1) - dx - 2 * dx * j,
                    old_diff > 0 ==> (jn == j + 1 && diff == old_diff + 2 * (dy - dx)),
                    old_diff <= 0 ==> (jn == j && diff == old_diff + 2 * dy),
            ;
            assert(x - p0.col == k + 1);
            if x <= p1.col {
                // the two-sided accuracy bound is preserved
                assert(2 * dy * (k + 1) - dx <= 2 * dx * jn <= 2 * dy * (k + 1) + dx)
                    by (nonlinear_arith)
                    requires
                        0 <= dy <= dx,
                        jn == j || jn == j + 1,
                        jn == j + 1 ==> 2 * dy * (k + 1) - dx - 2 * dx * j > 0,
                        jn == j ==> 2 * dy * (k + 1) - dx - 2 * dx * j <= 0,
                        2 * dy * k - dx <= 2 * dx * j <= 2 * dy * k + dx,
                ;
                // and the row error stays at most dy while cells remain
                assert(jn <= dy) by (nonlinear_arith)
                    requires
                        0 <= dy <= dx,
                        0 <= jn,
                        k + 1 <= dx,
                        2 * dy * (k + 1) - dx <= 2 * dx * jn,
                        2 * dx * jn <= 2 * dy * (k + 1) + dx,
                        dy == 0 ==> jn == 0,
                ;
            } else {
                // the loop is done; the cell just pushed was exactly p1
                assert(k == dx);
                assert(j == dy) by (nonlinear_arith)
                    requires
                        0 <= dy <= dx,
                        0 <= j,
                        2 * dy * dx - dx <= 2 * dx * j <= 2 * dy * dx + dx,
                        dy == 0 ==> j == 0,
                ;
                assert(push_row == p1.row);
                assert(line@[line@.len() - 1] == *p1);
            }
        }
    }
    line
}

/// Generates the cells of a line whose row grows by one per cell
/// (slope magnitude at least one), from `p0` to `p1`.
fn vec_between_points_high(p0: &Point, p1: &Point) -> (line: Vec<Point>)
    requires
        p0.row <= p1.row,
        p1.row <= MAX_COORD,
        p0.col <= MAX_COORD,
        p1.col <= MAX_COORD,
        abs_diff(p1.col as int, p0.col as int) <= p1.row - p0.row,
    ensures
        line@.len() == p1.row - p0.row + 1,
        forall|i: int| 0 <= i < line@.len() ==> (#[trigger] line@[i]).row == p0.row + i,
        forall|i: int| 0 <= i < line@.len() ==> in_box(#[trigger] line@[i], *p0, *p1),
        line@[0] == *p0,
        line@[line@.len() - 1] == *p1,
        chebyshev_adjacent_steps(line@),
        recedes_from_start(line@, *p0),
        forall|i: int, j: int|
            #![trigger line@[i], line@[j]]
            0 <= i <= j < line@.len() ==> (p1.col >= p0.col ==> line@[i].col <= line@[j].col) && (
            p1.col <= p0.col ==> line@[i].col >= line@[j].col),
        forall|i: int|
            0 <= i < line@.len() - 1 ==> #[trigger] line@[i] != line@[i + 1],
{
    let ghost up = p1.col >= p0.col;
    let dy: i64 = (p1.row - p0.row) as i64;
    let mut dx: i64 = p1.col as i64 - p0.col as i64;
    let mut xi: i64 = 1;
    if dx < 0 {
        xi = -1;
        dx = -dx;
    }
    let mut diff: i64 = (2 * dx) - dy;
    let mut x: i64 = p0.col as i64;

    proof {
        assert(2 * dx * (0 + 1) == 2 * dx && 2 * dy * 0 == 0) by (nonlinear_arith);
    }

    let mut line: Vec<Point> = Vec::new();
    let mut y: usize = p0.row;
    while y <= p1.row
        invariant
            p0.row <= y <= p1.row + 1,
            p1.row <= MAX_COORD,
            p0.col <= MAX_COORD,
            p1.col <= MAX_COORD,
            dy == p1.row - p0.row,
            dx == abs_diff(p1.col as int, p0.col as int),
            0 <= dx <= dy,
            up == (p1.col >= p0.col),
            xi == (if up {
                1int
            } else {
                -1int
            }),
            0 <= minor_steps(p0.col as int, x as int, up),
            dx == 0 ==> x == p0.col,
            diff == 2 * dx * ((y - p0.row) + 1) - dy - 2 * dy * minor_steps(
                p0.col as int,
                x as int,
                up,
            ),
            y <= p1.row ==> 2 * dx * (y - p0.row) - dy <= 2 * dy * minor_steps(
                p0.col as int,
                x as int,
                up,
            ) <= 2 * dx * (y - p0.row) + dy,
            y <= p1.row ==> minor_steps(p0.col as int, x as int, up) <= dx,
            line@.len() == y - p0.row,
            forall|i: int| 0 <= i < line@.len() ==> (#[trigger] line@[i]).row == p0.row + i,
            forall|i: int| 0 <= i < line@.len() ==> in_box(#[trigger] line@[i], *p0, *p1),
            line@.len() > 0 ==> line@[0] == *p0,
            line@.len() > 0 && y <= p1.row ==> abs_diff(line@[line@.len() - 1].col as int, x as int)
                <= 1,
            y > p1.row ==> line@.len() > 0 && line@[line@.len() - 1] == *p1,
            chebyshev_adjacent_steps(line@),
            forall|i: int|
                0 <= i < line@.len() ==> (up ==> p0.col <= (#[trigger] line@[i]).col as int
                    <= x as int) && (!up ==> x as int <= line@[i].col as int <= p0.col as int),
            forall|i: int, j: int|
                #![trigger line@[i], line@[j]]
                0 <= i <= j < line@.len() ==> (up ==> line@[i].col <= line@[j].col) && (!up
                    ==> line@[i].col >= line@[j].col),
        decreases p1.row + 1 - y,
    {
        let ghost k = y - p0.row;
        let ghost j = minor_steps(p0.col as int, x as int, up);
        proof {
            assert(0 <= j <= dx);
            if up {
                assert(p0.col <= x <= p1.col);
            } else {
                assert(p1.col <= x <= p0.col);
            }
            if k == 0 {
                // the first pushed cell is exactly p0
                assert(j == 0) by (nonlinear_arith)
                    requires
                        0 <= j,
                        2 * dx * 0 - dy <= 2 * dy * j <= 2 * dx * 0 + dy,
                        0 <= dx <= dy,
                        dx == 0 ==> j == 0,
                ;
                assert(x == p0.col);
            }
        }
        let ghost push_col = x as int;
        line.push(Point { col: x as usize, row: y });
        let ghost old_diff = diff;
        if diff > 0 {
            x += xi;
            diff += 2 * (dx - dy);
        } else {
            diff += 2 * dx;
        }
        y += 1;
        proof {
            let jn = minor_steps(p0.col as int, x as int, up);
            assert(dx == 0 ==> old_diff <= 0) by (nonlinear_arith)
                requires
                    old_diff == 2 * dx * (k + 1) - dy - 2 * dy * j,
                    dx == 0 ==> j == 0,
                    dy >= 0,
                    j >= 0,
            ;
            assert((old_diff > 0 ==> jn == j + 1) && (old_diff <= 0 ==> jn == j));
            assert(dx == 0 ==> jn == 0);
            assert(diff == 2 * dx * (k + 2) - dy - 2 * dy * jn) by (nonlinear_arith)
                requires
                    old_diff == 2 * dx * (k + 1) - dy - 2 * dy * j,
                    old_diff > 0 ==> (jn == j + 1 && diff == old_diff + 2 * (dx - dy)),
                    old_diff <= 0 ==> (jn == j && diff == old_diff + 2 * dx),
            ;
            assert(y - p0.row == k + 1);
            if y <= p1.row {
                assert(2 * dx * (k + 1) - dy <= 2 * dy * jn <= 2 * dx * (k + 1) + dy)
                    by (nonlinear_arith)
                    requires
                        0 <= dx <= dy,
                        jn == j || jn == j + 1,
                        jn == j + 1 ==> 2 * dx * (k + 1) - dy - 2 * dy * j > 0,
                        jn == j ==> 2 * dx * (k + 1) - dy - 2 * dy * j <= 0,
                        2 * dx * k - dy <= 2 * dy * j <= 2 * dx * k + dy,
                ;
                assert(jn <= dx) by (nonlinear_arith)
                    requires
                        0 <= dx <= dy,
                        0 <= jn,
                        k + 1 <= dy,
                        2 * dx * (k + 1) - dy <= 2 * dy * jn,
                        2 * dy * jn <= 2 * dx * (k + 1) + dy,
                        dx == 0 ==> jn == 0,
                ;
            } else {
                assert(k == dy);
                assert(j == dx) by (nonlinear_arith)
                    requires
                        0 <= dx <= dy,
                        0 <= j,
                        2 * dx * dy - dy <= 2 * dy * j <= 2 * dx * dy + dy,
                        dx == 0 ==> j == 0,
                ;
                assert(push_col == p1.col);
                assert(line@[line@.len() - 1] == *p1);
            }
        }
    }
    line
}

/// Reverses a vector of points.
fn reverse_points(v: Vec<Point>) -> (r: Vec<Point>)
    ensures
        r@.len() == v@.len(),
        forall|i: int| 0 <= i < v@.len() ==> #[trigger] r@[i] == v@[v@.len() - 1 - i],
{
    let mut r: Vec<Point> = Vec::new();
    let mut i: usize = v.len();
    while i > 0
        invariant
            i <= v@.len(),
            r@.len() == v@.len() - i,
            forall|k: int| 0 <= k < r@.len() ==> #[trigger] r@[k] == v@[v@.len() - 1 - k],
        decreases i,
    {
        i -= 1;
        r.push(v[i]);
    }
    r
}

/// Generates a shallow line that runs towards smaller columns, by
/// rastering it in canonical order and reversing.
fn vec_between_points_low_rev(p0: &Point, p1: &Point) -> (line: Vec<Point>)
    requires
        p1.col <= p0.col,
        p0.col <= MAX_COORD,
        p0.row <= MAX_COORD,
        p1.row <= MAX_COORD,
        abs_diff(p1.row as int, p0.row as int) <= p0.col - p1.col,
    ensures
        line@.len() == p0.col - p1.col + 1,
        forall|i: int| 0 <= i < line@.len() ==> (#[trigger] line@[i]).col == p0.col - i,
        forall|i: int| 0 <= i < line@.len() ==> in_box(#[trigger] line@[i], *p0, *p1),
        line@[0] == *p0,
        line@[line@.len() - 1] == *p1,
        chebyshev_adjacent_steps(line@),
        recedes_from_start(line@, *p0),
        forall|i: int|
            0 <= i < line@.len() - 1 ==> #[trigger] line@[i] != line@[i + 1],
{
    let h = vec_between_points_low(p1, p0);
    let r = reverse_points(h);
    proof {
        lemma_reversal_keeps_steps(h@, r@);
        assert(forall|i: int, j: int|
            #![trigger h@[i], h@[j]]
            0 <= i <= j < h@.len() ==> h@[i].col <= h@[j].col);
        lemma_reversal_recedes(h@, r@);
        assert forall|i: int| 0 <= i < r@.len() implies (#[trigger] r@[i]).col == p0.col - i by {
            assert(r@[i] == h@[h@.len() - 1 - i]);
        }
        assert forall|i: int| 0 <= i < r@.len() implies in_box(#[trigger] r@[i], *p0, *p1) by {
            assert(in_box(h@[h@.len() - 1 - i], *p1, *p0));
        }
    }
    r
}

/// Generates a steep line that runs towards smaller rows, by rastering it
/// in canonical order and reversing.
fn vec_between_points_high_rev(p0: &Point, p1: &Point) -> (line: Vec<Point>)
    requires
        p1.row <= p0.row,
        p0.row <= MAX_COORD,
        p0.col <= MAX_COORD,
        p1.col <= MAX_COORD,
        abs_diff(p1.col as int, p0.col as int) <= p0.row - p1.row,
    ensures
        line@.len() == p0.row - p1.row + 1,
        forall|i: int| 0 <= i < line@.len() ==> (#[trigger] line@[i]).row == p0.row - i,
        forall|i: int| 0 <= i < line@.len() ==> in_box(#[trigger] line@[i], *p0, *p1),
        line@[0] == *p0,
        line@[line@.len() - 1] == *p1,
        chebyshev_adjacent_steps(line@),
        recedes_from_start(line@, *p0),
        forall|i: int|
            0 <= i < line@.len() - 1 ==> #[trigger] line@[i] != line@[i + 1],
{
    let h = vec_between_points_high(p1, p0);
    let r = reverse_points(h);
    proof {
        lemma_reversal_keeps_steps(h@, r@);
        assert(forall|i: int, j: int|
            #![trigger h@[i], h@[j]]
            0 <= i <= j < h@.len() ==> h@[i].row <= h@[j].row);
        lemma_reversal_recedes(h@, r@);
        assert forall|i: int| 0 <= i < r@.len() implies (#[trigger] r@[i]).row == p0.row - i by {
            assert(r@[i] == h@[h@.len() - 1 - i]);
        }
        assert forall|i: int| 0 <= i < r@.len() implies in_box(#[trigger] r@[i], *p0, *p1) by {
            assert(in_box(h@[h@.len() - 1 - i], *p1, *p0));
        }
    }
    r
}

/// Generates the ordered vector of grid cells on the straight line from `p0`
/// to `p1` (Bresenham). The first cell is `p0`, the last is `p1`, every cell
/// lies in the bounding box of the two endpoints, consecutive cells touch
/// (Chebyshev distance at most one), and the longer axis advances by
/// exactly one cell per step towards `p1`.
#[verifier::rlimit(100)]
#[verifier::spinoff_prover]
pub fn vec_between_points(p0: &Point, p1: &Point) -> (line: Vec<Point>)
    requires
        p0.col <= MAX_COORD,
        p0.row <= MAX_COORD,
        p1.col <= MAX_COORD,
        p1.row <= MAX_COORD,
    ensures
        line@.len() == 1 + (if abs_diff(p1.col as int, p0.col as int) >= abs_diff(
            p1.row as int,
            p0.row as int,
        ) {
            abs_diff(p1.col as int, p0.col as int)
        } else {
            abs_diff(p1.row as int, p0.row as int)
        }),
        line@[0] == *p0,
        line@[line@.len() - 1] == *p1,
        forall|i: int| 0 <= i < line@.len() ==> in_box(#[trigger] line@[i], *p0, *p1),
        chebyshev_adjacent_steps(line@),
        recedes_from_start(line@, *p0),
        forall|i: int|
            0 <= i < line@.len() - 1 ==> #[trigger] line@[i] != line@[i + 1],
        abs_diff(p1.col as int, p0.col as int) > abs_diff(p1.row as int, p0.row as int)
            ==> forall|i: int|
            0 <= i < line@.len() ==> (#[trigger] line@[i]).col as int == (if p1.col >= p0.col {
                p0.col + i
            } else {
                p0.col - i
            }),
        abs_diff(p1.col as int, p0.col as int) <= abs_diff(p1.row as int, p0.row as int)
            ==> forall|i: int|
            0 <= i < line@.len() ==> (#[trigger] line@[i]).row as int == (if p1.row >= p0.row {
                p0.row + i
            } else {
                p0.row - i
            }),
{
    let d_row: usize = if p1.row >= p0.row {
        p1.row - p0.row
    } else {
        p0.row - p1.row
    };
    let d_col: usize = if p1.col >= p0.col {
        p1.col - p0.col
    } else {
        p0.col - p1.col
    };
    if d_row < d_col {
        if p0.col > p1.col {
            vec_between_points_low_rev(p0, p1)
        } else {
            vec_between_points_low(p0, p1)
        }
    } else if p0.row > p1.row {
        vec_between_points_high_rev(p0, p1)
    } else {
        vec_between_points_high(p0, p1)
    }
}

/// Dice roll: a random number from 1 to `num`, or 0 for a zero-sided die.
pub fn d(rng: &mut GameRng, num: u32) -> (r: u32)
    ensures
        num == 0 ==> r == 0,
        num > 0 ==> 1 <= r <= num,
{
    if num == 0 {
        return 0;
    }
    let raw = rng.random_range(0, num as usize);
    (raw + 1) as u32
}

/// The grapheme clusters a string splits into.
pub uninterp spec fn grapheme_clusters(s: Seq<char>) -> Seq<Seq<char>>;

/// Relies on unicode-segmentation's `UnicodeSegmentation::graphemes` with
/// extended clusters: splits the string into its grapheme clusters, a
/// function of the characters alone. Each cluster is a non-empty piece of
/// the string, so there are at most as many clusters as characters.
#[verifier::external_body]
fn graphemes_of(s: &str) -> (r: Vec<String>)
    ensures
        r@.map_values(|t: String| t@) == grapheme_clusters(s@),
        r@.len() <= s@.len(),
{
    unicode_segmentation::UnicodeSegmentation::graphemes(s, true).map(|g| g.to_string()).collect()
}

/// How many of the first `n` grapheme clusters are a newline.
pub open spec fn newline_cluster_count(gs: Seq<Seq<char>>, n: int) -> int
    decreases n,
{
    if n <= 0 {
        0
    } else {
        newline_cluster_count(gs, n - 1) + if gs[n - 1] == "\n"@ {
            1int
        } else {
            0int
        }
    }
}

/// Counts the lines of a message: one more than the number of newline
/// grapheme clusters in it.
pub fn count_newlines(msg: &str) -> (count: u32)
    requires
        msg@.len() < 0xFFFF_FFFF,
    ensures
        count == 1 + newline_cluster_count(grapheme_clusters(msg@), grapheme_clusters(msg@).len() as int),
{
    let clusters = graphemes_of(msg);
    let newline = String::from_str("\n");
    let mut count: u32 = 1;
    let mut i: usize = 0;
    while i < clusters.len()
        invariant
            clusters@.map_values(|t: String| t@) == grapheme_clusters(msg@),
            clusters@.len() <= msg@.len(),
            msg@.len() < 0xFFFF_FFFF,
            newline@ == "\n"@,
            i <= clusters@.len(),
            count == 1 + newline_cluster_count(grapheme_clusters(msg@), i as int),
            count <= 1 + i,
        decreases clusters@.len() - i,
    {
        proof {
            lemma_newline_count_bounds(grapheme_clusters(msg@), i as int);
            assert(grapheme_clusters(msg@)[i as int] == clusters@.map_values(|t: String| t@)[
                i as int
            ]);
        }
        if clusters[i].eq(&newline) {
            count += 1;
        }
        i += 1;
    }
    proof {
        assert(i == clusters@.len());
        assert(clusters@.len() == grapheme_clusters(msg@).len());
    }
    count
}

proof fn lemma_newline_count_bounds(gs: Seq<Seq<char>>, n: int)
    requires
        n >= 0,
    ensures
        0 <= newline_cluster_count(gs, n) <= n,
    decreases n,
{
    if n > 0 {
        lemma_newline_count_bounds(gs, n - 1);
    }
}

/// What stripping one trailing line break leaves: the string without a
/// final `\r\n` or `\n`, or the string itself if it ends in neither.
pub open spec fn strip_newline_spec(s: Seq<char>) -> Seq<char> {
    if s.len() >= 2 && s[s.len() - 2] == '\r' && s[s.len() - 1] == '\n' {
        s.subrange(0, s.len() - 2)
    } else if s.len() >= 1 && s[s.len() - 1] == '\n' {
        s.subrange(0, s.len() - 1)
    } else {
        s
    }
}

/// Removes one trailing line break, `\r\n` or `\n`, if the string ends in
/// one.
pub fn strip_trailing_newline(input: &str) -> (r: &str)
    ensures
        r@ == strip_newline_spec(input@),
{
    let n = input.unicode_len();
    if n >= 2 && input.get_char(n - 2) == '\r' && input.get_char(n - 1) == '\n' {
        input.substring_char(0, n - 2)
    } else if n >= 1 && input.get_char(n - 1) == '\n' {
        input.substring_char(0, n - 1)
    } else {
        input
    }
}

/// A span of game time, balanced into days, hours, minutes and seconds.
#[derive(Clone, Copy, Debug, PartialEq, Eq, Structural)]
pub struct CompoundTime {
    pub d: u32,
    pub h: u32,
    pub m: u32,
    pub s: u32,
}

impl CompoundTime {
    /// The total number of seconds this time stands for.
    pub open spec fn total_seconds(self) -> int {
        86400 * self.d + 3600 * self.h + 60 * self.m + self.s
    }

    /// Seconds below a minute, minutes below an hour, hours below a day.
    pub open spec fn balanced(self) -> bool {
        self.s < 60 && self.m < 60 && self.h < 24
    }

    /// A balanced time of the given number of seconds.
    pub fn new(seconds: u32) -> (ct: CompoundTime)
        ensures
            ct.total_seconds() == seconds,
            ct.balanced(),
    {
        let mut ct = CompoundTime { d: 0, h: 0, m: 0, s: seconds };
        ct.balance();
        ct
    }

    /// Carries seconds into minutes, minutes into hours and hours into
    /// days, keeping the total.
    pub fn balance(&mut self)
        requires
            old(self).total_seconds() <= u32::MAX,
        ensures
            final(self).total_seconds() == old(self).total_seconds(),
            final(self).balanced(),
    {
        let ghost st0: CompoundTime = *old(self);
        let ghost total: int = st0.total_seconds();
        proof {
            assert(st0.m + st0.s / 60 <= u32::MAX) by (nonlinear_arith)
                requires
                    total <= u32::MAX,
                    total == 86400 * st0.d + 3600 * st0.h + 60 * st0.m + st0.s,
            ;
        }
        self.m = self.m + self.s / 60;
        self.s = self.s % 60;
        proof {
            assert(self.h + self.m / 60 <= u32::MAX && 86400 * self.d + 3600 * self.h + 60 * self.m
                + self.s == total) by (nonlinear_arith)
                requires
                    total <= u32::MAX,
                    total == 86400 * st0.d + 3600 * st0.h + 60 * st0.m + st0.s,
                    self.d == st0.d,
                    self.h == st0.h,
                    self.m == st0.m + st0.s / 60,
                    self.s == st0.s % 60,
            ;
        }
        let ghost mid1: CompoundTime = *self;
        self.h = self.h + self.m / 60;
        self.m = self.m % 60;
        proof {
            assert(self.d + self.h / 24 <= u32::MAX && 86400 * self.d + 3600 * self.h + 60 * self.m
                + self.s == total) by (nonlinear_arith)
                requires
                    total <= u32::MAX,
                    86400 * mid1.d + 3600 * mid1.h + 60 * mid1.m + mid1.s == total,
                    self.d == mid1.d,
                    self.h == mid1.h + mid1.m / 60,
                    self.m == mid1.m % 60,
                    self.s == mid1.s,
            ;
        }
        let ghost mid2: CompoundTime = *self;
        self.d = self.d + self.h / 24;
        self.h = self.h % 24;
        proof {
            assert(86400 * self.d + 3600 * self.h + 60 * self.m + self.s == total)
                by (nonlinear_arith)
                requires
                    86400 * mid2.d + 3600 * mid2.h + 60 * mid2.m + mid2.s == total,
                    self.d == mid2.d + mid2.h / 24,
                    self.h == mid2.h % 24,
                    self.m == mid2.m,
                    self.s == mid2.s,
            ;
        }
    }
}

/// Reversing a line whose coordinates move monotonically turns its end
/// into a start that the cells recede from.
proof fn lemma_reversal_recedes(line: Seq<Point>, r: Seq<Point>)
    requires
        r.len() == line.len(),
        line.len() >= 1,
        forall|i: int| 0 <= i < line.len() ==> #[trigger] r[i] == line[line.len() - 1 - i],
        (forall|i: int, j: int|
            #![trigger line[i], line[j]]
            0 <= i <= j < line.len() ==> line[i].row <= line[j].row) || (forall|i: int, j: int|
            #![trigger line[i], line[j]]
            0 <= i <= j < line.len() ==> line[i].row >= line[j].row),
        (forall|i: int, j: int|
            #![trigger line[i], line[j]]
            0 <= i <= j < line.len() ==> line[i].col <= line[j].col) || (forall|i: int, j: int|
            #![trigger line[i], line[j]]
            0 <= i <= j < line.len() ==> line[i].col >= line[j].col),
    ensures
        recedes_from_start(r, line[line.len() - 1]),
{
    let n = line.len();
    let end = line[n - 1];
    assert forall|i: int, j: int|
        #![trigger r[i], r[j]]
        0 <= i <= j < r.len() implies abs_diff(r[i].row as int, end.row as int) <= abs_diff(
        r[j].row as int,
        end.row as int,
    ) && abs_diff(r[i].col as int, end.col as int) <= abs_diff(
        r[j].col as int,
        end.col as int,
    ) by {
        assert(r[i] == line[n - 1 - i]);
        assert(r[j] == line[n - 1 - j]);
        assert(0 <= n - 1 - j <= n - 1 - i <= n - 1);
        assert(line[n - 1] == end);
    }
}

/// Reversing a line keeps its cells adjacent step by step.
proof fn lemma_reversal_keeps_steps(line: Seq<Point>, r: Seq<Point>)
    requires
        r.len() == line.len(),
        forall|i: int| 0 <= i < line.len() ==> #[trigger] r[i] == line[line.len() - 1 - i],
        chebyshev_adjacent_steps(line),
    ensures
        chebyshev_adjacent_steps(r),
{
    assert forall|i: int| 0 <= i < r.len() - 1 implies abs_diff(
        (#[trigger] r[i]).col as int,
        r[i + 1].col as int,
    ) <= 1 && abs_diff(r[i].row as int, r[i + 1].row as int) <= 1 by {
        let m = line.len() - 2 - i;
        assert(r[i] == line[m + 1]);
        assert(r[i + 1] == line[m]);
        assert(abs_diff(line[m].col as int, line[m + 1].col as int) <= 1 && abs_diff(
            line[m].row as int,
            line[m + 1].row as int,
        ) <= 1);
    }
}

} // verus!
