//! Reachability over a level's grid and a verified flood fill that decides
//! whether every non-wall cell can be reached from the entrance.

use vstd::prelude::*;
use crate::levels::level::{Level, TileType};
use crate::utils::Point;

verus! {

/// The cell exists and can be walked on (anything but a wall).
pub open spec fn non_wall(l: Level, p: Point) -> bool {
    l.in_bounds(p) && l.tile_type_at(p.row as int, p.col as int) != TileType::Wall
}

/// One orthogonal step apart.
pub open spec fn adjacent4(a: Point, b: Point) -> bool {
    Level::orth_adjacent(b, a)
}

/// A walkable path: non-empty, every cell walkable, consecutive cells one
/// orthogonal step apart.
pub open spec fn is_path(l: Level, path: Seq<Point>) -> bool {
    &&& path.len() >= 1
    &&& forall|i: int| 0 <= i < path.len() ==> non_wall(l, #[trigger] path[i])
    &&& forall|i: int| 0 <= i < path.len() - 1 ==> adjacent4(#[trigger] path[i], path[i + 1])
}

/// `to` can be reached from `from` by a walkable path.
pub open spec fn reachable(l: Level, from: Point, to: Point) -> bool {
    exists|path: Seq<Point>| is_path(l, path) && path[0] == from && path[path.len() - 1] == to
}

/// Every walkable cell of the level can be reached from its entrance.
pub open spec fn fully_connected(l: Level) -> bool {
    forall|p: Point| #[trigger] non_wall(l, p) ==> reachable(l, l.entrance, p)
}

/// Whether a marking grid marks the given point.
pub open spec fn marked(vis: Seq<Vec<bool>>, p: Point) -> bool {
    vis[p.row as int]@[p.col as int]
}

/// The marking grid has one cell per grid cell of the level.
pub open spec fn marking_wf(l: Level, vis: Seq<Vec<bool>>) -> bool {
    &&& vis.len() == l.rows
    &&& forall|i: int| 0 <= i < l.rows ==> (#[trigger] vis[i])@.len() == l.columns
}

/// Every marked cell is walkable and reachable from the entrance.
pub open spec fn marking_sound(l: Level, vis: Seq<Vec<bool>>) -> bool {
    forall|p: Point|
        #[trigger] marked(vis, p) && p.row < l.rows && p.col < l.columns ==> non_wall(l, p)
            && reachable(l, l.entrance, p)
}

/// Every marked cell not on the worklist already has all its walkable
/// neighbours marked.
pub open spec fn closed_except(l: Level, vis: Seq<Vec<bool>>, work: Seq<Point>) -> bool {
    forall|a: Point, b: Point|
        marked(vis, a) && a.row < l.rows && a.col < l.columns && !work.contains(a) && non_wall(l, b)
            && #[trigger] adjacent4(a, b) ==> marked(vis, b)
}

/// Every worklist entry is in bounds and marked.
pub open spec fn work_marked(l: Level, vis: Seq<Vec<bool>>, work: Seq<Point>) -> bool {
    forall|i: int|
        0 <= i < work.len() ==> (#[trigger] work[i]).row < l.rows && work[i].col < l.columns
            && marked(vis, work[i])
}

/// Walkability is preserved by a single step.
proof fn lemma_reachable_step(l: Level, from: Point, b: Point, c: Point)
    requires
        reachable(l, from, b),
        adjacent4(b, c),
        non_wall(l, c),
    ensures
        reachable(l, from, c),
{
    let path = choose|path: Seq<Point>|
        is_path(l, path) && path[0] == from && path[path.len() - 1] == b;
    let path2 = path.push(c);
    assert(path2[path2.len() - 1] == c);
    assert(path2[0] == from);
    assert forall|i: int| 0 <= i < path2.len() implies non_wall(l, #[trigger] path2[i]) by {
        if i < path.len() {
            assert(path2[i] == path[i]);
        }
    }
    assert forall|i: int|
        0 <= i < path2.len() - 1 implies adjacent4(#[trigger] path2[i], path2[i + 1]) by {
        if i < path.len() - 1 {
            assert(path2[i] == path[i] && path2[i + 1] == path[i + 1]);
        } else {
            assert(path2[i] == b && path2[i + 1] == c);
        }
    }
    assert(is_path(l, path2));
}

/// A marking closed under orthogonal steps onto walkable cells covers the
/// whole of every walkable path that starts on a marked cell.
proof fn lemma_closed_marking_covers_path(l: Level, vis: Seq<Vec<bool>>, path: Seq<Point>)
    requires
        is_path(l, path),
        marked(vis, path[0]),
        closed_except(l, vis, Seq::<Point>::empty()),
    ensures
        marked(vis, path[path.len() - 1]),
    decreases path.len(),
{
    if path.len() > 1 {
        let prefix = path.drop_last();
        assert(is_path(l, prefix)) by {
            assert(forall|i: int| 0 <= i < prefix.len() ==> prefix[i] == #[trigger] path[i]);
        }
        assert(prefix[0] == path[0]);
        lemma_closed_marking_covers_path(l, vis, prefix);
        let a = path[path.len() - 2];
        let b = path[path.len() - 1];
        assert(marked(vis, a));
        assert(adjacent4(a, b));
        assert(non_wall(l, a) && non_wall(l, b));
        assert(!Seq::<Point>::empty().contains(a));
    }
}

/// Connectivity depends only on the walls and the entrance: of two levels
/// with the same shape, entrance and tile types, one is connected whenever
/// the other is.
pub proof fn lemma_fully_connected_same_walls(a: Level, b: Level)
    requires
        a.rows == b.rows,
        a.columns == b.columns,
        a.entrance == b.entrance,
        forall|r: int, c: int|
            0 <= r < a.rows && 0 <= c < a.columns ==> #[trigger] b.tile_type_at(r, c)
                == a.tile_type_at(r, c),
        fully_connected(a),
    ensures
        fully_connected(b),
{
    assert forall|p: Point| non_wall(b, p) implies reachable(b, b.entrance, p) by {
        assert(non_wall(a, p));
        assert(reachable(a, a.entrance, p));
        let path = choose|path: Seq<Point>|
            is_path(a, path) && path[0] == a.entrance && path[path.len() - 1] == p;
        assert forall|i: int| 0 <= i < path.len() implies non_wall(b, #[trigger] path[i]) by {
            assert(non_wall(a, path[i]));
        }
        assert(is_path(b, path));
    }
}

/// How many cells of a row, up to position `n`, are marked.
pub open spec fn count_row(s: Seq<bool>, n: int) -> int
    decreases n,
{
    if n <= 0 {
        0
    } else {
        count_row(s, n - 1) + if s[n - 1] {
            1int
        } else {
            0int
        }
    }
}

/// How many cells of the first `r` rows are marked.
pub open spec fn count_grid(vis: Seq<Vec<bool>>, r: int) -> int
    decreases r,
{
    if r <= 0 {
        0
    } else {
        count_grid(vis, r - 1) + count_row(vis[r - 1]@, vis[r - 1]@.len() as int)
    }
}

proof fn lemma_count_row_bounds(s: Seq<bool>, n: int)
    requires
        0 <= n <= s.len(),
    ensures
        0 <= count_row(s, n) <= n,
    decreases n,
{
    if n > 0 {
        lemma_count_row_bounds(s, n - 1);
    }
}

proof fn lemma_count_grid_bounds(vis: Seq<Vec<bool>>, r: int, cols: int)
    requires
        0 <= r <= vis.len(),
        cols >= 0,
        forall|i: int| 0 <= i < vis.len() ==> (#[trigger] vis[i])@.len() == cols,
    ensures
        0 <= count_grid(vis, r) <= r * cols,
    decreases r,
{
    if r > 0 {
        lemma_count_grid_bounds(vis, r - 1, cols);
        lemma_count_row_bounds(vis[r - 1]@, cols);
        assert(r * cols == (r - 1) * cols + cols) by (nonlinear_arith);
    }
}

proof fn lemma_count_row_update(s: Seq<bool>, c: int, n: int)
    requires
        0 <= c < s.len(),
        !s[c],
        0 <= n <= s.len(),
    ensures
        count_row(s.update(c, true), n) == count_row(s, n) + if c < n {
            1int
        } else {
            0int
        },
    decreases n,
{
    if n > 0 {
        lemma_count_row_update(s, c, n - 1);
    }
}

proof fn lemma_count_grid_update(vis: Seq<Vec<bool>>, nvis: Seq<Vec<bool>>, pr: int, pc: int, r: int)
    requires
        0 <= pr < vis.len(),
        0 <= pc < vis[pr]@.len(),
        !vis[pr]@[pc],
        nvis.len() == vis.len(),
        forall|i: int| 0 <= i < vis.len() && i != pr ==> #[trigger] nvis[i] == vis[i],
        nvis[pr]@ == vis[pr]@.update(pc, true),
        0 <= r <= vis.len(),
    ensures
        count_grid(nvis, r) == count_grid(vis, r) + if pr < r {
            1int
        } else {
            0int
        },
    decreases r,
{
    if r > 0 {
        lemma_count_grid_update(vis, nvis, pr, pc, r - 1);
        if r - 1 == pr {
            lemma_count_row_update(vis[pr]@, pc, vis[pr]@.len() as int);
        }
    }
}

/// Builds a `rows x cols` grid of `false` marks.
pub fn bool_grid(rows: usize, cols: usize) -> (g: Vec<Vec<bool>>)
    ensures
        g@.len() == rows,
        forall|r: int| 0 <= r < rows ==> (#[trigger] g@[r])@.len() == cols,
        forall|r: int, c: int| 0 <= r < rows && 0 <= c < cols ==> !(#[trigger] g@[r]@[c]),
{
    let template: Vec<bool> = vec![false; cols];
    let g: Vec<Vec<bool>> = vec![template; rows];
    proof {
        assert(forall|r: int| 0 <= r < rows ==> #[trigger] g@[r]@ == template@);
    }
    g
}

/// Sets one mark in a grid of marks.
pub fn grid_mark(g: &mut Vec<Vec<bool>>, r: usize, c: usize)
    requires
        r < old(g)@.len(),
        c < old(g)@[r as int]@.len(),
    ensures
        final(g)@.len() == old(g)@.len(),
        forall|i: int| 0 <= i < old(g)@.len() && i != r ==> #[trigger] final(g)@[i] == old(g)@[i],
        final(g)@[r as int]@ == old(g)@[r as int]@.update(c as int, true),
{
    let row: &mut Vec<bool> = &mut g[r];
    row.set(c, true);
}

/// Marks the walkable neighbour `q` of an already reached cell and queues
/// it for expansion, if it was not reached before.
fn visit_neighbor(l: &Level, vis: &mut Vec<Vec<bool>>, work: &mut Vec<Point>, q: Point)
    requires
        l.wf(),
        q.row < l.rows,
        q.col < l.columns,
        non_wall(*l, q) ==> reachable(*l, l.entrance, q),
        marking_wf(*l, old(vis)@),
        marking_sound(*l, old(vis)@),
        work_marked(*l, old(vis)@, old(work)@),
        old(work)@.len() <= count_grid(old(vis)@, l.rows as int),
        count_grid(old(vis)@, l.rows as int) <= (l.rows as int) * (l.columns as int),
    ensures
        marking_wf(*l, final(vis)@),
        marking_sound(*l, final(vis)@),
        work_marked(*l, final(vis)@, final(work)@),
        // marks only grow
        forall|p2: Point|
            #[trigger] marked(old(vis)@, p2) && p2.row < l.rows && p2.col < l.columns ==> marked(
                final(vis)@,
                p2,
            ),
        // the neighbour is now reached or is a wall
        non_wall(*l, q) ==> marked(final(vis)@, q),
        // the worklist only grows, and anything marked but not queued was
        // already marked and not queued before
        forall|x: Point| #[trigger] old(work)@.contains(x) ==> final(work)@.contains(x),
        forall|a: Point|
            #[trigger] marked(final(vis)@, a) && a.row < l.rows && a.col < l.columns
                && !final(work)@.contains(a) ==> marked(old(vis)@, a) || final(work)@.contains(a),
        forall|a: Point|
            #[trigger] marked(final(vis)@, a) && a.row < l.rows && a.col < l.columns
                && !final(work)@.contains(a) && marked(old(vis)@, a) ==> !old(work)@.contains(a),
        // bookkeeping for termination
        final(work)@.len() <= count_grid(final(vis)@, l.rows as int),
        count_grid(final(vis)@, l.rows as int) <= (l.rows as int) * (l.columns as int),
        count_grid(final(vis)@, l.rows as int) - final(work)@.len() >= count_grid(
            old(vis)@,
            l.rows as int,
        ) - old(work)@.len(),
{
    if !vis[q.row][q.col] && l.tiles[q.row][q.col].tile != TileType::Wall {
        let ghost pre_vis = vis@;
        let ghost pre_work = work@;
        grid_mark(vis, q.row, q.col);
        proof {
            lemma_count_grid_update(pre_vis, vis@, q.row as int, q.col as int, l.rows as int);
            lemma_count_grid_bounds(vis@, l.rows as int, l.columns as int);
        }
        work.push(q);
        proof {
            assert(marked(vis@, q));
            assert forall|p2: Point|
                #[trigger] marked(vis@, p2) && p2.row < l.rows && p2.col < l.columns implies
                non_wall(*l, p2) && reachable(*l, l.entrance, p2) by {
                if p2.row != q.row || p2.col != q.col {
                    assert(marked(pre_vis, p2));
                }
            }
            assert forall|i: int|
                0 <= i < work@.len() implies (#[trigger] work@[i]).row < l.rows && work@[i].col
                < l.columns && marked(vis@, work@[i]) by {
                if i < pre_work.len() {
                    assert(work@[i] == pre_work[i]);
                    assert(marked(pre_vis, pre_work[i]));
                    if pre_work[i].row != q.row || pre_work[i].col != q.col {
                        assert(marked(vis@, pre_work[i]));
                    }
                } else {
                    assert(work@[i] == q);
                }
            }
            assert forall|x: Point| pre_work.contains(x) implies work@.contains(x) by {
                let i = choose|i: int| 0 <= i < pre_work.len() && pre_work[i] == x;
                assert(work@[i] == x);
            }
            assert forall|a: Point|
                marked(vis@, a) && a.row < l.rows && a.col < l.columns && !work@.contains(
                    a,
                ) implies marked(pre_vis, a) && !pre_work.contains(a) by {
                assert(work@[work@.len() - 1] == q);
                assert(a.row != q.row || a.col != q.col);
                assert(marked(pre_vis, a));
            }
        }
    }
}

/// Decides whether every walkable cell of the level is reachable from its
/// entrance, by flood fill from the entrance.
pub fn is_fully_connected(l: &Level) -> (r: bool)
    requires
        l.wf(),
    ensures
        r == fully_connected(*l),
{
    let rows = l.rows;
    let cols = l.columns;
    let mut vis = bool_grid(rows, cols);
    let mut work: Vec<Point> = Vec::new();

    let entrance = l.entrance;
    if l.tiles[entrance.row][entrance.col].tile != TileType::Wall {
        proof {
            let path = seq![entrance];
            assert(is_path(*l, path));
            assert(reachable(*l, entrance, entrance));
            assert(count_grid(vis@, rows as int) == 0) by {
                lemma_count_grid_bounds(vis@, rows as int, cols as int);
                assert forall|rr: int| 0 <= rr <= rows as int implies count_grid(vis@, rr)
                    <= 0 by {
                    lemma_count_all_false(vis@, rr);
                }
            }
        }
        let ghost pre_vis = vis@;
        grid_mark(&mut vis, entrance.row, entrance.col);
        proof {
            lemma_count_grid_update(pre_vis, vis@, entrance.row as int, entrance.col as int, rows as int);
        }
        work.push(entrance);
    }
    proof {
        lemma_count_grid_bounds(vis@, rows as int, cols as int);
        // initially the only marked cell, if any, is the entrance, which
        // is on the worklist
        assert forall|a: Point, b: Point|
            marked(vis@, a) && a.row < rows && a.col < cols && !work@.contains(a) && non_wall(
                *l,
                b,
            ) && #[trigger] adjacent4(a, b) implies marked(vis@, b) by {
            assert(a.row == entrance.row && a.col == entrance.col);
            assert(a == entrance);
            assert(work@[0] == entrance);
            assert(false);
        }
    }

    while work.len() > 0
        invariant
            l.wf(),
            rows == l.rows,
            cols == l.columns,
            entrance == l.entrance,
            marking_wf(*l, vis@),
            marking_sound(*l, vis@),
            work_marked(*l, vis@, work@),
            closed_except(*l, vis@, work@),
            work@.len() <= count_grid(vis@, rows as int),
            count_grid(vis@, rows as int) <= (rows as int) * (cols as int),
            non_wall(*l, entrance) ==> marked(vis@, entrance),
        decreases (rows as int) * (cols as int) - count_grid(vis@, rows as int) + work@.len(),
    {
        let ghost loop_vis = vis@;
        let ghost loop_work = work@;
        let p = work.pop().unwrap();
        proof {
            assert(marked(vis@, p) && p.row < rows && p.col < cols);
            assert(non_wall(*l, p) && reachable(*l, entrance, p));
        }
        if p.row > 0 {
            let q = Point { col: p.col, row: p.row - 1 };
            proof {
                if non_wall(*l, q) {
                    lemma_reachable_step(*l, entrance, p, q);
                }
            }
            visit_neighbor(l, &mut vis, &mut work, q);
        }
        if p.row + 1 < rows {
            let q = Point { col: p.col, row: p.row + 1 };
            proof {
                if non_wall(*l, q) {
                    lemma_reachable_step(*l, entrance, p, q);
                }
            }
            visit_neighbor(l, &mut vis, &mut work, q);
        }
        if p.col > 0 {
            let q = Point { col: p.col - 1, row: p.row };
            proof {
                if non_wall(*l, q) {
                    lemma_reachable_step(*l, entrance, p, q);
                }
            }
            visit_neighbor(l, &mut vis, &mut work, q);
        }
        if p.col + 1 < cols {
            let q = Point { col: p.col + 1, row: p.row };
            proof {
                if non_wall(*l, q) {
                    lemma_reachable_step(*l, entrance, p, q);
                }
            }
            visit_neighbor(l, &mut vis, &mut work, q);
        }
        proof {
            // restore the closure invariant for the new worklist
            assert forall|a: Point, b: Point|
                marked(vis@, a) && a.row < rows && a.col < cols && !work@.contains(a) && non_wall(
                    *l,
                    b,
                ) && #[trigger] adjacent4(a, b) implies marked(vis@, b) by {
                if a == p {
                    // all four neighbours of p were just visited
                    assert(b.row < rows && b.col < cols);
                    if b.col == p.col && b.row + 1 == p.row {
                        assert(marked(vis@, b));
                    } else if b.col == p.col && b.row == p.row + 1 {
                        assert(marked(vis@, b));
                    } else if b.row == p.row && b.col + 1 == p.col {
                        assert(marked(vis@, b));
                    } else {
                        assert(b.row == p.row && b.col == p.col + 1);
                        assert(marked(vis@, b));
                    }
                } else {
                    // a kept its marks from before the pop
                    assert(marked(loop_vis, a) && !work@.contains(a));
                    assert(!loop_work.drop_last().contains(a) ==> !loop_work.contains(a) || a
                        == p) by {
                        if loop_work.contains(a) {
                            let i = choose|i: int|
                                0 <= i < loop_work.len() && loop_work[i] == a;
                            if i < loop_work.len() - 1 {
                                assert(loop_work.drop_last()[i] == a);
                            } else {
                                assert(loop_work[loop_work.len() - 1] == p);
                            }
                        }
                    }
                    assert(!loop_work.drop_last().contains(a)) by {
                        if loop_work.drop_last().contains(a) {
                            let i = choose|i: int|
                                0 <= i < loop_work.drop_last().len() && loop_work.drop_last()[i]
                                    == a;
                            assert(work@.contains(a));
                        }
                    }
                    assert(!loop_work.contains(a));
                    assert(marked(loop_vis, b) || !non_wall(*l, b) || !adjacent4(a, b));
                    assert(marked(vis@, b));
                }
            }
        }
    }

    // the flood fill is complete: every walkable cell must now be marked
    let ghost final_vis = vis@;
    let mut all_covered = true;
    let mut r: usize = 0;
    while r < rows
        invariant
            l.wf(),
            rows == l.rows,
            cols == l.columns,
            r <= rows,
            vis@ == final_vis,
            marking_wf(*l, vis@),
            all_covered == forall|p: Point|
                p.row < r && p.col < cols && #[trigger] non_wall(*l, p) ==> marked(vis@, p),
        decreases rows - r,
    {
        let mut c: usize = 0;
        let ghost covered_before = all_covered;
        while c < cols
            invariant
                l.wf(),
                rows == l.rows,
                cols == l.columns,
                r < rows,
                c <= cols,
                vis@ == final_vis,
                marking_wf(*l, vis@),
                all_covered == (covered_before && forall|p: Point|
                    p.row == r && p.col < c && #[trigger] non_wall(*l, p) ==> marked(vis@, p)),
            decreases cols - c,
        {
            if l.tiles[r][c].tile != TileType::Wall && !vis[r][c] {
                all_covered = false;
                proof {
                    let w = Point { col: c, row: r };
                    assert(non_wall(*l, w) && !marked(vis@, w));
                }
            }
            proof {
                let pt = Point { col: c, row: r };
                assert(forall|p: Point|
                    p.row == r && p.col < c + 1 && #[trigger] non_wall(*l, p) ==> p.col < c || p
                        == pt);
            }
            c += 1;
        }
        proof {
            assert(forall|p: Point|
                p.row < r + 1 && p.col < cols && #[trigger] non_wall(*l, p) ==> p.row < r || (p.row
                    == r && p.col < cols));
        }
        r += 1;
    }

    proof {
        if all_covered {
            assert forall|p: Point| non_wall(*l, p) implies reachable(*l, entrance, p) by {
                assert(marked(vis@, p));
            }
        } else {
            let w = choose|p: Point|
                p.row < rows && p.col < cols && non_wall(*l, p) && !marked(vis@, p);
            assert(non_wall(*l, w) && !marked(vis@, w));
            if reachable(*l, entrance, w) {
                let path = choose|path: Seq<Point>|
                    is_path(*l, path) && path[0] == entrance && path[path.len() - 1] == w;
                assert(non_wall(*l, entrance));
                assert(marked(vis@, entrance));
                lemma_closed_marking_covers_path(*l, vis@, path);
                assert(false);
            }
            assert(!fully_connected(*l));
        }
    }
    all_covered
}

proof fn lemma_count_all_false(vis: Seq<Vec<bool>>, r: int)
    requires
        0 <= r <= vis.len(),
        forall|i: int, c: int|
            0 <= i < vis.len() && 0 <= c < vis[i]@.len() ==> !(#[trigger] vis[i]@[c]),
    ensures
        count_grid(vis, r) <= 0,
    decreases r,
{
    if r > 0 {
        lemma_count_all_false(vis, r - 1);
        lemma_count_row_all_false(vis[r - 1]@, vis[r - 1]@.len() as int);
    }
}

proof fn lemma_count_row_all_false(s: Seq<bool>, n: int)
    requires
        0 <= n <= s.len(),
        forall|c: int| 0 <= c < s.len() ==> !s[c],
    ensures
        count_row(s, n) <= 0,
    decreases n,
{
    if n > 0 {
        lemma_count_row_all_false(s, n - 1);
    }
}

} // verus!
