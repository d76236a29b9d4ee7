//! A single dungeon floor: a rectangular grid of tiles with per-cell
//! "seen" memory, an entrance and an exit, movement-legality queries and
//! the field-of-view computation.

pub mod connectivity;
pub mod generation;

use vstd::prelude::*;
use crate::levels::level::connectivity::{bool_grid, grid_mark};
use crate::levels::level::generation::GenerationError;
use crate::rng::GameRng;
use crate::utils::{
    Point,
    abs_diff,
    chebyshev_adjacent_steps,
    in_box,
    recedes_from_start,
    vec_between_points,
    MAX_COORD,
};

verus! {

/// How far the player can see, in cells: 100 feet of torchlight at 3 feet
/// per cell, truncated.
pub const VIEW_DISTANCE: usize = 33;

/// The display symbol for a tile, given whether it is in view right now
/// and whether it has ever been seen. Floor is drawn dimmed (`:`) when it
/// is only remembered; walls and stairs are drawn whenever remembered;
/// cells never seen are blank.
pub open spec fn symbol_spec(t: TileType, vis: bool, seen: bool) -> char {
    match t {
        TileType::Floor => if vis {
            '.'
        } else if seen {
            ':'
        } else {
            ' '
        },
        TileType::StairUp => if vis || seen {
            '<'
        } else {
            ' '
        },
        TileType::StairDown => if vis || seen {
            '>'
        } else {
            ' '
        },
        TileType::Wall => if vis || seen {
            '#'
        } else {
            ' '
        },
    }
}

/// The cell lies within the square viewing box around the player.
pub open spec fn in_view_box(player: Point, r: int, c: int) -> bool {
    abs_diff(r, player.row as int) <= VIEW_DISTANCE && abs_diff(c, player.col as int)
        <= VIEW_DISTANCE
}

/// The cell is within viewing range of the player. The metric is
/// deliberately anisotropic, columns weighted half: this integer
/// inequality holds exactly when `round(sqrt(0.5*dc^2 + dr^2))` is at
/// most the view distance of 33.
pub open spec fn in_view_range(player: Point, r: int, c: int) -> bool {
    2 * ((c - player.col) * (c - player.col)) + 4 * ((r - player.row) * (r - player.row)) <= 4489
}

/// The viewing range metric only shrinks towards the player: every cell
/// coordinate-wise between the player and an in-range cell is in range.
proof fn lemma_view_range_monotone(player: Point, tr: int, tc: int, r: int, c: int)
    requires
        in_view_range(player, tr, tc),
        player.col <= c <= tc || tc <= c <= player.col,
        player.row <= r <= tr || tr <= r <= player.row,
    ensures
        in_view_range(player, r, c),
{
    let pc = player.col as int;
    let pr = player.row as int;
    assert(2 * ((c - pc) * (c - pc)) + 4 * ((r - pr) * (r - pr)) <= 4489) by (nonlinear_arith)
        requires
            2 * ((tc - pc) * (tc - pc)) + 4 * ((tr - pr) * (tr - pr)) <= 4489,
            pc <= c <= tc || tc <= c <= pc,
            pr <= r <= tr || tr <= r <= pr,
    ;
}

/// `(r2, c2)` is the open cell the view reached `(r, c)` through: a
/// distinct neighbouring cell, no farther from the player on either axis,
/// itself in view and not a wall.
pub open spec fn occlusion_witness(
    l: Level,
    player: Point,
    vis: Seq<Vec<bool>>,
    r: int,
    c: int,
    r2: int,
    c2: int,
) -> bool {
    &&& 0 <= r2 < l.rows
    &&& 0 <= c2 < l.columns
    &&& abs_diff(r2, r) <= 1
    &&& abs_diff(c2, c) <= 1
    &&& !(r2 == r && c2 == c)
    &&& abs_diff(r2, player.row as int) <= abs_diff(r, player.row as int)
    &&& abs_diff(c2, player.col as int) <= abs_diff(c, player.col as int)
    &&& vis[r2]@[c2]
    &&& l.tile_type_at(r2, c2) != TileType::Wall
}

/// Walls are opaque: every cell in view other than the player's own was
/// reached through a neighbouring open cell that is also in view and no
/// farther from the player on either axis. A cell straight behind an
/// adjacent wall therefore cannot be in view. (Kept opaque so that its
/// quantifiers only unfold where a proof asks for them.)
#[verifier::opaque]
pub open spec fn visibility_occlusion_ok(l: Level, player: Point, vis: Seq<Vec<bool>>) -> bool {
    forall|r: int, c: int|
        0 <= r < l.rows && 0 <= c < l.columns && #[trigger] vis[r]@[c] && !(r == player.row && c
            == player.col) ==> exists|r2: int, c2: int|
            #[trigger] occlusion_witness(l, player, vis, r, c, r2, c2)
}

/// Marking one more cell keeps walls opaque, provided the new cell is the
/// player's own or was reached through a suitable open neighbour `q`.
proof fn lemma_occlusion_after_mark(
    l: Level,
    player: Point,
    pre: Seq<Vec<bool>>,
    post: Seq<Vec<bool>>,
    p: Point,
    q: Point,
)
    requires
        visibility_occlusion_ok(l, player, pre),
        p.row < l.rows,
        p.col < l.columns,
        forall|r: int, c: int|
            0 <= r < l.rows && 0 <= c < l.columns ==> #[trigger] post[r]@[c] == (pre[r]@[c] || (r
                == p.row && c == p.col)),
        p != player ==> {
            &&& q.row < l.rows
            &&& q.col < l.columns
            &&& abs_diff(q.row as int, p.row as int) <= 1
            &&& abs_diff(q.col as int, p.col as int) <= 1
            &&& q != p
            &&& abs_diff(q.row as int, player.row as int) <= abs_diff(
                p.row as int,
                player.row as int,
            )
            &&& abs_diff(q.col as int, player.col as int) <= abs_diff(
                p.col as int,
                player.col as int,
            )
            &&& post[q.row as int]@[q.col as int]
            &&& l.tile_type_at(q.row as int, q.col as int) != TileType::Wall
        },
    ensures
        visibility_occlusion_ok(l, player, post),
{
    reveal(visibility_occlusion_ok);
    assert forall|r: int, c: int|
        0 <= r < l.rows && 0 <= c < l.columns && #[trigger] post[r]@[c] && !(r == player.row && c
            == player.col) implies exists|r2: int, c2: int|
        #[trigger] occlusion_witness(l, player, post, r, c, r2, c2) by {
        if r == p.row && c == p.col && !pre[r]@[c] {
            assert(p != player);
            assert(occlusion_witness(l, player, post, r, c, q.row as int, q.col as int));
        } else {
            assert(pre[r]@[c]);
            let (r2, c2) = choose|r2: int, c2: int|
                #[trigger] occlusion_witness(l, player, pre, r, c, r2, c2);
            assert(post[r2]@[c2]);
            assert(occlusion_witness(l, player, post, r, c, r2, c2));
        }
    }
}

/// What one frame's visibility grid guarantees: it matches the level's
/// shape, the cells remembered afterwards are exactly those remembered
/// before or in view now, nothing outside the viewing box is in view,
/// walls are opaque, and the player's own cell is in view.
pub open spec fn frame_visibility_ok(
    before: Level,
    after: Level,
    player: Point,
    vis: Seq<Vec<bool>>,
) -> bool {
    &&& vis.len() == before.rows
    &&& forall|r: int| 0 <= r < before.rows ==> (#[trigger] vis[r])@.len() == before.columns
    &&& forall|r: int, c: int|
        0 <= r < before.rows && 0 <= c < before.columns ==> #[trigger] after.seen_at(r, c) == (
        before.seen_at(r, c) || vis[r]@[c])
    &&& forall|r: int, c: int|
        0 <= r < before.rows && 0 <= c < before.columns && #[trigger] vis[r]@[c] ==> in_view_box(
            player,
            r,
            c,
        ) && in_view_range(player, r, c)
    &&& visibility_occlusion_ok(after, player, vis)
    &&& vis[player.row as int]@[player.col as int]
}

/// The whole account of one rendered frame against the level it came
/// from: the visibility grid matches the level's shape, keeps to the
/// viewing box and range, treats walls as opaque, has the player's cell
/// in view, and every symbol of the grid renders from it.
pub open spec fn frame_renders_ok(
    l: Level,
    player: Point,
    m: Seq<Vec<char>>,
    vis: Seq<Vec<bool>>,
) -> bool {
    &&& vis.len() == l.rows
    &&& forall|r: int| 0 <= r < l.rows ==> (#[trigger] vis[r])@.len() == l.columns
    &&& forall|r: int, c: int|
        0 <= r < l.rows && 0 <= c < l.columns && #[trigger] vis[r]@[c] ==> in_view_box(player, r, c)
            && in_view_range(player, r, c)
    &&& visibility_occlusion_ok(l, player, vis)
    &&& vis[player.row as int]@[player.col as int]
    &&& render_matches(l, m, vis)
}

/// The symbol grid renders every cell from its tile type, this frame's
/// visibility and the remembered state.
pub open spec fn render_matches(l: Level, m: Seq<Vec<char>>, vis: Seq<Vec<bool>>) -> bool {
    &&& m.len() == l.rows
    &&& forall|r: int| 0 <= r < l.rows ==> (#[trigger] m[r])@.len() == l.columns
    &&& forall|r: int, c: int|
        0 <= r < l.rows && 0 <= c < l.columns ==> #[trigger] m[r]@[c] == symbol_spec(
            l.tile_type_at(r, c),
            vis[r]@[c],
            l.seen_at(r, c),
        )
}

/// What a grid cell is.
#[derive(Clone, Copy, Debug, PartialEq, Eq, Structural)]
pub enum TileType {
    Floor,
    Wall,
    StairDown,
    StairUp,
}

impl Default for TileType {
    fn default() -> (t: TileType)
        ensures
            t == TileType::Wall,
    {
        TileType::Wall
    }
}

/// One grid cell: its type plus whether the player has ever seen it.
#[derive(Clone, Copy, Debug, PartialEq, Eq, Structural)]
pub struct Tile {
    pub tile: TileType,
    pub seen: bool,
}

impl Default for Tile {
    fn default() -> (t: Tile)
        ensures
            t == (Tile { tile: TileType::Wall, seen: false }),
    {
        Tile { tile: TileType::Wall, seen: false }
    }
}

/// Error for coordinate queries that fall outside the grid.
#[derive(Clone, Copy, Debug, PartialEq, Eq, Structural)]
pub enum LevelError {
    OutOfBounds,
}

/// One dungeon floor.
pub struct Level {
    pub columns: usize,
    pub rows: usize,
    pub tiles: Vec<Vec<Tile>>,
    pub exit: Point,
    pub entrance: Point,
}

impl Level {
    /// The grid is rectangular with the recorded dimensions, small enough
    /// for the visibility arithmetic, and entrance and exit lie on it.
    pub open spec fn wf(self) -> bool {
        &&& self.tiles@.len() == self.rows
        &&& forall|r: int| 0 <= r < self.rows ==> (#[trigger] self.tiles@[r])@.len() == self.columns
        &&& 1 <= self.rows <= MAX_COORD
        &&& 1 <= self.columns <= MAX_COORD
        &&& self.entrance.col < self.columns && self.entrance.row < self.rows
        &&& self.exit.col < self.columns && self.exit.row < self.rows
    }

    pub open spec fn tile_type_at(self, row: int, col: int) -> TileType {
        self.tiles@[row]@[col].tile
    }

    pub open spec fn seen_at(self, row: int, col: int) -> bool {
        self.tiles@[row]@[col].seen
    }

    pub open spec fn in_bounds(self, p: Point) -> bool {
        p.col < self.columns && p.row < self.rows
    }

    /// The two points differ by exactly one step along a single axis.
    pub open spec fn orth_adjacent(to: Point, from: Point) -> bool {
        ||| (to.col == from.col && abs_diff(to.row as int, from.row as int) == 1)
        ||| (abs_diff(to.col as int, from.col as int) == 1 && to.row == from.row)
    }

    /// The two points differ by exactly one step along both axes.
    pub open spec fn diag_adjacent(to: Point, from: Point) -> bool {
        abs_diff(to.col as int, from.col as int) == 1 && abs_diff(to.row as int, from.row as int)
            == 1
    }

    /// Movement legality. Staying in place is always allowed; a single
    /// orthogonal step is allowed onto any non-wall tile; a single diagonal
    /// step additionally needs at least one of the two corner cells shared
    /// with the start to be non-wall, so that the move does not cut through
    /// a solid corner. Any longer move is illegal.
    pub open spec fn can_move_spec(self, to: Point, from: Point) -> bool {
        if to == from {
            true
        } else if Self::orth_adjacent(to, from) {
            self.tile_type_at(to.row as int, to.col as int) != TileType::Wall
        } else if Self::diag_adjacent(to, from) {
            (self.tile_type_at(from.row as int, to.col as int) != TileType::Wall
                || self.tile_type_at(to.row as int, from.col as int) != TileType::Wall)
                && self.tile_type_at(to.row as int, to.col as int) != TileType::Wall
        } else {
            false
        }
    }

    /// The coordinate pairs for which the movement query reads only cells
    /// that exist. Staying in place and far-apart pairs read nothing.
    pub open spec fn move_query_defined(self, to: Point, from: Point) -> bool {
        if to == from {
            true
        } else if Self::orth_adjacent(to, from) {
            self.in_bounds(to)
        } else if Self::diag_adjacent(to, from) {
            self.in_bounds(to) && self.in_bounds(from)
        } else {
            true
        }
    }

    /// Movement legality is a pure function of the tile layout and the
    /// two points: rendering frames (which only touches the seen memory)
    /// or any other history never changes the answer. Any two levels with
    /// the same shape and tile types agree on every defined movement
    /// query.
    pub proof fn lemma_can_move_ignores_memory(a: Level, b: Level, to: Point, from: Point)
        requires
            a.rows == b.rows,
            a.columns == b.columns,
            forall|r: int, c: int|
                0 <= r < a.rows && 0 <= c < a.columns ==> #[trigger] a.tile_type_at(r, c)
                    == b.tile_type_at(r, c),
            a.move_query_defined(to, from),
        ensures
            b.move_query_defined(to, from),
            a.can_move_spec(to, from) == b.can_move_spec(to, from),
    {
    }

    /// Whether the player may move from `from` to `to`; fails with
    /// `OutOfBounds` exactly when the query would read a cell off the grid.
    pub fn can_move_to(&self, to: Point, from: Point) -> (r: Result<bool, LevelError>)
        requires
            self.wf(),
        ensures
            match r {
                Ok(b) => self.move_query_defined(to, from) && b == self.can_move_spec(to, from),
                Err(e) => !self.move_query_defined(to, from) && e == LevelError::OutOfBounds,
            },
    {
        let row_step: bool = (to.row > from.row && to.row - from.row == 1) || (from.row > to.row
            && from.row - to.row == 1);
        let col_step: bool = (to.col > from.col && to.col - from.col == 1) || (from.col > to.col
            && from.col - to.col == 1);
        if to.col == from.col && to.row == from.row {
            Ok(true)
        } else if (to.col == from.col && row_step) || (col_step && to.row == from.row) {
            if to.col < self.columns && to.row < self.rows {
                Ok(self.tiles[to.row][to.col].tile != TileType::Wall)
            } else {
                Err(LevelError::OutOfBounds)
            }
        } else if col_step && row_step {
            if to.col < self.columns && to.row < self.rows && from.col < self.columns && from.row
                < self.rows {
                Ok(
                    (self.tiles[from.row][to.col].tile != TileType::Wall
                        || self.tiles[to.row][from.col].tile != TileType::Wall)
                        && self.tiles[to.row][to.col].tile != TileType::Wall,
                )
            } else {
                Err(LevelError::OutOfBounds)
            }
        } else {
            Ok(false)
        }
    }

    pub fn width(&self) -> (w: usize)
        ensures
            w == self.columns,
    {
        self.columns
    }

    pub fn height(&self) -> (h: usize)
        ensures
            h == self.rows,
    {
        self.rows
    }

    /// The initial starting position of the level.
    pub fn entrance(&self) -> (p: Point)
        ensures
            p == self.entrance,
    {
        self.entrance
    }

    /// The exit position of the level.
    pub fn exit(&self) -> (p: Point)
        ensures
            p == self.exit,
    {
        self.exit
    }

    /// The type of the cell at column `x`, row `y`; fails with
    /// `OutOfBounds` off the grid.
    pub fn tile_at(&self, x: usize, y: usize) -> (r: Result<TileType, LevelError>)
        requires
            self.wf(),
        ensures
            match r {
                Ok(t) => x < self.columns && y < self.rows && t == self.tile_type_at(
                    y as int,
                    x as int,
                ),
                Err(e) => !(x < self.columns && y < self.rows) && e == LevelError::OutOfBounds,
            },
    {
        if x < self.columns && y < self.rows {
            Ok(self.tiles[y][x].tile)
        } else {
            Err(LevelError::OutOfBounds)
        }
    }

    /// Whether the cell at column `x`, row `y` has ever been seen; fails
    /// with `OutOfBounds` off the grid.
    pub fn is_seen_at(&self, x: usize, y: usize) -> (r: Result<bool, LevelError>)
        requires
            self.wf(),
        ensures
            match r {
                Ok(b) => x < self.columns && y < self.rows && b == self.seen_at(y as int, x as int),
                Err(e) => !(x < self.columns && y < self.rows) && e == LevelError::OutOfBounds,
            },
    {
        if x < self.columns && y < self.rows {
            Ok(self.tiles[y][x].seen)
        } else {
            Err(LevelError::OutOfBounds)
        }
    }

    /// Overwrites the type of one cell, keeping its `seen` flag.
    pub fn set_tile_type(&mut self, r: usize, c: usize, t: TileType)
        requires
            old(self).wf(),
            r < old(self).rows,
            c < old(self).columns,
        ensures
            final(self).wf(),
            final(self).columns == old(self).columns,
            final(self).rows == old(self).rows,
            final(self).entrance == old(self).entrance,
            final(self).exit == old(self).exit,
            forall|rr: int, cc: int|
                0 <= rr < old(self).rows && 0 <= cc < old(self).columns ==> final(self)
                    .tile_type_at(rr, cc) == (if rr == r && cc == c {
                    t
                } else {
                    old(self).tile_type_at(rr, cc)
                }),
            forall|rr: int, cc: int|
                0 <= rr < old(self).rows && 0 <= cc < old(self).columns ==> final(self).seen_at(
                    rr,
                    cc,
                ) == old(self).seen_at(rr, cc),
    {
        let row: &mut Vec<Tile> = &mut self.tiles[r];
        let was_seen = row[c].seen;
        row.set(c, Tile { tile: t, seen: was_seen });
    }

    /// Marks one cell as seen, keeping its type.
    pub fn set_seen(&mut self, r: usize, c: usize)
        requires
            old(self).wf(),
            r < old(self).rows,
            c < old(self).columns,
        ensures
            final(self).wf(),
            final(self).columns == old(self).columns,
            final(self).rows == old(self).rows,
            final(self).entrance == old(self).entrance,
            final(self).exit == old(self).exit,
            forall|rr: int, cc: int|
                0 <= rr < old(self).rows && 0 <= cc < old(self).columns ==> final(self)
                    .tile_type_at(rr, cc) == old(self).tile_type_at(rr, cc),
            forall|rr: int, cc: int|
                0 <= rr < old(self).rows && 0 <= cc < old(self).columns ==> final(self).seen_at(
                    rr,
                    cc,
                ) == (if rr == r && cc == c {
                    true
                } else {
                    old(self).seen_at(rr, cc)
                }),
    {
        let row: &mut Vec<Tile> = &mut self.tiles[r];
        let t = row[c].tile;
        row.set(c, Tile { tile: t, seen: true });
    }

    /// Whether the cell at column `x`, row `y` is the down staircase;
    /// fails with `OutOfBounds` off the grid.
    pub fn is_stair_down_at(&self, x: usize, y: usize) -> (r: Result<bool, LevelError>)
        requires
            self.wf(),
        ensures
            match r {
                Ok(b) => x < self.columns && y < self.rows && b == (self.tile_type_at(
                    y as int,
                    x as int,
                ) == TileType::StairDown),
                Err(e) => !(x < self.columns && y < self.rows) && e == LevelError::OutOfBounds,
            },
    {
        if x < self.columns && y < self.rows {
            Ok(self.tiles[y][x].tile == TileType::StairDown)
        } else {
            Err(LevelError::OutOfBounds)
        }
    }

    /// Whether the cell at column `x`, row `y` is the up staircase;
    /// fails with `OutOfBounds` off the grid.
    pub fn is_stair_up_at(&self, x: usize, y: usize) -> (r: Result<bool, LevelError>)
        requires
            self.wf(),
        ensures
            match r {
                Ok(b) => x < self.columns && y < self.rows && b == (self.tile_type_at(
                    y as int,
                    x as int,
                ) == TileType::StairUp),
                Err(e) => !(x < self.columns && y < self.rows) && e == LevelError::OutOfBounds,
            },
    {
        if x < self.columns && y < self.rows {
            Ok(self.tiles[y][x].tile == TileType::StairUp)
        } else {
            Err(LevelError::OutOfBounds)
        }
    }

    /// Generates a new level for the given level index.
    pub fn new(level_number: usize, rng: &mut GameRng) -> (res: Result<Level, GenerationError>)
        requires
            level_number <= 0x0100_0000,
        ensures
            match res {
                Ok(l) => crate::levels::level::generation::generated_level_ok(
                    l,
                    level_number as int,
                ) && crate::levels::level::generation::all_unseen(l),
                Err(e) => e == GenerationError::Failed,
            },
    {
        crate::levels::level::generation::generate(level_number, rng)
    }

    /// Computes which cells the player can currently see, marking every
    /// such cell as seen for good. A cell is visible when it lies within
    /// the viewing box and range of the player and the straight line from
    /// the player reaches it before being stopped by a wall; walls
    /// themselves are visible as the last cell of such a line. Returns the
    /// visibility grid of this frame.
    #[verifier::rlimit(100)]
    #[verifier::spinoff_prover]
    pub fn update_visibility(&mut self, player_pos_p: &Point) -> (visible: Vec<Vec<bool>>)
        requires
            old(self).wf(),
            old(self).in_bounds(*player_pos_p),
        ensures
            final(self).wf(),
            final(self).columns == old(self).columns,
            final(self).rows == old(self).rows,
            final(self).entrance == old(self).entrance,
            final(self).exit == old(self).exit,
            forall|r: int, c: int|
                0 <= r < old(self).rows && 0 <= c < old(self).columns ==> #[trigger] final(self)
                    .tile_type_at(r, c) == old(self).tile_type_at(r, c),
            visible@.len() == old(self).rows,
            forall|r: int|
                0 <= r < old(self).rows ==> (#[trigger] visible@[r])@.len() == old(self).columns,
            // a cell is remembered exactly if it was remembered before or
            // is in view this frame
            forall|r: int, c: int|
                0 <= r < old(self).rows && 0 <= c < old(self).columns ==> #[trigger] final(self)
                    .seen_at(r, c) == (old(self).seen_at(r, c) || visible@[r]@[c]),
            // nothing outside the viewing box or the viewing range
            // comes into view
            forall|r: int, c: int|
                0 <= r < old(self).rows && 0 <= c < old(self).columns && #[trigger] visible@[r]@[c]
                    ==> in_view_box(*player_pos_p, r, c) && in_view_range(*player_pos_p, r, c),
            // the player's own cell is always in view
            visible@[player_pos_p.row as int]@[player_pos_p.col as int],
            // walls are opaque
            visibility_occlusion_ok(*final(self), *player_pos_p, visible@),
            // unless the player stands inside a wall, every neighbouring
            // cell comes into view as well
            old(self).tile_type_at(player_pos_p.row as int, player_pos_p.col as int)
                != TileType::Wall ==> forall|r: int, c: int|
                0 <= r < old(self).rows && 0 <= c < old(self).columns && abs_diff(
                    r,
                    player_pos_p.row as int,
                ) <= 1 && abs_diff(c, player_pos_p.col as int) <= 1 ==> #[trigger] visible@[r]@[c],
    {
        let view_distance: usize = 100 / 3;
        let rows = self.rows;
        let cols = self.columns;
        let ghost orig: Level = *self;
        let mut map_visible = bool_grid(rows, cols);

        let prow = player_pos_p.row;
        let pcol = player_pos_p.col;
        proof {
            // nothing is in view yet, so opacity holds vacuously
            assert(visibility_occlusion_ok(orig, *player_pos_p, map_visible@)) by {
                reveal(visibility_occlusion_ok);
            }
        }
        let row_start: usize = if prow >= view_distance {
            prow - view_distance
        } else {
            0
        };
        let mut row: usize = row_start;
        while row <= prow + view_distance
            invariant
                self.wf(),
                orig.wf(),
                self.columns == orig.columns,
                self.rows == orig.rows,
                self.entrance == orig.entrance,
                self.exit == orig.exit,
                rows == orig.rows,
                cols == orig.columns,
                prow == player_pos_p.row,
                pcol == player_pos_p.col,
                prow < rows,
                pcol < cols,
                rows <= MAX_COORD,
                cols <= MAX_COORD,
                view_distance == VIEW_DISTANCE,
                row_start == (if prow >= view_distance {
                    prow - view_distance
                } else {
                    0
                }),
                row_start <= row <= prow + view_distance + 1,
                forall|r: int, c: int|
                    0 <= r < rows && 0 <= c < cols ==> #[trigger] self.tile_type_at(r, c)
                        == orig.tile_type_at(r, c),
                map_visible@.len() == rows,
                forall|r: int| 0 <= r < rows ==> (#[trigger] map_visible@[r])@.len() == cols,
                forall|r: int, c: int|
                    0 <= r < rows && 0 <= c < cols ==> #[trigger] self.seen_at(r, c) == (
                    orig.seen_at(r, c) || map_visible@[r]@[c]),
                forall|r: int, c: int|
                    0 <= r < rows && 0 <= c < cols && #[trigger] map_visible@[r]@[c]
                        ==> in_view_box(*player_pos_p, r, c) && in_view_range(*player_pos_p, r, c),
                visibility_occlusion_ok(orig, *player_pos_p, map_visible@),
                row > prow ==> map_visible@[prow as int]@[pcol as int],
                orig.tile_type_at(prow as int, pcol as int) != TileType::Wall ==> forall|
                    r: int,
                    c: int,
                |
                    0 <= r < rows && 0 <= c < cols && abs_diff(r, prow as int) <= 1 && abs_diff(
                        c,
                        pcol as int,
                    ) <= 1 && r < row ==> #[trigger] map_visible@[r]@[c],
            decreases prow + view_distance + 1 - row,
        {
            let col_start: usize = if pcol >= view_distance {
                pcol - view_distance
            } else {
                0
            };
            let mut col: usize = col_start;
            while col <= pcol + view_distance
                invariant
                    self.wf(),
                    orig.wf(),
                    self.columns == orig.columns,
                    self.rows == orig.rows,
                    self.entrance == orig.entrance,
                    self.exit == orig.exit,
                    rows == orig.rows,
                    cols == orig.columns,
                    prow == player_pos_p.row,
                    pcol == player_pos_p.col,
                    prow < rows,
                    pcol < cols,
                    rows <= MAX_COORD,
                    cols <= MAX_COORD,
                    view_distance == VIEW_DISTANCE,
                    row_start == (if prow >= view_distance {
                        prow - view_distance
                    } else {
                        0
                    }),
                    row_start <= row <= prow + view_distance,
                    col_start == (if pcol >= view_distance {
                        pcol - view_distance
                    } else {
                        0
                    }),
                    col_start <= col <= pcol + view_distance + 1,
                    forall|r: int, c: int|
                        0 <= r < rows && 0 <= c < cols ==> #[trigger] self.tile_type_at(r, c)
                            == orig.tile_type_at(r, c),
                    map_visible@.len() == rows,
                    forall|r: int| 0 <= r < rows ==> (#[trigger] map_visible@[r])@.len() == cols,
                    forall|r: int, c: int|
                        0 <= r < rows && 0 <= c < cols ==> #[trigger] self.seen_at(r, c) == (
                        orig.seen_at(r, c) || map_visible@[r]@[c]),
                    forall|r: int, c: int|
                        0 <= r < rows && 0 <= c < cols && #[trigger] map_visible@[r]@[c]
                            ==> in_view_box(*player_pos_p, r, c) && in_view_range(
                            *player_pos_p,
                            r,
                            c,
                        ),
                    visibility_occlusion_ok(orig, *player_pos_p, map_visible@),
                    row > prow ==> map_visible@[prow as int]@[pcol as int],
                    row == prow && col > pcol ==> map_visible@[prow as int]@[pcol as int],
                    orig.tile_type_at(prow as int, pcol as int) != TileType::Wall ==> forall|
                        r: int,
                        c: int,
                    |
                        0 <= r < rows && 0 <= c < cols && abs_diff(r, prow as int) <= 1
                            && abs_diff(c, pcol as int) <= 1 && (r < row || (r == row && c < col))
                            ==> #[trigger] map_visible@[r]@[c],
                decreases pcol + view_distance + 1 - col,
            {
                let ghost body_vis = map_visible@;
                if col < cols && row < rows {
                    let already_visible = map_visible[row][col];
                    if !already_visible {
                        // the view range check: this integer comparison holds
                        // exactly when round(sqrt(0.5*dc^2 + dr^2)), the
                        // anisotropic view distance (columns weighted half),
                        // is at most the view distance of 33
                        let dc: i64 = col as i64 - pcol as i64;
                        let dr: i64 = row as i64 - prow as i64;
                        proof {
                            assert(-33 <= dc <= 33 && -33 <= dr <= 33);
                            assert(0 <= dc * dc <= 1089) by (nonlinear_arith)
                                requires
                                    -33 <= dc <= 33,
                            ;
                            assert(0 <= dr * dr <= 1089) by (nonlinear_arith)
                                requires
                                    -33 <= dr <= 33,
                            ;
                        }
                        if 2 * (dc * dc) + 4 * (dr * dr) <= 4489 {
                            proof {
                                assert(in_view_range(*player_pos_p, row as int, col as int));
                            }
                            let target = Point { col, row };
                            let line = vec_between_points(player_pos_p, &target);
                            let ghost pre_ray_vis = map_visible@;
                            let mut k: usize = 0;
                            while k < line.len()
                                invariant
                                    self.wf(),
                                    orig.wf(),
                                    self.columns == orig.columns,
                                    self.rows == orig.rows,
                                    self.entrance == orig.entrance,
                                    self.exit == orig.exit,
                                    rows == orig.rows,
                                    cols == orig.columns,
                                    prow == player_pos_p.row,
                                    pcol == player_pos_p.col,
                                    prow < rows,
                                    pcol < cols,
                                    target == (Point { col, row }),
                                    col < cols,
                                    row < rows,
                                    in_view_box(*player_pos_p, row as int, col as int),
                                    in_view_range(*player_pos_p, row as int, col as int),
                                    k <= line@.len(),
                                    line@.len() >= 1,
                                    line@[0] == *player_pos_p,
                                    forall|i: int|
                                        0 <= i < line@.len() ==> in_box(
                                            #[trigger] line@[i],
                                            *player_pos_p,
                                            target,
                                        ),
                                    forall|r: int, c: int|
                                        0 <= r < rows && 0 <= c < cols ==> #[trigger] self.tile_type_at(
                                            r,
                                            c,
                                        ) == orig.tile_type_at(r, c),
                                    map_visible@.len() == rows,
                                    forall|r: int|
                                        0 <= r < rows ==> (#[trigger] map_visible@[r])@.len() == cols,
                                    forall|r: int, c: int|
                                        0 <= r < rows && 0 <= c < cols ==> #[trigger] self.seen_at(r, c)
                                            == (orig.seen_at(r, c) || map_visible@[r]@[c]),
                                    forall|r: int, c: int|
                                        0 <= r < rows && 0 <= c < cols && #[trigger] map_visible@[r]@[c]
                                            ==> in_view_box(*player_pos_p, r, c) && in_view_range(
                                            *player_pos_p,
                                            r,
                                            c,
                                        ),
                                    row > prow ==> map_visible@[prow as int]@[pcol as int],
                                    row == prow && col > pcol ==> map_visible@[prow as int]@[pcol
                                        as int],
                                    k > 0 ==> map_visible@[prow as int]@[pcol as int],
                                    visibility_occlusion_ok(orig, *player_pos_p, map_visible@),
                                    chebyshev_adjacent_steps(line@),
                                    recedes_from_start(line@, *player_pos_p),
                                    forall|i: int|
                                        0 <= i < line@.len() - 1 ==> #[trigger] line@[i] != line@[i
                                            + 1],
                                    // the walk only passes open cells
                                    k > 0 ==> orig.tile_type_at(
                                        line@[k - 1].row as int,
                                        line@[k - 1].col as int,
                                    ) != TileType::Wall,
                                    // cells already walked on this ray are in view
                                    forall|j: int|
                                        0 <= j < k ==> map_visible@[(#[trigger] line@[j]).row as int]@[line@[j].col as int],
                                    // marks only grow along the way
                                    pre_ray_vis.len() == rows,
                                    forall|r: int|
                                        0 <= r < rows ==> (#[trigger] pre_ray_vis[r])@.len() == cols,
                                    forall|r: int, c: int|
                                        0 <= r < rows && 0 <= c < cols && #[trigger] pre_ray_vis[r]@[c]
                                            ==> map_visible@[r]@[c],
                                ensures
                                    self.wf(),
                                    self.columns == orig.columns,
                                    self.rows == orig.rows,
                                    self.entrance == orig.entrance,
                                    self.exit == orig.exit,
                                    forall|r: int, c: int|
                                        0 <= r < rows && 0 <= c < cols ==> #[trigger] self.tile_type_at(
                                            r,
                                            c,
                                        ) == orig.tile_type_at(r, c),
                                    map_visible@.len() == rows,
                                    forall|r: int|
                                        0 <= r < rows ==> (#[trigger] map_visible@[r])@.len() == cols,
                                    forall|r: int, c: int|
                                        0 <= r < rows && 0 <= c < cols ==> #[trigger] self.seen_at(r, c)
                                            == (orig.seen_at(r, c) || map_visible@[r]@[c]),
                                    forall|r: int, c: int|
                                        0 <= r < rows && 0 <= c < cols && #[trigger] map_visible@[r]@[c]
                                            ==> in_view_box(*player_pos_p, r, c) && in_view_range(
                                            *player_pos_p,
                                            r,
                                            c,
                                        ),
                                    map_visible@[prow as int]@[pcol as int],
                                    visibility_occlusion_ok(orig, *player_pos_p, map_visible@),
                                    forall|r: int, c: int|
                                        0 <= r < rows && 0 <= c < cols && #[trigger] pre_ray_vis[r]@[c]
                                            ==> map_visible@[r]@[c],
                                    // with open ground underfoot the ray gets
                                    // at least one cell beyond the player
                                    orig.tile_type_at(prow as int, pcol as int) != TileType::Wall
                                        && line@.len() >= 2 ==> map_visible@[(line@[1]).row as int]@[line@[1].col as int],
                                decreases line@.len() - k,
                            {
                                let p = line[k];
                                proof {
                                    assert(in_box(line@[k as int], *player_pos_p, target));
                                    assert(p.row < rows && p.col < cols);
                                    assert(in_view_box(*player_pos_p, p.row as int, p.col as int));
                                }
                                let ghost vis_before = map_visible@;
                                let ghost self_before = *self;
                                grid_mark(&mut map_visible, p.row, p.col);
                                self.set_seen(p.row, p.col);
                                proof {
                                    assert forall|r: int, c: int|
                                        0 <= r < rows && 0 <= c < cols implies #[trigger] self.seen_at(
                                        r,
                                        c,
                                    ) == (orig.seen_at(r, c) || map_visible@[r]@[c]) by {
                                        if r == p.row && c == p.col {
                                            assert(self.seen_at(r, c));
                                            assert(map_visible@[r]@[c]);
                                        } else {
                                            assert(self.seen_at(r, c) == self_before.seen_at(r, c));
                                            assert(map_visible@[r]@[c] == vis_before[r]@[c]);
                                        }
                                    }
                                    assert forall|r: int, c: int|
                                        0 <= r < rows && 0 <= c < cols && #[trigger] map_visible@[r]@[c]
                                            implies in_view_box(*player_pos_p, r, c)
                                        && in_view_range(*player_pos_p, r, c) by {
                                        if r == p.row && c == p.col {
                                            lemma_view_range_monotone(
                                                *player_pos_p,
                                                row as int,
                                                col as int,
                                                r,
                                                c,
                                            );
                                        } else {
                                            assert(map_visible@[r]@[c] == vis_before[r]@[c]);
                                        }
                                    }
                                    assert(map_visible@[p.row as int]@[p.col as int]);
                                    assert forall|j: int|
                                        0 <= j < k + 1 implies map_visible@[(#[trigger] line@[j]).row as int]@[line@[j].col as int] by {
                                        let q = line@[j];
                                        assert(q.row < rows && q.col < cols);
                                        if j < k {
                                            assert(vis_before[q.row as int]@[q.col as int]);
                                            if q.row == p.row && q.col == p.col {
                                            } else {
                                                assert(map_visible@[q.row as int]@[q.col as int]
                                                    == vis_before[q.row as int]@[q.col as int]);
                                            }
                                        } else {
                                            assert(q == p);
                                        }
                                    }
                                    assert forall|r: int, c: int|
                                        0 <= r < rows && 0 <= c < cols && #[trigger] pre_ray_vis[r]@[c]
                                            implies map_visible@[r]@[c] by {
                                        if r == p.row && c == p.col {
                                        } else {
                                            assert(vis_before[r]@[c]);
                                            assert(map_visible@[r]@[c] == vis_before[r]@[c]);
                                        }
                                    }
                                    assert(line@[0] == *player_pos_p);
                                    if k == 0 {
                                        assert(p == *player_pos_p);
                                    } else {
                                        assert(vis_before[prow as int]@[pcol as int]);
                                        if prow == p.row && pcol == p.col {
                                            assert(map_visible@[prow as int]@[pcol as int]);
                                        } else {
                                            assert(map_visible@[prow as int]@[pcol as int]
                                                == vis_before[prow as int]@[pcol as int]);
                                        }
                                    }
                                    assert(map_visible@[prow as int]@[pcol as int]);
                                    // walls stay opaque: the freshly
                                    // marked cell was reached through the
                                    // previous open cell of its ray
                                    assert forall|r: int, c: int|
                                        0 <= r < rows && 0 <= c < cols implies #[trigger] map_visible@[r]@[c]
                                            == (vis_before[r]@[c] || (r == p.row && c
                                            == p.col)) by {
                                        if r == p.row && c == p.col {
                                        } else {
                                            assert(map_visible@[r]@[c] == vis_before[r]@[c]);
                                        }
                                    }
                                    if p != *player_pos_p {
                                        assert(k >= 1) by {
                                            if k == 0 {
                                                assert(p == *player_pos_p);
                                            }
                                        }
                                        let q = line@[k - 1];
                                        assert(line@[k as int] == p);
                                        assert(in_box(q, *player_pos_p, target));
                                        assert(q.row < rows && q.col < cols);
                                        assert(abs_diff(q.col as int, line@[k - 1 + 1].col as int)
                                            <= 1 && abs_diff(
                                            q.row as int,
                                            line@[k - 1 + 1].row as int,
                                        ) <= 1);
                                        assert(abs_diff(q.row as int, p.row as int) <= 1
                                            && abs_diff(q.col as int, p.col as int) <= 1);
                                        assert(q != p);
                                        assert(abs_diff(q.row as int, prow as int) <= abs_diff(
                                            p.row as int,
                                            prow as int,
                                        ) && abs_diff(q.col as int, pcol as int) <= abs_diff(
                                            p.col as int,
                                            pcol as int,
                                        )) by {
                                            assert(line@[0] == *player_pos_p);
                                        }
                                        assert(vis_before[q.row as int]@[q.col as int]);
                                        assert(map_visible@[q.row as int]@[q.col as int]);
                                        assert(orig.tile_type_at(q.row as int, q.col as int)
                                            != TileType::Wall);
                                        lemma_occlusion_after_mark(
                                            orig,
                                            *player_pos_p,
                                            vis_before,
                                            map_visible@,
                                            p,
                                            q,
                                        );
                                    } else {
                                        lemma_occlusion_after_mark(
                                            orig,
                                            *player_pos_p,
                                            vis_before,
                                            map_visible@,
                                            p,
                                            p,
                                        );
                                    }
                                }
                                // a wall blocks the line of sight beyond it
                                if self.tiles[p.row][p.col].tile == TileType::Wall {
                                    proof {
                                        if k == 0 {
                                            // the wall is the player's own cell
                                            assert(p == *player_pos_p);
                                            assert(self.tile_type_at(p.row as int, p.col as int)
                                                == TileType::Wall);
                                            assert(orig.tile_type_at(prow as int, pcol as int)
                                                == TileType::Wall);
                                        } else {
                                            assert(map_visible@[(line@[1]).row as int]@[line@[1].col as int]);
                                        }
                                    }
                                    break ;
                                }
                                proof {
                                    assert(orig.tile_type_at(p.row as int, p.col as int)
                                        != TileType::Wall);
                                }
                                k += 1;
                            }
                            proof {
                                // earlier marks survive the ray
                                assert forall|r: int, c: int|
                                    0 <= r < rows && 0 <= c < cols && #[trigger] body_vis[r]@[c]
                                        implies map_visible@[r]@[c] by {
                                    assert(pre_ray_vis[r]@[c]);
                                }
                                // a neighbouring cell was the last of its
                                // two-cell ray, unless the player is in a
                                // wall
                                if abs_diff(row as int, prow as int) <= 1 && abs_diff(
                                    col as int,
                                    pcol as int,
                                ) <= 1 && orig.tile_type_at(prow as int, pcol as int)
                                    != TileType::Wall && !(row == prow && col == pcol) {
                                    assert(line@.len() == 2);
                                    assert(line@[1] == target);
                                    assert(map_visible@[row as int]@[col as int]);
                                }
                            }
                        } else {
                            proof {
                                // a neighbouring cell is always within range
                                if abs_diff(row as int, prow as int) <= 1 && abs_diff(
                                    col as int,
                                    pcol as int,
                                ) <= 1 {
                                    assert(2 * (dc * dc) + 4 * (dr * dr) <= 6) by (nonlinear_arith)
                                        requires
                                            -1 <= dc <= 1,
                                            -1 <= dr <= 1,
                                    ;
                                    assert(false);
                                }
                            }
                        }
                        proof {
                            if row == prow && col == pcol {
                                // the player's own cell is at distance zero,
                                // so its ray was cast and marked it
                                assert(dc == 0 && dr == 0);
                                assert(dc * dc == 0 && dr * dr == 0) by (nonlinear_arith)
                                    requires
                                        dc == 0,
                                        dr == 0,
                                ;
                                assert(map_visible@[prow as int]@[pcol as int]);
                            }
                        }
                    } else {
                        proof {
                            if row == prow && col == pcol {
                                assert(map_visible@[prow as int]@[pcol as int]);
                            }
                        }
                    }
                }
                proof {
                    if row == prow && col == pcol {
                        assert(map_visible@[prow as int]@[pcol as int]);
                    }
                    if orig.tile_type_at(prow as int, pcol as int) != TileType::Wall {
                        assert forall|r: int, c: int|
                            0 <= r < rows && 0 <= c < cols && abs_diff(r, prow as int) <= 1
                                && abs_diff(c, pcol as int) <= 1 && (r < row || (r == row && c < col
                                + 1)) implies #[trigger] map_visible@[r]@[c] by {
                            if r < row || (r == row && c < col) {
                                assert(body_vis[r]@[c]);
                            } else {
                                assert(r == row && c == col);
                            }
                        }
                    }
                }
                col += 1;
            }
            row += 1;
        }
        proof {
            // the occlusion facts carry over to the final level value,
            // whose tiles are unchanged
            reveal(visibility_occlusion_ok);
            assert forall|r: int, c: int|
                0 <= r < rows && 0 <= c < cols && #[trigger] map_visible@[r]@[c] && !(r == prow && c
                    == pcol) implies exists|r2: int, c2: int|
                #[trigger] occlusion_witness(*self, *player_pos_p, map_visible@, r, c, r2, c2) by {
                let (r2, c2) = choose|r2: int, c2: int|
                    #[trigger] occlusion_witness(orig, *player_pos_p, map_visible@, r, c, r2, c2);
                assert(self.tile_type_at(r2, c2) == orig.tile_type_at(r2, c2));
                assert(occlusion_witness(*self, *player_pos_p, map_visible@, r, c, r2, c2));
            }
        }
        map_visible
    }

    /// Renders the level into display symbols, one per cell, from the
    /// given visibility grid and the remembered state. Pure: the level is
    /// not changed.
    pub fn render_symbols(&self, visible: &Vec<Vec<bool>>) -> (m: Vec<Vec<char>>)
        requires
            self.wf(),
            visible@.len() == self.rows,
            forall|r: int| 0 <= r < self.rows ==> (#[trigger] visible@[r])@.len() == self.columns,
        ensures
            render_matches(*self, m@, visible@),
    {
        let rows = self.rows;
        let cols = self.columns;
        let mut m: Vec<Vec<char>> = Vec::new();
        let mut y: usize = 0;
        while y < rows
            invariant
                self.wf(),
                rows == self.rows,
                cols == self.columns,
                visible@.len() == rows,
                forall|r: int| 0 <= r < rows ==> (#[trigger] visible@[r])@.len() == cols,
                y <= rows,
                m@.len() == y,
                forall|r: int| 0 <= r < y ==> (#[trigger] m@[r])@.len() == cols,
                forall|r: int, c: int|
                    0 <= r < y && 0 <= c < cols ==> #[trigger] m@[r]@[c] == symbol_spec(
                        self.tile_type_at(r, c),
                        visible@[r]@[c],
                        self.seen_at(r, c),
                    ),
            decreases rows - y,
        {
            let mut mrow: Vec<char> = Vec::new();
            let mut x: usize = 0;
            while x < cols
                invariant
                    self.wf(),
                    rows == self.rows,
                    cols == self.columns,
                    visible@.len() == rows,
                    forall|r: int| 0 <= r < rows ==> (#[trigger] visible@[r])@.len() == cols,
                    y < rows,
                    x <= cols,
                    mrow@.len() == x,
                    forall|c: int|
                        0 <= c < x ==> #[trigger] mrow@[c] == symbol_spec(
                            self.tile_type_at(y as int, c),
                            visible@[y as int]@[c],
                            self.seen_at(y as int, c),
                        ),
                decreases cols - x,
            {
                let t = self.tiles[y][x].tile;
                let seen = self.tiles[y][x].seen;
                let vis = visible[y][x];
                let ch: char = match t {
                    TileType::Floor => if vis {
                        '.'
                    } else if seen {
                        ':'
                    } else {
                        ' '
                    },
                    TileType::StairUp => if vis || seen {
                        '<'
                    } else {
                        ' '
                    },
                    TileType::StairDown => if vis || seen {
                        '>'
                    } else {
                        ' '
                    },
                    TileType::Wall => if vis || seen {
                        '#'
                    } else {
                        ' '
                    },
                };
                mrow.push(ch);
                x += 1;
            }
            m.push(mrow);
            y += 1;
        }
        m
    }

    /// Computes this frame's visibility around the player, folds it into
    /// the remembered map, and renders the whole level into display
    /// symbols. Cells once seen stay seen; cells outside the viewing box
    /// render purely from memory; the player's own cell renders as in
    /// view.
    pub fn map_vec(&mut self, player_pos_p: &Point) -> (m: Vec<Vec<char>>)
        requires
            old(self).wf(),
            old(self).in_bounds(*player_pos_p),
        ensures
            final(self).wf(),
            final(self).columns == old(self).columns,
            final(self).rows == old(self).rows,
            final(self).entrance == old(self).entrance,
            final(self).exit == old(self).exit,
            forall|r: int, c: int|
                0 <= r < old(self).rows && 0 <= c < old(self).columns ==> #[trigger] final(self)
                    .tile_type_at(r, c) == old(self).tile_type_at(r, c),
            // once seen, a cell stays seen
            forall|r: int, c: int|
                0 <= r < old(self).rows && 0 <= c < old(self).columns && old(self).seen_at(r, c)
                    ==> #[trigger] final(self).seen_at(r, c),
            // the full account: some visibility grid of this frame
            // explains both the new memory and every rendered symbol
            exists|vis: Seq<Vec<bool>>|
                #[trigger] frame_visibility_ok(*old(self), *final(self), *player_pos_p, vis)
                    && render_matches(*final(self), m@, vis),
            exists|vis: Seq<Vec<bool>>|
                #[trigger] frame_renders_ok(*final(self), *player_pos_p, m@, vis),
            // the player's own cell renders as in view and remembered
            m@[player_pos_p.row as int]@[player_pos_p.col as int] == symbol_spec(
                old(self).tile_type_at(player_pos_p.row as int, player_pos_p.col as int),
                true,
                true,
            ),
            // cells outside the viewing box render purely from memory
            forall|r: int, c: int|
                0 <= r < old(self).rows && 0 <= c < old(self).columns && !in_view_box(
                    *player_pos_p,
                    r,
                    c,
                ) ==> #[trigger] m@[r]@[c] == symbol_spec(
                    old(self).tile_type_at(r, c),
                    false,
                    old(self).seen_at(r, c),
                ),
            // unless the player stands inside a wall, the neighbouring
            // cells render as in view too
            old(self).tile_type_at(player_pos_p.row as int, player_pos_p.col as int)
                != TileType::Wall ==> forall|r: int, c: int|
                0 <= r < old(self).rows && 0 <= c < old(self).columns && abs_diff(
                    r,
                    player_pos_p.row as int,
                ) <= 1 && abs_diff(c, player_pos_p.col as int) <= 1 ==> #[trigger] m@[r]@[c]
                    == symbol_spec(old(self).tile_type_at(r, c), true, true),
    {
        let ghost orig: Level = *self;
        let visible = self.update_visibility(player_pos_p);
        let m = self.render_symbols(&visible);
        proof {
            assert(frame_visibility_ok(orig, *self, *player_pos_p, visible@));
            assert(render_matches(*self, m@, visible@));
            assert(frame_renders_ok(*self, *player_pos_p, m@, visible@));
            let prow = player_pos_p.row as int;
            let pcol = player_pos_p.col as int;
            assert(self.seen_at(prow, pcol) == (orig.seen_at(prow, pcol) || visible@[prow]@[pcol]));
            assert(m@[prow]@[pcol] == symbol_spec(
                orig.tile_type_at(prow, pcol),
                true,
                self.seen_at(prow, pcol),
            ));
            assert(symbol_spec(orig.tile_type_at(prow, pcol), true, self.seen_at(prow, pcol))
                == symbol_spec(orig.tile_type_at(prow, pcol), true, true));
            assert forall|r: int, c: int|
                0 <= r < orig.rows && 0 <= c < orig.columns && !in_view_box(*player_pos_p, r, c)
                    implies #[trigger] m@[r]@[c] == symbol_spec(
                orig.tile_type_at(r, c),
                false,
                orig.seen_at(r, c),
            ) by {
                assert(!visible@[r]@[c]);
                assert(self.seen_at(r, c) == orig.seen_at(r, c));
            }
            if orig.tile_type_at(prow, pcol) != TileType::Wall {
                assert forall|r: int, c: int|
                    0 <= r < orig.rows && 0 <= c < orig.columns && abs_diff(r, prow) <= 1
                        && abs_diff(c, pcol) <= 1 implies #[trigger] m@[r]@[c] == symbol_spec(
                    orig.tile_type_at(r, c),
                    true,
                    true,
                ) by {
                    assert(visible@[r]@[c]);
                    assert(self.seen_at(r, c));
                }
            }
        }
        m
    }
}

} // verus!
