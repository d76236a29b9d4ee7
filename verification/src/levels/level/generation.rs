//! Constructive level generation: logistic sizing, randomized room and
//! corridor placement with bounded retry, and stairway placement.

use vstd::prelude::*;
use crate::levels::level::{Level, Tile, TileType};
use crate::levels::level::connectivity::{fully_connected, is_fully_connected};
use crate::rng::GameRng;
use crate::utils::{Point, abs_diff, MAX_COORD};

verus! {

/// Error raised when generation gives up: a stairway site or the required
/// layout could not be produced within the retry budget.
#[derive(Clone, Copy, Debug, PartialEq, Eq, Structural)]
pub enum GenerationError {
    Failed,
}

/// Every cell of the inclusive region is a wall.
pub open spec fn region_all_wall(l: Level, x0: int, y0: int, x1: int, y1: int) -> bool {
    forall|r: int, c: int|
        y0 <= r <= y1 && x0 <= c <= x1 ==> #[trigger] l.tile_type_at(r, c) == TileType::Wall
}

/// The room with its one-cell halo lies strictly inside the grid and is
/// entirely wall.
pub open spec fn room_fits(l: Level, px: int, py: int, dx: int, dy: int) -> bool {
    &&& px >= 1 && py >= 1
    &&& px + dx < l.columns - 1
    &&& py + dy < l.rows - 1
    &&& region_all_wall(l, px - 1, py - 1, px + dx + 1, py + dy + 1)
}

/// Every cell is either wall or floor (no stairs placed yet).
pub open spec fn wall_floor_only(l: Level) -> bool {
    forall|r: int, c: int|
        0 <= r < l.rows && 0 <= c < l.columns ==> #[trigger] l.tile_type_at(r, c)
            == TileType::Wall || l.tile_type_at(r, c) == TileType::Floor
}

/// No cell has been seen yet.
pub open spec fn all_unseen(l: Level) -> bool {
    forall|r: int, c: int|
        0 <= r < l.rows && 0 <= c < l.columns ==> !(#[trigger] l.seen_at(r, c))
}

/// The two levels have the same shape, entrance and exit.
pub open spec fn same_frame(a: Level, b: Level) -> bool {
    &&& a.columns == b.columns
    &&& a.rows == b.rows
    &&& a.entrance == b.entrance
    &&& a.exit == b.exit
}

/// Carves the given rectangle to floor; a rectangle reaching past the
/// grid's edge is clipped to it.
pub fn empty_out_area(
    level: &mut Level,
    pos_x: usize,
    pos_y: usize,
    dimension_x: usize,
    dimension_y: usize,
)
    requires
        old(level).wf(),
        pos_x + dimension_x <= usize::MAX,
        pos_y + dimension_y <= usize::MAX,
    ensures
        final(level).wf(),
        same_frame(*final(level), *old(level)),
        forall|r: int, c: int|
            0 <= r < old(level).rows && 0 <= c < old(level).columns ==> #[trigger] final(level)
                .tile_type_at(r, c) == (if pos_y <= r < pos_y + dimension_y && pos_x <= c < pos_x
                + dimension_x {
                TileType::Floor
            } else {
                old(level).tile_type_at(r, c)
            }),
        forall|r: int, c: int|
            0 <= r < old(level).rows && 0 <= c < old(level).columns ==> #[trigger] final(level)
                .seen_at(r, c) == old(level).seen_at(r, c),
{
    let ghost orig: Level = *level;
    let y_end: usize = if pos_y + dimension_y < level.rows {
        pos_y + dimension_y
    } else {
        level.rows
    };
    let x_end: usize = if pos_x + dimension_x < level.columns {
        pos_x + dimension_x
    } else {
        level.columns
    };
    let mut y: usize = pos_y;
    while y < y_end
        invariant
            level.wf(),
            same_frame(*level, orig),
            orig.wf(),
            y_end == (if pos_y + dimension_y < orig.rows {
                pos_y + dimension_y
            } else {
                orig.rows as int
            }),
            x_end == (if pos_x + dimension_x < orig.columns {
                pos_x + dimension_x
            } else {
                orig.columns as int
            }),
            pos_y <= y <= y_end || y == pos_y,
            forall|r: int, c: int|
                0 <= r < orig.rows && 0 <= c < orig.columns ==> #[trigger] level.tile_type_at(r, c)
                    == (if pos_y <= r < y && pos_x <= c < pos_x + dimension_x {
                    TileType::Floor
                } else {
                    orig.tile_type_at(r, c)
                }),
            forall|r: int, c: int|
                0 <= r < orig.rows && 0 <= c < orig.columns ==> #[trigger] level.seen_at(r, c)
                    == orig.seen_at(r, c),
        decreases y_end - y,
    {
        let mut x: usize = pos_x;
        while x < x_end
            invariant
                level.wf(),
                same_frame(*level, orig),
                orig.wf(),
                y_end == (if pos_y + dimension_y < orig.rows {
                    pos_y + dimension_y
                } else {
                    orig.rows as int
                }),
                x_end == (if pos_x + dimension_x < orig.columns {
                    pos_x + dimension_x
                } else {
                    orig.columns as int
                }),
                pos_y <= y < y_end,
                pos_x <= x <= x_end || x == pos_x,
                forall|r: int, c: int|
                    0 <= r < orig.rows && 0 <= c < orig.columns ==> #[trigger] level.tile_type_at(
                        r,
                        c,
                    ) == (if (pos_y <= r < y && pos_x <= c < pos_x + dimension_x) || (r == y
                        && pos_x <= c < x) {
                        TileType::Floor
                    } else {
                        orig.tile_type_at(r, c)
                    }),
                forall|r: int, c: int|
                    0 <= r < orig.rows && 0 <= c < orig.columns ==> #[trigger] level.seen_at(r, c)
                        == orig.seen_at(r, c),
            decreases x_end - x,
        {
            level.set_tile_type(y, x, TileType::Floor);
            x += 1;
        }
        y += 1;
    }
}

/// Checks that a room of the given position and size, with a one-cell halo
/// around it, lies strictly inside the grid and collides with nothing
/// (every cell of it is still wall). Does not change the level.
pub fn room_collision(
    level: &mut Level,
    room_pos_x: usize,
    room_pos_y: usize,
    room_dimension_x: usize,
    room_dimension_y: usize,
) -> (r: bool)
    requires
        old(level).wf(),
        room_pos_x <= MAX_COORD,
        room_pos_y <= MAX_COORD,
        room_dimension_x <= MAX_COORD,
        room_dimension_y <= MAX_COORD,
    ensures
        *final(level) == *old(level),
        r == room_fits(
            *old(level),
            room_pos_x as int,
            room_pos_y as int,
            room_dimension_x as int,
            room_dimension_y as int,
        ),
{
    // check for the edge of the world
    if room_pos_x < 1 || room_pos_y < 1 || room_pos_x + room_dimension_x >= level.columns - 1
        || room_pos_y + room_dimension_y >= level.rows - 1 {
        return false;
    }
    // check for any empty spaces within and around the room
    let mut x: usize = room_pos_x - 1;
    while x <= room_pos_x + room_dimension_x + 1
        invariant
            level.wf(),
            1 <= room_pos_x,
            1 <= room_pos_y,
            room_pos_x + room_dimension_x < level.columns - 1,
            room_pos_y + room_dimension_y < level.rows - 1,
            room_pos_x - 1 <= x <= room_pos_x + room_dimension_x + 2,
            forall|r: int, c: int|
                room_pos_y - 1 <= r <= room_pos_y + room_dimension_y + 1 && room_pos_x - 1 <= c < x
                    ==> #[trigger] level.tile_type_at(r, c) == TileType::Wall,
        decreases room_pos_x + room_dimension_x + 2 - x,
    {
        let mut y: usize = room_pos_y - 1;
        while y <= room_pos_y + room_dimension_y + 1
            invariant
                level.wf(),
                1 <= room_pos_x,
                1 <= room_pos_y,
                room_pos_x + room_dimension_x < level.columns - 1,
                room_pos_y + room_dimension_y < level.rows - 1,
                room_pos_x - 1 <= x <= room_pos_x + room_dimension_x + 1,
                room_pos_y - 1 <= y <= room_pos_y + room_dimension_y + 2,
                forall|r: int, c: int|
                    room_pos_y - 1 <= r <= room_pos_y + room_dimension_y + 1 && room_pos_x - 1 <= c
                        < x ==> #[trigger] level.tile_type_at(r, c) == TileType::Wall,
                forall|r: int|
                    room_pos_y - 1 <= r < y ==> #[trigger] level.tile_type_at(r, x as int)
                        == TileType::Wall,
            decreases room_pos_y + room_dimension_y + 2 - y,
        {
            if level.tiles[y][x].tile != TileType::Wall {
                proof {
                    assert(level.tile_type_at(y as int, x as int) != TileType::Wall);
                }
                return false;
            }
            y += 1;
        }
        x += 1;
    }
    true
}

/// Cells may only have been carved open: each is either what it was, or
/// has become floor.
pub open spec fn carved_from(now: Level, before: Level) -> bool {
    &&& same_frame(now, before)
    &&& forall|r: int, c: int|
        0 <= r < before.rows && 0 <= c < before.columns ==> #[trigger] now.tile_type_at(r, c)
            == before.tile_type_at(r, c) || now.tile_type_at(r, c) == TileType::Floor
    &&& forall|r: int, c: int|
        0 <= r < before.rows && 0 <= c < before.columns ==> #[trigger] now.seen_at(r, c)
            == before.seen_at(r, c)
}

/// Tries to open a doorway at the given cell and attach a hallway plus a
/// new room of the given size behind it. The cell must sit on the boundary
/// wall of an existing open region: the immediate neighbour on one side is
/// open and the opposite neighbour is wall. The new room's footprint, with
/// a one-cell halo, must be entirely wall. On success both the hallway and
/// the room are carved to floor; on failure nothing changes.
#[verifier::rlimit(60)]
pub fn empty_out_hallway_and_new_room(
    level: &mut Level,
    rng: &mut GameRng,
    pos_x: usize,
    pos_y: usize,
    room_dimension_x: usize,
    room_dimension_y: usize,
) -> (created: bool)
    requires
        old(level).wf(),
        old(level).columns >= 2,
        old(level).rows >= 2,
        1 <= room_dimension_x <= MAX_COORD,
        1 <= room_dimension_y <= MAX_COORD,
        pos_x <= MAX_COORD,
        pos_y <= MAX_COORD,
    ensures
        final(level).wf(),
        carved_from(*final(level), *old(level)),
        !created ==> *final(level) == *old(level),
        // a doorway too close to the edge, or not on stone, is refused
        // before anything is drawn or carved
        (pos_x < 2 || pos_y < 2 || pos_x >= old(level).columns - 2 || pos_y >= old(level).rows - 2
            || old(level).tile_type_at(pos_y as int, pos_x as int) != TileType::Wall) ==> !created,
        // on success the doorway itself was stone and is now open, and
        // every carved cell was stone inside the one-cell edge margin
        created ==> old(level).tile_type_at(pos_y as int, pos_x as int) == TileType::Wall
            && final(level).tile_type_at(pos_y as int, pos_x as int) == TileType::Floor,
        created ==> forall|r: int, c: int|
            0 <= r < old(level).rows && 0 <= c < old(level).columns && #[trigger] final(level)
                .tile_type_at(r, c) != old(level).tile_type_at(r, c) ==> old(level).tile_type_at(
                r,
                c,
            ) == TileType::Wall && final(level).tile_type_at(r, c) == TileType::Floor && 1 <= r
                < old(level).rows - 1 && 1 <= c < old(level).columns - 1,
{
    // never allow a hallway within 2 tiles of the edge
    if pos_x < 2 || pos_y < 2 || pos_x >= level.columns - 2 || pos_y >= level.rows - 2 {
        return false;
    }
    // the doorway cell itself must be stone
    if level.tiles[pos_y][pos_x].tile != TileType::Wall {
        proof {
            assert(level.tile_type_at(pos_y as int, pos_x as int) != TileType::Wall);
        }
        return false;
    }
    proof {
        assert(level.tile_type_at(pos_y as int, pos_x as int) == TileType::Wall);
    }
    // hallway length: usually the minimum separation of 2, sometimes a
    // long corridor
    let hallway_length: usize = if rng.chance(95) {
        2
    } else {
        rng.random_range(20, 50)
    };

    let ghost orig: Level = *level;

    // hallway on top
    if level.tiles[pos_y + 1][pos_x].tile != TileType::Wall && level.tiles[pos_y - 1][pos_x].tile
        == TileType::Wall {
        // pick a random x offset and see if the room can fit
        let pos_x_offset = rng.random_range(0, room_dimension_x);
        if pos_x <= pos_x_offset || pos_x + pos_x_offset >= level.columns {
            return false;
        }
        let room_pos_x: usize = pos_x - pos_x_offset;

        if pos_y < hallway_length + room_dimension_y {
            return false;
        }
        let room_pos_y: usize = pos_y - hallway_length - room_dimension_y;

        if room_collision(level, pos_x, pos_y - hallway_length, 1, hallway_length - 1)
            && room_collision(level, room_pos_x, room_pos_y, room_dimension_x, room_dimension_y) {
            empty_out_area(level, pos_x, pos_y - hallway_length, 1, hallway_length + 1);
            let ghost mid: Level = *level;
            empty_out_area(level, room_pos_x, room_pos_y, room_dimension_x, room_dimension_y);
            proof {
                lemma_carve_carve(orig, mid, *level);
                assert forall|r: int, c: int|
                    pos_y - hallway_length <= r < pos_y - hallway_length + (hallway_length + 1)
                        && pos_x <= c < pos_x + 1 implies #[trigger] orig.tile_type_at(r, c)
                    == TileType::Wall && 1 <= r < orig.rows - 1 && 1 <= c < orig.columns - 1 by {
                    if r < pos_y {
                        assert(orig.tile_type_at(r, c) == TileType::Wall);
                    } else {
                        assert(r == pos_y && c == pos_x);
                    }
                }
                assert forall|r: int, c: int|
                    room_pos_y <= r < room_pos_y + room_dimension_y && room_pos_x <= c < room_pos_x
                        + room_dimension_x implies #[trigger] orig.tile_type_at(r, c)
                    == TileType::Wall && 1 <= r < orig.rows - 1 && 1 <= c < orig.columns - 1 by {
                    assert(orig.tile_type_at(r, c) == TileType::Wall);
                }
                lemma_carve_pair_facts(
                    orig,
                    mid,
                    *level,
                    pos_x as int,
                    (pos_y - hallway_length) as int,
                    1,
                    (hallway_length + 1) as int,
                    room_pos_x as int,
                    room_pos_y as int,
                    room_dimension_x as int,
                    room_dimension_y as int,
                );
                assert(level.tile_type_at(pos_y as int, pos_x as int) == TileType::Floor);
            }
            return true;
        }
        return false;
    }
    // hallway on bottom
    if level.tiles[pos_y - 1][pos_x].tile != TileType::Wall && level.tiles[pos_y + 1][pos_x].tile
        == TileType::Wall {
        let pos_x_offset = rng.random_range(0, room_dimension_x);
        if pos_x <= pos_x_offset || pos_x + pos_x_offset >= level.columns {
            return false;
        }
        let room_pos_x: usize = pos_x - pos_x_offset;

        if level.rows <= room_dimension_y + pos_y + hallway_length {
            return false;
        }
        let room_pos_y: usize = pos_y + hallway_length;

        if room_collision(level, pos_x, pos_y - 1, 1, hallway_length + 1) && room_collision(
            level,
            room_pos_x,
            room_pos_y,
            room_dimension_x,
            room_dimension_y,
        ) {
            empty_out_area(level, pos_x, pos_y, 1, hallway_length);
            let ghost mid: Level = *level;
            empty_out_area(level, room_pos_x, room_pos_y, room_dimension_x, room_dimension_y);
            proof {
                lemma_carve_carve(orig, mid, *level);
                assert forall|r: int, c: int|
                    pos_y <= r < pos_y + hallway_length && pos_x <= c < pos_x + 1 implies
                    #[trigger] orig.tile_type_at(r, c) == TileType::Wall && 1 <= r < orig.rows - 1
                    && 1 <= c < orig.columns - 1 by {
                    assert(orig.tile_type_at(r, c) == TileType::Wall);
                }
                assert forall|r: int, c: int|
                    room_pos_y <= r < room_pos_y + room_dimension_y && room_pos_x <= c < room_pos_x
                        + room_dimension_x implies #[trigger] orig.tile_type_at(r, c)
                    == TileType::Wall && 1 <= r < orig.rows - 1 && 1 <= c < orig.columns - 1 by {
                    assert(orig.tile_type_at(r, c) == TileType::Wall);
                }
                lemma_carve_pair_facts(
                    orig,
                    mid,
                    *level,
                    pos_x as int,
                    pos_y as int,
                    1,
                    hallway_length as int,
                    room_pos_x as int,
                    room_pos_y as int,
                    room_dimension_x as int,
                    room_dimension_y as int,
                );
                assert(level.tile_type_at(pos_y as int, pos_x as int) == TileType::Floor);
            }
            return true;
        }
        return false;
    }
    // hallway on left
    if level.tiles[pos_y][pos_x + 1].tile != TileType::Wall && level.tiles[pos_y][pos_x - 1].tile
        == TileType::Wall {
        if pos_x < hallway_length + room_dimension_x {
            return false;
        }
        let room_pos_x: usize = pos_x - hallway_length - room_dimension_x;

        // pick a random y offset and see if the room can fit
        let pos_y_offset = rng.random_range(0, room_dimension_y);
        if pos_y <= pos_y_offset || pos_y + pos_y_offset >= level.columns {
            return false;
        }
        let room_pos_y: usize = pos_y - pos_y_offset;

        if room_collision(level, pos_x - hallway_length, pos_y, hallway_length - 1, 1)
            && room_collision(level, room_pos_x, room_pos_y, room_dimension_x, room_dimension_y) {
            empty_out_area(level, pos_x - hallway_length, pos_y, hallway_length + 1, 1);
            let ghost mid: Level = *level;
            empty_out_area(level, room_pos_x, room_pos_y, room_dimension_x, room_dimension_y);
            proof {
                lemma_carve_carve(orig, mid, *level);
                assert forall|r: int, c: int|
                    pos_y <= r < pos_y + 1 && pos_x - hallway_length <= c < pos_x - hallway_length
                        + (hallway_length + 1) implies #[trigger] orig.tile_type_at(r, c)
                    == TileType::Wall && 1 <= r < orig.rows - 1 && 1 <= c < orig.columns - 1 by {
                    if c < pos_x {
                        assert(orig.tile_type_at(r, c) == TileType::Wall);
                    } else {
                        assert(r == pos_y && c == pos_x);
                    }
                }
                assert forall|r: int, c: int|
                    room_pos_y <= r < room_pos_y + room_dimension_y && room_pos_x <= c < room_pos_x
                        + room_dimension_x implies #[trigger] orig.tile_type_at(r, c)
                    == TileType::Wall && 1 <= r < orig.rows - 1 && 1 <= c < orig.columns - 1 by {
                    assert(orig.tile_type_at(r, c) == TileType::Wall);
                }
                lemma_carve_pair_facts(
                    orig,
                    mid,
                    *level,
                    (pos_x - hallway_length) as int,
                    pos_y as int,
                    (hallway_length + 1) as int,
                    1,
                    room_pos_x as int,
                    room_pos_y as int,
                    room_dimension_x as int,
                    room_dimension_y as int,
                );
                assert(level.tile_type_at(pos_y as int, pos_x as int) == TileType::Floor);
            }
            return true;
        }
        return false;
    }
    // hallway on right
    if level.tiles[pos_y][pos_x - 1].tile != TileType::Wall && level.tiles[pos_y][pos_x + 1].tile
        == TileType::Wall && level.tiles[pos_y][pos_x + 2].tile == TileType::Wall {
        if level.columns <= room_dimension_x + pos_x + hallway_length {
            return false;
        }
        let room_pos_x: usize = pos_x + hallway_length + 1;

        let pos_y_offset = rng.random_range(0, room_dimension_y);
        if pos_y <= pos_y_offset || pos_y + pos_y_offset >= level.columns {
            return false;
        }
        let room_pos_y: usize = pos_y - pos_y_offset;

        if room_collision(level, pos_x + 1, pos_y, hallway_length + 1, 1) && room_collision(
            level,
            room_pos_x,
            room_pos_y,
            room_dimension_x,
            room_dimension_y,
        ) {
            empty_out_area(level, pos_x, pos_y, hallway_length + 1, 1);
            let ghost mid: Level = *level;
            empty_out_area(level, room_pos_x, room_pos_y, room_dimension_x, room_dimension_y);
            proof {
                lemma_carve_carve(orig, mid, *level);
                assert forall|r: int, c: int|
                    pos_y <= r < pos_y + 1 && pos_x <= c < pos_x + (hallway_length + 1) implies
                    #[trigger] orig.tile_type_at(r, c) == TileType::Wall && 1 <= r < orig.rows - 1
                    && 1 <= c < orig.columns - 1 by {
                    if c > pos_x {
                        assert(orig.tile_type_at(r, c) == TileType::Wall);
                    } else {
                        assert(r == pos_y && c == pos_x);
                    }
                }
                assert forall|r: int, c: int|
                    room_pos_y <= r < room_pos_y + room_dimension_y && room_pos_x <= c < room_pos_x
                        + room_dimension_x implies #[trigger] orig.tile_type_at(r, c)
                    == TileType::Wall && 1 <= r < orig.rows - 1 && 1 <= c < orig.columns - 1 by {
                    assert(orig.tile_type_at(r, c) == TileType::Wall);
                }
                lemma_carve_pair_facts(
                    orig,
                    mid,
                    *level,
                    pos_x as int,
                    pos_y as int,
                    (hallway_length + 1) as int,
                    1,
                    room_pos_x as int,
                    room_pos_y as int,
                    room_dimension_x as int,
                    room_dimension_y as int,
                );
                assert(level.tile_type_at(pos_y as int, pos_x as int) == TileType::Floor);
            }
            return true;
        }
        return false;
    }
    false
}

/// Carving a hallway rectangle and a room rectangle, both known to be
/// stone strictly inside the edge margin, changes exactly stone cells in
/// the margin to floor, and leaves both rectangles open.
proof fn lemma_carve_pair_facts(
    orig: Level,
    mid: Level,
    now: Level,
    hx: int,
    hy: int,
    hdx: int,
    hdy: int,
    rx: int,
    ry: int,
    rdx: int,
    rdy: int,
)
    requires
        same_frame(mid, orig),
        same_frame(now, mid),
        forall|r: int, c: int|
            0 <= r < orig.rows && 0 <= c < orig.columns ==> #[trigger] mid.tile_type_at(r, c) == (
            if hy <= r < hy + hdy && hx <= c < hx + hdx {
                TileType::Floor
            } else {
                orig.tile_type_at(r, c)
            }),
        forall|r: int, c: int|
            0 <= r < orig.rows && 0 <= c < orig.columns ==> #[trigger] now.tile_type_at(r, c) == (
            if ry <= r < ry + rdy && rx <= c < rx + rdx {
                TileType::Floor
            } else {
                mid.tile_type_at(r, c)
            }),
        forall|r: int, c: int|
            hy <= r < hy + hdy && hx <= c < hx + hdx ==> #[trigger] orig.tile_type_at(r, c)
                == TileType::Wall && 1 <= r < orig.rows - 1 && 1 <= c < orig.columns - 1,
        forall|r: int, c: int|
            ry <= r < ry + rdy && rx <= c < rx + rdx ==> #[trigger] orig.tile_type_at(r, c)
                == TileType::Wall && 1 <= r < orig.rows - 1 && 1 <= c < orig.columns - 1,
    ensures
        forall|r: int, c: int|
            0 <= r < orig.rows && 0 <= c < orig.columns && #[trigger] now.tile_type_at(r, c)
                != orig.tile_type_at(r, c) ==> orig.tile_type_at(r, c) == TileType::Wall
                && now.tile_type_at(r, c) == TileType::Floor && 1 <= r < orig.rows - 1 && 1 <= c
                < orig.columns - 1,
        forall|r: int, c: int|
            hy <= r < hy + hdy && hx <= c < hx + hdx ==> #[trigger] now.tile_type_at(r, c)
                == TileType::Floor,
        forall|r: int, c: int|
            ry <= r < ry + rdy && rx <= c < rx + rdx ==> #[trigger] now.tile_type_at(r, c)
                == TileType::Floor,
{
    assert forall|r: int, c: int|
        0 <= r < orig.rows && 0 <= c < orig.columns && #[trigger] now.tile_type_at(r, c)
            != orig.tile_type_at(r, c) implies orig.tile_type_at(r, c) == TileType::Wall
        && now.tile_type_at(r, c) == TileType::Floor && 1 <= r < orig.rows - 1 && 1 <= c
        < orig.columns - 1 by {
        assert(mid.tile_type_at(r, c) == (if hy <= r < hy + hdy && hx <= c < hx + hdx {
            TileType::Floor
        } else {
            orig.tile_type_at(r, c)
        }));
    }
    assert forall|r: int, c: int|
        hy <= r < hy + hdy && hx <= c < hx + hdx implies #[trigger] now.tile_type_at(r, c)
        == TileType::Floor by {
        assert(mid.tile_type_at(r, c) == TileType::Floor);
    }
    assert forall|r: int, c: int|
        ry <= r < ry + rdy && rx <= c < rx + rdx implies #[trigger] now.tile_type_at(r, c)
        == TileType::Floor by {
        assert(orig.tile_type_at(r, c) == TileType::Wall);
    }
}

/// Two successive carvings compose into one carving.
proof fn lemma_carve_carve(orig: Level, mid: Level, now: Level)
    requires
        same_frame(mid, orig),
        same_frame(now, mid),
        forall|r: int, c: int|
            0 <= r < orig.rows && 0 <= c < orig.columns ==> #[trigger] mid.tile_type_at(r, c)
                == orig.tile_type_at(r, c) || mid.tile_type_at(r, c) == TileType::Floor,
        forall|r: int, c: int|
            0 <= r < orig.rows && 0 <= c < orig.columns ==> #[trigger] now.tile_type_at(r, c)
                == mid.tile_type_at(r, c) || now.tile_type_at(r, c) == TileType::Floor,
        forall|r: int, c: int|
            0 <= r < orig.rows && 0 <= c < orig.columns ==> #[trigger] mid.seen_at(r, c)
                == orig.seen_at(r, c),
        forall|r: int, c: int|
            0 <= r < orig.rows && 0 <= c < orig.columns ==> #[trigger] now.seen_at(r, c)
                == mid.seen_at(r, c),
    ensures
        carved_from(now, orig),
{
    assert forall|r: int, c: int|
        0 <= r < orig.rows && 0 <= c < orig.columns implies (#[trigger] now.tile_type_at(r, c)
        == orig.tile_type_at(r, c) || now.tile_type_at(r, c) == TileType::Floor) && (now.seen_at(
        r,
        c,
    ) == orig.seen_at(r, c)) by {
        assert(mid.tile_type_at(r, c) == orig.tile_type_at(r, c) || mid.tile_type_at(r, c)
            == TileType::Floor);
        assert(mid.seen_at(r, c) == orig.seen_at(r, c));
    }
}

/// Height of the level with the given index. The curve is logistic growth,
/// `height = round(a / (1 + b * e^(-k * n)))` with `a = 1000`, `b = 10`,
/// `k = 0.75`: levels start small, grow quickly and stabilize near 1000.
/// The rounded values are tabulated here; from index 14 on the curve rounds
/// to its ceiling of 1000.
pub open spec fn spec_level_height(n: int) -> int {
    if n <= 0 {
        91
    } else if n == 1 {
        175
    } else if n == 2 {
        309
    } else if n == 3 {
        487
    } else if n == 4 {
        668
    } else if n == 5 {
        810
    } else if n == 6 {
        900
    } else if n == 7 {
        950
    } else if n == 8 {
        976
    } else if n == 9 {
        988
    } else if n == 10 {
        994
    } else if n == 11 {
        997
    } else if n == 12 {
        999
    } else if n == 13 {
        999
    } else {
        1000
    }
}

/// Width of the level with the given index: always twice its height.
pub open spec fn spec_level_width(n: int) -> int {
    2 * spec_level_height(n)
}

/// Level dimensions grow monotonically with the level index and stay
/// within fixed bounds, and the width is always twice the height.
pub proof fn lemma_level_sizing_monotonic(n: int)
    ensures
        spec_level_height(n) <= spec_level_height(n + 1),
        spec_level_width(n) == 2 * spec_level_height(n),
        91 <= spec_level_height(n) <= 1000,
{
}

/// Generate level dimensions (width, height) from the level index.
pub fn generate_width_and_height(level_number: usize) -> (wh: (usize, usize))
    ensures
        wh.1 == spec_level_height(level_number as int),
        wh.0 == spec_level_width(level_number as int),
{
    let height: usize = if level_number == 0 {
        91
    } else if level_number == 1 {
        175
    } else if level_number == 2 {
        309
    } else if level_number == 3 {
        487
    } else if level_number == 4 {
        668
    } else if level_number == 5 {
        810
    } else if level_number == 6 {
        900
    } else if level_number == 7 {
        950
    } else if level_number == 8 {
        976
    } else if level_number == 9 {
        988
    } else if level_number == 10 {
        994
    } else if level_number == 11 {
        997
    } else if level_number == 12 {
        999
    } else if level_number == 13 {
        999
    } else {
        1000
    };
    let width: usize = 2 * height;
    (width, height)
}

/// The stairway constraints at one cell: the down staircase is exactly at
/// the recorded exit, and an up staircase exists exactly at the entrance
/// of a level that is not the first.
pub open spec fn cell_layout_ok(l: Level, n: int, r: int, c: int) -> bool {
    &&& ((l.tile_type_at(r, c) == TileType::StairDown) <==> (r == l.exit.row && c == l.exit.col))
    &&& (n == 0 ==> l.tile_type_at(r, c) != TileType::StairUp)
    &&& (n != 0 ==> ((l.tile_type_at(r, c) == TileType::StairUp) <==> (r == l.entrance.row && c
        == l.entrance.col)))
}

/// The stairways are placed as required: exactly one down staircase, at
/// the recorded exit; on the first level no up staircase and a walkable
/// entrance, on deeper levels exactly one up staircase, at the entrance.
pub open spec fn stairs_layout_ok(l: Level, n: int) -> bool {
    &&& forall|r: int, c: int|
        0 <= r < l.rows && 0 <= c < l.columns ==> #[trigger] cell_layout_ok(l, n, r, c)
    &&& (n == 0 ==> (l.tile_type_at(l.entrance.row as int, l.entrance.col as int)
        == TileType::Floor || l.tile_type_at(l.entrance.row as int, l.entrance.col as int)
        == TileType::StairDown))
}

/// Checks the stairway layout of a level against `stairs_layout_ok`.
pub fn check_stairs_layout(l: &Level, level_number: usize) -> (r: bool)
    requires
        l.wf(),
    ensures
        r == stairs_layout_ok(*l, level_number as int),
{
    let rows = l.rows;
    let cols = l.columns;
    let ghost n = level_number as int;
    let mut ok = true;
    let mut y: usize = 0;
    while y < rows
        invariant
            l.wf(),
            rows == l.rows,
            cols == l.columns,
            n == level_number as int,
            y <= rows,
            ok == forall|r: int, c: int|
                0 <= r < y && 0 <= c < cols ==> #[trigger] cell_layout_ok(*l, n, r, c),
        decreases rows - y,
    {
        let mut x: usize = 0;
        let ghost ok_before = ok;
        while x < cols
            invariant
                l.wf(),
                rows == l.rows,
                cols == l.columns,
                n == level_number as int,
                y < rows,
                x <= cols,
                ok == (ok_before && forall|c: int|
                    0 <= c < x ==> #[trigger] cell_layout_ok(*l, n, y as int, c)),
            decreases cols - x,
        {
            let t = l.tiles[y][x].tile;
            let is_exit_cell = y == l.exit.row && x == l.exit.col;
            let is_entrance_cell = y == l.entrance.row && x == l.entrance.col;
            let cell_ok = ((t == TileType::StairDown) == is_exit_cell) && (level_number != 0 || t
                != TileType::StairUp) && (level_number == 0 || ((t == TileType::StairUp)
                == is_entrance_cell));
            proof {
                assert(t == l.tile_type_at(y as int, x as int));
                assert(cell_ok == cell_layout_ok(*l, n, y as int, x as int));
            }
            ok = ok && cell_ok;
            proof {
                if ok {
                    assert(cell_layout_ok(*l, n, y as int, x as int));
                    assert forall|c: int|
                        0 <= c < x + 1 implies #[trigger] cell_layout_ok(*l, n, y as int, c) by {
                        if c < x {
                        } else {
                            assert(c == x);
                        }
                    }
                } else {
                    if ok_before && (forall|c: int|
                        0 <= c < x ==> #[trigger] cell_layout_ok(*l, n, y as int, c)) {
                        assert(!cell_layout_ok(*l, n, y as int, x as int));
                    }
                }
            }
            x += 1;
        }
        proof {
            if ok {
                assert forall|r: int, c: int|
                    0 <= r < y + 1 && 0 <= c < cols implies #[trigger] cell_layout_ok(
                    *l,
                    n,
                    r,
                    c,
                ) by {
                    if r < y {
                    } else {
                        assert(r == y);
                    }
                }
            }
        }
        y += 1;
    }
    let entrance_tile = l.tiles[l.entrance.row][l.entrance.col].tile;
    let entrance_ok = level_number != 0 || entrance_tile == TileType::Floor || entrance_tile
        == TileType::StairDown;
    ok && entrance_ok
}

/// The outermost rows and columns are untouched wall: rooms, hallways and
/// stairways all keep a margin from the grid edge.
pub open spec fn border_walls_ok(l: Level) -> bool {
    forall|r: int, c: int|
        0 <= r < l.rows && 0 <= c < l.columns && (r == 0 || r == l.rows - 1 || c == 0 || c
            == l.columns - 1) ==> #[trigger] l.tile_type_at(r, c) == TileType::Wall
}

/// The down staircase keeps a two-cell margin from the grid edge and sits
/// in open ground: all eight of its neighbours are floor.
pub open spec fn exit_neighborhood_ok(l: Level) -> bool {
    &&& 2 <= l.exit.col <= l.columns - 2
    &&& 2 <= l.exit.row <= l.rows - 2
    &&& forall|r: int, c: int|
        crate::utils::abs_diff(r, l.exit.row as int) <= 1 && crate::utils::abs_diff(
            c,
            l.exit.col as int,
        ) <= 1 && !(r == l.exit.row && c == l.exit.col) ==> #[trigger] l.tile_type_at(r, c)
            == TileType::Floor
}

/// What generation guarantees of a level it returns for the given index:
/// well-formed, sized by the logistic curve with entrance at the grid
/// center, stairways as required, a solid wall border, open ground around
/// the down staircase, and every walkable cell reachable from the
/// entrance.
pub open spec fn generated_level_ok(l: Level, n: int) -> bool {
    &&& l.wf()
    &&& l.rows == spec_level_height(n)
    &&& l.columns == spec_level_width(n)
    &&& l.entrance == (Point { col: l.columns / 2, row: l.rows / 2 })
    &&& stairs_layout_ok(l, n)
    &&& border_walls_ok(l)
    &&& exit_neighborhood_ok(l)
    &&& fully_connected(l)
}

/// The generation guarantees depend only on the shape, the marker points
/// and the tile types, not on the seen flags: they carry over to any level
/// that differs from a generated one in its seen flags alone.
pub proof fn lemma_generated_ok_same_tiles(a: Level, b: Level, n: int)
    requires
        generated_level_ok(a, n),
        b.wf(),
        b.rows == a.rows,
        b.columns == a.columns,
        b.entrance == a.entrance,
        b.exit == a.exit,
        forall|r: int, c: int|
            0 <= r < a.rows && 0 <= c < a.columns ==> #[trigger] b.tile_type_at(r, c)
                == a.tile_type_at(r, c),
    ensures
        generated_level_ok(b, n),
{
    assert forall|r: int, c: int|
        0 <= r < b.rows && 0 <= c < b.columns implies #[trigger] cell_layout_ok(b, n, r, c) by {
        assert(cell_layout_ok(a, n, r, c));
        assert(b.tile_type_at(r, c) == a.tile_type_at(r, c));
    }
    assert(b.tile_type_at(b.entrance.row as int, b.entrance.col as int) == a.tile_type_at(
        a.entrance.row as int,
        a.entrance.col as int,
    ));
    assert forall|r: int, c: int|
        0 <= r < b.rows && 0 <= c < b.columns && (r == 0 || r == b.rows - 1 || c == 0 || c
            == b.columns - 1) implies #[trigger] b.tile_type_at(r, c) == TileType::Wall by {
        assert(a.tile_type_at(r, c) == TileType::Wall);
    }
    assert forall|r: int, c: int|
        crate::utils::abs_diff(r, b.exit.row as int) <= 1 && crate::utils::abs_diff(
            c,
            b.exit.col as int,
        ) <= 1 && !(r == b.exit.row && c == b.exit.col) implies #[trigger] b.tile_type_at(r, c)
        == TileType::Floor by {
        assert(0 <= r < a.rows && 0 <= c < a.columns);
        assert(a.tile_type_at(r, c) == TileType::Floor);
    }
    crate::levels::level::connectivity::lemma_fully_connected_same_walls(a, b);
}

/// While the down staircase is being placed, the grid holds only walls and
/// floors, except that on deeper levels the entrance cell is the up
/// staircase.
pub open spec fn pre_stair_down_ok(l: Level, n: int) -> bool {
    forall|r: int, c: int|
        0 <= r < l.rows && 0 <= c < l.columns ==> (if n != 0 && r == l.entrance.row && c
            == l.entrance.col {
            #[trigger] l.tile_type_at(r, c) == TileType::StairUp
        } else {
            l.tile_type_at(r, c) == TileType::Wall || l.tile_type_at(r, c) == TileType::Floor
        })
}

/// Generates one dungeon level: a grid sized by the logistic curve, seeded
/// with a central room, grown by randomized room-and-corridor placement
/// with bounded retry, and finished with the stairways. The result is
/// checked before it is returned: the stairway layout must be as required
/// and every walkable cell must be reachable from the entrance; otherwise,
/// or if no stairway site is found within the retry budget, generation
/// fails.
pub fn generate(level_number: usize, rng: &mut GameRng) -> (res: Result<Level, GenerationError>)
    requires
        level_number <= 0x0100_0000,
    ensures
        match res {
            Ok(l) => generated_level_ok(l, level_number as int) && all_unseen(l),
            Err(e) => e == GenerationError::Failed,
        },
{
    let (width, height) = generate_width_and_height(level_number);
    proof {
        lemma_level_sizing_monotonic(level_number as int);
    }

    // create the level, full of unseen walls
    let row_template: Vec<Tile> = vec![Tile { tile: TileType::Wall, seen: false }; width];
    let tiles: Vec<Vec<Tile>> = vec![row_template; height];
    let mut level = Level {
        columns: width,
        rows: height,
        tiles,
        exit: Point { col: 0, row: 0 },
        entrance: Point { col: width / 2, row: height / 2 },
    };
    proof {
        assert(forall|r: int| 0 <= r < height ==> #[trigger] level.tiles@[r]@ == row_template@);
        assert(forall|r: int, c: int|
            0 <= r < height && 0 <= c < width ==> #[trigger] level.tile_type_at(r, c)
                == TileType::Wall && !level.seen_at(r, c));
        assert(level.wf());
    }

    let minimum_room_size: usize = 7;
    let maximum_room_size: usize = 10;

    // build the first room, near the center
    let room_dimension_x: usize = rng.random_range(minimum_room_size, 2 * maximum_room_size + 1);
    let room_dimension_y: usize = rng.random_range(minimum_room_size, maximum_room_size + 1);
    let room_position_x: usize = (width - room_dimension_x + 1) / 2;
    let room_position_y: usize = (height - room_dimension_y + 1) / 2;
    proof {
        assert(border_walls_ok(level));
        assert(1 <= room_position_x && room_position_x + room_dimension_x <= width - 1);
        assert(1 <= room_position_y && room_position_y + room_dimension_y <= height - 1);
    }
    let ghost before_first_room: Level = level;
    empty_out_area(&mut level, room_position_x, room_position_y, room_dimension_x, room_dimension_y);
    proof {
        assert forall|r: int, c: int|
            0 <= r < level.rows && 0 <= c < level.columns && (r == 0 || r == level.rows - 1 || c
                == 0 || c == level.columns - 1) implies #[trigger] level.tile_type_at(r, c)
            == TileType::Wall by {
            assert(level.tile_type_at(r, c) == before_first_room.tile_type_at(r, c));
        }
    }

    // build further rooms: each needs a doorway site next to an existing
    // room, found by random search with a bounded number of tries
    let mut room_count: u64 = 1;
    let target: u64 = 10 + 50 * (level_number as u64);
    loop
        invariant_except_break
            room_count <= target,
        invariant
            level.wf(),
            level.columns == width,
            level.rows == height,
            level.entrance == (Point { col: width / 2, row: height / 2 }),
            width == 2 * height,
            91 <= height <= 1000,
            wall_floor_only(level),
            all_unseen(level),
            border_walls_ok(level),
            1 <= room_count <= target + 1,
            target == 10 + 50 * (level_number as u64),
            minimum_room_size == 7,
            maximum_room_size == 10,
        ensures
            level.wf(),
            level.columns == width,
            level.rows == height,
            level.entrance == (Point { col: width / 2, row: height / 2 }),
            wall_floor_only(level),
            all_unseen(level),
            border_walls_ok(level),
        decreases target + 1 - room_count,
    {
        let mut room_created = false;
        let mut count: u64 = 0;
        loop
            invariant_except_break
                !room_created,
            invariant
                level.wf(),
                level.columns == width,
                level.rows == height,
                level.entrance == (Point { col: width / 2, row: height / 2 }),
                width == 2 * height,
                91 <= height <= 1000,
                wall_floor_only(level),
                all_unseen(level),
                border_walls_ok(level),
                count <= 100_001,
                minimum_room_size == 7,
                maximum_room_size == 10,
            ensures
                level.wf(),
                level.columns == width,
                level.rows == height,
                level.entrance == (Point { col: width / 2, row: height / 2 }),
                wall_floor_only(level),
                all_unseen(level),
                border_walls_ok(level),
            decreases 100_002 - count,
        {
            let hallway_pos_x: usize = rng.random_range(2, width - 1);
            let hallway_pos_y: usize = rng.random_range(2, height - 1);
            let room_dimension_x: usize = rng.random_range(
                minimum_room_size,
                2 * maximum_room_size + 1,
            );
            let room_dimension_y: usize = rng.random_range(
                minimum_room_size,
                maximum_room_size + 1,
            );
            let ghost before: Level = level;
            if empty_out_hallway_and_new_room(
                &mut level,
                rng,
                hallway_pos_x,
                hallway_pos_y,
                room_dimension_x,
                room_dimension_y,
            ) {
                proof {
                    lemma_carve_keeps_phase(before, level);
                    lemma_carve_keeps_border(before, level);
                }
                room_created = true;
                break ;
            }
            proof {
                lemma_carve_keeps_phase(before, level);
                lemma_carve_keeps_border(before, level);
            }
            if count > 100_000 {
                break ;
            } else {
                count += 1;
            }
        }
        if room_created {
            room_count += 1;
        }
        if room_count > target || !room_created {
            break ;
        }
    }

    // build the stairs up, unless this is the first level
    let ghost before_stair_up: Level = level;
    if level_number != 0 {
        proof {
            assert(1 <= height / 2 < height - 1 && 1 <= width / 2 < width - 1);
        }
        level.set_tile_type(level.entrance.row, level.entrance.col, TileType::StairUp);
    }
    proof {
        assert(pre_stair_down_ok(level, level_number as int));
        assert forall|r: int, c: int|
            0 <= r < level.rows && 0 <= c < level.columns && (r == 0 || r == level.rows - 1 || c
                == 0 || c == level.columns - 1) implies #[trigger] level.tile_type_at(r, c)
            == TileType::Wall by {
            assert(level.tile_type_at(r, c) == before_stair_up.tile_type_at(r, c));
        }
    }

    // build the stairs down somewhere with open floor all around, so that
    // it is not flush against a wall; give up after a bounded number of
    // tries rather than search forever
    let mut attempts: u64 = 0;
    loop
        invariant_except_break
            pre_stair_down_ok(level, level_number as int),
            attempts <= 100_001,
        invariant
            level.wf(),
            level.columns == width,
            level.rows == height,
            level.entrance == (Point { col: width / 2, row: height / 2 }),
            width == 2 * height,
            91 <= height <= 1000,
            all_unseen(level),
            border_walls_ok(level),
        ensures
            level.wf(),
            level.columns == width,
            level.rows == height,
            level.entrance == (Point { col: width / 2, row: height / 2 }),
            all_unseen(level),
            border_walls_ok(level),
            2 <= level.exit.col <= width - 2,
            2 <= level.exit.row <= height - 2,
            forall|r: int, c: int|
                abs_diff(r, level.exit.row as int) <= 1 && abs_diff(c, level.exit.col as int) <= 1
                    && !(r == level.exit.row && c == level.exit.col) ==> #[trigger] level
                    .tile_type_at(r, c) == TileType::Floor,
        decreases 100_002 - attempts,
    {
        let stairway_down_pos_x: usize = rng.random_range(2, width - 1);
        let stairway_down_pos_y: usize = rng.random_range(2, height - 1);

        // want a 3x3 empty space
        if level.tiles[stairway_down_pos_y - 1][stairway_down_pos_x - 1].tile == TileType::Floor
            && level.tiles[stairway_down_pos_y - 1][stairway_down_pos_x].tile == TileType::Floor
            && level.tiles[stairway_down_pos_y - 1][stairway_down_pos_x + 1].tile == TileType::Floor
            && level.tiles[stairway_down_pos_y][stairway_down_pos_x - 1].tile == TileType::Floor
            && level.tiles[stairway_down_pos_y][stairway_down_pos_x].tile == TileType::Floor
            && level.tiles[stairway_down_pos_y][stairway_down_pos_x + 1].tile == TileType::Floor
            && level.tiles[stairway_down_pos_y + 1][stairway_down_pos_x - 1].tile == TileType::Floor
            && level.tiles[stairway_down_pos_y + 1][stairway_down_pos_x].tile == TileType::Floor
            && level.tiles[stairway_down_pos_y + 1][stairway_down_pos_x + 1].tile
            == TileType::Floor {
            let ghost before: Level = level;
            level.exit = Point { col: stairway_down_pos_x, row: stairway_down_pos_y };
            proof {
                assert(level.wf());
                assert forall|r: int, c: int|
                    0 <= r < level.rows && 0 <= c < level.columns implies !(#[trigger] level.seen_at(
                    r,
                    c,
                )) by {
                    assert(level.seen_at(r, c) == before.seen_at(r, c));
                }
            }
            let ghost mid: Level = level;
            level.set_tile_type(stairway_down_pos_y, stairway_down_pos_x, TileType::StairDown);
            proof {
                assert forall|r: int, c: int|
                    0 <= r < level.rows && 0 <= c < level.columns implies !(#[trigger] level.seen_at(
                    r,
                    c,
                )) by {
                    assert(level.seen_at(r, c) == mid.seen_at(r, c));
                }
                // the border was never touched
                assert forall|r: int, c: int|
                    0 <= r < level.rows && 0 <= c < level.columns && (r == 0 || r == level.rows - 1
                        || c == 0 || c == level.columns - 1) implies #[trigger] level.tile_type_at(
                    r,
                    c,
                ) == TileType::Wall by {
                    assert(level.tile_type_at(r, c) == mid.tile_type_at(r, c));
                    assert(mid.tile_type_at(r, c) == before.tile_type_at(r, c));
                }
                // the eight neighbours of the new down staircase were all
                // checked to be floor, and only its center was overwritten
                assert forall|r: int, c: int|
                    abs_diff(r, level.exit.row as int) <= 1 && abs_diff(c, level.exit.col as int)
                        <= 1 && !(r == level.exit.row && c == level.exit.col) implies #[trigger] level
                    .tile_type_at(r, c) == TileType::Floor by {
                    let y = stairway_down_pos_y as int;
                    let x = stairway_down_pos_x as int;
                    assert(r == y - 1 || r == y || r == y + 1);
                    assert(c == x - 1 || c == x || c == x + 1);
                    assert(level.tile_type_at(r, c) == mid.tile_type_at(r, c));
                    assert(mid.tile_type_at(r, c) == before.tile_type_at(r, c));
                }
            }
            break ;
        }
        attempts += 1;
        if attempts > 100_000 {
            return Err(GenerationError::Failed);
        }
    }

    // accept the level only if the layout and connectivity hold
    if check_stairs_layout(&level, level_number) && is_fully_connected(&level) {
        Ok(level)
    } else {
        Err(GenerationError::Failed)
    }
}

/// Carving that stays inside the one-cell edge margin keeps the border
/// rows and columns wall.
proof fn lemma_carve_keeps_border(before: Level, now: Level)
    requires
        before.rows == now.rows,
        before.columns == now.columns,
        border_walls_ok(before),
        forall|r: int, c: int|
            0 <= r < before.rows && 0 <= c < before.columns && #[trigger] now.tile_type_at(r, c)
                != before.tile_type_at(r, c) ==> 1 <= r < before.rows - 1 && 1 <= c
                < before.columns - 1,
    ensures
        border_walls_ok(now),
{
    assert forall|r: int, c: int|
        0 <= r < now.rows && 0 <= c < now.columns && (r == 0 || r == now.rows - 1 || c == 0 || c
            == now.columns - 1) implies #[trigger] now.tile_type_at(r, c) == TileType::Wall by {
        assert(now.tile_type_at(r, c) == before.tile_type_at(r, c));
        assert(before.tile_type_at(r, c) == TileType::Wall);
    }
}

/// Carving keeps a wall-and-floor grid a wall-and-floor grid, and leaves
/// every cell unseen.
proof fn lemma_carve_keeps_phase(before: Level, now: Level)
    requires
        carved_from(now, before),
        wall_floor_only(before),
        all_unseen(before),
    ensures
        wall_floor_only(now),
        all_unseen(now),
{
    assert forall|r: int, c: int|
        0 <= r < now.rows && 0 <= c < now.columns implies (#[trigger] now.tile_type_at(r, c)
        == TileType::Wall || now.tile_type_at(r, c) == TileType::Floor) && !now.seen_at(r, c) by {
        assert(now.tile_type_at(r, c) == before.tile_type_at(r, c) || now.tile_type_at(r, c)
            == TileType::Floor);
        assert(now.seen_at(r, c) == before.seen_at(r, c));
    }
}

} // verus!
