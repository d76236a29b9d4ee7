//! The dungeon: a lazily generated, append-only collection of levels.
//!
//! Level `i` exists only after levels `0..i` exist: asking for a level
//! beyond the generated range generates every missing level in order,
//! so the collection never has gaps.

pub mod level;

use vstd::prelude::*;
use crate::levels::level::{frame_renders_ok, Level};
use crate::levels::level::generation::{
    GenerationError,
    generate,
    generated_level_ok,
    lemma_generated_ok_same_tiles,
};
use crate::rng::GameRng;
use crate::utils::Point;

verus! {

/// Error from an operation on the dungeon as a whole.
#[derive(Clone, Copy, Debug, PartialEq, Eq, Structural)]
pub enum DungeonError {
    GenerationFailed,
    OutOfBounds,
}

/// The dungeon's levels, indexed from the surface down.
pub struct Levels {
    pub level: Vec<Level>,
}

impl Default for Levels {
    /// An empty dungeon: no level generated yet.
    fn default() -> (l: Levels)
        ensures
            l.level@.len() == 0,
            l.wf(),
    {
        Levels { level: Vec::new() }
    }
}

impl Levels {
    /// Every stored level carries the generation guarantees for its index.
    pub open spec fn wf(self) -> bool {
        forall|i: int|
            0 <= i < self.level@.len() ==> generated_level_ok(#[trigger] self.level@[i], i)
    }

    /// How many levels have been generated so far.
    pub fn len(&self) -> (n: usize)
        ensures
            n == self.level@.len(),
    {
        self.level.len()
    }

    /// The level with the given index, generating it and every missing
    /// level before it, in order, on first access. Fails only if a level
    /// could not be generated; the levels generated up to that point are
    /// kept.
    pub fn level(&mut self, level_number: usize, rng: &mut GameRng) -> (res: Result<
        &Level,
        GenerationError,
    >)
        requires
            old(self).wf(),
            level_number <= 0x0100_0000,
        ensures
            final(self).wf(),
            old(self).level@.len() <= final(self).level@.len(),
            forall|i: int|
                0 <= i < old(self).level@.len() ==> #[trigger] final(self).level@[i]
                    == old(self).level@[i],
            match res {
                Ok(l) => final(self).level@.len() == (if old(self).level@.len() > level_number {
                    old(self).level@.len() as int
                } else {
                    (level_number + 1) as int
                }) && *l == final(self).level@[level_number as int] && generated_level_ok(
                    *l,
                    level_number as int,
                ),
                Err(e) => e == GenerationError::Failed && final(self).level@.len()
                    <= level_number,
            },
    {
        if level_number >= self.level.len() {
            let ghost orig: Levels = *self;
            let mut number: usize = self.level.len();
            while number < level_number + 1
                invariant
                    self.wf(),
                    orig == *old(self),
                    number == self.level@.len(),
                    orig.level@.len() <= number <= level_number + 1,
                    level_number <= 0x0100_0000,
                    forall|i: int|
                        0 <= i < orig.level@.len() ==> #[trigger] self.level@[i] == orig.level@[i],
                decreases level_number + 1 - number,
            {
                let new_level = match generate(number, rng) {
                    Ok(l) => l,
                    Err(e) => {
                        return Err(e);
                    },
                };
                self.level.push(new_level);
                number += 1;
            }
        }
        Ok(&self.level[level_number])
    }

    /// The initial starting position of the level with the given index,
    /// generating levels as needed.
    pub fn level_start_position(&mut self, level_number: usize, rng: &mut GameRng) -> (res: Result<
        Point,
        GenerationError,
    >)
        requires
            old(self).wf(),
            level_number <= 0x0100_0000,
        ensures
            final(self).wf(),
            old(self).level@.len() <= final(self).level@.len(),
            forall|i: int|
                0 <= i < old(self).level@.len() ==> #[trigger] final(self).level@[i]
                    == old(self).level@[i],
            match res {
                Ok(p) => level_number < final(self).level@.len() && p == final(self)
                    .level@[level_number as int].entrance,
                Err(e) => e == GenerationError::Failed && final(self).level@.len()
                    <= level_number,
            },
    {
        match self.level(level_number, rng) {
            Ok(l) => Ok(l.entrance()),
            Err(e) => Err(e),
        }
    }

    /// The exit position of the level with the given index, generating
    /// levels as needed.
    pub fn level_exit_position(&mut self, level_number: usize, rng: &mut GameRng) -> (res: Result<
        Point,
        GenerationError,
    >)
        requires
            old(self).wf(),
            level_number <= 0x0100_0000,
        ensures
            final(self).wf(),
            old(self).level@.len() <= final(self).level@.len(),
            forall|i: int|
                0 <= i < old(self).level@.len() ==> #[trigger] final(self).level@[i]
                    == old(self).level@[i],
            match res {
                Ok(p) => level_number < final(self).level@.len() && p == final(self)
                    .level@[level_number as int].exit,
                Err(e) => e == GenerationError::Failed && final(self).level@.len()
                    <= level_number,
            },
    {
        match self.level(level_number, rng) {
            Ok(l) => Ok(l.exit()),
            Err(e) => Err(e),
        }
    }

    /// Renders the level with the given index around the player,
    /// generating levels as needed and updating that level's remembered
    /// map. Fails if generation fails or the player position is off that
    /// level's grid.
    #[verifier::rlimit(60)]
    #[verifier::spinoff_prover]
    pub fn map_vec(&mut self, level_number: usize, player_pos_p: &Point, rng: &mut GameRng) -> (res:
        Result<Vec<Vec<char>>, DungeonError>)
        requires
            old(self).wf(),
            level_number <= 0x0100_0000,
        ensures
            final(self).wf(),
            old(self).level@.len() <= final(self).level@.len(),
            // other levels that already existed are untouched
            forall|i: int|
                0 <= i < old(self).level@.len() && i != level_number ==> #[trigger] final(self)
                    .level@[i] == old(self).level@[i],
            match res {
                Ok(m) => {
                    &&& level_number < final(self).level@.len()
                    &&& m@.len() == final(self).level@[level_number as int].rows
                    &&& forall|r: int|
                        0 <= r < m@.len() ==> (#[trigger] m@[r])@.len() == final(self)
                            .level@[level_number as int].columns
                    &&& final(self).in_bounds_of(level_number as int, *player_pos_p)
                    // the returned symbols render the stored level: some
                    // frame visibility grid around the player explains
                    // every character
                    &&& exists|vis: Seq<Vec<bool>>|
                        #[trigger] frame_renders_ok(
                            final(self).level@[level_number as int],
                            *player_pos_p,
                            m@,
                            vis,
                        )
                    // the rendered level keeps its tile layout, and its
                    // remembered cells only grow
                    &&& (level_number < old(self).level@.len() ==> {
                        let before = old(self).level@[level_number as int];
                        let after = final(self).level@[level_number as int];
                        forall|r: int, c: int|
                            0 <= r < before.rows && 0 <= c < before.columns ==> (
                            #[trigger] after.tile_type_at(r, c) == before.tile_type_at(r, c) && (
                            before.seen_at(r, c) ==> after.seen_at(r, c)))
                    })
                },
                Err(e) => {
                    &&& (e == DungeonError::GenerationFailed || e == DungeonError::OutOfBounds)
                    &&& (e == DungeonError::GenerationFailed ==> final(self).level@.len()
                        <= level_number)
                    &&& (e == DungeonError::OutOfBounds ==> level_number < final(self)
                        .level@.len() && !final(self).in_bounds_of(
                        level_number as int,
                        *player_pos_p,
                    ))
                },
            },
    {
        match self.level(level_number, rng) {
            Ok(_) => (),
            Err(_) => {
                return Err(DungeonError::GenerationFailed);
            },
        }
        let ghost pre: Levels = *self;
        let lv: &mut Level = &mut self.level[level_number];
        if player_pos_p.col < lv.width() && player_pos_p.row < lv.height() {
            let ghost lv_before: Level = *lv;
            let m = lv.map_vec(player_pos_p);
            let ghost vis = choose|vis: Seq<Vec<bool>>|
                #[trigger] frame_renders_ok(*lv, *player_pos_p, m@, vis);
            proof {
                lemma_generated_ok_same_tiles(lv_before, *lv, level_number as int);
                assert(frame_renders_ok(*lv, *player_pos_p, m@, vis));
            }
            proof {
                assert forall|i: int|
                    0 <= i < self.level@.len() implies generated_level_ok(
                    #[trigger] self.level@[i],
                    i,
                ) by {
                    if i != level_number {
                        assert(self.level@[i] == pre.level@[i]);
                    }
                }
                assert(frame_renders_ok(
                    self.level@[level_number as int],
                    *player_pos_p,
                    m@,
                    vis,
                ));
                assert(exists|vis2: Seq<Vec<bool>>|
                    #[trigger] frame_renders_ok(
                        self.level@[level_number as int],
                        *player_pos_p,
                        m@,
                        vis2,
                    ));
            }
            Ok(m)
        } else {
            Err(DungeonError::OutOfBounds)
        }
    }

    /// Whether the point lies on the grid of the stored level with the
    /// given index.
    pub open spec fn in_bounds_of(self, i: int, p: Point) -> bool {
        self.level@[i].in_bounds(p)
    }
}

} // verus!
