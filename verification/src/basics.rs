//! Basic character data: ability scores, alignment and gender.

use vstd::prelude::*;

verus! {

/// The six ability scores.
#[derive(Clone, Debug, PartialEq, Eq, Structural)]
pub struct Abilities {
    pub strength: u32,
    pub dexterity: u32,
    pub charisma: u32,
    pub constitution: u32,
    pub intellect: u32,
    pub wisdom: u32,
}

impl Default for Abilities {
    fn default() -> (a: Abilities)
        ensures
            a == (Abilities {
                strength: 0,
                dexterity: 0,
                charisma: 0,
                constitution: 0,
                intellect: 0,
                wisdom: 0,
            }),
    {
        Abilities {
            strength: 0,
            dexterity: 0,
            charisma: 0,
            constitution: 0,
            intellect: 0,
            wisdom: 0,
        }
    }
}

/// The nine alignments, from lawful good to chaotic evil.
#[derive(Clone, Copy, Debug, PartialEq, Eq, Structural)]
pub enum Alignment {
    LG,
    NG,
    CG,
    LN,
    N,
    CN,
    LE,
    NE,
    CE,
}

impl Default for Alignment {
    fn default() -> (a: Alignment)
        ensures
            a == Alignment::N,
    {
        Alignment::N
    }
}

/// The two genders.
#[derive(Clone, Copy, Debug, PartialEq, Eq, Structural)]
pub enum Gender {
    M,
    F,
}

impl Default for Gender {
    fn default() -> (g: Gender)
        ensures
            g == Gender::M,
    {
        Gender::M
    }
}

} // verus!
