//! Race data records: the plain values a race description is made of.

use vstd::prelude::*;
use crate::basics::{Abilities, Alignment};

verus! {

/// An ability score increase granted by a race.
#[derive(Clone, Debug, Default)]
pub struct RaceAbilities {
    pub description: String,
    pub abilities: Abilities,
}

/// The ages a race comes of age and dies of old age at.
#[derive(Clone, Debug, Default)]
pub struct RaceAge {
    pub description: String,
    pub adulthood: u32,
    pub lifespan: u32,
}

/// The alignment a race leans towards.
#[derive(Clone, Debug, Default)]
pub struct RaceAlignment {
    pub description: String,
    pub alignment: Alignment,
}

/// The size classes a race can belong to.
#[derive(Clone, Copy, Debug, PartialEq, Eq, Structural)]
pub enum SizeClass {
    Small,
    Medium,
    Large,
}

impl Default for SizeClass {
    fn default() -> (s: SizeClass)
        ensures
            s == SizeClass::Medium,
    {
        SizeClass::Medium
    }
}

/// The name lists a race draws its generated names from.
#[derive(Clone, Debug, Default)]
pub struct RaceNames {
    pub description: String,
    pub order: Vec<String>,
    pub child: Vec<String>,
    pub male: Vec<String>,
    pub female: Vec<String>,
    pub clan: Vec<String>,
    pub family: Vec<String>,
    pub surname: Vec<String>,
    pub nickname: Vec<String>,
    pub virtue: Vec<String>,
}

/// A race's walking speed.
#[derive(Clone, Debug, Default)]
pub struct RaceSpeed {
    pub description: String,
    pub speed: u32,
}

/// A named racial modifier.
#[derive(Clone, Debug, Default, PartialEq, Eq, PartialOrd, Ord)]
pub struct RaceModifier {
    pub description: String,
    pub modifier: String,
}

} // verus!
