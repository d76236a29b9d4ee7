//! Tests of the plain data records and their defaults.

use dungeon_core::basics::{Abilities, Alignment, Gender};
use dungeon_core::races::{RaceAge, RaceModifier, SizeClass};

#[test]
fn ability_scores_default_to_zero() {
    let a = Abilities::default();
    assert_eq!(a.strength, 0);
    assert_eq!(a.dexterity, 0);
    assert_eq!(a.charisma, 0);
    assert_eq!(a.constitution, 0);
    assert_eq!(a.intellect, 0);
    assert_eq!(a.wisdom, 0);
}

#[test]
fn alignment_defaults_to_neutral() {
    assert_eq!(Alignment::default(), Alignment::N);
}

#[test]
fn gender_defaults_to_m() {
    assert_eq!(Gender::default(), Gender::M);
}

#[test]
fn size_class_defaults_to_medium() {
    assert_eq!(SizeClass::default(), SizeClass::Medium);
}

#[test]
fn race_records_hold_their_values() {
    let age = RaceAge { description: String::from("long-lived"), adulthood: 100, lifespan: 750 };
    assert_eq!(age.adulthood, 100);
    assert_eq!(age.lifespan, 750);
    let m1 = RaceModifier {
        description: String::from("weapon training"),
        modifier: String::from("dwarven combat training"),
    };
    let m2 = m1.clone();
    assert_eq!(m1, m2);
}
