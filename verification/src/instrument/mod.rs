//! Instruments: tunings and fretboard configuration.
use vstd::prelude::*;

pub mod database;
pub mod registry;
pub mod tuning;

pub use tuning::{BassTunings, GuitarTunings, StandardTunings, Tuning};

verus! {

/// Playing hand; a left-handed fretboard reverses the string order.
#[derive(Debug, Clone, Copy, PartialEq, Eq, Structural)]
pub enum Orientation {
    RightHanded,
    LeftHanded,
}

impl Default for Orientation {
    fn default() -> (o: Self)
        ensures
            o == Orientation::RightHanded,
    {
        Orientation::RightHanded
    }
}

/// A tuning together with the number of frets and the playing hand.
pub struct FretBoardConfig<'a> {
    pub tuning: Tuning<'a>,
    pub fret_count: u8,
    pub orientation: Orientation,
}

impl<'a> FretBoardConfig<'a> {
    pub fn new(tuning: Tuning<'a>, fret_count: u8, orientation: Orientation) -> (c: Self)
        ensures
            c.tuning == tuning,
            c.fret_count == fret_count,
            c.orientation == orientation,
    {
        FretBoardConfig { tuning, fret_count, orientation }
    }
}

} // verus!
