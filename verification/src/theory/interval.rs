//! Intervals and interval arithmetic on pitch classes.
use vstd::prelude::*;
use crate::theory::note::{note_class, note_of_class, Note};

verus! {

/// A musical interval within one octave.
#[derive(Debug, Clone, Copy, PartialEq, Eq, Structural)]
pub enum Interval {
    Unison,
    MinorSecond,
    MajorSecond,
    MinorThird,
    MajorThird,
    PerfectFourth,
    Tritone,
    PerfectFifth,
    MinorSixth,
    MajorSixth,
    MinorSeventh,
    MajorSeventh,
    PerfectOctave,
}

/// Semitone size of an interval.
pub open spec fn interval_semitones(i: Interval) -> u8 {
    match i {
        Interval::Unison => 0,
        Interval::MinorSecond => 1,
        Interval::MajorSecond => 2,
        Interval::MinorThird => 3,
        Interval::MajorThird => 4,
        Interval::PerfectFourth => 5,
        Interval::Tritone => 6,
        Interval::PerfectFifth => 7,
        Interval::MinorSixth => 8,
        Interval::MajorSixth => 9,
        Interval::MinorSeventh => 10,
        Interval::MajorSeventh => 11,
        Interval::PerfectOctave => 12,
    }
}

impl Interval {
    /// Semitone distance of the interval.
    pub fn semitones(&self) -> (s: u8)
        ensures
            s == interval_semitones(*self),
    {
        match self {
            Interval::Unison => 0,
            Interval::MinorSecond => 1,
            Interval::MajorSecond => 2,
            Interval::MinorThird => 3,
            Interval::MajorThird => 4,
            Interval::PerfectFourth => 5,
            Interval::Tritone => 6,
            Interval::PerfectFifth => 7,
            Interval::MinorSixth => 8,
            Interval::MajorSixth => 9,
            Interval::MinorSeventh => 10,
            Interval::MajorSeventh => 11,
            Interval::PerfectOctave => 12,
        }
    }
}

/// The pitch class `interval` above `root`, wrapping at the octave.
pub open spec fn spec_target_note(root: Note, interval: Interval) -> Note {
    note_of_class((note_class(root) + interval_semitones(interval)) % 12)
}

/// The pitch class reached from `root` by going up `interval`.
pub fn calculate_target_note(root: Note, interval: Interval) -> (n: Note)
    ensures
        n == spec_target_note(root, interval),
{
    let root_val = root.value();
    let interval_val = interval.semitones();
    let target_val = (root_val + interval_val) % 12;
    Note::from_midi(target_val)
}

/// Going up an interval adds its semitones to the pitch class modulo 12;
/// a unison and an octave both lead back to the root.
pub proof fn lemma_target_note_class(root: Note, interval: Interval)
    ensures
        note_class(spec_target_note(root, interval)) == (note_class(root) + interval_semitones(
            interval,
        )) % 12,
        spec_target_note(root, Interval::Unison) == root,
        spec_target_note(root, Interval::PerfectOctave) == root,
{
}

/// Going up a perfect fifth and then a perfect fourth completes an octave.
pub proof fn lemma_fifth_then_fourth_is_octave(root: Note)
    ensures
        spec_target_note(spec_target_note(root, Interval::PerfectFifth), Interval::PerfectFourth)
            == root,
{
}

/// Position of an interval in the ascending list from the unison to the
/// octave.
pub open spec fn interval_rank(i: Interval) -> int {
    match i {
        Interval::Unison => 0,
        Interval::MinorSecond => 1,
        Interval::MajorSecond => 2,
        Interval::MinorThird => 3,
        Interval::MajorThird => 4,
        Interval::PerfectFourth => 5,
        Interval::Tritone => 6,
        Interval::PerfectFifth => 7,
        Interval::MinorSixth => 8,
        Interval::MajorSixth => 9,
        Interval::MinorSeventh => 10,
        Interval::MajorSeventh => 11,
        Interval::PerfectOctave => 12,
    }
}

/// The intervals grow strictly in size from the unison (0 semitones) to
/// the octave (12): each is larger than every one listed before it, so the
/// thirteen intervals take the thirteen sizes 0 to 12 in order, and a minor
/// interval is one semitone below its major one.
pub proof fn lemma_interval_sizes_ascend(a: Interval, b: Interval)
    ensures
        interval_semitones(Interval::Unison) == 0,
        interval_semitones(Interval::PerfectOctave) == 12,
        interval_rank(a) < interval_rank(b) ==> interval_semitones(a) < interval_semitones(b),
        interval_semitones(Interval::MinorSecond) + 1 == interval_semitones(Interval::MajorSecond),
        interval_semitones(Interval::MinorThird) + 1 == interval_semitones(Interval::MajorThird),
        interval_semitones(Interval::MinorSixth) + 1 == interval_semitones(Interval::MajorSixth),
        interval_semitones(Interval::MinorSeventh) + 1 == interval_semitones(Interval::MajorSeventh),
        interval_semitones(Interval::PerfectFourth) + interval_semitones(Interval::PerfectFifth)
            == interval_semitones(Interval::PerfectOctave),
{
}

/// Going up an interval from a root reaches the pitch class as many
/// semitones above it as the interval's place in the list from unison to
/// octave: a minor seventh above C is A#, a major seventh is B.
pub proof fn lemma_target_by_rank(root: Note, i: Interval)
    ensures
        note_class(spec_target_note(root, i)) == (note_class(root) + interval_rank(i)) % 12,
{
}

} // verus!
