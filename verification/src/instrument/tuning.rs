//! Fixed instrument tunings, held as static data.
use vstd::prelude::*;
use crate::theory::note::{note_class, note_of_class, MidiNote, Note};

verus! {

/// The open-string pitches of an instrument, highest string first.
#[derive(Debug, Clone, Copy, PartialEq, Eq)]
pub struct Tuning<'a> {
    pub name: &'a str,
    pub strings: &'a [MidiNote],
}

/// The pitch class sounded by `open` raised by `fret` semitones.
pub open spec fn fretted_note(open: MidiNote, fret: u8) -> Note {
    note_of_class(((open.0 + fret) % 12) as int)
}

impl<'a> Tuning<'a> {
    /// The note produced by pressing `fret` on string `string_index`, or
    /// `None` where the tuning has no such string.
    pub fn note_at_fret(&self, string_index: usize, fret: u8) -> (r: Option<Note>)
        requires
            string_index < self.strings@.len() ==> self.strings@[string_index as int].0 + fret
                <= 255,
        ensures
            string_index < self.strings@.len() ==> r == Some(
                fretted_note(self.strings@[string_index as int], fret),
            ),
            string_index >= self.strings@.len() ==> r == None::<Note>,
    {
        if string_index >= self.strings.len() {
            return None;
        }
        let open_midi = self.strings[string_index];
        let fretted_midi = open_midi.0 + fret;
        Some(Note::from_midi(fretted_midi))
    }
}

/// The MIDI note of a pitch class in a scientific-pitch octave (C4 = 60).
pub open spec fn spn(n: Note, octave: int) -> MidiNote {
    MidiNote(((octave + 1) * 12 + note_class(n)) as u8)
}

/// Standard tunings of the supported instruments.
pub struct StandardTunings;

/// Alternate guitar tunings.
pub struct GuitarTunings;

/// Alternate bass tunings.
pub struct BassTunings;

pub open spec fn guitar_standard_strings() -> Seq<MidiNote> {
    seq![spn(Note::E, 4), spn(Note::B, 3), spn(Note::G, 3), spn(Note::D, 3), spn(Note::A, 2), spn(Note::E, 2)]
}

pub open spec fn bass_standard_strings() -> Seq<MidiNote> {
    seq![spn(Note::G, 2), spn(Note::D, 2), spn(Note::A, 1), spn(Note::E, 1)]
}

pub open spec fn ukulele_standard_strings() -> Seq<MidiNote> {
    seq![spn(Note::G, 4), spn(Note::E, 4), spn(Note::C, 4), spn(Note::A, 4)]
}

/// The banjo strings this library takes as standard (its own choice):
/// open G, D4 B3 G3 D3 G4.
pub open spec fn banjo_standard_strings() -> Seq<MidiNote> {
    seq![spn(Note::D, 4), spn(Note::B, 3), spn(Note::G, 3), spn(Note::D, 3), spn(Note::G, 4)]
}

/// The mandolin strings this library takes as standard (its own choice):
/// E5 A4 D4 G3.
pub open spec fn mandolin_standard_strings() -> Seq<MidiNote> {
    seq![spn(Note::E, 5), spn(Note::A, 4), spn(Note::D, 4), spn(Note::G, 3)]
}

pub open spec fn guitar_drop_d_strings() -> Seq<MidiNote> {
    seq![spn(Note::E, 4), spn(Note::B, 3), spn(Note::G, 3), spn(Note::D, 3), spn(Note::A, 2), spn(Note::D, 2)]
}

pub open spec fn guitar_eb_standard_strings() -> Seq<MidiNote> {
    seq![spn(Note::DSharp, 4), spn(Note::ASharp, 3), spn(Note::FSharp, 3), spn(Note::CSharp, 3), spn(Note::GSharp, 2), spn(Note::DSharp, 2)]
}

pub open spec fn guitar_full_step_down_strings() -> Seq<MidiNote> {
    seq![spn(Note::D, 4), spn(Note::A, 3), spn(Note::F, 3), spn(Note::C, 3), spn(Note::G, 2), spn(Note::D, 2)]
}

pub open spec fn bass_drop_d_strings() -> Seq<MidiNote> {
    seq![spn(Note::G, 2), spn(Note::D, 2), spn(Note::A, 1), spn(Note::D, 1)]
}

impl StandardTunings {
    /// Guitar in standard tuning, E4 B3 G3 D3 A2 E2.
    pub fn guitar_standard() -> (t: Tuning<'static>)
        ensures
            t.name@ == "E Standard"@,
            t.strings@ == guitar_standard_strings(),
    {
        let strings: &'static [MidiNote] = &[
            MidiNote(64),
            MidiNote(59),
            MidiNote(55),
            MidiNote(50),
            MidiNote(45),
            MidiNote(40),
        ];
        Tuning { name: "E Standard", strings }
    }

    /// Four-string bass in standard tuning, G2 D2 A1 E1.
    pub fn bass_standard() -> (t: Tuning<'static>)
        ensures
            t.name@ == "E Standard"@,
            t.strings@ == bass_standard_strings(),
    {
        let strings: &'static [MidiNote] = &[MidiNote(43), MidiNote(38), MidiNote(33), MidiNote(28)];
        Tuning { name: "E Standard", strings }
    }

    /// Five-string banjo in open G, strings 1 to 5: D4 B3 G3 D3 and the
    /// short high G4 string. The registry names a standard banjo tuning
    /// without fixing its pitches elsewhere; these open-G pitches are this
    /// library's own choice of that standard.
    pub fn banjo_standard() -> (t: Tuning<'static>)
        ensures
            t.name@ == "Standard"@,
            t.strings@ == banjo_standard_strings(),
    {
        let strings: &'static [MidiNote] = &[
            MidiNote(62),
            MidiNote(59),
            MidiNote(55),
            MidiNote(50),
            MidiNote(67),
        ];
        Tuning { name: "Standard", strings }
    }

    /// Mandolin in standard tuning, E5 A4 D4 G3. The registry names a
    /// standard mandolin tuning without fixing its pitches elsewhere; these
    /// (the violin-like fifths tuning) are this library's own choice.
    pub fn mandolin_standard() -> (t: Tuning<'static>)
        ensures
            t.name@ == "Standard"@,
            t.strings@ == mandolin_standard_strings(),
    {
        let strings: &'static [MidiNote] = &[MidiNote(76), MidiNote(69), MidiNote(62), MidiNote(55)];
        Tuning { name: "Standard", strings }
    }

    /// Ukulele in standard (re-entrant) tuning, G4 E4 C4 A4.
    pub fn ukulele_standard() -> (t: Tuning<'static>)
        ensures
            t.name@ == "Standard"@,
            t.strings@ == ukulele_standard_strings(),
    {
        let strings: &'static [MidiNote] = &[MidiNote(67), MidiNote(64), MidiNote(60), MidiNote(69)];
        Tuning { name: "Standard", strings }
    }
}

impl GuitarTunings {
    /// Guitar with the low string dropped to D: E4 B3 G3 D3 A2 D2.
    pub fn guitar_drop_d() -> (t: Tuning<'static>)
        ensures
            t.name@ == "Drop D"@,
            t.strings@ == guitar_drop_d_strings(),
    {
        let strings: &'static [MidiNote] = &[
            MidiNote(64),
            MidiNote(59),
            MidiNote(55),
            MidiNote(50),
            MidiNote(45),
            MidiNote(38),
        ];
        Tuning { name: "Drop D", strings }
    }

    /// Guitar a half step down: Eb4 Bb3 Gb3 Db3 Ab2 Eb2.
    pub fn guitar_eb_standard() -> (t: Tuning<'static>)
        ensures
            t.name@ == "Eb standard"@,
            t.strings@ == guitar_eb_standard_strings(),
    {
        let strings: &'static [MidiNote] = &[
            MidiNote(63),
            MidiNote(58),
            MidiNote(54),
            MidiNote(49),
            MidiNote(44),
            MidiNote(39),
        ];
        Tuning { name: "Eb standard", strings }
    }

    /// Guitar a whole step down: D4 A3 F3 C3 G2 D2.
    pub fn guitar_full_step_down() -> (t: Tuning<'static>)
        ensures
            t.name@ == "Full Step Down"@,
            t.strings@ == guitar_full_step_down_strings(),
    {
        let strings: &'static [MidiNote] = &[
            MidiNote(62),
            MidiNote(57),
            MidiNote(53),
            MidiNote(48),
            MidiNote(43),
            MidiNote(38),
        ];
        Tuning { name: "Full Step Down", strings }
    }
}

impl BassTunings {
    /// Bass with the low string dropped to D: G2 D2 A1 D1.
    pub fn bass_drop_d() -> (t: Tuning<'static>)
        ensures
            t.name@ == "Drop D"@,
            t.strings@ == bass_drop_d_strings(),
    {
        let strings: &'static [MidiNote] = &[MidiNote(43), MidiNote(38), MidiNote(33), MidiNote(26)];
        Tuning { name: "Drop D", strings }
    }
}

} // verus!
