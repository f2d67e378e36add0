use core_engine::theory::interval::{calculate_target_note, Interval};
use core_engine::theory::note::{
    midi_from_note, parse_note, Accidental, MidiNote, Note, NoteSpelling, ParseNoteError,
};
use std::convert::TryFrom;

#[test]
fn theory_test_midi_to_note() {
    assert_eq!(Note::from_midi(60), Note::C); // Middle C
    assert_eq!(Note::from_midi(61), Note::CSharp); // C#
    assert_eq!(Note::from_midi(40), Note::E); // Low E guitar
}

#[test]
fn note_test_midi_to_note() {
    assert_eq!(Note::from_midi(60), Note::C);
    assert_eq!(Note::from_midi(61), Note::CSharp);
    assert_eq!(Note::from_midi(40), Note::E);
}

#[test]
fn test_spn_to_midi() {
    // Standard pitches
    assert_eq!(MidiNote::try_from("C4".to_string()), Ok(MidiNote(60)));
    assert_eq!(MidiNote::try_from("A4".to_string()), Ok(MidiNote(69)));

    // Accidentals and case sensitivity
    assert_eq!(MidiNote::try_from("F#3".to_string()), Ok(MidiNote(54)));
    assert_eq!(MidiNote::try_from("db3".to_string()), Ok(MidiNote(49)));

    // Edge boundaries (min and max valid MIDI values)
    assert_eq!(MidiNote::try_from("C-1".to_string()), Ok(MidiNote(0)));
    assert_eq!(MidiNote::try_from("G9".to_string()), Ok(MidiNote(127)));
}

#[test]
fn test_spn_parsing_failures() {
    assert!(MidiNote::try_from("H4".to_string()).is_err()); // Invalid pitch letter
    assert!(MidiNote::try_from("C".to_string()).is_err()); // Missing octave
    assert!(MidiNote::try_from("G10".to_string()).is_err()); // Out of MIDI range (>127)
}

#[test]
fn test_enharmonic_alts() {
    let b_sharp = NoteSpelling::enharmonic_alt(Note::C).unwrap();
    assert_eq!(b_sharp.display(), "B#");
    assert_eq!(b_sharp.pitch, Note::C);

    let c_flat = NoteSpelling::enharmonic_alt(Note::B).unwrap();
    assert_eq!(c_flat.display(), "Cb");
    assert_eq!(c_flat.pitch, Note::B);

    let f_flat = NoteSpelling::enharmonic_alt(Note::E).unwrap();
    assert_eq!(f_flat.display(), "Fb");

    let e_sharp = NoteSpelling::enharmonic_alt(Note::F).unwrap();
    assert_eq!(e_sharp.display(), "E#");
}

#[test]
fn test_natural_notes_have_no_flat_alt() {
    assert_eq!(NoteSpelling::prefer_flat(Note::D).display(), "D");
    assert_eq!(NoteSpelling::prefer_flat(Note::G).display(), "G");
    assert_eq!(NoteSpelling::prefer_flat(Note::A).display(), "A");
}

#[test]
fn test_all_spellings_c() {
    let spellings = NoteSpelling::all_spellings(Note::C);
    let names: Vec<String> = spellings.iter().map(|s| s.display()).collect();
    assert_eq!(names, vec!["C", "B#"]);
}

#[test]
fn test_all_spellings_csharp() {
    let spellings = NoteSpelling::all_spellings(Note::CSharp);
    let names: Vec<String> = spellings.iter().map(|s| s.display()).collect();
    assert_eq!(names, vec!["C#", "Db"]);
}

#[test]
fn test_pitch_class_preserved() {
    for spelling in NoteSpelling::all_spellings(Note::ASharp) {
        assert_eq!(spelling.pitch, Note::ASharp);
    }
}

#[test]
fn test_note_from_str_valid() {
    assert_eq!("C".parse::<Note>(), Ok(Note::C));
    assert_eq!("c#".parse::<Note>(), Ok(Note::CSharp));
    assert_eq!("Db".parse::<Note>(), Ok(Note::CSharp));
    assert_eq!("  g#  ".parse::<Note>(), Ok(Note::GSharp));
}

#[test]
fn test_note_from_str_invalid() {
    assert!("H".parse::<Note>().is_err());
    assert!("C##".parse::<Note>().is_err());
    assert!("".parse::<Note>().is_err());
}

#[test]
fn test_interval_addition() {
    assert_eq!(calculate_target_note(Note::G, Interval::PerfectFifth), Note::D);
    assert_eq!(calculate_target_note(Note::C, Interval::MajorThird), Note::E);
    assert_eq!(calculate_target_note(Note::B, Interval::MinorSecond), Note::C);
}

// ---------------------------------------------------------------------------
// Further cases
// ---------------------------------------------------------------------------

#[test]
fn from_midi_and_value_round_trip() {
    let all = [
        Note::C, Note::CSharp, Note::D, Note::DSharp, Note::E, Note::F, Note::FSharp, Note::G,
        Note::GSharp, Note::A, Note::ASharp, Note::B,
    ];
    for (i, n) in all.iter().enumerate() {
        assert_eq!(n.value() as usize, i);
        assert_eq!(Note::from_midi(n.value()), *n);
        // Whole octaves above name the same pitch class.
        assert_eq!(Note::from_midi(n.value() + 12 * 7), *n);
    }
    assert_eq!(Note::from_midi(255), Note::DSharp);
}

#[test]
fn midi_from_note_values() {
    assert_eq!(midi_from_note(Note::E.value(), 4), MidiNote(64));
    assert_eq!(midi_from_note(Note::C.value(), -1), MidiNote(0));
    assert_eq!(midi_from_note(Note::G.value(), 9), MidiNote(127));
    // Below MIDI 0 the i8 value wraps when read as u8.
    assert_eq!(midi_from_note(Note::C.value(), -2), MidiNote(244));
}

#[test]
fn spn_error_messages() {
    let err = |s: &str| MidiNote::try_from(s.to_string()).unwrap_err();
    assert_eq!(err(""), "Empty pitch string");
    assert_eq!(err("4C"), "Invalid starting character in pitch: 4");
    assert_eq!(err("C"), "Missing octave of pitch: C");
    assert_eq!(err("c#"), "Missing octave of pitch: c#");
    assert_eq!(err("h4"), "Invalid note name: H");
    assert_eq!(err("Hb4"), "Invalid note name: Hb");
    assert_eq!(err("Cx"), "Invalid octave format: x");
    assert_eq!(err("C200"), "Invalid octave format: 200");
    assert_eq!(err("G10"), "MIDI value 139 is out of bounds (0-127)");
    assert_eq!(err("C-2"), "MIDI value -12 is out of bounds (0-127)");
}

#[test]
fn spn_enharmonic_names_and_signs() {
    let ok = |s: &str| MidiNote::from_spn(s).unwrap();
    assert_eq!(ok("B#3"), MidiNote(60));
    assert_eq!(ok("Cb4"), MidiNote(59));
    assert_eq!(ok("E#4"), MidiNote(65));
    assert_eq!(ok("Fb4"), MidiNote(64));
    assert_eq!(ok("C+4"), MidiNote(60));
    assert_eq!(ok("bb3"), MidiNote(58));
}

#[test]
fn parse_note_errors_keep_the_input() {
    assert_eq!(parse_note(" C## "), Err(ParseNoteError(" C## ".to_string())));
    assert_eq!(parse_note("E#"), Err(ParseNoteError("E#".to_string())));
    assert_eq!(parse_note("bB"), Ok(Note::ASharp));
    assert_eq!(
        ParseNoteError("Q".to_string()).display(),
        "Failed to parse note: 'Q'"
    );
}

#[test]
fn spellings_parse_back_and_show_accidentals() {
    let all = [
        Note::C, Note::CSharp, Note::D, Note::DSharp, Note::E, Note::F, Note::FSharp, Note::G,
        Note::GSharp, Note::A, Note::ASharp, Note::B,
    ];
    for n in all {
        assert_eq!(parse_note(&NoteSpelling::prefer_sharp(n).display()), Ok(n));
        assert_eq!(parse_note(&NoteSpelling::prefer_flat(n).display()), Ok(n));
        for s in NoteSpelling::all_spellings(n) {
            assert_eq!(s.pitch, n);
        }
    }
    assert_eq!(Accidental::DoubleSharp.symbol(), "##");
    assert_eq!(Accidental::DoubleFlat.symbol(), "bb");
    assert_eq!(Accidental::Natural.symbol(), "");
    assert_eq!(NoteSpelling::all_spellings(Note::E).len(), 2);
    assert_eq!(NoteSpelling::all_spellings(Note::D).len(), 1);
    assert!(NoteSpelling::enharmonic_alt(Note::D).is_none());
}

#[test]
fn spn_round_trip_of_written_pitches() {
    for octave in -1i8..=9 {
        for v in 0u8..12 {
            let n = Note::from_midi(v);
            let midi = (octave as i32 + 1) * 12 + v as i32;
            if midi > 127 {
                continue;
            }
            let text = format!("{}{}", NoteSpelling::prefer_flat(n).display(), octave);
            assert_eq!(MidiNote::from_spn(&text), Ok(MidiNote(midi as u8)), "{}", text);
        }
    }
}

#[test]
fn intervals_wrap_at_the_octave() {
    assert_eq!(Interval::PerfectOctave.semitones(), 12);
    assert_eq!(calculate_target_note(Note::A, Interval::PerfectOctave), Note::A);
    assert_eq!(calculate_target_note(Note::A, Interval::Unison), Note::A);
    assert_eq!(calculate_target_note(Note::FSharp, Interval::Tritone), Note::C);
    let up = calculate_target_note(Note::E, Interval::PerfectFifth);
    assert_eq!(calculate_target_note(up, Interval::PerfectFourth), Note::E);
}

#[test]
fn spn_accidental_crosses_octave_boundary() {
    assert_eq!(MidiNote::try_from("Cb4".to_string()), Ok(MidiNote(59)));
    assert_eq!(MidiNote::try_from("B#3".to_string()), Ok(MidiNote(60)));
    assert_eq!(MidiNote::try_from("B3".to_string()), Ok(MidiNote(59)));
    assert_eq!(MidiNote::try_from("C4".to_string()), Ok(MidiNote(60)));
    assert_eq!(MidiNote::try_from("B#8".to_string()), Ok(MidiNote(120)));
    assert_eq!(MidiNote::try_from("Cb0".to_string()), Ok(MidiNote(11)));
    assert_eq!(
        MidiNote::try_from("Cb-1".to_string()),
        Err("MIDI value -1 is out of bounds (0-127)".to_string())
    );
    assert_eq!(
        MidiNote::try_from("B#9".to_string()),
        Err("MIDI value 132 is out of bounds (0-127)".to_string())
    );
}

#[test]
fn padded_lower_case_spelling_reads_back() {
    assert_eq!(parse_note("  db \t"), Ok(Note::CSharp));
    assert_eq!(parse_note(" f# "), Ok(Note::FSharp));
    assert_eq!(parse_note("\u{3000}g"), Ok(Note::G));
}
