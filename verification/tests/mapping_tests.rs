use core_engine::instrument::{FretBoardConfig, Orientation, StandardTunings, Tuning};
use core_engine::mapping::{find_notes_on_fretboard, NoteCoordinate};
use core_engine::theory::{MidiNote, Note};

#[test]
fn test_find_c_major_triad_on_standard_guitar() {
    let config = FretBoardConfig::new(StandardTunings::guitar_standard(), 22, Orientation::RightHanded);
    // C Major Triad: C(0), E(4), G(7)
    let c_major_triad = vec![Note::C, Note::E, Note::G];

    let coords = find_notes_on_fretboard(&c_major_triad, &config);

    // Low E string (index 5)
    assert!(coords.contains(&NoteCoordinate { string_index: 5, fret: 0 })); // Open E
    assert!(coords.contains(&NoteCoordinate { string_index: 5, fret: 3 })); // G
    assert!(coords.contains(&NoteCoordinate { string_index: 5, fret: 8 })); // C

    // A string (index 4)
    assert!(coords.contains(&NoteCoordinate { string_index: 4, fret: 3 })); // C
    assert!(coords.contains(&NoteCoordinate { string_index: 4, fret: 7 })); // E
    assert!(coords.contains(&NoteCoordinate { string_index: 4, fret: 10 })); // G

    // No false positives (F at the 1st fret of the low E string)
    assert!(!coords.contains(&NoteCoordinate { string_index: 5, fret: 1 }));
}

#[test]
fn fretboard_scan_order_and_completeness() {
    let strings = [MidiNote(40), MidiNote(45)];
    let tuning = Tuning { name: "two strings", strings: &strings };
    let config = FretBoardConfig::new(tuning, 12, Orientation::RightHanded);
    let coords = find_notes_on_fretboard(&[Note::A, Note::A], &config);
    // A on the E string at 5, on the A string open and at 12; string by
    // string, frets ascending, each once.
    assert_eq!(
        coords,
        vec![
            NoteCoordinate { string_index: 0, fret: 5 },
            NoteCoordinate { string_index: 1, fret: 0 },
            NoteCoordinate { string_index: 1, fret: 12 },
        ]
    );
    for c in &coords {
        assert_eq!(config.tuning.note_at_fret(c.string_index as usize, c.fret), Some(Note::A));
    }
}

#[test]
fn fretboard_scan_edge_cases() {
    let config = FretBoardConfig::new(StandardTunings::guitar_standard(), 0, Orientation::RightHanded);
    assert!(find_notes_on_fretboard(&[], &config).is_empty());
    // Only open strings with no frets: both E strings.
    assert_eq!(
        find_notes_on_fretboard(&[Note::E], &config),
        vec![
            NoteCoordinate { string_index: 0, fret: 0 },
            NoteCoordinate { string_index: 5, fret: 0 },
        ]
    );
    let all = [
        Note::C, Note::CSharp, Note::D, Note::DSharp, Note::E, Note::F, Note::FSharp, Note::G,
        Note::GSharp, Note::A, Note::ASharp, Note::B,
    ];
    let config = FretBoardConfig::new(StandardTunings::guitar_standard(), 24, Orientation::RightHanded);
    assert_eq!(find_notes_on_fretboard(&all, &config).len(), 6 * 25);
}
