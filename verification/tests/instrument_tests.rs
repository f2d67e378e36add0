use core_engine::instrument::database::{Instrument, InstrumentDatabase, Tuning as OwnedTuning};
use core_engine::instrument::registry::get_tuning;
use core_engine::instrument::{
    BassTunings, FretBoardConfig, GuitarTunings, Orientation, StandardTunings,
};
use core_engine::theory::{MidiNote, Note};
use std::convert::TryFrom;

fn spn(s: &str) -> MidiNote {
    MidiNote::try_from(s.to_string()).unwrap()
}

/// The guitar entry of the instrument description, as it would be loaded.
fn sample_database() -> InstrumentDatabase {
    InstrumentDatabase {
        instruments: vec![
            Instrument {
                name: "Guitar".to_string(),
                tunings: vec![
                    OwnedTuning {
                        name: "Standard".to_string(),
                        strings: vec![spn("E2"), spn("A2"), spn("D3"), spn("G3"), spn("B3"), spn("E4")],
                    },
                    OwnedTuning {
                        name: "Drop D".to_string(),
                        strings: vec![spn("D2"), spn("A2"), spn("D3"), spn("G3"), spn("B3"), spn("E4")],
                    },
                ],
            },
            Instrument {
                name: "Bass".to_string(),
                tunings: vec![OwnedTuning {
                    name: "Standard".to_string(),
                    strings: vec![spn("E1"), spn("A1"), spn("D2"), spn("G2")],
                }],
            },
        ],
    }
}

#[test]
fn test_database_load_and_query() -> Result<(), String> {
    let db = sample_database();

    let guitar_standard = db
        .get_tuning("Guitar", "Standard")
        .ok_or_else(|| "Failed to find Guitar Standard tuning from database".to_string())?;

    assert_eq!(guitar_standard.name, "Standard");
    assert_eq!(guitar_standard.strings.len(), 6);

    // String 0 (low E(E2)) 3rd fret = G2
    assert_eq!(guitar_standard.note_at_fret(0, 3), Some(Note::G));
    // String 5 (high E(E4)) open string = E4
    assert_eq!(guitar_standard.note_at_fret(5, 0), Some(Note::E));

    // Out of bounds string
    assert_eq!(guitar_standard.note_at_fret(99, 0), None);

    Ok(())
}

#[test]
fn database_lookup_misses() {
    let db = sample_database();
    assert!(db.get_tuning("Ukulele", "Standard").is_none());
    assert!(db.get_tuning("Guitar", "Open G").is_none());
    assert_eq!(db.get_tuning("Bass", "Standard").unwrap().strings.len(), 4);
    assert_eq!(db.get_tuning("Guitar", "Drop D").unwrap().strings[0], MidiNote(38));
    assert!(db.get_tuning("guitar", "Standard").is_none());
}

#[test]
fn standard_guitar_test() {
    let guitar = FretBoardConfig::new(StandardTunings::guitar_standard(), 24, Orientation::RightHanded);
    assert_eq!(guitar.tuning, StandardTunings::guitar_standard());
    assert_eq!(guitar.fret_count, 24);
    assert_eq!(guitar.orientation, Orientation::RightHanded);
}

#[test]
fn test_guitar_standard_string_count() {
    let tuning = StandardTunings::guitar_standard();
    assert_eq!(tuning.strings.len(), 6);
}

#[test]
fn test_guitar_standard_open_notes() {
    let tuning = StandardTunings::guitar_standard();
    // High to low: E4 B3 G3 D3 A2 E2
    assert_eq!(tuning.strings[0], MidiNote(64)); // E4
    assert_eq!(tuning.strings[5], MidiNote(40)); // E2
}

#[test]
fn test_note_at_fret_open() {
    let tuning = StandardTunings::guitar_standard();
    assert_eq!(tuning.note_at_fret(0, 0), Some(Note::E));
}

#[test]
fn test_note_at_fret_out_of_bounds() {
    let tuning = StandardTunings::guitar_standard();
    assert_eq!(tuning.note_at_fret(99, 0), None);
}

#[test]
fn tunings_match_their_note_names() {
    let check = |t: core_engine::instrument::Tuning<'static>, names: &[&str]| {
        let expected: Vec<MidiNote> = names.iter().map(|s| spn(s)).collect();
        assert_eq!(t.strings, expected.as_slice(), "{}", t.name);
    };
    check(StandardTunings::guitar_standard(), &["E4", "B3", "G3", "D3", "A2", "E2"]);
    check(StandardTunings::bass_standard(), &["G2", "D2", "A1", "E1"]);
    check(StandardTunings::ukulele_standard(), &["G4", "E4", "C4", "A4"]);
    check(StandardTunings::banjo_standard(), &["D4", "B3", "G3", "D3", "G4"]);
    check(StandardTunings::mandolin_standard(), &["E5", "A4", "D4", "G3"]);
    check(GuitarTunings::guitar_drop_d(), &["E4", "B3", "G3", "D3", "A2", "D2"]);
    check(GuitarTunings::guitar_eb_standard(), &["Eb4", "Bb3", "Gb3", "Db3", "Ab2", "Eb2"]);
    check(GuitarTunings::guitar_full_step_down(), &["D4", "A3", "F3", "C3", "G2", "D2"]);
    check(BassTunings::bass_drop_d(), &["G2", "D2", "A1", "D1"]);
}

#[test]
fn registry_lookup() {
    let keys = [
        ("guitar/standard", "E Standard", 6),
        ("guitar/drop_d", "Drop D", 6),
        ("guitar/eb_standard", "Eb standard", 6),
        ("guitar/full_step_down", "Full Step Down", 6),
        ("bass/standard", "E Standard", 4),
        ("bass/drop_d", "Drop D", 4),
        ("banjo/standard", "Standard", 5),
        ("mandolin/standard", "Standard", 4),
        ("ukulele/standard", "Standard", 4),
    ];
    for (key, name, count) in keys {
        let t = get_tuning(key).unwrap();
        assert_eq!(t.name, name, "{}", key);
        assert_eq!(t.strings.len(), count, "{}", key);
    }
    assert_eq!(get_tuning("guitar/drop_d"), Some(GuitarTunings::guitar_drop_d()));
    assert!(get_tuning("guitar/Standard").is_none());
    assert!(get_tuning("").is_none());
    assert!(get_tuning("piano/standard").is_none());
}

#[test]
fn orientation_defaults_to_right_handed() {
    assert_eq!(Orientation::default(), Orientation::RightHanded);
    let left = FretBoardConfig::new(BassTunings::bass_drop_d(), 20, Orientation::LeftHanded);
    assert_eq!(left.orientation, Orientation::LeftHanded);
    assert_eq!(left.tuning.note_at_fret(3, 2), Some(Note::E));
}
