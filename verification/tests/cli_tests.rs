use core_engine::cli::{chord_note_spelling, parse_chord_args, prefers_flat, Cli, Commands};
use core_engine::theory::chord::{ChordQuality, Extension};
use core_engine::theory::note::Note;

fn strings(v: &[&str]) -> Vec<String> {
    v.iter().map(|s| s.to_string()).collect()
}

#[test]
fn chord_args_single_symbol() {
    let (root, ct) = parse_chord_args(&strings(&["Cm7"])).unwrap();
    assert_eq!(root, Note::C);
    assert_eq!(ct.quality, ChordQuality::Minor);
    assert_eq!(ct.extension, Extension::MinorSeventh);
}

#[test]
fn chord_args_root_and_quality() {
    let (root, ct) = parse_chord_args(&strings(&["D", "minor"])).unwrap();
    assert_eq!(root, Note::D);
    assert_eq!(ct.quality, ChordQuality::Minor);
    assert_eq!(ct.extension, Extension::NoExtension);
}

#[test]
fn chord_args_root_quality_extension() {
    let (root, ct) = parse_chord_args(&strings(&["G", "minor", "9"])).unwrap();
    assert_eq!(root, Note::G);
    assert_eq!(ct.quality, ChordQuality::Minor);
    assert_eq!(ct.extension, Extension::Ninth);
}

#[test]
fn chord_args_bad_quality_is_error() {
    let e = parse_chord_args(&strings(&["C", "weird"])).unwrap_err();
    assert_eq!(e.display(), "Failed to parse chord: unrecognized quality 'weird'");
}

#[test]
fn flat_spelling_follows_m_or_b() {
    assert!(prefers_flat(&strings(&["Cm7"])));
    assert!(prefers_flat(&strings(&["Bb"])));
    assert!(prefers_flat(&strings(&["G", "minor", "9"])));
    assert!(prefers_flat(&strings(&["C#", "major", "7"])));
    assert!(!prefers_flat(&strings(&["C#", "sus4", "7"])));
    assert!(!prefers_flat(&strings(&["F#aug"])));
    assert!(!prefers_flat(&strings(&[])));
}

#[test]
fn chord_note_spelling_picks_accidental() {
    assert_eq!(chord_note_spelling(Note::CSharp, true).display(), "Db");
    assert_eq!(chord_note_spelling(Note::CSharp, false).display(), "C#");
    assert_eq!(chord_note_spelling(Note::E, true).display(), "E");
}

#[test]
fn cli_value_holds_its_fields() {
    let cli = Cli {
        max_stretch: 5,
        capo: 2,
        command: Commands::Chord { args: strings(&["Cm7"]), intervals: false },
    };
    let copy = cli.clone();
    assert_eq!(copy, cli);
    assert_eq!(copy.max_stretch, 5);
    let Commands::Chord { args, intervals } = copy.command;
    assert_eq!(args, vec!["Cm7".to_string()]);
    assert!(!intervals);
}
