use core_engine::chord_parser::{parse_chord_parts, parse_chord_symbol, parse_root, ChordParseError};
use core_engine::theory::chord::{ChordQuality, Extension};
use core_engine::theory::Note;

#[test]
fn test_plain_major_triad() {
    let (root, ct) = parse_chord_symbol("C").unwrap();
    assert_eq!(root, Note::C);
    assert_eq!(ct.quality, ChordQuality::Major);
    assert_eq!(ct.extension, Extension::NoExtension);
}

#[test]
fn test_minor_seventh() {
    let (root, ct) = parse_chord_symbol("Cm7").unwrap();
    assert_eq!(root, Note::C);
    assert_eq!(ct.quality, ChordQuality::Minor);
    assert_eq!(ct.extension, Extension::MinorSeventh);
}

#[test]
fn test_dominant_seventh_default_major() {
    let (root, ct) = parse_chord_symbol("C7").unwrap();
    assert_eq!(root, Note::C);
    assert_eq!(ct.quality, ChordQuality::Major);
    assert_eq!(ct.extension, Extension::DominantSeventh);
}

#[test]
fn test_explicit_major_seventh() {
    let (root, ct) = parse_chord_symbol("CM7").unwrap();
    assert_eq!(root, Note::C);
    assert_eq!(ct.quality, ChordQuality::Major);
    assert_eq!(ct.extension, Extension::MajorSeventh);
}

#[test]
fn test_maj7_word_form() {
    let (root, ct) = parse_chord_symbol("Cmaj7").unwrap();
    assert_eq!(root, Note::C);
    assert_eq!(ct.quality, ChordQuality::Major);
    assert_eq!(ct.extension, Extension::MajorSeventh);
}

#[test]
fn test_minor_major_seventh() {
    // CmM7 -> minor triad + major 7th interval
    let (root, ct) = parse_chord_symbol("CmM7").unwrap();
    assert_eq!(root, Note::C);
    assert_eq!(ct.quality, ChordQuality::Minor);
    assert_eq!(ct.extension, Extension::MajorSeventh);
}

#[test]
fn test_augmented_seven_sharp_five() {
    // Caug7 -> Augmented quality (M3 + #5) + DominantSeventh (b7)
    let (root, ct) = parse_chord_symbol("Caug7").unwrap();
    assert_eq!(root, Note::C);
    assert_eq!(ct.quality, ChordQuality::Augmented);
    assert_eq!(ct.extension, Extension::DominantSeventh);
}

#[test]
fn test_diminished_seventh() {
    let (root, ct) = parse_chord_symbol("Cdim7").unwrap();
    assert_eq!(root, Note::C);
    assert_eq!(ct.quality, ChordQuality::Diminished);
    assert_eq!(ct.extension, Extension::DiminishedSeventh);
}

#[test]
fn test_sharp_root() {
    let (root, ct) = parse_chord_symbol("C#m7").unwrap();
    assert_eq!(root, Note::CSharp);
    assert_eq!(ct.quality, ChordQuality::Minor);
    assert_eq!(ct.extension, Extension::MinorSeventh);
}

#[test]
fn test_flat_root_maj9() {
    let (root, ct) = parse_chord_symbol("Ebmaj9").unwrap();
    assert_eq!(root, Note::DSharp);
    assert_eq!(ct.quality, ChordQuality::Major);
    assert_eq!(ct.extension, Extension::MajorNinth);
}

#[test]
fn test_sus4_stacks_extension_normally() {
    let (root, ct) = parse_chord_symbol("Csus4").unwrap();
    assert_eq!(root, Note::C);
    assert_eq!(ct.quality, ChordQuality::Sus4);
    assert_eq!(ct.extension, Extension::NoExtension);
}

#[test]
fn test_root_accidental_consumes_the_only_sign_slot() {
    // The root's accidental (#/b) is the only accidental slot in the grammar:
    // "C#9" and "Db9" are root C#/Db(=C#) + plain Ninth.
    let (root_sharp, ct_sharp) = parse_chord_symbol("C#9").unwrap();
    assert_eq!(root_sharp, Note::CSharp);
    assert_eq!(ct_sharp.extension, Extension::Ninth);

    let (root_flat, ct_flat) = parse_chord_symbol("Db9").unwrap();
    assert_eq!(root_flat, Note::CSharp); // Db is enharmonic C#
    assert_eq!(ct_flat.extension, Extension::Ninth);
}

#[test]
fn test_altered_extension_requires_explicit_major_to_disambiguate() {
    let (root, ct_flat9) = parse_chord_symbol("CMb9").unwrap();
    assert_eq!(root, Note::C);
    assert_eq!(ct_flat9.extension, Extension::FlatNinth);

    let (_, ct_sharp11) = parse_chord_symbol("CM#11").unwrap();
    assert_eq!(ct_sharp11.extension, Extension::SharpEleventh);
}

#[test]
fn test_sharp_eleventh() {
    let (root, ct) = parse_chord_symbol("C#11").unwrap();
    assert_eq!(root, Note::CSharp);
    assert_eq!(ct.extension, Extension::Eleventh);
}

#[test]
fn test_explicit_major_eleventh_and_thirteenth() {
    let (_, ct11) = parse_chord_symbol("CM11").unwrap();
    assert_eq!(ct11.extension, Extension::MajorEleventh);

    let (_, ct13) = parse_chord_symbol("CM13").unwrap();
    assert_eq!(ct13.extension, Extension::MajorThirteenth);
}

#[test]
fn test_defaulted_major_eleventh_and_thirteenth_stay_plain() {
    let (_, ct11) = parse_chord_symbol("C11").unwrap();
    assert_eq!(ct11.extension, Extension::Eleventh);

    let (_, ct13) = parse_chord_symbol("C13").unwrap();
    assert_eq!(ct13.extension, Extension::Thirteenth);
}

#[test]
fn test_flat_thirteenth_via_explicit_major() {
    let (root_bare, ct_bare) = parse_chord_symbol("Db13").unwrap();
    assert_eq!(root_bare, Note::CSharp);
    assert_eq!(ct_bare.extension, Extension::Thirteenth);

    let (root, ct) = parse_chord_symbol("EbMb13").unwrap();
    assert_eq!(root, Note::DSharp);
    assert_eq!(ct.extension, Extension::FlatThirteenth);
}

#[test]
fn test_separate_arg_form() {
    let (root, ct) = parse_chord_parts("G", "minor", Some("9")).unwrap();
    assert_eq!(root, Note::G);
    assert_eq!(ct.quality, ChordQuality::Minor);
    assert_eq!(ct.extension, Extension::Ninth);
}

#[test]
fn test_separate_arg_form_word_extension() {
    let (root, ct) = parse_chord_parts("G", "major", Some("maj7")).unwrap();
    assert_eq!(root, Note::G);
    assert_eq!(ct.quality, ChordQuality::Major);
    assert_eq!(ct.extension, Extension::MajorSeventh);
}

#[test]
fn test_separate_arg_form_no_extension() {
    let (root, ct) = parse_chord_parts("D", "minor", None).unwrap();
    assert_eq!(root, Note::D);
    assert_eq!(ct.quality, ChordQuality::Minor);
    assert_eq!(ct.extension, Extension::NoExtension);
}

#[test]
fn test_invalid_root_rejected() {
    assert!(parse_chord_symbol("H7").is_err());
}

#[test]
fn test_invalid_quality_word_rejected_in_parts_form() {
    assert!(parse_chord_parts("C", "bogus", None).is_err());
}

// ---------------------------------------------------------------------------
// Further cases
// ---------------------------------------------------------------------------

fn err_text(r: Result<(Note, core_engine::theory::chord::ChordType), ChordParseError>) -> String {
    match r {
        Ok(v) => panic!("expected an error, got {:?}", v),
        Err(e) => e.0,
    }
}

#[test]
fn parse_root_splits_root_and_rest() {
    let (n, rest) = parse_root("F#maj9").unwrap();
    assert_eq!(n, Note::FSharp);
    assert_eq!(rest, "maj9");
    let (n, rest) = parse_root("Bbm").unwrap();
    assert_eq!(n, Note::ASharp);
    assert_eq!(rest, "m");
    let (n, rest) = parse_root("a").unwrap();
    assert_eq!(n, Note::A);
    assert_eq!(rest, "");
}

#[test]
fn parse_root_error_messages() {
    assert_eq!(parse_root("").unwrap_err().0, "empty chord symbol");
    assert_eq!(
        parse_root("7C").unwrap_err().0,
        "expected an alphabetical note letter, got '7C'"
    );
    assert_eq!(
        parse_root("H7").unwrap_err().0,
        "invalid root note 'H': Failed to parse note: 'H'"
    );
    // E# and Cb are not names the note reader knows.
    assert_eq!(
        parse_root("E#").unwrap_err().0,
        "invalid root note 'E#': Failed to parse note: 'E#'"
    );
}

#[test]
fn symbol_error_messages() {
    assert_eq!(err_text(parse_chord_symbol("   ")), "Empty chord symbol");
    assert_eq!(err_text(parse_chord_symbol("Cxyz")), "invalid extension 'xyz'");
    assert_eq!(
        err_text(parse_chord_symbol("C8")),
        "unsupported extension '8' for given quality"
    );
    assert_eq!(
        err_text(parse_chord_symbol("Cm#7")),
        "unsupported extension '#7' for given quality"
    );
    // A number too large for u32 is not a number.
    assert_eq!(
        err_text(parse_chord_symbol("C99999999999")),
        "invalid extension '99999999999'"
    );
}

#[test]
fn parts_error_messages() {
    assert_eq!(
        err_text(parse_chord_parts("X", "minor", None)),
        "invalid root note 'X': Failed to parse note: 'X'"
    );
    assert_eq!(
        err_text(parse_chord_parts("C", "bogus", None)),
        "unrecognized quality 'bogus'"
    );
    assert_eq!(
        err_text(parse_chord_parts("C", "maj7", None)),
        "unrecognized quality 'maj7'"
    );
    assert_eq!(
        err_text(parse_chord_parts("C", "minor", Some(" 5 "))),
        "unsupported extension ' 5 ' for given quality"
    );
}

#[test]
fn error_display_text() {
    let e = parse_chord_symbol("").unwrap_err();
    assert_eq!(e.display(), "Failed to parse chord: Empty chord symbol");
}

#[test]
fn quality_tokens() {
    let cases = [
        ("Cmin", ChordQuality::Minor),
        ("CMINOR", ChordQuality::Minor),
        ("C-", ChordQuality::Minor),
        ("Cmajor", ChordQuality::Major),
        ("CMaj", ChordQuality::Major),
        ("Cdiminished", ChordQuality::Diminished),
        ("Co", ChordQuality::Diminished),
        ("Caugmented", ChordQuality::Augmented),
        ("C+", ChordQuality::Augmented),
        ("Csus2", ChordQuality::Sus2),
        ("CSUS4", ChordQuality::Sus4),
    ];
    for (sym, q) in cases {
        let (_, ct) = parse_chord_symbol(sym).unwrap();
        assert_eq!(ct.quality, q, "{}", sym);
        assert_eq!(ct.extension, Extension::NoExtension, "{}", sym);
    }
}

#[test]
fn word_and_numeric_extensions() {
    let cases = [
        ("C6", Extension::Sixth),
        ("C69", Extension::SixNine),
        ("C6/9", Extension::SixNine),
        ("Cdom7", Extension::DominantSeventh),
        ("CMAJ13", Extension::MajorThirteenth),
        ("Cmaj11", Extension::MajorEleventh),
        ("Csus47", Extension::DominantSeventh),
        ("Cmb9", Extension::FlatNinth),
        ("Cm#9", Extension::SharpNinth),
        ("Cm9", Extension::Ninth),
        ("CM9", Extension::MajorNinth),
    ];
    for (sym, ext) in cases {
        let (_, ct) = parse_chord_symbol(sym).unwrap();
        assert_eq!(ct.extension, ext, "{}", sym);
    }
}

#[test]
fn surrounding_whitespace_is_ignored() {
    assert_eq!(parse_chord_symbol("  Cm7\t\n"), parse_chord_symbol("Cm7"));
    assert_eq!(parse_chord_symbol("\u{3000}F#dim7 "), parse_chord_symbol("F#dim7"));
}

#[test]
fn parts_form_quality_word_may_be_empty() {
    let (root, ct) = parse_chord_parts("c#", "", Some("7")).unwrap();
    assert_eq!(root, Note::CSharp);
    assert_eq!(ct.quality, ChordQuality::Major);
    assert_eq!(ct.extension, Extension::DominantSeventh);
}

#[test]
fn symbol_and_parts_agree_on_grammar_words() {
    for (root, q, e) in [
        ("G", "min", "9"),
        ("C", "maj", "7"),
        ("C", "maj", "13"),
        ("Eb", "diminished", "7"),
        ("F#", "sus4", "7"),
        ("A", "", "11"),
        ("Bb", "M", "9"),
        ("D", "+", ""),
        ("x", "m", "7"),
    ] {
        let symbol = format!("{}{}{}", root, q, e);
        assert_eq!(parse_chord_symbol(&symbol), parse_chord_parts(root, q, Some(e)), "{}", symbol);
    }
}

#[test]
fn extension_words_ignore_case_and_quality() {
    let (_, ct) = parse_chord_parts("C", "minor", Some(" MAJ7 ")).unwrap();
    assert_eq!(ct.extension, Extension::MajorSeventh);
    let (_, ct) = parse_chord_parts("C", "sus2", Some("6/9")).unwrap();
    assert_eq!(ct.extension, Extension::SixNine);
    for q in ["", "m", "M", "dim", "aug", "sus2"] {
        let (_, ct) = parse_chord_parts("C", q, Some("b13")).unwrap();
        assert_eq!(ct.extension, Extension::FlatThirteenth);
        assert!(parse_chord_parts("C", q, Some("b7")).is_err());
        assert!(parse_chord_parts("C", q, Some("#13")).is_err());
    }
}

#[test]
fn quality_reader_defaults_without_token() {
    let (_, ct) = parse_chord_symbol("C7").unwrap();
    assert_eq!(ct.quality, ChordQuality::Major);
    assert_eq!(ct.extension, Extension::DominantSeventh);
    let (_, ct) = parse_chord_symbol("Cmaj9").unwrap();
    assert_eq!(ct.extension, Extension::MajorNinth);
}
