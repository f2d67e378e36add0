//! Parses chord symbols and separate-argument chord commands into
//! `(Note, ChordType)`.
//!
//! Two input forms are accepted:
//!   1. A single symbol: `"Cm7"`, `"C#maj9"`, `"Ebsus4"`, `"F#dim7"`.
//!   2. Separate arguments: root `"G"`, quality `"minor"`, extension `"9"`.
//!
//! Single-symbol grammar:
//!   `<root letter><optional accidental><quality token><optional accidental><extension digits>`
//!
//! Quality tokens (prefix-matched; case rules noted):
//!   `m` (lower case only) / `min` / `minor` / `-`   -> Minor
//!   `M` (upper case only) / `maj` / `major`         -> Major
//!   `dim` / `diminished` / `o`                      -> Diminished
//!   `aug` / `augmented` / `+`                       -> Augmented
//!   `sus2`                                          -> Sus2
//!   `sus4`                                          -> Sus4
//!   (none)                                          -> Major (default)
use vstd::prelude::*;
use crate::text::{
    eq_ignore_ascii_case_seq, is_ascii_alpha, is_ascii_digit, parse_u32_seq, parse_u32_str,
    char_is_ascii_alpha, char_is_ascii_digit, str_eq_ignore_ascii_case, str_equal,
    str_starts_with, starts_with_seq, trim_seq, trim_str, lemma_trim_idempotent,
    lemma_trim_no_edge_whitespace, all_digits, ascii_lower, is_unicode_whitespace, digits_value,
};
use crate::theory::chord::{ChordQuality, ChordType, Extension};
use crate::theory::note::{parse_note, parse_note_error_text, spec_parse_note, Note};

verus! {

/// A chord symbol or chord argument that could not be read; holds the
/// reason.
#[derive(Debug, PartialEq, Eq)]
pub struct ChordParseError(pub String);

/// The message of a [`ChordParseError`] holding `s`.
pub open spec fn chord_parse_error_text(s: Seq<char>) -> Seq<char> {
    "Failed to parse chord: "@ + s
}

impl ChordParseError {
    /// The error's message: `Failed to parse chord: <reason>`.
    pub fn display(&self) -> (r: String)
        ensures
            r@ == chord_parse_error_text(self.0@),
    {
        let mut r = String::from_str("Failed to parse chord: ");
        r.append(self.0.as_str());
        r
    }
}

/// The quality token read from a chord symbol. `DefaultMajor` marks a
/// symbol with no quality token at all (`C7`, `C9`), which the extension
/// reading treats differently from an explicit `M`/`maj`/`major`.
#[derive(Debug, PartialEq, Eq, Clone, Copy, Structural)]
pub enum QualityToken {
    Minor,
    Major,
    DefaultMajor,
    Diminished,
    Augmented,
    Sus2,
    Sus4,
}

// ---------------------------------------------------------------------------
// Root
// ---------------------------------------------------------------------------

/// Number of characters the root takes: the letter, and a `#` or `b`
/// right after it.
pub open spec fn root_len(s: Seq<char>) -> int {
    if s.len() > 1 && (s[1] == '#' || s[1] == 'b') {
        2
    } else {
        1
    }
}

/// What reading the root of `s` gives: the note and the rest of `s`, or
/// the error message.
pub open spec fn spec_parse_root(s: Seq<char>) -> Result<(Note, Seq<char>), Seq<char>> {
    if s.len() == 0 {
        Err("empty chord symbol"@)
    } else if !is_ascii_alpha(s[0]) {
        Err("expected an alphabetical note letter, got '"@ + s + "'"@)
    } else {
        let root = s.take(root_len(s));
        match spec_parse_note(root) {
            Ok(n) => Ok((n, s.skip(root_len(s)))),
            Err(e) => Err("invalid root note '"@ + root + "': "@ + parse_note_error_text(e)),
        }
    }
}

/// Parses a root letter and optional accidental (`#` or `b`) from the
/// start of `chord_str`; returns the note and the rest of the string.
pub fn parse_root(chord_str: &str) -> (r: Result<(Note, &str), ChordParseError>)
    ensures
        match r {
            Ok((n, rest)) => spec_parse_root(chord_str@) == Ok::<(Note, Seq<char>), Seq<char>>(
                (n, rest@),
            ),
            Err(e) => spec_parse_root(chord_str@) == Err::<(Note, Seq<char>), Seq<char>>(e.0@),
        },
{
    let n = chord_str.unicode_len();
    if n == 0 {
        return Err(ChordParseError(String::from_str("empty chord symbol")));
    }
    let letter = chord_str.get_char(0);
    if !char_is_ascii_alpha(letter) {
        let mut e = String::from_str("expected an alphabetical note letter, got '");
        e.append(chord_str);
        e.append("'");
        return Err(ChordParseError(e));
    }
    let mut k: usize = 1;
    if n > 1 {
        let next = chord_str.get_char(1);
        if next == '#' || next == 'b' {
            k = 2;
        }
    }
    let root_str = chord_str.substring_char(0, k);
    let rest = chord_str.substring_char(k, n);
    assert(root_str@ == chord_str@.take(k as int));
    assert(rest@ == chord_str@.skip(k as int));
    match parse_note(root_str) {
        Ok(note) => Ok((note, rest)),
        Err(err) => {
            let mut e = String::from_str("invalid root note '");
            e.append(root_str);
            e.append("': ");
            let detail = err.display();
            e.append(detail.as_str());
            Err(ChordParseError(e))
        },
    }
}

// ---------------------------------------------------------------------------
// Quality
// ---------------------------------------------------------------------------

/// `blob` without `prefix` when it starts with `prefix`, ASCII letters
/// compared without case.
pub open spec fn spec_strip_prefix_ignore_case(blob: Seq<char>, prefix: Seq<char>) -> Option<
    Seq<char>,
> {
    if blob.len() >= prefix.len() && eq_ignore_ascii_case_seq(
        blob.take(prefix.len() as int),
        prefix,
    ) {
        Some(blob.skip(prefix.len() as int))
    } else {
        None
    }
}

/// Case-insensitive (ASCII) prefix stripping.
fn strip_prefix_ignore_case<'a>(blob: &'a str, prefix: &str) -> (r: Option<&'a str>)
    ensures
        match r {
            Some(rest) => spec_strip_prefix_ignore_case(blob@, prefix@) == Some(rest@),
            None => spec_strip_prefix_ignore_case(blob@, prefix@) is None,
        },
{
    let n = blob.unicode_len();
    let m = prefix.unicode_len();
    if n < m {
        return None;
    }
    let head = blob.substring_char(0, m);
    if str_eq_ignore_ascii_case(head, prefix) {
        Some(blob.substring_char(m, n))
    } else {
        None
    }
}

/// The rest after a successful strip.
pub open spec fn stripped(o: Option<Seq<char>>) -> Seq<char> {
    match o {
        Some(r) => r,
        None => Seq::empty(),
    }
}

/// `blob` starts with the lower-case word `maj` directly followed by a
/// digit (a word-form extension such as `maj7`).
pub open spec fn starts_with_maj_digit(blob: Seq<char>) -> bool {
    starts_with_seq(blob, "maj"@) && blob.len() > 3 && is_ascii_digit(blob[3])
}

/// The quality token at the start of `blob` and the rest of `blob`.
///
/// `maj` directly followed by a digit is left in place as an extension
/// word (`maj7` is a major seventh, not a major triad with a dominant 7);
/// full words are tried before single letters, words without regard to
/// case; `m` and `M` are case-sensitive; with no token the quality
/// defaults to major and nothing is consumed.
pub open spec fn spec_parse_quality(blob: Seq<char>) -> (QualityToken, Seq<char>) {
    let s2 = spec_strip_prefix_ignore_case(blob, "sus2"@);
    let s4 = spec_strip_prefix_ignore_case(blob, "sus4"@);
    let dimd = spec_strip_prefix_ignore_case(blob, "diminished"@);
    let dim = spec_strip_prefix_ignore_case(blob, "dim"@);
    let augd = spec_strip_prefix_ignore_case(blob, "augmented"@);
    let aug = spec_strip_prefix_ignore_case(blob, "aug"@);
    let minor = spec_strip_prefix_ignore_case(blob, "minor"@);
    let min = spec_strip_prefix_ignore_case(blob, "min"@);
    let major = spec_strip_prefix_ignore_case(blob, "major"@);
    let maj = spec_strip_prefix_ignore_case(blob, "maj"@);
    if starts_with_maj_digit(blob) {
        (QualityToken::Major, blob)
    } else if s2 is Some {
        (QualityToken::Sus2, stripped(s2))
    } else if s4 is Some {
        (QualityToken::Sus4, stripped(s4))
    } else if dimd is Some {
        (QualityToken::Diminished, stripped(dimd))
    } else if dim is Some {
        (QualityToken::Diminished, stripped(dim))
    } else if augd is Some {
        (QualityToken::Augmented, stripped(augd))
    } else if aug is Some {
        (QualityToken::Augmented, stripped(aug))
    } else if minor is Some {
        (QualityToken::Minor, stripped(minor))
    } else if min is Some {
        (QualityToken::Minor, stripped(min))
    } else if major is Some {
        (QualityToken::Major, stripped(major))
    } else if maj is Some {
        (QualityToken::Major, stripped(maj))
    } else if blob.len() > 0 && blob[0] == 'm' {
        (QualityToken::Minor, blob.drop_first())
    } else if blob.len() > 0 && blob[0] == '-' {
        (QualityToken::Minor, blob.drop_first())
    } else if blob.len() > 0 && blob[0] == 'M' {
        (QualityToken::Major, blob.drop_first())
    } else if blob.len() > 0 && blob[0] == '+' {
        (QualityToken::Augmented, blob.drop_first())
    } else if blob.len() > 0 && blob[0] == 'o' {
        (QualityToken::Diminished, blob.drop_first())
    } else {
        (QualityToken::DefaultMajor, blob)
    }
}

/// Reads the chord quality token at the start of `blob`; see
/// [`spec_parse_quality`].
fn parse_quality(blob: &str) -> (r: (QualityToken, &str))
    ensures
        (r.0, r.1@) == spec_parse_quality(blob@),
{
    let n = blob.unicode_len();
    proof {
        reveal_strlit("maj");
    }
    if str_starts_with(blob, "maj") && n > 3 && char_is_ascii_digit(blob.get_char(3)) {
        return (QualityToken::Major, blob);
    }
    if let Some(rest) = strip_prefix_ignore_case(blob, "sus2") {
        return (QualityToken::Sus2, rest);
    }
    if let Some(rest) = strip_prefix_ignore_case(blob, "sus4") {
        return (QualityToken::Sus4, rest);
    }
    if let Some(rest) = strip_prefix_ignore_case(blob, "diminished") {
        return (QualityToken::Diminished, rest);
    }
    if let Some(rest) = strip_prefix_ignore_case(blob, "dim") {
        return (QualityToken::Diminished, rest);
    }
    if let Some(rest) = strip_prefix_ignore_case(blob, "augmented") {
        return (QualityToken::Augmented, rest);
    }
    if let Some(rest) = strip_prefix_ignore_case(blob, "aug") {
        return (QualityToken::Augmented, rest);
    }
    if let Some(rest) = strip_prefix_ignore_case(blob, "minor") {
        return (QualityToken::Minor, rest);
    }
    if let Some(rest) = strip_prefix_ignore_case(blob, "min") {
        return (QualityToken::Minor, rest);
    }
    if let Some(rest) = strip_prefix_ignore_case(blob, "major") {
        return (QualityToken::Major, rest);
    }
    if let Some(rest) = strip_prefix_ignore_case(blob, "maj") {
        return (QualityToken::Major, rest);
    }
    if n > 0 {
        let c = blob.get_char(0);
        let rest = blob.substring_char(1, n);
        assert(rest@ =~= blob@.drop_first());
        if c == 'm' {
            return (QualityToken::Minor, rest);
        }
        if c == '-' {
            return (QualityToken::Minor, rest);
        }
        if c == 'M' {
            return (QualityToken::Major, rest);
        }
        if c == '+' {
            return (QualityToken::Augmented, rest);
        }
        if c == 'o' {
            return (QualityToken::Diminished, rest);
        }
    }
    (QualityToken::DefaultMajor, blob)
}

// ---------------------------------------------------------------------------
// Extension
// ---------------------------------------------------------------------------

/// Extensions written as words (compared without case), and the literal
/// `M7` (reached from `CmM7`, a minor triad with a major seventh).
pub open spec fn word_extension(t: Seq<char>) -> Option<Extension> {
    if eq_ignore_ascii_case_seq(t, "maj7"@) {
        Some(Extension::MajorSeventh)
    } else if eq_ignore_ascii_case_seq(t, "dom7"@) {
        Some(Extension::DominantSeventh)
    } else if eq_ignore_ascii_case_seq(t, "dim7"@) {
        Some(Extension::DiminishedSeventh)
    } else if eq_ignore_ascii_case_seq(t, "maj9"@) {
        Some(Extension::MajorNinth)
    } else if eq_ignore_ascii_case_seq(t, "maj11"@) {
        Some(Extension::MajorEleventh)
    } else if eq_ignore_ascii_case_seq(t, "maj13"@) {
        Some(Extension::MajorThirteenth)
    } else if eq_ignore_ascii_case_seq(t, "6"@) {
        Some(Extension::Sixth)
    } else if eq_ignore_ascii_case_seq(t, "69"@) || eq_ignore_ascii_case_seq(t, "6/9"@) {
        Some(Extension::SixNine)
    } else if t == "M7"@ {
        Some(Extension::MajorSeventh)
    } else {
        None
    }
}

/// The extension a number (with an optional `b`/`#` alteration) means
/// after a quality token. A bare 7 depends on the quality (an explicit
/// major gives a major seventh, the defaulted major a dominant one); bare
/// 9, 11 and 13 become the major variants only after an explicit major.
pub open spec fn extension_for(number: u32, alteration: Option<char>, q: QualityToken) -> Option<
    Extension,
> {
    if number == 7 && alteration is None {
        match q {
            QualityToken::Diminished => Some(Extension::DiminishedSeventh),
            QualityToken::Minor => Some(Extension::MinorSeventh),
            QualityToken::Augmented => Some(Extension::DominantSeventh),
            QualityToken::Major => Some(Extension::MajorSeventh),
            QualityToken::DefaultMajor => Some(Extension::DominantSeventh),
            QualityToken::Sus2 => Some(Extension::DominantSeventh),
            QualityToken::Sus4 => Some(Extension::DominantSeventh),
        }
    } else if number == 9 && alteration is None {
        if q == QualityToken::Major {
            Some(Extension::MajorNinth)
        } else {
            Some(Extension::Ninth)
        }
    } else if number == 9 && alteration == Some('b') {
        Some(Extension::FlatNinth)
    } else if number == 9 && alteration == Some('#') {
        Some(Extension::SharpNinth)
    } else if number == 11 && alteration is None {
        if q == QualityToken::Major {
            Some(Extension::MajorEleventh)
        } else {
            Some(Extension::Eleventh)
        }
    } else if number == 11 && alteration == Some('#') {
        Some(Extension::SharpEleventh)
    } else if number == 13 && alteration is None {
        if q == QualityToken::Major {
            Some(Extension::MajorThirteenth)
        } else {
            Some(Extension::Thirteenth)
        }
    } else if number == 13 && alteration == Some('b') {
        Some(Extension::FlatThirteenth)
    } else {
        None
    }
}

/// The alteration sign at the start of trimmed extension text, if any.
pub open spec fn extension_alteration(t: Seq<char>) -> Option<char> {
    if t.len() > 0 && (t[0] == 'b' || t[0] == '#') {
        Some(t[0])
    } else {
        None
    }
}

/// The number part of trimmed extension text.
pub open spec fn extension_digits(t: Seq<char>) -> Seq<char> {
    if extension_alteration(t) is Some {
        t.drop_first()
    } else {
        t
    }
}

/// What reading `ext` as the extension after quality `q` gives.
pub open spec fn spec_parse_extension(ext: Seq<char>, q: QualityToken) -> Result<
    Extension,
    Seq<char>,
> {
    let t = trim_seq(ext);
    if t.len() == 0 {
        Ok(Extension::NoExtension)
    } else {
        match word_extension(t) {
            Some(e) => Ok(e),
            None => match parse_u32_seq(extension_digits(t)) {
                None => Err("invalid extension '"@ + ext + "'"@),
                Some(number) => match extension_for(number, extension_alteration(t), q) {
                    Some(e) => Ok(e),
                    None => Err("unsupported extension '"@ + ext + "' for given quality"@),
                },
            },
        }
    }
}

fn extension_for_exec(number: u32, alteration: Option<char>, q: QualityToken) -> (r: Option<
    Extension,
>)
    ensures
        r == extension_for(number, alteration, q),
{
    let no_alt = alteration.is_none();
    if number == 7 && no_alt {
        match q {
            QualityToken::Diminished => Some(Extension::DiminishedSeventh),
            QualityToken::Minor => Some(Extension::MinorSeventh),
            QualityToken::Augmented => Some(Extension::DominantSeventh),
            QualityToken::Major => Some(Extension::MajorSeventh),
            QualityToken::DefaultMajor => Some(Extension::DominantSeventh),
            QualityToken::Sus2 => Some(Extension::DominantSeventh),
            QualityToken::Sus4 => Some(Extension::DominantSeventh),
        }
    } else if number == 9 && no_alt {
        if q == QualityToken::Major {
            Some(Extension::MajorNinth)
        } else {
            Some(Extension::Ninth)
        }
    } else if number == 9 && alteration == Some('b') {
        Some(Extension::FlatNinth)
    } else if number == 9 && alteration == Some('#') {
        Some(Extension::SharpNinth)
    } else if number == 11 && no_alt {
        if q == QualityToken::Major {
            Some(Extension::MajorEleventh)
        } else {
            Some(Extension::Eleventh)
        }
    } else if number == 11 && alteration == Some('#') {
        Some(Extension::SharpEleventh)
    } else if number == 13 && no_alt {
        if q == QualityToken::Major {
            Some(Extension::MajorThirteenth)
        } else {
            Some(Extension::Thirteenth)
        }
    } else if number == 13 && alteration == Some('b') {
        Some(Extension::FlatThirteenth)
    } else {
        None
    }
}

fn word_extension_exec(t: &str) -> (r: Option<Extension>)
    ensures
        r == word_extension(t@),
{
    if str_eq_ignore_ascii_case(t, "maj7") {
        Some(Extension::MajorSeventh)
    } else if str_eq_ignore_ascii_case(t, "dom7") {
        Some(Extension::DominantSeventh)
    } else if str_eq_ignore_ascii_case(t, "dim7") {
        Some(Extension::DiminishedSeventh)
    } else if str_eq_ignore_ascii_case(t, "maj9") {
        Some(Extension::MajorNinth)
    } else if str_eq_ignore_ascii_case(t, "maj11") {
        Some(Extension::MajorEleventh)
    } else if str_eq_ignore_ascii_case(t, "maj13") {
        Some(Extension::MajorThirteenth)
    } else if str_eq_ignore_ascii_case(t, "6") {
        Some(Extension::Sixth)
    } else if str_eq_ignore_ascii_case(t, "69") || str_eq_ignore_ascii_case(t, "6/9") {
        Some(Extension::SixNine)
    } else if str_equal(t, "M7") {
        Some(Extension::MajorSeventh)
    } else {
        None
    }
}

/// Reads the extension that follows the quality token.
fn parse_extension(ext_str: &str, quality: QualityToken) -> (r: Result<Extension, ChordParseError>)
    ensures
        match r {
            Ok(e) => spec_parse_extension(ext_str@, quality) == Ok::<Extension, Seq<char>>(e),
            Err(e) => spec_parse_extension(ext_str@, quality) == Err::<Extension, Seq<char>>(e.0@),
        },
{
    let trimmed = trim_str(ext_str);
    let n = trimmed.unicode_len();
    if n == 0 {
        return Ok(Extension::NoExtension);
    }
    if let Some(e) = word_extension_exec(trimmed) {
        return Ok(e);
    }
    let first = trimmed.get_char(0);
    let (alteration, digits) = if first == 'b' || first == '#' {
        (Some(first), trimmed.substring_char(1, n))
    } else {
        (None, trimmed)
    };
    assert(alteration == extension_alteration(trimmed@));
    assert(digits@ =~= extension_digits(trimmed@));
    let number = match parse_u32_str(digits) {
        Some(v) => v,
        None => {
            let mut e = String::from_str("invalid extension '");
            e.append(ext_str);
            e.append("'");
            return Err(ChordParseError(e));
        },
    };
    match extension_for_exec(number, alteration, quality) {
        Some(e) => Ok(e),
        None => {
            let mut e = String::from_str("unsupported extension '");
            e.append(ext_str);
            e.append("' for given quality");
            Err(ChordParseError(e))
        },
    }
}

/// The triad quality a token stands for (both majors give `Major`).
pub open spec fn spec_to_chord_quality(token: QualityToken) -> ChordQuality {
    match token {
        QualityToken::Minor => ChordQuality::Minor,
        QualityToken::Major => ChordQuality::Major,
        QualityToken::DefaultMajor => ChordQuality::Major,
        QualityToken::Diminished => ChordQuality::Diminished,
        QualityToken::Augmented => ChordQuality::Augmented,
        QualityToken::Sus2 => ChordQuality::Sus2,
        QualityToken::Sus4 => ChordQuality::Sus4,
    }
}

fn to_chord_quality(token: QualityToken) -> (q: ChordQuality)
    ensures
        q == spec_to_chord_quality(token),
{
    match token {
        QualityToken::Minor => ChordQuality::Minor,
        QualityToken::Major | QualityToken::DefaultMajor => ChordQuality::Major,
        QualityToken::Diminished => ChordQuality::Diminished,
        QualityToken::Augmented => ChordQuality::Augmented,
        QualityToken::Sus2 => ChordQuality::Sus2,
        QualityToken::Sus4 => ChordQuality::Sus4,
    }
}

// ---------------------------------------------------------------------------
// Whole chords
// ---------------------------------------------------------------------------

/// The text of an optional argument.
pub open spec fn opt_text(o: Option<&str>) -> Option<Seq<char>> {
    match o {
        Some(s) => Some(s@),
        None => None,
    }
}

/// What the separate-argument form gives for a root, a quality word and an
/// optional extension. The quality word must be a whole quality token
/// (empty means the defaulted major).
pub open spec fn spec_parse_chord_parts(
    root_str: Seq<char>,
    quality_str: Seq<char>,
    extension_str: Option<Seq<char>>,
) -> Result<(Note, ChordType), Seq<char>> {
    match spec_parse_note(root_str) {
        Err(e) => Err("invalid root note '"@ + root_str + "': "@ + parse_note_error_text(e)),
        Ok(root) => {
            let (token, leftover) = spec_parse_quality(quality_str);
            if leftover.len() != 0 {
                Err("unrecognized quality '"@ + quality_str + "'"@)
            } else {
                match extension_str {
                    None => Ok(
                        (
                            root,
                            ChordType {
                                quality: spec_to_chord_quality(token),
                                extension: Extension::NoExtension,
                            },
                        ),
                    ),
                    Some(e) => match spec_parse_extension(e, token) {
                        Ok(x) => Ok(
                            (
                                root,
                                ChordType { quality: spec_to_chord_quality(token), extension: x },
                            ),
                        ),
                        Err(m) => Err(m),
                    },
                }
            }
        },
    }
}

/// Parses the separate-argument form: root `"G"`, quality `"minor"`,
/// extension `Some("9")`.
pub fn parse_chord_parts(root_str: &str, quality_str: &str, extension_str: Option<&str>) -> (r:
    Result<(Note, ChordType), ChordParseError>)
    ensures
        match r {
            Ok(v) => spec_parse_chord_parts(root_str@, quality_str@, opt_text(extension_str))
                == Ok::<(Note, ChordType), Seq<char>>(v),
            Err(e) => spec_parse_chord_parts(root_str@, quality_str@, opt_text(extension_str))
                == Err::<(Note, ChordType), Seq<char>>(e.0@),
        },
{
    let root = match parse_note(root_str) {
        Ok(n) => n,
        Err(err) => {
            let mut e = String::from_str("invalid root note '");
            e.append(root_str);
            e.append("': ");
            let detail = err.display();
            e.append(detail.as_str());
            return Err(ChordParseError(e));
        },
    };
    let (quality_token, leftover) = parse_quality(quality_str);
    if leftover.unicode_len() != 0 {
        let mut e = String::from_str("unrecognized quality '");
        e.append(quality_str);
        e.append("'");
        return Err(ChordParseError(e));
    }
    let extension = match extension_str {
        Some(text) => match parse_extension(text, quality_token) {
            Ok(x) => x,
            Err(e) => {
                return Err(e);
            },
        },
        None => Extension::NoExtension,
    };
    Ok((root, ChordType { quality: to_chord_quality(quality_token), extension }))
}

/// What parsing a single chord symbol gives: surrounding whitespace is
/// ignored, then root, quality token and extension are read in turn.
pub open spec fn spec_parse_chord_symbol(symbol: Seq<char>) -> Result<
    (Note, ChordType),
    Seq<char>,
> {
    let t = trim_seq(symbol);
    if t.len() == 0 {
        Err("Empty chord symbol"@)
    } else {
        match spec_parse_root(t) {
            Err(m) => Err(m),
            Ok((root, rest1)) => {
                let (token, rest2) = spec_parse_quality(rest1);
                match spec_parse_extension(rest2, token) {
                    Err(m) => Err(m),
                    Ok(x) => Ok(
                        (root, ChordType { quality: spec_to_chord_quality(token), extension: x }),
                    ),
                }
            },
        }
    }
}

/// Parses a single chord symbol such as `"Cm7"` or `"F#maj9"`.
pub fn parse_chord_symbol(symbol: &str) -> (r: Result<(Note, ChordType), ChordParseError>)
    ensures
        match r {
            Ok(v) => spec_parse_chord_symbol(symbol@) == Ok::<(Note, ChordType), Seq<char>>(v),
            Err(e) => spec_parse_chord_symbol(symbol@) == Err::<(Note, ChordType), Seq<char>>(
                e.0@,
            ),
        },
{
    let trimmed = trim_str(symbol);
    if trimmed.unicode_len() == 0 {
        return Err(ChordParseError(String::from_str("Empty chord symbol")));
    }
    let (root, rest1) = match parse_root(trimmed) {
        Ok(v) => v,
        Err(e) => {
            return Err(e);
        },
    };
    let (quality_token, rest2) = parse_quality(rest1);
    let extension = match parse_extension(rest2, quality_token) {
        Ok(x) => x,
        Err(e) => {
            return Err(e);
        },
    };
    Ok((root, ChordType { quality: to_chord_quality(quality_token), extension }))
}


// ---------------------------------------------------------------------------
// Laws
// ---------------------------------------------------------------------------

/// Whitespace around a chord symbol does not change how it is read.
pub proof fn lemma_symbol_ignores_surrounding_whitespace(s: Seq<char>)
    ensures
        spec_parse_chord_symbol(trim_seq(s)) == spec_parse_chord_symbol(s),
{
    lemma_trim_idempotent(s);
}

/// A chord read in the separate-argument form with no extension has no
/// added notes, and its quality is the one its quality word names; an
/// empty quality word means major.
pub proof fn lemma_parts_without_extension(root: Seq<char>, quality: Seq<char>)
    ensures
        spec_parse_chord_parts(root, quality, None) matches Ok((_, ct)) ==> ct.extension
            == Extension::NoExtension && ct.quality == spec_to_chord_quality(
            spec_parse_quality(quality).0,
        ),
        quality.len() == 0 ==> spec_parse_quality(quality) == (QualityToken::DefaultMajor, quality),
{
    reveal_strlit("maj");
    reveal_strlit("sus2");
    reveal_strlit("sus4");
    reveal_strlit("diminished");
    reveal_strlit("dim");
    reveal_strlit("augmented");
    reveal_strlit("aug");
    reveal_strlit("minor");
    reveal_strlit("min");
    reveal_strlit("major");
}


proof fn lemma_digits_have_no_quality(d: Seq<char>)
    requires
        all_digits(d),
    ensures
        spec_parse_quality(d) == (QualityToken::DefaultMajor, d),
{
    reveal_strlit("maj");
    reveal_strlit("sus2");
    reveal_strlit("sus4");
    reveal_strlit("diminished");
    reveal_strlit("dim");
    reveal_strlit("augmented");
    reveal_strlit("aug");
    reveal_strlit("minor");
    reveal_strlit("min");
    reveal_strlit("major");
    if d.len() > 0 {
        assert(is_ascii_digit(d[0]));
        assert(ascii_lower(d[0]) == d[0]);
        assert(d.len() >= 3 ==> d.take(3)[0] == d[0]);
        assert(d.len() >= 4 ==> d.take(4)[0] == d[0]);
        assert(d.len() >= 5 ==> d.take(5)[0] == d[0]);
        assert(d.len() >= 9 ==> d.take(9)[0] == d[0]);
        assert(d.len() >= 10 ==> d.take(10)[0] == d[0]);
    }
}

/// The sign right after the root letter always belongs to the root: a
/// symbol made of a letter, `#` or `b`, and digits only is read with no
/// altered extension (`C#9` is C# with a plain ninth, never a sharp ninth).
pub proof fn lemma_root_accidental_is_the_only_sign(s: Seq<char>)
    requires
        s.len() >= 2,
        is_ascii_alpha(s[0]),
        s[1] == '#' || s[1] == 'b',
        all_digits(s.skip(2)),
    ensures
        spec_parse_chord_symbol(s) matches Ok((root, ct)) ==> {
            &&& spec_parse_note(s.take(2)) == Ok::<Note, Seq<char>>(root)
            &&& ct.quality == ChordQuality::Major
            &&& ct.extension != Extension::FlatNinth
            &&& ct.extension != Extension::SharpNinth
            &&& ct.extension != Extension::SharpEleventh
            &&& ct.extension != Extension::FlatThirteenth
        },
{
    let d = s.skip(2);
    assert(!is_unicode_whitespace(s[0]));
    if d.len() > 0 {
        assert(s.last() == d.last());
        assert(is_ascii_digit(d[d.len() - 1]));
        assert(is_ascii_digit(d[0]));
    }
    assert(!is_unicode_whitespace(s.last()));
    lemma_trim_no_edge_whitespace(s);
    lemma_digits_have_no_quality(d);
    if d.len() > 0 {
        assert(is_ascii_digit(d.last()));
        lemma_trim_no_edge_whitespace(d);
        assert(extension_alteration(d) is None);
    }
}

// ---------------------------------------------------------------------------
// Laws of the quality reader
// ---------------------------------------------------------------------------

proof fn lemma_strip_longer_gives_shorter(blob: Seq<char>, long: Seq<char>, short: Seq<char>)
    requires
        short.len() <= long.len(),
        long.take(short.len() as int) == short,
        spec_strip_prefix_ignore_case(blob, long) is Some,
    ensures
        spec_strip_prefix_ignore_case(blob, short) is Some,
{
    let n = short.len() as int;
    assert forall|i: int| 0 <= i < n implies ascii_lower(#[trigger] blob.take(n)[i]) == ascii_lower(
        short[i],
    ) by {
        assert(blob.take(n)[i] == blob.take(long.len() as int)[i]);
        assert(long.take(n)[i] == long[i]);
    }
}

/// `blob` opens with something the quality reader takes as a token: one of
/// the letters or signs `m`, `M`, `-`, `+`, `o`, or (without regard to
/// case) one of the words `sus2`, `sus4`, `dim`, `aug`. Every longer token
/// word (`minor`, `major`, `diminished`, ...) begins with one of these.
pub open spec fn starts_with_quality_token(blob: Seq<char>) -> bool {
    ||| blob.len() > 0 && (blob[0] == 'm' || blob[0] == 'M' || blob[0] == '-' || blob[0] == '+'
        || blob[0] == 'o')
    ||| spec_strip_prefix_ignore_case(blob, "sus2"@) is Some
    ||| spec_strip_prefix_ignore_case(blob, "sus4"@) is Some
    ||| spec_strip_prefix_ignore_case(blob, "dim"@) is Some
    ||| spec_strip_prefix_ignore_case(blob, "aug"@) is Some
}

/// Lower-case `maj` directly followed by a digit is left whole for the
/// extension reader (`maj7`, `maj9`), read as an explicit major; `maj`
/// alone is consumed.
pub proof fn lemma_maj_digit_left_in_place(blob: Seq<char>)
    requires
        blob.len() > 3,
        blob[0] == 'm',
        blob[1] == 'a',
        blob[2] == 'j',
        is_ascii_digit(blob[3]),
    ensures
        spec_parse_quality(blob) == (QualityToken::Major, blob),
        spec_parse_quality("maj"@) == (QualityToken::Major, Seq::<char>::empty()),
{
    reveal_strlit("maj");
    reveal_strlit("sus2");
    reveal_strlit("sus4");
    reveal_strlit("diminished");
    reveal_strlit("dim");
    reveal_strlit("augmented");
    reveal_strlit("aug");
    reveal_strlit("minor");
    reveal_strlit("min");
    reveal_strlit("major");
    assert(blob.take(3) =~= "maj"@);
    let m = "maj"@;
    assert(m.take(3) =~= m);
    assert(m.take(3)[0] == 'm' && m.take(3)[1] == 'a');
    assert(m.skip(3) =~= Seq::<char>::empty());
}

/// The quality reader gives back a suffix of its input, and it gives the
/// defaulted major exactly when the input opens with no quality token; it
/// then consumes nothing.
pub proof fn lemma_default_major_when_no_token(blob: Seq<char>)
    ensures
        exists|k: int| 0 <= k <= blob.len() && spec_parse_quality(blob).1 == #[trigger] blob.skip(k),
        spec_parse_quality(blob).0 == QualityToken::DefaultMajor <==> !starts_with_quality_token(
            blob,
        ),
        spec_parse_quality(blob).0 == QualityToken::DefaultMajor ==> spec_parse_quality(blob).1
            == blob,
{
    reveal_strlit("maj");
    reveal_strlit("sus2");
    reveal_strlit("sus4");
    reveal_strlit("diminished");
    reveal_strlit("dim");
    reveal_strlit("augmented");
    reveal_strlit("aug");
    reveal_strlit("minor");
    reveal_strlit("min");
    reveal_strlit("major");
    assert("diminished"@.take(3) =~= "dim"@);
    assert("augmented"@.take(3) =~= "aug"@);
    if spec_strip_prefix_ignore_case(blob, "diminished"@) is Some {
        lemma_strip_longer_gives_shorter(blob, "diminished"@, "dim"@);
    }
    if spec_strip_prefix_ignore_case(blob, "augmented"@) is Some {
        lemma_strip_longer_gives_shorter(blob, "augmented"@, "aug"@);
    }
    if blob.len() >= 3 {
        assert(blob.take(3)[0] == blob[0]);
    }
    if blob.len() >= 5 {
        assert(blob.take(5)[0] == blob[0]);
    }
    assert(blob.skip(0) =~= blob);
    if blob.len() > 0 {
        assert(blob.drop_first() =~= blob.skip(1));
    }
}

// ---------------------------------------------------------------------------
// Laws of the extension reader
// ---------------------------------------------------------------------------

/// The numbers (with their alteration) that name an extension after some
/// quality: 7, 9, b9, #9, 11, #11, 13, b13.
pub open spec fn supported_number(n: u32, a: Option<char>) -> bool {
    ||| (n == 7 || n == 9 || n == 11 || n == 13) && a is None
    ||| n == 9 && (a == Some('b') || a == Some('#'))
    ||| n == 11 && a == Some('#')
    ||| n == 13 && a == Some('b')
}

/// Whether an extension is read never depends on the quality, and neither
/// does the error: it is read exactly when the trimmed text is empty, an
/// extension word, or a supported number with its alteration.
pub proof fn lemma_extension_failure_ignores_quality(ext: Seq<char>, q1: QualityToken, q2: QualityToken)
    ensures
        spec_parse_extension(ext, q1) is Ok <==> ({
            let t = trim_seq(ext);
            ||| t.len() == 0
            ||| word_extension(t) is Some
            ||| parse_u32_seq(extension_digits(t)) matches Some(n) && supported_number(
                n,
                extension_alteration(t),
            )
        }),
        spec_parse_extension(ext, q1) is Ok <==> spec_parse_extension(ext, q2) is Ok,
        spec_parse_extension(ext, q1) is Err ==> spec_parse_extension(ext, q1)
            == spec_parse_extension(ext, q2),
{
}

proof fn lemma_short_text_trimmed(t: Seq<char>)
    requires
        1 <= t.len() <= 3,
        forall|i: int| 0 <= i < t.len() ==> !is_unicode_whitespace(#[trigger] t[i]),
    ensures
        trim_seq(t) == t,
{
    lemma_trim_no_edge_whitespace(t);
}

/// The altered extensions `b9`, `#9`, `#11`, `b13` are read the same after
/// every quality.
pub proof fn lemma_altered_extensions_ignore_quality(q: QualityToken)
    ensures
        spec_parse_extension("b9"@, q) == Ok::<Extension, Seq<char>>(Extension::FlatNinth),
        spec_parse_extension("#9"@, q) == Ok::<Extension, Seq<char>>(Extension::SharpNinth),
        spec_parse_extension("#11"@, q) == Ok::<Extension, Seq<char>>(Extension::SharpEleventh),
        spec_parse_extension("b13"@, q) == Ok::<Extension, Seq<char>>(Extension::FlatThirteenth),
{
    reveal_strlit("b9");
    reveal_strlit("#9");
    reveal_strlit("#11");
    reveal_strlit("b13");
    reveal_strlit("maj7");
    reveal_strlit("dom7");
    reveal_strlit("dim7");
    reveal_strlit("maj9");
    reveal_strlit("maj11");
    reveal_strlit("maj13");
    reveal_strlit("6");
    reveal_strlit("69");
    reveal_strlit("6/9");
    reveal_strlit("M7");
    reveal_with_fuel(digits_value, 3);
    let b9 = "b9"@;
    let s9 = "#9"@;
    let s11 = "#11"@;
    let b13 = "b13"@;
    lemma_short_text_trimmed(b9);
    lemma_short_text_trimmed(s9);
    lemma_short_text_trimmed(s11);
    lemma_short_text_trimmed(b13);
    assert(ascii_lower(b9[0]) == 'b' && ascii_lower(s9[0]) == '#');
    assert(ascii_lower(s11[0]) == '#' && ascii_lower(b13[0]) == 'b');
    assert(b9.drop_first() =~= seq!['9']);
    assert(s9.drop_first() =~= seq!['9']);
    assert(s11.drop_first() =~= seq!['1', '1']);
    assert(b13.drop_first() =~= seq!['1', '3']);
    assert(seq!['1', '1'].drop_last() =~= seq!['1']);
    assert(seq!['1', '3'].drop_last() =~= seq!['1']);
    assert(seq!['9'].drop_last() =~= Seq::<char>::empty());
    assert(seq!['1'].drop_last() =~= Seq::<char>::empty());
    assert(b9 != "M7"@ && s9 != "M7"@);
}

/// Extension words are read without regard to case, after any quality, and
/// empty (or blank) text means no extension.
pub proof fn lemma_word_extensions_ignore_case_and_quality(ext: Seq<char>, q: QualityToken)
    ensures
        trim_seq(ext).len() == 0 ==> spec_parse_extension(ext, q) == Ok::<Extension, Seq<char>>(
            Extension::NoExtension,
        ),
        eq_ignore_ascii_case_seq(trim_seq(ext), "maj7"@) ==> spec_parse_extension(ext, q) == Ok::<
            Extension,
            Seq<char>,
        >(Extension::MajorSeventh),
        eq_ignore_ascii_case_seq(trim_seq(ext), "dom7"@) ==> spec_parse_extension(ext, q) == Ok::<
            Extension,
            Seq<char>,
        >(Extension::DominantSeventh),
        eq_ignore_ascii_case_seq(trim_seq(ext), "dim7"@) ==> spec_parse_extension(ext, q) == Ok::<
            Extension,
            Seq<char>,
        >(Extension::DiminishedSeventh),
        eq_ignore_ascii_case_seq(trim_seq(ext), "maj9"@) ==> spec_parse_extension(ext, q) == Ok::<
            Extension,
            Seq<char>,
        >(Extension::MajorNinth),
        eq_ignore_ascii_case_seq(trim_seq(ext), "maj11"@) ==> spec_parse_extension(ext, q) == Ok::<
            Extension,
            Seq<char>,
        >(Extension::MajorEleventh),
        eq_ignore_ascii_case_seq(trim_seq(ext), "maj13"@) ==> spec_parse_extension(ext, q) == Ok::<
            Extension,
            Seq<char>,
        >(Extension::MajorThirteenth),
        eq_ignore_ascii_case_seq(trim_seq(ext), "6"@) ==> spec_parse_extension(ext, q) == Ok::<
            Extension,
            Seq<char>,
        >(Extension::Sixth),
        eq_ignore_ascii_case_seq(trim_seq(ext), "69"@) ==> spec_parse_extension(ext, q) == Ok::<
            Extension,
            Seq<char>,
        >(Extension::SixNine),
        eq_ignore_ascii_case_seq(trim_seq(ext), "6/9"@) ==> spec_parse_extension(ext, q) == Ok::<
            Extension,
            Seq<char>,
        >(Extension::SixNine),
{
    reveal_strlit("maj7");
    reveal_strlit("dom7");
    reveal_strlit("dim7");
    reveal_strlit("maj9");
    reveal_strlit("maj11");
    reveal_strlit("maj13");
    reveal_strlit("6");
    reveal_strlit("69");
    reveal_strlit("6/9");
    let t = trim_seq(ext);
    if t.len() > 0 {
        assert(ascii_lower(t[0]) == ascii_lower(t[0]));
    }
    if t.len() > 1 {
        assert(ascii_lower(t[1]) == ascii_lower(t[1]));
    }
    if t.len() > 3 {
        assert(ascii_lower(t[3]) == ascii_lower(t[3]));
    }
    if t.len() > 4 {
        assert(ascii_lower(t[4]) == ascii_lower(t[4]));
    }
    if eq_ignore_ascii_case_seq(t, "dim7"@) {
        assert(ascii_lower(t[1]) == 'i');
        assert(!eq_ignore_ascii_case_seq(t, "maj7"@));
        assert(!eq_ignore_ascii_case_seq(t, "dom7"@));
    }
    if eq_ignore_ascii_case_seq(t, "dom7"@) {
        assert(ascii_lower(t[0]) == 'd');
        assert(!eq_ignore_ascii_case_seq(t, "maj7"@));
    }
    if eq_ignore_ascii_case_seq(t, "maj9"@) {
        assert(ascii_lower(t[0]) == 'm');
        assert(ascii_lower(t[3]) == '9');
        assert(!eq_ignore_ascii_case_seq(t, "maj7"@));
        assert(!eq_ignore_ascii_case_seq(t, "dom7"@));
        assert(!eq_ignore_ascii_case_seq(t, "dim7"@));
    }
    if eq_ignore_ascii_case_seq(t, "maj13"@) {
        assert(ascii_lower(t[4]) == '3');
        assert(!eq_ignore_ascii_case_seq(t, "maj11"@));
    }
}

// ---------------------------------------------------------------------------
// The two input forms agree
// ---------------------------------------------------------------------------

/// The quality words of the chord grammar: `m`, `min`, `minor`, `-`; `M`,
/// `maj`, `major`; `dim`, `diminished`, `o`; `aug`, `augmented`, `+`;
/// `sus2`, `sus4`; and no word at all.
pub open spec fn listed_quality_word(q: Seq<char>) -> bool {
    ||| q == ""@
    ||| q == "m"@
    ||| q == "min"@
    ||| q == "minor"@
    ||| q == "-"@
    ||| q == "M"@
    ||| q == "maj"@
    ||| q == "major"@
    ||| q == "dim"@
    ||| q == "diminished"@
    ||| q == "o"@
    ||| q == "aug"@
    ||| q == "augmented"@
    ||| q == "+"@
    ||| q == "sus2"@
    ||| q == "sus4"@
}

/// The plain extension numbers: none, 7, 9, 11, 13.
pub open spec fn listed_extension_number(e: Seq<char>) -> bool {
    e == ""@ || e == "7"@ || e == "9"@ || e == "11"@ || e == "13"@
}

/// A root as the symbol form writes it: a letter, and optionally `#` or
/// `b`.
pub open spec fn root_text(r: Seq<char>) -> bool {
    &&& 1 <= r.len() <= 2
    &&& is_ascii_alpha(r[0])
    &&& r.len() == 2 ==> (r[1] == '#' || r[1] == 'b')
}

proof fn lemma_prefix_terms(b: Seq<char>)
    ensures
        b.len() >= 3 ==> b.take(3)[0] == b[0] && b.take(3)[1] == b[1] && b.take(3)[2] == b[2],
        b.len() >= 4 ==> b.take(4)[0] == b[0] && b.take(4)[1] == b[1] && b.take(4)[3] == b[3],
        b.len() >= 5 ==> b.take(5)[0] == b[0] && b.take(5)[1] == b[1] && b.take(5)[3] == b[3],
        b.len() >= 9 ==> b.take(9)[0] == b[0] && b.take(9)[1] == b[1] && b.take(9)[3] == b[3],
        b.len() >= 10 ==> b.take(10)[0] == b[0] && b.take(10)[1] == b[1] && b.take(10)[3]
            == b[3],
{
}

proof fn lemma_quality_word_then_digits(q: Seq<char>, e: Seq<char>)
    requires
        listed_quality_word(q),
        all_digits(e),
    ensures
        spec_parse_quality(q).1 == Seq::<char>::empty(),
        spec_parse_quality(q + e) == (if q == "maj"@ && e.len() > 0 {
            (QualityToken::Major, q + e)
        } else {
            (spec_parse_quality(q).0, e)
        }),
{
    reveal_strlit("");
    reveal_strlit("m");
    reveal_strlit("min");
    reveal_strlit("minor");
    reveal_strlit("-");
    reveal_strlit("M");
    reveal_strlit("maj");
    reveal_strlit("major");
    reveal_strlit("dim");
    reveal_strlit("diminished");
    reveal_strlit("o");
    reveal_strlit("aug");
    reveal_strlit("augmented");
    reveal_strlit("+");
    reveal_strlit("sus2");
    reveal_strlit("sus4");
    let b = q + e;
    lemma_prefix_terms(q);
    lemma_prefix_terms(b);
    if e.len() > 0 {
        assert(is_ascii_digit(e[0]));
        assert(b[q.len() as int] == e[0]);
    }
    if e.len() > 1 {
        assert(is_ascii_digit(e[1]));
    }
    assert(b.take(q.len() as int) =~= q);
    assert(b.skip(q.len() as int) =~= e);
    assert(q.take(q.len() as int) =~= q);
    assert(q.skip(q.len() as int) =~= Seq::<char>::empty());
    if q.len() > 0 {
        assert(b.drop_first() =~= b.skip(1));
        assert(q.drop_first() =~= q.skip(1));
    }
    if q == ""@ {
        assert(b =~= e);
        lemma_digits_have_no_quality(e);
        lemma_digits_have_no_quality(q);
    }
}

proof fn lemma_maj_word_matches_number(e: Seq<char>)
    requires
        listed_extension_number(e),
        e.len() > 0,
    ensures
        spec_parse_extension("maj"@ + e, QualityToken::Major) == spec_parse_extension(
            e,
            QualityToken::Major,
        ),
{
    reveal_strlit("");
    reveal_strlit("7");
    reveal_strlit("9");
    reveal_strlit("11");
    reveal_strlit("13");
    reveal_strlit("maj");
    reveal_strlit("maj7");
    reveal_strlit("dom7");
    reveal_strlit("dim7");
    reveal_strlit("maj9");
    reveal_strlit("maj11");
    reveal_strlit("maj13");
    reveal_strlit("6");
    reveal_strlit("69");
    reveal_strlit("6/9");
    reveal_strlit("M7");
    reveal_with_fuel(digits_value, 3);
    let w = "maj"@ + e;
    lemma_trim_no_edge_whitespace(w);
    lemma_trim_no_edge_whitespace(e);
    assert(ascii_lower(e[0]) == e[0]);
    assert(ascii_lower(w[0]) == 'm');
    assert(ascii_lower(w[3]) == e[0]);
    if e.len() > 1 {
        assert(ascii_lower(w[4]) == e[1]);
        assert(e.drop_last() =~= seq![e[0]]);
        assert(seq![e[0]].drop_last() =~= Seq::<char>::empty());
    } else {
        assert(e.drop_last() =~= Seq::<char>::empty());
    }
    if e == "7"@ {
        assert(w =~= "maj7"@);
    } else if e == "9"@ {
        assert(w =~= "maj9"@);
        assert(!eq_ignore_ascii_case_seq(w, "maj7"@));
    } else if e == "11"@ {
        assert(w =~= "maj11"@);
    } else {
        assert(w =~= "maj13"@);
        assert(!eq_ignore_ascii_case_seq(w, "maj11"@));
    }
    assert(e != "M7"@);
}

proof fn lemma_listed_words_shape(q: Seq<char>, e: Seq<char>)
    requires
        listed_quality_word(q),
        listed_extension_number(e),
    ensures
        all_digits(e),
        (q + e).len() > 0 ==> (q + e)[0] != '#' && (q + e)[0] != 'b' && !is_unicode_whitespace(
            (q + e).last(),
        ),
{
    reveal_strlit("");
    reveal_strlit("7");
    reveal_strlit("9");
    reveal_strlit("11");
    reveal_strlit("13");
    reveal_strlit("m");
    reveal_strlit("min");
    reveal_strlit("minor");
    reveal_strlit("-");
    reveal_strlit("M");
    reveal_strlit("maj");
    reveal_strlit("major");
    reveal_strlit("dim");
    reveal_strlit("diminished");
    reveal_strlit("o");
    reveal_strlit("aug");
    reveal_strlit("augmented");
    reveal_strlit("+");
    reveal_strlit("sus2");
    reveal_strlit("sus4");
    let qe = q + e;
    if e.len() > 0 {
        assert(qe.last() == e.last());
    } else if q.len() > 0 {
        assert(qe.last() == q.last());
    }
    if q.len() > 0 {
        assert(qe[0] == q[0]);
    } else if e.len() > 0 {
        assert(qe[0] == e[0]);
    }
}

proof fn lemma_root_then_rest(r: Seq<char>, qe: Seq<char>)
    requires
        root_text(r),
        qe.len() > 0 ==> qe[0] != '#' && qe[0] != 'b' && !is_unicode_whitespace(qe.last()),
    ensures
        trim_seq(r + qe) == r + qe,
        (r + qe).len() > 0,
        is_ascii_alpha((r + qe)[0]),
        root_len(r + qe) == r.len(),
        (r + qe).take(r.len() as int) == r,
        (r + qe).skip(r.len() as int) == qe,
{
    let s = r + qe;
    assert(s[0] == r[0]);
    if qe.len() > 0 {
        assert(s.last() == qe.last());
    } else {
        assert(s.last() == r.last());
    }
    lemma_trim_no_edge_whitespace(s);
    if r.len() == 1 && s.len() > 1 {
        assert(s[1] == qe[0]);
    }
    if r.len() == 2 {
        assert(s[1] == r[1]);
    }
    assert(s.take(r.len() as int) =~= r);
    assert(s.skip(r.len() as int) =~= qe);
}

/// On the chord grammar's own words the two input forms agree: a root, a
/// quality word and a plain extension number written together as one
/// symbol (`G` `min` `9` as `Gmin9`) are read as the same chord, or
/// refused with the same message, as the three separate arguments.
pub proof fn lemma_symbol_agrees_with_parts(r: Seq<char>, q: Seq<char>, e: Seq<char>)
    requires
        root_text(r),
        listed_quality_word(q),
        listed_extension_number(e),
    ensures
        spec_parse_chord_symbol(r + q + e) == spec_parse_chord_parts(r, q, Some(e)),
{
    let qe = q + e;
    assert(r + q + e =~= r + qe);
    lemma_listed_words_shape(q, e);
    lemma_quality_word_then_digits(q, e);
    lemma_root_then_rest(r, qe);
    if q == "maj"@ && e.len() > 0 {
        reveal_strlit("maj");
        assert(qe[0] == 'm' && qe[1] == 'a' && qe[2] == 'j' && qe[3] == e[0]);
        lemma_maj_digit_left_in_place(qe);
        lemma_maj_word_matches_number(e);
    }
    let t = trim_seq(r + qe);
    assert(t.len() != 0);
    assert(t.take(root_len(t)) == r);
    assert(t.skip(root_len(t)) == qe);
}

/// The chord degree an extension reaches: 6, 7, 9, 11 or 13 (0 for none).
pub open spec fn extension_degree(x: Extension) -> int {
    match x {
        Extension::NoExtension => 0,
        Extension::Sixth => 6,
        Extension::SixNine => 9,
        Extension::DominantSeventh => 7,
        Extension::MajorSeventh => 7,
        Extension::MinorSeventh => 7,
        Extension::DiminishedSeventh => 7,
        Extension::Ninth => 9,
        Extension::MajorNinth => 9,
        Extension::FlatNinth => 9,
        Extension::SharpNinth => 9,
        Extension::Eleventh => 11,
        Extension::MajorEleventh => 11,
        Extension::SharpEleventh => 11,
        Extension::Thirteenth => 13,
        Extension::MajorThirteenth => 13,
        Extension::FlatThirteenth => 13,
    }
}

/// The sign with which an extension alters its degree, if any.
pub open spec fn extension_sign(x: Extension) -> Option<char> {
    match x {
        Extension::FlatNinth => Some('b'),
        Extension::SharpNinth => Some('#'),
        Extension::SharpEleventh => Some('#'),
        Extension::FlatThirteenth => Some('b'),
        _ => None,
    }
}

/// The extension stacks a major seventh (the `maj` chords).
pub open spec fn has_major_seventh(x: Extension) -> bool {
    match x {
        Extension::MajorSeventh => true,
        Extension::MajorNinth => true,
        Extension::MajorEleventh => true,
        Extension::MajorThirteenth => true,
        _ => false,
    }
}

/// What a numbered extension means: its degree is the number written and
/// its alteration the sign written; it stacks a major seventh exactly when
/// the number is plain and the quality was an explicit major (`M`, `maj`,
/// `major`), so after a minor or a defaulted major `11` is the plain
/// eleventh; and a plain seventh is minor exactly after a minor quality
/// and diminished exactly after a diminished one.
pub proof fn lemma_numbered_extension_meaning(ext: Seq<char>, q: QualityToken)
    ensures
        ({
            let t = trim_seq(ext);
            (t.len() > 0 && word_extension(t) is None && spec_parse_extension(ext, q) is Ok) ==> {
                let x = spec_parse_extension(ext, q)->Ok_0;
                &&& parse_u32_seq(extension_digits(t)) is Some
                &&& extension_degree(x) == parse_u32_seq(extension_digits(t))->0
                &&& extension_sign(x) == extension_alteration(t)
                &&& has_major_seventh(x) <==> (q == QualityToken::Major && extension_alteration(
                    t,
                ) is None)
                &&& extension_degree(x) == 7 ==> ((x == Extension::MinorSeventh) <==> (q
                    == QualityToken::Minor))
                &&& extension_degree(x) == 7 ==> ((x == Extension::DiminishedSeventh) <==> (q
                    == QualityToken::Diminished))
            }
        }),
{
}

} // verus!
