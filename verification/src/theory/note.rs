//! Pitch classes, MIDI note numbers and note spellings.
use vstd::prelude::*;
use crate::text::{
    ascii_upper, char_is_ascii_alpha, char_to_ascii_upper, is_ascii_alpha, parse_i8_seq,
    parse_i8_str, push_signed_decimal, signed_decimal_text, lemma_i8_decimal_roundtrip,
    trim_start_seq, trim_end_seq, is_unicode_whitespace, string_push, trim_seq, trim_str,
    ascii_lower, lemma_trim_padded,
};

verus! {

/// An absolute MIDI note number (0-127 for valid pitches).
#[derive(Debug, Clone, Copy, PartialEq, Eq, Structural)]
pub struct MidiNote(pub u8);

/// The 12 chromatic pitch classes.
#[derive(Debug, Clone, Copy, PartialEq, Eq, Hash, Structural)]
pub enum Note {
    C,
    CSharp,
    D,
    DSharp,
    E,
    F,
    FSharp,
    G,
    GSharp,
    A,
    ASharp,
    B,
}

/// Semitone offset of a pitch class above C (0-11).
pub open spec fn note_class(n: Note) -> u8 {
    match n {
        Note::C => 0,
        Note::CSharp => 1,
        Note::D => 2,
        Note::DSharp => 3,
        Note::E => 4,
        Note::F => 5,
        Note::FSharp => 6,
        Note::G => 7,
        Note::GSharp => 8,
        Note::A => 9,
        Note::ASharp => 10,
        Note::B => 11,
    }
}

/// The pitch class with semitone offset `c` (meaningful for 0-11).
pub open spec fn note_of_class(c: int) -> Note {
    if c == 0 {
        Note::C
    } else if c == 1 {
        Note::CSharp
    } else if c == 2 {
        Note::D
    } else if c == 3 {
        Note::DSharp
    } else if c == 4 {
        Note::E
    } else if c == 5 {
        Note::F
    } else if c == 6 {
        Note::FSharp
    } else if c == 7 {
        Note::G
    } else if c == 8 {
        Note::GSharp
    } else if c == 9 {
        Note::A
    } else if c == 10 {
        Note::ASharp
    } else {
        Note::B
    }
}

impl Note {
    /// The pitch class of an absolute MIDI note number (octaves wrap modulo 12).
    pub fn from_midi(midi_val: u8) -> (n: Note)
        ensures
            n == note_of_class((midi_val % 12) as int),
    {
        let c = midi_val % 12;
        if c == 0 {
            Note::C
        } else if c == 1 {
            Note::CSharp
        } else if c == 2 {
            Note::D
        } else if c == 3 {
            Note::DSharp
        } else if c == 4 {
            Note::E
        } else if c == 5 {
            Note::F
        } else if c == 6 {
            Note::FSharp
        } else if c == 7 {
            Note::G
        } else if c == 8 {
            Note::GSharp
        } else if c == 9 {
            Note::A
        } else if c == 10 {
            Note::ASharp
        } else {
            Note::B
        }
    }

    /// Semitone offset of the pitch class above C.
    pub fn value(&self) -> (v: u8)
        ensures
            v == note_class(*self),
            v < 12,
    {
        match self {
            Note::C => 0,
            Note::CSharp => 1,
            Note::D => 2,
            Note::DSharp => 3,
            Note::E => 4,
            Note::F => 5,
            Note::FSharp => 6,
            Note::G => 7,
            Note::GSharp => 8,
            Note::A => 9,
            Note::ASharp => 10,
            Note::B => 11,
        }
    }
}

/// Every pitch class is recovered from its semitone offset, and every
/// offset 0-11 from its pitch class: `from_midi` and `value` are inverse.
pub proof fn lemma_note_class_roundtrip(n: Note, c: int)
    ensures
        note_of_class(note_class(n) as int) == n,
        note_class(n) < 12,
        0 <= c < 12 ==> note_class(note_of_class(c)) == c,
{
}

/// A MIDI number and the same number shifted by whole octaves name the
/// same pitch class.
pub proof fn lemma_from_midi_octave_invariant(midi_val: int, octaves: int)
    requires
        0 <= midi_val,
        0 <= midi_val + 12 * octaves,
    ensures
        note_of_class((midi_val + 12 * octaves) % 12) == note_of_class(midi_val % 12),
{
    assert((midi_val + 12 * octaves) % 12 == midi_val % 12) by (nonlinear_arith)
        requires
            0 <= midi_val,
            0 <= midi_val + 12 * octaves,
    ;
}

/// The MIDI number `(octave + 1) * 12 + note_val` computed in `i8` and
/// reinterpreted as `u8`.
pub open spec fn midi_number(note_val: u8, octave: i8) -> int {
    (octave + 1) * 12 + (note_val as i8)
}

/// MIDI note of a pitch class offset in a scientific-pitch octave
/// (C4 = 60).
pub fn midi_from_note(note_val: u8, octave: i8) -> (m: MidiNote)
    requires
        -11 <= octave <= 9,
        -128 <= midi_number(note_val, octave) <= 127,
    ensures
        midi_number(note_val, octave) >= 0 ==> m.0 == midi_number(note_val, octave),
        midi_number(note_val, octave) < 0 ==> m.0 == midi_number(note_val, octave) + 256,
{
    let nv: i8 = note_val as i8;
    let v: i8 = (octave + 1) * 12 + nv;
    if v >= 0 {
        MidiNote(v as u8)
    } else {
        let w: i16 = v as i16 + 256;
        MidiNote(w as u8)
    }
}

/// Spelling an offset in an octave and reading the pitch class back gives
/// the pitch class spelled.
pub proof fn lemma_midi_from_note_pitch_class(n: Note, octave: i8)
    requires
        -1 <= octave <= 9,
        midi_number(note_class(n), octave) <= 127,
    ensures
        midi_number(note_class(n), octave) >= 0,
        note_of_class(midi_number(note_class(n), octave) % 12) == n,
{
    let k = octave + 1;
    assert(0 <= k <= 10);
    assert((k * 12 + note_class(n) as int) % 12 == note_class(n) as int) by (nonlinear_arith)
        requires
            0 <= k <= 10,
            0 <= note_class(n) < 12,
    ;
}

/// Error for text that names no pitch class; holds the text.
#[derive(Debug, PartialEq, Eq)]
pub struct ParseNoteError(pub String);

/// The message of a [`ParseNoteError`] holding `s`.
pub open spec fn parse_note_error_text(s: Seq<char>) -> Seq<char> {
    "Failed to parse note: '"@ + s + "'"@
}

impl ParseNoteError {
    /// The error's message: `Failed to parse note: '<text>'`.
    pub fn display(&self) -> (r: String)
        ensures
            r@ == parse_note_error_text(self.0@),
    {
        let mut r = String::from_str("Failed to parse note: '");
        r.append(self.0.as_str());
        r.append("'");
        r
    }
}

/// The natural pitch class named by a letter (either case).
pub open spec fn natural_of_letter(c: char) -> Option<Note> {
    if c == 'C' || c == 'c' {
        Some(Note::C)
    } else if c == 'D' || c == 'd' {
        Some(Note::D)
    } else if c == 'E' || c == 'e' {
        Some(Note::E)
    } else if c == 'F' || c == 'f' {
        Some(Note::F)
    } else if c == 'G' || c == 'g' {
        Some(Note::G)
    } else if c == 'A' || c == 'a' {
        Some(Note::A)
    } else if c == 'B' || c == 'b' {
        Some(Note::B)
    } else {
        None
    }
}

/// The pitch class named by a letter with `#`, where the text parser
/// accepts one (C#, D#, F#, G#, A#).
pub open spec fn sharp_of_letter(c: char) -> Option<Note> {
    if c == 'C' || c == 'c' {
        Some(Note::CSharp)
    } else if c == 'D' || c == 'd' {
        Some(Note::DSharp)
    } else if c == 'F' || c == 'f' {
        Some(Note::FSharp)
    } else if c == 'G' || c == 'g' {
        Some(Note::GSharp)
    } else if c == 'A' || c == 'a' {
        Some(Note::ASharp)
    } else {
        None
    }
}

/// The pitch class named by a letter with a flat, where the text parser
/// accepts one (Db, Eb, Gb, Ab, Bb).
pub open spec fn flat_of_letter(c: char) -> Option<Note> {
    if c == 'D' || c == 'd' {
        Some(Note::CSharp)
    } else if c == 'E' || c == 'e' {
        Some(Note::DSharp)
    } else if c == 'G' || c == 'g' {
        Some(Note::FSharp)
    } else if c == 'A' || c == 'a' {
        Some(Note::GSharp)
    } else if c == 'B' || c == 'b' {
        Some(Note::ASharp)
    } else {
        None
    }
}

/// The pitch class that trimmed text names: one letter, or a letter and
/// `#`, `b` or `B`.
pub open spec fn note_from_text(t: Seq<char>) -> Option<Note> {
    if t.len() == 1 {
        natural_of_letter(t[0])
    } else if t.len() == 2 && t[1] == '#' {
        sharp_of_letter(t[0])
    } else if t.len() == 2 && (t[1] == 'b' || t[1] == 'B') {
        flat_of_letter(t[0])
    } else {
        None
    }
}

/// What parsing `s` as a note gives: the pitch class its trimmed text
/// names, or an error holding `s` itself.
pub open spec fn spec_parse_note(s: Seq<char>) -> Result<Note, Seq<char>> {
    match note_from_text(trim_seq(s)) {
        Some(n) => Ok(n),
        None => Err(s),
    }
}

fn natural_of_letter_exec(c: char) -> (r: Option<Note>)
    ensures
        r == natural_of_letter(c),
{
    if c == 'C' || c == 'c' {
        Some(Note::C)
    } else if c == 'D' || c == 'd' {
        Some(Note::D)
    } else if c == 'E' || c == 'e' {
        Some(Note::E)
    } else if c == 'F' || c == 'f' {
        Some(Note::F)
    } else if c == 'G' || c == 'g' {
        Some(Note::G)
    } else if c == 'A' || c == 'a' {
        Some(Note::A)
    } else if c == 'B' || c == 'b' {
        Some(Note::B)
    } else {
        None
    }
}

fn sharp_of_letter_exec(c: char) -> (r: Option<Note>)
    ensures
        r == sharp_of_letter(c),
{
    if c == 'C' || c == 'c' {
        Some(Note::CSharp)
    } else if c == 'D' || c == 'd' {
        Some(Note::DSharp)
    } else if c == 'F' || c == 'f' {
        Some(Note::FSharp)
    } else if c == 'G' || c == 'g' {
        Some(Note::GSharp)
    } else if c == 'A' || c == 'a' {
        Some(Note::ASharp)
    } else {
        None
    }
}

fn flat_of_letter_exec(c: char) -> (r: Option<Note>)
    ensures
        r == flat_of_letter(c),
{
    if c == 'D' || c == 'd' {
        Some(Note::CSharp)
    } else if c == 'E' || c == 'e' {
        Some(Note::DSharp)
    } else if c == 'G' || c == 'g' {
        Some(Note::FSharp)
    } else if c == 'A' || c == 'a' {
        Some(Note::GSharp)
    } else if c == 'B' || c == 'b' {
        Some(Note::ASharp)
    } else {
        None
    }
}

/// Parses a pitch class name such as `C`, `c#`, `Db` or `  g#  `
/// (surrounding whitespace is ignored, the letter's case is not
/// significant, flats may be written `b` or `B`).
pub fn parse_note(s: &str) -> (r: Result<Note, ParseNoteError>)
    ensures
        match r {
            Ok(n) => spec_parse_note(s@) == Ok::<Note, Seq<char>>(n),
            Err(e) => spec_parse_note(s@) == Err::<Note, Seq<char>>(e.0@),
        },
{
    let t = trim_str(s);
    let n = t.unicode_len();
    let found = if n == 1 {
        natural_of_letter_exec(t.get_char(0))
    } else if n == 2 {
        let acc = t.get_char(1);
        if acc == '#' {
            sharp_of_letter_exec(t.get_char(0))
        } else if acc == 'b' || acc == 'B' {
            flat_of_letter_exec(t.get_char(0))
        } else {
            None
        }
    } else {
        None
    };
    match found {
        Some(note) => Ok(note),
        None => Err(ParseNoteError(String::from_str(s))),
    }
}

impl std::str::FromStr for Note {
    type Err = ParseNoteError;

    fn from_str(s: &str) -> (r: Result<Self, Self::Err>)
        ensures
            match r {
                Ok(n) => spec_parse_note(s@) == Ok::<Note, Seq<char>>(n),
                Err(e) => spec_parse_note(s@) == Err::<Note, Seq<char>>(e.0@),
            },
    {
        parse_note(s)
    }
}

/// Accidental of a spelled note.
#[derive(Debug, Clone, Copy, PartialEq, Eq, Structural)]
pub enum Accidental {
    Natural,
    Sharp,
    Flat,
    DoubleSharp,
    DoubleFlat,
}

/// The written symbol of an accidental.
pub open spec fn accidental_symbol(a: Accidental) -> Seq<char> {
    match a {
        Accidental::Natural => seq![],
        Accidental::Sharp => seq!['#'],
        Accidental::Flat => seq!['b'],
        Accidental::DoubleSharp => seq!['#', '#'],
        Accidental::DoubleFlat => seq!['b', 'b'],
    }
}

/// Semitones an accidental raises (positive) or lowers (negative) a letter.
pub open spec fn accidental_offset(a: Accidental) -> int {
    match a {
        Accidental::Natural => 0,
        Accidental::Sharp => 1,
        Accidental::Flat => -1,
        Accidental::DoubleSharp => 2,
        Accidental::DoubleFlat => -2,
    }
}

impl Accidental {
    /// `""`, `"#"`, `"b"`, `"##"` or `"bb"`.
    pub fn symbol(&self) -> (r: &'static str)
        ensures
            r@ == accidental_symbol(*self),
    {
        proof {
            reveal_strlit("");
            reveal_strlit("#");
            reveal_strlit("b");
            reveal_strlit("##");
            reveal_strlit("bb");
        }
        match self {
            Accidental::Natural => "",
            Accidental::Sharp => "#",
            Accidental::Flat => "b",
            Accidental::DoubleSharp => "##",
            Accidental::DoubleFlat => "bb",
        }
    }
}

/// A written name of a pitch: letter plus accidental.
#[derive(Debug, Clone, Copy, PartialEq, Eq, Structural)]
pub struct NoteSpelling {
    pub pitch: Note,
    pub letter: char,
    pub accidental: Accidental,
}

/// Semitone offset of a natural letter above C.
pub open spec fn letter_class(c: char) -> int {
    if c == 'C' {
        0
    } else if c == 'D' {
        2
    } else if c == 'E' {
        4
    } else if c == 'F' {
        5
    } else if c == 'G' {
        7
    } else if c == 'A' {
        9
    } else {
        11
    }
}

/// The spelling names its pitch: the letter's offset moved by the
/// accidental is the pitch class, modulo 12.
pub open spec fn spelling_sounds_pitch(s: NoteSpelling) -> bool {
    &&& ('A' <= s.letter && s.letter <= 'G')
    &&& (letter_class(s.letter) + accidental_offset(s.accidental) - note_class(s.pitch)) % 12 == 0
}

/// Spelling with sharps for black keys.
pub open spec fn spec_prefer_sharp(pitch: Note) -> NoteSpelling {
    let (letter, accidental) = match pitch {
        Note::C => ('C', Accidental::Natural),
        Note::D => ('D', Accidental::Natural),
        Note::E => ('E', Accidental::Natural),
        Note::F => ('F', Accidental::Natural),
        Note::G => ('G', Accidental::Natural),
        Note::A => ('A', Accidental::Natural),
        Note::B => ('B', Accidental::Natural),
        Note::CSharp => ('C', Accidental::Sharp),
        Note::DSharp => ('D', Accidental::Sharp),
        Note::FSharp => ('F', Accidental::Sharp),
        Note::GSharp => ('G', Accidental::Sharp),
        Note::ASharp => ('A', Accidental::Sharp),
    };
    NoteSpelling { pitch, letter, accidental }
}

/// Spelling with flats for black keys; naturals as in the sharp spelling.
pub open spec fn spec_prefer_flat(pitch: Note) -> NoteSpelling {
    match pitch {
        Note::CSharp => NoteSpelling { pitch, letter: 'D', accidental: Accidental::Flat },
        Note::DSharp => NoteSpelling { pitch, letter: 'E', accidental: Accidental::Flat },
        Note::FSharp => NoteSpelling { pitch, letter: 'G', accidental: Accidental::Flat },
        Note::GSharp => NoteSpelling { pitch, letter: 'A', accidental: Accidental::Flat },
        Note::ASharp => NoteSpelling { pitch, letter: 'B', accidental: Accidental::Flat },
        _ => spec_prefer_sharp(pitch),
    }
}

/// The single-accidental spelling of a white key with another letter
/// (B# = C, Fb = E, E# = F, Cb = B).
pub open spec fn spec_enharmonic_alt(pitch: Note) -> Option<NoteSpelling> {
    match pitch {
        Note::C => Some(NoteSpelling { pitch, letter: 'B', accidental: Accidental::Sharp }),
        Note::E => Some(NoteSpelling { pitch, letter: 'F', accidental: Accidental::Flat }),
        Note::F => Some(NoteSpelling { pitch, letter: 'E', accidental: Accidental::Sharp }),
        Note::B => Some(NoteSpelling { pitch, letter: 'C', accidental: Accidental::Flat }),
        _ => None,
    }
}

/// Sharp spelling, then the flat spelling if it differs, then the
/// enharmonic alternative if there is one.
pub open spec fn spec_all_spellings(pitch: Note) -> Seq<NoteSpelling> {
    let sharp = spec_prefer_sharp(pitch);
    let flat = spec_prefer_flat(pitch);
    let with_flat = if flat != sharp {
        seq![sharp, flat]
    } else {
        seq![sharp]
    };
    match spec_enharmonic_alt(pitch) {
        Some(alt) => with_flat.push(alt),
        None => with_flat,
    }
}

/// The written form of a spelling: the letter followed by the accidental's
/// symbol.
pub open spec fn spelling_text(s: NoteSpelling) -> Seq<char> {
    seq![s.letter] + accidental_symbol(s.accidental)
}

impl NoteSpelling {
    /// The spelling the engine uses by default: sharps for black keys.
    pub fn prefer_sharp(pitch: Note) -> (s: Self)
        ensures
            s == spec_prefer_sharp(pitch),
    {
        let (letter, accidental) = match pitch {
            Note::C => ('C', Accidental::Natural),
            Note::D => ('D', Accidental::Natural),
            Note::E => ('E', Accidental::Natural),
            Note::F => ('F', Accidental::Natural),
            Note::G => ('G', Accidental::Natural),
            Note::A => ('A', Accidental::Natural),
            Note::B => ('B', Accidental::Natural),
            Note::CSharp => ('C', Accidental::Sharp),
            Note::DSharp => ('D', Accidental::Sharp),
            Note::FSharp => ('F', Accidental::Sharp),
            Note::GSharp => ('G', Accidental::Sharp),
            Note::ASharp => ('A', Accidental::Sharp),
        };
        NoteSpelling { pitch, letter, accidental }
    }

    /// Flats for black keys; naturals fall back to the sharp spelling.
    pub fn prefer_flat(pitch: Note) -> (s: Self)
        ensures
            s == spec_prefer_flat(pitch),
    {
        let (letter, accidental) = match pitch {
            Note::CSharp => ('D', Accidental::Flat),
            Note::DSharp => ('E', Accidental::Flat),
            Note::FSharp => ('G', Accidental::Flat),
            Note::GSharp => ('A', Accidental::Flat),
            Note::ASharp => ('B', Accidental::Flat),
            _ => {
                return Self::prefer_sharp(pitch);
            },
        };
        NoteSpelling { pitch, letter, accidental }
    }

    /// B# for C, Fb for E, E# for F, Cb for B; no other pitch has a
    /// single-accidental alternative.
    pub fn enharmonic_alt(pitch: Note) -> (r: Option<Self>)
        ensures
            r == spec_enharmonic_alt(pitch),
    {
        let (letter, accidental) = match pitch {
            Note::C => ('B', Accidental::Sharp),
            Note::E => ('F', Accidental::Flat),
            Note::F => ('E', Accidental::Sharp),
            Note::B => ('C', Accidental::Flat),
            _ => {
                return None;
            },
        };
        Some(NoteSpelling { pitch, letter, accidental })
    }

    /// All valid spellings of a pitch, in order: sharp, flat, enharmonic
    /// alternative.
    pub fn all_spellings(pitch: Note) -> (v: Vec<Self>)
        ensures
            v@ == spec_all_spellings(pitch),
    {
        let mut spellings: Vec<NoteSpelling> = Vec::new();
        let sharp = Self::prefer_sharp(pitch);
        spellings.push(sharp);
        let flat = Self::prefer_flat(pitch);
        if flat != spellings[0] {
            spellings.push(flat);
        }
        match Self::enharmonic_alt(pitch) {
            Some(alt) => {
                spellings.push(alt);
            },
            None => {},
        }
        spellings
    }

    /// The written form, such as `C#` or `Bb`.
    pub fn display(&self) -> (r: String)
        ensures
            r@ == spelling_text(*self),
    {
        let mut r = String::new();
        string_push(&mut r, self.letter);
        r.append(self.accidental.symbol());
        r
    }
}

/// Every spelling offered for a pitch names that pitch: the recorded pitch
/// is unchanged, and letter plus accidental sound it.
pub proof fn lemma_spellings_preserve_pitch(pitch: Note)
    ensures
        forall|i: int|
            0 <= i < spec_all_spellings(pitch).len() ==> {
                &&& (#[trigger] spec_all_spellings(pitch)[i]).pitch == pitch
                &&& spelling_sounds_pitch(spec_all_spellings(pitch)[i])
            },
        spelling_sounds_pitch(spec_prefer_sharp(pitch)),
        spelling_sounds_pitch(spec_prefer_flat(pitch)),
        spec_prefer_sharp(pitch).pitch == pitch,
        spec_prefer_flat(pitch).pitch == pitch,
        spec_enharmonic_alt(pitch) matches Some(a) ==> a.pitch == pitch && spelling_sounds_pitch(
            a,
        ),
{
}

/// The spellings offered for a pitch are all different from each other,
/// and the first is the sharp spelling.
pub proof fn lemma_spellings_distinct(pitch: Note)
    ensures
        spec_all_spellings(pitch).len() >= 1,
        spec_all_spellings(pitch)[0] == spec_prefer_sharp(pitch),
        forall|i: int, j: int|
            0 <= i < j < spec_all_spellings(pitch).len() ==> spec_all_spellings(pitch)[i]
                != spec_all_spellings(pitch)[j],
{
}


// ---------------------------------------------------------------------------
// Scientific pitch notation
// ---------------------------------------------------------------------------

/// Semitone offset of a note name (upper-case letter, optionally `#` or
/// `b`) above the C of the octave it is written in; B#, E#, Cb and Fb
/// included. An accidental may cross the B/C boundary: B# lies 12
/// semitones above that C (B#3 sounds as C4) and Cb one below it (Cb4
/// sounds as B3).
pub open spec fn pitch_name_class(letter: char, acc: Option<char>) -> Option<int> {
    match acc {
        None => if letter == 'C' {
            Some(0)
        } else if letter == 'D' {
            Some(2)
        } else if letter == 'E' {
            Some(4)
        } else if letter == 'F' {
            Some(5)
        } else if letter == 'G' {
            Some(7)
        } else if letter == 'A' {
            Some(9)
        } else if letter == 'B' {
            Some(11)
        } else {
            None
        },
        Some(a) => if a == '#' {
            if letter == 'B' {
                Some(12)
            } else if letter == 'C' {
                Some(1)
            } else if letter == 'D' {
                Some(3)
            } else if letter == 'E' {
                Some(5)
            } else if letter == 'F' {
                Some(6)
            } else if letter == 'G' {
                Some(8)
            } else if letter == 'A' {
                Some(10)
            } else {
                None
            }
        } else if a == 'b' {
            if letter == 'D' {
                Some(1)
            } else if letter == 'E' {
                Some(3)
            } else if letter == 'F' {
                Some(4)
            } else if letter == 'G' {
                Some(6)
            } else if letter == 'A' {
                Some(8)
            } else if letter == 'B' {
                Some(10)
            } else if letter == 'C' {
                Some(-1)
            } else {
                None
            }
        } else {
            None
        },
    }
}

/// A sharp raises its letter by one semitone and a flat lowers it by one,
/// within the written octave: B#3 is one above B3 (so C4), Cb4 one below C4
/// (so B3).
pub proof fn lemma_accidental_shifts_one_semitone(letter: char)
    requires
        pitch_name_class(letter, None) is Some,
    ensures
        pitch_name_class(letter, Some('#')) == Some(pitch_name_class(letter, None)->0 + 1),
        pitch_name_class(letter, Some('b')) == Some(pitch_name_class(letter, None)->0 - 1),
{
}

/// What reading `s` in scientific pitch notation (`C4`, `F#3`, `db3`,
/// `C-1`) gives: the MIDI number `(octave + 1) * 12 + offset`, or the
/// message of the first rule it breaks.
pub open spec fn spec_midi_from_spn(s: Seq<char>) -> Result<MidiNote, Seq<char>> {
    if s.len() == 0 {
        Err("Empty pitch string"@)
    } else if !is_ascii_alpha(s[0]) {
        Err("Invalid starting character in pitch: "@ + seq![s[0]])
    } else {
        let has_acc = s.len() > 1 && (s[1] == '#' || s[1] == 'b');
        let acc = if has_acc {
            Some(s[1])
        } else {
            None
        };
        let name = if has_acc {
            seq![ascii_upper(s[0]), s[1]]
        } else {
            seq![ascii_upper(s[0])]
        };
        let octave_str = s.skip(name.len() as int);
        if octave_str.len() == 0 {
            Err("Missing octave of pitch: "@ + s)
        } else {
            match pitch_name_class(ascii_upper(s[0]), acc) {
                None => Err("Invalid note name: "@ + name),
                Some(pc) => match parse_i8_seq(octave_str) {
                    None => Err("Invalid octave format: "@ + octave_str),
                    Some(octave) => {
                        let midi = (octave + 1) * 12 + pc;
                        if 0 <= midi <= 127 {
                            Ok(MidiNote(midi as u8))
                        } else {
                            Err("MIDI value "@ + signed_decimal_text(midi) + " is out of bounds (0-127)"@)
                        }
                    },
                },
            }
        }
    }
}

/// The accidental written after the letter of a pitch in scientific pitch
/// notation, if any.
pub open spec fn spn_accidental(s: Seq<char>) -> Option<char> {
    if s.len() > 1 && (s[1] == '#' || s[1] == 'b') {
        Some(s[1])
    } else {
        None
    }
}

/// The octave part of a pitch in scientific pitch notation: what follows
/// the letter and its accidental.
pub open spec fn spn_octave_text(s: Seq<char>) -> Seq<char> {
    s.skip(if spn_accidental(s) is Some { 2 } else { 1 })
}

/// A pitch in scientific pitch notation is read exactly when it starts
/// with a letter naming a note (with its accidental, see
/// [`pitch_name_class`]), an octave follows that reads as an `i8`, and the
/// MIDI number `(octave + 1) * 12 + offset` lies in 0-127; that number is
/// then the result.
pub proof fn lemma_spn_reading(s: Seq<char>)
    requires
        s.len() > 0,
    ensures
        spec_midi_from_spn(s) is Ok <==> {
            &&& is_ascii_alpha(s[0])
            &&& spn_octave_text(s).len() > 0
            &&& pitch_name_class(ascii_upper(s[0]), spn_accidental(s)) is Some
            &&& parse_i8_seq(spn_octave_text(s)) is Some
            &&& 0 <= (parse_i8_seq(spn_octave_text(s))->0 + 1) * 12 + pitch_name_class(
                ascii_upper(s[0]),
                spn_accidental(s),
            )->0 <= 127
        },
        spec_midi_from_spn(s) matches Ok(m) ==> m.0 == (parse_i8_seq(spn_octave_text(s))->0 + 1)
            * 12 + pitch_name_class(ascii_upper(s[0]), spn_accidental(s))->0,
{
}

fn pitch_name_class_exec(letter: char, acc: Option<char>) -> (r: Option<i32>)
    ensures
        match r {
            Some(v) => pitch_name_class(letter, acc) == Some(v as int),
            None => pitch_name_class(letter, acc) is None,
        },
{
    match acc {
        None => if letter == 'C' {
            Some(0)
        } else if letter == 'D' {
            Some(2)
        } else if letter == 'E' {
            Some(4)
        } else if letter == 'F' {
            Some(5)
        } else if letter == 'G' {
            Some(7)
        } else if letter == 'A' {
            Some(9)
        } else if letter == 'B' {
            Some(11)
        } else {
            None
        },
        Some(a) => if a == '#' {
            if letter == 'B' {
                Some(12)
            } else if letter == 'C' {
                Some(1)
            } else if letter == 'D' {
                Some(3)
            } else if letter == 'E' {
                Some(5)
            } else if letter == 'F' {
                Some(6)
            } else if letter == 'G' {
                Some(8)
            } else if letter == 'A' {
                Some(10)
            } else {
                None
            }
        } else if a == 'b' {
            if letter == 'D' {
                Some(1)
            } else if letter == 'E' {
                Some(3)
            } else if letter == 'F' {
                Some(4)
            } else if letter == 'G' {
                Some(6)
            } else if letter == 'A' {
                Some(8)
            } else if letter == 'B' {
                Some(10)
            } else if letter == 'C' {
                Some(-1)
            } else {
                None
            }
        } else {
            None
        },
    }
}

impl MidiNote {
    /// Reads a pitch in scientific pitch notation: a letter (either case),
    /// an optional `#` or `b`, then the octave as a signed integer; the
    /// result must be a MIDI number 0-127.
    pub fn from_spn(s: &str) -> (r: Result<MidiNote, String>)
        ensures
            match r {
                Ok(m) => spec_midi_from_spn(s@) == Ok::<MidiNote, Seq<char>>(m),
                Err(e) => spec_midi_from_spn(s@) == Err::<MidiNote, Seq<char>>(e@),
            },
    {
        let n = s.unicode_len();
        if n == 0 {
            return Err(String::from_str("Empty pitch string"));
        }
        let first_char = s.get_char(0);
        if !char_is_ascii_alpha(first_char) {
            let mut e = String::from_str("Invalid starting character in pitch: ");
            string_push(&mut e, first_char);
            proof {
                assert(e@ =~= "Invalid starting character in pitch: "@ + seq![first_char]);
            }
            return Err(e);
        }
        let letter = char_to_ascii_upper(first_char);
        let mut pitch_class_str = String::new();
        string_push(&mut pitch_class_str, letter);
        let mut acc: Option<char> = None;
        let mut name_len: usize = 1;
        if n > 1 {
            let next_char = s.get_char(1);
            if next_char == '#' || next_char == 'b' {
                string_push(&mut pitch_class_str, next_char);
                acc = Some(next_char);
                name_len = 2;
            }
        }
        proof {
            if name_len == 2 {
                assert(pitch_class_str@ =~= seq![letter, s@[1]]);
            } else {
                assert(pitch_class_str@ =~= seq![letter]);
            }
        }
        let octave_str = s.substring_char(name_len, n);
        assert(octave_str@ =~= s@.skip(name_len as int));
        if name_len == n {
            let mut e = String::from_str("Missing octave of pitch: ");
            e.append(s);
            return Err(e);
        }
        let pitch_class_val = match pitch_name_class_exec(letter, acc) {
            Some(v) => v,
            None => {
                let mut e = String::from_str("Invalid note name: ");
                e.append(pitch_class_str.as_str());
                return Err(e);
            },
        };
        let octave = match parse_i8_str(octave_str) {
            Some(o) => o,
            None => {
                let mut e = String::from_str("Invalid octave format: ");
                e.append(octave_str);
                return Err(e);
            },
        };
        let midi_val: i32 = (octave as i32 + 1) * 12 + pitch_class_val;
        if !(0 <= midi_val && midi_val <= 127) {
            let mut e = String::from_str("MIDI value ");
            push_signed_decimal(&mut e, midi_val);
            e.append(" is out of bounds (0-127)");
            return Err(e);
        }
        Ok(MidiNote(midi_val as u8))
    }
}

impl std::convert::TryFrom<String> for MidiNote {
    type Error = String;

    /// Scientific pitch notation to MIDI number; see [`MidiNote::from_spn`].
    fn try_from(s: String) -> (r: Result<Self, Self::Error>)
        ensures
            match r {
                Ok(m) => spec_midi_from_spn(s@) == Ok::<MidiNote, Seq<char>>(m),
                Err(e) => spec_midi_from_spn(s@) == Err::<MidiNote, Seq<char>>(e@),
            },
    {
        MidiNote::from_spn(s.as_str())
    }
}

impl vstd::std_specs::convert::TryFromSpecImpl<String> for MidiNote {
    /// The conversion's contract is stated on `try_from` itself, over
    /// `spec_midi_from_spn`.
    open spec fn obeys_try_from_spec() -> bool {
        false
    }

    open spec fn try_from_spec(v: String) -> Result<Self, String> {
        arbitrary()
    }
}



// ---------------------------------------------------------------------------
// Laws across reading and writing
// ---------------------------------------------------------------------------

/// The preferred spelling of a pitch class in the given style.
pub open spec fn preferred_spelling(pitch: Note, flat: bool) -> NoteSpelling {
    if flat {
        spec_prefer_flat(pitch)
    } else {
        spec_prefer_sharp(pitch)
    }
}

/// Writing a pitch with its sharp or flat spelling and an octave number,
/// then reading it back in scientific pitch notation, gives the MIDI number
/// of that pitch in that octave.
pub proof fn lemma_spn_roundtrip(pitch: Note, octave: i8, flat: bool)
    requires
        0 <= (octave + 1) * 12 + note_class(pitch) <= 127,
    ensures
        spec_midi_from_spn(
            spelling_text(preferred_spelling(pitch, flat)) + signed_decimal_text(octave as int),
        ) == Ok::<MidiNote, Seq<char>>(MidiNote(((octave + 1) * 12 + note_class(pitch)) as u8)),
{
    let sp = preferred_spelling(pitch, flat);
    let digits = signed_decimal_text(octave as int);
    let s = spelling_text(sp) + digits;
    lemma_i8_decimal_roundtrip(octave);
    crate::text::lemma_decimal_text_value(if octave < 0 {
        (-(octave as int)) as nat
    } else {
        octave as nat
    });
    assert(digits.len() > 0);
    assert(digits[0] == '-' || ('0' <= digits[0] && digits[0] <= '9'));
    reveal_strlit("");
    reveal_strlit("#");
    reveal_strlit("b");
    assert(s[0] == sp.letter);
    if sp.accidental == Accidental::Natural {
        assert(spelling_text(sp) =~= seq![sp.letter]);
        assert(s[1] == digits[0]);
        assert(s.skip(1) =~= digits);
    } else {
        assert(spelling_text(sp) =~= seq![sp.letter, accidental_symbol(sp.accidental)[0]]);
        assert(s[1] == accidental_symbol(sp.accidental)[0]);
        assert(s.skip(2) =~= digits);
    }
}

proof fn lemma_trim_short(t: Seq<char>)
    requires
        1 <= t.len() <= 2,
        forall|i: int| 0 <= i < t.len() ==> !is_unicode_whitespace(#[trigger] t[i]),
    ensures
        trim_seq(t) == t,
{
    assert(trim_start_seq(t) == t);
    assert(trim_end_seq(t) == t);
}

/// The written sharp or flat spelling of a pitch class is read back by the
/// note parser as that pitch class. (The enharmonic alternatives B#, E#,
/// Cb and Fb are not: the parser knows no such names.)
pub proof fn lemma_spelling_parses_back(pitch: Note, flat: bool)
    ensures
        spec_parse_note(spelling_text(preferred_spelling(pitch, flat))) == Ok::<Note, Seq<char>>(
            pitch,
        ),
{
    let sp = preferred_spelling(pitch, flat);
    let t = spelling_text(sp);
    reveal_strlit("");
    reveal_strlit("#");
    reveal_strlit("b");
    if sp.accidental == Accidental::Natural {
        assert(t =~= seq![sp.letter]);
    } else {
        assert(t =~= seq![sp.letter, accidental_symbol(sp.accidental)[0]]);
    }
    lemma_trim_short(t);
}

/// Text with its ASCII capitals made lower-case.
pub open spec fn lowercase_text(t: Seq<char>) -> Seq<char> {
    t.map_values(|c: char| ascii_lower(c))
}

/// The note parser also reads back a sharp or flat spelling written in
/// lower case and padded with whitespace on either side.
pub proof fn lemma_padded_spelling_parses_back(
    pitch: Note,
    flat: bool,
    lower: bool,
    pre: Seq<char>,
    post: Seq<char>,
)
    requires
        forall|i: int| 0 <= i < pre.len() ==> is_unicode_whitespace(#[trigger] pre[i]),
        forall|i: int| 0 <= i < post.len() ==> is_unicode_whitespace(#[trigger] post[i]),
    ensures
        spec_parse_note(
            pre + (if lower {
                lowercase_text(spelling_text(preferred_spelling(pitch, flat)))
            } else {
                spelling_text(preferred_spelling(pitch, flat))
            }) + post,
        ) == Ok::<Note, Seq<char>>(pitch),
{
    let sp = preferred_spelling(pitch, flat);
    let t = spelling_text(sp);
    let u = if lower {
        lowercase_text(t)
    } else {
        t
    };
    if sp.accidental == Accidental::Natural {
        assert(t =~= seq![sp.letter]);
    } else {
        assert(t =~= seq![sp.letter, accidental_symbol(sp.accidental)[0]]);
    }
    assert(u.len() == t.len());
    assert(u[0] == if lower { ascii_lower(t[0]) } else { t[0] });
    if t.len() == 2 {
        assert(u[1] == t[1]);
    }
    lemma_trim_padded(pre, u, post);
}

/// The pitch class is a black key of the piano (C#, D#, F#, G#, A#): one
/// semitone above a natural letter that has a whole step above it.
pub open spec fn is_black_key(n: Note) -> bool {
    let c = note_class(n);
    c == 1 || c == 3 || c == 6 || c == 8 || c == 10
}

/// White keys are spelled without an accidental either way; every black
/// key is spelled with one sharp in the sharp spelling and with one flat,
/// on the next letter up, in the flat spelling. So the two spellings
/// differ exactly on the black keys.
pub proof fn lemma_black_keys_take_accidentals(pitch: Note)
    ensures
        spec_prefer_sharp(pitch).accidental == (if is_black_key(pitch) {
            Accidental::Sharp
        } else {
            Accidental::Natural
        }),
        spec_prefer_flat(pitch).accidental == (if is_black_key(pitch) {
            Accidental::Flat
        } else {
            Accidental::Natural
        }),
        is_black_key(pitch) ==> letter_class(spec_prefer_flat(pitch).letter) == letter_class(
            spec_prefer_sharp(pitch).letter,
        ) + 2,
        spec_prefer_flat(pitch) != spec_prefer_sharp(pitch) <==> is_black_key(pitch),
        spelling_sounds_pitch(spec_prefer_sharp(pitch)),
        spelling_sounds_pitch(spec_prefer_flat(pitch)),
{
}

} // verus!
