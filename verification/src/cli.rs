//! The command line of the engine as plain values, and the decisions made
//! on it: which parser reads the chord arguments, and whether the notes are
//! spelled with flats.
use vstd::prelude::*;
use crate::chord_parser::{
    parse_chord_parts, parse_chord_symbol, spec_parse_chord_parts, spec_parse_chord_symbol,
    ChordParseError,
};
use crate::theory::chord::ChordType;
use crate::theory::note::{spec_prefer_flat, spec_prefer_sharp, Note, NoteSpelling};

verus! {

/// The subcommands.
#[derive(Debug, Clone, PartialEq, Eq)]
pub enum Commands {
    /// Build a chord from a single symbol (`"Cm7"`) or from its parts
    /// (`"C" "minor" "7"`); `intervals` asks for the intervals instead of
    /// the pitches.
    Chord { args: Vec<String>, intervals: bool },
}

/// The whole command line: the options shared by every subcommand, and
/// the subcommand.
#[derive(Debug, Clone, PartialEq, Eq)]
pub struct Cli {
    pub max_stretch: u8,
    pub capo: u8,
    pub command: Commands,
}

/// What the chord arguments are read as: one argument is a whole symbol,
/// two are root and quality, three are root, quality and extension.
pub open spec fn spec_parse_chord_args(args: Seq<String>) -> Result<(Note, ChordType), Seq<char>>
    recommends
        1 <= args.len() <= 3,
{
    if args.len() == 1 {
        spec_parse_chord_symbol(args[0]@)
    } else if args.len() == 2 {
        spec_parse_chord_parts(args[0]@, args[1]@, None)
    } else {
        spec_parse_chord_parts(args[0]@, args[1]@, Some(args[2]@))
    }
}

/// Reads the arguments of the `chord` subcommand, by their number.
pub fn parse_chord_args(args: &Vec<String>) -> (r: Result<(Note, ChordType), ChordParseError>)
    requires
        1 <= args@.len() <= 3,
    ensures
        match r {
            Ok(v) => spec_parse_chord_args(args@) == Ok::<(Note, ChordType), Seq<char>>(v),
            Err(e) => spec_parse_chord_args(args@) == Err::<(Note, ChordType), Seq<char>>(e.0@),
        },
{
    if args.len() == 1 {
        parse_chord_symbol(args[0].as_str())
    } else if args.len() == 2 {
        parse_chord_parts(args[0].as_str(), args[1].as_str(), None)
    } else {
        parse_chord_parts(args[0].as_str(), args[1].as_str(), Some(args[2].as_str()))
    }
}

/// Some argument holds an `m` or a `b`.
pub open spec fn mentions_flat(args: Seq<String>) -> bool {
    exists|i: int, j: int|
        0 <= i < args.len() && 0 <= j < args[i]@.len() && (#[trigger] args[i]@[j] == 'm'
            || args[i]@[j] == 'b')
}

/// Whether the chord's notes are spelled with flats: the arguments, joined
/// by spaces, hold an `m` or a `b`.
pub fn prefers_flat(args: &Vec<String>) -> (r: bool)
    ensures
        r == mentions_flat(args@),
{
    let n = args.len();
    let mut i: usize = 0;
    while i < n
        invariant
            n == args@.len(),
            i <= n,
            forall|a: int, j: int|
                0 <= a < i && 0 <= j < args@[a]@.len() ==> #[trigger] args@[a]@[j] != 'm'
                    && args@[a]@[j] != 'b',
        decreases n - i,
    {
        let s = args[i].as_str();
        let len = s.unicode_len();
        let mut j: usize = 0;
        while j < len
            invariant
                n == args@.len(),
                i < n,
                s@ == args@[i as int]@,
                len == s@.len(),
                j <= len,
                forall|a: int, k: int|
                    0 <= a < i && 0 <= k < args@[a]@.len() ==> #[trigger] args@[a]@[k] != 'm'
                        && args@[a]@[k] != 'b',
                forall|k: int| 0 <= k < j ==> #[trigger] s@[k] != 'm' && s@[k] != 'b',
            decreases len - j,
        {
            let c = s.get_char(j);
            if c == 'm' || c == 'b' {
                assert(args@[i as int]@[j as int] == c);
                return true;
            }
            j = j + 1;
        }
        i = i + 1;
    }
    false
}

/// The spelling of a chord note: with flats when the arguments ask for
/// them, else with sharps.
pub fn chord_note_spelling(n: Note, flat: bool) -> (s: NoteSpelling)
    ensures
        s == (if flat { spec_prefer_flat(n) } else { spec_prefer_sharp(n) }),
{
    if flat {
        NoteSpelling::prefer_flat(n)
    } else {
        NoteSpelling::prefer_sharp(n)
    }
}

} // verus!
