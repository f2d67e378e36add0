//! Mapping notes onto the physical coordinates of a fretboard.
use vstd::prelude::*;
use crate::bitmask::{lemma_mask_empty, lemma_mask_insert};
use crate::instrument::FretBoardConfig;
use crate::instrument::tuning::fretted_note;
use crate::theory::note::{note_class, note_of_class, MidiNote, Note};

verus! {

/// A physical position on an instrument: a string and a fret on it.
#[derive(Debug, Clone, Copy, PartialEq, Eq, Structural)]
pub struct NoteCoordinate {
    pub string_index: u8,
    pub fret: u8,
}

/// Some note of `notes` has pitch class `pc`.
pub open spec fn has_pitch_class(notes: Seq<Note>, pc: int) -> bool {
    exists|i: int| 0 <= i < notes.len() && note_class(#[trigger] notes[i]) == pc
}

/// The positions among frets `0..upto` of string `s` (open pitch `open`)
/// whose pitch class is one of `notes`, by increasing fret.
pub open spec fn string_matches(notes: Seq<Note>, open: MidiNote, s: int, upto: int) -> Seq<
    NoteCoordinate,
>
    decreases upto,
{
    if upto <= 0 {
        Seq::empty()
    } else {
        let prev = string_matches(notes, open, s, upto - 1);
        let f = upto - 1;
        if has_pitch_class(notes, (open.0 + f) % 12) {
            prev.push(NoteCoordinate { string_index: s as u8, fret: f as u8 })
        } else {
            prev
        }
    }
}

/// The matching positions on the first `upto` strings of `strings`, string
/// by string, each string's by increasing fret up to `fret_count`.
pub open spec fn fretboard_matches(
    notes: Seq<Note>,
    strings: Seq<MidiNote>,
    fret_count: int,
    upto: int,
) -> Seq<NoteCoordinate>
    decreases upto,
{
    if upto <= 0 {
        Seq::empty()
    } else {
        fretboard_matches(notes, strings, fret_count, upto - 1) + string_matches(
            notes,
            strings[upto - 1],
            upto - 1,
            fret_count + 1,
        )
    }
}

/// Scans the fretboard for every position (string, fret from 0 to
/// `fret_count`) that sounds one of the given pitch classes.
pub fn find_notes_on_fretboard(notes: &[Note], config: &FretBoardConfig) -> (coords: Vec<
    NoteCoordinate,
>)
    requires
        forall|i: int|
            0 <= i < config.tuning.strings@.len() ==> #[trigger] config.tuning.strings@[i].0
                + config.fret_count <= 255,
    ensures
        coords@ == fretboard_matches(
            notes@,
            config.tuning.strings@,
            config.fret_count as int,
            config.tuning.strings@.len() as int,
        ),
{
    let mut coordinates: Vec<NoteCoordinate> = Vec::new();
    let mut target_mask: u16 = 0;
    proof {
        assert forall|p: u16| p < 12 implies ((#[trigger] (target_mask & (1u16 << p))) != 0
            <==> has_pitch_class(notes@.subrange(0, 0), p as int)) by {
            lemma_mask_empty(p);
        }
    }
    let nn = notes.len();
    let mut k: usize = 0;
    while k < nn
        invariant
            nn == notes@.len(),
            k <= nn,
            forall|p: u16|
                p < 12 ==> ((#[trigger] (target_mask & (1u16 << p))) != 0 <==> has_pitch_class(
                    notes@.subrange(0, k as int),
                    p as int,
                )),
        decreases nn - k,
    {
        let val = notes[k].value();
        let ghost old_mask = target_mask;
        target_mask = target_mask | (1u16 << val);
        proof {
            assert forall|p: u16| p < 12 implies ((#[trigger] (target_mask & (1u16 << p))) != 0
                <==> has_pitch_class(notes@.subrange(0, k + 1), p as int)) by {
                lemma_mask_insert(old_mask, val as u16, p);
                let pre = notes@.subrange(0, k as int);
                let post = notes@.subrange(0, k + 1);
                if has_pitch_class(pre, p as int) {
                    let i = choose|i: int| 0 <= i < pre.len() && note_class(#[trigger] pre[i]) == p;
                    assert(post[i] == pre[i]);
                }
                if p == val {
                    assert(post[k as int] == notes@[k as int]);
                }
                if has_pitch_class(post, p as int) {
                    let i = choose|i: int|
                        0 <= i < post.len() && note_class(#[trigger] post[i]) == p;
                    if i < k {
                        assert(pre[i] == post[i]);
                    }
                }
            }
        }
        k = k + 1;
    }
    assert(notes@.subrange(0, nn as int) =~= notes@);
    let ns = config.tuning.strings.len();
    let fret_count = config.fret_count;
    let mut s: usize = 0;
    while s < ns
        invariant
            ns == config.tuning.strings@.len(),
            fret_count == config.fret_count,
            s <= ns,
            forall|i: int|
                0 <= i < config.tuning.strings@.len() ==> #[trigger] config.tuning.strings@[i].0
                    + config.fret_count <= 255,
            forall|p: u16|
                p < 12 ==> ((#[trigger] (target_mask & (1u16 << p))) != 0 <==> has_pitch_class(
                    notes@,
                    p as int,
                )),
            coordinates@ == fretboard_matches(
                notes@,
                config.tuning.strings@,
                fret_count as int,
                s as int,
            ),
        decreases ns - s,
    {
        let open_midi = config.tuning.strings[s];
        let ghost before = coordinates@;
        let mut cur_fret: u8 = 0;
        let mut done = false;
        while !done
            invariant
                ns == config.tuning.strings@.len(),
                s < ns,
                open_midi == config.tuning.strings@[s as int],
                open_midi.0 + fret_count <= 255,
                fret_count == config.fret_count,
                forall|p: u16|
                    p < 12 ==> ((#[trigger] (target_mask & (1u16 << p))) != 0 <==> has_pitch_class(
                        notes@,
                        p as int,
                    )),
                cur_fret <= fret_count,
                !done ==> coordinates@ == before + string_matches(
                    notes@,
                    open_midi,
                    s as int,
                    cur_fret as int,
                ),
                done ==> coordinates@ == before + string_matches(
                    notes@,
                    open_midi,
                    s as int,
                    fret_count + 1,
                ),
            decreases fret_count - cur_fret + (if done { 0int } else { 1int }),
        {
            let current_pitch: u8 = (open_midi.0 + cur_fret) % 12;
            let hit = (target_mask & (1u16 << (current_pitch as u16))) != 0;
            if hit {
                coordinates.push(
                    NoteCoordinate { string_index: #[verifier::truncate] (s as u8), fret: cur_fret },
                );
            }
            proof {
                assert(current_pitch as u16 == current_pitch);
                assert(hit == has_pitch_class(notes@, current_pitch as int));
                assert(before + string_matches(notes@, open_midi, s as int, cur_fret + 1)
                    =~= coordinates@);
            }
            if cur_fret == fret_count {
                done = true;
            } else {
                cur_fret = cur_fret + 1;
            }
        }
        s = s + 1;
    }
    coordinates
}

proof fn lemma_string_matches_members(notes: Seq<Note>, open: MidiNote, s: int, upto: int)
    requires
        0 <= s < 256,
        0 <= upto <= 256,
    ensures
        string_matches(notes, open, s, upto).len() <= upto,
        forall|k: int|
            0 <= k < string_matches(notes, open, s, upto).len() ==> {
                let c = #[trigger] string_matches(notes, open, s, upto)[k];
                c.string_index == s && c.fret < upto && has_pitch_class(
                    notes,
                    (open.0 + c.fret) % 12,
                )
            },
        forall|f: int|
            0 <= f < upto && #[trigger] has_pitch_class(notes, (open.0 + f) % 12) ==> string_matches(
                notes,
                open,
                s,
                upto,
            ).contains(NoteCoordinate { string_index: s as u8, fret: f as u8 }),
    decreases upto,
{
    if upto > 0 {
        lemma_string_matches_members(notes, open, s, upto - 1);
        let prev = string_matches(notes, open, s, upto - 1);
        let cur = string_matches(notes, open, s, upto);
        assert forall|f: int|
            0 <= f < upto && #[trigger] has_pitch_class(notes, (open.0 + f) % 12) implies cur.contains(
            NoteCoordinate { string_index: s as u8, fret: f as u8 },
        ) by {
            if f < upto - 1 {
                let k = choose|k: int|
                    0 <= k < prev.len() && prev[k] == NoteCoordinate {
                        string_index: s as u8,
                        fret: f as u8,
                    };
                assert(cur[k] == prev[k]);
            } else {
                assert(cur[cur.len() - 1] == NoteCoordinate {
                    string_index: s as u8,
                    fret: f as u8,
                });
            }
        }
    }
}

proof fn lemma_fretboard_matches_members(
    notes: Seq<Note>,
    strings: Seq<MidiNote>,
    fret_count: int,
    upto: int,
)
    requires
        0 <= fret_count <= 255,
        0 <= upto <= strings.len() <= 256,
    ensures
        forall|c: NoteCoordinate|
            fretboard_matches(notes, strings, fret_count, upto).contains(c) <==> {
                &&& c.string_index < upto
                &&& c.fret <= fret_count
                &&& has_pitch_class(notes, (strings[c.string_index as int].0 + c.fret) % 12)
            },
    decreases upto,
{
    if upto > 0 {
        lemma_fretboard_matches_members(notes, strings, fret_count, upto - 1);
        let prev = fretboard_matches(notes, strings, fret_count, upto - 1);
        let row = string_matches(notes, strings[upto - 1], upto - 1, fret_count + 1);
        lemma_string_matches_members(notes, strings[upto - 1], upto - 1, fret_count + 1);
        let all = fretboard_matches(notes, strings, fret_count, upto);
        assert(all == prev + row);
        assert forall|c: NoteCoordinate| all.contains(c) <==> {
            &&& c.string_index < upto
            &&& c.fret <= fret_count
            &&& has_pitch_class(notes, (strings[c.string_index as int].0 + c.fret) % 12)
        } by {
            if all.contains(c) {
                let k = choose|k: int| 0 <= k < all.len() && all[k] == c;
                if k < prev.len() {
                    assert(prev[k] == c);
                    assert(prev.contains(c));
                } else {
                    assert(row[k - prev.len()] == c);
                }
            }
            if c.string_index < upto && c.fret <= fret_count && has_pitch_class(
                notes,
                (strings[c.string_index as int].0 + c.fret) % 12,
            ) {
                if c.string_index < upto - 1 {
                    assert(prev.contains(c));
                    let k = choose|k: int| 0 <= k < prev.len() && prev[k] == c;
                    assert(all[k] == c);
                } else {
                    let f = c.fret as int;
                    assert(has_pitch_class(notes, (strings[upto - 1].0 + f) % 12));
                    assert(row.contains(
                        NoteCoordinate { string_index: (upto - 1) as u8, fret: f as u8 },
                    ));
                    let k = choose|k: int|
                        0 <= k < row.len() && row[k] == NoteCoordinate {
                            string_index: (upto - 1) as u8,
                            fret: f as u8,
                        };
                    assert(all[prev.len() + k] == row[k]);
                }
            }
        }
    }
}

/// On an instrument with at most 256 strings, a position is reported
/// exactly when it is on the fretboard (an existing string, a fret from 0
/// to `fret_count`) and the note it sounds, as `note_at_fret` gives it, is
/// one of the searched pitch classes.
pub proof fn lemma_fretboard_search_exact(
    notes: Seq<Note>,
    strings: Seq<MidiNote>,
    fret_count: u8,
    c: NoteCoordinate,
)
    requires
        strings.len() <= 256,
        forall|i: int| 0 <= i < strings.len() ==> #[trigger] strings[i].0 + fret_count <= 255,
    ensures
        fretboard_matches(notes, strings, fret_count as int, strings.len() as int).contains(c)
            <==> {
            &&& c.string_index < strings.len()
            &&& c.fret <= fret_count
            &&& notes.contains(fretted_note(strings[c.string_index as int], c.fret))
        },
{
    lemma_fretboard_matches_members(notes, strings, fret_count as int, strings.len() as int);
    if c.string_index < strings.len() && c.fret <= fret_count {
        let open = strings[c.string_index as int];
        let pc = (open.0 + c.fret) % 12;
        let n = fretted_note(open, c.fret);
        assert(note_class(n) == pc);
        if has_pitch_class(notes, pc) {
            let i = choose|i: int| 0 <= i < notes.len() && note_class(#[trigger] notes[i]) == pc;
            assert(notes[i] == note_of_class(note_class(notes[i]) as int));
            assert(notes[i] == n);
        }
        if notes.contains(n) {
            let i = choose|i: int| 0 <= i < notes.len() && notes[i] == n;
            assert(note_class(notes[i]) == pc);
        }
    }
}

} // verus!
