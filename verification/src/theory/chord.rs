//! Chord types (quality plus extension) and chord identification from a
//! set of MIDI notes.
use vstd::prelude::*;
use crate::bitmask::{lemma_mask_empty, lemma_mask_insert, mask_bit};
use crate::theory::note::{note_of_class, spec_prefer_sharp, Accidental, Note};

verus! {

/// The base triad of a chord.
#[derive(Debug, Clone, Copy, PartialEq, Eq, Structural)]
pub enum ChordQuality {
    Major,
    Minor,
    Diminished,
    Augmented,
    Sus2,
    Sus4,
}

/// The notes added above the triad.
#[derive(Debug, Clone, Copy, PartialEq, Eq, Structural)]
pub enum Extension {
    /// No notes above the triad.
    NoExtension,
    Sixth,
    SixNine,
    DominantSeventh,
    MajorSeventh,
    MinorSeventh,
    DiminishedSeventh,
    Ninth,
    MajorNinth,
    FlatNinth,
    SharpNinth,
    Eleventh,
    MajorEleventh,
    SharpEleventh,
    Thirteenth,
    MajorThirteenth,
    FlatThirteenth,
}

/// A chord type: triad quality and extension.
#[derive(Debug, Clone, Copy, PartialEq, Eq, Structural)]
pub struct ChordType {
    pub quality: ChordQuality,
    pub extension: Extension,
}

/// A named chord pattern: its semitone offsets above the root, ascending.
#[derive(Debug, PartialEq)]
pub struct ChordTemplate {
    pub name: String,
    pub intervals: Vec<u8>,
}

/// The known chord patterns.
pub struct ChordDatabase {
    pub templates: Vec<ChordTemplate>,
}

/// Some note of `midi` has pitch class `pc`.
pub open spec fn has_class(midi: Seq<u8>, pc: int) -> bool {
    exists|i: int| 0 <= i < midi.len() && (#[trigger] midi[i]) % 12 == pc
}

/// The offsets `d` below `upto`, ascending, whose pitch class `root + d`
/// occurs in `midi`.
pub open spec fn intervals_upto(midi: Seq<u8>, root: int, upto: int) -> Seq<u8>
    decreases upto,
{
    if upto <= 0 {
        Seq::empty()
    } else {
        let prev = intervals_upto(midi, root, upto - 1);
        if has_class(midi, (root + upto - 1) % 12) {
            prev.push((upto - 1) as u8)
        } else {
            prev
        }
    }
}

/// The ascending semitone offsets of the pitch classes of `midi` above
/// `root`.
pub open spec fn chord_intervals(midi: Seq<u8>, root: int) -> Seq<u8> {
    intervals_upto(midi, root, 12)
}

/// Some template of `db` has the intervals of `midi` above `root`.
pub open spec fn root_matches(midi: Seq<u8>, root: int, db: Seq<ChordTemplate>) -> bool {
    has_class(midi, root) && exists|t: int|
        0 <= t < db.len() && (#[trigger] db[t]).intervals@ == chord_intervals(midi, root)
}

/// The name of a pitch class as its variant is written: `C`, `CSharp`, ...
pub open spec fn note_debug_name(n: Note) -> Seq<char> {
    match n {
        Note::C => "C"@,
        Note::CSharp => "CSharp"@,
        Note::D => "D"@,
        Note::DSharp => "DSharp"@,
        Note::E => "E"@,
        Note::F => "F"@,
        Note::FSharp => "FSharp"@,
        Note::G => "G"@,
        Note::GSharp => "GSharp"@,
        Note::A => "A"@,
        Note::ASharp => "ASharp"@,
        Note::B => "B"@,
    }
}

/// What identification answers for `midi`: the lowest pitch class that,
/// taken as root, gives the intervals of some template, named with the
/// first such template; `None` when no pitch class does.
pub open spec fn spec_identify(midi: Seq<u8>, db: Seq<ChordTemplate>) -> Option<Seq<char>> {
    if exists|r: int| 0 <= r < 12 && #[trigger] root_matches(midi, r, db) {
        let r = choose|r: int|
            0 <= r < 12 && #[trigger] root_matches(midi, r, db) && forall|q: int|
                0 <= q < r ==> !root_matches(midi, q, db);
        let t = choose|t: int|
            0 <= t < db.len() && (#[trigger] db[t]).intervals@ == chord_intervals(midi, r)
                && forall|u: int|
                0 <= u < t ==> db[u].intervals@ != chord_intervals(midi, r);
        Some(note_debug_name(note_of_class(r)) + " "@ + db[t].name@)
    } else {
        None
    }
}

fn note_debug_name_str(n: Note) -> (s: &'static str)
    ensures
        s@ == note_debug_name(n),
{
    match n {
        Note::C => "C",
        Note::CSharp => "CSharp",
        Note::D => "D",
        Note::DSharp => "DSharp",
        Note::E => "E",
        Note::F => "F",
        Note::FSharp => "FSharp",
        Note::G => "G",
        Note::GSharp => "GSharp",
        Note::A => "A",
        Note::ASharp => "ASharp",
        Note::B => "B",
    }
}

/// The pitch classes (0-11) of the given MIDI notes, as a bit set.
fn get_unique_pitch_classes(midi_notes: &[u8]) -> (m: u16)
    ensures
        forall|p: u16| p < 16 ==> (#[trigger] mask_bit(m, p) <==> (p < 12 && has_class(midi_notes@, p as int))),
{
    let n = midi_notes.len();
    let mut mask: u16 = 0;
    proof {
        assert forall|p: u16| p < 16 implies (#[trigger] mask_bit(mask, p) <==> (p < 12 && has_class(midi_notes@.take(0), p as int))) by {
            lemma_mask_empty(p);
        }
    }
    let mut i: usize = 0;
    while i < n
        invariant
            n == midi_notes@.len(),
            i <= n,
            forall|p: u16| p < 16 ==> (#[trigger] mask_bit(mask, p) <==> (p < 12 && has_class(midi_notes@.take(i as int), p as int))),
        decreases n - i,
    {
        let pc: u16 = (midi_notes[i] % 12) as u16;
        let ghost old_mask = mask;
        mask = mask | (1u16 << pc);
        proof {
            assert forall|p: u16| p < 16 implies (#[trigger] mask_bit(mask, p) <==> (p < 12 && has_class(midi_notes@.take(i + 1), p as int))) by {
                lemma_mask_insert(old_mask, pc, p);
                let pre = midi_notes@.take(i as int);
                let post = midi_notes@.take(i + 1);
                if has_class(pre, p as int) {
                    let j = choose|j: int| 0 <= j < pre.len() && (#[trigger] pre[j]) % 12 == p;
                    assert(post[j] == pre[j]);
                }
                if p == pc {
                    assert(post[i as int] == midi_notes@[i as int]);
                }
                if has_class(post, p as int) {
                    let j = choose|j: int| 0 <= j < post.len() && (#[trigger] post[j]) % 12 == p;
                    if j < i {
                        assert(pre[j] == post[j]);
                    }
                }
            }
        }
        i = i + 1;
    }
    assert(midi_notes@.take(n as int) =~= midi_notes@);
    mask
}

/// Ascending semitone offsets above `root` of the pitch classes in the set.
fn calculate_intervals(root: u8, pitches: u16, Ghost(midi): Ghost<Seq<u8>>) -> (v: Vec<u8>)
    requires
        root < 12,
        forall|p: u16| p < 16 ==> (#[trigger] mask_bit(pitches, p) <==> (p < 12 && has_class(midi, p as int))),
    ensures
        v@ == chord_intervals(midi, root as int),
{
    let mut intervals: Vec<u8> = Vec::new();
    let mut d: u8 = 0;
    while d < 12
        invariant
            root < 12,
            d <= 12,
            forall|p: u16| p < 16 ==> (#[trigger] mask_bit(pitches, p) <==> (p < 12 && has_class(midi, p as int))),
            intervals@ == intervals_upto(midi, root as int, d as int),
        decreases 12 - d,
    {
        let pc: u16 = ((root + d) % 12) as u16;
        if (pitches & (1u16 << pc)) != 0 {
            intervals.push(d);
        }
        proof {
            assert(mask_bit(pitches, pc) == has_class(midi, (root + d) % 12));
        }
        d = d + 1;
    }
    intervals
}

fn same_intervals(a: &Vec<u8>, b: &Vec<u8>) -> (r: bool)
    ensures
        r == (a@ == b@),
{
    let n = a.len();
    if n != b.len() {
        return false;
    }
    let mut i: usize = 0;
    while i < n
        invariant
            n == a@.len(),
            n == b@.len(),
            i <= n,
            forall|k: int| 0 <= k < i ==> a@[k] == b@[k],
        decreases n - i,
    {
        if a[i] != b[i] {
            return false;
        }
        i = i + 1;
    }
    assert(a@ =~= b@);
    true
}

/// Names the chord formed by the given MIDI notes: each pitch class present
/// is tried as the root, lowest first, and the intervals above it are
/// compared with each template in turn; the first match gives
/// `"<root> <template name>"`.
pub fn identify_chord(midi_notes: &[u8], db: &ChordDatabase) -> (r: Option<String>)
    ensures
        match r {
            Some(s) => spec_identify(midi_notes@, db.templates@) == Some(s@),
            None => spec_identify(midi_notes@, db.templates@) is None,
        },
{
    let ghost midi = midi_notes@;
    let ghost tpl = db.templates@;
    let pitches = get_unique_pitch_classes(midi_notes);
    let nt = db.templates.len();
    let mut root: u8 = 0;
    while root < 12
        invariant
            root <= 12,
            midi == midi_notes@,
            tpl == db.templates@,
            nt == tpl.len(),
            forall|p: u16| p < 16 ==> (#[trigger] mask_bit(pitches, p) <==> (p < 12 && has_class(midi, p as int))),
            forall|q: int| 0 <= q < root ==> !#[trigger] root_matches(midi, q, tpl),
        decreases 12 - root,
    {
        proof {
            assert(mask_bit(pitches, root as u16) == has_class(midi, root as int));
        }
        if (pitches & (1u16 << (root as u16))) != 0 {
            let intervals = calculate_intervals(root, pitches, Ghost(midi));
            let mut t: usize = 0;
            while t < nt
                invariant
                    root < 12,
                    midi == midi_notes@,
                    tpl == db.templates@,
                    nt == tpl.len(),
                    t <= nt,
                    has_class(midi, root as int),
                    intervals@ == chord_intervals(midi, root as int),
                    forall|q: int| 0 <= q < root ==> !#[trigger] root_matches(midi, q, tpl),
                    forall|u: int| 0 <= u < t ==> (#[trigger] tpl[u]).intervals@ != chord_intervals(midi, root as int),
                decreases nt - t,
            {
                let template = &db.templates[t];
                if same_intervals(&intervals, &template.intervals) {
                    let mut out = String::from_str(note_debug_name_str(Note::from_midi(root)));
                    out.append(" ");
                    out.append(template.name.as_str());
                    proof {
                        assert(root_matches(midi, root as int, tpl));
                        let r = choose|r: int|
                            0 <= r < 12 && #[trigger] root_matches(midi, r, tpl) && forall|q: int|
                                0 <= q < r ==> !root_matches(midi, q, tpl);
                        assert(r == root) by {
                            if r < root {
                                assert(!root_matches(midi, r, tpl));
                            }
                            if r > root {
                                assert(!root_matches(midi, root as int, tpl));
                            }
                        }
                        let tt = choose|tt: int|
                            0 <= tt < tpl.len() && (#[trigger] tpl[tt]).intervals@ == chord_intervals(midi, r)
                                && forall|u: int| 0 <= u < tt ==> tpl[u].intervals@ != chord_intervals(midi, r);
                        assert(tt == t) by {
                            if tt < t {
                                assert(tpl[tt].intervals@ != chord_intervals(midi, root as int));
                            }
                            if tt > t {
                                assert(tpl[t as int].intervals@ == chord_intervals(midi, r));
                            }
                        }
                        assert((root % 12) as int == root as int);
                    }
                    return Some(out);
                }
                t = t + 1;
            }
            proof {
                assert(!root_matches(midi, root as int, tpl)) by {
                    if root_matches(midi, root as int, tpl) {
                        let u = choose|u: int| 0 <= u < tpl.len() && (#[trigger] tpl[u]).intervals@ == chord_intervals(midi, root as int);
                        assert(tpl[u].intervals@ != chord_intervals(midi, root as int));
                    }
                }
            }
        }
        root = root + 1;
    }
    proof {
        assert forall|r: int| 0 <= r < 12 implies !#[trigger] root_matches(midi, r, tpl) by {}
    }
    None
}


proof fn lemma_least_root(midi: Seq<u8>, db: Seq<ChordTemplate>, n: int)
    requires
        exists|r: int| 0 <= r < n && #[trigger] root_matches(midi, r, db),
    ensures
        exists|r: int|
            0 <= r < n && #[trigger] root_matches(midi, r, db) && forall|q: int|
                0 <= q < r ==> !root_matches(midi, q, db),
    decreases n,
{
    if exists|r: int| 0 <= r < n - 1 && #[trigger] root_matches(midi, r, db) {
        lemma_least_root(midi, db, n - 1);
    } else {
        let r = choose|r: int| 0 <= r < n && #[trigger] root_matches(midi, r, db);
        assert(r == n - 1);
        assert forall|q: int| 0 <= q < r implies !root_matches(midi, q, db) by {
            assert(!(0 <= q < n - 1 && root_matches(midi, q, db)));
        }
    }
}

proof fn lemma_least_template(iv: Seq<u8>, db: Seq<ChordTemplate>, n: int)
    requires
        n <= db.len(),
        exists|t: int| 0 <= t < n && (#[trigger] db[t]).intervals@ == iv,
    ensures
        exists|t: int|
            0 <= t < n && (#[trigger] db[t]).intervals@ == iv && forall|u: int|
                0 <= u < t ==> db[u].intervals@ != iv,
    decreases n,
{
    if exists|t: int| 0 <= t < n - 1 && (#[trigger] db[t]).intervals@ == iv {
        lemma_least_template(iv, db, n - 1);
    } else {
        let t = choose|t: int| 0 <= t < n && (#[trigger] db[t]).intervals@ == iv;
        assert(t == n - 1);
        assert forall|u: int| 0 <= u < t implies db[u].intervals@ != iv by {
            assert(!(0 <= u < n - 1 && db[u].intervals@ == iv));
        }
    }
}

/// An identified chord is named after a pitch class that occurs among the
/// notes, and after a template whose intervals are exactly those of the
/// notes above that root; when nothing is identified, no pitch class of
/// the notes fits any template.
pub proof fn lemma_identified_chord_fits(midi: Seq<u8>, db: Seq<ChordTemplate>)
    ensures
        spec_identify(midi, db) matches Some(name) ==> exists|r: int, t: int|
            #![trigger chord_intervals(midi, r), db[t]]
            0 <= r < 12 && has_class(midi, r) && 0 <= t < db.len() && db[t].intervals@
                == chord_intervals(midi, r) && name == note_debug_name(note_of_class(r)) + " "@
                + db[t].name@,
        spec_identify(midi, db) is None ==> forall|r: int|
            0 <= r < 12 ==> !#[trigger] root_matches(midi, r, db),
{
    if exists|r: int| 0 <= r < 12 && #[trigger] root_matches(midi, r, db) {
        lemma_least_root(midi, db, 12);
        let r = choose|r: int|
            0 <= r < 12 && #[trigger] root_matches(midi, r, db) && forall|q: int|
                0 <= q < r ==> !root_matches(midi, q, db);
        assert(root_matches(midi, r, db));
        lemma_least_template(chord_intervals(midi, r), db, db.len() as int);
        let t = choose|t: int|
            0 <= t < db.len() && (#[trigger] db[t]).intervals@ == chord_intervals(midi, r)
                && forall|u: int| 0 <= u < t ==> db[u].intervals@ != chord_intervals(midi, r);
        assert(0 <= t < db.len() && db[t].intervals@ == chord_intervals(midi, r));
    }
}

proof fn lemma_intervals_upto_shape(midi: Seq<u8>, root: int, upto: int)
    requires
        0 <= upto <= 12,
    ensures
        intervals_upto(midi, root, upto).len() <= upto,
        forall|i: int, j: int|
            0 <= i < j < intervals_upto(midi, root, upto).len() ==> #[trigger] intervals_upto(
                midi,
                root,
                upto,
            )[i] < #[trigger] intervals_upto(midi, root, upto)[j],
        forall|i: int|
            0 <= i < intervals_upto(midi, root, upto).len() ==> #[trigger] intervals_upto(
                midi,
                root,
                upto,
            )[i] < upto,
        forall|d: u8|
            #[trigger] intervals_upto(midi, root, upto).contains(d) <==> (d < upto && has_class(
                midi,
                (root + d) % 12,
            )),
    decreases upto,
{
    if upto > 0 {
        lemma_intervals_upto_shape(midi, root, upto - 1);
        let prev = intervals_upto(midi, root, upto - 1);
        let cur = intervals_upto(midi, root, upto);
        assert forall|d: u8| #[trigger] cur.contains(d) <==> (d < upto && has_class(midi, (root + d) % 12)) by {
            if cur.contains(d) {
                let k = choose|k: int| 0 <= k < cur.len() && cur[k] == d;
                if k < prev.len() {
                    assert(prev[k] == cur[k]);
                    assert(prev.contains(d));
                }
            }
            if d < upto - 1 && has_class(midi, (root + d) % 12) {
                assert(prev.contains(d));
                let k = choose|k: int| 0 <= k < prev.len() && prev[k] == d;
                assert(cur[k] == prev[k]);
            }
            if d == upto - 1 && has_class(midi, (root + d) % 12) {
                assert(cur[cur.len() - 1] == d);
            }
        }
    }
}

/// The intervals of a chord above a root are its pitch classes counted in
/// semitones above the root: each offset 0-11 whose pitch class sounds
/// occurs once, in ascending order.
pub proof fn lemma_chord_intervals_are_sorted_offsets(midi: Seq<u8>, root: int)
    ensures
        forall|i: int, j: int|
            0 <= i < j < chord_intervals(midi, root).len() ==> #[trigger] chord_intervals(midi, root)[i]
                < #[trigger] chord_intervals(midi, root)[j],
        forall|d: u8|
            #[trigger] chord_intervals(midi, root).contains(d) <==> (d < 12 && has_class(
                midi,
                (root + d) % 12,
            )),
{
    lemma_intervals_upto_shape(midi, root, 12);
}

proof fn lemma_same_classes_same_intervals(m1: Seq<u8>, m2: Seq<u8>, root: int, upto: int)
    requires
        forall|pc: int| #[trigger] has_class(m1, pc) <==> has_class(m2, pc),
    ensures
        intervals_upto(m1, root, upto) == intervals_upto(m2, root, upto),
    decreases upto,
{
    if upto > 0 {
        lemma_same_classes_same_intervals(m1, m2, root, upto - 1);
        assert(has_class(m1, (root + upto - 1) % 12) == has_class(m2, (root + upto - 1) % 12));
    }
}

/// Identification depends only on which pitch classes sound: notes in other
/// octaves, in another order or doubled (an inversion, an open voicing) are
/// named the same.
pub proof fn lemma_identify_depends_on_pitch_classes(
    m1: Seq<u8>,
    m2: Seq<u8>,
    db: Seq<ChordTemplate>,
)
    requires
        forall|pc: int| #[trigger] has_class(m1, pc) <==> has_class(m2, pc),
    ensures
        spec_identify(m1, db) == spec_identify(m2, db),
{
    assert forall|r: int| #[trigger] root_matches(m1, r, db) == root_matches(m2, r, db) by {
        lemma_same_classes_same_intervals(m1, m2, r, 12);
    }
    if exists|r: int| 0 <= r < 12 && #[trigger] root_matches(m1, r, db) {
        assert(exists|r: int| 0 <= r < 12 && #[trigger] root_matches(m2, r, db));
        lemma_least_root(m1, db, 12);
        lemma_least_root(m2, db, 12);
        let r1 = choose|r: int|
            0 <= r < 12 && #[trigger] root_matches(m1, r, db) && forall|q: int|
                0 <= q < r ==> !root_matches(m1, q, db);
        let r2 = choose|r: int|
            0 <= r < 12 && #[trigger] root_matches(m2, r, db) && forall|q: int|
                0 <= q < r ==> !root_matches(m2, q, db);
        assert(r1 == r2) by {
            if r1 < r2 {
                assert(!root_matches(m2, r1, db));
            }
            if r2 < r1 {
                assert(!root_matches(m1, r2, db));
            }
        }
        lemma_same_classes_same_intervals(m1, m2, r1, 12);
        let iv = chord_intervals(m1, r1);
        assert(iv == chord_intervals(m2, r2));
        lemma_least_template(iv, db, db.len() as int);
        let t1 = choose|t: int|
            0 <= t < db.len() && (#[trigger] db[t]).intervals@ == chord_intervals(m1, r1)
                && forall|u: int| 0 <= u < t ==> db[u].intervals@ != chord_intervals(m1, r1);
        let t2 = choose|t: int|
            0 <= t < db.len() && (#[trigger] db[t]).intervals@ == chord_intervals(m2, r2)
                && forall|u: int| 0 <= u < t ==> db[u].intervals@ != chord_intervals(m2, r2);
        assert(t1 == t2) by {
            if t1 < t2 {
                assert(db[t1].intervals@ != chord_intervals(m2, r2));
            }
            if t2 < t1 {
                assert(db[t2].intervals@ != chord_intervals(m1, r1));
            }
        }
    } else {
        assert forall|r: int| 0 <= r < 12 implies !#[trigger] root_matches(m2, r, db) by {
            assert(root_matches(m1, r, db) == root_matches(m2, r, db));
        }
    }
}

/// The name identification gives a root is the sharp spelling of its pitch
/// class with the sign written out as a word: the letter, then `Sharp` for
/// a black key (`DSharp`), nothing for a white key (`D`). Different pitch
/// classes get different names.
pub proof fn lemma_root_names(n: Note, m: Note)
    ensures
        note_debug_name(n) == seq![spec_prefer_sharp(n).letter] + (if spec_prefer_sharp(n).accidental
            == Accidental::Sharp {
            "Sharp"@
        } else {
            ""@
        }),
        note_debug_name(n) == note_debug_name(m) ==> n == m,
{
    reveal_strlit("");
    reveal_strlit("Sharp");
    reveal_strlit("C");
    reveal_strlit("CSharp");
    reveal_strlit("D");
    reveal_strlit("DSharp");
    reveal_strlit("E");
    reveal_strlit("F");
    reveal_strlit("FSharp");
    reveal_strlit("G");
    reveal_strlit("GSharp");
    reveal_strlit("A");
    reveal_strlit("ASharp");
    reveal_strlit("B");
    assert(note_debug_name(n) =~= seq![spec_prefer_sharp(n).letter] + (if spec_prefer_sharp(n).accidental
        == Accidental::Sharp {
        "Sharp"@
    } else {
        ""@
    }));
    assert(note_debug_name(m) =~= seq![spec_prefer_sharp(m).letter] + (if spec_prefer_sharp(m).accidental
        == Accidental::Sharp {
        "Sharp"@
    } else {
        ""@
    }));
    if note_debug_name(n) == note_debug_name(m) {
        assert(note_debug_name(n)[0] == note_debug_name(m)[0]);
        assert(note_debug_name(n).len() == note_debug_name(m).len());
    }
}

} // verus!
