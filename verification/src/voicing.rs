//! Generation of playable chord shapes (voicings) from fretboard positions.
use vstd::prelude::*;
use crate::bitmask::{lemma_mask_covers, lemma_mask_empty, lemma_mask_insert, lemma_mask_subset, mask_bit};
use crate::mapping::{has_pitch_class, NoteCoordinate};
use crate::theory::note::{note_class, Note};

verus! {

/// One playable chord shape; entry `s` is string `s`: `Some(fret)` plays
/// that fret (0 = open string), `None` mutes the string.
#[derive(Debug, Clone, PartialEq, Eq, Hash)]
pub struct Voicing {
    pub frets: Vec<Option<u8>>,
}

/// Search limits derived from the active instrument.
#[derive(Debug, Clone)]
pub struct VoicingConfig {
    /// Largest distance between the lowest and highest fretted note inside
    /// the hand's window (open strings excluded).
    pub max_stretch: u8,
    /// Every note of the target chord must sound in the voicing.
    pub require_all_target_notes: bool,
    /// Open strings (the capo fret when a capo is on) may be played.
    pub allow_open_strings: bool,
    /// Fret of the capo; 0 means no capo. No fret below it can be played.
    pub capo_fret: u8,
}

impl Default for VoicingConfig {
    fn default() -> (c: Self)
        ensures
            c.max_stretch == 4,
            !c.require_all_target_notes,
            c.allow_open_strings,
            c.capo_fret == 0,
    {
        VoicingConfig {
            max_stretch: 4,
            require_all_target_notes: false,
            allow_open_strings: true,
            capo_fret: 0,
        }
    }
}

// ---------------------------------------------------------------------------
// What a valid chord shape is
// ---------------------------------------------------------------------------

/// The fret of a played string (0 for a muted one).
pub open spec fn fret_of(o: Option<u8>) -> u8 {
    match o {
        Some(f) => f,
        None => 0,
    }
}

/// Pitch class sounded by a string with open pitch class `open` at `fret`.
pub open spec fn string_pitch(open: u8, fret: u8) -> u16 {
    ((open + fret) % 12) as u16
}

/// Number of played (not muted) strings.
pub open spec fn count_played(c: Seq<Option<u8>>) -> nat
    decreases c.len(),
{
    if c.len() == 0 {
        0
    } else {
        count_played(c.drop_last()) + if c.last() is Some {
            1nat
        } else {
            0nat
        }
    }
}

/// Some played string of `c` sounds pitch class `pc`.
pub open spec fn plays_pitch(c: Seq<Option<u8>>, open_strings: Seq<u8>, pc: u16) -> bool {
    exists|s: int|
        0 <= s < c.len() && (#[trigger] c[s]) is Some && string_pitch(open_strings[s], fret_of(c[s]))
            == pc
}

/// The shape is a chord over the pitch-class set `target_mask`: at least
/// three strings sound, none outside the set, and, when `require_all`, every
/// pitch class of the set sounds.
pub open spec fn valid_for_mask(
    c: Seq<Option<u8>>,
    target_mask: u16,
    open_strings: Seq<u8>,
    require_all: bool,
) -> bool {
    &&& count_played(c) >= 3
    &&& forall|s: int|
        0 <= s < c.len() && (#[trigger] c[s]) is Some ==> mask_bit(
            target_mask,
            string_pitch(open_strings[s], fret_of(c[s])),
        )
    &&& require_all ==> forall|b: u16|
        b < 16 && #[trigger] mask_bit(target_mask, b) ==> plays_pitch(c, open_strings, b)
}

/// The shape is a chord over the pitch classes of `targets`.
pub open spec fn valid_for_targets(
    c: Seq<Option<u8>>,
    targets: Seq<Note>,
    open_strings: Seq<u8>,
    require_all: bool,
) -> bool {
    &&& count_played(c) >= 3
    &&& forall|s: int|
        0 <= s < c.len() && (#[trigger] c[s]) is Some ==> has_pitch_class(
            targets,
            string_pitch(open_strings[s], fret_of(c[s])) as int,
        )
    &&& require_all ==> forall|b: u16|
        b < 12 && #[trigger] has_pitch_class(targets, b as int) ==> plays_pitch(
            c,
            open_strings,
            b,
        )
}

proof fn lemma_count_played_step(c: Seq<Option<u8>>, i: int)
    requires
        0 <= i < c.len(),
    ensures
        count_played(c.take(i + 1)) == count_played(c.take(i)) + if c[i] is Some {
            1nat
        } else {
            0nat
        },
{
    assert(c.take(i + 1).drop_last() =~= c.take(i));
}

/// Checks that a complete shape is a usable chord over `target_mask`:
/// at least three strings sound, no sounding pitch class lies outside the
/// mask, and, if the configuration asks for it, every pitch class of the
/// mask sounds.
pub fn is_valid_chord(
    chord_shape: &[Option<u8>],
    target_mask: u16,
    open_strings: &[u8],
    config: &VoicingConfig,
) -> (b: bool)
    requires
        forall|s: int|
            0 <= s < chord_shape@.len() && (#[trigger] chord_shape@[s]) is Some ==> s
                < open_strings@.len(),
    ensures
        b == valid_for_mask(
            chord_shape@,
            target_mask,
            open_strings@,
            config.require_all_target_notes,
        ),
        b == (count_played(chord_shape@) >= 3 && (played_mask(chord_shape@, open_strings@)
            & !target_mask) == 0 && (config.require_all_target_notes ==> (played_mask(
            chord_shape@,
            open_strings@,
        ) & target_mask) == target_mask)),
{
    proof {
        lemma_valid_chord_bitmask(
            chord_shape@,
            target_mask,
            open_strings@,
            config.require_all_target_notes,
        );
    }
    let n = chord_shape.len();
    let mut played_count: usize = 0;
    let mut played_mask: u16 = 0;
    proof {
        assert forall|b: u16| b < 16 implies (#[trigger] mask_bit(played_mask, b)
            <==> plays_pitch(chord_shape@.take(0), open_strings@, b)) by {
            lemma_mask_empty(b);
        }
        assert(chord_shape@.take(0).len() == 0);
    }
    let mut i: usize = 0;
    while i < n
        invariant
            n == chord_shape@.len(),
            i <= n,
            forall|s: int|
                0 <= s < chord_shape@.len() && (#[trigger] chord_shape@[s]) is Some ==> s
                    < open_strings@.len(),
            played_count == count_played(chord_shape@.take(i as int)),
            played_count <= i,
            forall|b: u16|
                b < 16 ==> (#[trigger] mask_bit(played_mask, b) <==> plays_pitch(
                    chord_shape@.take(i as int),
                    open_strings@,
                    b,
                )),
        decreases n - i,
    {
        proof {
            lemma_count_played_step(chord_shape@, i as int);
        }
        let ghost old_mask = played_mask;
        let pre = Ghost(chord_shape@.take(i as int));
        let post = Ghost(chord_shape@.take(i + 1));
        match chord_shape[i] {
            Some(fret) => {
                played_count = played_count + 1;
                let pitch_class: u16 = (open_strings[i] as u16 + fret as u16) % 12;
                played_mask = played_mask | (1u16 << pitch_class);
                proof {
                    assert forall|b: u16| b < 16 implies (#[trigger] mask_bit(played_mask, b)
                        <==> plays_pitch(post@, open_strings@, b)) by {
                        lemma_mask_insert(old_mask, pitch_class, b);
                        if plays_pitch(pre@, open_strings@, b) {
                            let s = choose|s: int|
                                0 <= s < pre@.len() && (#[trigger] pre@[s]) is Some
                                    && string_pitch(open_strings@[s], fret_of(pre@[s])) == b;
                            assert(post@[s] == pre@[s]);
                        }
                        if b == pitch_class {
                            assert(post@[i as int] == chord_shape@[i as int]);
                        }
                        if plays_pitch(post@, open_strings@, b) {
                            let s = choose|s: int|
                                0 <= s < post@.len() && (#[trigger] post@[s]) is Some
                                    && string_pitch(open_strings@[s], fret_of(post@[s])) == b;
                            if s < i {
                                assert(pre@[s] == post@[s]);
                            }
                        }
                    }
                }
            },
            None => {
                proof {
                    assert forall|b: u16| b < 16 implies (#[trigger] mask_bit(played_mask, b)
                        <==> plays_pitch(post@, open_strings@, b)) by {
                        if plays_pitch(pre@, open_strings@, b) {
                            let s = choose|s: int|
                                0 <= s < pre@.len() && (#[trigger] pre@[s]) is Some
                                    && string_pitch(open_strings@[s], fret_of(pre@[s])) == b;
                            assert(post@[s] == pre@[s]);
                        }
                        if plays_pitch(post@, open_strings@, b) {
                            let s = choose|s: int|
                                0 <= s < post@.len() && (#[trigger] post@[s]) is Some
                                    && string_pitch(open_strings@[s], fret_of(post@[s])) == b;
                            assert(pre@[s] == post@[s]);
                        }
                    }
                }
            },
        }
        i = i + 1;
    }
    let ghost c = chord_shape@;
    assert(c.take(n as int) =~= c);
    if played_count < 3 {
        return false;
    }
    proof {
        lemma_mask_subset(played_mask, target_mask);
        lemma_played_bits_subset(c, open_strings@, played_mask, target_mask);
    }
    if (played_mask & !target_mask) != 0 {
        return false;
    }
    proof {
        lemma_mask_covers(played_mask, target_mask);
    }
    if config.require_all_target_notes && (played_mask & target_mask) != target_mask {
        return false;
    }
    true
}

proof fn lemma_played_bits_subset(c: Seq<Option<u8>>, open: Seq<u8>, played: u16, target: u16)
    requires
        forall|b: u16| b < 16 ==> (#[trigger] mask_bit(played, b) <==> plays_pitch(c, open, b)),
    ensures
        (forall|b: u16| b < 16 ==> (#[trigger] mask_bit(played, b) ==> mask_bit(target, b)))
            <==> (forall|s: int|
            0 <= s < c.len() && (#[trigger] c[s]) is Some ==> mask_bit(
                target,
                string_pitch(open[s], fret_of(c[s])),
            )),
{
    if forall|b: u16| b < 16 ==> (#[trigger] mask_bit(played, b) ==> mask_bit(target, b)) {
        assert forall|s: int| 0 <= s < c.len() && (#[trigger] c[s]) is Some implies mask_bit(
            target,
            string_pitch(open[s], fret_of(c[s])),
        ) by {
            let b = string_pitch(open[s], fret_of(c[s]));
            assert(b < 16);
            assert(plays_pitch(c, open, b));
            assert(mask_bit(played, b));
        }
    }
    if forall|s: int|
        0 <= s < c.len() && (#[trigger] c[s]) is Some ==> mask_bit(
            target,
            string_pitch(open[s], fret_of(c[s])),
        ) {
        assert forall|b: u16| b < 16 && #[trigger] mask_bit(played, b) implies mask_bit(
            target,
            b,
        ) by {
            {
                assert(plays_pitch(c, open, b));
                let s = choose|s: int|
                    0 <= s < c.len() && (#[trigger] c[s]) is Some && string_pitch(
                        open[s],
                        fret_of(c[s]),
                    ) == b;
                assert(c[s] is Some);
            }
        }
    }
}


// ---------------------------------------------------------------------------
// The search
// ---------------------------------------------------------------------------

/// Fret `f` of string `s` may be played with the hand at `[ws, we]`: it is
/// a known position of that string, not behind the capo, and either the
/// capo (open) fret where open strings are allowed, or inside the window.
pub open spec fn fret_allowed(
    vf: Seq<Vec<u8>>,
    s: int,
    f: u8,
    ws: u8,
    we: u8,
    config: VoicingConfig,
) -> bool {
    &&& vf[s]@.contains(f)
    &&& f >= config.capo_fret
    &&& ((f == config.capo_fret && config.allow_open_strings) || (ws <= f && f <= we))
}

/// One string's entry is muted, or a fret allowed on that string.
pub open spec fn cell_ok(
    vf: Seq<Vec<u8>>,
    s: int,
    o: Option<u8>,
    ws: u8,
    we: u8,
    config: VoicingConfig,
) -> bool {
    match o {
        None => true,
        Some(f) => fret_allowed(vf, s, f, ws, we, config),
    }
}

/// `c` keeps the first `cur` entries of `prefix` and continues with allowed
/// entries for every remaining string.
pub open spec fn completes(
    c: Seq<Option<u8>>,
    prefix: Seq<Option<u8>>,
    cur: int,
    vf: Seq<Vec<u8>>,
    ws: u8,
    we: u8,
    config: VoicingConfig,
) -> bool {
    &&& c.len() == vf.len()
    &&& forall|s: int| 0 <= s < cur ==> c[s] == prefix[s]
    &&& forall|s: int| cur <= s < c.len() ==> cell_ok(vf, s, #[trigger] c[s], ws, we, config)
}

/// Some voicing of `rs` has the shape `c`.
pub open spec fn has_shape(rs: Seq<Voicing>, c: Seq<Option<u8>>) -> bool {
    exists|i: int| 0 <= i < rs.len() && (#[trigger] rs[i]).frets@ == c
}

/// No two voicings of `rs` have the same shape.
pub open spec fn distinct_shapes(rs: Seq<Voicing>) -> bool {
    forall|i: int, j: int| 0 <= i < j < rs.len() ==> rs[i].frets@ != rs[j].frets@
}

/// Like `completes`, with the entry of string `cur` muted or one of the
/// first `k` frets listed for it.
pub open spec fn completes_upto(
    c: Seq<Option<u8>>,
    prefix: Seq<Option<u8>>,
    cur: int,
    k: int,
    vf: Seq<Vec<u8>>,
    ws: u8,
    we: u8,
    config: VoicingConfig,
) -> bool {
    &&& c.len() == vf.len()
    &&& forall|s: int| 0 <= s < cur ==> c[s] == prefix[s]
    &&& forall|s: int| cur < s < c.len() ==> cell_ok(vf, s, #[trigger] c[s], ws, we, config)
    &&& (c[cur] is None || exists|j: int|
        0 <= j < k && c[cur] == Some(#[trigger] vf[cur]@[j]) && fret_allowed(
            vf,
            cur,
            vf[cur]@[j],
            ws,
            we,
            config,
        ))
}

fn same_shape(a: &Vec<Option<u8>>, b: &Vec<Option<u8>>) -> (r: bool)
    ensures
        r == (a@ == b@),
{
    let n = a.len();
    if n != b.len() {
        return false;
    }
    let mut i: usize = 0;
    while i < n
        invariant
            n == a@.len(),
            n == b@.len(),
            i <= n,
            forall|k: int| 0 <= k < i ==> a@[k] == b@[k],
        decreases n - i,
    {
        let same = match (a[i], b[i]) {
            (Some(x), Some(y)) => x == y,
            (None, None) => true,
            _ => false,
        };
        if !same {
            return false;
        }
        i = i + 1;
    }
    assert(a@ =~= b@);
    true
}

fn contains_shape(results: &Vec<Voicing>, c: &Vec<Option<u8>>) -> (r: bool)
    ensures
        r == has_shape(results@, c@),
{
    let n = results.len();
    let mut i: usize = 0;
    while i < n
        invariant
            n == results@.len(),
            i <= n,
            forall|k: int| 0 <= k < i ==> (#[trigger] results@[k]).frets@ != c@,
        decreases n - i,
    {
        if same_shape(&results[i].frets, c) {
            return true;
        }
        i = i + 1;
    }
    false
}

/// A fresh vector holding the same frets.
pub fn copy_shape(c: &Vec<Option<u8>>) -> (r: Vec<Option<u8>>)
    ensures
        r@ == c@,
{
    let n = c.len();
    let mut r: Vec<Option<u8>> = Vec::new();
    let mut i: usize = 0;
    while i < n
        invariant
            n == c@.len(),
            i <= n,
            r@ == c@.take(i as int),
        decreases n - i,
    {
        r.push(c[i]);
        assert(r@ =~= c@.take(i + 1));
        i = i + 1;
    }
    assert(c@.take(n as int) =~= c@);
    r
}

/// Depth-first search over the strings from `current_string` on: each string
/// is muted or given one of its listed frets that is allowed in the window
/// `[window_start, window_end]`; every complete shape that is a valid chord
/// is added to `results` unless it is already there.
///
/// Afterwards `results` holds, each once, the shapes it held before and
/// exactly the valid chords that keep the first `current_string` entries of
/// `current_combo` and give every later string no note or an allowed fret;
/// those first entries of `current_combo` are left as they were.
pub fn backtrack(
    current_string: usize,
    total_strings: usize,
    valid_frets_per_string: &[Vec<u8>],
    window_start: u8,
    window_end: u8,
    current_combo: &mut Vec<Option<u8>>,
    results: &mut Vec<Voicing>,
    target_mask: u16,
    open_strings: &[u8],
    config: &VoicingConfig,
)
    requires
        old(current_combo)@.len() == total_strings,
        valid_frets_per_string@.len() == total_strings,
        current_string <= total_strings,
        distinct_shapes(old(results)@),
        forall|s: int|
            0 <= s < current_string && (#[trigger] old(current_combo)@[s]) is Some ==> s
                < open_strings@.len(),
        forall|s: int, f: u8|
            current_string <= s < total_strings && #[trigger] fret_allowed(
                valid_frets_per_string@,
                s,
                f,
                window_start,
                window_end,
                *config,
            ) ==> s < open_strings@.len(),
    ensures
        final(current_combo)@.len() == total_strings,
        forall|s: int|
            0 <= s < current_string ==> final(current_combo)@[s] == old(current_combo)@[s],
        distinct_shapes(final(results)@),
        forall|c: Seq<Option<u8>>|
            #[trigger] has_shape(final(results)@, c) <==> (has_shape(old(results)@, c) || (
            completes(
                c,
                old(current_combo)@,
                current_string as int,
                valid_frets_per_string@,
                window_start,
                window_end,
                *config,
            ) && valid_for_mask(
                c,
                target_mask,
                open_strings@,
                config.require_all_target_notes,
            ))),
    decreases total_strings - current_string,
{
    let ghost vf = valid_frets_per_string@;
    let ghost p0 = current_combo@;
    let ghost r0 = results@;
    if current_string == total_strings {
        let valid = is_valid_chord(current_combo.as_slice(), target_mask, open_strings, config);
        if valid && !contains_shape(results, current_combo) {
            let shape = copy_shape(current_combo);
            results.push(Voicing { frets: shape });
            proof {
                assert forall|i: int, j: int| 0 <= i < j < results@.len() implies results@[i].frets@
                    != results@[j].frets@ by {
                    if j == results@.len() - 1 {
                        assert(results@[i] == r0[i]);
                    } else {
                        assert(results@[i] == r0[i]);
                        assert(results@[j] == r0[j]);
                    }
                }
            }
        }
        proof {
            assert forall|c: Seq<Option<u8>>| #[trigger] has_shape(results@, c) <==> (has_shape(r0, c)
                || (completes(c, p0, current_string as int, vf, window_start, window_end, *config)
                && valid_for_mask(c, target_mask, open_strings@, config.require_all_target_notes))) by {
                if completes(c, p0, current_string as int, vf, window_start, window_end, *config) {
                    assert(c =~= p0);
                }
                if has_shape(r0, c) {
                    let i = choose|i: int| 0 <= i < r0.len() && (#[trigger] r0[i]).frets@ == c;
                    assert(results@[i] == r0[i]);
                }
                if has_shape(results@, c) {
                    let i = choose|i: int| 0 <= i < results@.len() && (#[trigger] results@[i]).frets@ == c;
                    if i < r0.len() {
                        assert(results@[i] == r0[i]);
                    } else {
                        assert(c =~= p0);
                    }
                }
                if c == p0 && valid_for_mask(c, target_mask, open_strings@, config.require_all_target_notes)
                    && !has_shape(r0, c) {
                    assert(results@[results@.len() - 1].frets@ == c);
                }
            }
        }
        return;
    }
    // Branch 1: mute the current string.
    current_combo.set(current_string, None);
    let ghost p1 = current_combo@;
    let ghost r1_before = results@;
    backtrack(
        current_string + 1,
        total_strings,
        valid_frets_per_string,
        window_start,
        window_end,
        current_combo,
        results,
        target_mask,
        open_strings,
        config,
    );
    proof {
        assert forall|c: Seq<Option<u8>>| #[trigger] has_shape(results@, c) <==> (has_shape(r0, c)
            || (completes_upto(c, p0, current_string as int, 0, vf, window_start, window_end, *config)
            && valid_for_mask(c, target_mask, open_strings@, config.require_all_target_notes))) by {
            if completes(c, p1, current_string + 1, vf, window_start, window_end, *config) {
                assert(completes_upto(c, p0, current_string as int, 0, vf, window_start, window_end, *config));
            }
            if completes_upto(c, p0, current_string as int, 0, vf, window_start, window_end, *config) {
                assert forall|s: int| 0 <= s < current_string + 1 implies c[s] == p1[s] by {
                    if s < current_string {
                        assert(p1[s] == p0[s]);
                    }
                }
                assert(completes(c, p1, current_string + 1, vf, window_start, window_end, *config));
            }
        }
    }
    // Branch 2: play each allowed fret of the current string.
    let frets_here = &valid_frets_per_string[current_string];
    let m = frets_here.len();
    let mut k: usize = 0;
    while k < m
        invariant
            vf == valid_frets_per_string@,
            vf.len() == total_strings,
            current_string < total_strings,
            *frets_here == vf[current_string as int],
            m == frets_here@.len(),
            k <= m,
            current_combo@.len() == total_strings,
            forall|s: int| 0 <= s < current_string ==> current_combo@[s] == p0[s],
            forall|s: int|
                0 <= s < current_string && (#[trigger] p0[s]) is Some ==> s < open_strings@.len(),
            forall|s: int, f: u8|
                current_string <= s < total_strings && #[trigger] fret_allowed(
                    vf,
                    s,
                    f,
                    window_start,
                    window_end,
                    *config,
                ) ==> s < open_strings@.len(),
            distinct_shapes(results@),
            forall|c: Seq<Option<u8>>| #[trigger] has_shape(results@, c) <==> (has_shape(r0, c)
                || (completes_upto(c, p0, current_string as int, k as int, vf, window_start, window_end, *config)
                && valid_for_mask(c, target_mask, open_strings@, config.require_all_target_notes))),
        decreases m - k,
    {
        let fret = frets_here[k];
        let ghost rk = results@;
        let playable = if fret < config.capo_fret {
            false
        } else {
            let is_open_to_capo = fret == config.capo_fret;
            let is_in_window = fret >= window_start && fret <= window_end;
            (is_open_to_capo && config.allow_open_strings) || is_in_window
        };
        proof {
            assert(vf[current_string as int]@.contains(fret)) by {
                assert(vf[current_string as int]@[k as int] == fret);
            }
            assert(playable == fret_allowed(vf, current_string as int, fret, window_start, window_end, *config));
        }
        if playable {
            current_combo.set(current_string, Some(fret));
            let ghost p2 = current_combo@;
            backtrack(
                current_string + 1,
                total_strings,
                valid_frets_per_string,
                window_start,
                window_end,
                current_combo,
                results,
                target_mask,
                open_strings,
                config,
            );
            proof {
                assert forall|c: Seq<Option<u8>>| #[trigger] has_shape(results@, c) <==> (has_shape(r0, c)
                    || (completes_upto(c, p0, current_string as int, k + 1, vf, window_start, window_end, *config)
                    && valid_for_mask(c, target_mask, open_strings@, config.require_all_target_notes))) by {
                    if completes(c, p2, current_string + 1, vf, window_start, window_end, *config) {
                        assert(vf[current_string as int]@[k as int] == fret);
                        assert(completes_upto(c, p0, current_string as int, k + 1, vf, window_start, window_end, *config));
                    }
                    if completes_upto(c, p0, current_string as int, k + 1, vf, window_start, window_end, *config) {
                        if !completes_upto(c, p0, current_string as int, k as int, vf, window_start, window_end, *config) {
                            assert(c[current_string as int] is Some);
                            let j = choose|j: int|
                                0 <= j < k + 1 && c[current_string as int] == Some(#[trigger] vf[current_string as int]@[j])
                                    && fret_allowed(vf, current_string as int, vf[current_string as int]@[j], window_start, window_end, *config);
                            assert(j == k);
                            assert forall|s: int| 0 <= s < current_string + 1 implies c[s] == p2[s] by {
                                if s < current_string {
                                    assert(p2[s] == p0[s]);
                                }
                            }
                            assert(completes(c, p2, current_string + 1, vf, window_start, window_end, *config));
                        }
                    }
                    if completes_upto(c, p0, current_string as int, k as int, vf, window_start, window_end, *config) {
                        if c[current_string as int] is Some {
                            let j = choose|j: int|
                                0 <= j < k && c[current_string as int] == Some(#[trigger] vf[current_string as int]@[j])
                                    && fret_allowed(vf, current_string as int, vf[current_string as int]@[j], window_start, window_end, *config);
                            assert(0 <= j < k + 1);
                        }
                        assert(completes_upto(c, p0, current_string as int, k + 1, vf, window_start, window_end, *config));
                    }
                }
            }
        } else {
            proof {
                assert forall|c: Seq<Option<u8>>| #[trigger] has_shape(results@, c) <==> (has_shape(r0, c)
                    || (completes_upto(c, p0, current_string as int, k + 1, vf, window_start, window_end, *config)
                    && valid_for_mask(c, target_mask, open_strings@, config.require_all_target_notes))) by {
                    if completes_upto(c, p0, current_string as int, k + 1, vf, window_start, window_end, *config) {
                        if c[current_string as int] is Some {
                            let j = choose|j: int|
                                0 <= j < k + 1 && c[current_string as int] == Some(#[trigger] vf[current_string as int]@[j])
                                    && fret_allowed(vf, current_string as int, vf[current_string as int]@[j], window_start, window_end, *config);
                            if j == k {
                                assert(vf[current_string as int]@[k as int] == fret);
                            }
                            assert(0 <= j < k);
                        }
                        assert(completes_upto(c, p0, current_string as int, k as int, vf, window_start, window_end, *config));
                    }
                    if completes_upto(c, p0, current_string as int, k as int, vf, window_start, window_end, *config) {
                        if c[current_string as int] is Some {
                            let j = choose|j: int|
                                0 <= j < k && c[current_string as int] == Some(#[trigger] vf[current_string as int]@[j])
                                    && fret_allowed(vf, current_string as int, vf[current_string as int]@[j], window_start, window_end, *config);
                            assert(0 <= j < k + 1);
                        }
                    }
                }
            }
        }
        k = k + 1;
    }
    proof {
        assert forall|c: Seq<Option<u8>>| #[trigger] has_shape(results@, c) <==> (has_shape(r0, c)
            || (completes(c, p0, current_string as int, vf, window_start, window_end, *config)
            && valid_for_mask(c, target_mask, open_strings@, config.require_all_target_notes))) by {
            let cs = current_string as int;
            if completes_upto(c, p0, cs, m as int, vf, window_start, window_end, *config) {
                if c[cs] is Some {
                    let j = choose|j: int|
                        0 <= j < m && c[cs] == Some(#[trigger] vf[cs]@[j])
                            && fret_allowed(vf, cs, vf[cs]@[j], window_start, window_end, *config);
                }
                assert(cell_ok(vf, cs, c[cs], window_start, window_end, *config));
                assert(completes(c, p0, cs, vf, window_start, window_end, *config));
            }
            if completes(c, p0, cs, vf, window_start, window_end, *config) {
                assert(cell_ok(vf, cs, c[cs], window_start, window_end, *config));
                if c[cs] is Some {
                    let f = fret_of(c[cs]);
                    assert(vf[cs]@.contains(f));
                    let j = choose|j: int| 0 <= j < vf[cs]@.len() && vf[cs]@[j] == f;
                    assert(c[cs] == Some(vf[cs]@[j]));
                }
                assert(completes_upto(c, p0, cs, m as int, vf, window_start, window_end, *config));
            }
        }
    }
}


// ---------------------------------------------------------------------------
// Entry point
// ---------------------------------------------------------------------------

/// Some coordinate of `coords` is fret `f` of string `s`.
pub open spec fn on_board(coords: Seq<NoteCoordinate>, s: int, f: u8) -> bool {
    exists|i: int|
        0 <= i < coords.len() && (#[trigger] coords[i]).string_index == s && coords[i].fret == f
}

/// The highest fret among `coords` (0 when there are none).
pub open spec fn highest_fret(coords: Seq<NoteCoordinate>) -> u8
    decreases coords.len(),
{
    if coords.len() == 0 {
        0
    } else {
        let h = highest_fret(coords.drop_last());
        if coords.last().fret > h {
            coords.last().fret
        } else {
            h
        }
    }
}

/// First window position: the first fret above the capo (at least 1).
pub open spec fn search_start(config: VoicingConfig) -> int {
    if config.capo_fret + 1 > 1 {
        config.capo_fret + 1
    } else {
        1
    }
}

/// Last window position: the highest fret minus the stretch (at least 0),
/// and never before the first.
pub open spec fn search_end(coords: Seq<NoteCoordinate>, config: VoicingConfig) -> int {
    let h = highest_fret(coords);
    let e = if h >= config.max_stretch {
        h - config.max_stretch
    } else {
        0
    };
    if e > search_start(config) {
        e
    } else {
        search_start(config)
    }
}

/// Fret `f` of string `s` can be played with the hand window starting at
/// fret `ws`: it is one of the given positions, not behind the capo, and
/// either the capo fret (open string) where open strings are allowed, or
/// within `max_stretch` frets above `ws`.
pub open spec fn fret_playable(
    coords: Seq<NoteCoordinate>,
    config: VoicingConfig,
    s: int,
    f: u8,
    ws: int,
) -> bool {
    &&& on_board(coords, s, f)
    &&& f >= config.capo_fret
    &&& ((f == config.capo_fret && config.allow_open_strings) || (ws <= f && f <= ws
        + config.max_stretch))
}

/// `c` gives every one of `string_count` strings either no note or a fret
/// playable in the window starting at `ws`.
pub open spec fn shape_fits_window(
    c: Seq<Option<u8>>,
    coords: Seq<NoteCoordinate>,
    string_count: int,
    config: VoicingConfig,
    ws: int,
) -> bool {
    &&& c.len() == string_count
    &&& forall|s: int|
        0 <= s < string_count ==> match #[trigger] c[s] {
            None => true,
            Some(f) => fret_playable(coords, config, s, f, ws),
        }
}

/// The shapes that voicing generation produces: those that fit some window
/// position from `search_start` to `search_end` and are chords over the
/// target pitch classes.
pub open spec fn generated_shape(
    c: Seq<Option<u8>>,
    targets: Seq<Note>,
    coords: Seq<NoteCoordinate>,
    string_count: int,
    open_strings: Seq<u8>,
    config: VoicingConfig,
) -> bool {
    &&& exists|ws: int|
        search_start(config) <= ws <= search_end(coords, config) && #[trigger] shape_fits_window(
            c,
            coords,
            string_count,
            config,
            ws,
        )
    &&& valid_for_targets(c, targets, open_strings, config.require_all_target_notes)
}

proof fn lemma_highest_fret_bound(coords: Seq<NoteCoordinate>, i: int)
    requires
        0 <= i < coords.len(),
    ensures
        coords[i].fret <= highest_fret(coords),
    decreases coords.len(),
{
    if i < coords.len() - 1 {
        lemma_highest_fret_bound(coords.drop_last(), i);
    }
}

proof fn lemma_mask_valid_iff_targets(
    c: Seq<Option<u8>>,
    targets: Seq<Note>,
    mask: u16,
    open_strings: Seq<u8>,
    require_all: bool,
)
    requires
        forall|p: u16| p < 16 ==> (#[trigger] mask_bit(mask, p) <==> (p < 12 && has_pitch_class(targets, p as int))),
    ensures
        valid_for_mask(c, mask, open_strings, require_all) <==> valid_for_targets(
            c,
            targets,
            open_strings,
            require_all,
        ),
{
    assert((forall|s: int|
        0 <= s < c.len() && (#[trigger] c[s]) is Some ==> mask_bit(
            mask,
            string_pitch(open_strings[s], fret_of(c[s])),
        )) <==> (forall|s: int|
        0 <= s < c.len() && (#[trigger] c[s]) is Some ==> has_pitch_class(
            targets,
            string_pitch(open_strings[s], fret_of(c[s])) as int,
        ))) by {
        assert forall|s: int| 0 <= s < c.len() && (#[trigger] c[s]) is Some implies (mask_bit(
            mask,
            string_pitch(open_strings[s], fret_of(c[s])),
        ) <==> has_pitch_class(targets, string_pitch(open_strings[s], fret_of(c[s])) as int)) by {
            let p = string_pitch(open_strings[s], fret_of(c[s]));
            assert(p < 12);
        }
    }
    if require_all {
        assert((forall|b: u16| b < 16 && #[trigger] mask_bit(mask, b) ==> plays_pitch(c, open_strings, b))
            <==> (forall|b: u16| b < 12 && #[trigger] has_pitch_class(targets, b as int) ==> plays_pitch(c, open_strings, b))) by {
            if forall|b: u16| b < 16 && #[trigger] mask_bit(mask, b) ==> plays_pitch(c, open_strings, b) {
                assert forall|b: u16| b < 12 && #[trigger] has_pitch_class(targets, b as int) implies plays_pitch(c, open_strings, b) by {
                    assert(mask_bit(mask, b));
                }
            }
            if forall|b: u16| b < 12 && #[trigger] has_pitch_class(targets, b as int) ==> plays_pitch(c, open_strings, b) {
                assert forall|b: u16| b < 16 && #[trigger] mask_bit(mask, b) implies plays_pitch(c, open_strings, b) by {
                    assert(has_pitch_class(targets, b as int));
                }
            }
        }
    }
}

/// Finds every playable voicing of the target pitch classes.
///
/// A window of `max_stretch` frets slides from the first fret above the
/// capo to the highest available fret; for each position every string is
/// muted, played open (at the capo, where allowed) or fretted inside the
/// window at one of the given coordinates, and each complete shape that is
/// a valid chord (`is_valid_chord`) is kept once.
pub fn generate_voicing(
    target_notes: &[Note],
    raw_coords: &[NoteCoordinate],
    string_count: usize,
    open_strings: &[u8],
    voice_config: &VoicingConfig,
) -> (r: Vec<Voicing>)
    requires
        forall|i: int| 0 <= i < raw_coords@.len() ==> (#[trigger] raw_coords@[i]).string_index < string_count,
        voice_config.capo_fret < 255,
        search_start(*voice_config) + voice_config.max_stretch <= 255,
        forall|i: int, ws: int|
            0 <= i < raw_coords@.len() && search_start(*voice_config) <= ws <= search_end(raw_coords@, *voice_config)
                && #[trigger] fret_playable(raw_coords@, *voice_config, raw_coords@[i].string_index as int, raw_coords@[i].fret, ws)
                ==> raw_coords@[i].string_index < open_strings@.len(),
    ensures
        distinct_shapes(r@),
        forall|c: Seq<Option<u8>>|
            #[trigger] has_shape(r@, c) <==> generated_shape(
                c,
                target_notes@,
                raw_coords@,
                string_count as int,
                open_strings@,
                *voice_config,
            ),
{
    let ghost coords = raw_coords@;
    let ghost cfg = *voice_config;
    let nc = raw_coords.len();
    // The frets available on each string, in the order of the coordinates.
    let mut valid_frets_per_string: Vec<Vec<u8>> = Vec::new();
    let mut s: usize = 0;
    while s < string_count
        invariant
            nc == coords.len(),
            coords == raw_coords@,
            s <= string_count,
            valid_frets_per_string@.len() == s,
            forall|t: int, f: u8| 0 <= t < s ==> (#[trigger] valid_frets_per_string@[t]@.contains(f) <==> on_board(coords, t, f)),
        decreases string_count - s,
    {
        let mut row: Vec<u8> = Vec::new();
        let mut i: usize = 0;
        while i < nc
            invariant
                nc == coords.len(),
                coords == raw_coords@,
                s < string_count,
                i <= nc,
                forall|f: u8| #[trigger] row@.contains(f) <==> on_board(coords.take(i as int), s as int, f),
            decreases nc - i,
        {
            let coord = raw_coords[i];
            let ghost old_row = row@;
            if coord.string_index as usize == s {
                row.push(coord.fret);
            }
            proof {
                assert forall|f: u8| #[trigger] row@.contains(f) <==> on_board(coords.take(i + 1), s as int, f) by {
                    let pre = coords.take(i as int);
                    let post = coords.take(i + 1);
                    if old_row.contains(f) {
                        let j = choose|j: int| 0 <= j < old_row.len() && old_row[j] == f;
                        assert(row@[j] == f);
                    }
                    if on_board(pre, s as int, f) {
                        let j = choose|j: int| 0 <= j < pre.len() && (#[trigger] pre[j]).string_index == s && pre[j].fret == f;
                        assert(post[j] == pre[j]);
                    }
                    if on_board(post, s as int, f) {
                        let j = choose|j: int| 0 <= j < post.len() && (#[trigger] post[j]).string_index == s && post[j].fret == f;
                        if j < i {
                            assert(pre[j] == post[j]);
                        } else {
                            assert(post[j] == coord);
                            assert(row@[row@.len() - 1] == f);
                        }
                    }
                    if row@.contains(f) && !old_row.contains(f) {
                        let j = choose|j: int| 0 <= j < row@.len() && row@[j] == f;
                        assert(j == row@.len() - 1);
                        assert(post[i as int] == coord);
                    }
                }
            }
            i = i + 1;
        }
        assert(coords.take(nc as int) =~= coords);
        let ghost prev_rows = valid_frets_per_string@;
        valid_frets_per_string.push(row);
        proof {
            assert forall|t: int, f: u8| 0 <= t < s + 1 implies (#[trigger] valid_frets_per_string@[t]@.contains(f) <==> on_board(coords, t, f)) by {
                if t < s {
                    assert(valid_frets_per_string@[t] == prev_rows[t]);
                }
            }
        }
        s = s + 1;
    }
    // The highest available fret.
    let mut highest_available_fret: u8 = 0;
    let mut i: usize = 0;
    while i < nc
        invariant
            nc == coords.len(),
            coords == raw_coords@,
            i <= nc,
            highest_available_fret == highest_fret(coords.take(i as int)),
        decreases nc - i,
    {
        assert(coords.take(i + 1).drop_last() =~= coords.take(i as int));
        if raw_coords[i].fret > highest_available_fret {
            highest_available_fret = raw_coords[i].fret;
        }
        i = i + 1;
    }
    assert(coords.take(nc as int) =~= coords);
    let capo_next: u8 = voice_config.capo_fret + 1;
    let search_start_fret: u8 = if capo_next > 1 { capo_next } else { 1 };
    let lowered: u8 = if highest_available_fret >= voice_config.max_stretch {
        highest_available_fret - voice_config.max_stretch
    } else {
        0
    };
    let search_end_fret: u8 = if lowered > search_start_fret { lowered } else { search_start_fret };
    // The target pitch classes as a bitmask.
    let mut target_mask: u16 = 0;
    let nn = target_notes.len();
    proof {
        assert forall|p: u16| p < 16 implies (#[trigger] mask_bit(target_mask, p) <==> (p < 12 && has_pitch_class(target_notes@.take(0), p as int))) by {
            lemma_mask_empty(p);
        }
    }
    let mut k: usize = 0;
    while k < nn
        invariant
            nn == target_notes@.len(),
            k <= nn,
            forall|p: u16| p < 16 ==> (#[trigger] mask_bit(target_mask, p) <==> (p < 12 && has_pitch_class(target_notes@.take(k as int), p as int))),
        decreases nn - k,
    {
        let val = target_notes[k].value();
        let ghost old_mask = target_mask;
        target_mask = target_mask | (1u16 << val);
        proof {
            assert forall|p: u16| p < 16 implies (#[trigger] mask_bit(target_mask, p) <==> (p < 12 && has_pitch_class(target_notes@.take(k + 1), p as int))) by {
                lemma_mask_insert(old_mask, val as u16, p);
                let pre = target_notes@.take(k as int);
                let post = target_notes@.take(k + 1);
                if has_pitch_class(pre, p as int) {
                    let j = choose|j: int| 0 <= j < pre.len() && note_class(#[trigger] pre[j]) == p;
                    assert(post[j] == pre[j]);
                }
                if p == val {
                    assert(post[k as int] == target_notes@[k as int]);
                }
                if has_pitch_class(post, p as int) {
                    let j = choose|j: int| 0 <= j < post.len() && note_class(#[trigger] post[j]) == p;
                    if j < k {
                        assert(pre[j] == post[j]);
                    }
                }
            }
        }
        k = k + 1;
    }
    assert(target_notes@.take(nn as int) =~= target_notes@);
    let ghost vf = valid_frets_per_string@;
    assert(search_end_fret + voice_config.max_stretch <= 255) by {
        if lowered > search_start_fret {
            assert(highest_available_fret >= voice_config.max_stretch);
        }
    }
    // Slide the window.
    let mut results: Vec<Voicing> = Vec::new();
    let mut window_start: u16 = search_start_fret as u16;
    while window_start <= search_end_fret as u16
        invariant
            vf == valid_frets_per_string@,
            vf.len() == string_count,
            forall|t: int, f: u8| 0 <= t < string_count ==> (#[trigger] vf[t]@.contains(f) <==> on_board(coords, t, f)),
            coords == raw_coords@,
            cfg == *voice_config,
            search_start_fret == search_start(cfg),
            search_end_fret == search_end(coords, cfg),
            search_end_fret + cfg.max_stretch <= 255,
            search_start_fret <= window_start <= search_end_fret + 1,
            forall|p: u16| p < 16 ==> (#[trigger] mask_bit(target_mask, p) <==> (p < 12 && has_pitch_class(target_notes@, p as int))),
            forall|i: int| 0 <= i < coords.len() ==> (#[trigger] coords[i]).string_index < string_count,
            forall|i: int, ws: int|
                0 <= i < coords.len() && search_start(cfg) <= ws <= search_end(coords, cfg)
                    && #[trigger] fret_playable(coords, cfg, coords[i].string_index as int, coords[i].fret, ws)
                    ==> coords[i].string_index < open_strings@.len(),
            distinct_shapes(results@),
            forall|c: Seq<Option<u8>>| #[trigger] has_shape(results@, c) <==> (
                (exists|ws: int| search_start(cfg) <= ws < window_start && #[trigger] shape_fits_window(c, coords, string_count as int, cfg, ws))
                && valid_for_targets(c, target_notes@, open_strings@, cfg.require_all_target_notes)),
        decreases search_end_fret + 1 - window_start,
    {
        let ws: u8 = window_start as u8;
        let window_end: u8 = ws + voice_config.max_stretch;
        let mut current_combo: Vec<Option<u8>> = Vec::new();
        let mut j: usize = 0;
        while j < string_count
            invariant
                j <= string_count,
                current_combo@.len() == j,
            decreases string_count - j,
        {
            current_combo.push(None);
            j = j + 1;
        }
        let ghost r_before = results@;
        let ghost combo0 = current_combo@;
        proof {
            assert forall|t: int, f: u8| 0 <= t < string_count && #[trigger] fret_allowed(vf, t, f, ws, window_end, cfg) implies t < open_strings@.len() by {
                assert(on_board(coords, t, f));
                let i = choose|i: int| 0 <= i < coords.len() && (#[trigger] coords[i]).string_index == t && coords[i].fret == f;
                assert(fret_playable(coords, cfg, coords[i].string_index as int, coords[i].fret, ws as int));
            }
        }
        backtrack(
            0,
            string_count,
            valid_frets_per_string.as_slice(),
            ws,
            window_end,
            &mut current_combo,
            &mut results,
            target_mask,
            open_strings,
            voice_config,
        );
        proof {
            assert forall|c: Seq<Option<u8>>| #[trigger] has_shape(results@, c) <==> (
                (exists|w: int| search_start(cfg) <= w < window_start + 1 && #[trigger] shape_fits_window(c, coords, string_count as int, cfg, w))
                && valid_for_targets(c, target_notes@, open_strings@, cfg.require_all_target_notes)) by {
                lemma_mask_valid_iff_targets(c, target_notes@, target_mask, open_strings@, cfg.require_all_target_notes);
                assert(completes(c, combo0, 0, vf, ws, window_end, cfg) <==> shape_fits_window(c, coords, string_count as int, cfg, ws as int)) by {
                    if completes(c, combo0, 0, vf, ws, window_end, cfg) {
                        assert forall|t: int| 0 <= t < string_count implies match #[trigger] c[t] {
                            None => true,
                            Some(f) => fret_playable(coords, cfg, t, f, ws as int),
                        } by {
                            assert(cell_ok(vf, t, c[t], ws, window_end, cfg));
                        }
                    }
                    if shape_fits_window(c, coords, string_count as int, cfg, ws as int) {
                        assert forall|t: int| 0 <= t < c.len() implies cell_ok(vf, t, #[trigger] c[t], ws, window_end, cfg) by {
                            match c[t] {
                                None => {},
                                Some(f) => {
                                    assert(fret_playable(coords, cfg, t, f, ws as int));
                                },
                            }
                        }
                    }
                }
                if exists|w: int| search_start(cfg) <= w < window_start + 1 && #[trigger] shape_fits_window(c, coords, string_count as int, cfg, w) {
                    let w = choose|w: int| search_start(cfg) <= w < window_start + 1 && #[trigger] shape_fits_window(c, coords, string_count as int, cfg, w);
                    if w < window_start {
                        assert(exists|w2: int| search_start(cfg) <= w2 < window_start && #[trigger] shape_fits_window(c, coords, string_count as int, cfg, w2));
                    }
                }
                if completes(c, combo0, 0, vf, ws, window_end, cfg) {
                    assert(shape_fits_window(c, coords, string_count as int, cfg, ws as int));
                }
            }
        }
        window_start = window_start + 1;
    }
    proof {
        assert forall|c: Seq<Option<u8>>| #[trigger] has_shape(results@, c) <==> generated_shape(
            c,
            target_notes@,
            coords,
            string_count as int,
            open_strings@,
            cfg,
        ) by {
            if exists|w: int| search_start(cfg) <= w <= search_end(coords, cfg) && #[trigger] shape_fits_window(c, coords, string_count as int, cfg, w) {
                let w = choose|w: int| search_start(cfg) <= w <= search_end(coords, cfg) && #[trigger] shape_fits_window(c, coords, string_count as int, cfg, w);
                assert(search_start(cfg) <= w < window_start);
            }
        }
    }
    results
}


/// What every generated voicing satisfies: it covers all strings; at least
/// three strings sound; every sounding pitch class is a target; when all
/// targets are required, each sounds; every played fret is a given
/// position on its string and not behind the capo; without open strings no
/// played fret is the capo fret; and any two played frets other than the
/// capo fret lie within `max_stretch` of each other.
pub proof fn lemma_generated_voicing_properties(
    c: Seq<Option<u8>>,
    targets: Seq<Note>,
    coords: Seq<NoteCoordinate>,
    string_count: int,
    open_strings: Seq<u8>,
    config: VoicingConfig,
)
    requires
        generated_shape(c, targets, coords, string_count, open_strings, config),
    ensures
        c.len() == string_count,
        count_played(c) >= 3,
        forall|s: int|
            0 <= s < c.len() && (#[trigger] c[s]) is Some ==> {
                &&& has_pitch_class(targets, string_pitch(open_strings[s], fret_of(c[s])) as int)
                &&& on_board(coords, s, fret_of(c[s]))
                &&& fret_of(c[s]) >= config.capo_fret
                &&& (!config.allow_open_strings ==> fret_of(c[s]) != config.capo_fret)
            },
        config.require_all_target_notes ==> forall|b: u16|
            b < 12 && #[trigger] has_pitch_class(targets, b as int) ==> plays_pitch(
                c,
                open_strings,
                b,
            ),
        forall|s: int, t: int|
            0 <= s < c.len() && 0 <= t < c.len() && (#[trigger] c[s]) is Some && (#[trigger] c[t]) is Some
                && fret_of(c[s]) != config.capo_fret && fret_of(c[t]) != config.capo_fret
                ==> fret_of(c[s]) <= fret_of(c[t]) + config.max_stretch,
{
    let ws = choose|ws: int|
        search_start(config) <= ws <= search_end(coords, config) && #[trigger] shape_fits_window(
            c,
            coords,
            string_count,
            config,
            ws,
        );
    assert forall|s: int| 0 <= s < c.len() && (#[trigger] c[s]) is Some implies {
        &&& on_board(coords, s, fret_of(c[s]))
        &&& fret_of(c[s]) >= config.capo_fret
        &&& (!config.allow_open_strings ==> fret_of(c[s]) != config.capo_fret)
        &&& (fret_of(c[s]) != config.capo_fret ==> ws <= fret_of(c[s]) <= ws + config.max_stretch)
    } by {
        assert(fret_playable(coords, config, s, fret_of(c[s]), ws));
    }
}

// ---------------------------------------------------------------------------
// The validity check as bit sets
// ---------------------------------------------------------------------------

/// The set of pitch classes the played strings of `c` sound, as bits.
pub open spec fn played_mask(c: Seq<Option<u8>>, open_strings: Seq<u8>) -> u16
    decreases c.len(),
{
    if c.len() == 0 {
        0u16
    } else {
        let m = played_mask(c.drop_last(), open_strings);
        match c.last() {
            Some(f) => m | (1u16 << string_pitch(open_strings[c.len() - 1], f)),
            None => m,
        }
    }
}

proof fn lemma_played_mask_bits(c: Seq<Option<u8>>, open_strings: Seq<u8>)
    ensures
        forall|b: u16| b < 16 ==> (#[trigger] mask_bit(played_mask(c, open_strings), b) <==> plays_pitch(
            c,
            open_strings,
            b,
        )),
    decreases c.len(),
{
    if c.len() == 0 {
        assert forall|b: u16| b < 16 implies (#[trigger] mask_bit(played_mask(c, open_strings), b)
            <==> plays_pitch(c, open_strings, b)) by {
            lemma_mask_empty(b);
        }
    } else {
        let d = c.drop_last();
        let n = c.len() - 1;
        lemma_played_mask_bits(d, open_strings);
        let m = played_mask(d, open_strings);
        assert forall|b: u16| b < 16 implies (#[trigger] mask_bit(played_mask(c, open_strings), b)
            <==> plays_pitch(c, open_strings, b)) by {
            if plays_pitch(d, open_strings, b) {
                let s = choose|s: int|
                    0 <= s < d.len() && (#[trigger] d[s]) is Some && string_pitch(
                        open_strings[s],
                        fret_of(d[s]),
                    ) == b;
                assert(c[s] == d[s]);
            }
            if plays_pitch(c, open_strings, b) {
                let s = choose|s: int|
                    0 <= s < c.len() && (#[trigger] c[s]) is Some && string_pitch(
                        open_strings[s],
                        fret_of(c[s]),
                    ) == b;
                if s < n {
                    assert(d[s] == c[s]);
                }
            }
            match c.last() {
                Some(f) => {
                    let pc = string_pitch(open_strings[n], f);
                    lemma_mask_insert(m, pc, b);
                    assert(c[n] == c.last());
                },
                None => {
                    assert(c[n] == c.last());
                },
            }
        }
    }
}

/// The validity check in bit-set form: a shape is a valid chord over
/// `target_mask` exactly when at least three strings sound, the played
/// pitch classes have no bit outside the mask, and, when all targets are
/// required, they cover the mask.
pub proof fn lemma_valid_chord_bitmask(
    c: Seq<Option<u8>>,
    target_mask: u16,
    open_strings: Seq<u8>,
    require_all: bool,
)
    ensures
        valid_for_mask(c, target_mask, open_strings, require_all) <==> {
            &&& count_played(c) >= 3
            &&& (played_mask(c, open_strings) & !target_mask) == 0
            &&& (require_all ==> (played_mask(c, open_strings) & target_mask) == target_mask)
        },
{
    let pm = played_mask(c, open_strings);
    lemma_played_mask_bits(c, open_strings);
    lemma_mask_subset(pm, target_mask);
    lemma_played_bits_subset(c, open_strings, pm, target_mask);
    lemma_mask_covers(pm, target_mask);
}

// ---------------------------------------------------------------------------
// The generated shapes by the spread of their frets
// ---------------------------------------------------------------------------

/// String `s` of `c` is fretted at a fret other than the capo fret.
pub open spec fn fretted_above_capo(c: Seq<Option<u8>>, cap: u8, s: int) -> bool {
    0 <= s < c.len() && c[s] is Some && fret_of(c[s]) != cap
}

/// Any two frets of `c` other than the capo fret lie within `max_stretch`
/// of each other (the spread of the fretted notes is at most the stretch).
pub open spec fn within_stretch(c: Seq<Option<u8>>, config: VoicingConfig) -> bool {
    forall|s: int, t: int|
        #[trigger] fretted_above_capo(c, config.capo_fret, s) && #[trigger] fretted_above_capo(
            c,
            config.capo_fret,
            t,
        ) ==> fret_of(c[s]) <= fret_of(c[t]) + config.max_stretch
}

/// `c` has an entry for each of `string_count` strings, and each played
/// fret is a given position on its string that is either the capo fret
/// (played open, where that is allowed) or above it.
pub open spec fn frets_on_board(
    c: Seq<Option<u8>>,
    coords: Seq<NoteCoordinate>,
    string_count: int,
    config: VoicingConfig,
) -> bool {
    &&& c.len() == string_count
    &&& forall|s: int|
        0 <= s < c.len() && (#[trigger] c[s]) is Some ==> {
            &&& on_board(coords, s, fret_of(c[s]))
            &&& if fret_of(c[s]) == config.capo_fret {
                config.allow_open_strings
            } else {
                fret_of(c[s]) > config.capo_fret
            }
        }
}

proof fn lowest_fretted(c: Seq<Option<u8>>, cap: u8, n: int) -> (s0: int)
    requires
        0 <= n <= c.len(),
        exists|s: int| 0 <= s < n && #[trigger] fretted_above_capo(c, cap, s),
    ensures
        0 <= s0 < n,
        fretted_above_capo(c, cap, s0),
        forall|t: int|
            0 <= t < n && #[trigger] fretted_above_capo(c, cap, t) ==> fret_of(c[s0]) <= fret_of(c[t]),
    decreases n,
{
    if exists|s: int| 0 <= s < n - 1 && #[trigger] fretted_above_capo(c, cap, s) {
        let s1 = lowest_fretted(c, cap, n - 1);
        if fretted_above_capo(c, cap, n - 1) && fret_of(c[n - 1]) < fret_of(c[s1]) {
            n - 1
        } else {
            s1
        }
    } else {
        let s = choose|s: int| 0 <= s < n && #[trigger] fretted_above_capo(c, cap, s);
        assert(s == n - 1);
        assert forall|t: int| 0 <= t < n && #[trigger] fretted_above_capo(c, cap, t) implies fret_of(
            c[s],
        ) <= fret_of(c[t]) by {
            assert(!(0 <= t < n - 1 && fretted_above_capo(c, cap, t)));
        }
        s
    }
}

proof fn lemma_window_gives_spread(
    c: Seq<Option<u8>>,
    coords: Seq<NoteCoordinate>,
    string_count: int,
    config: VoicingConfig,
    ws: int,
)
    requires
        search_start(config) <= ws,
        shape_fits_window(c, coords, string_count, config, ws),
    ensures
        frets_on_board(c, coords, string_count, config),
        within_stretch(c, config),
{
    let cap = config.capo_fret;
    let ms = config.max_stretch;
    assert forall|s: int| 0 <= s < c.len() && (#[trigger] c[s]) is Some implies ({
        &&& on_board(coords, s, fret_of(c[s]))
        &&& if fret_of(c[s]) == cap {
            config.allow_open_strings
        } else {
            fret_of(c[s]) > cap
        }
    }) && (fret_of(c[s]) != cap ==> ws <= fret_of(c[s]) <= ws + ms) by {
        assert(fret_playable(coords, config, s, fret_of(c[s]), ws));
    }
    assert forall|s: int, t: int|
        #[trigger] fretted_above_capo(c, cap, s) && #[trigger] fretted_above_capo(c, cap, t) implies fret_of(
            c[s],
        ) <= fret_of(c[t]) + ms by {
        assert(c[s] is Some && c[t] is Some);
    }
}

proof fn lemma_spread_gives_window_at(
    c: Seq<Option<u8>>,
    coords: Seq<NoteCoordinate>,
    string_count: int,
    config: VoicingConfig,
    s0: int,
)
    requires
        frets_on_board(c, coords, string_count, config),
        within_stretch(c, config),
        fretted_above_capo(c, config.capo_fret, s0),
        forall|t: int|
            0 <= t < c.len() && #[trigger] fretted_above_capo(c, config.capo_fret, t) ==> fret_of(c[s0])
                <= fret_of(c[t]),
    ensures
        exists|ws: int|
            search_start(config) <= ws <= search_end(coords, config) && #[trigger] shape_fits_window(
                c,
                coords,
                string_count,
                config,
                ws,
            ),
{
    let cap = config.capo_fret;
    let ms = config.max_stretch;
    let m = fret_of(c[s0]) as int;
    let end = search_end(coords, config);
    let ws = if m <= end {
        m
    } else {
        end
    };
    assert(c[s0] is Some);
    assert(search_start(config) == cap + 1);
    assert forall|s: int| 0 <= s < string_count implies match #[trigger] c[s] {
        None => true,
        Some(f) => fret_playable(coords, config, s, f, ws),
    } by {
        if c[s] is Some {
            let f = fret_of(c[s]);
            if f != cap {
                assert(fretted_above_capo(c, cap, s));
                assert(fret_of(c[s0]) <= f);
                assert(f <= fret_of(c[s0]) + ms);
                let i = choose|i: int|
                    0 <= i < coords.len() && (#[trigger] coords[i]).string_index == s && coords[i].fret
                        == f;
                lemma_highest_fret_bound(coords, i);
            }
        }
    }
    assert(shape_fits_window(c, coords, string_count, config, ws));
}

proof fn lemma_no_fretted_fits_first_window(
    c: Seq<Option<u8>>,
    coords: Seq<NoteCoordinate>,
    string_count: int,
    config: VoicingConfig,
)
    requires
        frets_on_board(c, coords, string_count, config),
        !exists|s: int| 0 <= s < c.len() && #[trigger] fretted_above_capo(c, config.capo_fret, s),
    ensures
        search_start(config) <= search_end(coords, config),
        shape_fits_window(c, coords, string_count, config, search_start(config)),
{
    let cap = config.capo_fret;
    let ws = search_start(config);
    assert forall|s: int| 0 <= s < string_count implies match #[trigger] c[s] {
        None => true,
        Some(f) => fret_playable(coords, config, s, f, ws),
    } by {
        if c[s] is Some {
            assert(!fretted_above_capo(c, cap, s));
        }
    }
}

proof fn lemma_spread_gives_window(
    c: Seq<Option<u8>>,
    coords: Seq<NoteCoordinate>,
    string_count: int,
    config: VoicingConfig,
)
    requires
        frets_on_board(c, coords, string_count, config),
        within_stretch(c, config),
    ensures
        exists|ws: int|
            search_start(config) <= ws <= search_end(coords, config) && #[trigger] shape_fits_window(
                c,
                coords,
                string_count,
                config,
                ws,
            ),
{
    let cap = config.capo_fret;
    if exists|s: int| 0 <= s < c.len() && #[trigger] fretted_above_capo(c, cap, s) {
        let s0 = lowest_fretted(c, cap, c.len() as int);
        lemma_spread_gives_window_at(c, coords, string_count, config, s0);
    } else {
        lemma_no_fretted_fits_first_window(c, coords, string_count, config);
    }
}

/// The generated shapes described without windows: a shape is generated
/// exactly when it has an entry per string, every played fret is a given
/// position that is the capo fret (with open strings allowed) or above it,
/// the fretted notes other than the capo fret span at most `max_stretch`
/// frets, and it is a chord over the targets.
pub proof fn lemma_generated_shape_by_spread(
    c: Seq<Option<u8>>,
    targets: Seq<Note>,
    coords: Seq<NoteCoordinate>,
    string_count: int,
    open_strings: Seq<u8>,
    config: VoicingConfig,
)
    ensures
        generated_shape(c, targets, coords, string_count, open_strings, config) <==> {
            &&& frets_on_board(c, coords, string_count, config)
            &&& within_stretch(c, config)
            &&& valid_for_targets(c, targets, open_strings, config.require_all_target_notes)
        },
{
    if exists|ws: int|
        search_start(config) <= ws <= search_end(coords, config) && #[trigger] shape_fits_window(
            c,
            coords,
            string_count,
            config,
            ws,
        ) {
        let ws = choose|ws: int|
            search_start(config) <= ws <= search_end(coords, config) && #[trigger] shape_fits_window(
                c,
                coords,
                string_count,
                config,
                ws,
            );
        lemma_window_gives_spread(c, coords, string_count, config, ws);
    }
    if frets_on_board(c, coords, string_count, config) && within_stretch(c, config) {
        lemma_spread_gives_window(c, coords, string_count, config);
    }
}

} // verus!
