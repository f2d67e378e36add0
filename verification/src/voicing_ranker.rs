//! Scoring and ordering of voicings by playability.
use vstd::prelude::*;
use crate::voicing::{copy_shape, count_played, Voicing};

verus! {

broadcast use vstd::seq_lib::group_seq_properties;

/// How voicings are ordered.
#[derive(Debug, Clone, Copy, PartialEq, Eq, Structural)]
pub enum RankingStrategy {
    /// Highest playability score first.
    MostPlayable,
    /// Lowest position on the neck first (ties keep the playability order).
    LowestPosition,
}

/// A voicing with its playability score.
#[derive(Debug, Clone, PartialEq, Eq)]
pub struct VoicingScore {
    pub voicing: Voicing,
    pub score: i32,
}

/// The lowest played fret, if any string is played.
pub open spec fn min_played(c: Seq<Option<u8>>) -> Option<u8>
    decreases c.len(),
{
    if c.len() == 0 {
        None
    } else {
        let prev = min_played(c.drop_last());
        match c.last() {
            None => prev,
            Some(f) => match prev {
                None => Some(f),
                Some(m) => Some(if f < m { f } else { m }),
            },
        }
    }
}

/// The highest played fret, if any string is played.
pub open spec fn max_played(c: Seq<Option<u8>>) -> Option<u8>
    decreases c.len(),
{
    if c.len() == 0 {
        None
    } else {
        let prev = max_played(c.drop_last());
        match c.last() {
            None => prev,
            Some(f) => match prev {
                None => Some(f),
                Some(m) => Some(if f > m { f } else { m }),
            },
        }
    }
}

/// Number of unplayed strings.
pub open spec fn count_unplayed(c: Seq<Option<u8>>) -> int {
    c.len() - count_played(c)
}

/// Playability score: 0 when no string is played; otherwise twice the
/// stretch (highest minus lowest played fret) is subtracted, three points
/// are added per unplayed string, and half the lowest played fret (rounded
/// down) is subtracted.
pub open spec fn spec_score(c: Seq<Option<u8>>) -> int {
    match (min_played(c), max_played(c)) {
        (Some(lo), Some(hi)) => -(hi - lo) * 2 + count_unplayed(c) * 3 - lo / 2,
        _ => 0,
    }
}

/// The lowest played fret, or 0 when no string is played.
pub open spec fn low_fret(c: Seq<Option<u8>>) -> int {
    match min_played(c) {
        Some(m) => m as int,
        None => 0,
    }
}

proof fn lemma_played_step(c: Seq<Option<u8>>, i: int)
    requires
        0 <= i < c.len(),
    ensures
        c.take(i + 1).drop_last() == c.take(i),
        c.take(i + 1).last() == c[i],
{
    assert(c.take(i + 1).drop_last() =~= c.take(i));
}

/// Scores a voicing by how easy it is to play.
pub fn score_voicing(voicing: &Voicing) -> (s: i32)
    requires
        count_unplayed(voicing.frets@) * 3 <= i32::MAX,
    ensures
        s == spec_score(voicing.frets@),
{
    let ghost c = voicing.frets@;
    let n = voicing.frets.len();
    let mut lo: Option<u8> = None;
    let mut hi: Option<u8> = None;
    let mut played: usize = 0;
    let mut i: usize = 0;
    while i < n
        invariant
            n == c.len(),
            c == voicing.frets@,
            i <= n,
            lo == min_played(c.take(i as int)),
            hi == max_played(c.take(i as int)),
            played == count_played(c.take(i as int)),
            played <= i,
        decreases n - i,
    {
        proof {
            lemma_played_step(c, i as int);
        }
        match voicing.frets[i] {
            Some(f) => {
                played = played + 1;
                lo = match lo {
                    None => Some(f),
                    Some(m) => Some(if f < m { f } else { m }),
                };
                hi = match hi {
                    None => Some(f),
                    Some(m) => Some(if f > m { f } else { m }),
                };
            },
            None => {},
        }
        i = i + 1;
    }
    assert(c.take(n as int) =~= c);
    match (lo, hi) {
        (Some(min_fret), Some(max_fret)) => {
            let stretch: i32 = max_fret as i32 - min_fret as i32;
            let open_count: i32 = (n - played) as i32;
            let stretch_penalty: i32 = -stretch * 2;
            let open_bonus: i32 = open_count * 3;
            let position_bonus: i32 = -((min_fret / 2) as i32);
            proof {
                assert(min_fret <= max_fret) by {
                    lemma_min_le_max(c);
                }
            }
            stretch_penalty + open_bonus + position_bonus
        },
        _ => 0,
    }
}

proof fn lemma_min_le_max(c: Seq<Option<u8>>)
    ensures
        min_played(c) is Some <==> max_played(c) is Some,
        min_played(c) matches Some(lo) ==> max_played(c) matches Some(hi) && lo <= hi,
    decreases c.len(),
{
    if c.len() > 0 {
        lemma_min_le_max(c.drop_last());
    }
}

// ---------------------------------------------------------------------------
// Stable ordering
// ---------------------------------------------------------------------------

/// What ordering looks at in a scored voicing: its shape and its score.
pub open spec fn entry_view(e: VoicingScore) -> (Seq<Option<u8>>, int) {
    (e.voicing.frets@, e.score as int)
}

pub open spec fn entry_views(es: Seq<VoicingScore>) -> Seq<(Seq<Option<u8>>, int)> {
    es.map_values(|e: VoicingScore| entry_view(e))
}

/// The scored view of each input voicing, in input order.
pub open spec fn scored_views(vs: Seq<Voicing>) -> Seq<(Seq<Option<u8>>, int)> {
    vs.map_values(|v: Voicing| (v.frets@, spec_score(v.frets@)))
}

/// Sort key: the lowest played fret, or the negated score (so that
/// ascending order puts the best score first).
pub open spec fn sort_key(x: (Seq<Option<u8>>, int), by_low: bool) -> int {
    if by_low {
        low_fret(x.0)
    } else {
        -x.1
    }
}

/// The entries of `s` whose key is `k`, in their order in `s`.
pub open spec fn key_class(s: Seq<(Seq<Option<u8>>, int)>, by_low: bool, k: int) -> Seq<
    (Seq<Option<u8>>, int),
> {
    s.filter(|y: (Seq<Option<u8>>, int)| sort_key(y, by_low) == k)
}

/// `r` is `s` stably sorted by key: the keys ascend, and the entries with
/// any one key come in the same order as in `s`.
pub open spec fn is_stable_sort_of(
    r: Seq<(Seq<Option<u8>>, int)>,
    s: Seq<(Seq<Option<u8>>, int)>,
    by_low: bool,
) -> bool {
    &&& r.len() == s.len()
    &&& forall|i: int, j: int|
        0 <= i < j < r.len() ==> sort_key(r[i], by_low) <= sort_key(r[j], by_low)
    &&& forall|k: int| #[trigger] key_class(r, by_low, k) == key_class(s, by_low, k)
}

proof fn lemma_key_class_single(x: (Seq<Option<u8>>, int), by_low: bool, k: int)
    ensures
        key_class(seq![x], by_low, k) == (if sort_key(x, by_low) == k {
            seq![x]
        } else {
            Seq::<(Seq<Option<u8>>, int)>::empty()
        }),
{
    reveal_with_fuel(Seq::filter, 2);
    assert(seq![x].drop_last() =~= Seq::<(Seq<Option<u8>>, int)>::empty());
}

proof fn lemma_key_class_concat(
    a: Seq<(Seq<Option<u8>>, int)>,
    b: Seq<(Seq<Option<u8>>, int)>,
    by_low: bool,
    k: int,
)
    ensures
        key_class(a + b, by_low, k) == key_class(a, by_low, k) + key_class(b, by_low, k),
{
    Seq::filter_distributes_over_add(
        a,
        b,
        |y: (Seq<Option<u8>>, int)| sort_key(y, by_low) == k,
    );
}

proof fn lemma_key_class_none(s: Seq<(Seq<Option<u8>>, int)>, by_low: bool, k: int)
    requires
        forall|i: int| 0 <= i < s.len() ==> sort_key(#[trigger] s[i], by_low) != k,
    ensures
        key_class(s, by_low, k) == Seq::<(Seq<Option<u8>>, int)>::empty(),
{
    let pred = |y: (Seq<Option<u8>>, int)| sort_key(y, by_low) == k;
    assert(s.all(|x: (Seq<Option<u8>>, int)| !pred(x)));
    s.lemma_all_neg_filter_empty(pred);
}

fn entry_key(e: &VoicingScore, by_low: bool) -> (k: i64)
    ensures
        k == sort_key(entry_view(*e), by_low),
{
    if by_low {
        let ghost c = e.voicing.frets@;
        let n = e.voicing.frets.len();
        let mut lo: Option<u8> = None;
        let mut i: usize = 0;
        while i < n
            invariant
                n == c.len(),
                c == e.voicing.frets@,
                i <= n,
                lo == min_played(c.take(i as int)),
            decreases n - i,
        {
            proof {
                lemma_played_step(c, i as int);
            }
            match e.voicing.frets[i] {
                Some(f) => {
                    lo = match lo {
                        None => Some(f),
                        Some(m) => Some(if f < m { f } else { m }),
                    };
                },
                None => {},
            }
            i = i + 1;
        }
        assert(c.take(n as int) =~= c);
        match lo {
            Some(m) => m as i64,
            None => 0,
        }
    } else {
        -(e.score as i64)
    }
}

fn copy_entry(e: &VoicingScore) -> (r: VoicingScore)
    ensures
        entry_view(r) == entry_view(*e),
{
    VoicingScore { voicing: Voicing { frets: copy_shape(&e.voicing.frets) }, score: e.score }
}

/// Stable insertion sort of `items` by `sort_key`.
fn stable_sort_by_key(items: &Vec<VoicingScore>, by_low: bool) -> (r: Vec<VoicingScore>)
    ensures
        is_stable_sort_of(entry_views(r@), entry_views(items@), by_low),
{
    let ghost orig = entry_views(items@);
    let n = items.len();
    let mut result: Vec<VoicingScore> = Vec::new();
    let mut i: usize = 0;
    while i < n
        invariant
            n == items@.len(),
            orig == entry_views(items@),
            i <= n,
            is_stable_sort_of(entry_views(result@), orig.take(i as int), by_low),
        decreases n - i,
    {
        let x = copy_entry(&items[i]);
        let kx = entry_key(&x, by_low);
        let ghost rv = entry_views(result@);
        let ghost vx = entry_view(x);
        assert(vx == orig[i as int]);
        let m = result.len();
        let mut pos: usize = 0;
        while pos < m && entry_key(&result[pos], by_low) <= kx
            invariant
                m == result@.len(),
                rv == entry_views(result@),
                pos <= m,
                forall|j: int| 0 <= j < pos ==> sort_key(#[trigger] rv[j], by_low) <= kx,
            decreases m - pos,
        {
            pos = pos + 1;
        }
        proof {
            // Entries from `pos` on all have a key above `kx`.
            assert forall|j: int| pos <= j < m implies sort_key(#[trigger] rv[j], by_low) > kx by {
                assert(sort_key(rv[pos as int], by_low) > kx);
                assert(sort_key(rv[pos as int], by_low) <= sort_key(rv[j], by_low));
            }
        }
        result.insert(pos, x);
        proof {
            let nv = entry_views(result@);
            let pre = rv.take(pos as int);
            let post = rv.skip(pos as int);
            assert(nv =~= pre + seq![vx] + post);
            assert(rv =~= pre + post);
            let src = orig.take(i as int);
            let src2 = orig.take(i + 1);
            assert(src2 =~= src + seq![vx]);
            assert forall|k: int| #[trigger] key_class(nv, by_low, k) == key_class(src2, by_low, k) by {
                lemma_key_class_concat(pre + seq![vx], post, by_low, k);
                lemma_key_class_concat(pre, seq![vx], by_low, k);
                lemma_key_class_concat(pre, post, by_low, k);
                lemma_key_class_concat(src, seq![vx], by_low, k);
                lemma_key_class_single(vx, by_low, k);
                assert(key_class(rv, by_low, k) == key_class(src, by_low, k));
                if k == kx {
                    assert forall|j: int| 0 <= j < post.len() implies sort_key(#[trigger] post[j], by_low) != k by {
                        assert(post[j] == rv[pos + j]);
                    }
                    lemma_key_class_none(post, by_low, k);
                    assert(key_class(pre, by_low, k) + key_class(post, by_low, k) =~= key_class(pre, by_low, k));
                    assert(key_class(pre, by_low, k) + seq![vx] + key_class(post, by_low, k)
                        =~= key_class(pre, by_low, k) + seq![vx]);
                } else {
                    assert(key_class(pre, by_low, k) + Seq::<(Seq<Option<u8>>, int)>::empty()
                        =~= key_class(pre, by_low, k));
                    assert(key_class(src, by_low, k) + Seq::<(Seq<Option<u8>>, int)>::empty()
                        =~= key_class(src, by_low, k));
                }
            }
            assert forall|a: int, b: int| 0 <= a < b < nv.len() implies sort_key(nv[a], by_low)
                <= sort_key(nv[b], by_low) by {
                if a < pos && b < pos {
                    assert(nv[a] == rv[a] && nv[b] == rv[b]);
                } else if a < pos && b == pos {
                    assert(nv[a] == rv[a]);
                } else if a < pos {
                    assert(nv[a] == rv[a] && nv[b] == rv[b - 1]);
                } else if a == pos {
                    assert(nv[b] == rv[b - 1]);
                } else {
                    assert(nv[a] == rv[a - 1] && nv[b] == rv[b - 1]);
                }
            }
        }
        i = i + 1;
    }
    assert(orig.take(n as int) =~= orig);
    result
}

/// Scores every voicing and orders them: `MostPlayable` by descending
/// score; `LowestPosition` by ascending lowest played fret, ties in
/// descending score. Both orders are stable, so entries with equal keys
/// keep the order of the input.
pub fn rank_voicings(voicings: Vec<Voicing>, strategy: RankingStrategy) -> (r: Vec<VoicingScore>)
    requires
        forall|i: int|
            0 <= i < voicings@.len() ==> count_unplayed((#[trigger] voicings@[i]).frets@) * 3
                <= i32::MAX,
    ensures
        strategy == RankingStrategy::MostPlayable ==> is_stable_sort_of(
            entry_views(r@),
            scored_views(voicings@),
            false,
        ),
        strategy == RankingStrategy::LowestPosition ==> exists|mid: Seq<(Seq<Option<u8>>, int)>|
            is_stable_sort_of(mid, scored_views(voicings@), false) && is_stable_sort_of(
                entry_views(r@),
                mid,
                true,
            ),
        r@.len() == voicings@.len(),
        entry_views(r@).to_multiset() == scored_views(voicings@).to_multiset(),
        forall|i: int| 0 <= i < r@.len() ==> (#[trigger] r@[i]).score == spec_score(r@[i].voicing.frets@),
        strategy == RankingStrategy::MostPlayable ==> forall|i: int, j: int|
            0 <= i < j < r@.len() ==> (#[trigger] r@[i]).score >= (#[trigger] r@[j]).score,
        strategy == RankingStrategy::LowestPosition ==> forall|i: int, j: int|
            0 <= i < j < r@.len() ==> low_fret((#[trigger] r@[i]).voicing.frets@) <= low_fret(
                (#[trigger] r@[j]).voicing.frets@,
            ) && (low_fret(r@[i].voicing.frets@) == low_fret(r@[j].voicing.frets@) ==> r@[i].score
                >= r@[j].score),
{
    let n = voicings.len();
    let mut scored: Vec<VoicingScore> = Vec::new();
    let mut i: usize = 0;
    while i < n
        invariant
            n == voicings@.len(),
            i <= n,
            forall|j: int|
                0 <= j < voicings@.len() ==> count_unplayed((#[trigger] voicings@[j]).frets@) * 3
                    <= i32::MAX,
            entry_views(scored@) == scored_views(voicings@).take(i as int),
        decreases n - i,
    {
        let v = &voicings[i];
        let score = score_voicing(v);
        let e = VoicingScore { voicing: Voicing { frets: copy_shape(&v.frets) }, score };
        let ghost prev = scored@;
        scored.push(e);
        proof {
            let a = entry_views(scored@);
            let b = scored_views(voicings@).take(i + 1);
            assert(entry_views(prev).len() == prev.len());
            assert(prev.len() == i);
            assert(scored@ == prev.push(e));
            assert forall|j: int| 0 <= j < a.len() implies a[j] == b[j] by {
                if j < i {
                    assert(scored@[j] == prev[j]);
                    assert(entry_views(prev)[j] == a[j]);
                }
            }
            assert(a =~= b);
        }
        i = i + 1;
    }
    assert(scored_views(voicings@).take(n as int) =~= scored_views(voicings@));
    let by_score = stable_sort_by_key(&scored, false);
    let ghost sv = scored_views(voicings@);
    let ghost mid = entry_views(by_score@);
    let r = match strategy {
        RankingStrategy::MostPlayable => by_score,
        RankingStrategy::LowestPosition => stable_sort_by_key(&by_score, true),
    };
    proof {
        let rv = entry_views(r@);
        assert forall|i: int| 0 <= i < r@.len() implies rv[i] == (r@[i].voicing.frets@, r@[i].score as int) by {}
        let by_low = strategy == RankingStrategy::LowestPosition;
        if by_low {
            lemma_stable_sort_same_entries(mid, sv, false);
            lemma_stable_sort_same_entries(rv, mid, true);
            lemma_lowest_position_ties_by_score(rv, mid, sv);
            lemma_stable_sort_same_multiset(mid, sv, false);
            lemma_stable_sort_same_multiset(rv, mid, true);
        } else {
            lemma_stable_sort_same_entries(rv, sv, false);
            lemma_stable_sort_same_multiset(rv, sv, false);
        }
        assert forall|i: int| 0 <= i < r@.len() implies (#[trigger] r@[i]).score == spec_score(
            r@[i].voicing.frets@,
        ) by {
            assert(rv.contains(rv[i]));
            assert(sv.contains(rv[i]));
            let x = choose|x: int| 0 <= x < sv.len() && sv[x] == rv[i];
            assert(sv[x] == (voicings@[x].frets@, spec_score(voicings@[x].frets@)));
        }
        if !by_low {
            assert forall|i: int, j: int| 0 <= i < j < r@.len() implies (#[trigger] r@[i]).score
                >= (#[trigger] r@[j]).score by {
                assert(sort_key(rv[i], false) <= sort_key(rv[j], false));
            }
        } else {
            assert forall|i: int, j: int| 0 <= i < j < r@.len() implies low_fret(
                (#[trigger] r@[i]).voicing.frets@,
            ) <= low_fret((#[trigger] r@[j]).voicing.frets@) && (low_fret(r@[i].voicing.frets@)
                == low_fret(r@[j].voicing.frets@) ==> r@[i].score >= r@[j].score) by {
                assert(rv[i] == (r@[i].voicing.frets@, r@[i].score as int));
                assert(rv[j] == (r@[j].voicing.frets@, r@[j].score as int));
            }
        }
    }
    r
}


// ---------------------------------------------------------------------------
// Laws
// ---------------------------------------------------------------------------

/// Ranking neither loses nor invents entries: an entry is in the stably
/// sorted sequence exactly when it is in the input.
pub proof fn lemma_stable_sort_same_entries(
    r: Seq<(Seq<Option<u8>>, int)>,
    s: Seq<(Seq<Option<u8>>, int)>,
    by_low: bool,
)
    requires
        is_stable_sort_of(r, s, by_low),
    ensures
        forall|x: (Seq<Option<u8>>, int)| r.contains(x) <==> s.contains(x),
{
    assert forall|x: (Seq<Option<u8>>, int)| r.contains(x) <==> s.contains(x) by {
        let k = sort_key(x, by_low);
        let pred = |y: (Seq<Option<u8>>, int)| sort_key(y, by_low) == k;
        assert(key_class(r, by_low, k) == key_class(s, by_low, k));
        if s.contains(x) {
            let i = choose|i: int| 0 <= i < s.len() && s[i] == x;
            s.lemma_filter_contains(pred, i);
            r.lemma_filter_contains_rev(pred, x);
        }
        if r.contains(x) {
            let i = choose|i: int| 0 <= i < r.len() && r[i] == x;
            r.lemma_filter_contains(pred, i);
            s.lemma_filter_contains_rev(pred, x);
        }
    }
}

proof fn lemma_key_class_last(a: Seq<(Seq<Option<u8>>, int)>, by_low: bool, k: int)
    requires
        a.len() > 0,
    ensures
        key_class(a, by_low, k) == if sort_key(a.last(), by_low) == k {
            key_class(a.drop_last(), by_low, k).push(a.last())
        } else {
            key_class(a.drop_last(), by_low, k)
        },
{
    reveal(Seq::filter);
}

proof fn lemma_sorted_same_classes_equal(
    a: Seq<(Seq<Option<u8>>, int)>,
    b: Seq<(Seq<Option<u8>>, int)>,
    by_low: bool,
)
    requires
        forall|i: int, j: int| 0 <= i < j < a.len() ==> sort_key(a[i], by_low) <= sort_key(a[j], by_low),
        forall|i: int, j: int| 0 <= i < j < b.len() ==> sort_key(b[i], by_low) <= sort_key(b[j], by_low),
        forall|k: int| #[trigger] key_class(a, by_low, k) == key_class(b, by_low, k),
    ensures
        a == b,
    decreases a.len() + b.len(),
{
    if a.len() == 0 && b.len() == 0 {
        assert(a =~= b);
    } else if a.len() == 0 || b.len() == 0 {
        let (full, empty) = if a.len() == 0 { (b, a) } else { (a, b) };
        let x = full[0];
        let k = sort_key(x, by_low);
        let pred = |y: (Seq<Option<u8>>, int)| sort_key(y, by_low) == k;
        full.lemma_filter_contains(pred, 0);
        assert(key_class(full, by_low, k) == key_class(empty, by_low, k));
        empty.lemma_filter_contains_rev(pred, x);
        assert(false);
    } else {
        let x = a.last();
        let y = b.last();
        let kx = sort_key(x, by_low);
        let ky = sort_key(y, by_low);
        let px = |z: (Seq<Option<u8>>, int)| sort_key(z, by_low) == kx;
        let py = |z: (Seq<Option<u8>>, int)| sort_key(z, by_low) == ky;
        a.lemma_filter_contains(px, a.len() - 1);
        assert(key_class(a, by_low, kx) == key_class(b, by_low, kx));
        assert(key_class(b, by_low, kx).contains(x));
        let j = choose|j: int| 0 <= j < key_class(b, by_low, kx).len() && key_class(b, by_low, kx)[j] == x;
        b.lemma_filter_pred(px, j);
        b.lemma_filter_contains_rev(px, x);
        let bi = choose|i: int| 0 <= i < b.len() && b[i] == x;
        if bi < b.len() - 1 {
            assert(sort_key(b[bi], by_low) <= sort_key(b[b.len() - 1], by_low));
        }
        assert(kx <= ky);
        b.lemma_filter_contains(py, b.len() - 1);
        assert(key_class(b, by_low, ky) == key_class(a, by_low, ky));
        a.lemma_filter_contains_rev(py, y);
        let ai = choose|i: int| 0 <= i < a.len() && a[i] == y;
        if ai < a.len() - 1 {
            assert(sort_key(a[ai], by_low) <= sort_key(a[a.len() - 1], by_low));
        }
        assert(ky <= kx);
        lemma_key_class_last(a, by_low, kx);
        lemma_key_class_last(b, by_low, kx);
        assert(x == y) by {
            let ca = key_class(a.drop_last(), by_low, kx).push(x);
            let cb = key_class(b.drop_last(), by_low, kx).push(y);
            assert(ca == cb);
            assert(ca.last() == x);
            assert(cb.last() == y);
        }
        assert forall|k: int| #[trigger] key_class(a.drop_last(), by_low, k) == key_class(b.drop_last(), by_low, k) by {
            lemma_key_class_last(a, by_low, k);
            lemma_key_class_last(b, by_low, k);
            assert(key_class(a, by_low, k) == key_class(b, by_low, k));
            if k == kx {
                let ca = key_class(a.drop_last(), by_low, kx).push(x);
                let cb = key_class(b.drop_last(), by_low, kx).push(y);
                assert(ca.drop_last() =~= key_class(a.drop_last(), by_low, kx));
                assert(cb.drop_last() =~= key_class(b.drop_last(), by_low, kx));
            }
        }
        lemma_sorted_same_classes_equal(a.drop_last(), b.drop_last(), by_low);
        assert(a =~= b) by {
            assert forall|i: int| 0 <= i < a.len() implies a[i] == b[i] by {
                if i < a.len() - 1 {
                    assert(a[i] == a.drop_last()[i]);
                    assert(b[i] == b.drop_last()[i]);
                }
            }
        }
    }
}

/// The stable order is unique: any two stably sorted arrangements of the
/// same entries by the same key are identical, so ranking is determined by
/// its input.
pub proof fn lemma_stable_sort_unique(
    r1: Seq<(Seq<Option<u8>>, int)>,
    r2: Seq<(Seq<Option<u8>>, int)>,
    s: Seq<(Seq<Option<u8>>, int)>,
    by_low: bool,
)
    requires
        is_stable_sort_of(r1, s, by_low),
        is_stable_sort_of(r2, s, by_low),
    ensures
        r1 == r2,
{
    assert forall|k: int| #[trigger] key_class(r1, by_low, k) == key_class(r2, by_low, k) by {
        assert(key_class(r1, by_low, k) == key_class(s, by_low, k));
        assert(key_class(r2, by_low, k) == key_class(s, by_low, k));
    }
    lemma_sorted_same_classes_equal(r1, r2, by_low);
}

proof fn lemma_filter_keeps_order<T>(s: Seq<T>, pred: spec_fn(T) -> bool, i: int, j: int)
    requires
        0 <= i < j < s.len(),
        pred(s[i]),
        pred(s[j]),
    ensures
        exists|p: int, q: int|
            #![trigger s.filter(pred)[p], s.filter(pred)[q]]
            0 <= p < q < s.filter(pred).len() && s.filter(pred)[p] == s[i] && s.filter(pred)[q]
                == s[j],
    decreases s.len(),
{
    reveal(Seq::filter);
    let d = s.drop_last();
    let fd = d.filter(pred);
    let f = s.filter(pred);
    if j < s.len() - 1 {
        lemma_filter_keeps_order(d, pred, i, j);
        let (p, q) = choose|p: int, q: int|
            #![trigger fd[p], fd[q]]
            0 <= p < q < fd.len() && fd[p] == d[i] && fd[q] == d[j];
        assert(f[p] == fd[p] && f[q] == fd[q]);
    } else {
        assert(f == fd.push(s[j]));
        d.lemma_filter_contains(pred, i);
        let p = choose|p: int| 0 <= p < fd.len() && fd[p] == d[i];
        let q = fd.len() as int;
        assert(f[p] == s[i] && f[q] == s[j]);
    }
}

/// Scores that do not rise along `s`.
pub open spec fn scores_descend(s: Seq<(Seq<Option<u8>>, int)>) -> bool {
    forall|a: int, b: int| 0 <= a < b < s.len() ==> s[a].1 >= s[b].1
}

proof fn lemma_filter_keeps_descending_scores(
    s: Seq<(Seq<Option<u8>>, int)>,
    pred: spec_fn((Seq<Option<u8>>, int)) -> bool,
)
    requires
        scores_descend(s),
    ensures
        scores_descend(s.filter(pred)),
    decreases s.len(),
{
    reveal(Seq::filter);
    if s.len() > 0 {
        let d = s.drop_last();
        assert(scores_descend(d)) by {
            assert forall|a: int, b: int| 0 <= a < b < d.len() implies d[a].1 >= d[b].1 by {
                assert(d[a] == s[a] && d[b] == s[b]);
            }
        }
        lemma_filter_keeps_descending_scores(d, pred);
        let fd = d.filter(pred);
        if pred(s.last()) {
            let f = fd.push(s.last());
            assert forall|a: int, b: int| 0 <= a < b < f.len() implies f[a].1 >= f[b].1 by {
                if b < fd.len() {
                    assert(f[a] == fd[a] && f[b] == fd[b]);
                } else {
                    assert(f[a] == fd[a]);
                    assert(fd.contains(fd[a]));
                    d.lemma_filter_contains_rev(pred, fd[a]);
                    let x = choose|x: int| 0 <= x < d.len() && d[x] == fd[a];
                    assert(s[x] == d[x]);
                    assert(s[x].1 >= s[s.len() - 1].1);
                }
            }
        }
    }
}

/// Ordering by lowest fret after ordering by score: the lowest played
/// frets ascend, and among entries with the same lowest fret the scores
/// descend.
pub proof fn lemma_lowest_position_ties_by_score(
    r: Seq<(Seq<Option<u8>>, int)>,
    mid: Seq<(Seq<Option<u8>>, int)>,
    s: Seq<(Seq<Option<u8>>, int)>,
)
    requires
        is_stable_sort_of(mid, s, false),
        is_stable_sort_of(r, mid, true),
    ensures
        forall|i: int, j: int|
            0 <= i < j < r.len() ==> low_fret(r[i].0) <= low_fret(r[j].0) && (low_fret(r[i].0)
                == low_fret(r[j].0) ==> r[i].1 >= r[j].1),
{
    assert(scores_descend(mid)) by {
        assert forall|a: int, b: int| 0 <= a < b < mid.len() implies mid[a].1 >= mid[b].1 by {
            assert(sort_key(mid[a], false) <= sort_key(mid[b], false));
        }
    }
    assert forall|i: int, j: int| 0 <= i < j < r.len() implies low_fret(r[i].0) <= low_fret(r[j].0)
        && (low_fret(r[i].0) == low_fret(r[j].0) ==> r[i].1 >= r[j].1) by {
        assert(sort_key(r[i], true) <= sort_key(r[j], true));
        if low_fret(r[i].0) == low_fret(r[j].0) {
            let k = low_fret(r[i].0);
            let pred = |y: (Seq<Option<u8>>, int)| sort_key(y, true) == k;
            lemma_filter_keeps_order(r, pred, i, j);
            let c = r.filter(pred);
            assert(c == key_class(r, true, k));
            assert(key_class(r, true, k) == key_class(mid, true, k));
            lemma_filter_keeps_descending_scores(mid, pred);
            let (p, q) = choose|p: int, q: int|
                #![trigger c[p], c[q]]
                0 <= p < q < c.len() && c[p] == r[i] && c[q] == r[j];
            assert(c[p].1 >= c[q].1);
        }
    }
}

proof fn lemma_filter_count<T>(s: Seq<T>, pred: spec_fn(T) -> bool, x: T)
    requires
        pred(x),
    ensures
        s.filter(pred).to_multiset().count(x) == s.to_multiset().count(x),
    decreases s.len(),
{
    broadcast use vstd::multiset::group_multiset_axioms;
    reveal(Seq::filter);
    if s.len() == 0 {
        assert(s.filter(pred) =~= s);
    } else {
        let d = s.drop_last();
        lemma_filter_count(d, pred, x);
        assert(s == d.push(s.last()));
        vstd::seq_lib::to_multiset_build(d, s.last());
        if pred(s.last()) {
            vstd::seq_lib::to_multiset_build(d.filter(pred), s.last());
        }
    }
}

/// Stable sorting keeps every entry as often as it occurs: the sorted
/// sequence and the input hold the same multiset of entries.
pub proof fn lemma_stable_sort_same_multiset(
    r: Seq<(Seq<Option<u8>>, int)>,
    s: Seq<(Seq<Option<u8>>, int)>,
    by_low: bool,
)
    requires
        is_stable_sort_of(r, s, by_low),
    ensures
        r.to_multiset() == s.to_multiset(),
{
    assert forall|x: (Seq<Option<u8>>, int)| r.to_multiset().count(x) == s.to_multiset().count(x) by {
        let k = sort_key(x, by_low);
        let pred = |y: (Seq<Option<u8>>, int)| sort_key(y, by_low) == k;
        lemma_filter_count(r, pred, x);
        lemma_filter_count(s, pred, x);
        assert(r.filter(pred) == key_class(r, by_low, k));
        assert(s.filter(pred) == key_class(s, by_low, k));
        assert(key_class(r, by_low, k) == key_class(s, by_low, k));
    }
    assert(r.to_multiset() =~= s.to_multiset());
}

} // verus!
