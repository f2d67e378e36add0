//! Lookup of the built-in tunings by `instrument/tuning` key.
use vstd::prelude::*;
use crate::instrument::tuning::{
    banjo_standard_strings, bass_drop_d_strings, bass_standard_strings, guitar_drop_d_strings,
    guitar_eb_standard_strings, guitar_full_step_down_strings, guitar_standard_strings,
    mandolin_standard_strings, ukulele_standard_strings, BassTunings, GuitarTunings,
    StandardTunings, Tuning,
};
use crate::theory::note::MidiNote;
use crate::text::str_equal;

verus! {

/// Name and open strings of the built-in tuning registered under `key`.
pub open spec fn registered_tuning(key: Seq<char>) -> Option<(Seq<char>, Seq<MidiNote>)> {
    if key == "guitar/standard"@ {
        Some(("E Standard"@, guitar_standard_strings()))
    } else if key == "guitar/drop_d"@ {
        Some(("Drop D"@, guitar_drop_d_strings()))
    } else if key == "guitar/eb_standard"@ {
        Some(("Eb standard"@, guitar_eb_standard_strings()))
    } else if key == "guitar/full_step_down"@ {
        Some(("Full Step Down"@, guitar_full_step_down_strings()))
    } else if key == "bass/standard"@ {
        Some(("E Standard"@, bass_standard_strings()))
    } else if key == "bass/drop_d"@ {
        Some(("Drop D"@, bass_drop_d_strings()))
    } else if key == "banjo/standard"@ {
        Some(("Standard"@, banjo_standard_strings()))
    } else if key == "mandolin/standard"@ {
        Some(("Standard"@, mandolin_standard_strings()))
    } else if key == "ukulele/standard"@ {
        Some(("Standard"@, ukulele_standard_strings()))
    } else {
        None
    }
}

/// The tuning registered under `key` (such as `"guitar/drop_d"`), or `None`
/// for an unknown key.
pub fn get_tuning(key: &str) -> (r: Option<Tuning<'static>>)
    ensures
        match r {
            Some(t) => registered_tuning(key@) == Some((t.name@, t.strings@)),
            None => registered_tuning(key@) is None,
        },
{
    if str_equal(key, "guitar/standard") {
        Some(StandardTunings::guitar_standard())
    } else if str_equal(key, "guitar/drop_d") {
        Some(GuitarTunings::guitar_drop_d())
    } else if str_equal(key, "guitar/eb_standard") {
        Some(GuitarTunings::guitar_eb_standard())
    } else if str_equal(key, "guitar/full_step_down") {
        Some(GuitarTunings::guitar_full_step_down())
    } else if str_equal(key, "bass/standard") {
        Some(StandardTunings::bass_standard())
    } else if str_equal(key, "bass/drop_d") {
        Some(BassTunings::bass_drop_d())
    } else if str_equal(key, "banjo/standard") {
        Some(StandardTunings::banjo_standard())
    } else if str_equal(key, "mandolin/standard") {
        Some(StandardTunings::mandolin_standard())
    } else if str_equal(key, "ukulele/standard") {
        Some(StandardTunings::ukulele_standard())
    } else {
        None
    }
}

/// The open strings registered under `key` (none for an unknown key).
pub open spec fn registered_strings(key: Seq<char>) -> Seq<MidiNote> {
    match registered_tuning(key) {
        Some((_, strings)) => strings,
        None => Seq::empty(),
    }
}

proof fn lemma_reveal_keys()
    ensures
        "banjo/standard"@ != "guitar/standard"@ && "banjo/standard"@ != "guitar/drop_d"@
            && "banjo/standard"@ != "guitar/eb_standard"@ && "banjo/standard"@
            != "guitar/full_step_down"@ && "banjo/standard"@ != "bass/standard"@
            && "banjo/standard"@ != "bass/drop_d"@,
        "mandolin/standard"@ != "guitar/standard"@ && "mandolin/standard"@ != "guitar/drop_d"@
            && "mandolin/standard"@ != "guitar/eb_standard"@ && "mandolin/standard"@
            != "guitar/full_step_down"@ && "mandolin/standard"@ != "bass/standard"@
            && "mandolin/standard"@ != "bass/drop_d"@ && "mandolin/standard"@ != "banjo/standard"@,
        "ukulele/standard"@ != "guitar/standard"@ && "ukulele/standard"@ != "guitar/drop_d"@
            && "ukulele/standard"@ != "guitar/eb_standard"@ && "ukulele/standard"@
            != "guitar/full_step_down"@ && "ukulele/standard"@ != "bass/standard"@
            && "ukulele/standard"@ != "bass/drop_d"@ && "ukulele/standard"@ != "banjo/standard"@
            && "ukulele/standard"@ != "mandolin/standard"@,
        "guitar/standard"@ =~= "guitar"@ + "/standard"@,
        "guitar/drop_d"@ =~= "guitar"@ + "/drop_d"@,
        "bass/standard"@ =~= "bass"@ + "/standard"@,
        "bass/drop_d"@ =~= "bass"@ + "/drop_d"@,
        "guitar/standard"@ != "guitar/drop_d"@,
        "guitar/standard"@ != "guitar/eb_standard"@,
        "guitar/standard"@ != "guitar/full_step_down"@,
        "guitar/standard"@ != "bass/standard"@,
        "guitar/standard"@ != "bass/drop_d"@,
        "guitar/drop_d"@ != "guitar/eb_standard"@,
        "guitar/drop_d"@ != "guitar/full_step_down"@,
        "guitar/drop_d"@ != "bass/standard"@,
        "guitar/drop_d"@ != "bass/drop_d"@,
        "guitar/eb_standard"@ != "guitar/full_step_down"@,
        "guitar/eb_standard"@ != "bass/standard"@,
        "guitar/eb_standard"@ != "bass/drop_d"@,
        "guitar/full_step_down"@ != "bass/standard"@,
        "guitar/full_step_down"@ != "bass/drop_d"@,
        "bass/standard"@ != "bass/drop_d"@,
{
    reveal_strlit("guitar");
    reveal_strlit("bass");
    reveal_strlit("/standard");
    reveal_strlit("/drop_d");
    reveal_strlit("guitar/standard");
    reveal_strlit("guitar/drop_d");
    reveal_strlit("guitar/eb_standard");
    reveal_strlit("guitar/full_step_down");
    reveal_strlit("bass/standard");
    reveal_strlit("bass/drop_d");
    reveal_strlit("banjo/standard");
    reveal_strlit("mandolin/standard");
    reveal_strlit("ukulele/standard");
    assert("banjo/standard"@[0] != "guitar/standard"@[0]);
    assert("banjo/standard"@[2] != "bass/standard"@[2]);
    assert("banjo/standard"@[2] != "bass/drop_d"@[2]);
    assert("mandolin/standard"@[0] != "guitar/standard"@[0]);
    assert("mandolin/standard"@[0] != "bass/standard"@[0]);
    assert("ukulele/standard"@[0] != "guitar/standard"@[0]);
    assert("ukulele/standard"@[0] != "bass/standard"@[0]);
    assert("ukulele/standard"@[0] != "mandolin/standard"@[0]);
    assert("guitar/standard"@[7] != "guitar/drop_d"@[7]);
    assert("guitar/standard"@[7] != "guitar/eb_standard"@[7]);
    assert("guitar/standard"@[7] != "guitar/full_step_down"@[7]);
    assert("guitar/drop_d"@[7] != "guitar/eb_standard"@[7]);
    assert("guitar/drop_d"@[7] != "guitar/full_step_down"@[7]);
    assert("guitar/eb_standard"@[7] != "guitar/full_step_down"@[7]);
    assert("guitar/standard"@[0] != "bass/standard"@[0]);
    assert("guitar/standard"@[0] != "bass/drop_d"@[0]);
    assert("guitar/drop_d"@[0] != "bass/standard"@[0]);
    assert("guitar/drop_d"@[0] != "bass/drop_d"@[0]);
    assert("guitar/eb_standard"@[0] != "bass/standard"@[0]);
    assert("guitar/eb_standard"@[0] != "bass/drop_d"@[0]);
    assert("guitar/full_step_down"@[0] != "bass/standard"@[0]);
    assert("guitar/full_step_down"@[0] != "bass/drop_d"@[0]);
    assert("bass/standard"@[5] != "bass/drop_d"@[5]);
}

/// Semitones from string `i + 1` up to string `i` (strings listed highest
/// first).
pub open spec fn string_step(s: Seq<MidiNote>, i: int) -> int {
    s[i].0 - s[i + 1].0
}

/// The standard tunings of guitar and bass: the lowest string is E (E2 on
/// guitar, MIDI 40; E1 on bass, MIDI 28), and from the lowest string up
/// each string is a perfect fourth (5 semitones) above the one below it,
/// except the guitar's B string, a major third (4) above its G string.
pub proof fn lemma_standard_tunings_in_fourths(instrument: Seq<char>)
    requires
        instrument == "guitar"@ || instrument == "bass"@,
    ensures
        ({
            let s = registered_strings(instrument + "/standard"@);
            let n = s.len() as int;
            let low = if instrument == "guitar"@ { 40int } else { 28int };
            &&& n == (if instrument == "guitar"@ { 6int } else { 4int })
            &&& s[n - 1].0 == low
            &&& forall|i: int|
                0 <= i < n - 1 ==> #[trigger] string_step(s, i) == (if instrument == "guitar"@ && i == 1 {
                    4int
                } else {
                    5int
                })
        }),
{
    lemma_reveal_keys();
    let s = registered_strings(instrument + "/standard"@);
    assert forall|i: int| 0 <= i < s.len() - 1 implies #[trigger] string_step(s, i) == (if instrument
        == "guitar"@ && i == 1 {
        4int
    } else {
        5int
    }) by {
        if instrument == "guitar"@ {
            assert(i == 0 || i == 1 || i == 2 || i == 3 || i == 4);
        } else {
            assert(i == 0 || i == 1 || i == 2);
        }
    }
}

/// Drop D takes an instrument's standard tuning and lowers its lowest
/// string a whole step (two semitones, E down to D), leaving every other
/// string as it is.
pub proof fn lemma_drop_d_lowers_lowest_string(instrument: Seq<char>)
    requires
        instrument == "guitar"@ || instrument == "bass"@,
    ensures
        ({
            let std = registered_strings(instrument + "/standard"@);
            let drop = registered_strings(instrument + "/drop_d"@);
            &&& std.len() > 0
            &&& drop.len() == std.len()
            &&& drop[drop.len() - 1].0 + 2 == std[std.len() - 1].0
            &&& forall|i: int| 0 <= i < std.len() - 1 ==> #[trigger] drop[i] == std[i]
        }),
        registered_tuning(instrument + "/drop_d"@) matches Some((name, _)) && name == "Drop D"@,
{
    lemma_reveal_keys();
    let std = registered_strings(instrument + "/standard"@);
    let drop = registered_strings(instrument + "/drop_d"@);
    assert forall|i: int| 0 <= i < std.len() - 1 implies #[trigger] drop[i] == std[i] by {
        if instrument == "guitar"@ {
            assert(i == 0 || i == 1 || i == 2 || i == 3 || i == 4);
        } else {
            assert(i == 0 || i == 1 || i == 2);
        }
    }
}

/// The lowered guitar tunings keep the standard tuning's intervals: E flat
/// standard lowers every string a semitone, full step down every string a
/// whole step.
pub proof fn lemma_guitar_lowered_tunings(i: int)
    requires
        0 <= i < 6,
    ensures
        registered_strings("guitar/eb_standard"@).len() == 6,
        registered_strings("guitar/full_step_down"@).len() == 6,
        registered_strings("guitar/eb_standard"@)[i].0 + 1 == registered_strings("guitar/standard"@)[i].0,
        registered_strings("guitar/full_step_down"@)[i].0 + 2 == registered_strings(
            "guitar/standard"@,
        )[i].0,
{
    lemma_reveal_keys();
    assert(i == 0 || i == 1 || i == 2 || i == 3 || i == 4 || i == 5);
}

/// The other built-in tunings, by their intervals: the mandolin is tuned
/// in fifths (7 semitones) upward from G3; the five-string banjo in open G
/// has D3 G3 B3 D4 on its long strings and its short fifth string an octave
/// above the G string; the ukulele is re-entrant, C4 E4 A4 with its G
/// string (listed first) raised to G4, between E4 and A4.
pub proof fn lemma_other_tunings_by_intervals()
    ensures
        ({
            let m = registered_strings("mandolin/standard"@);
            &&& m.len() == 4
            &&& m[3].0 == 55
            &&& string_step(m, 0) == 7 && string_step(m, 1) == 7 && string_step(m, 2) == 7
        }),
        ({
            let b = registered_strings("banjo/standard"@);
            &&& b.len() == 5
            &&& b[3].0 == 50
            &&& string_step(b, 2) == 5 && string_step(b, 1) == 4 && string_step(b, 0) == 3
            &&& b[4].0 == b[2].0 + 12
        }),
        ({
            let u = registered_strings("ukulele/standard"@);
            &&& u.len() == 4
            &&& u[2].0 == 60
            &&& string_step(u, 1) == 4
            &&& u[3].0 == u[1].0 + 5
            &&& u[0].0 == u[3].0 - 2
        }),
{
    lemma_reveal_keys();
}

/// The tuning names: standard guitar and bass tunings are called
/// "E Standard", the other instruments' plain "Standard"; the lowered
/// guitar tunings are "Eb standard" and "Full Step Down".
pub proof fn lemma_tuning_names()
    ensures
        registered_tuning("guitar/standard"@) matches Some((n, _)) && n == "E Standard"@,
        registered_tuning("bass/standard"@) matches Some((n, _)) && n == "E Standard"@,
        registered_tuning("guitar/eb_standard"@) matches Some((n, _)) && n == "Eb standard"@,
        registered_tuning("guitar/full_step_down"@) matches Some((n, _)) && n == "Full Step Down"@,
        registered_tuning("banjo/standard"@) matches Some((n, _)) && n == "Standard"@,
        registered_tuning("mandolin/standard"@) matches Some((n, _)) && n == "Standard"@,
        registered_tuning("ukulele/standard"@) matches Some((n, _)) && n == "Standard"@,
{
    lemma_reveal_keys();
}

} // verus!
