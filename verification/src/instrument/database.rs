//! Instruments and tunings held as owned data, as loaded from a description
//! file, with lookup by name.
use vstd::prelude::*;
use crate::instrument::tuning::fretted_note;
use crate::text::str_equal;
use crate::theory::note::{MidiNote, Note};

verus! {

/// A named tuning: the open-string pitches of an instrument.
#[derive(Debug, PartialEq)]
pub struct Tuning {
    pub name: String,
    pub strings: Vec<MidiNote>,
}

impl Tuning {
    /// The note produced by pressing `fret` on string `string_index`, or
    /// `None` where the tuning has no such string.
    pub fn note_at_fret(&self, string_index: usize, fret: u8) -> (r: Option<Note>)
        requires
            string_index < self.strings@.len() ==> self.strings@[string_index as int].0 + fret
                <= 255,
        ensures
            string_index < self.strings@.len() ==> r == Some(
                fretted_note(self.strings@[string_index as int], fret),
            ),
            string_index >= self.strings@.len() ==> r == None::<Note>,
    {
        if string_index >= self.strings.len() {
            return None;
        }
        let open_midi = self.strings[string_index];
        let fretted_midi = open_midi.0 + fret;
        Some(Note::from_midi(fretted_midi))
    }
}

/// An instrument and its known tunings.
#[derive(Debug, PartialEq)]
pub struct Instrument {
    pub name: String,
    pub tunings: Vec<Tuning>,
}

/// All locally defined instruments and tunings.
pub struct InstrumentDatabase {
    pub instruments: Vec<Instrument>,
}

/// `i` is the first instrument in `db` called `name`.
pub open spec fn is_first_instrument(db: Seq<Instrument>, name: Seq<char>, i: int) -> bool {
    &&& 0 <= i < db.len()
    &&& db[i].name@ == name
    &&& forall|k: int| 0 <= k < i ==> (#[trigger] db[k]).name@ != name
}

/// `j` is the first tuning in `ts` called `name`.
pub open spec fn is_first_tuning(ts: Seq<Tuning>, name: Seq<char>, j: int) -> bool {
    &&& 0 <= j < ts.len()
    &&& ts[j].name@ == name
    &&& forall|k: int| 0 <= k < j ==> (#[trigger] ts[k]).name@ != name
}

impl InstrumentDatabase {
    /// The tuning called `tuning_name` of the first instrument called
    /// `instrument_name`; `None` if there is no such instrument, or that
    /// instrument has no such tuning.
    pub fn get_tuning(&self, instrument_name: &str, tuning_name: &str) -> (r: Option<&Tuning>)
        ensures
            match r {
                Some(t) => exists|i: int, j: int|
                    is_first_instrument(self.instruments@, instrument_name@, i)
                        && is_first_tuning(self.instruments@[i].tunings@, tuning_name@, j)
                        && *t == self.instruments@[i].tunings@[j],
                None => forall|i: int|
                    is_first_instrument(self.instruments@, instrument_name@, i) ==> forall|j: int|
                        0 <= j < self.instruments@[i].tunings@.len()
                            ==> (#[trigger] self.instruments@[i].tunings@[j]).name@
                            != tuning_name@,
            },
    {
        let n = self.instruments.len();
        let mut i: usize = 0;
        while i < n
            invariant
                n == self.instruments@.len(),
                i <= n,
                forall|k: int| 0 <= k < i ==> (#[trigger] self.instruments@[k]).name@
                    != instrument_name@,
            decreases n - i,
        {
            let inst = &self.instruments[i];
            if str_equal(inst.name.as_str(), instrument_name) {
                let m = inst.tunings.len();
                let mut j: usize = 0;
                while j < m
                    invariant
                        n == self.instruments@.len(),
                        i < n,
                        *inst == self.instruments@[i as int],
                        inst.name@ == instrument_name@,
                        forall|k: int| 0 <= k < i ==> (#[trigger] self.instruments@[k]).name@
                            != instrument_name@,
                        m == inst.tunings@.len(),
                        j <= m,
                        forall|k: int| 0 <= k < j ==> (#[trigger] inst.tunings@[k]).name@
                            != tuning_name@,
                    decreases m - j,
                {
                    if str_equal(inst.tunings[j].name.as_str(), tuning_name) {
                        assert(is_first_instrument(self.instruments@, instrument_name@, i as int));
                        assert(is_first_tuning(
                            self.instruments@[i as int].tunings@,
                            tuning_name@,
                            j as int,
                        ));
                        return Some(&inst.tunings[j]);
                    }
                    j = j + 1;
                }
                assert(is_first_instrument(self.instruments@, instrument_name@, i as int));
                return None;
            }
            i = i + 1;
        }
        None
    }
}

} // verus!
