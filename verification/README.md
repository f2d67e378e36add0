# core_engine

A music theory engine for string instruments, written in Verus: every
function of the library carries a contract that Verus proves, with one
trusted exception: `text::string_push`, a wrapper around `String::push`
whose contract (the character is appended) Verus takes on trust.

- `src/theory/` — pitch classes and MIDI notes, scientific pitch notation,
  spellings, intervals, chord types and chord identification.
- `src/chord_parser.rs` — chord symbols (`Cm7`, `F#maj9`) and the
  separate-argument form (`G minor 9`).
- `src/instrument/` — fixed tunings, the tuning registry, owned tuning
  databases.
- `src/mapping.rs` — the search for pitch classes on a fretboard.
- `src/voicing.rs`, `src/voicing_ranker.rs` — playable chord shapes and
  their ranking.
- `src/cli.rs` — the command line as plain values and the decisions taken
  on it.
- `src/text.rs`, `src/bitmask.rs` — character, string and bit-set helpers
  with their lemmas.
- `app/` — the command-line program (argument parsing with clap, JSON
  descriptions with serde).
- `tests/` — the test suite.
