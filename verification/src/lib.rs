//! Music theory engine: notes, intervals, chord symbols, instrument tunings,
//! fretboard mapping and chord voicings.
pub mod text;
pub mod theory;
pub mod instrument;
pub mod mapping;
pub mod bitmask;
pub mod voicing;
pub mod voicing_ranker;
pub mod chord_parser;
pub mod cli;
