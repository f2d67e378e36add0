//! Music theory: pitch classes, intervals and chords.
pub mod chord;
pub mod interval;
pub mod note;

pub use note::{MidiNote, Note};
