use vstd::prelude::*;

pub mod candidates;
pub mod chord;
pub mod chord_name;
pub mod chord_type;
pub mod combinatorics;
pub mod determinism;
pub mod fret_pattern;
pub mod note;
pub mod pitch_class;
pub mod recovery;
pub mod reverse_lookup;
pub mod tuning;
pub mod voicing;
pub mod voicing_graph;

pub use chord::Chord;
pub use chord_name::{ParseChordError, UnrecognizedChordTypeError};
pub use chord_type::{ChordType, NoMatchingChordTypeFoundError};
pub use fret_pattern::FretPattern;
pub use note::Note;
pub use pitch_class::PitchClass;
pub use tuning::Tuning;
pub use voicing::{UkeString, Voicing};
pub use voicing_graph::VoicingGraph;


verus! {

/// Number of strings on our string instrument.
pub const STRING_COUNT: usize = 4;

/// The ID of a fret on the fretboard. 0 corresponds to the nut,
/// 1 corresponds to the first fret, 2 to the second etc.
pub type FretID = u8;

/// The number of semitones (corresponds to the number of frets)
/// to move from one note or pitch class to another.
pub type Semitones = u8;

/// The constraints under which voicings are looked for.
#[derive(Clone, Copy, Debug)]
pub struct VoicingConfig {
    pub tuning: Tuning,
    pub min_fret: FretID,
    pub max_fret: FretID,
    pub max_span: Semitones,
}

impl Default for VoicingConfig {
    fn default() -> (r: Self)
        ensures
            r.tuning == Tuning::C,
            r.min_fret == 0,
            r.max_fret == 12,
            r.max_span == 4,
    {
        VoicingConfig { tuning: Tuning::C, min_fret: 0, max_fret: 12, max_span: 4 }
    }
}

/// The error for a configuration whose fret range is empty.
#[derive(Clone, Copy, Debug, PartialEq, Eq, Structural)]
pub struct InvalidConfigError {
    pub min_fret: FretID,
    pub max_fret: FretID,
}

} // verus!
