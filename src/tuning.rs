use vstd::prelude::*;

use crate::note::Note;
use crate::pitch_class::PitchClass;
use crate::STRING_COUNT;

verus! {

/// The tuning of the instrument, named after the note of its third string.
#[derive(Clone, Copy, Debug, PartialEq, Eq, Structural)]
pub enum Tuning {
    C,
    D,
    G,
}

impl Tuning {
    /// The pitch classes of the open strings, in string order.
    pub open spec fn root_pcs(self) -> Seq<nat> {
        match self {
            Tuning::C => seq![7nat, 0, 4, 9],
            Tuning::D => seq![9nat, 2, 6, 11],
            Tuning::G => seq![2nat, 7, 11, 4],
        }
    }

    /// The notes of the open strings, in string order.
    pub fn roots(&self) -> (r: [Note; STRING_COUNT])
        ensures
            forall|i: int| 0 <= i < STRING_COUNT ==> #[trigger] r@[i].pc() == self.root_pcs()[i],
    {
        let (a, b, c, d) = match self {
            Tuning::C => (PitchClass::G, PitchClass::C, PitchClass::E, PitchClass::A),
            Tuning::D => (PitchClass::A, PitchClass::D, PitchClass::FSharp, PitchClass::B),
            Tuning::G => (PitchClass::D, PitchClass::G, PitchClass::B, PitchClass::E),
        };
        [
            Note::from_pitch_class(a),
            Note::from_pitch_class(b),
            Note::from_pitch_class(c),
            Note::from_pitch_class(d),
        ]
    }

    /// The name of the tuning, as `name` returns it.
    pub open spec fn name_spec(self) -> &'static str {
        match self {
            Tuning::C => "C",
            Tuning::D => "D",
            Tuning::G => "G",
        }
    }

    /// The name of the tuning.
    pub fn name(&self) -> (r: &'static str)
        ensures
            r == self.name_spec(),
    {
        match self {
            Tuning::C => "C",
            Tuning::D => "D",
            Tuning::G => "G",
        }
    }
}

} // verus!
