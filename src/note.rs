use vstd::prelude::*;

use crate::pitch_class::PitchClass;

verus! {

/// A note: a pitch class together with the way it is spelled.
///
/// Black keys are spelled with a sharp (`C#`) unless `flat` is set (`Db`).
/// Two notes are equal when they have the same pitch class, whatever their spelling.
#[derive(Clone, Copy, Debug)]
pub struct Note {
    pub pitch_class: PitchClass,
    pub flat: bool,
}

impl PartialEq for Note {
    fn eq(&self, other: &Note) -> (r: bool) {
        self.pitch_class == other.pitch_class
    }
}

impl vstd::std_specs::cmp::PartialEqSpecImpl for Note {
    open spec fn obeys_eq_spec() -> bool {
        true
    }

    open spec fn eq_spec(&self, other: &Note) -> bool {
        self.pitch_class == other.pitch_class
    }
}

impl Eq for Note {}

impl Note {
    /// The pitch class of the note as a number from 0 (C) to 11 (B).
    pub open spec fn pc(self) -> nat {
        self.pitch_class.value()
    }

    /// The note of the given pitch class, spelled with a sharp where it needs an accidental.
    pub fn from_pitch_class(pitch_class: PitchClass) -> (r: Note)
        ensures
            r.pitch_class == pitch_class,
            !r.flat,
    {
        Note { pitch_class, flat: false }
    }

    /// The note `n` semitones higher, spelled with a sharp where it needs an accidental.
    pub fn add_semitones(&self, n: u8) -> (r: Note)
        ensures
            r.pc() == (self.pc() + n) % 12,
            !r.flat,
    {
        Note { pitch_class: self.pitch_class.add_semitones(n), flat: false }
    }

    /// The note `n` semitones lower, spelled with a flat where it needs an accidental.
    pub fn sub_semitones(&self, n: u8) -> (r: Note)
        ensures
            r.pc() == (self.pc() - n) % 12,
            r.flat,
    {
        Note { pitch_class: self.pitch_class.sub_semitones(n), flat: true }
    }

    /// The name of the note, as `name` returns it.
    pub open spec fn name_spec(self) -> &'static str {
        match (self.pitch_class, self.flat) {
            (PitchClass::C, _) => "C",
            (PitchClass::CSharp, false) => "C#",
            (PitchClass::CSharp, true) => "Db",
            (PitchClass::D, _) => "D",
            (PitchClass::DSharp, false) => "D#",
            (PitchClass::DSharp, true) => "Eb",
            (PitchClass::E, _) => "E",
            (PitchClass::F, _) => "F",
            (PitchClass::FSharp, false) => "F#",
            (PitchClass::FSharp, true) => "Gb",
            (PitchClass::G, _) => "G",
            (PitchClass::GSharp, false) => "G#",
            (PitchClass::GSharp, true) => "Ab",
            (PitchClass::A, _) => "A",
            (PitchClass::ASharp, false) => "A#",
            (PitchClass::ASharp, true) => "Bb",
            (PitchClass::B, _) => "B",
        }
    }

    /// The name of the note, such as `C`, `F#` or `Bb`.
    pub fn name(&self) -> (r: &'static str)
        ensures
            r == self.name_spec(),
    {
        match (self.pitch_class, self.flat) {
            (PitchClass::C, _) => "C",
            (PitchClass::CSharp, false) => "C#",
            (PitchClass::CSharp, true) => "Db",
            (PitchClass::D, _) => "D",
            (PitchClass::DSharp, false) => "D#",
            (PitchClass::DSharp, true) => "Eb",
            (PitchClass::E, _) => "E",
            (PitchClass::F, _) => "F",
            (PitchClass::FSharp, false) => "F#",
            (PitchClass::FSharp, true) => "Gb",
            (PitchClass::G, _) => "G",
            (PitchClass::GSharp, false) => "G#",
            (PitchClass::GSharp, true) => "Ab",
            (PitchClass::A, _) => "A",
            (PitchClass::ASharp, false) => "A#",
            (PitchClass::ASharp, true) => "Bb",
            (PitchClass::B, _) => "B",
        }
    }
}

} // verus!
