use vstd::prelude::*;

verus! {

/// One of the twelve pitch classes of the chromatic scale.
#[derive(Clone, Copy, Debug, PartialEq, Eq, Structural, PartialOrd, Ord, Hash)]
pub enum PitchClass {
    C,
    CSharp,
    D,
    DSharp,
    E,
    F,
    FSharp,
    G,
    GSharp,
    A,
    ASharp,
    B,
}

impl PitchClass {
    /// The position of the pitch class on the circle of semitones, counted from C.
    pub open spec fn value(self) -> nat {
        match self {
            PitchClass::C => 0,
            PitchClass::CSharp => 1,
            PitchClass::D => 2,
            PitchClass::DSharp => 3,
            PitchClass::E => 4,
            PitchClass::F => 5,
            PitchClass::FSharp => 6,
            PitchClass::G => 7,
            PitchClass::GSharp => 8,
            PitchClass::A => 9,
            PitchClass::ASharp => 10,
            PitchClass::B => 11,
        }
    }

    pub proof fn lemma_value_injective(a: PitchClass, b: PitchClass)
        requires
            a.value() == b.value(),
        ensures
            a == b,
    {
    }

    pub fn index(&self) -> (r: u8)
        ensures
            r == self.value(),
            r < 12,
    {
        match self {
            PitchClass::C => 0,
            PitchClass::CSharp => 1,
            PitchClass::D => 2,
            PitchClass::DSharp => 3,
            PitchClass::E => 4,
            PitchClass::F => 5,
            PitchClass::FSharp => 6,
            PitchClass::G => 7,
            PitchClass::GSharp => 8,
            PitchClass::A => 9,
            PitchClass::ASharp => 10,
            PitchClass::B => 11,
        }
    }

    pub fn from_index(i: u8) -> (r: PitchClass)
        requires
            i < 12,
        ensures
            r.value() == i,
    {
        match i {
            0 => PitchClass::C,
            1 => PitchClass::CSharp,
            2 => PitchClass::D,
            3 => PitchClass::DSharp,
            4 => PitchClass::E,
            5 => PitchClass::F,
            6 => PitchClass::FSharp,
            7 => PitchClass::G,
            8 => PitchClass::GSharp,
            9 => PitchClass::A,
            10 => PitchClass::ASharp,
            _ => PitchClass::B,
        }
    }

    /// The pitch class `n` semitones above this one.
    pub fn add_semitones(&self, n: u8) -> (r: PitchClass)
        ensures
            r.value() == (self.value() + n) % 12,
    {
        let i: u8 = ((self.index() as u16 + n as u16) % 12) as u8;
        PitchClass::from_index(i)
    }

    /// The pitch class `n` semitones below this one.
    pub fn sub_semitones(&self, n: u8) -> (r: PitchClass)
        ensures
            r.value() == (self.value() - n) % 12,
    {
        let i: u8 = ((self.index() as u16 + 12 - (n % 12) as u16) % 12) as u8;
        proof {
            assert(((self.value() + 12 - (n % 12)) as int) % 12 == (self.value() - n) % 12)
                by (nonlinear_arith);
        }
        PitchClass::from_index(i)
    }

    /// The number of semitones (0 to 11) to go up from `other` to reach this pitch class.
    pub fn semitones_from(&self, other: &PitchClass) -> (r: u8)
        ensures
            r == (self.value() - other.value()) % 12,
            r < 12,
    {
        ((self.index() + 12 - other.index()) % 12) as u8
    }
}

} // verus!
