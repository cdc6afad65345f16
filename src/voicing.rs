use vstd::prelude::*;

use crate::note::Note;
use crate::tuning::Tuning;
use crate::{FretID, STRING_COUNT};

verus! {

/// The highest fret among `f` (0 where every string is open).
pub open spec fn highest_fret(f: Seq<u8>) -> nat
    decreases f.len(),
{
    if f.len() == 0 {
        0
    } else {
        let m = highest_fret(f.drop_last());
        if f.last() > m {
            f.last() as nat
        } else {
            m
        }
    }
}

/// The lowest pressed (non-zero) fret among `f`, or 0 where every string is open.
/// This is the position of a voicing.
pub open spec fn lowest_pressed_fret(f: Seq<u8>) -> nat
    decreases f.len(),
{
    if f.len() == 0 {
        0
    } else {
        let m = lowest_pressed_fret(f.drop_last());
        let x = f.last() as nat;
        if x == 0 {
            m
        } else if m == 0 || x < m {
            x
        } else {
            m
        }
    }
}

/// The number of frets between the lowest and the highest pressed fret (0 where every
/// string is open).
pub open spec fn span_of(f: Seq<u8>) -> nat {
    (highest_fret(f) - lowest_pressed_fret(f)) as nat
}

pub proof fn lemma_lowest_le_highest(f: Seq<u8>)
    ensures
        lowest_pressed_fret(f) <= highest_fret(f),
        highest_fret(f) <= 255,
    decreases f.len(),
{
    if f.len() > 0 {
        lemma_lowest_le_highest(f.drop_last());
    }
}

/// The key by which voicings are ordered: position, span, then the frets in string order.
pub open spec fn voicing_key(f: Seq<u8>) -> (int, int, int, int, int, int) {
    (lowest_pressed_fret(f) as int, span_of(f) as int, f[0] as int, f[1] as int, f[2] as int, f[3] as int)
}

/// The lexicographic order on keys, as `<`.
pub open spec fn key_lt(a: (int, int, int, int, int, int), b: (int, int, int, int, int, int)) -> bool {
    if a.0 != b.0 {
        a.0 < b.0
    } else if a.1 != b.1 {
        a.1 < b.1
    } else if a.2 != b.2 {
        a.2 < b.2
    } else if a.3 != b.3 {
        a.3 < b.3
    } else if a.4 != b.4 {
        a.4 < b.4
    } else {
        a.5 < b.5
    }
}

/// The voicing with frets `f` comes before the one with frets `g`.
pub open spec fn voicing_lt(f: Seq<u8>, g: Seq<u8>) -> bool {
    key_lt(voicing_key(f), voicing_key(g))
}

/// The sum over the strings of the difference between the frets of `a` and of `b`.
pub open spec fn fret_distance(a: Seq<u8>, b: Seq<u8>) -> nat
    decreases a.len(),
{
    if a.len() == 0 || b.len() == 0 {
        0
    } else {
        let d = if a.last() >= b.last() {
            (a.last() - b.last()) as nat
        } else {
            (b.last() - a.last()) as nat
        };
        fret_distance(a.drop_last(), b.drop_last()) + d
    }
}

proof fn lemma_fret_distance_seq(a: Seq<u8>, b: Seq<u8>, c: Seq<u8>)
    requires
        a.len() == b.len(),
        b.len() == c.len(),
    ensures
        fret_distance(a, a) == 0,
        fret_distance(a, b) == fret_distance(b, a),
        fret_distance(a, b) + fret_distance(b, c) >= fret_distance(a, c),
        fret_distance(a, b) == 0 <==> a == b,
    decreases a.len(),
{
    if a.len() > 0 {
        lemma_fret_distance_seq(a.drop_last(), b.drop_last(), c.drop_last());
        if fret_distance(a, b) == 0 {
            assert(a.drop_last() == b.drop_last());
            assert(a =~= a.drop_last().push(a.last()));
            assert(b =~= b.drop_last().push(b.last()));
        }
    } else {
        assert(a =~= b);
    }
}

/// The distance between voicings is a metric on their frets: it is zero exactly between
/// voicings with the same frets, symmetric, and obeys the triangle inequality.
pub proof fn lemma_distance_is_metric(a: Voicing, b: Voicing, c: Voicing)
    ensures
        fret_distance(a.frets(), a.frets()) == 0,
        fret_distance(a.frets(), b.frets()) == fret_distance(b.frets(), a.frets()),
        fret_distance(a.frets(), b.frets()) + fret_distance(b.frets(), c.frets())
            >= fret_distance(a.frets(), c.frets()),
        fret_distance(a.frets(), b.frets()) == 0 <==> a.frets() == b.frets(),
{
    lemma_fret_distance_seq(a.frets(), b.frets(), c.frets());
}

/// The state of one string in a voicing: the note of the open string, the fret pressed
/// down on it and the note that sounds.
#[derive(Clone, Copy, Debug)]
pub struct UkeString {
    pub root: Note,
    pub fret: FretID,
    pub note: Note,
}

/// A way of playing a chord: one fret on each string.
#[derive(Clone, Copy, Debug)]
pub struct Voicing {
    pub uke_strings: [UkeString; STRING_COUNT],
}

impl Voicing {
    /// The frets, in string order.
    pub open spec fn frets(self) -> Seq<u8> {
        self.uke_strings@.map_values(|s: UkeString| s.fret)
    }

    /// The pitch classes that sound, in string order.
    pub open spec fn sounded(self) -> Seq<nat> {
        self.uke_strings@.map_values(|s: UkeString| s.note.pc())
    }

    /// The voicing is played on an instrument with the given tuning: each string has the
    /// root of the tuning and sounds the note of its fret.
    pub open spec fn fits(self, tuning: Tuning) -> bool {
        forall|i: int|
            0 <= i < STRING_COUNT ==> {
                &&& (#[trigger] self.uke_strings@[i]).root.pc() == tuning.root_pcs()[i]
                &&& self.uke_strings@[i].note.pc() == (tuning.root_pcs()[i]
                    + self.uke_strings@[i].fret) % 12
            }
    }

    /// The voicing that presses down the given frets on an instrument with the given tuning.
    pub fn new(frets: [FretID; STRING_COUNT], tuning: Tuning) -> (r: Voicing)
        ensures
            r.frets() == frets@,
            r.fits(tuning),
    {
        let roots = tuning.roots();
        let s0 = UkeString { root: roots[0], fret: frets[0], note: roots[0].add_semitones(frets[0]) };
        let s1 = UkeString { root: roots[1], fret: frets[1], note: roots[1].add_semitones(frets[1]) };
        let s2 = UkeString { root: roots[2], fret: frets[2], note: roots[2].add_semitones(frets[2]) };
        let s3 = UkeString { root: roots[3], fret: frets[3], note: roots[3].add_semitones(frets[3]) };
        let r = Voicing { uke_strings: [s0, s1, s2, s3] };
        assert(r.frets() =~= frets@);
        r
    }

    /// The frets, in string order.
    pub fn get_frets(&self) -> (r: [FretID; STRING_COUNT])
        ensures
            r@ == self.frets(),
    {
        let r = [
            self.uke_strings[0].fret,
            self.uke_strings[1].fret,
            self.uke_strings[2].fret,
            self.uke_strings[3].fret,
        ];
        assert(r@ =~= self.frets());
        r
    }

    /// The lowest fret pressed down (0 where every string is open).
    pub fn get_min_fret(&self) -> (r: FretID)
        ensures
            r == lowest_pressed_fret(self.frets()),
    {
        let mut m: u8 = 0;
        let mut i: usize = 0;
        while i < STRING_COUNT
            invariant
                0 <= i <= STRING_COUNT,
                m == lowest_pressed_fret(self.frets().take(i as int)),
            decreases STRING_COUNT - i,
        {
            let x = self.uke_strings[i].fret;
            assert(self.frets().take(i + 1).drop_last() =~= self.frets().take(i as int));
            if x != 0 && (m == 0 || x < m) {
                m = x;
            }
            i = i + 1;
        }
        assert(self.frets().take(STRING_COUNT as int) =~= self.frets());
        m
    }

    /// The highest fret pressed down (0 where every string is open).
    pub fn get_max_fret(&self) -> (r: FretID)
        ensures
            r == highest_fret(self.frets()),
    {
        let mut m: u8 = 0;
        let mut i: usize = 0;
        while i < STRING_COUNT
            invariant
                0 <= i <= STRING_COUNT,
                m == highest_fret(self.frets().take(i as int)),
            decreases STRING_COUNT - i,
        {
            let x = self.uke_strings[i].fret;
            assert(self.frets().take(i + 1).drop_last() =~= self.frets().take(i as int));
            if x > m {
                m = x;
            }
            i = i + 1;
        }
        assert(self.frets().take(STRING_COUNT as int) =~= self.frets());
        m
    }

    /// The number of frets between the lowest and the highest fret pressed down.
    pub fn get_span(&self) -> (r: FretID)
        ensures
            r == span_of(self.frets()),
    {
        let lo = self.get_min_fret();
        let hi = self.get_max_fret();
        proof {
            lemma_lowest_le_highest(self.frets());
        }
        hi - lo
    }

    /// The sum over the strings of how far the finger on it moves between the two voicings.
    pub fn distance(&self, other: &Voicing) -> (r: u32)
        ensures
            r == fret_distance(self.frets(), other.frets()),
            r <= 255 * STRING_COUNT,
    {
        let mut d: u32 = 0;
        let mut i: usize = 0;
        while i < STRING_COUNT
            invariant
                0 <= i <= STRING_COUNT,
                d == fret_distance(self.frets().take(i as int), other.frets().take(i as int)),
                d <= 255 * i,
            decreases STRING_COUNT - i,
        {
            let a = self.uke_strings[i].fret;
            let b = other.uke_strings[i].fret;
            assert(self.frets().take(i + 1).drop_last() =~= self.frets().take(i as int));
            assert(other.frets().take(i + 1).drop_last() =~= other.frets().take(i as int));
            if a >= b {
                d = d + (a - b) as u32;
            } else {
                d = d + (b - a) as u32;
            }
            i = i + 1;
        }
        assert(self.frets().take(STRING_COUNT as int) =~= self.frets());
        assert(other.frets().take(STRING_COUNT as int) =~= other.frets());
        d
    }
}

} // verus!
