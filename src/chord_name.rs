use vstd::prelude::*;

use crate::chord::Chord;
use crate::chord_type::{ChordType, CHORD_TYPE_COUNT};
use crate::note::Note;
use crate::pitch_class::PitchClass;
use vstd::string::StringSliceAdditionalSpecFns;

verus! {

/// The byte of `#`.
pub const SHARP: u8 = 35;

/// The byte of `b`.
pub const FLAT: u8 = 98;

/// The pitch class of a note letter `A` to `G` (bytes 65 to 71), counted in semitones from C.
pub open spec fn letter_value(c: u8) -> Option<nat> {
    if c == 67u8 {
        Some(0)
    } else if c == 68u8 {
        Some(2)
    } else if c == 69u8 {
        Some(4)
    } else if c == 70u8 {
        Some(5)
    } else if c == 71u8 {
        Some(7)
    } else if c == 65u8 {
        Some(9)
    } else if c == 66u8 {
        Some(11)
    } else {
        None
    }
}

/// The pitch class and the spelling (whether with a flat) of a note name such as `C`,
/// `F#` or `Bb`.
pub open spec fn note_name_value(b: Seq<u8>) -> Option<(nat, bool)> {
    if b.len() == 0 || b.len() > 2 {
        None
    } else {
        match letter_value(b[0]) {
            None => None,
            Some(v) => if b.len() == 1 {
                Some((v, false))
            } else if b[1] == SHARP {
                Some(((v + 1) % 12, false))
            } else if b[1] == FLAT {
                Some(((v + 11) % 12, true))
            } else {
                None
            },
        }
    }
}

/// `b` is one of the symbols of the chord type.
pub open spec fn has_symbol(t: ChordType, b: Seq<u8>) -> bool {
    exists|j: int| 0 <= j < t.symbol_list().len() && (#[trigger] t.symbol_list()[j]).spec_bytes() == b
}

/// `t` is the first chord type of the catalog that has the symbol `b`.
pub open spec fn first_with_symbol(t: ChordType, b: Seq<u8>) -> bool {
    &&& has_symbol(t, b)
    &&& forall|u: ChordType| #[trigger] has_symbol(u, b) ==> t.position() <= u.position()
}

/// A chord name such as `C#m7` splits after `i` bytes into a note name and a chord symbol.
pub open spec fn splits_at(b: Seq<u8>, i: int) -> bool {
    &&& i <= b.len()
    &&& note_name_value(b.take(i)) is Some
    &&& exists|t: ChordType| #[trigger] has_symbol(t, b.skip(i))
}

/// The chord `c` is read from the name `b` split after `i` bytes; its notes, derived by
/// adding semitones to the root, are spelled with sharps.
pub open spec fn read_at(c: Chord, b: Seq<u8>, i: int) -> bool {
    &&& note_name_value(b.take(i)) == Some((c.root.pc(), c.root.flat))
    &&& first_with_symbol(c.chord_type, b.skip(i))
    &&& c.wf()
    &&& forall|k: int| 0 <= k < c.notes@.len() ==> !(#[trigger] c.notes@[k]).flat
}

/// The error for a text that is no chord name.
#[derive(Debug)]
pub struct ParseChordError {
    pub name: String,
}

/// The error for a symbol that no chord type of the catalog has.
#[derive(Clone, Copy, Debug, PartialEq, Eq, Structural)]
pub struct UnrecognizedChordTypeError;

fn letter_pitch_class(c: u8) -> (r: Option<PitchClass>)
    ensures
        match r {
            Some(p) => letter_value(c) == Some(p.value()),
            None => letter_value(c) is None,
        },
{
    if c == 67u8 {
        Some(PitchClass::C)
    } else if c == 68u8 {
        Some(PitchClass::D)
    } else if c == 69u8 {
        Some(PitchClass::E)
    } else if c == 70u8 {
        Some(PitchClass::F)
    } else if c == 71u8 {
        Some(PitchClass::G)
    } else if c == 65u8 {
        Some(PitchClass::A)
    } else if c == 66u8 {
        Some(PitchClass::B)
    } else {
        None
    }
}

/// The note named by the first `len` bytes of `b`.
fn note_of_prefix(b: &[u8], len: usize) -> (r: Option<Note>)
    requires
        len <= b@.len(),
    ensures
        match r {
            Some(n) => note_name_value(b@.take(len as int)) == Some((n.pc(), n.flat)),
            None => note_name_value(b@.take(len as int)) is None,
        },
{
    if len == 0 || len > 2 {
        return None;
    }
    match letter_pitch_class(b[0]) {
        None => None,
        Some(p) => {
            if len == 1 {
                Some(Note { pitch_class: p, flat: false })
            } else if b[1] == SHARP {
                Some(Note { pitch_class: p.add_semitones(1), flat: false })
            } else if b[1] == FLAT {
                Some(Note { pitch_class: p.sub_semitones(1), flat: true })
            } else {
                None
            }
        },
    }
}

/// Whether the bytes of `b` from `start` on are those of `sym`.
fn symbol_at(sym: &str, b: &[u8], start: usize) -> (r: bool)
    requires
        start <= b@.len(),
    ensures
        r == (sym.spec_bytes() == b@.skip(start as int)),
{
    let s = sym.as_bytes();
    let n = b.len();
    if s.len() != n - start {
        return false;
    }
    let mut i: usize = 0;
    while i < s.len()
        invariant
            0 <= i <= s@.len(),
            s@ == sym.spec_bytes(),
            start <= b@.len(),
            n == b@.len(),
            s@.len() == b@.len() - start,
            forall|k: int| 0 <= k < i ==> s@[k] == b@[start + k],
        decreases s@.len() - i,
    {
        if s[i] != b[start + i] {
            assert(s@[i as int] != b@.skip(start as int)[i as int]);
            return false;
        }
        i = i + 1;
    }
    assert(s@ =~= b@.skip(start as int));
    true
}

/// The first chord type of the catalog one of whose symbols is the bytes of `b` from
/// `start` on.
fn type_of_suffix(b: &[u8], start: usize) -> (r: Option<ChordType>)
    requires
        start <= b@.len(),
    ensures
        match r {
            Some(t) => first_with_symbol(t, b@.skip(start as int)),
            None => forall|u: ChordType| !#[trigger] has_symbol(u, b@.skip(start as int)),
        },
{
    let ghost suffix = b@.skip(start as int);
    let mut p: usize = 0;
    while p < CHORD_TYPE_COUNT
        invariant
            0 <= p <= CHORD_TYPE_COUNT,
            start <= b@.len(),
            suffix == b@.skip(start as int),
            forall|u: ChordType| u.position() < p ==> !#[trigger] has_symbol(u, suffix),
        decreases CHORD_TYPE_COUNT - p,
    {
        let t = ChordType::from_position(p);
        let symbols = t.symbols();
        let mut j: usize = 0;
        while j < symbols.len()
            invariant
                0 <= j <= symbols@.len(),
                start <= b@.len(),
                suffix == b@.skip(start as int),
                symbols@ == t.symbol_list(),
                t.position() == p,
                forall|u: ChordType| u.position() < p ==> !#[trigger] has_symbol(u, suffix),
                forall|x: int| 0 <= x < j ==> (#[trigger] symbols@[x]).spec_bytes() != suffix,
            decreases symbols@.len() - j,
        {
            if symbol_at(symbols[j], b, start) {
                proof {
                    assert(t.symbol_list()[j as int].spec_bytes() == suffix);
                    assert forall|u: ChordType| #[trigger] has_symbol(u, suffix) implies t.position() <= u.position() by {
                        if u.position() < p {
                            assert(!has_symbol(u, suffix));
                        }
                    }
                }
                return Some(t);
            }
            j = j + 1;
        }
        proof {
            assert forall|u: ChordType| u.position() < p + 1 implies !#[trigger] has_symbol(u, suffix) by {
                if u.position() == p {
                    ChordType::lemma_position_injective(u, t);
                    if has_symbol(u, suffix) {
                        let x = choose|x: int| 0 <= x < t.symbol_list().len() && (#[trigger] t.symbol_list()[x]).spec_bytes() == suffix;
                        assert(symbols@[x].spec_bytes() != suffix);
                    }
                }
            }
        }
        p = p + 1;
    }
    proof {
        assert forall|u: ChordType| !#[trigger] has_symbol(u, suffix) by {
            assert(u.position() < CHORD_TYPE_COUNT);
        }
    }
    None
}

impl ChordType {
    /// The first chord type of the catalog that has the symbol `symbol`, such as `m7`.
    pub fn from_symbol(symbol: &str) -> (r: Result<ChordType, UnrecognizedChordTypeError>)
        ensures
            match r {
                Ok(t) => first_with_symbol(t, symbol.spec_bytes()),
                Err(_) => forall|u: ChordType| !#[trigger] has_symbol(u, symbol.spec_bytes()),
            },
    {
        let b = symbol.as_bytes();
        assert(b@.skip(0) =~= b@);
        match type_of_suffix(b, 0) {
            Some(t) => Ok(t),
            None => Err(UnrecognizedChordTypeError),
        }
    }
}

impl Note {
    /// The note with the name `name`: a letter `A` to `G`, then `#` or `b` or nothing.
    pub fn from_name(name: &str) -> (r: Option<Note>)
        ensures
            match r {
                Some(n) => note_name_value(name.spec_bytes()) == Some((n.pc(), n.flat)),
                None => note_name_value(name.spec_bytes()) is None,
            },
    {
        let b = name.as_bytes();
        assert(b@.take(b@.len() as int) =~= b@);
        note_of_prefix(b, b.len())
    }
}

impl Chord {
    /// The chord with the name `name`: a note name, then a chord symbol, as in `C#m7`.
    /// A two-byte note name is tried before a one-byte one.
    pub fn from_name(name: &str) -> (r: Result<Chord, ParseChordError>)
        ensures
            match r {
                Ok(c) => {
                    ||| splits_at(name.spec_bytes(), 2) && read_at(c, name.spec_bytes(), 2)
                    ||| !splits_at(name.spec_bytes(), 2) && splits_at(name.spec_bytes(), 1) && read_at(
                        c,
                        name.spec_bytes(),
                        1,
                    )
                },
                Err(e) => !splits_at(name.spec_bytes(), 2) && !splits_at(name.spec_bytes(), 1) && e.name@ == name@,
            },
    {
        let b = name.as_bytes();
        let mut i: usize = 2;
        while i >= 1
            invariant
                i <= 2,
                b@ == name.spec_bytes(),
                forall|k: int| i < k <= 2 ==> !#[trigger] splits_at(b@, k),
            decreases i,
        {
            if i <= b.len() {
                match note_of_prefix(b, i) {
                    Some(root) => match type_of_suffix(b, i) {
                        Some(chord_type) => {
                            let c = Chord::new(root, chord_type);
                            return Ok(c);
                        },
                        None => {},
                    },
                    None => {},
                }
            }
            i = i - 1;
        }
        Err(ParseChordError { name: name.to_owned() })
    }
}

impl std::str::FromStr for Chord {
    type Err = ParseChordError;

    fn from_str(s: &str) -> (r: Result<Chord, ParseChordError>)
        ensures
            match r {
                Ok(c) => {
                    ||| splits_at(s.spec_bytes(), 2) && read_at(c, s.spec_bytes(), 2)
                    ||| !splits_at(s.spec_bytes(), 2) && splits_at(s.spec_bytes(), 1) && read_at(c, s.spec_bytes(), 1)
                },
                Err(e) => !splits_at(s.spec_bytes(), 2) && !splits_at(s.spec_bytes(), 1) && e.name@ == s@,
            },
    {
        Chord::from_name(s)
    }
}

} // verus!
