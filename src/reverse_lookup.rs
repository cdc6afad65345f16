use vstd::prelude::*;

use crate::chord::Chord;
use crate::chord_type::{names_pitch_classes, ChordType};
use crate::pitch_class::PitchClass;
use crate::voicing::{UkeString, Voicing};
use crate::STRING_COUNT;

verus! {

/// The pitch classes that sound in the voicing `v`, with the one of string `s` put first.
pub open spec fn rooted_at(v: Voicing, s: int) -> Seq<PitchClass> {
    seq![v.uke_strings@[s].note.pitch_class] + v.uke_strings@.map_values(|u: UkeString| u.note.pitch_class)
}

/// The chord `c` is the one named by the pitch classes of the voicing `v` with the one of
/// string `s` as root.
pub open spec fn rooted_chord(v: Voicing, c: Chord, s: int) -> bool {
    &&& 0 <= s < STRING_COUNT
    &&& c.root.pitch_class == v.uke_strings@[s].note.pitch_class
    &&& names_pitch_classes(c.chord_type, rooted_at(v, s))
    &&& c.wf()
}

/// Each chord of `r` is named by the pitch classes of `v` with the note of one string as root.
pub open spec fn all_rooted(v: Voicing, r: Seq<Chord>) -> bool {
    forall|j: int| 0 <= j < r.len() ==> rooted_somewhere(v, #[trigger] r[j])
}

/// The chord `c` is named by the pitch classes of `v` with the note of some string as root.
pub open spec fn rooted_somewhere(v: Voicing, c: Chord) -> bool {
    exists|s: int| #[trigger] rooted_chord(v, c, s)
}

/// For each of the first `n` strings whose note is the root of a chord type that the pitch
/// classes of `v` match, `r` holds a chord with that root.
pub open spec fn covers_roots(v: Voicing, r: Seq<Chord>, n: int) -> bool {
    forall|s: int, u: ChordType|
        0 <= s < n && #[trigger] names_pitch_classes(u, rooted_at(v, s)) ==> exists|j: int|
            0 <= j < r.len() && (#[trigger] r[j]).root.pitch_class == v.uke_strings@[s].note.pitch_class
}

/// No two of the chords have the same root pitch class.
pub open spec fn distinct_roots(r: Seq<Chord>) -> bool {
    forall|a: int, b: int| 0 <= a < b < r.len() ==> (#[trigger] r[a]).root.pitch_class != (#[trigger] r[b]).root.pitch_class
}

/// Whether one of the chords has the root pitch class `root`.
fn has_root(chords: &Vec<Chord>, root: PitchClass) -> (r: bool)
    ensures
        r == exists|x: int| 0 <= x < chords@.len() && (#[trigger] chords@[x]).root.pitch_class == root,
{
    let mut j: usize = 0;
    while j < chords.len()
        invariant
            0 <= j <= chords@.len(),
            forall|x: int| 0 <= x < j ==> (#[trigger] chords@[x]).root.pitch_class != root,
        decreases chords@.len() - j,
    {
        if chords[j].root.pitch_class == root {
            return true;
        }
        j = j + 1;
    }
    false
}

impl Voicing {
    /// The pitch classes that sound, with the one of string `s` put first.
    fn rooted_pitch_classes(&self, s: usize) -> (pcs: Vec<PitchClass>)
        requires
            s < STRING_COUNT,
        ensures
            pcs@ == rooted_at(*self, s as int),
    {
        let root = self.uke_strings[s].note.pitch_class;
        let mut pcs: Vec<PitchClass> = Vec::new();
        pcs.push(root);
        let mut t: usize = 0;
        while t < STRING_COUNT
            invariant
                0 <= t <= STRING_COUNT,
                s < STRING_COUNT,
                root == self.uke_strings@[s as int].note.pitch_class,
                pcs@ == seq![root] + self.uke_strings@.map_values(|u: UkeString| u.note.pitch_class).take(t as int),
            decreases STRING_COUNT - t,
        {
            pcs.push(self.uke_strings[t].note.pitch_class);
            t = t + 1;
            assert(pcs@ =~= seq![root] + self.uke_strings@.map_values(|u: UkeString| u.note.pitch_class).take(t as int));
        }
        assert(pcs@ =~= rooted_at(*self, s as int));
        pcs
    }

    /// The chords that the voicing sounds: for each string in turn whose note can be the root
    /// of a chord of the catalog with the notes of the voicing, that chord, once per root.
    pub fn get_chords(&self) -> (r: Vec<Chord>)
        ensures
            all_rooted(*self, r@),
            covers_roots(*self, r@, STRING_COUNT as int),
            distinct_roots(r@),
    {
        let mut r: Vec<Chord> = Vec::new();
        let mut s: usize = 0;
        while s < STRING_COUNT
            invariant
                0 <= s <= STRING_COUNT,
                all_rooted(*self, r@),
                covers_roots(*self, r@, s as int),
                distinct_roots(r@),
            decreases STRING_COUNT - s,
        {
            let root = self.uke_strings[s].note.pitch_class;
            let pcs = self.rooted_pitch_classes(s);
            let ghost r0 = r@;
            // A root that an earlier string sounds already has its chord.
            let seen = has_root(&r, root);
            if !seen {
                match Chord::from_pitch_classes(pcs.as_slice()) {
                    Ok(c) => {
                        r.push(c);
                    },
                    Err(_) => {},
                }
            }
            proof {
                assert forall|j: int| 0 <= j < r@.len() implies rooted_somewhere(*self, #[trigger] r@[j]) by {
                    if j < r0.len() {
                        assert(all_rooted(*self, r0));
                        assert(r@[j] == r0[j]);
                        assert(rooted_somewhere(*self, r0[j]));
                    } else {
                        assert(rooted_chord(*self, r@[j], s as int));
                    }
                }
                assert forall|s2: int, u: ChordType|
                    0 <= s2 < s + 1 && #[trigger] names_pitch_classes(u, rooted_at(*self, s2)) implies exists|j: int|
                        0 <= j < r@.len() && (#[trigger] r@[j]).root.pitch_class == self.uke_strings@[s2].note.pitch_class by {
                    if s2 < s {
                        assert(covers_roots(*self, r0, s as int));
                        let j = choose|j: int| 0 <= j < r0.len() && (#[trigger] r0[j]).root.pitch_class == self.uke_strings@[s2].note.pitch_class;
                        assert(r@[j] == r0[j]);
                    } else if seen {
                        let x = choose|x: int| 0 <= x < r0.len() && (#[trigger] r0[x]).root.pitch_class == root;
                        assert(r@[x] == r0[x]);
                    } else {
                        assert(r@[r@.len() - 1].root.pitch_class == root);
                    }
                }
            }
            assert(all_rooted(*self, r@));
            assert(covers_roots(*self, r@, s + 1));
            assert(distinct_roots(r@)) by {
                assert forall|a: int, b: int| 0 <= a < b < r@.len() implies (#[trigger] r@[a]).root.pitch_class
                    != (#[trigger] r@[b]).root.pitch_class by {
                    if b < r0.len() {
                        assert(r@[a] == r0[a] && r@[b] == r0[b]);
                    } else {
                        assert(r@[a] == r0[a]);
                        assert(r@[b].root.pitch_class == root);
                    }
                }
            }
            s = s + 1;
        }
        r
    }
}

} // verus!
