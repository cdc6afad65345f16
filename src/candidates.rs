use vstd::prelude::*;

use crate::chord::Chord;
use crate::combinatorics::note_shift_pairs;
use crate::note::Note;
use crate::voicing::UkeString;
use crate::VoicingConfig;

verus! {

/// The fret on a string with root pitch class `root` that sounds the note of the pair, a
/// number of semitones `p.1` (0 or 12) above the lowest such fret.
pub open spec fn fret_of_pair(root: nat, p: (Note, u8)) -> nat {
    (((p.0.pc() - root) % 12) + p.1) as nat
}

/// Below the second octave, a string sounds a pitch class on exactly two frets.
proof fn lemma_fret_of_pitch_class(root: nat, pc: nat, fret: nat)
    requires
        root < 12,
        pc < 12,
        fret < 24,
        (root + fret) % 12 == pc,
    ensures
        fret == (pc - root) % 12 || fret == (pc - root) % 12 + 12,
{
}

/// Some string of `l` has the fret `fret`.
pub open spec fn has_fret(l: Seq<UkeString>, fret: nat) -> bool {
    exists|k: int| 0 <= k < l.len() && (#[trigger] l[k]).fret == fret
}

impl Chord {
    /// The string with root `root` that sounds `note`, `shift` semitones (0 or 12) above
    /// its lowest place, where that fret lies within the bounds of the configuration.
    fn string_of_pair(&self, root: Note, note: Note, shift: u8, config: VoicingConfig) -> (r: Option<UkeString>)
        requires
            self.played_pcs().contains(note.pc()),
            shift == 0 || shift == 12,
        ensures
            match r {
                Some(u) => self.good_string(config, root.pc(), u) && u.fret == fret_of_pair(root.pc(), (note, shift)),
                None => !(config.min_fret <= fret_of_pair(root.pc(), (note, shift)) <= config.max_fret),
            },
    {
        let fret = note.pitch_class.semitones_from(&root.pitch_class) + shift;
        assert((root.pc() + ((note.pc() - root.pc()) % 12 + shift)) % 12 == note.pc());
        if config.min_fret <= fret && fret <= config.max_fret {
            Some(UkeString { root, fret, note })
        } else {
            None
        }
    }

    /// The frets of the string with root `root` on which a played note of the chord sounds,
    /// each in its lowest place and an octave higher, within the bounds of the configuration.
    pub(crate) fn string_candidates(&self, root: Note, played: &Vec<Note>, config: VoicingConfig) -> (r: Vec<UkeString>)
        requires
            played@.len() == self.played_pcs().len(),
            forall|i: int| 0 <= i < played@.len() ==> (#[trigger] played@[i]).pc() == self.played_pcs()[i],
        ensures
            self.candidates(config, root.pc(), r@),
    {
        let notes = played.clone();
        assert(notes@ =~= played@);
        let mut octaves: Vec<u8> = Vec::new();
        octaves.push(0);
        octaves.push(12);
        let ghost shifts = octaves@;
        assert(shifts.len() == 2 && shifts[0] == 0 && shifts[1] == 12);
        let pairs = note_shift_pairs(notes, octaves);
        assert forall|x: int| 0 <= x < pairs@.len() implies #[trigger] pairs@[x] == (played@[x / 2], shifts[x % 2]) by {
            let i = x / 2;
            let j = x % 2;
            assert(x == i * 2 + j);
            assert(pairs@[i * 2 + j] == (played@[i], shifts[j]));
        }
        let mut r: Vec<UkeString> = Vec::new();
        let mut m: usize = 0;
        while m < pairs.len()
            invariant
                0 <= m <= pairs@.len(),
                shifts.len() == 2 && shifts[0] == 0 && shifts[1] == 12,
                pairs@.len() == played@.len() * 2,
                forall|x: int| 0 <= x < pairs@.len() ==> #[trigger] pairs@[x] == (played@[x / 2], shifts[x % 2]),
                played@.len() == self.played_pcs().len(),
                forall|i: int| 0 <= i < played@.len() ==> (#[trigger] played@[i]).pc() == self.played_pcs()[i],
                forall|k: int| 0 <= k < r@.len() ==> self.good_string(config, root.pc(), #[trigger] r@[k]),
                forall|x: int|
                    0 <= x < m && config.min_fret <= fret_of_pair(root.pc(), #[trigger] pairs@[x]) <= config.max_fret ==> has_fret(
                        r@,
                        fret_of_pair(root.pc(), pairs@[x]),
                    ),
            decreases pairs@.len() - m,
        {
            let (note, shift) = pairs[m];
            proof {
                let i = m as int / 2;
                assert(pairs@[m as int] == (played@[i], shifts[m as int % 2]));
                assert(self.played_pcs()[i] == note.pc());
            }
            let ghost r0 = r@;
            match self.string_of_pair(root, note, shift, config) {
                Some(u) => {
                    r.push(u);
                },
                None => {},
            }
            proof {
                assert forall|x: int|
                    0 <= x < m + 1 && config.min_fret <= fret_of_pair(root.pc(), #[trigger] pairs@[x]) <= config.max_fret implies has_fret(
                        r@,
                        fret_of_pair(root.pc(), pairs@[x]),
                    ) by {
                    if x < m {
                        assert(has_fret(r0, fret_of_pair(root.pc(), pairs@[x])));
                        let k = choose|k: int| 0 <= k < r0.len() && (#[trigger] r0[k]).fret == fret_of_pair(root.pc(), pairs@[x]);
                        assert(r@[k] == r0[k]);
                    } else {
                        assert(r@[r@.len() - 1].fret == fret_of_pair(root.pc(), pairs@[x]));
                    }
                }
            }
            m = m + 1;
        }
        assert forall|f: nat| #[trigger] self.fret_candidate(config, root.pc(), f) implies exists|k: int|
            0 <= k < r@.len() && (#[trigger] r@[k]).fret == f by {
            let i = choose|i: int| 0 <= i < self.played_pcs().len() && self.played_pcs()[i] == (root.pc() + f) % 12;
            lemma_fret_of_pitch_class(root.pc(), played@[i].pc(), f);
            let j: int = if f < 12 { 0 } else { 1 };
            let x = i * 2 + j;
            assert(x / 2 == i && x % 2 == j);
            assert(pairs@[x] == (played@[i], shifts[j]));
            assert(fret_of_pair(root.pc(), pairs@[x]) == f);
            assert(has_fret(r@, f));
        }
        assert forall|k: int| 0 <= k < r@.len() implies {
            &&& (#[trigger] r@[k]).root.pc() == root.pc()
            &&& r@[k].note.pc() == (root.pc() + r@[k].fret) % 12
            &&& self.fret_candidate(config, root.pc(), r@[k].fret as nat)
        } by {
            assert(self.good_string(config, root.pc(), r@[k]));
        }
        r
    }
}

} // verus!
