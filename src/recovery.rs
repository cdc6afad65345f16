use vstd::prelude::*;

use crate::chord::Chord;
use crate::chord_type::{interval_set, names_pitch_classes, offset_set, ChordType, NoMatchingChordTypeFoundError};
use crate::note::Note;
use crate::pitch_class::PitchClass;

verus! {

/// The pitch classes of the notes.
pub open spec fn pitch_classes_of(notes: Seq<Note>) -> Seq<PitchClass> {
    notes.map_values(|n: Note| n.pitch_class)
}

/// The offsets above `root` of the pitch classes `root + ivs[i]` are the intervals `ivs`
/// modulo 12.
proof fn lemma_offsets_of_intervals(root: nat, ivs: Seq<u8>, pcs: Seq<PitchClass>)
    requires
        root < 12,
        pcs.len() == ivs.len(),
        forall|i: int| 0 <= i < ivs.len() ==> #[trigger] pcs[i].value() == (root + ivs[i]) % 12,
    ensures
        offset_set(root, pcs) == interval_set(ivs),
    decreases ivs.len(),
{
    if ivs.len() > 0 {
        lemma_offsets_of_intervals(root, ivs.drop_last(), pcs.drop_last());
        let x = ivs.last() as int;
        assert(pcs.last().value() == (root + x) % 12);
        assert(((root + x) % 12 - root) % 12 == x % 12);
    }
}

/// Recovering a chord from the pitch classes of its notes, root first, gives back the chord:
/// the root comes first and the chord type is the only one of the catalog that matches.
pub proof fn lemma_recover_round_trip(c: Chord)
    requires
        c.wf(),
    ensures
        pitch_classes_of(c.notes@).len() > 0,
        pitch_classes_of(c.notes@)[0] == c.root.pitch_class,
        names_pitch_classes(c.chord_type, pitch_classes_of(c.notes@)),
        forall|u: ChordType| #[trigger] names_pitch_classes(u, pitch_classes_of(c.notes@)) ==> u == c.chord_type,
{
    let pcs = pitch_classes_of(c.notes@);
    let t = c.chord_type;
    let root = c.root.pc();
    assert(t.required().len() > 0 && t.required()[0] == 0);
    assert(t.intervals()[0] == 0);
    assert(pcs[0].value() == root) by {
        assert(c.notes@[0].pc() == c.note_pcs()[0]);
    }
    assert(pcs[0] == c.root.pitch_class) by {
        PitchClass::lemma_value_injective(pcs[0], c.root.pitch_class);
    }
    assert forall|i: int| 0 <= i < t.intervals().len() implies #[trigger] pcs[i].value() == (root + t.intervals()[i]) % 12 by {
        assert(c.notes@[i].pc() == c.note_pcs()[i]);
    }
    lemma_offsets_of_intervals(root, t.intervals(), pcs);
    assert forall|u: ChordType| #[trigger] names_pitch_classes(u, pcs) implies u == t by {
        if u != t {
            ChordType::lemma_interval_sets_distinct(u, t);
        }
    }
}

impl Chord {
    /// The chord named by the pitch classes `pitches`: its root is the first of them, its type
    /// the first of the catalog whose intervals, required and optional, are as a set their
    /// offsets above the root.
    pub fn from_pitch_classes(pitches: &[PitchClass]) -> (r: Result<Chord, NoMatchingChordTypeFoundError>)
        requires
            pitches@.len() > 0,
        ensures
            match r {
                Ok(c) => {
                    &&& c.root.pitch_class == pitches@[0]
                    &&& names_pitch_classes(c.chord_type, pitches@)
                    &&& forall|u: ChordType| #[trigger] names_pitch_classes(u, pitches@) ==> c.chord_type.position() <= u.position()
                    &&& c.wf()
                    &&& forall|i: int| 0 <= i < c.notes@.len() ==> !(#[trigger] c.notes@[i]).flat
                },
                Err(_) => forall|u: ChordType| !#[trigger] names_pitch_classes(u, pitches@),
            },
    {
        match ChordType::from_pitch_classes(pitches) {
            Ok(chord_type) => Ok(Chord::new(Note::from_pitch_class(pitches[0]), chord_type)),
            Err(e) => Err(e),
        }
    }

}

} // verus!
