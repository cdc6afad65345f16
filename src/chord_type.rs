use vstd::prelude::*;

use crate::pitch_class::PitchClass;

verus! {

/// The offsets (modulo 12) of the intervals `s`.
pub open spec fn interval_set(s: Seq<u8>) -> Set<int>
    decreases s.len(),
{
    if s.len() == 0 {
        Set::empty()
    } else {
        interval_set(s.drop_last()).insert(s.last() as int % 12)
    }
}

/// The offsets (modulo 12) of the pitch classes `pcs` above the pitch class `root`.
pub open spec fn offset_set(root: nat, pcs: Seq<PitchClass>) -> Set<int>
    decreases pcs.len(),
{
    if pcs.len() == 0 {
        Set::empty()
    } else {
        offset_set(root, pcs.drop_last()).insert((pcs.last().value() - root) % 12)
    }
}

/// The intervals of the chord type, required and optional, are as a set the offsets of `pcs`
/// above its first pitch class.
pub open spec fn names_pitch_classes(t: ChordType, pcs: Seq<PitchClass>) -> bool {
    interval_set(t.intervals()) == offset_set(pcs[0].value(), pcs)
}

/// The error for pitch classes that no chord type of the catalog matches.
#[derive(Clone, Copy, Debug, PartialEq, Eq, Structural)]
pub struct NoMatchingChordTypeFoundError;

pub proof fn lemma_interval_set_bounded(s: Seq<u8>)
    ensures
        forall|x: int| #[trigger] interval_set(s).contains(x) ==> 0 <= x < 12,
    decreases s.len(),
{
    if s.len() > 0 {
        lemma_interval_set_bounded(s.drop_last());
        assert forall|x: int| #[trigger] interval_set(s).contains(x) implies 0 <= x < 12 by {
            if x != s.last() as int % 12 {
                assert(interval_set(s.drop_last()).contains(x));
            }
        }
    }
}

pub proof fn lemma_offset_set_bounded(root: nat, pcs: Seq<PitchClass>)
    ensures
        forall|x: int| #[trigger] offset_set(root, pcs).contains(x) ==> 0 <= x < 12,
    decreases pcs.len(),
{
    if pcs.len() > 0 {
        lemma_offset_set_bounded(root, pcs.drop_last());
        assert forall|x: int| #[trigger] offset_set(root, pcs).contains(x) implies 0 <= x < 12 by {
            if x != (pcs.last().value() - root) % 12 {
                assert(offset_set(root, pcs.drop_last()).contains(x));
            }
        }
    }
}

/// Which of the offsets 0 to 11 the intervals `ivs` reach.
fn interval_pattern(ivs: &Vec<u8>) -> (r: Vec<bool>)
    ensures
        r@.len() == 12,
        forall|x: int| 0 <= x < 12 ==> #[trigger] r@[x] == interval_set(ivs@).contains(x),
{
    let mut r: Vec<bool> = vec![false, false, false, false, false, false, false, false, false, false, false, false];
    let mut i: usize = 0;
    while i < ivs.len()
        invariant
            0 <= i <= ivs@.len(),
            r@.len() == 12,
            forall|x: int| 0 <= x < 12 ==> #[trigger] r@[x] == interval_set(ivs@.take(i as int)).contains(x),
        decreases ivs@.len() - i,
    {
        assert(ivs@.take(i + 1).drop_last() =~= ivs@.take(i as int));
        r.set((ivs[i] % 12) as usize, true);
        i = i + 1;
    }
    assert(ivs@.take(ivs@.len() as int) =~= ivs@);
    r
}

/// Which of the offsets 0 to 11 the pitch classes `pcs` reach above the first of them.
fn offset_pattern(pcs: &[PitchClass]) -> (r: Vec<bool>)
    requires
        pcs@.len() > 0,
    ensures
        r@.len() == 12,
        forall|x: int| 0 <= x < 12 ==> #[trigger] r@[x] == offset_set(pcs@[0].value(), pcs@).contains(x),
{
    let root = &pcs[0];
    let mut r: Vec<bool> = vec![false, false, false, false, false, false, false, false, false, false, false, false];
    let mut i: usize = 0;
    while i < pcs.len()
        invariant
            0 <= i <= pcs@.len(),
            *root == pcs@[0],
            r@.len() == 12,
            forall|x: int| 0 <= x < 12 ==> #[trigger] r@[x] == offset_set(root.value(), pcs@.take(i as int)).contains(x),
        decreases pcs@.len() - i,
    {
        assert(pcs@.take(i + 1).drop_last() =~= pcs@.take(i as int));
        r.set(pcs[i].semitones_from(root) as usize, true);
        i = i + 1;
    }
    assert(pcs@.take(pcs@.len() as int) =~= pcs@);
    r
}

/// Number of chord types in the catalog.
pub const CHORD_TYPE_COUNT: usize = 34;

/// The quality of a chord, such as major or minor seventh.
///
/// Each chord type is given by the intervals (in semitones above the root) that must sound,
/// and those that may be added. The catalog is enumerated in the order of declaration.
#[derive(Clone, Copy, Debug, PartialEq, Eq, Structural, PartialOrd, Ord, Hash)]
pub enum ChordType {
    Major,
    MajorSeventh,
    MajorNinth,
    MajorEleventh,
    MajorThirteenth,
    MajorSixth,
    SixthNinth,
    DominantSeventh,
    DominantNinth,
    DominantEleventh,
    DominantThirteenth,
    DominantSeventhFlatNinth,
    DominantSeventhSharpNinth,
    DominantSeventhFlatFifth,
    SuspendedFourth,
    SuspendedSecond,
    DominantSeventhSuspendedFourth,
    DominantSeventhSuspendedSecond,
    Minor,
    MinorSeventh,
    MinorMajorSeventh,
    MinorSixth,
    MinorNinth,
    MinorEleventh,
    MinorThirteenth,
    Diminished,
    DiminishedSeventh,
    HalfDiminishedSeventh,
    Fifth,
    Augmented,
    AugmentedSeventh,
    AugmentedMajorSeventh,
    AddedNinth,
    AddedFourth,
}

impl ChordType {
    /// The intervals that every voicing of the chord must sound, root first.
    pub open spec fn required(self) -> Seq<u8> {
        match self {
            ChordType::Major => seq![0u8, 4, 7],
            ChordType::MajorSeventh => seq![0u8, 4, 11],
            ChordType::MajorNinth => seq![0u8, 4, 11, 14],
            ChordType::MajorEleventh => seq![0u8, 4, 11, 17],
            ChordType::MajorThirteenth => seq![0u8, 4, 11, 21],
            ChordType::MajorSixth => seq![0u8, 4, 9],
            ChordType::SixthNinth => seq![0u8, 4, 9, 14],
            ChordType::DominantSeventh => seq![0u8, 4, 10],
            ChordType::DominantNinth => seq![0u8, 4, 10, 14],
            ChordType::DominantEleventh => seq![0u8, 4, 10, 17],
            ChordType::DominantThirteenth => seq![0u8, 4, 10, 21],
            ChordType::DominantSeventhFlatNinth => seq![0u8, 4, 10, 13],
            ChordType::DominantSeventhSharpNinth => seq![0u8, 4, 10, 15],
            ChordType::DominantSeventhFlatFifth => seq![0u8, 4, 6, 10],
            ChordType::SuspendedFourth => seq![0u8, 5, 7],
            ChordType::SuspendedSecond => seq![0u8, 2, 7],
            ChordType::DominantSeventhSuspendedFourth => seq![0u8, 5, 7, 10],
            ChordType::DominantSeventhSuspendedSecond => seq![0u8, 2, 7, 10],
            ChordType::Minor => seq![0u8, 3, 7],
            ChordType::MinorSeventh => seq![0u8, 3, 10],
            ChordType::MinorMajorSeventh => seq![0u8, 3, 11],
            ChordType::MinorSixth => seq![0u8, 3, 9],
            ChordType::MinorNinth => seq![0u8, 3, 10, 14],
            ChordType::MinorEleventh => seq![0u8, 3, 10, 17],
            ChordType::MinorThirteenth => seq![0u8, 3, 10, 21],
            ChordType::Diminished => seq![0u8, 3, 6],
            ChordType::DiminishedSeventh => seq![0u8, 3, 6, 9],
            ChordType::HalfDiminishedSeventh => seq![0u8, 3, 6, 10],
            ChordType::Fifth => seq![0u8, 7],
            ChordType::Augmented => seq![0u8, 4, 8],
            ChordType::AugmentedSeventh => seq![0u8, 4, 8, 10],
            ChordType::AugmentedMajorSeventh => seq![0u8, 4, 8, 11],
            ChordType::AddedNinth => seq![0u8, 4, 7, 14],
            ChordType::AddedFourth => seq![0u8, 4, 5, 7],
        }
    }

    /// The intervals that a voicing of the chord may add.
    pub open spec fn optional(self) -> Seq<u8> {
        match self {
            ChordType::Major => Seq::<u8>::empty(),
            ChordType::MajorSeventh => seq![7u8],
            ChordType::MajorNinth => seq![7u8],
            ChordType::MajorEleventh => seq![7u8, 14],
            ChordType::MajorThirteenth => seq![7u8, 14, 17],
            ChordType::MajorSixth => seq![7u8],
            ChordType::SixthNinth => seq![7u8],
            ChordType::DominantSeventh => seq![7u8],
            ChordType::DominantNinth => seq![7u8],
            ChordType::DominantEleventh => seq![7u8, 14],
            ChordType::DominantThirteenth => seq![7u8, 14, 17],
            ChordType::DominantSeventhFlatNinth => seq![7u8],
            ChordType::DominantSeventhSharpNinth => seq![7u8],
            ChordType::DominantSeventhFlatFifth => Seq::<u8>::empty(),
            ChordType::SuspendedFourth => Seq::<u8>::empty(),
            ChordType::SuspendedSecond => Seq::<u8>::empty(),
            ChordType::DominantSeventhSuspendedFourth => Seq::<u8>::empty(),
            ChordType::DominantSeventhSuspendedSecond => Seq::<u8>::empty(),
            ChordType::Minor => Seq::<u8>::empty(),
            ChordType::MinorSeventh => seq![7u8],
            ChordType::MinorMajorSeventh => seq![7u8],
            ChordType::MinorSixth => seq![7u8],
            ChordType::MinorNinth => seq![7u8],
            ChordType::MinorEleventh => seq![7u8, 14],
            ChordType::MinorThirteenth => seq![7u8, 14, 17],
            ChordType::Diminished => Seq::<u8>::empty(),
            ChordType::DiminishedSeventh => Seq::<u8>::empty(),
            ChordType::HalfDiminishedSeventh => Seq::<u8>::empty(),
            ChordType::Fifth => Seq::<u8>::empty(),
            ChordType::Augmented => Seq::<u8>::empty(),
            ChordType::AugmentedSeventh => Seq::<u8>::empty(),
            ChordType::AugmentedMajorSeventh => Seq::<u8>::empty(),
            ChordType::AddedNinth => Seq::<u8>::empty(),
            ChordType::AddedFourth => Seq::<u8>::empty(),
        }
    }

    /// All intervals of the chord type: the required ones, then the optional ones.
    pub open spec fn intervals(self) -> Seq<u8> {
        self.required() + self.optional()
    }

    /// The position of the chord type in the catalog.
    pub open spec fn position(self) -> nat {
        match self {
            ChordType::Major => 0,
            ChordType::MajorSeventh => 1,
            ChordType::MajorNinth => 2,
            ChordType::MajorEleventh => 3,
            ChordType::MajorThirteenth => 4,
            ChordType::MajorSixth => 5,
            ChordType::SixthNinth => 6,
            ChordType::DominantSeventh => 7,
            ChordType::DominantNinth => 8,
            ChordType::DominantEleventh => 9,
            ChordType::DominantThirteenth => 10,
            ChordType::DominantSeventhFlatNinth => 11,
            ChordType::DominantSeventhSharpNinth => 12,
            ChordType::DominantSeventhFlatFifth => 13,
            ChordType::SuspendedFourth => 14,
            ChordType::SuspendedSecond => 15,
            ChordType::DominantSeventhSuspendedFourth => 16,
            ChordType::DominantSeventhSuspendedSecond => 17,
            ChordType::Minor => 18,
            ChordType::MinorSeventh => 19,
            ChordType::MinorMajorSeventh => 20,
            ChordType::MinorSixth => 21,
            ChordType::MinorNinth => 22,
            ChordType::MinorEleventh => 23,
            ChordType::MinorThirteenth => 24,
            ChordType::Diminished => 25,
            ChordType::DiminishedSeventh => 26,
            ChordType::HalfDiminishedSeventh => 27,
            ChordType::Fifth => 28,
            ChordType::Augmented => 29,
            ChordType::AugmentedSeventh => 30,
            ChordType::AugmentedMajorSeventh => 31,
            ChordType::AddedNinth => 32,
            ChordType::AddedFourth => 33,
        }
    }

    pub fn required_intervals(&self) -> (r: Vec<u8>)
        ensures
            r@ == self.required(),
    {
        match self {
            ChordType::Major => vec![0, 4, 7],
            ChordType::MajorSeventh => vec![0, 4, 11],
            ChordType::MajorNinth => vec![0, 4, 11, 14],
            ChordType::MajorEleventh => vec![0, 4, 11, 17],
            ChordType::MajorThirteenth => vec![0, 4, 11, 21],
            ChordType::MajorSixth => vec![0, 4, 9],
            ChordType::SixthNinth => vec![0, 4, 9, 14],
            ChordType::DominantSeventh => vec![0, 4, 10],
            ChordType::DominantNinth => vec![0, 4, 10, 14],
            ChordType::DominantEleventh => vec![0, 4, 10, 17],
            ChordType::DominantThirteenth => vec![0, 4, 10, 21],
            ChordType::DominantSeventhFlatNinth => vec![0, 4, 10, 13],
            ChordType::DominantSeventhSharpNinth => vec![0, 4, 10, 15],
            ChordType::DominantSeventhFlatFifth => vec![0, 4, 6, 10],
            ChordType::SuspendedFourth => vec![0, 5, 7],
            ChordType::SuspendedSecond => vec![0, 2, 7],
            ChordType::DominantSeventhSuspendedFourth => vec![0, 5, 7, 10],
            ChordType::DominantSeventhSuspendedSecond => vec![0, 2, 7, 10],
            ChordType::Minor => vec![0, 3, 7],
            ChordType::MinorSeventh => vec![0, 3, 10],
            ChordType::MinorMajorSeventh => vec![0, 3, 11],
            ChordType::MinorSixth => vec![0, 3, 9],
            ChordType::MinorNinth => vec![0, 3, 10, 14],
            ChordType::MinorEleventh => vec![0, 3, 10, 17],
            ChordType::MinorThirteenth => vec![0, 3, 10, 21],
            ChordType::Diminished => vec![0, 3, 6],
            ChordType::DiminishedSeventh => vec![0, 3, 6, 9],
            ChordType::HalfDiminishedSeventh => vec![0, 3, 6, 10],
            ChordType::Fifth => vec![0, 7],
            ChordType::Augmented => vec![0, 4, 8],
            ChordType::AugmentedSeventh => vec![0, 4, 8, 10],
            ChordType::AugmentedMajorSeventh => vec![0, 4, 8, 11],
            ChordType::AddedNinth => vec![0, 4, 7, 14],
            ChordType::AddedFourth => vec![0, 4, 5, 7],
        }
    }

    pub fn optional_intervals(&self) -> (r: Vec<u8>)
        ensures
            r@ == self.optional(),
    {
        match self {
            ChordType::Major => Vec::new(),
            ChordType::MajorSeventh => vec![7],
            ChordType::MajorNinth => vec![7],
            ChordType::MajorEleventh => vec![7, 14],
            ChordType::MajorThirteenth => vec![7, 14, 17],
            ChordType::MajorSixth => vec![7],
            ChordType::SixthNinth => vec![7],
            ChordType::DominantSeventh => vec![7],
            ChordType::DominantNinth => vec![7],
            ChordType::DominantEleventh => vec![7, 14],
            ChordType::DominantThirteenth => vec![7, 14, 17],
            ChordType::DominantSeventhFlatNinth => vec![7],
            ChordType::DominantSeventhSharpNinth => vec![7],
            ChordType::DominantSeventhFlatFifth => Vec::new(),
            ChordType::SuspendedFourth => Vec::new(),
            ChordType::SuspendedSecond => Vec::new(),
            ChordType::DominantSeventhSuspendedFourth => Vec::new(),
            ChordType::DominantSeventhSuspendedSecond => Vec::new(),
            ChordType::Minor => Vec::new(),
            ChordType::MinorSeventh => vec![7],
            ChordType::MinorMajorSeventh => vec![7],
            ChordType::MinorSixth => vec![7],
            ChordType::MinorNinth => vec![7],
            ChordType::MinorEleventh => vec![7, 14],
            ChordType::MinorThirteenth => vec![7, 14, 17],
            ChordType::Diminished => Vec::new(),
            ChordType::DiminishedSeventh => Vec::new(),
            ChordType::HalfDiminishedSeventh => Vec::new(),
            ChordType::Fifth => Vec::new(),
            ChordType::Augmented => Vec::new(),
            ChordType::AugmentedSeventh => Vec::new(),
            ChordType::AugmentedMajorSeventh => Vec::new(),
            ChordType::AddedNinth => Vec::new(),
            ChordType::AddedFourth => Vec::new(),
        }
    }

    /// The offsets of all intervals, required and optional, written out.
    pub open spec fn offsets(self) -> Set<int> {
        match self {
            ChordType::Major => set![0int, 4, 7],
            ChordType::MajorSeventh => set![0int, 4, 7, 11],
            ChordType::MajorNinth => set![0int, 2, 4, 7, 11],
            ChordType::MajorEleventh => set![0int, 2, 4, 5, 7, 11],
            ChordType::MajorThirteenth => set![0int, 2, 4, 5, 7, 9, 11],
            ChordType::MajorSixth => set![0int, 4, 7, 9],
            ChordType::SixthNinth => set![0int, 2, 4, 7, 9],
            ChordType::DominantSeventh => set![0int, 4, 7, 10],
            ChordType::DominantNinth => set![0int, 2, 4, 7, 10],
            ChordType::DominantEleventh => set![0int, 2, 4, 5, 7, 10],
            ChordType::DominantThirteenth => set![0int, 2, 4, 5, 7, 9, 10],
            ChordType::DominantSeventhFlatNinth => set![0int, 1, 4, 7, 10],
            ChordType::DominantSeventhSharpNinth => set![0int, 3, 4, 7, 10],
            ChordType::DominantSeventhFlatFifth => set![0int, 4, 6, 10],
            ChordType::SuspendedFourth => set![0int, 5, 7],
            ChordType::SuspendedSecond => set![0int, 2, 7],
            ChordType::DominantSeventhSuspendedFourth => set![0int, 5, 7, 10],
            ChordType::DominantSeventhSuspendedSecond => set![0int, 2, 7, 10],
            ChordType::Minor => set![0int, 3, 7],
            ChordType::MinorSeventh => set![0int, 3, 7, 10],
            ChordType::MinorMajorSeventh => set![0int, 3, 7, 11],
            ChordType::MinorSixth => set![0int, 3, 7, 9],
            ChordType::MinorNinth => set![0int, 2, 3, 7, 10],
            ChordType::MinorEleventh => set![0int, 2, 3, 5, 7, 10],
            ChordType::MinorThirteenth => set![0int, 2, 3, 5, 7, 9, 10],
            ChordType::Diminished => set![0int, 3, 6],
            ChordType::DiminishedSeventh => set![0int, 3, 6, 9],
            ChordType::HalfDiminishedSeventh => set![0int, 3, 6, 10],
            ChordType::Fifth => set![0int, 7],
            ChordType::Augmented => set![0int, 4, 8],
            ChordType::AugmentedSeventh => set![0int, 4, 8, 10],
            ChordType::AugmentedMajorSeventh => set![0int, 4, 8, 11],
            ChordType::AddedNinth => set![0int, 2, 4, 7],
            ChordType::AddedFourth => set![0int, 4, 5, 7],
        }
    }

    pub proof fn lemma_offsets(self)
        ensures
            interval_set(self.intervals()) == self.offsets(),
    {
        reveal_with_fuel(interval_set, 8);
        assert(interval_set(self.intervals()) =~= self.offsets());
    }

    /// No two chord types of the catalog have the same set of intervals.
    pub proof fn lemma_interval_sets_distinct(a: ChordType, b: ChordType)
        requires
            a != b,
        ensures
            interval_set(a.intervals()) != interval_set(b.intervals()),
    {
        a.lemma_offsets();
        b.lemma_offsets();
        if a.offsets() == b.offsets() {
            assert(a.offsets().contains(0) == b.offsets().contains(0));
            assert(a.offsets().contains(1) == b.offsets().contains(1));
            assert(a.offsets().contains(2) == b.offsets().contains(2));
            assert(a.offsets().contains(3) == b.offsets().contains(3));
            assert(a.offsets().contains(4) == b.offsets().contains(4));
            assert(a.offsets().contains(5) == b.offsets().contains(5));
            assert(a.offsets().contains(6) == b.offsets().contains(6));
            assert(a.offsets().contains(7) == b.offsets().contains(7));
            assert(a.offsets().contains(8) == b.offsets().contains(8));
            assert(a.offsets().contains(9) == b.offsets().contains(9));
            assert(a.offsets().contains(10) == b.offsets().contains(10));
            assert(a.offsets().contains(11) == b.offsets().contains(11));
            assert(false);
        }
    }

    /// The chord type at position `i` of the catalog.
    pub open spec fn at(i: nat) -> ChordType {
        if i == 0 {
            ChordType::Major
        } else if i == 1 {
            ChordType::MajorSeventh
        } else if i == 2 {
            ChordType::MajorNinth
        } else if i == 3 {
            ChordType::MajorEleventh
        } else if i == 4 {
            ChordType::MajorThirteenth
        } else if i == 5 {
            ChordType::MajorSixth
        } else if i == 6 {
            ChordType::SixthNinth
        } else if i == 7 {
            ChordType::DominantSeventh
        } else if i == 8 {
            ChordType::DominantNinth
        } else if i == 9 {
            ChordType::DominantEleventh
        } else if i == 10 {
            ChordType::DominantThirteenth
        } else if i == 11 {
            ChordType::DominantSeventhFlatNinth
        } else if i == 12 {
            ChordType::DominantSeventhSharpNinth
        } else if i == 13 {
            ChordType::DominantSeventhFlatFifth
        } else if i == 14 {
            ChordType::SuspendedFourth
        } else if i == 15 {
            ChordType::SuspendedSecond
        } else if i == 16 {
            ChordType::DominantSeventhSuspendedFourth
        } else if i == 17 {
            ChordType::DominantSeventhSuspendedSecond
        } else if i == 18 {
            ChordType::Minor
        } else if i == 19 {
            ChordType::MinorSeventh
        } else if i == 20 {
            ChordType::MinorMajorSeventh
        } else if i == 21 {
            ChordType::MinorSixth
        } else if i == 22 {
            ChordType::MinorNinth
        } else if i == 23 {
            ChordType::MinorEleventh
        } else if i == 24 {
            ChordType::MinorThirteenth
        } else if i == 25 {
            ChordType::Diminished
        } else if i == 26 {
            ChordType::DiminishedSeventh
        } else if i == 27 {
            ChordType::HalfDiminishedSeventh
        } else if i == 28 {
            ChordType::Fifth
        } else if i == 29 {
            ChordType::Augmented
        } else if i == 30 {
            ChordType::AugmentedSeventh
        } else if i == 31 {
            ChordType::AugmentedMajorSeventh
        } else if i == 32 {
            ChordType::AddedNinth
        } else {
            ChordType::AddedFourth
        }
    }

    pub proof fn lemma_position_injective(a: ChordType, b: ChordType)
        requires
            a.position() == b.position(),
        ensures
            a == b,
    {
        assert(ChordType::at(a.position()) == a);
        assert(ChordType::at(b.position()) == b);
    }

    /// The first chord type of the catalog whose intervals, required and optional, are as a
    /// set the offsets of `pcs` above the first of them.
    pub fn from_pitch_classes(pcs: &[PitchClass]) -> (r: Result<ChordType, NoMatchingChordTypeFoundError>)
        requires
            pcs@.len() > 0,
        ensures
            match r {
                Ok(t) => names_pitch_classes(t, pcs@) && forall|u: ChordType| #[trigger] names_pitch_classes(u, pcs@) ==> t.position() <= u.position(),
                Err(_) => forall|u: ChordType| !#[trigger] names_pitch_classes(u, pcs@),
            },
    {
        let target = offset_pattern(pcs);
        proof {
            lemma_offset_set_bounded(pcs@[0].value(), pcs@);
        }
        let mut p: usize = 0;
        while p < CHORD_TYPE_COUNT
            invariant
                0 <= p <= CHORD_TYPE_COUNT,
                pcs@.len() > 0,
                target@.len() == 12,
                forall|x: int| 0 <= x < 12 ==> #[trigger] target@[x] == offset_set(pcs@[0].value(), pcs@).contains(x),
                forall|x: int| #[trigger] offset_set(pcs@[0].value(), pcs@).contains(x) ==> 0 <= x < 12,
                forall|u: ChordType| u.position() < p ==> !#[trigger] names_pitch_classes(u, pcs@),
            decreases CHORD_TYPE_COUNT - p,
        {
            let t = ChordType::from_position(p);
            let mut ivs = t.required_intervals();
            let mut opt = t.optional_intervals();
            ivs.append(&mut opt);
            assert(ivs@ =~= t.intervals());
            let pattern = interval_pattern(&ivs);
            proof {
                lemma_interval_set_bounded(t.intervals());
            }
            let mut same = true;
            let mut x: usize = 0;
            while x < 12
                invariant
                    0 <= x <= 12,
                    target@.len() == 12,
                    pattern@.len() == 12,
                    same == forall|y: int| 0 <= y < x ==> target@[y] == pattern@[y],
                decreases 12 - x,
            {
                same = same && target[x] == pattern[x];
                x = x + 1;
            }
            proof {
                if same {
                    assert(interval_set(t.intervals()) =~= offset_set(pcs@[0].value(), pcs@)) by {
                        assert forall|y: int| interval_set(t.intervals()).contains(y) == offset_set(pcs@[0].value(), pcs@).contains(y) by {
                            if 0 <= y < 12 {
                                assert(target@[y] == pattern@[y]);
                            }
                        }
                    }
                    assert forall|u: ChordType| #[trigger] names_pitch_classes(u, pcs@) implies t.position() <= u.position() by {
                        if u.position() < p {
                            assert(!names_pitch_classes(u, pcs@));
                        }
                    }
                } else {
                    let y = choose|y: int| 0 <= y < 12 && target@[y] != pattern@[y];
                    assert(interval_set(t.intervals()).contains(y) != offset_set(pcs@[0].value(), pcs@).contains(y));
                    assert forall|u: ChordType| u.position() < p + 1 implies !#[trigger] names_pitch_classes(u, pcs@) by {
                        if u.position() == p {
                            ChordType::lemma_position_injective(u, t);
                        }
                    }
                }
            }
            if same {
                return Ok(t);
            }
            p = p + 1;
        }
        proof {
            assert forall|u: ChordType| !#[trigger] names_pitch_classes(u, pcs@) by {
                assert(u.position() < CHORD_TYPE_COUNT);
            }
        }
        Err(NoMatchingChordTypeFoundError)
    }

    /// The chord type at position `i` of the catalog.
    pub fn from_position(i: usize) -> (r: ChordType)
        requires
            i < CHORD_TYPE_COUNT,
        ensures
            r.position() == i,
    {
        match i {
            0 => ChordType::Major,
            1 => ChordType::MajorSeventh,
            2 => ChordType::MajorNinth,
            3 => ChordType::MajorEleventh,
            4 => ChordType::MajorThirteenth,
            5 => ChordType::MajorSixth,
            6 => ChordType::SixthNinth,
            7 => ChordType::DominantSeventh,
            8 => ChordType::DominantNinth,
            9 => ChordType::DominantEleventh,
            10 => ChordType::DominantThirteenth,
            11 => ChordType::DominantSeventhFlatNinth,
            12 => ChordType::DominantSeventhSharpNinth,
            13 => ChordType::DominantSeventhFlatFifth,
            14 => ChordType::SuspendedFourth,
            15 => ChordType::SuspendedSecond,
            16 => ChordType::DominantSeventhSuspendedFourth,
            17 => ChordType::DominantSeventhSuspendedSecond,
            18 => ChordType::Minor,
            19 => ChordType::MinorSeventh,
            20 => ChordType::MinorMajorSeventh,
            21 => ChordType::MinorSixth,
            22 => ChordType::MinorNinth,
            23 => ChordType::MinorEleventh,
            24 => ChordType::MinorThirteenth,
            25 => ChordType::Diminished,
            26 => ChordType::DiminishedSeventh,
            27 => ChordType::HalfDiminishedSeventh,
            28 => ChordType::Fifth,
            29 => ChordType::Augmented,
            30 => ChordType::AugmentedSeventh,
            31 => ChordType::AugmentedMajorSeventh,
            32 => ChordType::AddedNinth,
            _ => ChordType::AddedFourth,
        }
    }

    /// A readable name of the chord type, as `name` returns it.
    pub open spec fn name_spec(self) -> &'static str {
        match self {
            ChordType::Major => "major",
            ChordType::MajorSeventh => "major 7th",
            ChordType::MajorNinth => "major 9th",
            ChordType::MajorEleventh => "major 11th",
            ChordType::MajorThirteenth => "major 13th",
            ChordType::MajorSixth => "major 6th",
            ChordType::SixthNinth => "6th/9th",
            ChordType::DominantSeventh => "dominant 7th",
            ChordType::DominantNinth => "dominant 9th",
            ChordType::DominantEleventh => "dominant 11th",
            ChordType::DominantThirteenth => "dominant 13th",
            ChordType::DominantSeventhFlatNinth => "dominant 7th flat 9th",
            ChordType::DominantSeventhSharpNinth => "dominant 7th sharp 9th",
            ChordType::DominantSeventhFlatFifth => "dominant 7th flat 5th",
            ChordType::SuspendedFourth => "suspended 4th",
            ChordType::SuspendedSecond => "suspended 2nd",
            ChordType::DominantSeventhSuspendedFourth => "dominant 7th suspended 4th",
            ChordType::DominantSeventhSuspendedSecond => "dominant 7th suspended 2nd",
            ChordType::Minor => "minor",
            ChordType::MinorSeventh => "minor 7th",
            ChordType::MinorMajorSeventh => "minor/major 7th",
            ChordType::MinorSixth => "minor 6th",
            ChordType::MinorNinth => "minor 9th",
            ChordType::MinorEleventh => "minor 11th",
            ChordType::MinorThirteenth => "minor 13th",
            ChordType::Diminished => "diminished",
            ChordType::DiminishedSeventh => "diminished 7th",
            ChordType::HalfDiminishedSeventh => "half-diminished 7th",
            ChordType::Fifth => "fifth",
            ChordType::Augmented => "augmented",
            ChordType::AugmentedSeventh => "augmented 7th",
            ChordType::AugmentedMajorSeventh => "augmented major 7th",
            ChordType::AddedNinth => "added 9th",
            ChordType::AddedFourth => "added 4th",
        }
    }

    /// A readable name of the chord type.
    pub fn name(&self) -> (r: &'static str)
        ensures
            r == self.name_spec(),
    {
        match self {
            ChordType::Major => "major",
            ChordType::MajorSeventh => "major 7th",
            ChordType::MajorNinth => "major 9th",
            ChordType::MajorEleventh => "major 11th",
            ChordType::MajorThirteenth => "major 13th",
            ChordType::MajorSixth => "major 6th",
            ChordType::SixthNinth => "6th/9th",
            ChordType::DominantSeventh => "dominant 7th",
            ChordType::DominantNinth => "dominant 9th",
            ChordType::DominantEleventh => "dominant 11th",
            ChordType::DominantThirteenth => "dominant 13th",
            ChordType::DominantSeventhFlatNinth => "dominant 7th flat 9th",
            ChordType::DominantSeventhSharpNinth => "dominant 7th sharp 9th",
            ChordType::DominantSeventhFlatFifth => "dominant 7th flat 5th",
            ChordType::SuspendedFourth => "suspended 4th",
            ChordType::SuspendedSecond => "suspended 2nd",
            ChordType::DominantSeventhSuspendedFourth => "dominant 7th suspended 4th",
            ChordType::DominantSeventhSuspendedSecond => "dominant 7th suspended 2nd",
            ChordType::Minor => "minor",
            ChordType::MinorSeventh => "minor 7th",
            ChordType::MinorMajorSeventh => "minor/major 7th",
            ChordType::MinorSixth => "minor 6th",
            ChordType::MinorNinth => "minor 9th",
            ChordType::MinorEleventh => "minor 11th",
            ChordType::MinorThirteenth => "minor 13th",
            ChordType::Diminished => "diminished",
            ChordType::DiminishedSeventh => "diminished 7th",
            ChordType::HalfDiminishedSeventh => "half-diminished 7th",
            ChordType::Fifth => "fifth",
            ChordType::Augmented => "augmented",
            ChordType::AugmentedSeventh => "augmented 7th",
            ChordType::AugmentedMajorSeventh => "augmented major 7th",
            ChordType::AddedNinth => "added 9th",
            ChordType::AddedFourth => "added 4th",
        }
    }

    /// The symbols that denote the chord type after a root note, the canonical one first.
    pub open spec fn symbol_list(self) -> Seq<&'static str> {
        match self {
            ChordType::Major => seq!["", "maj", "M"],
            ChordType::MajorSeventh => seq!["maj7", "M7"],
            ChordType::MajorNinth => seq!["maj9", "M9"],
            ChordType::MajorEleventh => seq!["maj11", "M11"],
            ChordType::MajorThirteenth => seq!["maj13", "M13"],
            ChordType::MajorSixth => seq!["6", "maj6", "M6"],
            ChordType::SixthNinth => seq!["6/9", "maj6/9", "M6/9"],
            ChordType::DominantSeventh => seq!["7", "dom"],
            ChordType::DominantNinth => seq!["9"],
            ChordType::DominantEleventh => seq!["11"],
            ChordType::DominantThirteenth => seq!["13"],
            ChordType::DominantSeventhFlatNinth => seq!["7b9"],
            ChordType::DominantSeventhSharpNinth => seq!["7#9"],
            ChordType::DominantSeventhFlatFifth => seq!["7b5", "7dim5"],
            ChordType::SuspendedFourth => seq!["sus4", "sus"],
            ChordType::SuspendedSecond => seq!["sus2"],
            ChordType::DominantSeventhSuspendedFourth => seq!["7sus4", "7sus"],
            ChordType::DominantSeventhSuspendedSecond => seq!["7sus2"],
            ChordType::Minor => seq!["m", "min"],
            ChordType::MinorSeventh => seq!["m7", "min7"],
            ChordType::MinorMajorSeventh => seq!["mMaj7", "mM7", "minMaj7"],
            ChordType::MinorSixth => seq!["m6", "min6"],
            ChordType::MinorNinth => seq!["m9", "min9"],
            ChordType::MinorEleventh => seq!["m11", "min11"],
            ChordType::MinorThirteenth => seq!["m13", "min13"],
            ChordType::Diminished => seq!["dim", "o"],
            ChordType::DiminishedSeventh => seq!["dim7", "o7"],
            ChordType::HalfDiminishedSeventh => seq!["m7b5"],
            ChordType::Fifth => seq!["5"],
            ChordType::Augmented => seq!["aug", "+"],
            ChordType::AugmentedSeventh => seq!["aug7", "+7", "7#5"],
            ChordType::AugmentedMajorSeventh => seq!["augMaj7", "+M7"],
            ChordType::AddedNinth => seq!["add9", "add2"],
            ChordType::AddedFourth => seq!["add4"],
        }
    }

    /// The symbols that denote the chord type after a root note, the canonical one first.
    pub fn symbols(&self) -> (r: Vec<&'static str>)
        ensures
            r@ == self.symbol_list(),
    {
        match self {
            ChordType::Major => vec!["", "maj", "M"],
            ChordType::MajorSeventh => vec!["maj7", "M7"],
            ChordType::MajorNinth => vec!["maj9", "M9"],
            ChordType::MajorEleventh => vec!["maj11", "M11"],
            ChordType::MajorThirteenth => vec!["maj13", "M13"],
            ChordType::MajorSixth => vec!["6", "maj6", "M6"],
            ChordType::SixthNinth => vec!["6/9", "maj6/9", "M6/9"],
            ChordType::DominantSeventh => vec!["7", "dom"],
            ChordType::DominantNinth => vec!["9"],
            ChordType::DominantEleventh => vec!["11"],
            ChordType::DominantThirteenth => vec!["13"],
            ChordType::DominantSeventhFlatNinth => vec!["7b9"],
            ChordType::DominantSeventhSharpNinth => vec!["7#9"],
            ChordType::DominantSeventhFlatFifth => vec!["7b5", "7dim5"],
            ChordType::SuspendedFourth => vec!["sus4", "sus"],
            ChordType::SuspendedSecond => vec!["sus2"],
            ChordType::DominantSeventhSuspendedFourth => vec!["7sus4", "7sus"],
            ChordType::DominantSeventhSuspendedSecond => vec!["7sus2"],
            ChordType::Minor => vec!["m", "min"],
            ChordType::MinorSeventh => vec!["m7", "min7"],
            ChordType::MinorMajorSeventh => vec!["mMaj7", "mM7", "minMaj7"],
            ChordType::MinorSixth => vec!["m6", "min6"],
            ChordType::MinorNinth => vec!["m9", "min9"],
            ChordType::MinorEleventh => vec!["m11", "min11"],
            ChordType::MinorThirteenth => vec!["m13", "min13"],
            ChordType::Diminished => vec!["dim", "o"],
            ChordType::DiminishedSeventh => vec!["dim7", "o7"],
            ChordType::HalfDiminishedSeventh => vec!["m7b5"],
            ChordType::Fifth => vec!["5"],
            ChordType::Augmented => vec!["aug", "+"],
            ChordType::AugmentedSeventh => vec!["aug7", "+7", "7#5"],
            ChordType::AugmentedMajorSeventh => vec!["augMaj7", "+M7"],
            ChordType::AddedNinth => vec!["add9", "add2"],
            ChordType::AddedFourth => vec!["add4"],
        }
    }
}

} // verus!
