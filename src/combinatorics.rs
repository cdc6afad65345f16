use vstd::prelude::*;

use itertools::Itertools;

use crate::note::Note;
use crate::voicing::UkeString;

verus! {

/// `c` picks one item of each list of `lists`, in order.
pub open spec fn picks_one_of_each<T>(lists: Seq<Seq<T>>, c: Seq<T>) -> bool {
    &&& c.len() == lists.len()
    &&& forall|i: int| 0 <= i < lists.len() ==> #[trigger] lists[i].contains(c[i])
}

/// Relies on itertools' `Itertools::cartesian_product`: every pair of a note of `notes`
/// and a number of `shifts`, in the order of `notes`, then of `shifts`.
#[verifier::external_body]
pub(crate) fn note_shift_pairs(notes: Vec<Note>, shifts: Vec<u8>) -> (r: Vec<(Note, u8)>)
    ensures
        r@.len() == notes@.len() * shifts@.len(),
        forall|i: int, j: int|
            0 <= i < notes@.len() && 0 <= j < shifts@.len() ==> #[trigger] r@[i * shifts@.len() + j] == (
            notes@[i],
            shifts@[j],
        ),
{
    notes.into_iter().cartesian_product(shifts).collect()
}

/// The contents of each list.
pub open spec fn contents(lists: Seq<Vec<UkeString>>) -> Seq<Seq<UkeString>> {
    lists.map_values(|l: Vec<UkeString>| l@)
}

/// Relies on itertools' `Itertools::multi_cartesian_product`: it yields every way of picking
/// one item of each list, and nothing else.
#[verifier::external_body]
pub(crate) fn cartesian_product(lists: Vec<Vec<UkeString>>) -> (r: Vec<Vec<UkeString>>)
    ensures
        forall|k: int|
            0 <= k < r.len() ==> picks_one_of_each(contents(lists@), #[trigger] r@[k]@),
        forall|c: Seq<UkeString>|
            #[trigger] picks_one_of_each(contents(lists@), c) ==> exists|k: int|
                0 <= k < r.len() && #[trigger] r@[k]@ == c,
{
    lists.into_iter().multi_cartesian_product().collect()
}

/// The key by which voicings are ordered: position, span, the four frets, and the index
/// of the voicing in the list it was taken from.
pub type SortKey = (u8, u8, u8, u8, u8, u8, usize);

/// The lexicographic order of std on tuples, as `<=`.
pub open spec fn key_le(a: SortKey, b: SortKey) -> bool {
    if a.0 != b.0 {
        a.0 < b.0
    } else if a.1 != b.1 {
        a.1 < b.1
    } else if a.2 != b.2 {
        a.2 < b.2
    } else if a.3 != b.3 {
        a.3 < b.3
    } else if a.4 != b.4 {
        a.4 < b.4
    } else if a.5 != b.5 {
        a.5 < b.5
    } else {
        a.6 <= b.6
    }
}

/// Relies on itertools' `Itertools::sorted`: the same items, in ascending order.
#[verifier::external_body]
pub(crate) fn sort_keys(keys: Vec<SortKey>) -> (r: Vec<SortKey>)
    ensures
        r@.to_multiset() == keys@.to_multiset(),
        forall|i: int, j: int| 0 <= i < j < r.len() ==> key_le(#[trigger] r@[i], #[trigger] r@[j]),
{
    keys.into_iter().sorted().collect()
}

} // verus!
