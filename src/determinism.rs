use vstd::prelude::*;

use crate::chord::Chord;
use crate::voicing::{voicing_lt, Voicing};
use crate::VoicingConfig;

verus! {

/// The frets of each voicing.
pub open spec fn frets_list(vs: Seq<Voicing>) -> Seq<Seq<u8>> {
    vs.map_values(|v: Voicing| v.frets())
}

/// Generating the voicings of a chord is deterministic, and its result holds no two voicings
/// that the order cannot tell apart: any two lists that `voicings` may return for the same
/// chord and configuration have the same frets, entry by entry, and within one list no two
/// entries have the same frets.
pub proof fn lemma_voicings_deterministic(c: Chord, config: VoicingConfig, a: Seq<Voicing>, b: Seq<Voicing>)
    requires
        c.lists_voicings(config, a),
        c.lists_voicings(config, b),
    ensures
        frets_list(a) == frets_list(b),
        forall|i: int, j: int| 0 <= i < j < a.len() ==> (#[trigger] a[i]).frets() != (#[trigger] a[j]).frets(),
{
    let fa = frets_list(a);
    let fb = frets_list(b);
    assert forall|i: int, j: int| 0 <= i < j < a.len() implies (#[trigger] a[i]).frets() != (#[trigger] a[j]).frets() by {
        assert(voicing_lt(a[i].frets(), a[j].frets()));
    }
    assert forall|x: int, y: int| 0 <= x < y < fa.len() implies voicing_lt(#[trigger] fa[x], #[trigger] fa[y]) by {
        assert(voicing_lt(a[x].frets(), a[y].frets()));
    }
    assert forall|x: int, y: int| 0 <= x < y < fb.len() implies voicing_lt(#[trigger] fb[x], #[trigger] fb[y]) by {
        assert(voicing_lt(b[x].frets(), b[y].frets()));
    }
    assert forall|x: int| 0 <= x < fa.len() implies fb.contains(#[trigger] fa[x]) by {
        assert(c.generates(config, a[x].frets()));
        let j = choose|j: int| 0 <= j < b.len() && (#[trigger] b[j]).frets() == a[x].frets();
        assert(fb[j] == fa[x]);
    }
    assert forall|y: int| 0 <= y < fb.len() implies fa.contains(#[trigger] fb[y]) by {
        assert(c.generates(config, b[y].frets()));
        let j = choose|j: int| 0 <= j < a.len() && (#[trigger] a[j]).frets() == b[y].frets();
        assert(fa[j] == fb[y]);
    }
    lemma_sorted_lists_agree(fa, fb, 0);
    assert(fa =~= fb);
}

/// Two lists of frets, each strictly sorted by the voicing order, that hold the same items
/// agree from entry `i` on, where they agree before it.
proof fn lemma_sorted_lists_agree(a: Seq<Seq<u8>>, b: Seq<Seq<u8>>, i: int)
    requires
        0 <= i,
        i <= a.len(),
        i <= b.len(),
        forall|x: int, y: int| 0 <= x < y < a.len() ==> voicing_lt(#[trigger] a[x], #[trigger] a[y]),
        forall|x: int, y: int| 0 <= x < y < b.len() ==> voicing_lt(#[trigger] b[x], #[trigger] b[y]),
        forall|x: int| 0 <= x < a.len() ==> b.contains(#[trigger] a[x]),
        forall|y: int| 0 <= y < b.len() ==> a.contains(#[trigger] b[y]),
        forall|x: int| 0 <= x < i ==> #[trigger] a[x] == b[x],
    ensures
        a.len() == b.len(),
        forall|x: int| 0 <= x < a.len() ==> #[trigger] a[x] == b[x],
    decreases a.len() + b.len() - 2 * i,
{
    if i == a.len() {
        if i < b.len() {
            assert(a.contains(b[i]));
            let x = choose|x: int| 0 <= x < a.len() && a[x] == b[i];
            assert(a[x] == b[x]);
            assert(voicing_lt(b[x], b[i]));
        }
    } else if i == b.len() {
        assert(b.contains(a[i]));
        let y = choose|y: int| 0 <= y < b.len() && b[y] == a[i];
        assert(a[y] == b[y]);
        assert(voicing_lt(a[y], a[i]));
    } else {
        assert(b.contains(a[i]));
        assert(a.contains(b[i]));
        let y = choose|y: int| 0 <= y < b.len() && b[y] == a[i];
        let x = choose|x: int| 0 <= x < a.len() && a[x] == b[i];
        if y < i {
            assert(a[y] == b[y]);
            assert(voicing_lt(a[y], a[i]));
        } else if x < i {
            assert(a[x] == b[x]);
            assert(voicing_lt(b[x], b[i]));
        } else if y > i && x > i {
            assert(voicing_lt(a[i], a[x]));
            assert(voicing_lt(b[i], b[y]));
        } else if y == i {
            assert(a[i] == b[i]);
        } else {
            assert(a[i] == b[i]);
        }
        lemma_sorted_lists_agree(a, b, i + 1);
    }
}

} // verus!
