use vstd::prelude::*;

use crate::chord::Chord;
use crate::voicing::{fret_distance, voicing_lt, Voicing};
use crate::{InvalidConfigError, VoicingConfig, STRING_COUNT};

verus! {

/// The cost of playing the voicings `vs` one after the other: the sum of the distances
/// between neighbours.
pub open spec fn path_cost(vs: Seq<Voicing>) -> nat
    decreases vs.len(),
{
    if vs.len() <= 1 {
        0
    } else {
        path_cost(vs.drop_last()) + fret_distance(vs[vs.len() - 2].frets(), vs.last().frets())
    }
}

/// `vs` takes one voicing of each layer, in order.
pub open spec fn is_path(layers: Seq<Seq<Voicing>>, vs: Seq<Voicing>) -> bool {
    &&& vs.len() == layers.len()
    &&& forall|i: int| 0 <= i < vs.len() ==> #[trigger] layers[i].contains(vs[i])
}

/// The path `a` comes before the path `b`: at the first layer where they differ, the voicing
/// of `a` comes first in the order of voicings.
pub open spec fn path_lt(a: Seq<Voicing>, b: Seq<Voicing>) -> bool
    decreases a.len(),
{
    if a.len() == 0 || b.len() == 0 {
        false
    } else if a[0] != b[0] {
        voicing_lt(a[0].frets(), b[0].frets())
    } else {
        path_lt(a.drop_first(), b.drop_first())
    }
}

/// Each layer lists its voicings in the order of voicings, each before the next.
pub open spec fn layers_sorted(layers: Seq<Seq<Voicing>>) -> bool {
    forall|t: int, a: int, b: int|
        0 <= t < layers.len() && 0 <= a < b < layers[t].len() ==> voicing_lt(
            (#[trigger] layers[t][a]).frets(),
            (#[trigger] layers[t][b]).frets(),
        )
}

/// Where the layers are sorted, the order of node indices is the order of the paths they pick.
proof fn lemma_node_order_is_path_order(layers: Seq<Seq<Voicing>>, q1: Seq<usize>, q2: Seq<usize>)
    requires
        layers_sorted(layers),
        q1.len() == q2.len(),
        q1.len() <= layers.len(),
        forall|t: int| 0 <= t < q1.len() ==> #[trigger] q1[t] < layers[t].len(),
        forall|t: int| 0 <= t < q2.len() ==> #[trigger] q2[t] < layers[t].len(),
        nodes_lt(q1, q2),
    ensures
        path_lt(along(layers, q1), along(layers, q2)),
    decreases q1.len(),
{
    let p1 = along(layers, q1);
    let p2 = along(layers, q2);
    if q1[0] != q2[0] {
        assert(voicing_lt(layers[0][q1[0] as int].frets(), layers[0][q2[0] as int].frets()));
        assert(p1[0] != p2[0]);
    } else {
        let rest = layers.drop_first();
        assert forall|t: int, a: int, b: int|
            0 <= t < rest.len() && 0 <= a < b < rest[t].len() implies voicing_lt(
            (#[trigger] rest[t][a]).frets(),
            (#[trigger] rest[t][b]).frets(),
        ) by {
            assert(rest[t] == layers[t + 1]);
        }
        lemma_node_order_is_path_order(rest, q1.drop_first(), q2.drop_first());
        assert(p1.drop_first() =~= along(rest, q1.drop_first()));
        assert(p2.drop_first() =~= along(rest, q2.drop_first()));
    }
}

/// The voicings that the node indices `nodes` pick from the layers.
pub open spec fn along(layers: Seq<Seq<Voicing>>, nodes: Seq<usize>) -> Seq<Voicing> {
    Seq::new(nodes.len(), |t: int| layers[t][nodes[t] as int])
}

/// `nodes` picks one node of each of the first `i + 1` layers and ends at node `v`.
pub open spec fn reaches(layers: Seq<Seq<Voicing>>, nodes: Seq<usize>, i: int, v: int) -> bool {
    &&& 0 <= i < layers.len()
    &&& nodes.len() == i + 1
    &&& nodes[i] == v
    &&& forall|t: int| 0 <= t <= i ==> #[trigger] nodes[t] < layers[t].len()
}

/// A path through the first layers of the graph, with its cost.
pub struct PartialPath {
    pub cost: u128,
    pub nodes: Vec<usize>,
}

/// The partial paths `l` all end at node `v` of layer `i`, carry their cost, are sorted by
/// cost and then by nodes, run through distinct nodes, and are at most `k`.
pub open spec fn sound_list(layers: Seq<Seq<Voicing>>, l: Seq<PartialPath>, i: int, v: int, k: nat) -> bool {
    &&& l.len() <= k
    &&& sorted_entries(l)
    &&& distinct_nodes(l)
    &&& forall|a: int|
        0 <= a < l.len() ==> {
            &&& reaches(layers, (#[trigger] l[a]).nodes@, i, v)
            &&& l[a].cost == path_cost(along(layers, l[a].nodes@))
            &&& l[a].cost <= 255 * STRING_COUNT * i
        }
}

/// The partial paths `l` are the `k` first, by cost and then by nodes, that reach node `v`
/// of layer `i`: each such path is among them, or they are `k` and the last comes before it.
pub open spec fn best_list(layers: Seq<Seq<Voicing>>, l: Seq<PartialPath>, i: int, v: int, k: nat) -> bool {
    forall|nodes: Seq<usize>| #[trigger] reaches(layers, nodes, i, v) ==> keeps(layers, l, nodes, k)
}

/// `e` is a complete path: one node of each layer, with its cost.
pub open spec fn complete(layers: Seq<Seq<Voicing>>, e: PartialPath) -> bool {
    &&& e.nodes@.len() == layers.len()
    &&& forall|t: int| 0 <= t < layers.len() ==> #[trigger] e.nodes@[t] < layers[t].len()
    &&& e.cost == path_cost(along(layers, e.nodes@))
}

/// The nodes `a` come before the nodes `b`: at the first place where they differ, `a` has
/// the lower node.
pub open spec fn nodes_lt(a: Seq<usize>, b: Seq<usize>) -> bool
    decreases a.len(),
{
    if a.len() == 0 || b.len() == 0 {
        false
    } else if a[0] != b[0] {
        a[0] < b[0]
    } else {
        nodes_lt(a.drop_first(), b.drop_first())
    }
}

/// The entry of cost `c1` through the nodes `n1` comes before the one of cost `c2` through
/// `n2`: it costs less, or as much with nodes that come first.
pub open spec fn ord_lt(c1: int, n1: Seq<usize>, c2: int, n2: Seq<usize>) -> bool {
    c1 < c2 || (c1 == c2 && nodes_lt(n1, n2))
}

/// The entry of cost `c1` through `n1` is the one of cost `c2` through `n2`, or comes before it.
pub open spec fn ord_le(c1: int, n1: Seq<usize>, c2: int, n2: Seq<usize>) -> bool {
    (c1 == c2 && n1 == n2) || ord_lt(c1, n1, c2, n2)
}

pub broadcast proof fn lemma_nodes_lt_irreflexive(a: Seq<usize>)
    ensures
        !#[trigger] nodes_lt(a, a),
    decreases a.len(),
{
    if a.len() > 0 {
        lemma_nodes_lt_irreflexive(a.drop_first());
    }
}

pub broadcast proof fn lemma_nodes_lt_transitive(a: Seq<usize>, b: Seq<usize>, c: Seq<usize>)
    requires
        #[trigger] nodes_lt(a, b),
        #[trigger] nodes_lt(b, c),
    ensures
        nodes_lt(a, c),
    decreases a.len(),
{
    if a[0] == b[0] && b[0] == c[0] {
        lemma_nodes_lt_transitive(a.drop_first(), b.drop_first(), c.drop_first());
    }
}

pub proof fn lemma_nodes_lt_total(a: Seq<usize>, b: Seq<usize>)
    requires
        a.len() == b.len(),
        a != b,
    ensures
        nodes_lt(a, b) || nodes_lt(b, a),
    decreases a.len(),
{
    if a.len() == 0 {
        assert(a =~= b);
    } else if a[0] == b[0] {
        if a.drop_first() == b.drop_first() {
            assert forall|i: int| 0 <= i < a.len() implies a[i] == b[i] by {
                if i > 0 {
                    assert(a[i] == a.drop_first()[i - 1]);
                    assert(b[i] == b.drop_first()[i - 1]);
                }
            }
            assert(a =~= b);
        }
        lemma_nodes_lt_total(a.drop_first(), b.drop_first());
    }
}

pub broadcast proof fn lemma_nodes_lt_push(a: Seq<usize>, b: Seq<usize>, v: usize)
    requires
        a.len() == b.len(),
    ensures
        #[trigger] nodes_lt(a.push(v), b.push(v)) == nodes_lt(a, b),
    decreases a.len(),
{
    if a.len() > 0 {
        assert(a.push(v).drop_first() =~= a.drop_first().push(v));
        assert(b.push(v).drop_first() =~= b.drop_first().push(v));
        lemma_nodes_lt_push(a.drop_first(), b.drop_first(), v);
    } else {
        reveal_with_fuel(nodes_lt, 2);
        lemma_nodes_lt_irreflexive(seq![v]);
        assert(a.push(v) =~= seq![v]);
        assert(b.push(v) =~= seq![v]);
    }
}

pub broadcast group group_node_order {
    lemma_nodes_lt_irreflexive,
    lemma_nodes_lt_transitive,
    lemma_nodes_lt_push,
}

pub proof fn lemma_ord_le_lt(c1: int, n1: Seq<usize>, c2: int, n2: Seq<usize>, c3: int, n3: Seq<usize>)
    requires
        ord_le(c1, n1, c2, n2),
        ord_lt(c2, n2, c3, n3),
    ensures
        ord_lt(c1, n1, c3, n3),
{
    if ord_lt(c1, n1, c2, n2) && c1 == c2 && c2 == c3 {
        lemma_nodes_lt_transitive(n1, n2, n3);
    }
}

/// A path that a list keeps stays kept when an entry is inserted into the list.
proof fn lemma_insert_keeps(layers: Seq<Seq<Voicing>>, before: Seq<PartialPath>, after: Seq<PartialPath>, k: nat, q: Seq<usize>)
    requires
        k > 0,
        forall|b: int|
            0 <= b < before.len() ==> has_nodes(after, (#[trigger] before[b]).nodes@) || (after.len() == k && ord_lt(
                after[k - 1].cost as int,
                after[k - 1].nodes@,
                before[b].cost as int,
                before[b].nodes@,
            )),
        before.len() == k ==> after.len() == k && entry_le(after[k - 1], before[k - 1]),
        forall|b: int| 0 <= b < before.len() ==> (#[trigger] before[b]).cost == path_cost(along(layers, before[b].nodes@)),
        keeps(layers, before, q, k),
    ensures
        keeps(layers, after, q, k),
{
    if has_nodes(before, q) {
        let b = choose|b: int| 0 <= b < before.len() && (#[trigger] before[b]).nodes@ == q;
        assert(has_nodes(after, before[b].nodes@) || (after.len() == k && ord_lt(
            after[k - 1].cost as int,
            after[k - 1].nodes@,
            before[b].cost as int,
            before[b].nodes@,
        )));
    } else {
        assert(before.len() == k && k > 0);
        assert(ord_le(after[k - 1].cost as int, after[k - 1].nodes@, before[k - 1].cost as int, before[k - 1].nodes@));
        lemma_ord_le_lt(
            after[k - 1].cost as int,
            after[k - 1].nodes@,
            before[k - 1].cost as int,
            before[k - 1].nodes@,
            path_cost(along(layers, q)) as int,
            q,
        );
    }
}

/// Some entry of `l` runs through the nodes `q`.
pub open spec fn has_nodes(l: Seq<PartialPath>, q: Seq<usize>) -> bool {
    exists|a: int| 0 <= a < l.len() && (#[trigger] l[a]).nodes@ == q
}

/// No two entries of `l` run through the same nodes.
pub open spec fn distinct_nodes(l: Seq<PartialPath>) -> bool {
    forall|a: int, b: int| 0 <= a < b < l.len() ==> (#[trigger] l[a]).nodes@ != (#[trigger] l[b]).nodes@
}

/// The list `l` of at most `k` entries holds the path through the nodes `q`, or is full
/// with a last entry that comes before that path.
pub open spec fn keeps(layers: Seq<Seq<Voicing>>, l: Seq<PartialPath>, q: Seq<usize>, k: nat) -> bool {
    ||| has_nodes(l, q)
    ||| l.len() == k && k > 0 && ord_lt(l[k - 1].cost as int, l[k - 1].nodes@, path_cost(along(layers, q)) as int, q)
}

/// Whether the nodes of `a` from place `t` on come before those of `b` from place `t` on.
fn nodes_before(a: &Vec<usize>, b: &Vec<usize>, t: usize) -> (r: bool)
    requires
        t <= a@.len(),
        t <= b@.len(),
    ensures
        r == nodes_lt(a@.skip(t as int), b@.skip(t as int)),
    decreases a@.len() - t,
{
    if t == a.len() || t == b.len() {
        false
    } else if a[t] != b[t] {
        assert(a@.skip(t as int)[0] == a@[t as int]);
        assert(b@.skip(t as int)[0] == b@[t as int]);
        a[t] < b[t]
    } else {
        assert(a@.skip(t as int).drop_first() =~= a@.skip(t + 1));
        assert(b@.skip(t as int).drop_first() =~= b@.skip(t + 1));
        nodes_before(a, b, t + 1)
    }
}

/// The entries of `l` come in the order of cost, then of nodes, each before the next.
pub open spec fn sorted_entries(l: Seq<PartialPath>) -> bool {
    forall|a: int, b: int|
        0 <= a < b < l.len() ==> ord_lt(
            (#[trigger] l[a]).cost as int,
            l[a].nodes@,
            (#[trigger] l[b]).cost as int,
            l[b].nodes@,
        )
}

/// The entry `x` is the entry `y`, or comes before it.
pub open spec fn entry_le(x: PartialPath, y: PartialPath) -> bool {
    x == y || ord_lt(x.cost as int, x.nodes@, y.cost as int, y.nodes@)
}

/// Inserts `e` into the sorted list `list`, after the entries that cost less, or as much
/// with nodes that come first, and keeps the `k` first.
#[verifier::spinoff_prover]
#[verifier::rlimit(60)]
fn insert_bounded(list: &mut Vec<PartialPath>, e: PartialPath, k: usize)
    requires
        k > 0,
        old(list)@.len() <= k,
        sorted_entries(old(list)@),
        distinct_nodes(old(list)@),
        !has_nodes(old(list)@, e.nodes@),
        forall|a: int| 0 <= a < old(list)@.len() ==> (#[trigger] old(list)@[a]).nodes@.len() == e.nodes@.len(),
    ensures
        final(list)@.len() <= k,
        final(list)@.len() > 0,
        sorted_entries(final(list)@),
        distinct_nodes(final(list)@),
        forall|a: int| 0 <= a < final(list)@.len() ==> #[trigger] final(list)@[a] == e || old(list)@.contains(final(list)@[a]),
        forall|b: int|
            0 <= b < old(list)@.len() ==> has_nodes(final(list)@, (#[trigger] old(list)@[b]).nodes@) || (final(list)@.len()
                == k && ord_lt(final(list)@[k - 1].cost as int, final(list)@[k - 1].nodes@, old(list)@[b].cost as int, old(list)@[b].nodes@)),
        has_nodes(final(list)@, e.nodes@) || (final(list)@.len() == k && ord_lt(
            final(list)@[k - 1].cost as int,
            final(list)@[k - 1].nodes@,
            e.cost as int,
            e.nodes@,
        )),
        old(list)@.len() == k ==> final(list)@.len() == k && entry_le(final(list)@[k - 1], old(list)@[k - 1]),
        forall|p: int|
            0 <= p <= old(list)@.len() && p < k && (p > 0 ==> ord_lt(
                old(list)@[p - 1].cost as int,
                old(list)@[p - 1].nodes@,
                e.cost as int,
                e.nodes@,
            )) ==> p + 1 <= final(list)@.len() && entry_le(#[trigger] final(list)@[p], e),
{
    broadcast use group_node_order;

    let mut pos: usize = 0;
    while pos < list.len() && (list[pos].cost < e.cost || (list[pos].cost == e.cost && nodes_before(
        &list[pos].nodes,
        &e.nodes,
        0,
    )))
        invariant
            0 <= pos <= list@.len(),
            forall|a: int|
                0 <= a < pos ==> ord_lt((#[trigger] list@[a]).cost as int, list@[a].nodes@, e.cost as int, e.nodes@),
        decreases list@.len() - pos,
    {
        assert(list@[pos as int].nodes@.skip(0) =~= list@[pos as int].nodes@);
        assert(e.nodes@.skip(0) =~= e.nodes@);
        pos = pos + 1;
    }
    let ghost l0 = list@;
    proof {
        if pos < l0.len() {
            assert(l0[pos as int].nodes@.skip(0) =~= l0[pos as int].nodes@);
            assert(e.nodes@.skip(0) =~= e.nodes@);
            assert(l0[pos as int].nodes@ != e.nodes@);
            lemma_nodes_lt_total(l0[pos as int].nodes@, e.nodes@);
            assert(ord_lt(e.cost as int, e.nodes@, l0[pos as int].cost as int, l0[pos as int].nodes@));
        }
    }
    if pos < k {
        list.insert(pos, e);
        let ghost l1 = list@;
        assert forall|a: int| 0 <= a < l1.len() implies #[trigger] l1[a] == e || l0.contains(l1[a]) by {
            if a < pos {
                assert(l1[a] == l0[a]);
            } else if a > pos {
                assert(l1[a] == l0[a - 1]);
            }
        }
        assert(sorted_entries(l1)) by {
            assert forall|a: int, b: int| 0 <= a < b < l1.len() implies ord_lt(
                (#[trigger] l1[a]).cost as int,
                l1[a].nodes@,
                (#[trigger] l1[b]).cost as int,
                l1[b].nodes@,
            ) by {
                if a < pos && b > pos {
                    assert(l1[a] == l0[a] && l1[b] == l0[b - 1]);
                    if b - 1 > pos {
                        assert(ord_lt(l0[pos as int].cost as int, l0[pos as int].nodes@, l0[b - 1].cost as int, l0[b - 1].nodes@));
                    }
                } else if a == pos && b > pos {
                    assert(l1[b] == l0[b - 1]);
                    if b - 1 > pos {
                        assert(ord_lt(l0[pos as int].cost as int, l0[pos as int].nodes@, l0[b - 1].cost as int, l0[b - 1].nodes@));
                    }
                } else if a > pos {
                    assert(l1[a] == l0[a - 1] && l1[b] == l0[b - 1]);
                } else if b == pos {
                    assert(l1[a] == l0[a]);
                } else {
                    assert(l1[a] == l0[a] && l1[b] == l0[b]);
                }
            }
        }
        assert(distinct_nodes(l1)) by {
            assert forall|a: int, b: int| 0 <= a < b < l1.len() implies (#[trigger] l1[a]).nodes@ != (#[trigger] l1[b]).nodes@ by {
                if a == pos {
                    assert(l1[b] == l0[b - 1]);
                } else if b == pos {
                    assert(l1[a] == l0[a]);
                } else {
                    let a0 = if a < pos { a } else { a - 1 };
                    let b0 = if b < pos { b } else { b - 1 };
                    assert(l1[a] == l0[a0] && l1[b] == l0[b0]);
                }
            }
        }
        assert forall|b: int| 0 <= b < l0.len() implies has_nodes(l1, (#[trigger] l0[b]).nodes@) by {
            let b1 = if b < pos { b } else { b + 1 };
            assert(l1[b1] == l0[b]);
        }
        assert(l1[pos as int] == e);
        if list.len() > k {
            list.pop();
            let ghost l2 = list@;
            assert(l2 =~= l1.take(k as int));
            assert forall|b: int| 0 <= b < l0.len() implies has_nodes(l2, (#[trigger] l0[b]).nodes@) || (l2.len() == k
                && ord_lt(l2[k - 1].cost as int, l2[k - 1].nodes@, l0[b].cost as int, l0[b].nodes@)) by {
                let b1 = if b < pos { b } else { b + 1 };
                assert(l1[b1] == l0[b]);
                if b1 < k {
                    assert(l2[b1] == l0[b]);
                } else {
                    assert(ord_lt(l1[k - 1].cost as int, l1[k - 1].nodes@, l1[b1].cost as int, l1[b1].nodes@));
                }
            }
            assert(ord_lt(l1[k - 1].cost as int, l1[k - 1].nodes@, l1[k as int].cost as int, l1[k as int].nodes@));
            assert(l1[k as int] == l0[k - 1]);
            assert(has_nodes(l2, e.nodes@)) by {
                assert(l2[pos as int] == e);
            }
            assert forall|a: int| 0 <= a < l2.len() implies #[trigger] l2[a] == e || l0.contains(l2[a]) by {
                assert(l2[a] == l1[a]);
            }
            assert forall|p: int|
                0 <= p <= l0.len() && p < k && (p > 0 ==> ord_lt(l0[p - 1].cost as int, l0[p - 1].nodes@, e.cost as int, e.nodes@))
                implies p + 1 <= l2.len() && entry_le(#[trigger] l2[p], e) by {
                assert(l2[p] == l1[p]);
                if p < pos {
                    assert(l1[p] == l0[p]);
                } else if p > pos {
                    assert(l1[p] == l0[p - 1]);
                }
            }
            assert(l2[k - 1] == l0[k - 1] || ord_lt(l2[k - 1].cost as int, l2[k - 1].nodes@, l0[k - 1].cost as int, l0[k - 1].nodes@)) by {
                if k - 1 < pos {
                    assert(l2[k - 1] == l0[k - 1]);
                } else if k - 1 == pos {
                    assert(l2[k - 1] == e);
                } else {
                    assert(l2[k - 1] == l0[k - 2]);
                }
            }
        } else {
            assert(has_nodes(l1, e.nodes@));
            assert forall|p: int|
                0 <= p <= l0.len() && p < k && (p > 0 ==> ord_lt(l0[p - 1].cost as int, l0[p - 1].nodes@, e.cost as int, e.nodes@))
                implies p + 1 <= l1.len() && entry_le(#[trigger] l1[p], e) by {
                if p < pos {
                    assert(l1[p] == l0[p]);
                } else if p > pos {
                    assert(l1[p] == l0[p - 1]);
                }
            }
        }
    } else {
        assert(l0.len() == k);
        assert(ord_lt(l0[k - 1].cost as int, l0[k - 1].nodes@, e.cost as int, e.nodes@));
        assert forall|b: int| 0 <= b < l0.len() implies has_nodes(l0, (#[trigger] l0[b]).nodes@) by {
        }
        assert forall|a: int| 0 <= a < l0.len() implies #[trigger] l0[a] == e || l0.contains(l0[a]) by {
        }
    }
}

/// A layered graph: one layer per chord of a sequence, holding the voicings of the chord.
/// Edges join the voicings of neighbouring layers and cost the distance between them.
pub struct VoicingGraph {
    pub config: VoicingConfig,
    pub layers: Vec<Vec<Voicing>>,
}

impl VoicingGraph {
    /// The voicings of each layer.
    pub open spec fn layer_seqs(self) -> Seq<Seq<Voicing>> {
        self.layers@.map_values(|l: Vec<Voicing>| l@)
    }

    /// Each layer lists its voicings in the order of voicings.
    pub open spec fn wf(self) -> bool {
        layers_sorted(self.layer_seqs())
    }

    pub fn new(config: VoicingConfig) -> (r: VoicingGraph)
        ensures
            r.config == config,
            r.layers@.len() == 0,
            r.wf(),
    {
        VoicingGraph { config, layers: Vec::new() }
    }

    /// Adds a layer for each chord of `chords`, with all of its voicings under the
    /// configuration of the graph.
    pub fn add(&mut self, chords: &Vec<Chord>) -> (r: Result<(), InvalidConfigError>)
        requires
            old(self).wf(),
        ensures
            final(self).config == old(self).config,
            final(self).wf(),
            match r {
                Ok(()) => {
                    &&& old(self).config.min_fret <= old(self).config.max_fret
                    &&& final(self).layers@.len() == old(self).layers@.len() + chords@.len()
                    &&& forall|i: int| 0 <= i < old(self).layers@.len() ==> #[trigger] final(self).layers@[i] == old(self).layers@[i]
                    &&& forall|j: int|
                        0 <= j < chords@.len() ==> #[trigger] chords@[j].lists_voicings(
                            old(self).config,
                            final(self).layers@[old(self).layers@.len() + j]@,
                        )
                },
                Err(e) => {
                    &&& old(self).config.min_fret > old(self).config.max_fret
                    &&& e.min_fret == old(self).config.min_fret
                    &&& e.max_fret == old(self).config.max_fret
                    &&& final(self).layers@ == old(self).layers@
                },
            },
    {
        if self.config.min_fret > self.config.max_fret {
            return Err(InvalidConfigError { min_fret: self.config.min_fret, max_fret: self.config.max_fret });
        }
        let ghost n0 = self.layers@.len();
        let ghost l0 = self.layers@;
        let mut j: usize = 0;
        while j < chords.len()
            invariant
                0 <= j <= chords@.len(),
                self.config == old(self).config,
                self.config.min_fret <= self.config.max_fret,
                self.wf(),
                n0 == old(self).layers@.len(),
                l0 == old(self).layers@,
                self.layers@.len() == n0 + j,
                forall|i: int| 0 <= i < n0 ==> #[trigger] self.layers@[i] == l0[i],
                forall|m: int| 0 <= m < j ==> #[trigger] chords@[m].lists_voicings(self.config, self.layers@[n0 + m]@),
            decreases chords@.len() - j,
        {
            match chords[j].voicings(self.config) {
                Ok(vs) => {
                    let ghost l_before = self.layers@;
                    self.layers.push(vs);
                    proof {
                        let ls = self.layer_seqs();
                        assert forall|t: int, a: int, b: int|
                            0 <= t < ls.len() && 0 <= a < b < ls[t].len() implies voicing_lt(
                            (#[trigger] ls[t][a]).frets(),
                            (#[trigger] ls[t][b]).frets(),
                        ) by {
                            if t < l_before.len() {
                                assert(self.layers@[t] == l_before[t]);
                                assert(layers_sorted(l_before.map_values(|l: Vec<Voicing>| l@)));
                                assert(l_before.map_values(|l: Vec<Voicing>| l@)[t] == ls[t]);
                            } else {
                                assert(ls[t] == vs@);
                            }
                        }
                    }
                },
                Err(e) => {
                    return Err(e);
                },
            }
            j = j + 1;
        }
        Ok(())
    }

    /// The `k` cheapest paths that take one voicing of each layer (fewer where there are
    /// fewer paths), each with its cost, cheapest first; paths of equal cost come in the
    /// order of their voicings, compared from the first layer on.
    pub fn paths(&self, k: usize) -> (r: Vec<(Vec<Voicing>, u128)>)
        requires
            self.wf(),
        ensures
            r@.len() <= k,
            forall|j: int|
                0 <= j < r@.len() ==> is_path(self.layer_seqs(), (#[trigger] r@[j]).0@) && r@[j].1 == path_cost(
                    r@[j].0@,
                ),
            forall|a: int, b: int|
                0 <= a < b < r@.len() ==> (#[trigger] r@[a]).1 < (#[trigger] r@[b]).1 || (r@[a].1 == r@[b].1 && path_lt(
                    r@[a].0@,
                    r@[b].0@,
                )),
            forall|a: int, b: int| 0 <= a < b < r@.len() ==> (#[trigger] r@[a]).0@ != (#[trigger] r@[b]).0@,
            forall|vs: Seq<Voicing>|
                k > 0 && self.layers@.len() > 0 && #[trigger] is_path(self.layer_seqs(), vs) ==> (exists|j: int|
                    0 <= j < r@.len() && (#[trigger] r@[j]).0@ == vs) || (r@.len() == k && (r@[k - 1].1 < path_cost(vs) || (
                r@[k - 1].1 == path_cost(vs) && path_lt(r@[k - 1].0@, vs)))),
            k > 0 && self.layers@.len() > 0 && (forall|i: int|
                0 <= i < self.layers@.len() ==> (#[trigger] self.layer_seqs()[i]).len() > 0) ==> r@.len() > 0,
            r@.len() > 0 ==> forall|vs: Seq<Voicing>| #[trigger]
                is_path(self.layer_seqs(), vs) ==> r@[0].1 <= path_cost(vs),
            (self.layers@.len() == 0 || exists|i: int|
                0 <= i < self.layers@.len() && (#[trigger] self.layer_seqs()[i]).len() == 0) ==> r@.len() == 0,
    {
        let ghost layers = self.layer_seqs();
        if k == 0 || self.layers.len() == 0 {
            return Vec::new();
        }
        let n = self.layers.len();
        // Each voicing of the first layer starts a path of cost 0.
        let mut table: Vec<Vec<PartialPath>> = Vec::new();
        let mut v: usize = 0;
        while v < self.layers[0].len()
            invariant
                0 <= v <= layers[0].len(),
                k > 0,
                n == layers.len(),
                n > 0,
                layers == self.layer_seqs(),
                table@.len() == v,
                forall|w: int|
                    0 <= w < v ==> sound_list(layers, #[trigger] table@[w]@, 0, w, k as nat) && best_list(
                        layers,
                        table@[w]@,
                        0,
                        w,
                        k as nat,
                    ),
            decreases layers[0].len() - v,
        {
            let mut nodes: Vec<usize> = Vec::new();
            nodes.push(v);
            let mut l: Vec<PartialPath> = Vec::new();
            l.push(PartialPath { cost: 0, nodes });
            proof {
                assert(reaches(layers, l@[0].nodes@, 0, v as int));
                assert forall|q: Seq<usize>| #[trigger] reaches(layers, q, 0, v as int) implies keeps(layers, l@, q, k as nat) by {
                    assert(q =~= l@[0].nodes@);
                }
            }
            table.push(l);
            v = v + 1;
        }
        let mut i: usize = 1;
        while i < n
            invariant
                1 <= i <= n,
                k > 0,
                n == layers.len(),
                n <= usize::MAX,
                layers == self.layer_seqs(),
                table@.len() == layers[i - 1].len(),
                forall|w: int|
                    0 <= w < table@.len() ==> sound_list(layers, #[trigger] table@[w]@, i - 1, w, k as nat)
                        && best_list(layers, table@[w]@, i - 1, w, k as nat),
            decreases n - i,
        {
            let mut next: Vec<Vec<PartialPath>> = Vec::new();
            let mut v: usize = 0;
            while v < self.layers[i].len()
                invariant
                    0 <= v <= layers[i as int].len(),
                    1 <= i < n,
                    k > 0,
                    n == layers.len(),
                    n <= usize::MAX,
                    layers == self.layer_seqs(),
                    table@.len() == layers[i - 1].len(),
                    forall|w: int|
                        0 <= w < table@.len() ==> sound_list(layers, #[trigger] table@[w]@, i - 1, w, k as nat)
                            && best_list(layers, table@[w]@, i - 1, w, k as nat),
                    next@.len() == v,
                    forall|w: int|
                        0 <= w < v ==> sound_list(layers, #[trigger] next@[w]@, i as int, w, k as nat)
                            && best_list(layers, next@[w]@, i as int, w, k as nat),
                decreases layers[i as int].len() - v,
            {
                let l = self.best_into(&table, i, v, k);
                next.push(l);
                v = v + 1;
            }
            table = next;
            i = i + 1;
        }
        // Merge the paths that end at the nodes of the last layer.
        let mut best: Vec<PartialPath> = Vec::new();
        let mut w: usize = 0;
        while w < table.len()
            invariant
                0 <= w <= table@.len(),
                k > 0,
                n == layers.len(),
                n > 0,
                layers == self.layer_seqs(),
                table@.len() == layers[n - 1].len(),
                forall|x: int|
                    0 <= x < table@.len() ==> sound_list(layers, #[trigger] table@[x]@, n - 1, x, k as nat)
                        && best_list(layers, table@[x]@, n - 1, x, k as nat),
                best@.len() <= k,
                sorted_entries(best@),
                distinct_nodes(best@),
                forall|b: int| 0 <= b < best@.len() ==> complete(layers, #[trigger] best@[b]) && best@[b].nodes@[n - 1] < w,
                forall|q: Seq<usize>| #[trigger] reaches(layers, q, n - 1, q[n - 1] as int) && q[n - 1] < w ==> keeps(layers, best@, q, k as nat),
            decreases table@.len() - w,
        {
            let ghost b0 = best@;
            assert(sound_list(layers, table@[w as int]@, n - 1, w as int, k as nat));
            self.merge_into(&mut best, &table[w], w, k);
            proof {
                assert forall|b: int| 0 <= b < best@.len() implies complete(layers, #[trigger] best@[b]) && best@[b].nodes@[n - 1] < w + 1 by {
                }
                assert forall|q: Seq<usize>| #[trigger] reaches(layers, q, n - 1, q[n - 1] as int) && q[n - 1] < w + 1 implies keeps(layers, best@, q, k as nat) by {
                    if q[n - 1] < w {
                        assert(keeps(layers, b0, q, k as nat));
                    } else {
                        let x = w as int;
                        assert(reaches(layers, q, n - 1, x));
                        assert(best_list(layers, table@[x]@, n - 1, x, k as nat));
                        assert(keeps(layers, table@[x]@, q, k as nat));
                        if has_nodes(table@[x]@, q) {
                            let a = choose|a: int| 0 <= a < table@[x]@.len() && (#[trigger] table@[x]@[a]).nodes@ == q;
                            assert(keeps(layers, best@, table@[x]@[a].nodes@, k as nat));
                        } else {
                            let l = table@[x]@;
                            assert(l.len() == k);
                            lemma_ord_le_lt(
                                best@[k - 1].cost as int,
                                best@[k - 1].nodes@,
                                l[k - 1].cost as int,
                                l[k - 1].nodes@,
                                path_cost(along(layers, q)) as int,
                                q,
                            );
                        }
                    }
                }
            }
            w = w + 1;
        }
        // Spell out each path as its voicings.
        let mut r: Vec<(Vec<Voicing>, u128)> = Vec::new();
        let mut j: usize = 0;
        while j < best.len()
            invariant
                0 <= j <= best@.len(),
                n == layers.len(),
                layers == self.layer_seqs(),
                forall|a: int| 0 <= a < best@.len() ==> complete(layers, #[trigger] best@[a]),
                r@.len() == j,
                forall|b: int|
                    0 <= b < j ==> (#[trigger] r@[b]).0@ == along(layers, best@[b].nodes@) && r@[b].1 == best@[b].cost,
            decreases best@.len() - j,
        {
            let e = &best[j];
            assert(complete(layers, best@[j as int]));
            let mut vs: Vec<Voicing> = Vec::new();
            let mut t: usize = 0;
            while t < n
                invariant
                    0 <= t <= n,
                    n == layers.len(),
                    layers == self.layer_seqs(),
                    complete(layers, *e),
                    vs@ == along(layers, e.nodes@).take(t as int),
                decreases n - t,
            {
                let x = e.nodes[t];
                assert(x < layers[t as int].len());
                vs.push(self.layers[t][x]);
                t = t + 1;
                assert(vs@ =~= along(layers, e.nodes@).take(t as int));
            }
            assert(vs@ =~= along(layers, e.nodes@));
            r.push((vs, e.cost));
            j = j + 1;
        }
        proof {
            self.lemma_paths_spelled_out(k as nat, best@, r@);
        }
        r
    }

    /// What `paths` states of its result, from what its steps establish.
    proof fn lemma_paths_spelled_out(self, k: nat, best: Seq<PartialPath>, r: Seq<(Vec<Voicing>, u128)>)
        requires
            self.wf(),
            k > 0,
            self.layers@.len() > 0,
            best.len() <= k,
            sorted_entries(best),
            distinct_nodes(best),
            forall|b: int| 0 <= b < best.len() ==> complete(self.layer_seqs(), #[trigger] best[b]),
            forall|q: Seq<usize>|
                #[trigger] reaches(self.layer_seqs(), q, self.layers@.len() - 1, q[self.layers@.len() - 1] as int) ==> keeps(
                    self.layer_seqs(),
                    best,
                    q,
                    k,
                ),
            r.len() == best.len(),
            forall|b: int|
                0 <= b < r.len() ==> (#[trigger] r[b]).0@ == along(self.layer_seqs(), best[b].nodes@) && r[b].1 == best[b].cost,
        ensures
            r.len() <= k,
            forall|j: int| 0 <= j < r.len() ==> is_path(self.layer_seqs(), (#[trigger] r[j]).0@) && r[j].1 == path_cost(r[j].0@),
            forall|a: int, b: int|
                0 <= a < b < r.len() ==> (#[trigger] r[a]).1 < (#[trigger] r[b]).1 || (r[a].1 == r[b].1 && path_lt(
                    r[a].0@,
                    r[b].0@,
                )),
            forall|a: int, b: int| 0 <= a < b < r.len() ==> (#[trigger] r[a]).0@ != (#[trigger] r[b]).0@,
            forall|vs: Seq<Voicing>|
                #[trigger] is_path(self.layer_seqs(), vs) ==> (exists|j: int| 0 <= j < r.len() && (#[trigger] r[j]).0@ == vs)
                    || (r.len() == k && (r[k - 1].1 < path_cost(vs) || (r[k - 1].1 == path_cost(vs) && path_lt(
                    r[k - 1].0@,
                    vs,
                )))),
            (forall|i: int| 0 <= i < self.layers@.len() ==> (#[trigger] self.layer_seqs()[i]).len() > 0) ==> r.len() > 0,
            r.len() > 0 ==> forall|vs: Seq<Voicing>| #[trigger] is_path(self.layer_seqs(), vs) ==> r[0].1 <= path_cost(vs),
            (exists|i: int| 0 <= i < self.layers@.len() && (#[trigger] self.layer_seqs()[i]).len() == 0) ==> r.len() == 0,
    {
        let layers = self.layer_seqs();
        let n = self.layers@.len();
        assert forall|b: int| 0 <= b < r.len() implies is_path(layers, (#[trigger] r[b]).0@) by {
            assert(complete(layers, best[b]));
            assert forall|t: int| 0 <= t < r[b].0@.len() implies #[trigger] layers[t].contains(r[b].0@[t]) by {
                assert(layers[t][best[b].nodes@[t] as int] == r[b].0@[t]);
            }
        }
        assert forall|a: int, b: int|
            0 <= a < b < r.len() implies (#[trigger] r[a]).1 < (#[trigger] r[b]).1 || (r[a].1 == r[b].1 && path_lt(
                r[a].0@,
                r[b].0@,
            )) by {
            assert(ord_lt(best[a].cost as int, best[a].nodes@, best[b].cost as int, best[b].nodes@));
            if best[a].cost == best[b].cost {
                assert(complete(layers, best[a]) && complete(layers, best[b]));
                lemma_node_order_is_path_order(layers, best[a].nodes@, best[b].nodes@);
            }
        }
        assert forall|a: int, b: int| 0 <= a < b < r.len() implies (#[trigger] r[a]).0@ != (#[trigger] r[b]).0@ by {
            assert(best[a].nodes@ != best[b].nodes@);
            assert(complete(layers, best[a]) && complete(layers, best[b]));
            if r[a].0@ == r[b].0@ {
                assert forall|t: int| 0 <= t < n implies best[a].nodes@[t] == best[b].nodes@[t] by {
                    assert(r[a].0@[t] == layers[t][best[a].nodes@[t] as int]);
                    assert(r[b].0@[t] == layers[t][best[b].nodes@[t] as int]);
                    self.lemma_distinct_in_layer(t, best[a].nodes@[t] as int, best[b].nodes@[t] as int);
                }
                assert(best[a].nodes@ =~= best[b].nodes@);
            }
        }
        assert forall|vs: Seq<Voicing>| #[trigger] is_path(layers, vs) implies (exists|j: int| 0 <= j < r.len() && (#[trigger] r[j]).0@ == vs)
            || (r.len() == k && (r[k - 1].1 < path_cost(vs) || (r[k - 1].1 == path_cost(vs) && path_lt(r[k - 1].0@, vs)))) by {
            let q = Seq::new(n as nat, |t: int| choose|x: usize| x < layers[t].len() && layers[t][x as int] == vs[t]);
            assert forall|t: int| 0 <= t < n implies #[trigger] q[t] < layers[t].len() && layers[t][q[t] as int] == vs[t] by {
                assert(layers[t].contains(vs[t]));
                let y = choose|y: int| 0 <= y < layers[t].len() && layers[t][y] == vs[t];
                assert(self.layers@[t].len() as int == layers[t].len());
                assert(layers[t][y as usize as int] == vs[t]);
            }
            assert(along(layers, q) =~= vs);
            assert(reaches(layers, q, n - 1, q[n - 1] as int));
            assert(keeps(layers, best, q, k));
            if has_nodes(best, q) {
                let b = choose|b: int| 0 <= b < best.len() && (#[trigger] best[b]).nodes@ == q;
                assert(r[b].0@ == vs);
            } else {
                assert(complete(layers, best[k - 1]));
                assert(r[k - 1].0@ == along(layers, best[k - 1].nodes@));
                if best[k - 1].cost == path_cost(along(layers, q)) {
                    lemma_node_order_is_path_order(layers, best[k - 1].nodes@, q);
                }
            }
        }
        if forall|i: int| 0 <= i < n ==> (#[trigger] layers[i]).len() > 0 {
            let q = Seq::new(n as nat, |t: int| 0usize);
            assert(reaches(layers, q, n - 1, 0));
            assert(keeps(layers, best, q, k));
        }
        assert forall|vs: Seq<Voicing>| r.len() > 0 && #[trigger] is_path(layers, vs) implies r[0].1 <= path_cost(vs) by {
            if exists|j: int| 0 <= j < r.len() && (#[trigger] r[j]).0@ == vs {
                let j = choose|j: int| 0 <= j < r.len() && (#[trigger] r[j]).0@ == vs;
                assert(r[j].1 == path_cost(r[j].0@));
                if j > 0 {
                    assert(r[0].1 <= r[j].1);
                }
            } else {
                if k > 1 {
                    assert(r[0].1 <= r[k - 1].1);
                }
            }
        }
        if r.len() > 0 {
            assert forall|t: int| 0 <= t < n implies (#[trigger] layers[t]).len() > 0 by {
                assert(layers[t].contains(r[0].0@[t]));
            }
        }
    }

    /// In a well-formed graph, a layer holds no voicing twice.
    proof fn lemma_distinct_in_layer(self, t: int, a: int, b: int)
        requires
            self.wf(),
            0 <= t < self.layers@.len(),
            0 <= a < self.layer_seqs()[t].len(),
            0 <= b < self.layer_seqs()[t].len(),
            self.layer_seqs()[t][a] == self.layer_seqs()[t][b],
        ensures
            a == b,
    {
        let layers = self.layer_seqs();
        if a < b {
            assert(voicing_lt(layers[t][a].frets(), layers[t][b].frets()));
        } else if b < a {
            assert(voicing_lt(layers[t][b].frets(), layers[t][a].frets()));
        }
    }

    /// Offers `r` each partial path of `list`, which end at node `u` of layer `i - 1`,
    /// extended to node `v` of layer `i`.
    fn extend_into(&self, r: &mut Vec<PartialPath>, list: &Vec<PartialPath>, i: usize, u: usize, v: usize, k: usize)
        requires
            k > 0,
            1 <= i < self.layers@.len(),
            self.layers@.len() <= usize::MAX,
            u < self.layers@[i - 1]@.len(),
            v < self.layers@[i as int]@.len(),
            sound_list(self.layer_seqs(), list@, i - 1, u as int, k as nat),
            sound_list(self.layer_seqs(), old(r)@, i as int, v as int, k as nat),
            forall|b: int| 0 <= b < old(r)@.len() ==> (#[trigger] old(r)@[b]).nodes@[i - 1] < u,
        ensures
            sound_list(self.layer_seqs(), final(r)@, i as int, v as int, k as nat),
            forall|b: int| 0 <= b < final(r)@.len() ==> (#[trigger] final(r)@[b]).nodes@[i - 1] <= u,
            forall|q: Seq<usize>|
                #[trigger] keeps(self.layer_seqs(), old(r)@, q, k as nat) ==> keeps(self.layer_seqs(), final(r)@, q, k as nat),
            forall|a: int|
                0 <= a < list@.len() ==> keeps(self.layer_seqs(), final(r)@, (#[trigger] list@[a]).nodes@.push(v), k as nat),
            list@.len() == k ==> final(r)@.len() == k && ord_le(
                final(r)@[k - 1].cost as int,
                final(r)@[k - 1].nodes@,
                list@[k - 1].cost + fret_distance(
                    self.layer_seqs()[i - 1][u as int].frets(),
                    self.layer_seqs()[i as int][v as int].frets(),
                ),
                list@[k - 1].nodes@.push(v),
            ),
    {
        let ghost layers = self.layer_seqs();
        let from = &self.layers[i - 1][u];
        let target = &self.layers[i][v];
        assert(layers[i - 1][u as int] == *from);
        assert(layers[i as int][v as int] == *target);
        let d = from.distance(target);
        let ghost r_in = r@;
        let mut a: usize = 0;
        while a < list.len()
            invariant
                0 <= a <= list@.len(),
                k > 0,
                layers == self.layer_seqs(),
                1 <= i < layers.len(),
                layers.len() <= usize::MAX,
                v < layers[i as int].len(),
                u < layers[i - 1].len(),
                layers[i as int][v as int] == *target,
                layers[i - 1][u as int] == *from,
                d == fret_distance(from.frets(), target.frets()),
                d <= 255 * STRING_COUNT,
                sound_list(layers, list@, i - 1, u as int, k as nat),
                sound_list(layers, r_in, i as int, v as int, k as nat),
                sound_list(layers, r@, i as int, v as int, k as nat),
                forall|b: int|
                    0 <= b < r@.len() ==> (#[trigger] r@[b]).nodes@[i - 1] < u || exists|c: int|
                        0 <= c < a && r@[b].nodes@ == (#[trigger] list@[c]).nodes@.push(v),
                forall|q: Seq<usize>| #[trigger] keeps(layers, r_in, q, k as nat) ==> keeps(layers, r@, q, k as nat),
                forall|c: int| 0 <= c < a ==> keeps(layers, r@, (#[trigger] list@[c]).nodes@.push(v), k as nat),
                a <= r@.len(),
                a > 0 ==> ord_le(r@[a - 1].cost as int, r@[a - 1].nodes@, list@[a - 1].cost + d, list@[a - 1].nodes@.push(v)),
            decreases list@.len() - a,
        {
            let e = &list[a];
            assert(reaches(layers, e.nodes@, i - 1, u as int));
            assert(e.cost <= 255 * STRING_COUNT * (i - 1));
            assert(usize::MAX <= u64::MAX);
            assert(e.cost <= 255 * STRING_COUNT * u64::MAX) by (nonlinear_arith)
                requires
                    e.cost <= 255 * STRING_COUNT * (i - 1),
                    i <= u64::MAX;
            let nodes = extended(&e.nodes, v);
            let cost = e.cost + d as u128;
            let ghost old_r = r@;
            let ghost entry = PartialPath { cost, nodes };
            proof {
                assert(along(layers, nodes@).drop_last() =~= along(layers, e.nodes@));
                assert(along(layers, nodes@).last() == *target);
                assert(along(layers, nodes@)[i - 1] == *from);
                assert(reaches(layers, nodes@, i as int, v as int));
                assert(cost <= 255 * STRING_COUNT * i) by (nonlinear_arith)
                    requires
                        e.cost <= 255 * STRING_COUNT * (i - 1),
                        d <= 255 * STRING_COUNT,
                        cost == e.cost + d;
                assert(nodes@[i - 1] == u);
                assert(!has_nodes(old_r, nodes@)) by {
                    if has_nodes(old_r, nodes@) {
                        let b = choose|b: int| 0 <= b < old_r.len() && (#[trigger] old_r[b]).nodes@ == nodes@;
                        if old_r[b].nodes@[i - 1] >= u {
                            let c = choose|c: int| 0 <= c < a && old_r[b].nodes@ == (#[trigger] list@[c]).nodes@.push(v);
                            assert(list@[c].nodes@ =~= old_r[b].nodes@.drop_last());
                            assert(e.nodes@ =~= nodes@.drop_last());
                        }
                    }
                }
                if a > 0 {
                    assert(ord_lt(list@[a - 1].cost as int, list@[a - 1].nodes@, list@[a as int].cost as int, list@[a as int].nodes@));
                    assert(list@[a - 1].nodes@.len() == list@[a as int].nodes@.len());
                    lemma_nodes_lt_push(list@[a - 1].nodes@, list@[a as int].nodes@, v);
                    assert(ord_lt(list@[a - 1].cost + d, list@[a - 1].nodes@.push(v), cost as int, nodes@));
                    lemma_ord_le_lt(
                        old_r[a - 1].cost as int,
                        old_r[a - 1].nodes@,
                        list@[a - 1].cost + d,
                        list@[a - 1].nodes@.push(v),
                        cost as int,
                        nodes@,
                    );
                }
                assert forall|b: int| 0 <= b < old_r.len() implies (#[trigger] old_r[b]).nodes@.len() == nodes@.len() by {
                    assert(reaches(layers, old_r[b].nodes@, i as int, v as int));
                }
            }
            insert_bounded(r, PartialPath { cost, nodes }, k);
            proof {
                let new_r = r@;
                assert forall|b: int| 0 <= b < new_r.len() implies {
                    &&& reaches(layers, (#[trigger] new_r[b]).nodes@, i as int, v as int)
                    &&& new_r[b].cost == path_cost(along(layers, new_r[b].nodes@))
                    &&& new_r[b].cost <= 255 * STRING_COUNT * i
                    &&& (new_r[b].nodes@[i - 1] < u || exists|c: int|
                        0 <= c < a + 1 && new_r[b].nodes@ == (#[trigger] list@[c]).nodes@.push(v))
                } by {
                    if new_r[b] == entry {
                        assert(new_r[b].nodes@ == list@[a as int].nodes@.push(v));
                    } else {
                        let c = choose|c: int| 0 <= c < old_r.len() && old_r[c] == new_r[b];
                        assert(old_r[c] == new_r[b]);
                    }
                }
                assert forall|q: Seq<usize>| #[trigger] keeps(layers, r_in, q, k as nat) implies keeps(layers, new_r, q, k as nat) by {
                    assert(keeps(layers, old_r, q, k as nat));
                    lemma_insert_keeps(layers, old_r, new_r, k as nat, q);
                }
                assert forall|c: int| 0 <= c < a + 1 implies keeps(layers, new_r, (#[trigger] list@[c]).nodes@.push(v), k as nat) by {
                    if c < a {
                        let q = list@[c].nodes@.push(v);
                        assert(keeps(layers, old_r, q, k as nat));
                        lemma_insert_keeps(layers, old_r, new_r, k as nat, q);
                    } else {
                        assert(list@[c].nodes@.push(v) == nodes@);
                    }
                }
                assert(a < k);
                assert(entry_le(new_r[a as int], entry));
            }
            a = a + 1;
        }
    }

    /// The `k` cheapest partial paths that end at node `v` of layer `i`, given those of each
    /// node of layer `i - 1`.
    fn best_into(&self, prev: &Vec<Vec<PartialPath>>, i: usize, v: usize, k: usize) -> (r: Vec<PartialPath>)
        requires
            k > 0,
            1 <= i < self.layers@.len(),
            self.layers@.len() <= usize::MAX,
            v < self.layers@[i as int]@.len(),
            prev@.len() == self.layers@[i - 1]@.len(),
            forall|u: int|
                0 <= u < prev@.len() ==> sound_list(self.layer_seqs(), #[trigger] prev@[u]@, i - 1, u, k as nat)
                    && best_list(self.layer_seqs(), prev@[u]@, i - 1, u, k as nat),
        ensures
            sound_list(self.layer_seqs(), r@, i as int, v as int, k as nat),
            best_list(self.layer_seqs(), r@, i as int, v as int, k as nat),
    {
        let ghost layers = self.layer_seqs();
        let mut r: Vec<PartialPath> = Vec::new();
        let mut u: usize = 0;
        while u < prev.len()
            invariant
                0 <= u <= prev@.len(),
                k > 0,
                layers == self.layer_seqs(),
                1 <= i < layers.len(),
                layers.len() <= usize::MAX,
                v < layers[i as int].len(),
                prev@.len() == layers[i - 1].len(),
                forall|w: int|
                    0 <= w < prev@.len() ==> sound_list(layers, #[trigger] prev@[w]@, i - 1, w, k as nat)
                        && best_list(layers, prev@[w]@, i - 1, w, k as nat),
                sound_list(layers, r@, i as int, v as int, k as nat),
                forall|b: int| 0 <= b < r@.len() ==> (#[trigger] r@[b]).nodes@[i - 1] < u,
                forall|q: Seq<usize>|
                    #[trigger] reaches(layers, q, i as int, v as int) && q[i - 1] < u ==> keeps(layers, r@, q, k as nat),
            decreases prev@.len() - u,
        {
            let ghost r0 = r@;
            assert(sound_list(layers, prev@[u as int]@, i - 1, u as int, k as nat));
            self.extend_into(&mut r, &prev[u], i, u, v, k);
            proof {
                assert forall|b: int| 0 <= b < r@.len() implies (#[trigger] r@[b]).nodes@[i - 1] < u + 1 by {
                }
                assert forall|q: Seq<usize>|
                    #[trigger] reaches(layers, q, i as int, v as int) && q[i - 1] < u + 1 implies keeps(layers, r@, q, k as nat) by {
                    if q[i - 1] < u {
                        assert(keeps(layers, r0, q, k as nat));
                    } else {
                        let shorter = q.drop_last();
                        let w = u as int;
                        assert(reaches(layers, shorter, i - 1, w));
                        assert(best_list(layers, prev@[w]@, i - 1, w, k as nat));
                        assert(keeps(layers, prev@[w]@, shorter, k as nat));
                        assert(q =~= shorter.push(v));
                        if has_nodes(prev@[w]@, shorter) {
                            let a = choose|a: int| 0 <= a < prev@[w]@.len() && (#[trigger] prev@[w]@[a]).nodes@ == shorter;
                            assert(keeps(layers, r@, prev@[w]@[a].nodes@.push(v), k as nat));
                        } else {
                            assert(along(layers, q).drop_last() =~= along(layers, shorter));
                            assert(along(layers, q)[i - 1] == layers[i - 1][w]);
                            assert(along(layers, q).last() == layers[i as int][v as int]);
                            let d = fret_distance(layers[i - 1][w].frets(), layers[i as int][v as int].frets());
                            assert(path_cost(along(layers, q)) == path_cost(along(layers, shorter)) + d);
                            let l = prev@[w]@;
                            assert(l.len() == k);
                            assert(reaches(layers, l[k - 1].nodes@, i - 1, w));
                            lemma_nodes_lt_push(l[k - 1].nodes@, shorter, v);
                            assert(ord_lt(l[k - 1].cost + d, l[k - 1].nodes@.push(v), path_cost(along(layers, q)) as int, q));
                            assert(r@.len() == k);
                            lemma_ord_le_lt(
                                r@[k - 1].cost as int,
                                r@[k - 1].nodes@,
                                l[k - 1].cost + d,
                                l[k - 1].nodes@.push(v),
                                path_cost(along(layers, q)) as int,
                                q,
                            );
                        }
                    }
                }
            }
            u = u + 1;
        }
        proof {
            assert forall|q: Seq<usize>| #[trigger] reaches(layers, q, i as int, v as int) implies keeps(layers, r@, q, k as nat) by {
                assert(q[i - 1] < prev@.len());
            }
        }
        r
    }

    /// Offers `best` each complete path of `list`, which end at node `w` of the last layer.
    fn merge_into(&self, best: &mut Vec<PartialPath>, list: &Vec<PartialPath>, w: usize, k: usize)
        requires
            k > 0,
            self.layers@.len() > 0,
            sound_list(self.layer_seqs(), list@, self.layers@.len() - 1, w as int, k as nat),
            old(best)@.len() <= k,
            sorted_entries(old(best)@),
            distinct_nodes(old(best)@),
            forall|b: int|
                0 <= b < old(best)@.len() ==> complete(self.layer_seqs(), #[trigger] old(best)@[b])
                    && old(best)@[b].nodes@[self.layers@.len() - 1] < w,
        ensures
            final(best)@.len() <= k,
            sorted_entries(final(best)@),
            distinct_nodes(final(best)@),
            forall|b: int|
                0 <= b < final(best)@.len() ==> complete(self.layer_seqs(), #[trigger] final(best)@[b])
                    && final(best)@[b].nodes@[self.layers@.len() - 1] <= w,
            forall|q: Seq<usize>|
                #[trigger] keeps(self.layer_seqs(), old(best)@, q, k as nat) ==> keeps(self.layer_seqs(), final(best)@, q, k as nat),
            forall|a: int| 0 <= a < list@.len() ==> keeps(self.layer_seqs(), final(best)@, (#[trigger] list@[a]).nodes@, k as nat),
            list@.len() == k ==> final(best)@.len() == k && ord_le(
                final(best)@[k - 1].cost as int,
                final(best)@[k - 1].nodes@,
                list@[k - 1].cost as int,
                list@[k - 1].nodes@,
            ),
    {
        let ghost layers = self.layer_seqs();
        let ghost last = self.layers@.len() - 1;
        let ghost b_in = best@;
        let mut a: usize = 0;
        while a < list.len()
            invariant
                0 <= a <= list@.len(),
                k > 0,
                layers == self.layer_seqs(),
                last == layers.len() - 1,
                sound_list(layers, list@, last, w as int, k as nat),
                best@.len() <= k,
                sorted_entries(best@),
                distinct_nodes(best@),
                forall|b: int|
                    0 <= b < best@.len() ==> complete(layers, #[trigger] best@[b]) && (best@[b].nodes@[last] < w || exists|c: int|
                        0 <= c < a && best@[b].nodes@ == (#[trigger] list@[c]).nodes@),
                forall|q: Seq<usize>| #[trigger] keeps(layers, b_in, q, k as nat) ==> keeps(layers, best@, q, k as nat),
                forall|c: int| 0 <= c < a ==> keeps(layers, best@, (#[trigger] list@[c]).nodes@, k as nat),
                a <= best@.len(),
                a > 0 ==> ord_le(best@[a - 1].cost as int, best@[a - 1].nodes@, list@[a - 1].cost as int, list@[a - 1].nodes@),
            decreases list@.len() - a,
        {
            let e = copied(&list[a]);
            let ghost old_b = best@;
            let ghost entry = e;
            proof {
                assert(reaches(layers, list@[a as int].nodes@, last, w as int));
                assert(!has_nodes(old_b, e.nodes@)) by {
                    if has_nodes(old_b, e.nodes@) {
                        let b = choose|b: int| 0 <= b < old_b.len() && (#[trigger] old_b[b]).nodes@ == e.nodes@;
                        if old_b[b].nodes@[last] >= w {
                            let c = choose|c: int| 0 <= c < a && old_b[b].nodes@ == (#[trigger] list@[c]).nodes@;
                        }
                    }
                }
                if a > 0 {
                    assert(ord_lt(list@[a - 1].cost as int, list@[a - 1].nodes@, list@[a as int].cost as int, list@[a as int].nodes@));
                    lemma_ord_le_lt(
                        old_b[a - 1].cost as int,
                        old_b[a - 1].nodes@,
                        list@[a - 1].cost as int,
                        list@[a - 1].nodes@,
                        e.cost as int,
                        e.nodes@,
                    );
                }
                assert forall|b: int| 0 <= b < old_b.len() implies (#[trigger] old_b[b]).nodes@.len() == e.nodes@.len() by {
                    assert(complete(layers, old_b[b]));
                }
            }
            insert_bounded(best, e, k);
            proof {
                let new_b = best@;
                assert forall|b: int| 0 <= b < new_b.len() implies complete(layers, #[trigger] new_b[b]) && (new_b[b].nodes@[last] < w
                    || exists|c: int| 0 <= c < a + 1 && new_b[b].nodes@ == (#[trigger] list@[c]).nodes@) by {
                    if new_b[b] == entry {
                        assert(new_b[b].nodes@ == list@[a as int].nodes@);
                    } else {
                        let c = choose|c: int| 0 <= c < old_b.len() && old_b[c] == new_b[b];
                        assert(old_b[c] == new_b[b]);
                    }
                }
                assert forall|b: int| 0 <= b < old_b.len() implies (#[trigger] old_b[b]).cost == path_cost(along(layers, old_b[b].nodes@)) by {
                    assert(complete(layers, old_b[b]));
                }
                assert forall|q: Seq<usize>| #[trigger] keeps(layers, b_in, q, k as nat) implies keeps(layers, new_b, q, k as nat) by {
                    assert(keeps(layers, old_b, q, k as nat));
                    lemma_insert_keeps(layers, old_b, new_b, k as nat, q);
                }
                assert forall|c: int| 0 <= c < a + 1 implies keeps(layers, new_b, (#[trigger] list@[c]).nodes@, k as nat) by {
                    if c < a {
                        let q = list@[c].nodes@;
                        assert(keeps(layers, old_b, q, k as nat));
                        lemma_insert_keeps(layers, old_b, new_b, k as nat, q);
                    }
                }
                assert(a < k);
                assert(entry_le(new_b[a as int], entry));
                assert(ord_le(new_b[a as int].cost as int, new_b[a as int].nodes@, list@[a as int].cost as int, list@[a as int].nodes@));
            }
            a = a + 1;
        }
    }
}

/// A copy of `e`.
fn copied(e: &PartialPath) -> (r: PartialPath)
    ensures
        r.cost == e.cost,
        r.nodes@ == e.nodes@,
{
    let mut nodes: Vec<usize> = Vec::new();
    let mut t: usize = 0;
    while t < e.nodes.len()
        invariant
            0 <= t <= e.nodes@.len(),
            nodes@ == e.nodes@.take(t as int),
        decreases e.nodes@.len() - t,
    {
        nodes.push(e.nodes[t]);
        t = t + 1;
        assert(nodes@ =~= e.nodes@.take(t as int));
    }
    assert(nodes@ =~= e.nodes@);
    PartialPath { cost: e.cost, nodes }
}

/// A copy of `nodes` with `v` added at the end.
fn extended(nodes: &Vec<usize>, v: usize) -> (r: Vec<usize>)
    ensures
        r@ == nodes@.push(v),
{
    let mut r: Vec<usize> = Vec::new();
    let mut t: usize = 0;
    while t < nodes.len()
        invariant
            0 <= t <= nodes@.len(),
            r@ == nodes@.take(t as int),
        decreases nodes@.len() - t,
    {
        r.push(nodes[t]);
        t = t + 1;
        assert(r@ =~= nodes@.take(t as int));
    }
    r.push(v);
    assert(r@ =~= nodes@.push(v));
    r
}

} // verus!
