//! The signed network as a matrix of weights, and the census of its triads.

use vstd::prelude::*;
use vstd::set_lib::*;
use crate::counts::Census;
use crate::triples::{
    choose3, is_triple, lemma_region_bound, row, rows_below, swept, triples, Triple,
};

verus! {

/// The sign of a weight: `1` if positive, `-1` if negative, `0` if there is
/// no edge.
pub open spec fn sign_of(w: int) -> int {
    if w > 0 {
        1
    } else if w < 0 {
        -1
    } else {
        0
    }
}

/// A network of `n` nodes: row `i` holds the weights of the edges from node
/// `i` to each node.
pub struct Network {
    pub weights: Seq<Seq<int>>,
}

impl Network {
    /// The number of nodes.
    pub open spec fn n(self) -> nat {
        self.weights.len()
    }

    /// Whether every row has one weight for each node.
    pub open spec fn square(self) -> bool {
        forall|i: int| 0 <= i < self.n() ==> (#[trigger] self.weights[i]).len() == self.n()
    }

    /// Whether no node has an edge to itself.
    pub open spec fn no_loops(self) -> bool {
        forall|i: int| 0 <= i < self.n() ==> (#[trigger] self.weights[i])[i] == 0
    }

    /// The sign of the edge from `i` to `j`.
    pub open spec fn sign(self, i: int, j: int) -> int {
        sign_of(self.weights[i][j])
    }

    /// Whether the edge from `i` to `j` is present.
    pub open spec fn linked(self, i: int, j: int) -> bool {
        self.sign(i, j) != 0
    }

    /// Whether `t` is a triad: three nodes in increasing order, with all
    /// three edges between them present.
    pub open spec fn is_triad(self, t: Triple) -> bool {
        &&& is_triple(self.n(), t)
        &&& self.linked(t.0, t.1)
        &&& self.linked(t.0, t.2)
        &&& self.linked(t.1, t.2)
    }

    /// How many of the three edges of `t` are positive.
    pub open spec fn positives(self, t: Triple) -> nat {
        let a: nat = if self.sign(t.0, t.1) > 0 { 1 } else { 0 };
        let b: nat = if self.sign(t.0, t.2) > 0 { 1 } else { 0 };
        let c: nat = if self.sign(t.1, t.2) > 0 { 1 } else { 0 };
        a + b + c
    }

    /// What the triple `t` adds to a tally: one in the bucket of its positive
    /// edges if it is a triad, nothing otherwise.
    pub open spec fn cell(self, t: Triple) -> Census {
        if self.is_triad(t) {
            Census::one(self.positives(t))
        } else {
            Census::empty()
        }
    }

    /// The triads among `region` that have `p` positive edges.
    pub open spec fn triads_in(self, region: Set<Triple>, p: nat) -> Set<Triple> {
        Set::new(|t: Triple| region.contains(t) && self.is_triad(t) && self.positives(t) == p)
    }

    /// The triads among `region`, counted by their positive edges.
    pub open spec fn tally(self, region: Set<Triple>) -> Census {
        Census {
            three: self.triads_in(region, 3).len(),
            two: self.triads_in(region, 2).len(),
            one: self.triads_in(region, 1).len(),
            zero: self.triads_in(region, 0).len(),
        }
    }

    /// The triads of the whole network, counted by their positive edges.
    pub open spec fn census(self) -> Census {
        self.tally(triples(self.n()))
    }

    /// The triads among `region`.
    pub open spec fn triads(self, region: Set<Triple>) -> Set<Triple> {
        Set::new(|t: Triple| region.contains(t) && self.is_triad(t))
    }

    /// Whether every pair of nodes `i < j` is linked.
    pub open spec fn complete(self) -> bool {
        forall|i: int, j: int| 0 <= i < j < self.n() ==> #[trigger] self.linked(i, j)
    }
}

/// No triads are found where no triples are looked at.
pub proof fn lemma_tally_empty(net: Network)
    ensures
        net.tally(Set::empty()) == Census::empty(),
{
    assert forall|p: nat| #[trigger] net.triads_in(Set::empty(), p).len() == 0 by {
        assert(net.triads_in(Set::empty(), p) =~= Set::empty());
    }
}

/// A tally depends on the region only through the triads in it.
pub proof fn lemma_tally_same_triads(net: Network, a: Set<Triple>, b: Set<Triple>)
    requires
        net.triads(a) =~= net.triads(b),
    ensures
        net.tally(a) == net.tally(b),
{
    assert forall|p: nat| #[trigger] net.triads_in(a, p) == net.triads_in(b, p) by {
        assert forall|t: Triple| net.triads_in(a, p).contains(t) == net.triads_in(b, p).contains(
            t,
        ) by {
            assert(net.triads(a).contains(t) == net.triads(b).contains(t));
        }
        assert(net.triads_in(a, p) =~= net.triads_in(b, p));
    }
}

/// Looking at one more triple adds what that triple is worth.
pub proof fn lemma_tally_insert(net: Network, region: Set<Triple>, t: Triple)
    requires
        region.finite(),
        !region.contains(t),
    ensures
        net.tally(region.insert(t)) == net.tally(region).merge(net.cell(t)),
{
    assert forall|p: nat|
        #[trigger] net.triads_in(region.insert(t), p).len() == net.triads_in(region, p).len() + (
        if net.is_triad(t) && net.positives(t) == p {
            1nat
        } else {
            0nat
        }) by {
        let small = net.triads_in(region, p);
        let large = net.triads_in(region.insert(t), p);
        assert(small.subset_of(region));
        lemma_len_subset(small, region);
        if net.is_triad(t) && net.positives(t) == p {
            assert(large =~= small.insert(t));
        } else {
            assert(large =~= small);
        }
    }
}

/// The tallies of two regions that share no triple add up to the tally of
/// both together.
pub proof fn lemma_tally_union(net: Network, a: Set<Triple>, b: Set<Triple>)
    requires
        a.finite(),
        b.finite(),
        a.disjoint(b),
    ensures
        net.tally(a + b) == net.tally(a).merge(net.tally(b)),
{
    assert forall|p: nat|
        #[trigger] net.triads_in(a + b, p).len() == net.triads_in(a, p).len() + net.triads_in(
            b,
            p,
        ).len() by {
        let ta = net.triads_in(a, p);
        let tb = net.triads_in(b, p);
        assert(ta.subset_of(a));
        assert(tb.subset_of(b));
        lemma_len_subset(ta, a);
        lemma_len_subset(tb, b);
        assert(ta.disjoint(tb));
        lemma_set_disjoint_lens(ta, tb);
        assert(net.triads_in(a + b, p) =~= ta + tb);
    }
}

/// The buckets of a tally add up to the number of triads in the region.
pub proof fn lemma_tally_total(net: Network, region: Set<Triple>)
    requires
        region.finite(),
    ensures
        net.triads(region).finite(),
        net.tally(region).total() == net.triads(region).len(),
        net.tally(region).total() <= region.len(),
{
    let t3 = net.triads_in(region, 3);
    let t2 = net.triads_in(region, 2);
    let t1 = net.triads_in(region, 1);
    let t0 = net.triads_in(region, 0);
    assert(t3.subset_of(region) && t2.subset_of(region) && t1.subset_of(region) && t0.subset_of(
        region,
    ));
    lemma_len_subset(t3, region);
    lemma_len_subset(t2, region);
    lemma_len_subset(t1, region);
    lemma_len_subset(t0, region);
    assert(t3.disjoint(t2));
    lemma_set_disjoint_lens(t3, t2);
    assert((t3 + t2).disjoint(t1));
    lemma_set_disjoint_lens(t3 + t2, t1);
    assert((t3 + t2 + t1).disjoint(t0));
    lemma_set_disjoint_lens(t3 + t2 + t1, t0);
    assert(net.triads(region) =~= t3 + t2 + t1 + t0);
    assert(net.triads(region).subset_of(region));
    lemma_len_subset(net.triads(region), region);
}

/// A tally over triples of the network is no larger than the number of its
/// triples.
pub proof fn lemma_tally_bound(net: Network, region: Set<Triple>)
    requires
        region.subset_of(triples(net.n())),
    ensures
        region.finite(),
        net.tally(region).total() <= choose3(net.n()),
{
    lemma_region_bound(net.n(), region);
    lemma_tally_total(net, region);
}

/// Moving the sweep past the triple `(i, j, k)` adds what that triple is
/// worth.
pub proof fn lemma_sweep_step(net: Network, from: int, i: int, j: int, k: int)
    requires
        0 <= from <= i < j < k < net.n(),
    ensures
        net.tally(swept(net.n(), from, i, j, k + 1)) == net.tally(
            swept(net.n(), from, i, j, k),
        ).merge(net.cell((i, j, k))),
        net.tally(swept(net.n(), from, i, j, k + 1)).total() <= choose3(net.n()),
{
    let n = net.n();
    let before = swept(n, from, i, j, k);
    let after = swept(n, from, i, j, k + 1);
    lemma_tally_bound(net, before);
    lemma_tally_bound(net, after);
    lemma_tally_insert(net, before, (i, j, k));
    assert(after =~= before.insert((i, j, k)));
}

/// Where `i` and `j` are not linked, no triple that starts with them is a
/// triad, and the sweep may pass them all at once.
pub proof fn lemma_sweep_skip(net: Network, from: int, i: int, j: int)
    requires
        0 <= from <= i < j < net.n(),
        !net.linked(i, j),
    ensures
        net.tally(swept(net.n(), from, i, j + 1, 0)) == net.tally(swept(net.n(), from, i, j, 0)),
{
    let n = net.n();
    let a = swept(n, from, i, j + 1, 0);
    let b = swept(n, from, i, j, 0);
    assert(net.triads(a) =~= net.triads(b));
    lemma_tally_same_triads(net, a, b);
}

/// Where the sweep stands between two pairs, between two rows, before the
/// first row and behind the last.
pub proof fn lemma_sweep_edges(n: nat, from: int, i: int, j: int)
    ensures
        swept(n, from, from, 0, 0) == Set::<Triple>::empty(),
        swept(n, from, i, j, j + 1) == swept(n, from, i, j, 0),
        j >= n ==> swept(n, from, i, j, 0) == swept(n, from, i + 1, 0, 0),
        j <= i + 1 ==> swept(n, from, i, j, 0) == swept(n, from, i, 0, 0),
        swept(n, 0, i, 0, 0) == rows_below(n, i),
        i >= n ==> swept(n, 0, i, 0, 0) == triples(n),
        swept(n, i, i + 1, 0, 0) == row(n, i),
{
    assert(swept(n, from, from, 0, 0) =~= Set::<Triple>::empty());
    assert(swept(n, from, i, j, j + 1) =~= swept(n, from, i, j, 0));
    if j >= n {
        assert(swept(n, from, i, j, 0) =~= swept(n, from, i + 1, 0, 0));
    }
    if j <= i + 1 {
        assert(swept(n, from, i, j, 0) =~= swept(n, from, i, 0, 0));
    }
    assert(swept(n, 0, i, 0, 0) =~= rows_below(n, i));
    if i >= n {
        assert(swept(n, 0, i, 0, 0) =~= triples(n));
    }
    assert(swept(n, i, i + 1, 0, 0) =~= row(n, i));
}

/// The rows below `i` and row `i` together are the rows below `i + 1`, and
/// their tallies merge.
pub proof fn lemma_rows_step(net: Network, i: int)
    requires
        0 <= i < net.n(),
    ensures
        net.tally(rows_below(net.n(), i + 1)) == net.tally(rows_below(net.n(), i)).merge(
            net.tally(row(net.n(), i)),
        ),
        net.tally(rows_below(net.n(), i + 1)).total() <= choose3(net.n()),
{
    let n = net.n();
    let a = rows_below(n, i);
    let b = row(n, i);
    lemma_tally_bound(net, a);
    lemma_tally_bound(net, b);
    lemma_tally_bound(net, rows_below(n, i + 1));
    assert(a.disjoint(b));
    lemma_tally_union(net, a, b);
    assert(rows_below(n, i + 1) =~= a + b);
}

} // verus!
