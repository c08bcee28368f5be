//! What holds of every network and every tally.

use vstd::prelude::*;
use vstd::set_lib::*;
use crate::counts::Census;
use crate::network::{lemma_tally_empty, lemma_tally_total, lemma_tally_union, Network};
use crate::triples::{choose3, lemma_triples_count, row, triples, Triple};

verus! {

/// The tallies of `parts`, merged from first to last.
pub open spec fn merge_all(parts: Seq<Census>) -> Census
    decreases parts.len(),
{
    if parts.len() == 0 {
        Census::empty()
    } else {
        merge_all(parts.drop_last()).merge(parts.last())
    }
}

/// Every triple that lies in one of `regions`.
pub open spec fn union_all(regions: Seq<Set<Triple>>) -> Set<Triple> {
    Set::new(|t: Triple| exists|r: int| 0 <= r < regions.len() && #[trigger] regions[r].contains(t))
}

/// Whether `regions` are finite and no triple lies in two of them.
pub open spec fn is_partition(regions: Seq<Set<Triple>>) -> bool {
    &&& forall|r: int| 0 <= r < regions.len() ==> (#[trigger] regions[r]).finite()
    &&& forall|r: int, s: int|
        0 <= r < s < regions.len() ==> (#[trigger] regions[r]).disjoint(#[trigger] regions[s])
}

/// The tally of each of `regions`.
pub open spec fn tallies(net: Network, regions: Seq<Set<Triple>>) -> Seq<Census> {
    Seq::new(regions.len(), |r: int| net.tally(regions[r]))
}

/// Counting each region of a partition alone and merging the tallies gives
/// the tally of all the regions together.
pub proof fn lemma_partition_merges(net: Network, regions: Seq<Set<Triple>>)
    requires
        is_partition(regions),
    ensures
        union_all(regions).finite(),
        merge_all(tallies(net, regions)) == net.tally(union_all(regions)),
    decreases regions.len(),
{
    if regions.len() == 0 {
        assert(union_all(regions) =~= Set::empty());
        lemma_tally_empty(net);
    } else {
        let front = regions.drop_last();
        let last = regions.last();
        assert(is_partition(front)) by {
            assert forall|r: int| 0 <= r < front.len() implies (#[trigger] front[r]).finite() by {
                assert(front[r] == regions[r]);
            }
            assert forall|r: int, s: int| 0 <= r < s < front.len() implies (#[trigger] front[r]).disjoint(
                #[trigger] front[s],
            ) by {
                assert(front[r] == regions[r] && front[s] == regions[s]);
            }
        }
        lemma_partition_merges(net, front);
        assert(union_all(front).disjoint(last)) by {
            assert forall|t: Triple| union_all(front).contains(t) implies !last.contains(t) by {
                let r = choose|r: int| 0 <= r < front.len() && #[trigger] front[r].contains(t);
                assert(front[r] == regions[r]);
                assert(regions[r].disjoint(regions[regions.len() - 1]));
            }
        }
        assert(union_all(regions) =~= union_all(front) + last) by {
            assert forall|t: Triple| union_all(regions).contains(t) implies (union_all(front)
                + last).contains(t) by {
                let r = choose|r: int| 0 <= r < regions.len() && #[trigger] regions[r].contains(t);
                if r < front.len() {
                    assert(front[r].contains(t));
                }
            }
            assert forall|t: Triple| (union_all(front) + last).contains(t) implies union_all(
                regions,
            ).contains(t) by {
                if last.contains(t) {
                    assert(regions[regions.len() - 1].contains(t));
                } else {
                    let r = choose|r: int| 0 <= r < front.len() && #[trigger] front[r].contains(t);
                    assert(regions[r].contains(t));
                }
            }
        }
        lemma_tally_union(net, union_all(front), last);
        assert(tallies(net, regions).drop_last() =~= tallies(net, front));
    }
}

/// Two partitions of the same triples merge to the same tally, however each
/// cuts them up and in whatever order its regions come.
pub proof fn lemma_partitions_agree(net: Network, a: Seq<Set<Triple>>, b: Seq<Set<Triple>>)
    requires
        is_partition(a),
        is_partition(b),
        union_all(a) =~= union_all(b),
    ensures
        merge_all(tallies(net, a)) == merge_all(tallies(net, b)),
{
    lemma_partition_merges(net, a);
    lemma_partition_merges(net, b);
}

/// The rows of a network of `n` nodes: region `i` holds the triples whose
/// lowest node is `i`.
pub open spec fn rows(n: nat) -> Seq<Set<Triple>> {
    Seq::new(n, |i: int| row(n, i))
}

/// Counting row by row and merging gives what one sweep over all triples
/// gives: the parallel count and the sequential count agree.
pub proof fn lemma_rows_merge_to_census(net: Network)
    ensures
        merge_all(tallies(net, rows(net.n()))) == net.census(),
{
    let n = net.n();
    lemma_triples_count(n);
    assert(is_partition(rows(n))) by {
        assert forall|r: int| 0 <= r < rows(n).len() implies (#[trigger] rows(n)[r]).finite() by {
            assert(rows(n)[r].subset_of(triples(n)));
            lemma_len_subset(rows(n)[r], triples(n));
        }
    }
    lemma_partition_merges(net, rows(n));
    assert(union_all(rows(n)) =~= triples(n)) by {
        assert forall|t: Triple| triples(n).contains(t) implies union_all(rows(n)).contains(t) by {
            assert(rows(n)[t.0].contains(t));
        }
    }
}

/// A network has no more triads than triples of nodes. It has as many where
/// every pair of nodes is linked, and, from three nodes on, only there.
pub proof fn lemma_census_bound(net: Network)
    ensures
        net.census().total() <= choose3(net.n()),
        net.complete() ==> net.census().total() == choose3(net.n()),
        net.n() >= 3 && net.census().total() == choose3(net.n()) ==> net.complete(),
{
    let n = net.n();
    let all = triples(n);
    let triads = net.triads(all);
    lemma_triples_count(n);
    lemma_tally_total(net, all);
    if net.complete() {
        assert(triads =~= all) by {
            assert forall|t: Triple| all.contains(t) implies triads.contains(t) by {
                assert(net.linked(t.0, t.1) && net.linked(t.0, t.2) && net.linked(t.1, t.2));
            }
        }
    }
    if n >= 3 && net.census().total() == choose3(n) {
        assert(triads.subset_of(all));
        lemma_subset_equality(triads, all);
        assert forall|i: int, j: int| 0 <= i < j < n implies #[trigger] net.linked(i, j) by {
            let t: Triple = if j < n - 1 {
                (i, j, n - 1)
            } else if i > 0 {
                (0, i, j)
            } else {
                (0, 1, j)
            };
            assert(all.contains(t));
            assert(triads.contains(t));
        }
    }
}

/// Whether the nodes `a` and `b` are both among the three of `t`.
pub open spec fn holds_pair(t: Triple, a: int, b: int) -> bool {
    (t.0 == a && t.1 == b) || (t.0 == a && t.2 == b) || (t.1 == a && t.2 == b)
}

/// A pair of nodes without an edge takes every triple that holds it out of
/// every tally: such a triple is no triad and adds nothing.
pub proof fn lemma_unlinked_pair_counts_nothing(net: Network, a: int, b: int, t: Triple)
    requires
        !net.linked(a, b),
        holds_pair(t, a, b),
    ensures
        !net.is_triad(t),
        net.cell(t) == Census::empty(),
{
}

} // verus!
