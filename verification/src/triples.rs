//! Index triples `i < j < k` below a node count, and how many there are.

use vstd::prelude::*;
use vstd::set_lib::*;

verus! {

/// Three node indices.
pub type Triple = (int, int, int);

/// Whether `t` names three distinct nodes of `n`, in increasing order.
pub open spec fn is_triple(n: nat, t: Triple) -> bool {
    0 <= t.0 < t.1 < t.2 < n
}

/// Every increasing triple of nodes of a network of `n` nodes.
pub open spec fn triples(n: nat) -> Set<Triple> {
    Set::new(|t: Triple| is_triple(n, t))
}

/// Whether `t` comes before `(i, j, k)` in the order of the sweep: by first
/// index, then by second, then by third.
pub open spec fn comes_before(t: Triple, i: int, j: int, k: int) -> bool {
    t.0 < i || (t.0 == i && (t.1 < j || (t.1 == j && t.2 < k)))
}

/// The triples of `n` nodes with first index at least `from` that the sweep
/// has passed when it stands at `(i, j, k)`.
pub open spec fn swept(n: nat, from: int, i: int, j: int, k: int) -> Set<Triple> {
    Set::new(|t: Triple| is_triple(n, t) && from <= t.0 && comes_before(t, i, j, k))
}

/// The triples of `n` nodes whose first index is `i`.
pub open spec fn row(n: nat, i: int) -> Set<Triple> {
    Set::new(|t: Triple| is_triple(n, t) && t.0 == i)
}

/// The triples of `n` nodes whose first index is below `i`.
pub open spec fn rows_below(n: nat, i: int) -> Set<Triple> {
    Set::new(|t: Triple| is_triple(n, t) && t.0 < i)
}

/// The number of pairs among `n` things.
pub open spec fn choose2(n: nat) -> nat {
    (n * (n - 1) / 2) as nat
}

/// The number of triples among `n` things.
pub open spec fn choose3(n: nat) -> nat {
    (n * (n - 1) * (n - 2) / 6) as nat
}

proof fn lemma_pair_product_even(n: nat)
    ensures
        (n * (n - 1)) % 2 == 0,
        n * (n - 1) >= 0,
    decreases n,
{
    if n > 0 {
        lemma_pair_product_even((n - 1) as nat);
        assert(n * (n - 1) == (n - 1) * (n - 2) + 2 * (n - 1)) by (nonlinear_arith);
    }
}

proof fn lemma_triple_product_by_six(n: nat)
    ensures
        (n * (n - 1) * (n - 2)) % 6 == 0,
        n * (n - 1) * (n - 2) >= 0,
    decreases n,
{
    if n > 0 {
        let m = (n - 1) as nat;
        lemma_triple_product_by_six(m);
        lemma_pair_product_even(m);
        assert(n * (n - 1) * (n - 2) == m * (m - 1) * (m - 2) + 3 * (m * (m - 1)))
            by (nonlinear_arith)
            requires
                m == n - 1,
        ;
    }
}

/// Pascal's rule for pairs: one more thing pairs with each of the `n` others.
pub proof fn lemma_choose2_step(n: nat)
    ensures
        choose2(n + 1) == choose2(n) + n,
{
    lemma_pair_product_even(n);
    lemma_pair_product_even(n + 1);
    assert((n + 1) * ((n + 1) - 1) == n * (n - 1) + 2 * n) by (nonlinear_arith);
}

/// Pascal's rule for triples: one more thing joins each pair of the `n`
/// others.
pub proof fn lemma_choose3_step(n: nat)
    ensures
        choose3(n + 1) == choose3(n) + choose2(n),
{
    lemma_pair_product_even(n);
    lemma_triple_product_by_six(n);
    lemma_triple_product_by_six(n + 1);
    assert((n + 1) * ((n + 1) - 1) * ((n + 1) - 2) == n * (n - 1) * (n - 2) + 3 * (n * (n - 1)))
        by (nonlinear_arith);
}

spec fn firsts(i_end: int, j: int, k: int) -> Set<Triple> {
    Set::new(|t: Triple| 0 <= t.0 < i_end && t.1 == j && t.2 == k)
}

proof fn lemma_firsts(i_end: nat, j: int, k: int)
    ensures
        firsts(i_end as int, j, k).finite(),
        firsts(i_end as int, j, k).len() == i_end,
    decreases i_end,
{
    if i_end == 0 {
        assert(firsts(0, j, k) =~= Set::empty());
    } else {
        lemma_firsts((i_end - 1) as nat, j, k);
        assert(firsts(i_end as int, j, k) =~= firsts(i_end - 1, j, k).insert((i_end - 1, j, k)));
    }
}

spec fn pairs_under(j_end: int, k: int) -> Set<Triple> {
    Set::new(|t: Triple| 0 <= t.0 < t.1 < j_end && t.2 == k)
}

proof fn lemma_pairs_under(j_end: nat, k: int)
    ensures
        pairs_under(j_end as int, k).finite(),
        pairs_under(j_end as int, k).len() == choose2(j_end),
    decreases j_end,
{
    if j_end == 0 {
        assert(pairs_under(0, k) =~= Set::empty());
    } else {
        let m = (j_end - 1) as nat;
        lemma_pairs_under(m, k);
        lemma_firsts(m, m as int, k);
        lemma_choose2_step(m);
        let a = pairs_under(m as int, k);
        let b = firsts(m as int, m as int, k);
        assert(a.disjoint(b));
        lemma_set_disjoint_lens(a, b);
        assert(pairs_under(j_end as int, k) =~= a + b);
    }
}

/// There are finitely many triples of `n` nodes, `choose3(n)` of them.
pub proof fn lemma_triples_count(n: nat)
    ensures
        triples(n).finite(),
        triples(n).len() == choose3(n),
    decreases n,
{
    if n == 0 {
        assert(triples(0) =~= Set::empty());
    } else {
        let m = (n - 1) as nat;
        lemma_triples_count(m);
        lemma_pairs_under(m, m as int);
        lemma_choose3_step(m);
        let a = triples(m);
        let b = pairs_under(m as int, m as int);
        assert(a.disjoint(b));
        lemma_set_disjoint_lens(a, b);
        assert(triples(n) =~= a + b);
    }
}

/// A set of triples of `n` nodes is finite and no larger than `choose3(n)`.
pub proof fn lemma_region_bound(n: nat, region: Set<Triple>)
    requires
        region.subset_of(triples(n)),
    ensures
        region.finite(),
        region.len() <= choose3(n),
{
    lemma_triples_count(n);
    lemma_len_subset(region, triples(n));
}

/// Calculate number of possible triads: C(n, 3) = n! / (3! * (n-3)!),
/// computed as `n * (n - 1) * (n - 2) / 6`. The product has to fit a `usize`.
pub fn count_triads(n: usize) -> (possible: usize)
    requires
        n >= 3 ==> n * (n - 1) * (n - 2) <= usize::MAX,
    ensures
        possible == choose3(n as nat),
{
    if n < 3 {
        proof {
            assert(n * (n - 1) * (n - 2) == 0) by (nonlinear_arith)
                requires
                    0 <= n < 3,
            ;
        }
        0
    } else {
        proof {
            assert(0 <= n * (n - 1) <= n * (n - 1) * (n - 2)) by (nonlinear_arith)
                requires
                    n >= 3,
            ;
        }
        n * (n - 1) * (n - 2) / 6
    }
}

} // verus!
