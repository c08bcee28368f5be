//! The tally of triads by number of positive edges, and its merge.

use vstd::prelude::*;

verus! {

/// The mathematical tally: how many triads have three, two, one and no
/// positive edge.
pub struct Census {
    pub three: nat,
    pub two: nat,
    pub one: nat,
    pub zero: nat,
}

impl Census {
    /// The tally of nothing, the identity of `merge`.
    pub open spec fn empty() -> Census {
        Census { three: 0, two: 0, one: 0, zero: 0 }
    }

    /// The tally of a single triad with `p` positive edges.
    pub open spec fn one(p: nat) -> Census {
        Census {
            three: if p == 3 { 1 } else { 0 },
            two: if p == 2 { 1 } else { 0 },
            one: if p == 1 { 1 } else { 0 },
            zero: if p == 0 { 1 } else { 0 },
        }
    }

    /// Triads with three or one positive edge.
    pub open spec fn stable(self) -> nat {
        self.three + self.one
    }

    /// Triads with two or no positive edge.
    pub open spec fn unstable(self) -> nat {
        self.two + self.zero
    }

    /// All triads.
    pub open spec fn total(self) -> nat {
        self.three + self.two + self.one + self.zero
    }

    /// Bucket by bucket sum.
    pub open spec fn merge(self, other: Census) -> Census {
        Census {
            three: self.three + other.three,
            two: self.two + other.two,
            one: self.one + other.one,
            zero: self.zero + other.zero,
        }
    }

    /// Whether each bucket, and their sum, fits a `u64`.
    pub open spec fn fits(self) -> bool {
        self.total() <= u64::MAX
    }
}

/// Results of a triad count.
#[derive(Debug, Clone, PartialEq, Eq, Structural)]
pub struct TriadCounts {
    /// Triads with 3 positive edges (all friends)
    pub three_positive: u64,
    /// Triads with 2 positive, 1 negative edge
    pub two_positive: u64,
    /// Triads with 1 positive, 2 negative edges
    pub one_positive: u64,
    /// Triads with 3 negative edges (all enemies)
    pub zero_positive: u64,
}

impl View for TriadCounts {
    type V = Census;

    open spec fn view(&self) -> Census {
        Census {
            three: self.three_positive as nat,
            two: self.two_positive as nat,
            one: self.one_positive as nat,
            zero: self.zero_positive as nat,
        }
    }
}

impl Default for TriadCounts {
    fn default() -> (r: TriadCounts)
        ensures
            r@ == Census::empty(),
    {
        TriadCounts { three_positive: 0, two_positive: 0, one_positive: 0, zero_positive: 0 }
    }
}

impl TriadCounts {
    /// Number of stable triads (3 positive or 1 positive).
    pub fn stable(&self) -> (r: u64)
        requires
            self@.stable() <= u64::MAX,
        ensures
            r == self@.stable(),
    {
        self.three_positive + self.one_positive
    }

    /// Number of unstable triads (2 positive or 0 positive).
    pub fn unstable(&self) -> (r: u64)
        requires
            self@.unstable() <= u64::MAX,
        ensures
            r == self@.unstable(),
    {
        self.two_positive + self.zero_positive
    }

    /// Total number of triads.
    pub fn total(&self) -> (r: u64)
        requires
            self@.fits(),
        ensures
            r == self@.total(),
    {
        self.three_positive + self.two_positive + self.one_positive + self.zero_positive
    }

    /// Counts one more triad with `positives` positive edges.
    pub fn record(&mut self, positives: u8)
        requires
            old(self)@.total() < u64::MAX,
        ensures
            final(self)@ == old(self)@.merge(Census::one(positives as nat)),
    {
        match positives {
            3 => self.three_positive += 1,
            2 => self.two_positive += 1,
            1 => self.one_positive += 1,
            0 => self.zero_positive += 1,
            _ => {},
        }
    }

    /// Adds the counts of `other` to `self`, bucket by bucket.
    pub fn merge(&mut self, other: &TriadCounts)
        requires
            old(self)@.merge(other@).fits(),
        ensures
            final(self)@ == old(self)@.merge(other@),
    {
        self.three_positive += other.three_positive;
        self.two_positive += other.two_positive;
        self.one_positive += other.one_positive;
        self.zero_positive += other.zero_positive;
    }
}

/// Stable and unstable triads together are all triads.
pub proof fn lemma_stable_unstable_total(c: Census)
    ensures
        c.stable() + c.unstable() == c.total(),
{
}

/// The order of the two operands of a merge does not matter.
pub proof fn lemma_merge_commutative(a: Census, b: Census)
    ensures
        a.merge(b) == b.merge(a),
{
}

/// The grouping of successive merges does not matter.
pub proof fn lemma_merge_associative(a: Census, b: Census, c: Census)
    ensures
        a.merge(b).merge(c) == a.merge(b.merge(c)),
{
}

/// Merging with the empty tally changes nothing.
pub proof fn lemma_merge_identity(a: Census)
    ensures
        a.merge(Census::empty()) == a,
        Census::empty().merge(a) == a,
{
}

} // verus!
