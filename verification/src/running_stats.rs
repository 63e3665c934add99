//! Streaming statistics over the integer winnings of simulated rounds.
//!
//! Results are whole numbers of half-bet currency units, so the statistics
//! can be kept exactly: a count, a sum, a sum of squares, and the extremes.
//! The mean is `sum / count` and the sample variance
//! `(count * sum_squares - sum * sum) / (count * (count - 1))`; keeping the
//! raw sums exact makes merging partial tallies from independent workers
//! associative and order-independent, so how a simulation is partitioned
//! can never change the aggregate.

use vstd::prelude::*;

verus! {

/// Largest value magnitude a tally accepts.
pub const MAX_STAT_VALUE: i64 = 10_000_000_000;

/// Most values a tally accepts.
pub const MAX_STAT_COUNT: u64 = 100_000_000_000_000_000;

pub open spec fn spec_sum(s: Seq<int>) -> int
    decreases s.len(),
{
    if s.len() == 0 {
        0
    } else {
        spec_sum(s.drop_last()) + s.last()
    }
}

pub open spec fn spec_sumsq(s: Seq<int>) -> int
    decreases s.len(),
{
    if s.len() == 0 {
        0
    } else {
        spec_sumsq(s.drop_last()) + s.last() * s.last()
    }
}

pub open spec fn spec_opt_min(a: Option<int>, b: Option<int>) -> Option<int> {
    match (a, b) {
        (None, x) => x,
        (x, None) => x,
        (Some(x), Some(y)) => Some(if x <= y { x } else { y }),
    }
}

pub open spec fn spec_opt_max(a: Option<int>, b: Option<int>) -> Option<int> {
    match (a, b) {
        (None, x) => x,
        (x, None) => x,
        (Some(x), Some(y)) => Some(if x >= y { x } else { y }),
    }
}

pub open spec fn spec_seq_min(s: Seq<int>) -> Option<int>
    decreases s.len(),
{
    if s.len() == 0 {
        None
    } else {
        spec_opt_min(spec_seq_min(s.drop_last()), Some(s.last()))
    }
}

pub open spec fn spec_seq_max(s: Seq<int>) -> Option<int>
    decreases s.len(),
{
    if s.len() == 0 {
        None
    } else {
        spec_opt_max(spec_seq_max(s.drop_last()), Some(s.last()))
    }
}

pub open spec fn spec_vals_bounded(s: Seq<int>) -> bool {
    forall|i: int| 0 <= i < s.len()
        ==> -MAX_STAT_VALUE <= #[trigger] s[i] <= MAX_STAT_VALUE
}

/// Exact running statistics of the values pushed so far.
pub struct RunningStats {
    min: Option<i64>,
    max: Option<i64>,
    count: u64,
    sum: i128,
    sumsq: i128,
    vals: Ghost<Seq<int>>,
}

impl RunningStats {
    /// The sequence of values tallied so far, in push order.
    pub closed spec fn spec_vals(&self) -> Seq<int> {
        self.vals@
    }

    /// Every field is exactly the statistic of the tallied values.
    pub closed spec fn wf(&self) -> bool {
        &&& self.count == self.vals@.len()
        &&& self.count <= MAX_STAT_COUNT
        &&& spec_vals_bounded(self.vals@)
        &&& self.sum as int == spec_sum(self.vals@)
        &&& self.sumsq as int == spec_sumsq(self.vals@)
        &&& (match self.min {
            Some(m) => spec_seq_min(self.vals@) == Some(m as int),
            None => spec_seq_min(self.vals@) is None,
        })
        &&& (match self.max {
            Some(m) => spec_seq_max(self.vals@) == Some(m as int),
            None => spec_seq_max(self.vals@) is None,
        })
    }
}

/// The sum is bounded by the count times the value bound, and the sum of
/// squares by the count times the squared bound.
pub proof fn lemma_sums_bounded(s: Seq<int>)
    requires
        spec_vals_bounded(s),
    ensures
        -(s.len() * MAX_STAT_VALUE) <= spec_sum(s) <= s.len() * MAX_STAT_VALUE,
        0 <= spec_sumsq(s) <= s.len() * (MAX_STAT_VALUE as int * MAX_STAT_VALUE as int),
    decreases s.len(),
{
    if s.len() > 0 {
        assert(spec_vals_bounded(s.drop_last())) by {
            assert(forall|i: int|
                0 <= i < s.len() - 1 ==> #[trigger] s.drop_last()[i] == s[i]);
        }
        lemma_sums_bounded(s.drop_last());
        let v = s.last();
        assert(s[s.len() - 1] == v);
        assert(-MAX_STAT_VALUE <= v <= MAX_STAT_VALUE);
        assert(v * v <= MAX_STAT_VALUE as int * MAX_STAT_VALUE as int && v * v >= 0)
            by (nonlinear_arith)
            requires
                -MAX_STAT_VALUE <= v <= MAX_STAT_VALUE,
        ;
    }
}

/// Splitting a value sequence splits each statistic: sums add, extremes
/// combine.
pub proof fn lemma_stats_concat(a: Seq<int>, b: Seq<int>)
    ensures
        spec_sum(a + b) == spec_sum(a) + spec_sum(b),
        spec_sumsq(a + b) == spec_sumsq(a) + spec_sumsq(b),
        spec_seq_min(a + b) == spec_opt_min(spec_seq_min(a), spec_seq_min(b)),
        spec_seq_max(a + b) == spec_opt_max(spec_seq_max(a), spec_seq_max(b)),
    decreases b.len(),
{
    if b.len() == 0 {
        assert(a + b =~= a);
    } else {
        lemma_stats_concat(a, b.drop_last());
        assert((a + b).drop_last() =~= a + b.drop_last());
        assert((a + b).last() == b.last());
    }
}

impl Default for RunningStats {
    /// An empty tally: no values, no extremes.
    fn default() -> (r: Self)
        ensures
            r.wf(),
            r.spec_vals() =~= Seq::<int>::empty(),
    {
        RunningStats {
            min: None,
            max: None,
            count: 0,
            sum: 0,
            sumsq: 0,
            vals: Ghost(Seq::empty()),
        }
    }
}

impl RunningStats {
    /// Pushes and tallies a new value.
    pub fn push(&mut self, value: i64)
        requires
            old(self).wf(),
            -MAX_STAT_VALUE <= value <= MAX_STAT_VALUE,
            old(self).spec_vals().len() < MAX_STAT_COUNT,
        ensures
            final(self).wf(),
            final(self).spec_vals() == old(self).spec_vals().push(value as int),
    {
        proof {
            lemma_sums_bounded(self.vals@);
            let s2 = self.vals@.push(value as int);
            assert(s2.drop_last() =~= self.vals@);
            assert(s2.last() == value as int);
            assert(forall|i: int| 0 <= i < s2.len() - 1 ==> #[trigger] s2[i] == self.vals@[i]);
            let v = value as int;
            assert(0 <= v * v <= MAX_STAT_VALUE as int * MAX_STAT_VALUE as int)
                by (nonlinear_arith)
                requires
                    -MAX_STAT_VALUE <= v <= MAX_STAT_VALUE,
            ;
        }
        self.count = self.count + 1;
        self.sum = self.sum + value as i128;
        self.sumsq = self.sumsq + (value as i128) * (value as i128);

        match self.min {
            None => {
                self.min = Some(value);
            },
            Some(m) => {
                if value < m {
                    self.min = Some(value);
                }
            },
        }
        match self.max {
            None => {
                self.max = Some(value);
            },
            Some(m) => {
                if value > m {
                    self.max = Some(value);
                }
            },
        }
        proof {
            self.vals@ = self.vals@.push(value as int);
        }
    }

    /// Returns the number of values that were pushed.
    pub fn count(&self) -> (r: u64)
        requires
            self.wf(),
        ensures
            r == self.spec_vals().len(),
    {
        self.count
    }

    /// Returns the lowest value pushed, if any were.
    pub fn min(&self) -> (r: Option<i64>)
        requires
            self.wf(),
        ensures
            match r {
                Some(m) => spec_seq_min(self.spec_vals()) == Some(m as int),
                None => self.spec_vals().len() == 0,
            },
    {
        proof {
            if self.vals@.len() > 0 {
                assert(spec_seq_min(self.vals@) is Some) by {
                    lemma_min_some(self.vals@);
                }
            }
        }
        self.min
    }

    /// Returns the highest value pushed, if any were.
    pub fn max(&self) -> (r: Option<i64>)
        requires
            self.wf(),
        ensures
            match r {
                Some(m) => spec_seq_max(self.spec_vals()) == Some(m as int),
                None => self.spec_vals().len() == 0,
            },
    {
        proof {
            if self.vals@.len() > 0 {
                assert(spec_seq_max(self.vals@) is Some) by {
                    lemma_max_some(self.vals@);
                }
            }
        }
        self.max
    }

    /// Returns the exact sum of all values pushed.
    pub fn sum(&self) -> (r: i128)
        requires
            self.wf(),
        ensures
            r == spec_sum(self.spec_vals()),
    {
        self.sum
    }

    /// Returns the exact sum of the squares of all values pushed.
    pub fn sum_squares(&self) -> (r: i128)
        requires
            self.wf(),
        ensures
            r == spec_sumsq(self.spec_vals()),
    {
        self.sumsq
    }

    /// Merges another tally into this one: counts and sums add, extremes
    /// combine, exactly as if the other tally's values had been pushed here.
    pub fn add_assign(&mut self, rhs: &RunningStats)
        requires
            old(self).wf(),
            rhs.wf(),
            old(self).spec_vals().len() + rhs.spec_vals().len() <= MAX_STAT_COUNT,
        ensures
            final(self).wf(),
            final(self).spec_vals() == old(self).spec_vals() + rhs.spec_vals(),
    {
        proof {
            lemma_sums_bounded(self.vals@);
            lemma_sums_bounded(rhs.vals@);
            lemma_stats_concat(self.vals@, rhs.vals@);
            assert(spec_vals_bounded(self.vals@ + rhs.vals@)) by {
                assert(forall|i: int| 0 <= i < self.vals@.len() + rhs.vals@.len()
                    ==> #[trigger] (self.vals@ + rhs.vals@)[i] == (if i < self.vals@.len() {
                        self.vals@[i]
                    } else {
                        rhs.vals@[i - self.vals@.len()]
                    }));
            }
        }
        self.count = self.count + rhs.count;
        self.sum = self.sum + rhs.sum;
        self.sumsq = self.sumsq + rhs.sumsq;
        match rhs.min {
            None => {},
            Some(m) => {
                match self.min {
                    None => {
                        self.min = Some(m);
                    },
                    Some(x) => {
                        if m < x {
                            self.min = Some(m);
                        }
                    },
                }
            },
        }
        match rhs.max {
            None => {},
            Some(m) => {
                match self.max {
                    None => {
                        self.max = Some(m);
                    },
                    Some(x) => {
                        if m > x {
                            self.max = Some(m);
                        }
                    },
                }
            },
        }
        proof {
            self.vals@ = self.vals@ + rhs.vals@;
        }
    }

    /// Merges two tallies into a new one.
    pub fn add(self, rhs: RunningStats) -> (r: RunningStats)
        requires
            self.wf(),
            rhs.wf(),
            self.spec_vals().len() + rhs.spec_vals().len() <= MAX_STAT_COUNT,
        ensures
            r.wf(),
            r.spec_vals() == self.spec_vals() + rhs.spec_vals(),
    {
        let mut out = self;
        out.add_assign(&rhs);
        out
    }
}

proof fn lemma_min_some(s: Seq<int>)
    requires
        s.len() > 0,
    ensures
        spec_seq_min(s) is Some,
    decreases s.len(),
{
    if s.len() > 1 {
        lemma_min_some(s.drop_last());
    }
}

proof fn lemma_max_some(s: Seq<int>)
    requires
        s.len() > 0,
    ensures
        spec_seq_max(s) is Some,
    decreases s.len(),
{
    if s.len() > 1 {
        lemma_max_some(s.drop_last());
    }
}

/// Merging statistics is associative: however the partial tallies of a
/// simulation are grouped before merging, the merged values — and with them
/// the mean and variance they determine — are the same.
pub proof fn lemma_merge_assoc(a: Seq<int>, b: Seq<int>, c: Seq<int>)
    ensures
        (a + b) + c == a + (b + c),
        spec_sum((a + b) + c) == spec_sum(a) + spec_sum(b) + spec_sum(c),
        spec_sumsq((a + b) + c) == spec_sumsq(a) + spec_sumsq(b) + spec_sumsq(c),
{
    assert((a + b) + c =~= a + (b + c));
    lemma_stats_concat(a, b);
    lemma_stats_concat(a + b, c);
}

/// Merging statistics is order-independent: the counts, sums and extremes
/// of merging one tally into another do not depend on the order, so neither
/// do the mean and variance they determine.
pub proof fn lemma_merge_comm(a: Seq<int>, b: Seq<int>)
    ensures
        spec_sum(a + b) == spec_sum(b + a),
        spec_sumsq(a + b) == spec_sumsq(b + a),
        spec_seq_min(a + b) == spec_seq_min(b + a),
        spec_seq_max(a + b) == spec_seq_max(b + a),
        (a + b).len() == (b + a).len(),
{
    lemma_stats_concat(a, b);
    lemma_stats_concat(b, a);
}

} // verus!
