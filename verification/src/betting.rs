use vstd::prelude::*;

verus! {

/// Largest stake a betting strategy may place, in whole currency units;
/// keeps every settlement sum far from overflow.
pub const MAX_BET: i64 = 1_000_000_000_000;

/// A bet-sizing policy: a pure function from the rounded true count to a
/// stake. Each implementation fixes its stake through `spec_bet`.
pub trait BettingStrategy: Sized {
    spec fn wf(&self) -> bool;

    spec fn spec_bet(&self, true_count: int) -> int;

    /// Every stake is a whole non-negative amount within [`MAX_BET`], for
    /// any rounded true count a shoe can report.
    proof fn lemma_bet_bounded(&self, true_count: int)
        requires
            self.wf(),
            -200_000_000 <= true_count <= 200_000_000,
        ensures
            0 <= self.spec_bet(true_count) <= MAX_BET,
    ;

    /// Returns the stake to place for the given rounded true count.
    fn place_bet(&self, true_count: i64) -> (r: i64)
        requires
            self.wf(),
            -200_000_000 <= true_count <= 200_000_000,
        ensures
            r == self.spec_bet(true_count as int),
    ;
}

/// Always stakes the same amount, whatever the count.
#[derive(Clone)]
pub struct FixedBet(pub i64);

impl BettingStrategy for FixedBet {
    open spec fn wf(&self) -> bool {
        0 <= self.0 <= MAX_BET
    }

    open spec fn spec_bet(&self, true_count: int) -> int {
        self.0 as int
    }

    proof fn lemma_bet_bounded(&self, true_count: int) {
    }

    fn place_bet(&self, true_count: i64) -> (r: i64) {
        self.0
    }
}

/// Hi-Lo bet spreading: a base stake raised by a fixed amount per point of
/// true count, with optional floors, caps and a walk-away threshold.
#[derive(Clone)]
pub struct HiloBetting {
    base: i64,
    per_tc: i64,
    neg_null_bet: Option<i64>,
    max_tc: Option<i32>,
    wongout_under: Option<i32>,
}

/// The stake Hi-Lo betting places at a given rounded true count: nothing at
/// or under the walk-away threshold, the flat fallback stake at or under a
/// count of zero when one is set, otherwise the base stake plus the spread
/// per point of (possibly capped) true count, floored at zero.
pub open spec fn spec_hilo_bet(
    base: int,
    per_tc: int,
    neg_null_bet: Option<i64>,
    max_tc: Option<i32>,
    wongout_under: Option<i32>,
    tc: int,
) -> int {
    let wonged = match wongout_under {
        Some(w) => tc <= w,
        None => false,
    };
    let flat = match neg_null_bet {
        Some(n) => if tc <= 0 { Some(n as int) } else { None },
        None => None,
    };
    if wonged {
        0
    } else if flat is Some {
        flat->0
    } else {
        let capped = match max_tc {
            Some(m) => if m < tc { m as int } else { tc },
            None => tc,
        };
        let bet = base + capped * per_tc;
        if bet >= 0 {
            bet
        } else {
            0
        }
    }
}

impl HiloBetting {
    pub fn new(
        base: i64,
        per_tc: i64,
        neg_null_bet: Option<i64>,
        max_tc: Option<i32>,
        wongout_under: Option<i32>,
    ) -> (r: HiloBetting)
        requires
            0 <= base <= 1_000_000_000,
            0 <= per_tc <= 1000,
            neg_null_bet matches Some(n) ==> 0 <= n <= MAX_BET,
        ensures
            r.wf(),
            forall|tc: int| #[trigger] r.spec_bet(tc)
                == spec_hilo_bet(base as int, per_tc as int, neg_null_bet, max_tc, wongout_under, tc),
    {
        HiloBetting { base, per_tc, neg_null_bet, max_tc, wongout_under }
    }
}

impl BettingStrategy for HiloBetting {
    closed spec fn wf(&self) -> bool {
        &&& 0 <= self.base <= 1_000_000_000
        &&& 0 <= self.per_tc <= 1000
        &&& self.neg_null_bet matches Some(n) ==> 0 <= n <= MAX_BET
    }

    closed spec fn spec_bet(&self, true_count: int) -> int {
        spec_hilo_bet(
            self.base as int,
            self.per_tc as int,
            self.neg_null_bet,
            self.max_tc,
            self.wongout_under,
            true_count,
        )
    }

    proof fn lemma_bet_bounded(&self, true_count: int) {
        let p = self.per_tc as int;
        let capped: int = match self.max_tc {
            Some(m) => if (m as int) < true_count {
                m as int
            } else {
                true_count
            },
            None => true_count,
        };
        assert(-3_000_000_000_000 <= capped * p <= 300_000_000_000) by (nonlinear_arith)
            requires
                -2_147_483_648 <= capped <= 200_000_000,
                0 <= p <= 1000,
        ;
    }

    fn place_bet(&self, true_count: i64) -> (r: i64) {
        let mut tc: i64 = true_count;

        if let Some(w) = self.wongout_under {
            if tc <= w as i64 {
                return 0;
            }
        }
        if let Some(n) = self.neg_null_bet {
            if tc <= 0 {
                return n;
            }
        }

        if let Some(m) = self.max_tc {
            if (m as i64) < tc {
                tc = m as i64;
            }
        }

        proof {
            let p = self.per_tc as int;
            let t = tc as int;
            assert(-3_000_000_000_000 <= t * p <= 300_000_000_000) by (nonlinear_arith)
                requires
                    -2_147_483_648 <= t <= 200_000_000,
                    0 <= p <= 1000,
            ;
        }
        let bet: i64 = self.base + tc * self.per_tc;
        if bet >= 0 {
            bet
        } else {
            0
        }
    }
}

} // verus!
