use vstd::prelude::*;
use crate::hand::{Hand, spec_busted};
use crate::hand_logic::HandOutcome;

verus! {

/// Per-hand categorical counters accumulated over a simulation. The counters
/// form a commutative monoid under field-wise addition, so partial tallies
/// from independent workers can be merged in any order.
#[derive(Debug, PartialEq, Eq, Structural, Copy, Clone)]
pub struct HandStats {
    /// Total number of hands a player played, this includes split hands,
    /// surrendered hands, and naturals.
    pub total: u64,
    /// Total number of hands the player won, which includes naturals, busted
    /// dealer, and won insured hands that lost their insurance.
    pub won: u64,
    /// Total number of hands not won and not pushed, which includes
    /// surrendered hands and lost insured hands that won their insurance.
    pub lost: u64,
    /// Total number of pushed hands, which includes an insured natural
    /// against a natural.
    pub push: u64,
    /// Total number of player hands that busted.
    pub busted: u64,
    /// Total number of naturals the player received.
    pub blackjack: u64,
    /// The total number of hands the player doubled down.
    pub doubled: u64,
    /// The total number of times the player split a hand, this is not the
    /// total number of hands got from splitting.
    pub split: u64,
    /// The number of hands the player insured.
    pub insured: u64,
    /// The number of hands the player surrendered.
    pub surrender: u64,
}

pub open spec fn spec_zero_stats() -> HandStats {
    HandStats {
        total: 0,
        won: 0,
        lost: 0,
        push: 0,
        busted: 0,
        blackjack: 0,
        doubled: 0,
        split: 0,
        insured: 0,
        surrender: 0,
    }
}

/// What one settled hand adds to the counters: `total` always rises by one,
/// exactly one of `won`/`push`/`lost` rises with the outcome, and the other
/// counters follow the hand's own flags.
pub open spec fn spec_update_stats(s: HandStats, hand: &Hand, outcome: HandOutcome) -> HandStats {
    HandStats {
        total: (s.total + 1) as u64,
        won: (s.won + if outcome == HandOutcome::Win { 1int } else { 0int }) as u64,
        push: (s.push + if outcome == HandOutcome::Push { 1int } else { 0int }) as u64,
        lost: (s.lost + if outcome == HandOutcome::Lose { 1int } else { 0int }) as u64,
        busted: (s.busted + if spec_busted(hand.spec_cards()) { 1int } else { 0int }) as u64,
        blackjack: (s.blackjack + if hand.spec_is_bj() { 1int } else { 0int }) as u64,
        doubled: (s.doubled + if hand.spec_doubled() { 1int } else { 0int }) as u64,
        split: (s.split + if hand.spec_split() { 1int } else { 0int }) as u64,
        insured: (s.insured + if hand.spec_insured() { 1int } else { 0int }) as u64,
        surrender: (s.surrender + if hand.spec_surrendered() { 1int } else { 0int }) as u64,
    }
}

/// Field-wise sum of two counter sets.
pub open spec fn spec_add_stats(a: HandStats, b: HandStats) -> HandStats {
    HandStats {
        total: (a.total + b.total) as u64,
        won: (a.won + b.won) as u64,
        lost: (a.lost + b.lost) as u64,
        push: (a.push + b.push) as u64,
        busted: (a.busted + b.busted) as u64,
        blackjack: (a.blackjack + b.blackjack) as u64,
        doubled: (a.doubled + b.doubled) as u64,
        split: (a.split + b.split) as u64,
        insured: (a.insured + b.insured) as u64,
        surrender: (a.surrender + b.surrender) as u64,
    }
}

/// All counters fit with room to add many more; `total` bounds every other
/// counter, so bounding it keeps the sums below overflow.
pub open spec fn spec_stats_bounded(s: HandStats) -> bool {
    &&& s.total <= 0x4000_0000_0000_0000
    &&& s.won <= s.total
    &&& s.lost <= s.total
    &&& s.push <= s.total
    &&& s.busted <= s.total
    &&& s.blackjack <= s.total
    &&& s.doubled <= s.total
    &&& s.split <= s.total
    &&& s.insured <= s.total
    &&& s.surrender <= s.total
}

impl Default for HandStats {
    /// Creates a default [`HandStats`] with all values set to zero.
    fn default() -> (r: Self)
        ensures
            r == spec_zero_stats(),
    {
        HandStats {
            total: 0,
            won: 0,
            lost: 0,
            push: 0,
            busted: 0,
            blackjack: 0,
            doubled: 0,
            split: 0,
            insured: 0,
            surrender: 0,
        }
    }
}

impl HandStats {
    /// Convenience constructor from a tuple holding, in order: total, won,
    /// lost, push, busted, blackjack, doubled, split, insured, surrender.
    pub fn from_tuple(v: (u64, u64, u64, u64, u64, u64, u64, u64, u64, u64)) -> (r: Self)
        ensures
            r == (HandStats {
                total: v.0,
                won: v.1,
                lost: v.2,
                push: v.3,
                busted: v.4,
                blackjack: v.5,
                doubled: v.6,
                split: v.7,
                insured: v.8,
                surrender: v.9,
            }),
    {
        HandStats {
            total: v.0,
            won: v.1,
            lost: v.2,
            push: v.3,
            busted: v.4,
            blackjack: v.5,
            doubled: v.6,
            split: v.7,
            insured: v.8,
            surrender: v.9,
        }
    }

    /// Updates the current stats based on a player hand and its game outcome.
    ///
    /// `total` is always incremented; the outcome will increment `won`,
    /// `push`, or `lost`; other members are independently updated from the
    /// properties of the given hand.
    pub fn update(&mut self, hand: &Hand, outcome: HandOutcome)
        requires
            hand.wf(),
            spec_stats_bounded(*old(self)),
            old(self).total < 0x4000_0000_0000_0000,
        ensures
            *final(self) == spec_update_stats(*old(self), hand, outcome),
            spec_stats_bounded(*final(self)),
    {
        self.total = self.total + 1;

        match outcome {
            HandOutcome::Win => {
                self.won = self.won + 1;
            },
            HandOutcome::Push => {
                self.push = self.push + 1;
            },
            HandOutcome::Lose => {
                self.lost = self.lost + 1;
            },
        }

        if hand.is_busted() {
            self.busted = self.busted + 1;
        }
        if hand.is_bj() {
            self.blackjack = self.blackjack + 1;
        }
        if hand.is_doubled() {
            self.doubled = self.doubled + 1;
        }
        if hand.is_split() {
            self.split = self.split + 1;
        }
        if hand.is_insured() {
            self.insured = self.insured + 1;
        }
        if hand.is_surrendered() {
            self.surrender = self.surrender + 1;
        }
    }

    /// Sums two sets of counters, all fields added together.
    pub fn add(self, rhs: Self) -> (r: Self)
        requires
            spec_stats_bounded(self),
            spec_stats_bounded(rhs),
            self.total + rhs.total <= 0x4000_0000_0000_0000,
        ensures
            r == spec_add_stats(self, rhs),
            spec_stats_bounded(r),
    {
        HandStats {
            total: self.total + rhs.total,
            won: self.won + rhs.won,
            lost: self.lost + rhs.lost,
            push: self.push + rhs.push,
            busted: self.busted + rhs.busted,
            blackjack: self.blackjack + rhs.blackjack,
            doubled: self.doubled + rhs.doubled,
            split: self.split + rhs.split,
            insured: self.insured + rhs.insured,
            surrender: self.surrender + rhs.surrender,
        }
    }

    /// Adds another set of counters into this one in place.
    pub fn add_assign(&mut self, rhs: Self)
        requires
            spec_stats_bounded(*old(self)),
            spec_stats_bounded(rhs),
            old(self).total + rhs.total <= 0x4000_0000_0000_0000,
        ensures
            *final(self) == spec_add_stats(*old(self), rhs),
            spec_stats_bounded(*final(self)),
    {
        self.total = self.total + rhs.total;
        self.won = self.won + rhs.won;
        self.lost = self.lost + rhs.lost;
        self.push = self.push + rhs.push;
        self.busted = self.busted + rhs.busted;
        self.blackjack = self.blackjack + rhs.blackjack;
        self.doubled = self.doubled + rhs.doubled;
        self.split = self.split + rhs.split;
        self.insured = self.insured + rhs.insured;
        self.surrender = self.surrender + rhs.surrender;
    }
}

/// Merging hand statistics is associative: grouping never changes the sums.
pub proof fn lemma_stats_add_assoc(a: HandStats, b: HandStats, c: HandStats)
    requires
        spec_stats_bounded(a),
        spec_stats_bounded(b),
        spec_stats_bounded(c),
        a.total + b.total + c.total <= 0x4000_0000_0000_0000,
    ensures
        spec_add_stats(spec_add_stats(a, b), c) == spec_add_stats(a, spec_add_stats(b, c)),
{
}

/// Merging hand statistics is commutative: the order of the parts never
/// changes the sums.
pub proof fn lemma_stats_add_comm(a: HandStats, b: HandStats)
    ensures
        spec_add_stats(a, b) == spec_add_stats(b, a),
{
}

} // verus!
