//! The standard multi-deck shoe with Hi-Lo count tracking.
//!
//! The shoe holds its remaining cards in draw order (next card last), keeps
//! the Hi-Lo running count of everything removed so far, and remembers when
//! the penetration threshold has been crossed. Randomness comes from one
//! small generator owned by the shoe; every use of it sits behind a trusted
//! wrapper whose contract states only what holds of every outcome.

use vstd::prelude::*;
use crate::card::Card;
use crate::hand::all_valid;
use crate::shoe::{CardShoe, ShoeError, spec_find_card, lemma_find_card_props};
use crate::strategy::{TrueCount, spec_tc_wf};

verus! {

pub open spec fn spec_is_low(c: Card) -> bool {
    2 <= c.0 <= 6
}

pub open spec fn spec_is_high(c: Card) -> bool {
    c.0 == 1 || c.0 == 10
}

/// Number of low cards (2 to 6) in the sequence.
pub open spec fn spec_count_low(s: Seq<Card>) -> int
    decreases s.len(),
{
    if s.len() == 0 {
        0
    } else {
        spec_count_low(s.drop_last()) + if spec_is_low(s.last()) { 1int } else { 0int }
    }
}

/// Number of high cards (aces and tens) in the sequence.
pub open spec fn spec_count_high(s: Seq<Card>) -> int
    decreases s.len(),
{
    if s.len() == 0 {
        0
    } else {
        spec_count_high(s.drop_last()) + if spec_is_high(s.last()) { 1int } else { 0int }
    }
}

/// Hi-Lo sum of the sequence: +1 per low card, -1 per high card.
pub open spec fn spec_hilo_sum(s: Seq<Card>) -> int
    decreases s.len(),
{
    if s.len() == 0 {
        0
    } else {
        spec_hilo_sum(s.drop_last()) + s.last().spec_hilo()
    }
}

pub proof fn lemma_counts_push(s: Seq<Card>, c: Card)
    ensures
        spec_count_low(s.push(c)) == spec_count_low(s) + if spec_is_low(c) { 1int } else { 0int },
        spec_count_high(s.push(c)) == spec_count_high(s)
            + if spec_is_high(c) { 1int } else { 0int },
        spec_hilo_sum(s.push(c)) == spec_hilo_sum(s) + c.spec_hilo(),
{
    assert(s.push(c).drop_last() =~= s);
    assert(s.push(c).last() == c);
}

pub proof fn lemma_counts_concat(a: Seq<Card>, b: Seq<Card>)
    ensures
        spec_count_low(a + b) == spec_count_low(a) + spec_count_low(b),
        spec_count_high(a + b) == spec_count_high(a) + spec_count_high(b),
        spec_hilo_sum(a + b) == spec_hilo_sum(a) + spec_hilo_sum(b),
    decreases b.len(),
{
    if b.len() == 0 {
        assert(a + b =~= a);
    } else {
        lemma_counts_concat(a, b.drop_last());
        assert((a + b).drop_last() =~= a + b.drop_last());
        assert((a + b).last() == b.last());
    }
}

/// Removing one card takes exactly its contribution out of each count.
pub proof fn lemma_counts_remove(s: Seq<Card>, i: int)
    requires
        0 <= i < s.len(),
    ensures
        spec_count_low(s.remove(i)) == spec_count_low(s)
            - if spec_is_low(s[i]) { 1int } else { 0int },
        spec_count_high(s.remove(i)) == spec_count_high(s)
            - if spec_is_high(s[i]) { 1int } else { 0int },
        spec_hilo_sum(s.remove(i)) == spec_hilo_sum(s) - s[i].spec_hilo(),
{
    let left = s.subrange(0, i);
    let right = s.subrange(i + 1, s.len() as int);
    assert(s.remove(i) =~= left + right);
    assert(s =~= left.push(s[i]) + right);
    lemma_counts_concat(left, right);
    lemma_counts_concat(left.push(s[i]), right);
    lemma_counts_push(left, s[i]);
}

/// The counts are non-negative, bounded by the length, and the Hi-Lo sum is
/// the difference of the low and high counts.
pub proof fn lemma_counts_bounds(s: Seq<Card>)
    ensures
        0 <= spec_count_low(s) <= s.len(),
        0 <= spec_count_high(s) <= s.len(),
        spec_count_low(s) + spec_count_high(s) <= s.len(),
        spec_hilo_sum(s) == spec_count_low(s) - spec_count_high(s),
    decreases s.len(),
{
    if s.len() > 0 {
        lemma_counts_bounds(s.drop_last());
    }
}

/// A sequence with no low cards in it counts zero lows.
pub proof fn lemma_count_low_zero(s: Seq<Card>)
    requires
        forall|i: int| 0 <= i < s.len() ==> !spec_is_low(#[trigger] s[i]),
    ensures
        spec_count_low(s) == 0,
    decreases s.len(),
{
    if s.len() > 0 {
        assert(forall|i: int|
            0 <= i < s.len() - 1 ==> #[trigger] s.drop_last()[i] == s[i]);
        assert(!spec_is_low(s[s.len() - 1]));
        lemma_count_low_zero(s.drop_last());
    }
}

/// A sequence with no high cards in it counts zero highs.
pub proof fn lemma_count_high_zero(s: Seq<Card>)
    requires
        forall|i: int| 0 <= i < s.len() ==> !spec_is_high(#[trigger] s[i]),
    ensures
        spec_count_high(s) == 0,
    decreases s.len(),
{
    if s.len() > 0 {
        assert(forall|i: int|
            0 <= i < s.len() - 1 ==> #[trigger] s.drop_last()[i] == s[i]);
        assert(!spec_is_high(s[s.len() - 1]));
        lemma_count_high_zero(s.drop_last());
    }
}

/// Number of cards of the given rank in the sequence.
pub open spec fn spec_count_rank(s: Seq<Card>, rank: int) -> int
    decreases s.len(),
{
    if s.len() == 0 {
        0
    } else {
        spec_count_rank(s.drop_last(), rank) + if s.last().0 == rank { 1int } else { 0int }
    }
}

/// A full shoe of `decks` decks: four cards of each rank 1 to 9 and
/// sixteen ten-valued cards per deck.
pub open spec fn spec_full_composition(s: Seq<Card>, decks: int) -> bool {
    &&& forall|r: int| 1 <= r <= 9 ==> #[trigger] spec_count_rank(s, r) == 4 * decks
    &&& spec_count_rank(s, 10) == 16 * decks
}

pub proof fn lemma_count_rank_push(s: Seq<Card>, c: Card, rank: int)
    ensures
        spec_count_rank(s.push(c), rank) == spec_count_rank(s, rank)
            + if c.0 == rank { 1int } else { 0int },
{
    assert(s.push(c).drop_last() =~= s);
    assert(s.push(c).last() == c);
}

pub proof fn lemma_count_rank_concat(a: Seq<Card>, b: Seq<Card>, rank: int)
    ensures
        spec_count_rank(a + b, rank) == spec_count_rank(a, rank) + spec_count_rank(b, rank),
    decreases b.len(),
{
    if b.len() == 0 {
        assert(a + b =~= a);
    } else {
        lemma_count_rank_concat(a, b.drop_last(), rank);
        assert((a + b).drop_last() =~= a + b.drop_last());
        assert((a + b).last() == b.last());
    }
}

pub proof fn lemma_count_rank_remove(s: Seq<Card>, i: int, rank: int)
    requires
        0 <= i < s.len(),
    ensures
        spec_count_rank(s.remove(i), rank) == spec_count_rank(s, rank)
            - if s[i].0 == rank { 1int } else { 0int },
{
    let left = s.subrange(0, i);
    let right = s.subrange(i + 1, s.len() as int);
    assert(s.remove(i) =~= left + right);
    assert(s =~= left.push(s[i]) + right);
    lemma_count_rank_concat(left, right, rank);
    lemma_count_rank_concat(left.push(s[i]), right, rank);
    lemma_count_rank_push(left, s[i], rank);
}

/// A sequence holding no card of the given rank counts zero of it.
pub proof fn lemma_count_rank_zero(s: Seq<Card>, rank: int)
    requires
        forall|i: int| 0 <= i < s.len() ==> (#[trigger] s[i]).0 != rank,
    ensures
        spec_count_rank(s, rank) == 0,
    decreases s.len(),
{
    if s.len() > 0 {
        assert(forall|i: int|
            0 <= i < s.len() - 1 ==> #[trigger] s.drop_last()[i] == s[i]);
        assert(s[s.len() - 1].0 != rank);
        lemma_count_rank_zero(s.drop_last(), rank);
    }
}

/// A rank counted at least once is found by a scan.
pub proof fn lemma_count_rank_found(s: Seq<Card>, rank: u8)
    requires
        spec_count_rank(s, rank as int) > 0,
    ensures
        spec_find_card(s, Card(rank), 0) is Some,
{
    lemma_find_card_props(s, Card(rank), 0);
    if spec_find_card(s, Card(rank), 0) is None {
        assert(forall|i: int| 0 <= i < s.len() ==> (#[trigger] s[i]).0 != rank) by {
            assert(forall|i: int| 0 <= i < s.len()
                ==> #[trigger] s[i] != Card(rank) ==> s[i].0 != rank);
        }
        lemma_count_rank_zero(s, rank as int);
    }
}

#[verifier::external_type_specification]
#[verifier::external_body]
pub struct ExSmallRng(rand::rngs::SmallRng);

/// Relies on rand's `SeedableRng::from_entropy` to seed a fresh generator;
/// nothing is promised of what it will produce.
#[verifier::external_body]
fn new_rng() -> rand::rngs::SmallRng {
    rand::SeedableRng::from_entropy()
}

/// Relies on rand's `Rng::gen_range`: yields some value inside the given
/// half-open range, whatever the generator's state.
#[verifier::external_body]
fn rng_below(rng: &mut rand::rngs::SmallRng, lo: u8, hi: u8) -> (r: u8)
    requires
        lo < hi,
    ensures
        lo <= r < hi,
{
    rand::Rng::gen_range(rng, lo..hi)
}

/// Relies on rand's `SliceRandom::shuffle`: permutes the cards in place,
/// whatever order comes out.
#[verifier::external_body]
fn shuffle_cards(rng: &mut rand::rngs::SmallRng, cards: &mut Vec<Card>)
    ensures
        final(cards)@.to_multiset() == old(cards)@.to_multiset(),
{
    rand::seq::SliceRandom::shuffle(cards.as_mut_slice(), rng)
}

/// Sequences holding the same cards in any order have the same length, the
/// same family counts and the same Hi-Lo sum, and validity carries over.
pub proof fn lemma_counts_permutation(a: Seq<Card>, b: Seq<Card>)
    requires
        a.to_multiset() == b.to_multiset(),
    ensures
        a.len() == b.len(),
        spec_count_low(a) == spec_count_low(b),
        spec_count_high(a) == spec_count_high(b),
        spec_hilo_sum(a) == spec_hilo_sum(b),
        forall|r: int| #[trigger] spec_count_rank(a, r) == spec_count_rank(b, r),
        all_valid(a) ==> all_valid(b),
    decreases a.len(),
{
    broadcast use vstd::seq_lib::group_to_multiset_ensures;

    if all_valid(a) {
        assert forall|i: int| 0 <= i < b.len() implies (#[trigger] b[i]).valid() by {
            assert(b.contains(b[i]));
            assert(a.to_multiset().count(b[i]) > 0);
            assert(a.contains(b[i]));
            let k = choose|k: int| 0 <= k < a.len() && a[k] == b[i];
            assert(a[k].valid());
        }
    }
    assert(a.to_multiset().len() == a.len());
    assert(b.to_multiset().len() == b.len());
    if a.len() == 0 {
        assert(b.len() == 0);
    } else {
        let x = a.last();
        assert(a.contains(x)) by {
            assert(a[a.len() - 1] == x);
        }
        assert(b.to_multiset().count(x) > 0);
        assert(b.contains(x));
        let j = choose|j: int| 0 <= j < b.len() && b[j] == x;
        let a1 = a.drop_last();
        let b1 = b.remove(j);
        assert(a.remove(a.len() - 1) =~= a1);
        assert(a1.to_multiset() =~= a.to_multiset().remove(x));
        assert(b1.to_multiset() =~= b.to_multiset().remove(x));
        lemma_counts_permutation(a1, b1);
        lemma_counts_remove(b, j);
        assert forall|r: int| #[trigger] spec_count_rank(a, r) == spec_count_rank(b, r) by {
            lemma_count_rank_remove(b, j, r);
            assert(a1.push(x) =~= a);
            lemma_count_rank_push(a1, x, r);
        }
    }
}

/// `520 * rc >= t * cards`: the true count `52 rc / cards` is at least
/// `t` tenths.
pub open spec fn spec_tc_ge10(rc: int, cards: int, t_tenths: int) -> bool {
    520 * rc >= t_tenths * cards
}

/// `520 * rc <= t * cards`: the true count is at most `t` tenths.
pub open spec fn spec_tc_le10(rc: int, cards: int, t_tenths: int) -> bool {
    520 * rc <= t_tenths * cards
}

pub open spec fn spec_abs(x: int) -> int {
    if x < 0 {
        -x
    } else {
        x
    }
}

/// The count `52 rc_a / cards_a` is at least as close to `t` tenths as
/// `52 rc_b / cards_b` is, compared by cross-multiplying the two exact
/// distances.
pub open spec fn spec_dist_le(rc_a: int, cards_a: int, rc_b: int, cards_b: int, t_tenths: int) -> bool {
    spec_abs(t_tenths * cards_a - 520 * rc_a) * cards_b
        <= spec_abs(t_tenths * cards_b - 520 * rc_b) * cards_a
}

/// The standard shuffled multi-deck shoe with Hi-Lo count tracking.
pub struct StandardShoe {
    cards: Vec<Card>,
    decks: u32,
    min_cards: usize,
    needs_reshuffle: bool,
    running_count: i32,
    rng: rand::rngs::SmallRng,
}

impl StandardShoe {
    pub closed spec fn spec_cards(&self) -> Seq<Card> {
        self.cards@
    }

    pub closed spec fn spec_decks(&self) -> int {
        self.decks as int
    }

    pub closed spec fn spec_min_cards(&self) -> int {
        self.min_cards as int
    }

    pub closed spec fn spec_rc(&self) -> int {
        self.running_count as int
    }

    /// The running count always equals the Hi-Lo weight of everything
    /// removed, which for a shoe built full is minus the weight of what is
    /// left.
    pub closed spec fn inv(&self) -> bool {
        &&& 1 <= self.decks <= 1000
        &&& self.cards@.len() <= 52 * self.decks
        &&& self.min_cards <= 52 * self.decks
        &&& all_valid(self.cards@)
        &&& self.running_count as int == -spec_hilo_sum(self.cards@)
    }

    /// Creates a full, unshuffled shoe: `pen_cards` is the number of cards
    /// to deal before a reshuffle is called for.
    pub fn non_shuffled(decks: u32, pen_cards: u32) -> (r: StandardShoe)
        requires
            1 <= decks <= 1000,
            pen_cards <= 52 * decks,
        ensures
            r.wf(),
            r.spec_decks() == decks,
            r.spec_min_cards() == 52 * decks - pen_cards,
            r.spec_cards().len() == 52 * decks,
            spec_count_low(r.spec_cards()) == 20 * decks,
            spec_count_high(r.spec_cards()) == 20 * decks,
            spec_full_composition(r.spec_cards(), decks as int),
            r.spec_rc() == 0,
            !r.spec_needs_reshuffle(),
    {
        let mut cards: Vec<Card> = Vec::new();
        fill_cards(&mut cards, decks);
        StandardShoe {
            cards,
            decks,
            min_cards: (decks as usize * 52) - pen_cards as usize,
            needs_reshuffle: false,
            running_count: 0,
            rng: new_rng(),
        }
    }

    /// Creates a full, shuffled shoe.
    pub fn shuffled(decks: u32, pen_cards: u32) -> (r: StandardShoe)
        requires
            1 <= decks <= 1000,
            pen_cards <= 52 * decks,
        ensures
            r.wf(),
            r.spec_decks() == decks,
            r.spec_cards().len() == 52 * decks,
            spec_count_low(r.spec_cards()) == 20 * decks,
            spec_count_high(r.spec_cards()) == 20 * decks,
            spec_full_composition(r.spec_cards(), decks as int),
            r.spec_rc() == 0,
            !r.spec_needs_reshuffle(),
    {
        let mut shoe = Self::non_shuffled(decks, pen_cards);
        shoe.reshuffle();
        shoe
    }

    /// Accounts for one removed card: updates the running count and flags
    /// the shoe for a reshuffle once the penetration threshold is crossed.
    fn card_removed(&mut self, card: Card)
        requires
            card.valid(),
            -1_000_000 <= old(self).spec_rc() <= 1_000_000,
        ensures
            final(self).spec_rc() == old(self).spec_rc() + card.spec_hilo(),
            final(self).spec_needs_reshuffle() == (old(self).spec_needs_reshuffle()
                || old(self).spec_cards().len() <= old(self).spec_min_cards()),
            final(self).spec_cards() == old(self).spec_cards(),
            final(self).spec_decks() == old(self).spec_decks(),
            final(self).spec_min_cards() == old(self).spec_min_cards(),
    {
        let w = card.hilo();
        self.running_count = self.running_count + w;
        if self.cards.len() <= self.min_cards {
            self.needs_reshuffle = true;
        }
    }

    /// Removes one low card (2 to 6), the rank picked at random and bumped
    /// to the next available one; with no low card left the target count is
    /// unreachable.
    fn remove_low_card(&mut self) -> (r: Result<Card, ShoeError>)
        requires
            old(self).wf(),
        ensures
            final(self).wf(),
            final(self).spec_decks() == old(self).spec_decks(),
            final(self).spec_min_cards() == old(self).spec_min_cards(),
            match r {
                Ok(c) => {
                    &&& spec_is_low(c)
                    &&& spec_count_low(final(self).spec_cards())
                        == spec_count_low(old(self).spec_cards()) - 1
                    &&& spec_count_high(final(self).spec_cards())
                        == spec_count_high(old(self).spec_cards())
                    &&& final(self).spec_cards().len() == old(self).spec_cards().len() - 1
                    &&& final(self).spec_rc() == old(self).spec_rc() + 1
                },
                Err(_) => {
                    &&& spec_count_low(old(self).spec_cards()) == 0
                    &&& final(self).spec_cards() == old(self).spec_cards()
                    &&& final(self).spec_rc() == old(self).spec_rc()
                },
            },
    {
        let start = rng_below(&mut self.rng, 2, 7);
        let mut k: u8 = 0;
        while k < 5
            invariant
                old(self).wf(),
                k <= 5,
                2 <= start <= 6,
                self.spec_cards() == old(self).spec_cards(),
                self.spec_rc() == old(self).spec_rc(),
                self.spec_decks() == old(self).spec_decks(),
                self.spec_min_cards() == old(self).spec_min_cards(),
                self.spec_needs_reshuffle() == old(self).spec_needs_reshuffle(),
                self.wf(),
                forall|t: int| 2 <= t <= 6
                    && (t - start >= 0 && t - start < k || t - start + 5 < k)
                    ==> (#[trigger] spec_find_card(self.spec_cards(), Card(t as u8), 0)) is None,
            decreases 5 - k,
        {
            let mut rank: u8 = start + k;
            if rank > 6 {
                rank = rank - 5;
            }
            match self.pick_rank(Card(rank)) {
                Some(c) => {
                    return Ok(c);
                },
                None => {},
            }
            k = k + 1;
        }
        proof {
            assert forall|i: int| 0 <= i < self.spec_cards().len()
                implies !spec_is_low(#[trigger] self.spec_cards()[i]) by {
                let c = self.spec_cards()[i];
                if spec_is_low(c) {
                    let t = c.0 as int;
                    assert(spec_find_card(self.spec_cards(), Card(t as u8), 0) is None);
                    lemma_find_card_props(self.spec_cards(), Card(t as u8), 0);
                    assert(c == Card(t as u8));
                }
            }
            lemma_count_low_zero(self.spec_cards());
        }
        Err(ShoeError::TargetUnreachable)
    }

    /// Removes one high card (an ace or a ten, tried in random order); with
    /// none left the target count is unreachable.
    fn remove_high_card(&mut self) -> (r: Result<Card, ShoeError>)
        requires
            old(self).wf(),
        ensures
            final(self).wf(),
            final(self).spec_decks() == old(self).spec_decks(),
            final(self).spec_min_cards() == old(self).spec_min_cards(),
            match r {
                Ok(c) => {
                    &&& spec_is_high(c)
                    &&& spec_count_high(final(self).spec_cards())
                        == spec_count_high(old(self).spec_cards()) - 1
                    &&& spec_count_low(final(self).spec_cards())
                        == spec_count_low(old(self).spec_cards())
                    &&& final(self).spec_cards().len() == old(self).spec_cards().len() - 1
                    &&& final(self).spec_rc() == old(self).spec_rc() - 1
                },
                Err(_) => {
                    &&& spec_count_high(old(self).spec_cards()) == 0
                    &&& final(self).spec_cards() == old(self).spec_cards()
                    &&& final(self).spec_rc() == old(self).spec_rc()
                },
            },
    {
        let coin = rng_below(&mut self.rng, 0, 4);
        let (first, second): (Card, Card) = if coin == 0 {
            (Card(1), Card(10))
        } else {
            (Card(10), Card(1))
        };
        match self.pick_rank(first) {
            Some(c) => {
                return Ok(c);
            },
            None => {},
        }
        match self.pick_rank(second) {
            Some(c) => {
                return Ok(c);
            },
            None => {},
        }
        proof {
            lemma_find_card_props(self.spec_cards(), Card(1), 0);
            lemma_find_card_props(self.spec_cards(), Card(10), 0);
            assert forall|i: int| 0 <= i < self.spec_cards().len()
                implies !spec_is_high(#[trigger] self.spec_cards()[i]) by {
                let c = self.spec_cards()[i];
                if c.0 == 1 {
                    assert(c == Card(1u8));
                }
                if c.0 == 10 {
                    assert(c == Card(10u8));
                }
            }
            lemma_count_high_zero(self.spec_cards());
        }
        Err(ShoeError::TargetUnreachable)
    }

    /// Removes and returns the first stored card of the given rank, keeping
    /// the running count in step.
    fn pick_rank(&mut self, card: Card) -> (r: Option<Card>)
        requires
            old(self).wf(),
            card.valid(),
        ensures
            final(self).wf(),
            final(self).spec_decks() == old(self).spec_decks(),
            final(self).spec_min_cards() == old(self).spec_min_cards(),
            match r {
                Some(c) => {
                    &&& c == card
                    &&& spec_find_card(old(self).spec_cards(), card, 0) matches Some(i)
                        && final(self).spec_cards() == old(self).spec_cards().remove(i)
                    &&& final(self).spec_cards().len() == old(self).spec_cards().len() - 1
                    &&& spec_count_low(final(self).spec_cards())
                        == spec_count_low(old(self).spec_cards())
                        - if spec_is_low(card) { 1int } else { 0int }
                    &&& spec_count_high(final(self).spec_cards())
                        == spec_count_high(old(self).spec_cards())
                        - if spec_is_high(card) { 1int } else { 0int }
                    &&& final(self).spec_rc() == old(self).spec_rc() + card.spec_hilo()
                    &&& final(self).spec_needs_reshuffle()
                        == (old(self).spec_needs_reshuffle()
                        || old(self).spec_cards().len() - 1 <= old(self).spec_min_cards())
                },
                None => {
                    &&& spec_find_card(old(self).spec_cards(), card, 0) is None
                    &&& *final(self) == *old(self)
                },
            },
    {
        let n = self.cards.len();
        let mut i: usize = 0;
        while i < n && self.cards[i] != card
            invariant
                i <= n == self.cards@.len(),
                *self == *old(self),
                spec_find_card(self.cards@, card, 0)
                    == spec_find_card(self.cards@, card, i as int),
            decreases n - i,
        {
            i = i + 1;
        }
        if i < n {
            proof {
                lemma_counts_bounds(self.cards@);
                lemma_counts_remove(self.cards@, i as int);
                assert(forall|j: int| 0 <= j < self.cards@.len() - 1
                    ==> #[trigger] self.cards@.remove(i as int)[j] == (if j < i {
                        self.cards@[j]
                    } else {
                        self.cards@[j + 1]
                    }));
            }
            let c = self.cards.remove(i);
            self.card_removed(c);
            Some(c)
        } else {
            None
        }
    }
}

/// Whether the true count of `rc` over `cards` is still below `t` tenths.
fn tc_below(rc: i32, cards: usize, t: i32) -> (r: bool)
    requires
        -2_000_000 <= rc <= 2_000_000,
        cards <= 60_000,
        -100_000 <= t <= 100_000,
    ensures
        r == !spec_tc_ge10(rc as int, cards as int, t as int),
{
    proof {
        let ti = t as int;
        let ci = cards as int;
        assert(-6_000_000_000 <= ti * ci <= 6_000_000_000) by (nonlinear_arith)
            requires
                -100_000 <= ti <= 100_000,
                0 <= ci <= 60_000,
        ;
    }
    520 * (rc as i64) < (t as i64) * (cards as i64)
}

/// Whether the true count of `rc` over `cards` is still above `t` tenths.
fn tc_above(rc: i32, cards: usize, t: i32) -> (r: bool)
    requires
        -2_000_000 <= rc <= 2_000_000,
        cards <= 60_000,
        -100_000 <= t <= 100_000,
    ensures
        r == !spec_tc_le10(rc as int, cards as int, t as int),
{
    proof {
        let ti = t as int;
        let ci = cards as int;
        assert(-6_000_000_000 <= ti * ci <= 6_000_000_000) by (nonlinear_arith)
            requires
                -100_000 <= ti <= 100_000,
                0 <= ci <= 60_000,
        ;
    }
    520 * (rc as i64) > (t as i64) * (cards as i64)
}

/// Whether the first count is at least as close to `t` tenths as the second.
fn dist_le_exec(rc_a: i32, cards_a: usize, rc_b: i32, cards_b: usize, t: i32) -> (r: bool)
    requires
        -60_000 <= rc_a <= 60_000,
        -60_000 <= rc_b <= 60_000,
        cards_a <= 60_000,
        cards_b <= 60_000,
        -100_000 <= t <= 100_000,
    ensures
        r == spec_dist_le(rc_a as int, cards_a as int, rc_b as int, cards_b as int, t as int),
{
    proof {
        let ti = t as int;
        let ca = cards_a as int;
        let cb = cards_b as int;
        let ra = rc_a as int;
        let rb = rc_b as int;
        assert({
            &&& -6_100_000_000 <= ti * ca - 520 * ra <= 6_100_000_000
            &&& -6_100_000_000 <= ti * cb - 520 * rb <= 6_100_000_000
            &&& spec_abs(ti * ca - 520 * ra) * cb <= 366_000_000_000_000
            &&& spec_abs(ti * cb - 520 * rb) * ca <= 366_000_000_000_000
            &&& spec_abs(ti * ca - 520 * ra) * cb >= 0
            &&& spec_abs(ti * cb - 520 * rb) * ca >= 0
        }) by (nonlinear_arith)
            requires
                -100_000 <= ti <= 100_000,
                0 <= ca <= 60_000,
                0 <= cb <= 60_000,
                -60_000 <= ra <= 60_000,
                -60_000 <= rb <= 60_000,
        ;
    }
    let da: i64 = t as i64 * cards_a as i64 - 520 * rc_a as i64;
    let da: i64 = if da < 0 { -da } else { da };
    let db: i64 = t as i64 * cards_b as i64 - 520 * rc_b as i64;
    let db: i64 = if db < 0 { -db } else { db };
    da * cards_b as i64 <= db * cards_a as i64
}

impl CardShoe for StandardShoe {
    closed spec fn wf(&self) -> bool {
        self.inv()
    }

    closed spec fn spec_needs_reshuffle(&self) -> bool {
        self.needs_reshuffle
    }

    fn try_pick(&mut self) -> (r: Option<Card>)
        ensures
            final(self).spec_decks() == old(self).spec_decks(),
            final(self).spec_min_cards() == old(self).spec_min_cards(),
            match r {
                Some(c) => {
                    &&& old(self).spec_cards().len() > 0
                    &&& c == old(self).spec_cards().last()
                    &&& final(self).spec_cards() == old(self).spec_cards().drop_last()
                    &&& final(self).spec_rc() == old(self).spec_rc() + c.spec_hilo()
                    &&& final(self).spec_needs_reshuffle()
                        == (old(self).spec_needs_reshuffle()
                        || old(self).spec_cards().len() - 1 <= old(self).spec_min_cards())
                },
                None => {
                    &&& old(self).spec_cards().len() == 0
                    &&& final(self).spec_cards() == old(self).spec_cards()
                    &&& final(self).spec_rc() == old(self).spec_rc()
                    &&& final(self).spec_needs_reshuffle() == old(self).spec_needs_reshuffle()
                },
            },
    {
        proof {
            lemma_counts_bounds(self.cards@);
        }
        match self.cards.pop() {
            Some(card) => {
                proof {
                    lemma_counts_bounds(old(self).cards@);
                    assert(old(self).cards@.drop_last().push(old(self).cards@.last())
                        =~= old(self).cards@);
                    lemma_counts_push(old(self).cards@.drop_last(), old(self).cards@.last());
                    assert(all_valid(old(self).cards@.drop_last())) by {
                        assert(forall|i: int|
                            0 <= i < old(self).cards@.len() - 1
                                ==> #[trigger] old(self).cards@.drop_last()[i]
                                == old(self).cards@[i]);
                    }
                }
                self.card_removed(card);
                Some(card)
            },
            None => None,
        }
    }

    fn try_pick_first(&mut self, card: Card) -> (r: Option<Card>)
        ensures
            final(self).spec_decks() == old(self).spec_decks(),
            final(self).spec_min_cards() == old(self).spec_min_cards(),
            match r {
                Some(c) => {
                    &&& c == card
                    &&& spec_find_card(old(self).spec_cards(), card, 0) matches Some(i)
                        && final(self).spec_cards() == old(self).spec_cards().remove(i)
                    &&& final(self).spec_rc() == old(self).spec_rc() + card.spec_hilo()
                    &&& final(self).spec_needs_reshuffle()
                        == (old(self).spec_needs_reshuffle()
                        || old(self).spec_cards().len() - 1 <= old(self).spec_min_cards())
                },
                None => spec_find_card(old(self).spec_cards(), card, 0) is None
                    && *final(self) == *old(self),
            },
    {
        self.pick_rank(card)
    }

    /// A well-formed standard shoe always deals: an exhausted one refills
    /// itself first, so the card comes off the shoe's draw end either way.
    fn pick(&mut self) -> (r: Result<Card, ShoeError>)
        ensures
            final(self).spec_decks() == old(self).spec_decks(),
            final(self).spec_min_cards() == old(self).spec_min_cards(),
            r is Ok,
            r matches Ok(c) ==> {
                ||| (old(self).spec_cards().len() > 0 && c == old(self).spec_cards().last()
                    && final(self).spec_cards() == old(self).spec_cards().drop_last()
                    && final(self).spec_rc() == old(self).spec_rc() + c.spec_hilo())
                ||| (old(self).spec_cards().len() == 0
                    && final(self).spec_cards().len() == 52 * old(self).spec_decks() - 1
                    && final(self).spec_rc() == c.spec_hilo())
            },
    {
        match self.try_pick() {
            Some(c) => Ok(c),
            None => {
                self.reshuffle();
                match self.try_pick() {
                    Some(c) => Ok(c),
                    None => {
                        proof {
                            assert(false);
                        }
                        Err(ShoeError::Exhausted)
                    },
                }
            },
        }
    }

    /// A valid rank can always be dealt: when none is left, the refilled
    /// shoe holds every rank again. When the rank is present, its first
    /// stored occurrence leaves the shoe.
    fn pick_first(&mut self, card: Card) -> (r: Result<Card, ShoeError>)
        ensures
            final(self).spec_decks() == old(self).spec_decks(),
            final(self).spec_min_cards() == old(self).spec_min_cards(),
            r is Ok,
            spec_find_card(old(self).spec_cards(), card, 0) matches Some(i)
                ==> final(self).spec_cards() == old(self).spec_cards().remove(i),
    {
        match self.pick_rank(card) {
            Some(c) => Ok(c),
            None => {
                self.reshuffle();
                proof {
                    if card.0 == 10 {
                        assert(spec_count_rank(self.spec_cards(), 10) > 0);
                    } else {
                        assert(spec_count_rank(self.spec_cards(), card.0 as int) > 0);
                    }
                    lemma_count_rank_found(self.spec_cards(), card.0);
                    assert(Card(card.0) == card);
                }
                match self.pick_rank(card) {
                    Some(c) => Ok(c),
                    None => {
                        proof {
                            assert(false);
                        }
                        Err(ShoeError::CardUnavailable)
                    },
                }
            },
        }
    }

    /// Refills the shoe to its full deck count, shuffles it, and resets the
    /// count and the penetration flag.
    fn reshuffle(&mut self) -> (ok: bool)
        ensures
            ok,
            final(self).spec_decks() == old(self).spec_decks(),
            final(self).spec_min_cards() == old(self).spec_min_cards(),
            final(self).spec_cards().len() == 52 * old(self).spec_decks(),
            spec_count_low(final(self).spec_cards()) == 20 * old(self).spec_decks(),
            spec_count_high(final(self).spec_cards()) == 20 * old(self).spec_decks(),
            spec_full_composition(final(self).spec_cards(), old(self).spec_decks()),
            final(self).spec_rc() == 0,
            !final(self).spec_needs_reshuffle(),
    {
        self.cards.clear();
        let decks = self.decks;
        fill_cards(&mut self.cards, decks);
        let ghost before = self.cards@;
        shuffle_cards(&mut self.rng, &mut self.cards);
        proof {
            lemma_counts_permutation(before, self.cards@);
            assert forall|r: int| 1 <= r <= 9
                implies #[trigger] spec_count_rank(self.cards@, r)
                == 4 * (decks as int) by {
                assert(spec_count_rank(before, r) == spec_count_rank(self.cards@, r));
            }
            assert(spec_count_rank(before, 10) == spec_count_rank(self.cards@, 10));
        }
        self.running_count = 0;
        self.needs_reshuffle = false;
        true
    }

    /// Rebuilds the full shoe, then removes low cards (for a positive
    /// target) or high cards (negative) one at a time, stopping at the
    /// removal count whose true count is closest to the target; a tie keeps
    /// the count that does not overshoot. A target beyond what removing
    /// every low (or high) card can reach — 32.5 counts either way — is
    /// unreachable and fatal.
    fn force_true_count(&mut self, tc_tenths: i32) -> (r: Result<(), ShoeError>)
        ensures
            final(self).spec_decks() == old(self).spec_decks(),
            final(self).spec_min_cards() == old(self).spec_min_cards(),
            match r {
                Ok(_) => ({
                    let d = old(self).spec_decks();
                    let total = 52 * d;
                    let n = final(self).spec_rc();
                    let cards = final(self).spec_cards();
                    &&& !final(self).spec_needs_reshuffle()
                    &&& (tc_tenths == 0 ==> n == 0 && cards.len() == total)
                    &&& (tc_tenths > 0 ==> {
                        &&& 0 <= n <= 20 * d
                        &&& cards.len() == total - n
                        &&& spec_count_low(cards) == 20 * d - n
                        &&& spec_count_high(cards) == 20 * d
                        &&& ({
                            ||| (spec_tc_ge10(n, total - n, tc_tenths as int)
                                && !spec_tc_ge10(n - 1, total - n + 1, tc_tenths as int)
                                && !spec_dist_le(
                                n - 1,
                                total - n + 1,
                                n,
                                total - n,
                                tc_tenths as int,
                            ))
                            ||| (!spec_tc_ge10(n, total - n, tc_tenths as int)
                                && n + 1 <= 20 * d
                                && spec_tc_ge10(n + 1, total - n - 1, tc_tenths as int)
                                && spec_dist_le(
                                n,
                                total - n,
                                n + 1,
                                total - n - 1,
                                tc_tenths as int,
                            ))
                        })
                    })
                    &&& (tc_tenths < 0 ==> {
                        let m = -n;
                        &&& 0 <= m <= 20 * d
                        &&& cards.len() == total - m
                        &&& spec_count_high(cards) == 20 * d - m
                        &&& spec_count_low(cards) == 20 * d
                        &&& ({
                            ||| (spec_tc_le10(-m, total - m, tc_tenths as int)
                                && !spec_tc_le10(-(m - 1), total - m + 1, tc_tenths as int)
                                && !spec_dist_le(
                                -(m - 1),
                                total - m + 1,
                                -m,
                                total - m,
                                tc_tenths as int,
                            ))
                            ||| (!spec_tc_le10(-m, total - m, tc_tenths as int)
                                && m + 1 <= 20 * d
                                && spec_tc_le10(-(m + 1), total - m - 1, tc_tenths as int)
                                && spec_dist_le(
                                -m,
                                total - m,
                                -(m + 1),
                                total - m - 1,
                                tc_tenths as int,
                            ))
                        })
                    })
                }),
                Err(e) => e == ShoeError::TargetUnreachable
                    && (tc_tenths > 325 || tc_tenths < -325),
            },
    {
        let ghost d = self.spec_decks();
        self.cards.clear();
        let decks = self.decks;
        fill_cards(&mut self.cards, decks);
        self.running_count = 0;
        let total: usize = 52 * (decks as usize);

        if tc_tenths > 0 {
            let mut prev_rc: i32 = 0;
            let mut prev_len: usize = total;
            let mut last: Option<Card> = None;
            while tc_below(self.running_count, self.cards.len(), tc_tenths)
                invariant
                    self.wf(),
                    0 < tc_tenths <= 100_000,
                    d == old(self).spec_decks(),
                    self.spec_decks() == d,
                    self.spec_min_cards() == old(self).spec_min_cards(),
                    total == 52 * d,
                    0 <= self.spec_rc() <= 20 * d,
                    self.spec_cards().len() == total - self.spec_rc(),
                    spec_count_low(self.spec_cards()) == 20 * d - self.spec_rc(),
                    spec_count_high(self.spec_cards()) == 20 * d,
                    self.spec_rc() > 0 ==> (last matches Some(lc) && spec_is_low(lc)
                        && prev_rc == self.spec_rc() - 1
                        && prev_len == self.spec_cards().len() + 1
                        && !spec_tc_ge10(
                        self.spec_rc() - 1,
                        total - self.spec_rc() + 1,
                        tc_tenths as int,
                    )),
                    self.spec_rc() == 0 ==> last is None,
                decreases spec_count_low(self.spec_cards()),
            {
                prev_rc = self.running_count;
                prev_len = self.cards.len();
                match self.remove_low_card() {
                    Ok(c) => {
                        proof {
                            lemma_counts_bounds(self.spec_cards());
                        }
                        last = Some(c);
                    },
                    Err(_) => {
                        proof {
                            let n = self.spec_rc();
                            assert(n == 20 * d);
                            assert(520 * n < tc_tenths * (total - n));
                            assert(total - n == 32 * d);
                            assert(520 * n == 10400 * d);
                            assert(tc_tenths <= 325
                                ==> tc_tenths * (32 * d) <= 10400 * d) by (nonlinear_arith)
                                requires
                                    d >= 1,
                            ;
                            assert(tc_tenths > 325);
                        }
                        return Err(ShoeError::TargetUnreachable);
                    },
                }
            }
            match last {
                None => {
                    proof {
                        assert(tc_tenths * total > 0) by (nonlinear_arith)
                            requires
                                tc_tenths >= 1,
                                total >= 52,
                        ;
                        assert(false);
                    }
                },
                Some(c) => {
                    if dist_le_exec(prev_rc, prev_len, self.running_count, self.cards.len(),
                        tc_tenths) {
                        proof {
                            lemma_counts_push(self.cards@, c);
                        }
                        self.cards.push(c);
                        self.running_count = self.running_count - 1;
                    }
                },
            }
        } else if tc_tenths < 0 {
            let mut prev_rc: i32 = 0;
            let mut prev_len: usize = total;
            let mut last: Option<Card> = None;
            while tc_above(self.running_count, self.cards.len(), tc_tenths)
                invariant
                    self.wf(),
                    -100_000 <= tc_tenths < 0,
                    d == old(self).spec_decks(),
                    self.spec_decks() == d,
                    self.spec_min_cards() == old(self).spec_min_cards(),
                    total == 52 * d,
                    -20 * d <= self.spec_rc() <= 0,
                    self.spec_cards().len() == total + self.spec_rc(),
                    spec_count_high(self.spec_cards()) == 20 * d + self.spec_rc(),
                    spec_count_low(self.spec_cards()) == 20 * d,
                    self.spec_rc() < 0 ==> (last matches Some(lc) && spec_is_high(lc)
                        && prev_rc == self.spec_rc() + 1
                        && prev_len == self.spec_cards().len() + 1
                        && !spec_tc_le10(
                        self.spec_rc() + 1,
                        total + self.spec_rc() + 1,
                        tc_tenths as int,
                    )),
                    self.spec_rc() == 0 ==> last is None,
                decreases spec_count_high(self.spec_cards()),
            {
                prev_rc = self.running_count;
                prev_len = self.cards.len();
                match self.remove_high_card() {
                    Ok(c) => {
                        proof {
                            lemma_counts_bounds(self.spec_cards());
                        }
                        last = Some(c);
                    },
                    Err(_) => {
                        proof {
                            let n = self.spec_rc();
                            assert(n == -20 * d);
                            assert(520 * n > tc_tenths * (total + n));
                            assert(total + n == 32 * d);
                            assert(520 * n == -10400 * d);
                            assert(tc_tenths >= -325
                                ==> tc_tenths * (32 * d) >= -10400 * d) by (nonlinear_arith)
                                requires
                                    d >= 1,
                            ;
                            assert(tc_tenths < -325);
                        }
                        return Err(ShoeError::TargetUnreachable);
                    },
                }
            }
            match last {
                None => {
                    proof {
                        assert(tc_tenths * total < 0) by (nonlinear_arith)
                            requires
                                tc_tenths <= -1,
                                total >= 52,
                        ;
                        assert(false);
                    }
                },
                Some(c) => {
                    if dist_le_exec(prev_rc, prev_len, self.running_count, self.cards.len(),
                        tc_tenths) {
                        proof {
                            lemma_counts_push(self.cards@, c);
                        }
                        self.cards.push(c);
                        self.running_count = self.running_count + 1;
                    }
                },
            }
        }

        let ghost before = self.cards@;
        shuffle_cards(&mut self.rng, &mut self.cards);
        proof {
            lemma_counts_permutation(before, self.cards@);
        }
        self.needs_reshuffle = false;
        Ok(())
    }

    /// Removes `rel_rc` low cards (positive) or high cards (negative), so
    /// the running count moves by exactly `rel_rc` without a reshuffle.
    fn adjust_running_count(&mut self, rel_rc: i32) -> (r: Result<(), ShoeError>)
        ensures
            final(self).spec_decks() == old(self).spec_decks(),
            final(self).spec_min_cards() == old(self).spec_min_cards(),
            r is Ok ==> {
                &&& final(self).spec_rc() == old(self).spec_rc() + rel_rc
                &&& final(self).spec_cards().len() == old(self).spec_cards().len()
                    - spec_abs(rel_rc as int)
            },
            rel_rc > 0 && spec_count_low(old(self).spec_cards()) >= rel_rc ==> r is Ok,
            rel_rc < 0 && spec_count_high(old(self).spec_cards()) >= -rel_rc ==> r is Ok,
            rel_rc == 0 ==> r is Ok && *final(self) == *old(self),
            r is Err ==> (rel_rc > 0 && spec_count_low(old(self).spec_cards()) < rel_rc)
                || (rel_rc < 0 && spec_count_high(old(self).spec_cards()) < -rel_rc),
            r is Err && rel_rc > 0 ==> spec_count_low(final(self).spec_cards()) == 0
                && final(self).spec_rc()
                == old(self).spec_rc() + spec_count_low(old(self).spec_cards()),
            r is Err && rel_rc < 0 ==> spec_count_high(final(self).spec_cards()) == 0
                && final(self).spec_rc()
                == old(self).spec_rc() - spec_count_high(old(self).spec_cards()),
    {
        if rel_rc > 0 {
            let mut i: i32 = 0;
            while i < rel_rc
                invariant
                    self.wf(),
                    0 <= i <= rel_rc,
                    self.spec_decks() == old(self).spec_decks(),
                    self.spec_min_cards() == old(self).spec_min_cards(),
                    self.spec_rc() == old(self).spec_rc() + i,
                    self.spec_cards().len() == old(self).spec_cards().len() - i,
                    spec_count_low(self.spec_cards())
                        == spec_count_low(old(self).spec_cards()) - i,
                decreases rel_rc - i,
            {
                match self.remove_low_card() {
                    Ok(_) => {},
                    Err(e) => {
                        return Err(e);
                    },
                }
                i = i + 1;
            }
        } else if rel_rc < 0 {
            let mut i: i32 = 0;
            while i > rel_rc
                invariant
                    self.wf(),
                    rel_rc <= i <= 0,
                    self.spec_decks() == old(self).spec_decks(),
                    self.spec_min_cards() == old(self).spec_min_cards(),
                    self.spec_rc() == old(self).spec_rc() + i,
                    self.spec_cards().len() == old(self).spec_cards().len() + i,
                    spec_count_high(self.spec_cards())
                        == spec_count_high(old(self).spec_cards()) + i,
                decreases i - rel_rc,
            {
                match self.remove_high_card() {
                    Ok(_) => {},
                    Err(e) => {
                        return Err(e);
                    },
                }
                i = i - 1;
            }
        }
        Ok(())
    }

    fn needs_reshuffle(&self) -> (r: bool)
        ensures
            r == self.spec_needs_reshuffle(),
    {
        self.needs_reshuffle
    }

    fn running_count(&self) -> (r: i32)
        ensures
            r == self.spec_rc(),
    {
        proof {
            lemma_counts_bounds(self.cards@);
        }
        self.running_count
    }

    fn true_count(&self) -> (r: TrueCount)
        ensures
            r == (TrueCount {
                rc: self.spec_rc() as i32,
                cards_left: self.spec_cards().len() as u32,
            }),
    {
        proof {
            lemma_counts_bounds(self.cards@);
        }
        TrueCount { rc: self.running_count, cards_left: self.cards.len() as u32 }
    }
}

/// Pushes one card of the given rank, tracking how each count moves.
fn push_card(cards: &mut Vec<Card>, rank: u8)
    requires
        1 <= rank <= 10,
        all_valid(old(cards)@),
        old(cards)@.len() < 52_000,
    ensures
        final(cards)@ == old(cards)@.push(Card(rank)),
        all_valid(final(cards)@),
        final(cards)@.len() == old(cards)@.len() + 1,
        spec_count_low(final(cards)@) == spec_count_low(old(cards)@)
            + if 2 <= rank <= 6 { 1int } else { 0int },
        spec_count_high(final(cards)@) == spec_count_high(old(cards)@)
            + if rank == 1 || rank == 10 { 1int } else { 0int },
        spec_hilo_sum(final(cards)@) == spec_hilo_sum(old(cards)@) + Card(rank).spec_hilo(),
        forall|r: int| #[trigger] spec_count_rank(final(cards)@, r)
            == spec_count_rank(old(cards)@, r) + if rank == r { 1int } else { 0int },
{
    proof {
        lemma_counts_push(cards@, Card(rank));
        let s2 = cards@.push(Card(rank));
        assert forall|r: int| #[trigger] spec_count_rank(s2, r)
            == spec_count_rank(cards@, r) + (if rank == r { 1int } else { 0int }) by {
            lemma_count_rank_push(cards@, Card(rank), r);
        }
    }
    cards.push(Card(rank));
}

/// Fills the vector with `decks` complete decks: per deck, four cards of
/// each rank 1 to 9 and sixteen ten-valued cards, in rank order.
fn fill_cards(cards: &mut Vec<Card>, decks: u32)
    requires
        old(cards)@.len() == 0,
        1 <= decks <= 1000,
    ensures
        all_valid(final(cards)@),
        final(cards)@.len() == 52 * decks,
        spec_count_low(final(cards)@) == 20 * decks,
        spec_count_high(final(cards)@) == 20 * decks,
        spec_hilo_sum(final(cards)@) == 0,
        spec_full_composition(final(cards)@, decks as int),
{
    proof {
        assert forall|r: int| #[trigger] spec_count_rank(cards@, r) == 0 by {
            lemma_count_rank_zero(cards@, r);
        }
    }
    let mut d: u32 = 0;
    while d < decks
        invariant
            d <= decks <= 1000,
            all_valid(cards@),
            cards@.len() == 52 * d,
            spec_count_low(cards@) == 20 * d,
            spec_count_high(cards@) == 20 * d,
            spec_hilo_sum(cards@) == 0,
            forall|r: int| 1 <= r <= 9 ==> #[trigger] spec_count_rank(cards@, r) == 4 * d,
            spec_count_rank(cards@, 10) == 16 * d,
        decreases decks - d,
    {
        let mut q: u32 = 0;
        while q < 4
            invariant
                d < decks <= 1000,
                q <= 4,
                all_valid(cards@),
                cards@.len() == 52 * d + 13 * q,
                spec_count_low(cards@) == 20 * d + 5 * q,
                spec_count_high(cards@) == 20 * d + 5 * q,
                spec_hilo_sum(cards@) == 0,
                forall|r: int| 1 <= r <= 9 ==> #[trigger] spec_count_rank(cards@, r)
                    == 4 * d + q,
                spec_count_rank(cards@, 10) == 16 * d + 4 * q,
            decreases 4 - q,
        {
            push_card(cards, 1);
            push_card(cards, 2);
            push_card(cards, 3);
            push_card(cards, 4);
            push_card(cards, 5);
            push_card(cards, 6);
            push_card(cards, 7);
            push_card(cards, 8);
            push_card(cards, 9);
            push_card(cards, 10);
            push_card(cards, 10);
            push_card(cards, 10);
            push_card(cards, 10);
            q = q + 1;
        }
        d = d + 1;
    }
}

} // verus!
