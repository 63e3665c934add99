use vstd::prelude::*;
use crate::card::Card;

verus! {

/// Largest number of cards a hand may hold; one deck cannot feed a single
/// hand more than this many cards in practice, and `add` refuses more.
pub const MAX_HAND_CARDS: usize = 16;

/// Sum of the card ranks counting every ace as 1 (the "hard" total).
pub open spec fn spec_hard_sum(s: Seq<Card>) -> int
    decreases s.len(),
{
    if s.len() == 0 {
        0
    } else {
        spec_hard_sum(s.drop_last()) + s.last().0
    }
}

pub open spec fn spec_has_ace(s: Seq<Card>) -> bool {
    exists|i: int| 0 <= i < s.len() && (#[trigger] s[i]).0 == 1
}

/// A hand is soft when one ace can still be counted as 11 without busting.
/// At most one ace is ever promoted, so this is the whole story.
pub open spec fn spec_soft(s: Seq<Card>) -> bool {
    spec_has_ace(s) && spec_hard_sum(s) + 10 <= 21
}

/// Best point value of the hand: the hard total, plus 10 when an ace can be
/// counted as 11 without going over 21.
pub open spec fn spec_value(s: Seq<Card>) -> int {
    spec_hard_sum(s) + if spec_soft(s) { 10int } else { 0int }
}

pub open spec fn spec_busted(s: Seq<Card>) -> bool {
    spec_hard_sum(s) > 21
}

pub open spec fn all_valid(s: Seq<Card>) -> bool {
    forall|i: int| 0 <= i < s.len() ==> (#[trigger] s[i]).valid()
}

pub proof fn lemma_hard_sum_bounds(s: Seq<Card>)
    requires
        all_valid(s),
    ensures
        s.len() <= spec_hard_sum(s) <= 10 * s.len(),
    decreases s.len(),
{
    if s.len() > 0 {
        assert(all_valid(s.drop_last())) by {
            assert(forall|i: int|
                0 <= i < s.len() - 1 ==> #[trigger] s.drop_last()[i] == s[i]);
        }
        assert(s.last().valid());
        lemma_hard_sum_bounds(s.drop_last());
    }
}

/// Without an ace every card counts at least 2, so the hard total is at
/// least twice the number of cards.
pub proof fn lemma_hard_sum_no_ace(s: Seq<Card>)
    requires
        all_valid(s),
        !spec_has_ace(s),
    ensures
        spec_hard_sum(s) >= 2 * s.len(),
    decreases s.len(),
{
    if s.len() > 0 {
        assert(all_valid(s.drop_last()) && !spec_has_ace(s.drop_last())) by {
            assert(forall|i: int|
                0 <= i < s.len() - 1 ==> #[trigger] s.drop_last()[i] == s[i]);
        }
        assert(s.last() == s[s.len() - 1]);
        assert(s.last().0 != 1 && s.last().valid());
        lemma_hard_sum_no_ace(s.drop_last());
    }
}

/// A hand's value never exceeds 21 unless it is busted, and at most one ace
/// is ever counted as 11: the value exceeds the all-aces-as-one total by at
/// most ten, and only when the hand holds an ace.
pub proof fn lemma_value_invariant(s: Seq<Card>)
    ensures
        !spec_busted(s) ==> spec_value(s) <= 21,
        spec_value(s) == spec_hard_sum(s) || (spec_value(s) == spec_hard_sum(s) + 10
            && spec_has_ace(s)),
{
}

/// A hand never un-busts: once busted, adding any card leaves it busted.
pub proof fn lemma_busted_monotonic(s: Seq<Card>, c: Card)
    requires
        spec_busted(s),
        c.valid(),
    ensures
        spec_busted(s.push(c)),
{
    assert(s.push(c).drop_last() =~= s);
    assert(s.push(c).last() == c);
}

/// One player or dealer hand: the cards dealt to it, the point value kept in
/// step with them, and the per-round lifecycle flags.
pub struct Hand {
    cards: Vec<Card>,
    value: u8,
    is_soft: bool,
    is_busted: bool,
    /// Owner's id, used to tell split hands of different players apart.
    id: u8,
    /// The stake riding on the hand, in whole currency units.
    bet: i64,
    doubled: bool,
    split: bool,
    surrendered: bool,
    insured: bool,
}

impl Hand {
    pub closed spec fn spec_cards(&self) -> Seq<Card> {
        self.cards@
    }

    pub closed spec fn spec_id(&self) -> u8 {
        self.id
    }

    pub closed spec fn spec_bet(&self) -> int {
        self.bet as int
    }

    pub closed spec fn spec_doubled(&self) -> bool {
        self.doubled
    }

    pub closed spec fn spec_split(&self) -> bool {
        self.split
    }

    pub closed spec fn spec_surrendered(&self) -> bool {
        self.surrendered
    }

    pub closed spec fn spec_insured(&self) -> bool {
        self.insured
    }

    /// The cached value, softness and bust flags agree with the cards, the
    /// cards are valid, and the hand is within its size bound.
    pub closed spec fn wf(&self) -> bool {
        &&& all_valid(self.cards@)
        &&& self.cards@.len() <= MAX_HAND_CARDS
        &&& self.value == spec_value(self.cards@)
        &&& self.is_soft == spec_soft(self.cards@)
        &&& self.is_busted == spec_busted(self.cards@)
    }

    /// A well-formed hand holds only valid cards, within the size bound.
    pub proof fn lemma_wf(&self)
        requires
            self.wf(),
        ensures
            all_valid(self.spec_cards()),
            self.spec_cards().len() <= MAX_HAND_CARDS,
    {
    }

    /// Creates an empty hand with a unit bet and no flags set.
    pub fn new() -> (h: Hand)
        ensures
            h.wf(),
            h.spec_cards() =~= Seq::<Card>::empty(),
            h.spec_id() == 0,
            h.spec_bet() == 1,
            !h.spec_doubled(),
            !h.spec_split(),
            !h.spec_surrendered(),
            !h.spec_insured(),
    {
        Hand {
            cards: Vec::new(),
            value: 0,
            is_soft: false,
            is_busted: false,
            id: 0,
            bet: 1,
            doubled: false,
            split: false,
            surrendered: false,
            insured: false,
        }
    }

    /// Returns the current number of cards.
    pub fn count(&self) -> (n: usize)
        ensures
            n == self.spec_cards().len(),
    {
        self.cards.len()
    }

    /// Returns the card at the given position, in deal order.
    pub fn card(&self, i: usize) -> (c: Card)
        requires
            i < self.spec_cards().len(),
        ensures
            c == self.spec_cards()[i as int],
    {
        self.cards[i]
    }

    /// Adds a new card, updating the value incrementally: an ace counts as 11
    /// when the total so far allows it, and one promoted ace is demoted back
    /// to 1 rather than busting the hand.
    pub fn add(&mut self, card: Card)
        requires
            old(self).wf(),
            card.valid(),
            old(self).spec_cards().len() < MAX_HAND_CARDS,
        ensures
            final(self).wf(),
            final(self).spec_cards() == old(self).spec_cards().push(card),
            final(self).spec_id() == old(self).spec_id(),
            final(self).spec_bet() == old(self).spec_bet(),
            final(self).spec_doubled() == old(self).spec_doubled(),
            final(self).spec_split() == old(self).spec_split(),
            final(self).spec_surrendered() == old(self).spec_surrendered(),
            final(self).spec_insured() == old(self).spec_insured(),
    {
        proof {
            lemma_hard_sum_bounds(self.cards@);
            let s2 = self.cards@.push(card);
            assert(s2.drop_last() =~= self.cards@);
            assert(s2.last() == card);
            if spec_has_ace(self.cards@) {
                let i = choose|i: int|
                    0 <= i < self.cards@.len() && (#[trigger] self.cards@[i]).0 == 1;
                assert(s2[i].0 == 1);
            }
            if card.0 == 1 {
                assert(s2[s2.len() - 1].0 == 1);
            }
            if spec_has_ace(s2) && !spec_has_ace(self.cards@) && card.0 != 1 {
                let i = choose|i: int| 0 <= i < s2.len() && (#[trigger] s2[i]).0 == 1;
                assert(self.cards@[i].0 == 1);
            }
        }
        if card.0 == 1 {
            if self.value <= 10 {
                self.is_soft = true;
                self.value = self.value + 11;
            } else {
                self.value = self.value + 1;
            }
        } else {
            self.value = self.value + card.0;
        }

        if self.value > 21 {
            if self.is_soft {
                self.value = self.value - 10;
                self.is_soft = false;
            } else {
                self.is_busted = true;
            }
        }

        self.cards.push(card);
    }

    /// Returns the point value of the hand; an ace counts as 11 whenever that
    /// does not bust the hand.
    pub fn value(&self) -> (v: u8)
        requires
            self.wf(),
        ensures
            v == spec_value(self.spec_cards()),
    {
        self.value
    }

    /// Marks the hand as doubled down.
    pub fn double_down(&mut self)
        requires
            !old(self).spec_doubled(),
            !old(self).spec_surrendered(),
        ensures
            final(self).spec_doubled(),
            final(self).spec_split() == old(self).spec_split(),
            final(self).spec_surrendered() == old(self).spec_surrendered(),
            final(self).spec_insured() == old(self).spec_insured(),
            final(self).spec_cards() == old(self).spec_cards(),
            final(self).spec_id() == old(self).spec_id(),
            final(self).spec_bet() == old(self).spec_bet(),
            final(self).wf() == old(self).wf(),
    {
        self.doubled = true;
    }

    /// Marks the hand as the product of a pair split.
    pub fn split(&mut self)
        requires
            !old(self).spec_split(),
            !old(self).spec_doubled(),
            !old(self).spec_surrendered(),
        ensures
            final(self).spec_split(),
            final(self).spec_doubled() == old(self).spec_doubled(),
            final(self).spec_surrendered() == old(self).spec_surrendered(),
            final(self).spec_insured() == old(self).spec_insured(),
            final(self).spec_cards() == old(self).spec_cards(),
            final(self).spec_id() == old(self).spec_id(),
            final(self).spec_bet() == old(self).spec_bet(),
            final(self).wf() == old(self).wf(),
    {
        self.split = true;
    }

    /// Marks the hand as surrendered.
    pub fn surrender(&mut self)
        requires
            !old(self).spec_surrendered(),
            !old(self).spec_split(),
            !old(self).spec_doubled(),
        ensures
            final(self).spec_surrendered(),
            final(self).spec_doubled() == old(self).spec_doubled(),
            final(self).spec_split() == old(self).spec_split(),
            final(self).spec_insured() == old(self).spec_insured(),
            final(self).spec_cards() == old(self).spec_cards(),
            final(self).spec_id() == old(self).spec_id(),
            final(self).spec_bet() == old(self).spec_bet(),
            final(self).wf() == old(self).wf(),
    {
        self.surrendered = true;
    }

    /// Marks the hand as insured.
    pub fn insure(&mut self)
        requires
            !old(self).spec_insured(),
            !old(self).spec_surrendered(),
        ensures
            final(self).spec_insured(),
            final(self).spec_doubled() == old(self).spec_doubled(),
            final(self).spec_split() == old(self).spec_split(),
            final(self).spec_surrendered() == old(self).spec_surrendered(),
            final(self).spec_cards() == old(self).spec_cards(),
            final(self).spec_id() == old(self).spec_id(),
            final(self).spec_bet() == old(self).spec_bet(),
            final(self).wf() == old(self).wf(),
    {
        self.insured = true;
    }

    /// A natural blackjack: a two-card 21 that is not the product of a split.
    pub open spec fn spec_is_bj(&self) -> bool {
        !self.spec_split() && self.spec_cards().len() == 2
            && spec_value(self.spec_cards()) == 21
    }

    /// Returns whether the hand is a natural blackjack.
    pub fn is_bj(&self) -> (r: bool)
        requires
            self.wf(),
        ensures
            r == self.spec_is_bj(),
    {
        !self.split && self.cards.len() == 2 && self.value == 21
    }

    /// Returns whether the hand is busted.
    pub fn is_busted(&self) -> (r: bool)
        requires
            self.wf(),
        ensures
            r == spec_busted(self.spec_cards()),
    {
        self.is_busted
    }

    /// Returns whether the hand is soft.
    pub fn is_soft(&self) -> (r: bool)
        requires
            self.wf(),
        ensures
            r == spec_soft(self.spec_cards()),
    {
        self.is_soft
    }

    pub fn is_doubled(&self) -> (r: bool)
        ensures
            r == self.spec_doubled(),
    {
        self.doubled
    }

    pub fn is_split(&self) -> (r: bool)
        ensures
            r == self.spec_split(),
    {
        self.split
    }

    pub fn is_surrendered(&self) -> (r: bool)
        ensures
            r == self.spec_surrendered(),
    {
        self.surrendered
    }

    pub fn is_insured(&self) -> (r: bool)
        ensures
            r == self.spec_insured(),
    {
        self.insured
    }

    /// Returns the owner's id.
    pub fn get_id(&self) -> (r: u8)
        ensures
            r == self.spec_id(),
    {
        self.id
    }

    /// Sets the owner's id.
    pub fn set_id(&mut self, id: u8)
        ensures
            final(self).spec_id() == id,
            final(self).spec_bet() == old(self).spec_bet(),
            final(self).spec_cards() == old(self).spec_cards(),
            final(self).spec_doubled() == old(self).spec_doubled(),
            final(self).spec_split() == old(self).spec_split(),
            final(self).spec_surrendered() == old(self).spec_surrendered(),
            final(self).spec_insured() == old(self).spec_insured(),
            final(self).wf() == old(self).wf(),
    {
        self.id = id;
    }

    /// Returns the stake riding on the hand.
    pub fn get_bet(&self) -> (r: i64)
        ensures
            r == self.spec_bet(),
    {
        self.bet
    }

    /// Sets the stake riding on the hand.
    pub fn set_bet(&mut self, bet: i64)
        ensures
            final(self).spec_bet() == bet,
            final(self).spec_id() == old(self).spec_id(),
            final(self).spec_cards() == old(self).spec_cards(),
            final(self).spec_doubled() == old(self).spec_doubled(),
            final(self).spec_split() == old(self).spec_split(),
            final(self).spec_surrendered() == old(self).spec_surrendered(),
            final(self).spec_insured() == old(self).spec_insured(),
            final(self).wf() == old(self).wf(),
    {
        self.bet = bet;
    }

    /// Builds a hand by adding the given ranks in order.
    pub fn from_ranks(ranks: &[u8]) -> (h: Hand)
        requires
            ranks@.len() <= MAX_HAND_CARDS,
            forall|i: int| 0 <= i < ranks@.len() ==> 1 <= #[trigger] ranks@[i] <= 10,
        ensures
            h.wf(),
            h.spec_cards() == ranks@.map_values(|r: u8| Card(r)),
            h.spec_id() == 0,
            h.spec_bet() == 1,
            !h.spec_doubled(),
            !h.spec_split(),
            !h.spec_surrendered(),
            !h.spec_insured(),
    {
        let mut hand = Hand::new();
        let mut i: usize = 0;
        while i < ranks.len()
            invariant
                i <= ranks@.len() <= MAX_HAND_CARDS,
                forall|j: int| 0 <= j < ranks@.len() ==> 1 <= #[trigger] ranks@[j] <= 10,
                hand.wf(),
                hand.spec_cards() =~= ranks@.subrange(0, i as int).map_values(|r: u8| Card(r)),
                hand.spec_id() == 0,
                hand.spec_bet() == 1,
                !hand.spec_doubled(),
                !hand.spec_split(),
                !hand.spec_surrendered(),
                !hand.spec_insured(),
            decreases ranks@.len() - i,
    {
            let r = ranks[i];
            hand.add(Card(r));
            proof {
                assert(ranks@.subrange(0, i + 1).map_values(|r: u8| Card(r))
                    =~= ranks@.subrange(0, i as int).map_values(|r: u8| Card(r)).push(Card(ranks@[i as int])));
            }
            i = i + 1;
        }
        proof {
            assert(ranks@.subrange(0, ranks@.len() as int) =~= ranks@);
        }
        hand
    }

    /// The value of a hand never exceeds 21 unless the hand is busted.
    pub proof fn lemma_value_bounded(&self)
        requires
            self.wf(),
            !spec_busted(self.spec_cards()),
        ensures
            spec_value(self.spec_cards()) <= 21,
    {
    }
}

} // verus!
