use vstd::prelude::*;
use std::collections::VecDeque;
use crate::card::Card;
use crate::hand::all_valid;
use crate::shoe::{CardShoe, ShoeError, spec_find_card, lemma_find_card_props};
use crate::strategy::TrueCount;

verus! {

/// A deterministic replay shoe: hands out a fixed queue of cards in order
/// and supports nothing else. Used to drive reproducible rounds.
pub struct QueuedShoe {
    cards: VecDeque<Card>,
}

impl QueuedShoe {
    /// The cards still queued, next card first.
    pub closed spec fn spec_cards(&self) -> Seq<Card> {
        self.cards@
    }

    /// Creates a queued shoe handing out the given cards in order.
    pub fn new(cards: &[Card]) -> (r: QueuedShoe)
        requires
            all_valid(cards@),
        ensures
            r.wf(),
            r.spec_cards() == cards@,
    {
        let mut q: VecDeque<Card> = VecDeque::new();
        let mut i: usize = 0;
        while i < cards.len()
            invariant
                i <= cards@.len(),
                all_valid(cards@),
                q@ =~= cards@.subrange(0, i as int),
            decreases cards@.len() - i,
        {
            q.push_back(cards[i]);
            i = i + 1;
        }
        proof {
            assert(cards@.subrange(0, cards@.len() as int) =~= cards@);
        }
        QueuedShoe { cards: q }
    }

    /// Creates a queued shoe from card ranks, which must all be 1 to 10.
    pub fn from_ints(cards: &[u8]) -> (r: QueuedShoe)
        requires
            forall|i: int| 0 <= i < cards@.len() ==> 1 <= #[trigger] cards@[i] <= 10,
        ensures
            r.wf(),
            r.spec_cards() == cards@.map_values(|c: u8| Card(c)),
    {
        let mut q: VecDeque<Card> = VecDeque::new();
        let mut i: usize = 0;
        while i < cards.len()
            invariant
                i <= cards@.len(),
                forall|j: int| 0 <= j < cards@.len() ==> 1 <= #[trigger] cards@[j] <= 10,
                q@ =~= cards@.subrange(0, i as int).map_values(|c: u8| Card(c)),
            decreases cards@.len() - i,
        {
            let c = cards[i];
            q.push_back(Card(c));
            proof {
                assert(cards@.subrange(0, i + 1).map_values(|c: u8| Card(c))
                    =~= cards@.subrange(0, i as int).map_values(|c: u8| Card(c)).push(
                    Card(cards@[i as int])));
            }
            i = i + 1;
        }
        proof {
            assert(cards@.subrange(0, cards@.len() as int) =~= cards@);
        }
        QueuedShoe { cards: q }
    }

    /// Whether every queued card has been handed out.
    pub fn is_empty(&self) -> (r: bool)
        ensures
            r == (self.spec_cards().len() == 0),
    {
        self.cards.len() == 0
    }
}

impl CardShoe for QueuedShoe {
    closed spec fn wf(&self) -> bool {
        all_valid(self.cards@)
    }

    closed spec fn spec_needs_reshuffle(&self) -> bool {
        false
    }

    fn try_pick(&mut self) -> (r: Option<Card>)
        ensures
            match r {
                Some(c) => old(self).spec_cards().len() > 0 && c == old(self).spec_cards()[0]
                    && final(self).spec_cards() == old(self).spec_cards().subrange(
                    1,
                    old(self).spec_cards().len() as int,
                ),
                None => old(self).spec_cards().len() == 0
                    && final(self).spec_cards() == old(self).spec_cards(),
            },
    {
        self.cards.pop_front()
    }

    fn try_pick_first(&mut self, card: Card) -> (r: Option<Card>)
        ensures
            match r {
                Some(c) => {
                    &&& c == card
                    &&& spec_find_card(old(self).spec_cards(), card, 0) matches Some(i)
                        && final(self).spec_cards() == old(self).spec_cards().remove(i)
                },
                None => spec_find_card(old(self).spec_cards(), card, 0) is None
                    && final(self).spec_cards() == old(self).spec_cards(),
            },
    {
        let n = self.cards.len();
        let mut i: usize = 0;
        while i < n && self.cards[i] != card
            invariant
                i <= n == self.cards@.len(),
                *self == *old(self),
                spec_find_card(self.cards@, card, 0) == spec_find_card(self.cards@, card, i as int),
            decreases n - i,
        {
            i = i + 1;
        }
        if i < n {
            proof {
                assert(spec_find_card(self.cards@, card, i as int) == Some(i as int));
            }
            match self.cards.remove(i) {
                Some(c) => Some(c),
                None => {
                    proof {
                        assert(false);
                    }
                    None
                },
            }
        } else {
            None
        }
    }

    /// Hands out the next queued card; an exhausted queue is fatal, as a
    /// replay shoe cannot be refilled.
    fn pick(&mut self) -> (r: Result<Card, ShoeError>)
        ensures
            match r {
                Ok(c) => old(self).spec_cards().len() > 0 && c == old(self).spec_cards()[0]
                    && final(self).spec_cards() == old(self).spec_cards().subrange(
                    1,
                    old(self).spec_cards().len() as int,
                ),
                Err(_) => old(self).spec_cards().len() == 0
                    && final(self).spec_cards() == old(self).spec_cards(),
            },
    {
        match self.try_pick() {
            Some(c) => Ok(c),
            None => Err(ShoeError::Exhausted),
        }
    }

    fn pick_first(&mut self, card: Card) -> (r: Result<Card, ShoeError>)
        ensures
            match r {
                Ok(c) => {
                    &&& c == card
                    &&& spec_find_card(old(self).spec_cards(), card, 0) matches Some(i)
                        && final(self).spec_cards() == old(self).spec_cards().remove(i)
                },
                Err(_) => spec_find_card(old(self).spec_cards(), card, 0) is None
                    && final(self).spec_cards() == old(self).spec_cards(),
            },
    {
        match self.try_pick_first(card) {
            Some(c) => Ok(c),
            None => Err(ShoeError::CardUnavailable),
        }
    }

    /// A replay shoe cannot be reshuffled.
    fn reshuffle(&mut self) -> (ok: bool)
        ensures
            *final(self) == *old(self),
            !ok,
    {
        false
    }

    /// A replay shoe cannot force a true count.
    fn force_true_count(&mut self, tc_tenths: i32) -> (r: Result<(), ShoeError>)
        ensures
            *final(self) == *old(self),
            r == Err::<(), ShoeError>(ShoeError::Unsupported),
    {
        Err(ShoeError::Unsupported)
    }

    /// A replay shoe cannot adjust its running count.
    fn adjust_running_count(&mut self, rel_rc: i32) -> (r: Result<(), ShoeError>)
        ensures
            *final(self) == *old(self),
            r == Err::<(), ShoeError>(ShoeError::Unsupported),
    {
        Err(ShoeError::Unsupported)
    }

    fn needs_reshuffle(&self) -> (r: bool)
        ensures
            !r,
    {
        false
    }

    /// A replay shoe does not track a count.
    fn running_count(&self) -> (r: i32)
        ensures
            r == 0,
    {
        0
    }

    /// A replay shoe does not track a count.
    fn true_count(&self) -> (r: TrueCount)
        ensures
            r == (TrueCount { rc: 0, cards_left: 0 }),
    {
        TrueCount::zero()
    }
}

} // verus!
