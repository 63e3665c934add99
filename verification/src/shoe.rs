pub mod standard_shoe;
pub mod queued_shoe;
pub mod file_shoe;

use vstd::prelude::*;
use crate::card::Card;
use crate::strategy::{TrueCount, spec_tc_wf};

verus! {

/// A failure of a card shoe: the round treats every one of them as fatal.
#[derive(PartialEq, Eq, Structural, Debug, Copy, Clone)]
pub enum ShoeError {
    /// No card could be picked, even after a reshuffle.
    Exhausted,
    /// A specific card could not be found, even after a reshuffle.
    CardUnavailable,
    /// The operation is not supported by this kind of shoe.
    Unsupported,
    /// The deck composition cannot produce the requested true count.
    TargetUnreachable,
}

/// Index of the first occurrence of `card` in `s` at or after `i`.
pub open spec fn spec_find_card(s: Seq<Card>, card: Card, i: int) -> Option<int>
    decreases s.len() - i,
{
    if i < 0 || i >= s.len() {
        None
    } else if s[i] == card {
        Some(i)
    } else {
        spec_find_card(s, card, i + 1)
    }
}

pub proof fn lemma_find_card_props(s: Seq<Card>, card: Card, i: int)
    requires
        0 <= i,
    ensures
        match spec_find_card(s, card, i) {
            Some(j) => i <= j < s.len() && s[j] == card
                && forall|k: int| i <= k < j ==> s[k] != card,
            None => forall|k: int| i <= k < s.len() ==> s[k] != card,
        },
    decreases s.len() - i,
{
    if i < s.len() {
        lemma_find_card_props(s, card, i + 1);
    }
}

/// A source of cards for the round engine. Picks either succeed with a valid
/// card or report a fatal shoe error; the counting methods report the Hi-Lo
/// state for shoes that track it and zero for those that do not.
pub trait CardShoe: Sized {
    spec fn wf(&self) -> bool;

    /// Whether the penetration threshold has been crossed; constantly false
    /// for shoes that do not track penetration.
    spec fn spec_needs_reshuffle(&self) -> bool;

    /// Picks the next card if one is available.
    fn try_pick(&mut self) -> (r: Option<Card>)
        requires
            old(self).wf(),
        ensures
            final(self).wf(),
            r matches Some(c) ==> c.valid(),
    ;

    /// Removes and returns one card of the given rank if one is available.
    fn try_pick_first(&mut self, card: Card) -> (r: Option<Card>)
        requires
            old(self).wf(),
            card.valid(),
        ensures
            final(self).wf(),
            r matches Some(c) ==> c == card,
    ;

    /// Picks the next card, reshuffling once if the shoe is exhausted; a
    /// second failure is fatal.
    fn pick(&mut self) -> (r: Result<Card, ShoeError>)
        requires
            old(self).wf(),
        ensures
            final(self).wf(),
            r matches Ok(c) ==> c.valid(),
    ;

    /// Picks a card of the given rank, reshuffling once if it cannot be
    /// found; a second failure is fatal.
    fn pick_first(&mut self, card: Card) -> (r: Result<Card, ShoeError>)
        requires
            old(self).wf(),
            card.valid(),
        ensures
            final(self).wf(),
            r matches Ok(c) ==> c == card,
    ;

    /// Rebuilds and shuffles the shoe; false when this shoe cannot. Either
    /// way no reshuffle stays pending afterwards.
    fn reshuffle(&mut self) -> (ok: bool)
        requires
            old(self).wf(),
        ensures
            final(self).wf(),
            !final(self).spec_needs_reshuffle(),
    ;

    /// Rebuilds the shoe and removes low or high cards until the true count
    /// is as close to `tc_tenths` tenths as one removal allows.
    fn force_true_count(&mut self, tc_tenths: i32) -> (r: Result<(), ShoeError>)
        requires
            old(self).wf(),
            -100_000 <= tc_tenths <= 100_000,
        ensures
            final(self).wf(),
    ;

    /// Removes `rel_rc` low cards (positive) or high cards (negative)
    /// without reshuffling, to correct for externally fixed starting cards.
    fn adjust_running_count(&mut self, rel_rc: i32) -> (r: Result<(), ShoeError>)
        requires
            old(self).wf(),
            -1_000_000 <= rel_rc <= 1_000_000,
        ensures
            final(self).wf(),
    ;

    /// Whether the penetration threshold has been crossed.
    fn needs_reshuffle(&self) -> (r: bool)
        requires
            self.wf(),
        ensures
            r == self.spec_needs_reshuffle(),
    ;

    /// The Hi-Lo running count of the cards removed so far.
    fn running_count(&self) -> (r: i32)
        requires
            self.wf(),
        ensures
            -2_000_000 <= r <= 2_000_000,
    ;

    /// The exact true count: running count over decks left.
    fn true_count(&self) -> (r: TrueCount)
        requires
            self.wf(),
        ensures
            spec_tc_wf(r),
    ;
}

} // verus!
