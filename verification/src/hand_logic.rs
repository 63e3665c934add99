use vstd::prelude::*;
use crate::hand::{Hand, spec_busted, spec_value, spec_soft};
use crate::game_rules::DoublePolicy;

verus! {

/// The game outcome of a played hand.
#[derive(PartialEq, Eq, Structural, Debug, Copy, Clone)]
pub enum HandOutcome {
    /// The hand won, which includes naturals, busted dealer, and won insured
    /// hands that lost their insurance.
    Win,
    /// The hand was pushed, which includes an insured natural against one.
    Push,
    /// The hand lost, which includes surrendered hands and lost insured hands
    /// that won their insurance.
    Lose,
}

/// Outcome and settlement before doubling and insurance are applied, in
/// half-bet units: a plain win is +2, a natural +3, a surrender -1.
pub open spec fn spec_base_result(player: &Hand, dealer: &Hand) -> (HandOutcome, int) {
    if player.spec_surrendered() {
        (HandOutcome::Lose, -1int)
    } else if spec_busted(player.spec_cards()) {
        (HandOutcome::Lose, -2int)
    } else if player.spec_is_bj() && !dealer.spec_is_bj() {
        (HandOutcome::Win, 3int)
    } else if spec_busted(dealer.spec_cards()) {
        (HandOutcome::Win, 2int)
    } else {
        let player_val = spec_value(player.spec_cards())
            + if player.spec_is_bj() { 1int } else { 0int };
        let dealer_val = spec_value(dealer.spec_cards())
            + if dealer.spec_is_bj() { 1int } else { 0int };
        if player_val == dealer_val {
            (HandOutcome::Push, 0int)
        } else if player_val > dealer_val {
            (HandOutcome::Win, 2int)
        } else {
            (HandOutcome::Lose, -2int)
        }
    }
}

/// Full settlement of a played hand against the dealer, in half-bet units:
/// the base result is doubled for a doubled-down hand, then insurance adds
/// two half-bets when the dealer drew a natural and costs one otherwise.
pub open spec fn spec_hand_result(player: &Hand, dealer: &Hand) -> (HandOutcome, int) {
    let (outcome, base) = spec_base_result(player, dealer);
    let doubled = if player.spec_doubled() { 2 * base } else { base };
    let settled = if player.spec_insured() {
        if dealer.spec_is_bj() {
            doubled + 2
        } else {
            doubled - 1
        }
    } else {
        doubled
    };
    (outcome, settled)
}

/// Determines the result and outcome of a played hand against a given dealer.
///
/// The result is counted in half-bets of a normalized bet of one: a simple
/// win gives +2 (one bet), a simple loss -2, a won doubled-down hand +4, a
/// lost one -4, a natural +3 (three half-bets), a surrendered hand -1.
/// Insurance is also taken into account, adding +2 to the result if the
/// dealer received a blackjack, subtracting 1 if not.
pub fn hand_result(player: &Hand, dealer: &Hand) -> (r: (HandOutcome, i32))
    requires
        player.wf(),
        dealer.wf(),
    ensures
        r.0 == spec_hand_result(player, dealer).0,
        r.1 == spec_hand_result(player, dealer).1,
        -6 <= r.1 <= 6,
{
    let (outcome, base): (HandOutcome, i32) = if player.is_surrendered() {
        (HandOutcome::Lose, -1)
    } else if player.is_busted() {
        (HandOutcome::Lose, -2)
    } else if player.is_bj() && !dealer.is_bj() {
        (HandOutcome::Win, 3)
    } else if dealer.is_busted() {
        (HandOutcome::Win, 2)
    } else {
        let player_val: u16 = player.value() as u16 + if player.is_bj() { 1 } else { 0 };
        let dealer_val: u16 = dealer.value() as u16 + if dealer.is_bj() { 1 } else { 0 };
        if player_val == dealer_val {
            (HandOutcome::Push, 0)
        } else if player_val > dealer_val {
            (HandOutcome::Win, 2)
        } else {
            (HandOutcome::Lose, -2)
        }
    };

    let mut res: i32 = base;
    if player.is_doubled() {
        res = res * 2;
    }
    if player.is_insured() {
        if dealer.is_bj() {
            res = res + 2;
        } else {
            res = res - 1;
        }
    }

    (outcome, res)
}

/// Whether a player hand may double down under the given policy; a split
/// hand may only double when double-after-split is allowed.
pub open spec fn spec_may_double(policy: DoublePolicy, das: bool, hand: &Hand) -> bool {
    if hand.spec_split() && !das {
        false
    } else {
        match policy {
            DoublePolicy::AnyHand => true,
            DoublePolicy::AnyTwo => hand.spec_cards().len() == 2,
            DoublePolicy::Hard9To11 => !spec_soft(hand.spec_cards())
                && 9 <= spec_value(hand.spec_cards()) <= 11,
            DoublePolicy::Hard10To11 => !spec_soft(hand.spec_cards())
                && 10 <= spec_value(hand.spec_cards()) <= 11,
            DoublePolicy::NoDouble => false,
        }
    }
}

/// Determines whether a player hand can double down based on the game policy.
///
/// # Parameters
///
///  * `policy` - The policy in action concerning doubling down;
///  * `das`    - Whether double-after-split (DAS) is allowed or not;
///  * `hand`   - The player's hand.
pub fn may_double(policy: DoublePolicy, das: bool, hand: &Hand) -> (r: bool)
    requires
        hand.wf(),
    ensures
        r == spec_may_double(policy, das, hand),
{
    if hand.is_split() && !das {
        return false;
    }

    match policy {
        DoublePolicy::AnyHand => true,
        DoublePolicy::AnyTwo => hand.count() == 2,
        DoublePolicy::Hard9To11 => !hand.is_soft() && 9 <= hand.value() && hand.value() <= 11,
        DoublePolicy::Hard10To11 => !hand.is_soft() && 10 <= hand.value() && hand.value() <= 11,
        DoublePolicy::NoDouble => false,
    }
}

} // verus!
