//! One full round of blackjack, played end to end.
//!
//! The round deals every player hand and the dealer, runs the surrender and
//! insurance checks, resolves every player hand against the decision
//! engine (splitting recursively up to the split limit), plays the dealer
//! out, and settles every hand. Anything the game rules call fatal — a
//! shoe failure, an illegal double or split, a malformed strategy table —
//! ends the round with an error instead of a result.

use vstd::prelude::*;
use crate::card::Card;
use crate::game_rules::{GameRules, GameType, Soft17, SurrenderPolicy};
use crate::hand::{Hand, spec_busted, spec_value, spec_soft, spec_hard_sum, MAX_HAND_CARDS, all_valid, lemma_hard_sum_bounds};
use crate::hand_logic::{hand_result, may_double, spec_hand_result, spec_may_double};
use crate::hand_stats::{HandStats, spec_zero_stats, spec_update_stats, spec_stats_bounded};
use crate::strategy::{Strategy, GameContext, Decision, StrategyError, TrueCount, spec_tc_wf};
use crate::betting::{BettingStrategy, MAX_BET};
use crate::shoe::{CardShoe, ShoeError};
use vstd::multiset::Multiset;

verus! {

/// A fatal failure while playing a round: a game-rule contract was broken
/// or a collaborator failed. None of these are recoverable game events.
#[derive(PartialEq, Eq, Structural, Debug, Copy, Clone)]
pub enum RoundError {
    /// The shoe failed to produce a card.
    Shoe(ShoeError),
    /// The decision engine failed.
    Strategy(StrategyError),
    /// The decision engine asked to double down when it was not legal.
    DoubleForbidden,
    /// The decision engine asked to split when it was not legal.
    SplitForbidden,
    /// A hand was asked to take more cards than it can hold.
    HandOverflow,
    /// A hand was already busted when its turn came.
    UnplayableHand,
}

/// The outcome of one settled round: the per-player signed winnings, in
/// half-bet currency units, and the per-hand categorical statistics.
#[derive(Debug)]
pub struct RoundResult {
    /// Signed result per player seat, in half-units of currency: a player
    /// staking 10 and winning a natural is paid 30 half-units.
    pub player_results: Vec<i64>,
    pub hand_stats: HandStats,
}

/// The settlement statistics of the first `i` hands against the dealer.
pub open spec fn spec_settle_stats(hands: Seq<Hand>, dealer: &Hand, i: int) -> HandStats
    decreases i,
{
    if i <= 0 {
        spec_zero_stats()
    } else {
        spec_update_stats(
            spec_settle_stats(hands, dealer, i - 1),
            &hands[i - 1],
            spec_hand_result(&hands[i - 1], dealer).0,
        )
    }
}

/// The per-player winnings of the first `i` hands against the dealer, in
/// half-bet units: each hand adds its settlement times its stake to its
/// owner's seat.
pub open spec fn spec_settle_results(hands: Seq<Hand>, dealer: &Hand, i: int) -> Seq<int>
    decreases i,
{
    if i <= 0 {
        Seq::new(7, |k: int| 0int)
    } else {
        let prev = spec_settle_results(hands, dealer, i - 1);
        let h = hands[i - 1];
        let id = h.spec_id() as int;
        prev.update(id, prev[id] + spec_hand_result(&hands[i - 1], dealer).1 * h.spec_bet())
    }
}

/// The per-player winnings fold always describes the seven seats.
pub proof fn lemma_settle_results_len(hands: Seq<Hand>, dealer: &Hand, i: int)
    requires
        forall|k: int| 0 <= k < i ==> 0 <= (#[trigger] hands[k]).spec_id() < 7,
    ensures
        spec_settle_results(hands, dealer, i).len() == 7,
    decreases i,
{
    if i > 0 {
        lemma_settle_results_len(hands, dealer, i - 1);
    }
}

/// The decision context the engine hands the strategy for hand `h` when
/// the owner already holds `count` hands and the shoe reports `tc`:
/// splitting is legal for a two-card equal-rank pair below the split limit,
/// doubling per the double-down policy.
pub open spec fn spec_turn_context(
    rules: GameRules,
    count: int,
    h: &Hand,
    tc: TrueCount,
    hc: Option<Card>,
) -> GameContext {
    GameContext {
        rules,
        may_split: count < rules.max_splits && h.spec_cards().len() == 2
            && h.spec_cards()[0] == h.spec_cards()[1],
        may_double: spec_may_double(rules.double_down, rules.das, h),
        true_count: tc,
        holecard: hc,
    }
}

/// An illegal double was asked for: some hand that may not double down was
/// told to double, by the forced first action or by the strategy at an
/// engine-built context.
pub open spec fn spec_double_fault<S: Strategy>(
    strategy: &S,
    rules: GameRules,
    up: Card,
    ov: Option<Decision>,
) -> bool {
    ||| ov == Some(Decision::Double)
    ||| exists|tc: TrueCount, h: Hand, count: int, hc: Option<Card>|
        {
            &&& spec_tc_wf(tc)
            &&& h.wf()
            &&& !spec_may_double(rules.double_down, rules.das, &h)
            &&& strategy.spec_turn(#[trigger] spec_turn_context(rules, count, &h, tc, hc), up, &h)
                == Ok::<Decision, StrategyError>(Decision::Double)
        }
}

/// An illegal split was asked for: some hand that is not a splittable pair
/// under the split limit was told to split, by the forced first action or
/// by the strategy at an engine-built context.
pub open spec fn spec_split_fault<S: Strategy>(
    strategy: &S,
    rules: GameRules,
    up: Card,
    ov: Option<Decision>,
) -> bool {
    ||| ov == Some(Decision::Split)
    ||| exists|tc: TrueCount, h: Hand, count: int, hc: Option<Card>|
        {
            &&& spec_tc_wf(tc)
            &&& h.wf()
            &&& !(count < rules.max_splits && h.spec_cards().len() == 2
                && h.spec_cards()[0] == h.spec_cards()[1])
            &&& strategy.spec_turn(#[trigger] spec_turn_context(rules, count, &h, tc, hc), up, &h)
                == Ok::<Decision, StrategyError>(Decision::Split)
        }
}


/// `h2` is `h` with one more card and nothing else changed.
pub open spec fn spec_hand_after_hit(h: &Hand, c: Card, h2: &Hand) -> bool {
    &&& h2.wf()
    &&& c.valid()
    &&& h2.spec_cards() == h.spec_cards().push(c)
    &&& h2.spec_id() == h.spec_id()
    &&& h2.spec_bet() == h.spec_bet()
    &&& h2.spec_doubled() == h.spec_doubled()
    &&& h2.spec_split() == h.spec_split()
    &&& h2.spec_surrendered() == h.spec_surrendered()
    &&& h2.spec_insured() == h.spec_insured()
}

/// `h2` is `h` with one more card and the doubled flag set.
pub open spec fn spec_hand_after_double(h: &Hand, c: Card, h2: &Hand) -> bool {
    &&& h2.wf()
    &&& c.valid()
    &&& h2.spec_cards() == h.spec_cards().push(c)
    &&& h2.spec_id() == h.spec_id()
    &&& h2.spec_bet() == h.spec_bet()
    &&& h2.spec_doubled()
    &&& h2.spec_split() == h.spec_split()
    &&& h2.spec_surrendered() == h.spec_surrendered()
    &&& h2.spec_insured() == h.spec_insured()
}

/// `h2` is one of the two hands split off `h`: the shared first card plus
/// one fresh card, the same seat and stake, marked split, nothing else set.
pub open spec fn spec_split_child(h: &Hand, c: Card, h2: &Hand) -> bool {
    &&& h2.wf()
    &&& c.valid()
    &&& h.spec_cards().len() == 2
    &&& h2.spec_cards() == seq![h.spec_cards()[0], c]
    &&& h2.spec_id() == h.spec_id()
    &&& h2.spec_bet() == h.spec_bet()
    &&& h2.spec_split()
    &&& !h2.spec_doubled()
    &&& !h2.spec_surrendered()
    &&& !h2.spec_insured()
}

/// `h` is reachable from `h0` by `k` strategy-endorsed hits, none of which
/// busted the hand.
pub open spec fn spec_hits<S: Strategy>(
    k: nat,
    strategy: &S,
    rules: GameRules,
    up: Card,
    hc: Option<Card>,
    h0: Hand,
    splits: int,
    h: Hand,
) -> bool
    decreases k,
{
    if k == 0 {
        h == h0
    } else {
        exists|hprev: Hand, tc: TrueCount, c: Card|
            {
                &&& spec_hits((k - 1) as nat, strategy, rules, up, hc, h0, splits, hprev)
                &&& spec_tc_wf(tc)
                &&& strategy.spec_turn(
                    #[trigger] spec_turn_context(rules, splits, &hprev, tc, hc), up, &hprev)
                    == Ok::<Decision, StrategyError>(Decision::Hit)
                &&& #[trigger] spec_hand_after_hit(&hprev, c, &h)
                &&& !spec_busted(h.spec_cards())
            }
    }
}


/// How a resolved hand concluded when no forced first action was pending:
/// after zero or more strategy-endorsed hits, the hand at the seat either
/// stood as told, busted on a told hit, doubled as told on exactly one more
/// card, or was split as told while it was a legal two-card pair — and
/// only a split grows the table or the owner's hand counter.
pub open spec fn spec_turn_outcome<S: Strategy>(
    strategy: &S,
    rules: GameRules,
    up: Card,
    hc: Option<Card>,
    h0: Hand,
    splits0: int,
    h_end: Hand,
    len_grew: bool,
    splits1: int,
) -> bool {
    ||| ((exists|k: nat, tc: TrueCount|
        #[trigger] spec_hits(k, strategy, rules, up, hc, h0, splits0, h_end)
        && spec_tc_wf(tc)
        && strategy.spec_turn(
            #[trigger] spec_turn_context(rules, splits0, &h_end, tc, hc), up, &h_end)
            == Ok::<Decision, StrategyError>(Decision::Stand))
        && !len_grew && splits1 == splits0)
    ||| ((exists|k: nat, tc: TrueCount, c: Card, hprev: Hand|
        #[trigger] spec_hits(k, strategy, rules, up, hc, h0, splits0, hprev)
        && spec_tc_wf(tc)
        && strategy.spec_turn(
            #[trigger] spec_turn_context(rules, splits0, &hprev, tc, hc), up, &hprev)
            == Ok::<Decision, StrategyError>(Decision::Hit)
        && #[trigger] spec_hand_after_hit(&hprev, c, &h_end)
        && spec_busted(h_end.spec_cards()))
        && !len_grew && splits1 == splits0)
    ||| ((exists|k: nat, tc: TrueCount, c: Card, hprev: Hand|
        #[trigger] spec_hits(k, strategy, rules, up, hc, h0, splits0, hprev)
        && spec_tc_wf(tc)
        && strategy.spec_turn(
            #[trigger] spec_turn_context(rules, splits0, &hprev, tc, hc), up, &hprev)
            == Ok::<Decision, StrategyError>(Decision::Double)
        && spec_may_double(rules.double_down, rules.das, &hprev)
        && #[trigger] spec_hand_after_double(&hprev, c, &h_end))
        && !len_grew && splits1 == splits0)
    ||| ((exists|k: nat, tc: TrueCount, hprev: Hand|
        #[trigger] spec_hits(k, strategy, rules, up, hc, h0, splits0, hprev)
        && spec_tc_wf(tc)
        && strategy.spec_turn(
            #[trigger] spec_turn_context(rules, splits0, &hprev, tc, hc), up, &hprev)
            == Ok::<Decision, StrategyError>(Decision::Split)
        && hprev.spec_cards().len() == 2
        && hprev.spec_cards()[0] == hprev.spec_cards()[1]
        && splits0 < rules.max_splits)
        && len_grew && splits1 > splits0)
}

/// Between the deal and its turn every hand still holds exactly its dealt
/// cards, has not doubled or split, and carries the stake placed at the
/// deal.
pub open spec fn spec_dealt(h: Hand, deal_len: int, bet0: int) -> bool {
    &&& h.spec_cards().len() == deal_len
    &&& !h.spec_doubled()
    &&& !h.spec_split()
    &&& h.spec_bet() == bet0
}

/// One round of blackjack for one or more player hands against one dealer.
pub struct Round {
    rules: GameRules,
    num_players: u8,
    holecarding: bool,
    override_action: Option<Decision>,
    surrender_override: Option<bool>,
    start_cards: Vec<Card>,
    dealer_cards: Vec<Card>,
    dealer_next: usize,
    context: GameContext,
    dealer: Hand,
    hands: Vec<Hand>,
    hands_per_player: Vec<u32>,
}

impl Round {
    pub closed spec fn spec_hands(&self) -> Seq<Hand> {
        self.hands@
    }

    pub closed spec fn spec_dealer(&self) -> Hand {
        self.dealer
    }

    pub closed spec fn spec_rules(&self) -> GameRules {
        self.rules
    }

    pub closed spec fn spec_num_players(&self) -> int {
        self.num_players as int
    }

    pub closed spec fn spec_splits(&self) -> int {
        self.hands_per_player@[0] as int
    }

    pub closed spec fn spec_override(&self) -> Option<Decision> {
        self.override_action
    }

    pub closed spec fn spec_holecard(&self) -> Option<Card> {
        self.context.holecard
    }

    pub closed spec fn spec_start_cards(&self) -> Seq<Card> {
        self.start_cards@
    }

    /// Every hand is well formed with a bounded stake and belongs to seat
    /// zero, the dealer is well formed, the split counter matches the
    /// number of hands in play and respects the split limit.
    pub closed spec fn wf(&self) -> bool {
        &&& 1 <= self.num_players <= 7
        &&& self.rules.max_splits <= 1000
        &&& self.dealer.wf()
        &&& self.hands_per_player@.len() == 7
        &&& forall|k: int| 0 <= k < self.hands@.len() ==> {
            &&& (#[trigger] self.hands@[k]).wf()
            &&& self.hands@[k].spec_id() == 0
            &&& 0 <= self.hands@[k].spec_bet() <= MAX_BET
        }
        &&& forall|k: int| 0 <= k < 7
            ==> 1 <= #[trigger] self.hands_per_player@[k]
                <= (if self.rules.max_splits >= 1 { self.rules.max_splits as int } else { 1 })
        &&& self.hands@.len() == self.num_players + self.hands_per_player@[0] - 1
        &&& all_valid(self.start_cards@)
        &&& all_valid(self.dealer_cards@)
        &&& self.dealer_next <= self.dealer_cards@.len()
        &&& self.rules == self.context.rules
        &&& spec_tc_wf(self.context.true_count)
    }

    /// Sets up a round: each of the `num_players` seats gets one fresh
    /// hand. Forced starting cards for the players and the dealer may be
    /// supplied for deterministic play; an unconditional surrender override
    /// cannot be combined with a forced first action.
    pub fn new(
        rules: GameRules,
        num_players: u8,
        holecarding: bool,
        override_action: Option<Decision>,
        surrender_override: Option<bool>,
        start_cards: Vec<Card>,
        dealer_cards: Vec<Card>,
    ) -> (r: Round)
        requires
            1 <= num_players <= 7,
            rules.max_splits <= 1000,
            !(surrender_override == Some(true) && override_action is Some),
            all_valid(start_cards@),
            all_valid(dealer_cards@),
        ensures
            r.wf(),
            r.spec_rules() == rules,
            r.spec_num_players() == num_players,
            r.spec_hands().len() == num_players,
            r.spec_dealer().spec_cards().len() == 0,
            forall|k: int| 0 <= k < num_players ==> {
                &&& (#[trigger] r.spec_hands()[k]).spec_cards().len() == 0
                &&& r.spec_hands()[k].spec_id() == 0
                &&& r.spec_hands()[k].spec_bet() == 1
                &&& !r.spec_hands()[k].spec_surrendered()
                &&& !r.spec_hands()[k].spec_doubled()
                &&& !r.spec_hands()[k].spec_split()
                &&& !r.spec_hands()[k].spec_insured()
            },
    {
        let mut hands: Vec<Hand> = Vec::new();
        let mut i: u8 = 0;
        while i < num_players
            invariant
                i <= num_players,
                hands@.len() == i,
                forall|k: int| 0 <= k < i ==> {
                    &&& (#[trigger] hands@[k]).wf()
                    &&& hands@[k].spec_id() == 0
                    &&& hands@[k].spec_bet() == 1
                    &&& hands@[k].spec_cards().len() == 0
                    &&& !hands@[k].spec_surrendered()
                    &&& !hands@[k].spec_doubled()
                    &&& !hands@[k].spec_split()
                    &&& !hands@[k].spec_insured()
                },
            decreases num_players - i,
        {
            hands.push(Hand::new());
            i = i + 1;
        }

        let mut hands_per_player: Vec<u32> = Vec::new();
        let mut j: usize = 0;
        while j < 7
            invariant
                j <= 7,
                hands_per_player@.len() == j,
                forall|k: int| 0 <= k < j ==> #[trigger] hands_per_player@[k] == 1,
            decreases 7 - j,
        {
            hands_per_player.push(1);
            j = j + 1;
        }

        Round {
            rules,
            num_players,
            holecarding,
            override_action,
            surrender_override,
            start_cards,
            dealer_cards,
            dealer_next: 0,
            context: GameContext {
                rules,
                may_split: false,
                may_double: false,
                true_count: TrueCount::zero(),
                holecard: None,
            },
            dealer: Hand::new(),
            hands,
            hands_per_player,
        }
    }

    /// Deals the dealer one card: the next forced dealer card if any is
    /// left, otherwise the next card from the shoe.
    fn dealer_pick<Sh: CardShoe>(&mut self, shoe: &mut Sh) -> (r: Result<(), RoundError>)
        requires
            old(self).wf(),
            old(shoe).wf(),
        ensures
            final(self).wf(),
            final(shoe).wf(),
            final(self).spec_hands() == old(self).spec_hands(),
            final(self).spec_rules() == old(self).spec_rules(),
            final(self).spec_num_players() == old(self).spec_num_players(),
            final(self).spec_splits() == old(self).spec_splits(),
            final(self).spec_override() == old(self).spec_override(),
            final(self).spec_start_cards() == old(self).spec_start_cards(),
            final(self).context == old(self).context,
            r is Ok ==> final(self).spec_dealer().spec_cards().len()
                == old(self).spec_dealer().spec_cards().len() + 1,
            r is Ok ==> exists|c: Card| c.valid() && final(self).spec_dealer().spec_cards()
                == old(self).spec_dealer().spec_cards().push(c),
            r == Err::<(), RoundError>(RoundError::HandOverflow)
                ==> final(self).spec_dealer().spec_cards().len() >= MAX_HAND_CARDS,
            r is Err ==> (r matches Err(RoundError::Shoe(_))
                || r == Err::<(), RoundError>(RoundError::HandOverflow)),
            final(self).spec_dealer().spec_cards().len()
                >= old(self).spec_dealer().spec_cards().len(),
            forall|i: int| 0 <= i < old(self).spec_dealer().spec_cards().len()
                ==> final(self).spec_dealer().spec_cards()[i]
                == old(self).spec_dealer().spec_cards()[i],
    {
        let card = if self.dealer_next < self.dealer_cards.len() {
            let want = self.dealer_cards[self.dealer_next];
            self.dealer_next = self.dealer_next + 1;
            match shoe.pick_first(want) {
                Ok(c) => c,
                Err(e) => {
                    return Err(RoundError::Shoe(e));
                },
            }
        } else {
            match shoe.pick() {
                Ok(c) => c,
                Err(e) => {
                    return Err(RoundError::Shoe(e));
                },
            }
        };
        if self.dealer.count() >= MAX_HAND_CARDS {
            return Err(RoundError::HandOverflow);
        }
        self.dealer.add(card);
        Ok(())
    }

    /// How many more splits this round may still perform.
    pub closed spec fn spec_budget(&self) -> int {
        if self.rules.max_splits >= self.hands_per_player@[0] {
            self.rules.max_splits - self.hands_per_player@[0]
        } else {
            0
        }
    }

    /// Offers every still-unsurrendered hand its surrender verdict, or
    /// surrenders all of them when the override says so.
    fn check_surrender<S: Strategy>(&mut self, strategy: &S, is_early: bool) -> (r: Result<
        (),
        RoundError,
    >)
        requires
            old(self).wf(),
            strategy.wf(),
            old(self).spec_dealer().spec_cards().len() >= 1,
            forall|k: int| 0 <= k < old(self).spec_hands().len() ==> {
                &&& !(#[trigger] old(self).spec_hands()[k]).spec_split()
                &&& !old(self).spec_hands()[k].spec_doubled()
                &&& !old(self).spec_hands()[k].spec_surrendered()
                &&& old(self).spec_hands()[k].spec_cards().len() >= 2
            },
        ensures
            final(self).spec_override() == old(self).spec_override(),
            r is Err ==> r == Err::<(), RoundError>(RoundError::UnplayableHand),
            r is Err ==> exists|h: Hand| (#[trigger] h.wf()) && spec_busted(h.spec_cards()),
            final(self).wf(),
            final(self).spec_dealer() == old(self).spec_dealer(),
            final(self).spec_rules() == old(self).spec_rules(),
            final(self).spec_num_players() == old(self).spec_num_players(),
            final(self).spec_splits() == old(self).spec_splits(),
            final(self).spec_hands().len() == old(self).spec_hands().len(),
            forall|k: int| 0 <= k < old(self).spec_hands().len() ==> {
                let h0 = old(self).spec_hands()[k];
                let h1 = #[trigger] final(self).spec_hands()[k];
                &&& h1.spec_cards() == h0.spec_cards()
                &&& h1.spec_id() == h0.spec_id()
                &&& h1.spec_bet() == h0.spec_bet()
                &&& !h1.spec_split()
                &&& !h1.spec_doubled()
                &&& h1.spec_insured() == h0.spec_insured()
            },
    {
        if self.surrender_override == Some(false) {
            return Ok(());
        }

        if self.surrender_override == Some(true) {
            let n = self.hands.len();
            let mut k: usize = 0;
            while k < n
                invariant
                    k <= n == self.hands@.len(),
                    n == old(self).spec_hands().len(),
                    self.wf(),
                    self.spec_override() == old(self).spec_override(),
                    self.spec_dealer() == old(self).spec_dealer(),
                    self.spec_rules() == old(self).spec_rules(),
                    self.spec_num_players() == old(self).spec_num_players(),
                    self.spec_splits() == old(self).spec_splits(),
                    forall|j: int| 0 <= j < n ==> {
                        let h0 = old(self).spec_hands()[j];
                        let h1 = #[trigger] self.spec_hands()[j];
                        &&& h1.spec_cards() == h0.spec_cards()
                        &&& h1.spec_id() == h0.spec_id()
                        &&& h1.spec_bet() == h0.spec_bet()
                        &&& !h1.spec_split()
                        &&& !h1.spec_doubled()
                        &&& h1.spec_insured() == h0.spec_insured()
                        &&& (j >= k ==> !h1.spec_surrendered())
                    },
                decreases n - k,
            {
                proof {
                    assert(!self.spec_hands()[k as int].spec_surrendered());
                    assert(self.spec_hands()[k as int] == self.hands@[k as int]);
                }
                self.hands[k].surrender();
                k = k + 1;
            }
            return Ok(());
        }

        let n = self.hands.len();
        let mut k: usize = 0;
        while k < n
            invariant
                k <= n == self.hands@.len(),
                n == old(self).spec_hands().len(),
                self.wf(),
                strategy.wf(),
                self.spec_override() == old(self).spec_override(),
                forall|j: int| 0 <= j < n ==> {
                    &&& !(#[trigger] old(self).spec_hands()[j]).spec_split()
                    &&& !old(self).spec_hands()[j].spec_doubled()
                    &&& !old(self).spec_hands()[j].spec_surrendered()
                    &&& old(self).spec_hands()[j].spec_cards().len() >= 2
                },
                self.spec_dealer() == old(self).spec_dealer(),
                self.spec_dealer().spec_cards().len() >= 1,
                self.spec_rules() == old(self).spec_rules(),
                self.spec_num_players() == old(self).spec_num_players(),
                self.spec_splits() == old(self).spec_splits(),
                forall|j: int| 0 <= j < n ==> {
                    let h0 = old(self).spec_hands()[j];
                    let h1 = #[trigger] self.spec_hands()[j];
                    &&& h1.spec_cards() == h0.spec_cards()
                    &&& h1.spec_id() == h0.spec_id()
                    &&& h1.spec_bet() == h0.spec_bet()
                    &&& !h1.spec_split()
                    &&& !h1.spec_doubled()
                    &&& h1.spec_insured() == h0.spec_insured()
                    &&& (j >= k ==> !h1.spec_surrendered())
                },
            decreases n - k,
        {
            let surrendered = self.hands[k].is_surrendered();
            if !surrendered {
                if self.hands[k].is_busted() {
                    proof {
                        assert(self.spec_hands()[k as int].wf());
                    }
                    return Err(RoundError::UnplayableHand);
                }
                proof {
                    self.dealer.lemma_wf();
                    assert(!(old(self).spec_hands()[k as int]).spec_split());
                    assert(old(self).spec_hands()[k as int].spec_cards().len() >= 2);
                    assert(self.spec_hands()[k as int].spec_cards()
                        == old(self).spec_hands()[k as int].spec_cards());
                }
                let up = self.dealer.card(0);
                let verdict = strategy.surrender(&self.context, up, &self.hands[k], is_early);
                if verdict {
                    proof {
                        assert(self.spec_hands()[k as int] == self.hands@[k as int]);
                        assert(!self.spec_hands()[k as int].spec_split());
                        assert(!self.spec_hands()[k as int].spec_doubled());
                        assert(!self.spec_hands()[k as int].spec_surrendered());
                    }
                    self.hands[k].surrender();
                }
            }
            k = k + 1;
        }
        Ok(())
    }

    /// Resolves one player hand: hit, stand, double or split as the
    /// decision engine (or the forced first action) directs. A split
    /// replaces the hand with two fresh two-card hands carrying the same
    /// stake and plays both out recursively, unless a freshly split ace
    /// pair must stand as dealt. Doubling or splitting when illegal is a
    /// strategy-contract violation and fatal. On success the seat's hand
    /// concluded on a strategy-endorsed decision after endorsed hits
    /// (`spec_turn_outcome`), every appended hand is a split hand rooted at
    /// the pair rank with the original stake, and no hand gains or loses a
    /// surrender along the way.
    fn do_player_turn<S: Strategy, Sh: CardShoe>(
        &mut self,
        i: usize,
        strategy: &S,
        shoe: &mut Sh,
    ) -> (r: Result<(), RoundError>)
        requires
            old(self).wf(),
            strategy.wf(),
            old(shoe).wf(),
            i < old(self).spec_hands().len(),
            !spec_busted(old(self).spec_hands()[i as int].spec_cards()),
            old(self).spec_hands()[i as int].spec_cards().len() >= 2,
            !old(self).spec_hands()[i as int].spec_surrendered(),
            !old(self).spec_hands()[i as int].spec_doubled(),
            old(self).spec_dealer().spec_cards().len() >= 1,
        ensures
            final(self).wf(),
            final(shoe).wf(),
            final(self).spec_dealer() == old(self).spec_dealer(),
            final(self).spec_rules() == old(self).spec_rules(),
            final(self).spec_num_players() == old(self).spec_num_players(),
            final(self).spec_hands().len() >= old(self).spec_hands().len(),
            final(self).spec_splits() >= old(self).spec_splits(),
            forall|j: int| 0 <= j < old(self).spec_hands().len() && j != i
                ==> #[trigger] final(self).spec_hands()[j] == old(self).spec_hands()[j],
            final(self).spec_override() == old(self).spec_override()
                || final(self).spec_override() is None,
            forall|j: int| 0 <= j < final(self).spec_hands().len()
                ==> ((#[trigger] final(self).spec_hands()[j]).spec_surrendered()
                <==> (0 <= j < old(self).spec_hands().len() && j != i
                && old(self).spec_hands()[j].spec_surrendered())),
            r == Err::<(), RoundError>(RoundError::DoubleForbidden) ==> spec_double_fault(
                strategy,
                old(self).spec_rules(),
                old(self).spec_dealer().spec_cards()[0],
                old(self).spec_override(),
            ),
            r == Err::<(), RoundError>(RoundError::SplitForbidden) ==> spec_split_fault(
                strategy,
                old(self).spec_rules(),
                old(self).spec_dealer().spec_cards()[0],
                old(self).spec_override(),
            ),
            r == Err::<(), RoundError>(RoundError::HandOverflow) ==> exists|h: Hand|
                (#[trigger] h.wf()) && h.spec_cards().len() >= MAX_HAND_CARDS,
            r != Err::<(), RoundError>(RoundError::UnplayableHand),
            forall|j: int| 0 <= j < final(self).spec_hands().len()
                ==> (#[trigger] final(self).spec_hands()[j]).spec_bet()
                == (if 0 <= j < old(self).spec_hands().len() && j != i {
                    old(self).spec_hands()[j].spec_bet()
                } else {
                    old(self).spec_hands()[i as int].spec_bet()
                }),
            r is Ok && old(self).spec_override() is None ==> spec_turn_outcome(
                strategy,
                old(self).spec_rules(),
                old(self).spec_dealer().spec_cards()[0],
                old(self).spec_holecard(),
                old(self).spec_hands()[i as int],
                old(self).spec_splits(),
                final(self).spec_hands()[i as int],
                final(self).spec_hands().len() > old(self).spec_hands().len(),
                final(self).spec_splits(),
            ),
            final(self).spec_hands()[i as int].spec_cards().len() >= 2,
            final(self).spec_hands()[i as int].spec_cards()[0]
                == old(self).spec_hands()[i as int].spec_cards()[0],
            old(self).spec_hands()[i as int].spec_split()
                ==> final(self).spec_hands()[i as int].spec_split(),
            forall|j: int| old(self).spec_hands().len() <= j < final(self).spec_hands().len()
                ==> {
                let h = #[trigger] final(self).spec_hands()[j];
                &&& h.spec_split()
                &&& h.spec_cards().len() >= 2
                &&& h.spec_cards()[0] == old(self).spec_hands()[i as int].spec_cards()[0]
            },
        decreases old(self).spec_budget(), 1int, 0int,
    {
        proof {
            if old(self).spec_override() is None {
                assert(spec_hits(
                    0nat,
                    strategy,
                    old(self).spec_rules(),
                    old(self).spec_dealer().spec_cards()[0],
                    old(self).spec_holecard(),
                    old(self).spec_hands()[i as int],
                    old(self).spec_splits(),
                    old(self).spec_hands()[i as int],
                ));
            }
        }
        loop
            invariant
                self.wf(),
                strategy.wf(),
                shoe.wf(),
                i < self.spec_hands().len(),
                self.spec_hands().len() == old(self).spec_hands().len(),
                self.spec_splits() == old(self).spec_splits(),
                self.spec_budget() == old(self).spec_budget(),
                self.spec_dealer() == old(self).spec_dealer(),
                self.spec_dealer().spec_cards().len() >= 1,
                self.spec_rules() == old(self).spec_rules(),
                self.spec_num_players() == old(self).spec_num_players(),
                !spec_busted(self.spec_hands()[i as int].spec_cards()),
                self.spec_hands()[i as int].spec_cards().len() >= 2,
                !self.spec_hands()[i as int].spec_surrendered(),
                !self.spec_hands()[i as int].spec_doubled(),
                self.spec_override() == old(self).spec_override()
                    || self.spec_override() is None,
                self.spec_holecard() == old(self).spec_holecard(),
                self.spec_hands()[i as int].spec_bet()
                    == old(self).spec_hands()[i as int].spec_bet(),
                self.spec_hands()[i as int].spec_cards()[0]
                    == old(self).spec_hands()[i as int].spec_cards()[0],
                old(self).spec_hands()[i as int].spec_split()
                    ==> self.spec_hands()[i as int].spec_split(),
                old(self).spec_override() is None ==> exists|k: nat| #[trigger] spec_hits(
                    k,
                    strategy,
                    old(self).spec_rules(),
                    old(self).spec_dealer().spec_cards()[0],
                    old(self).spec_holecard(),
                    old(self).spec_hands()[i as int],
                    old(self).spec_splits(),
                    self.spec_hands()[i as int],
                ),
                forall|j: int| 0 <= j < old(self).spec_hands().len() && j != i
                    ==> #[trigger] self.spec_hands()[j] == old(self).spec_hands()[j],
            decreases 21 - spec_hard_sum(self.spec_hands()[i as int].spec_cards()),
        {
            proof {
                self.hands@[i as int].lemma_wf();
                self.dealer.lemma_wf();
            }
            let id = self.hands[i].get_id();
            let hands_count = self.hands_per_player[id as usize];
            self.context.may_split = hands_count < self.rules.max_splits
                && self.hands[i].count() == 2
                && self.hands[i].card(0) == self.hands[i].card(1);
            self.context.may_double = may_double(
                self.rules.double_down,
                self.rules.das,
                &self.hands[i],
            );
            self.context.true_count = shoe.true_count();

            let ghost mut from_override: bool = false;
            let decision: Decision = match self.override_action {
                Some(action) => {
                    if action == Decision::Split && !self.context.may_split {
                        proof {
                            assert(old(self).spec_override() == Some(Decision::Split));
                        }
                        return Err(RoundError::SplitForbidden);
                    }
                    proof {
                        from_override = true;
                        assert(old(self).spec_override() == Some(action));
                    }
                    self.override_action = None;
                    action
                },
                None => {
                    match strategy.player_turn(&self.context, self.dealer.card(0), &self.hands[i]) {
                        Ok(d) => d,
                        Err(e) => {
                            return Err(RoundError::Strategy(e));
                        },
                    }
                },
            };
            proof {
                let h = self.spec_hands()[i as int];
                let tc = self.context.true_count;
                let hc = self.context.holecard;
                let count = self.spec_splits();
                assert(self.context == spec_turn_context(self.spec_rules(), count, &h, tc, hc));
                if from_override {
                    assert(old(self).spec_override() == Some(decision));
                } else {
                    assert(strategy.spec_turn(
                        spec_turn_context(old(self).spec_rules(), count, &h, tc, hc),
                        old(self).spec_dealer().spec_cards()[0],
                        &h,
                    ) == Ok::<Decision, StrategyError>(decision));
                }
            }

            match decision {
                Decision::Stand => {
                    proof {
                        if old(self).spec_override() is None {
                            assert(!from_override);
                            let h_end = self.spec_hands()[i as int];
                            let tc = self.context.true_count;
                            assert(spec_tc_wf(tc));
                            assert(strategy.spec_turn(
                                spec_turn_context(
                                    old(self).spec_rules(),
                                    old(self).spec_splits(),
                                    &h_end,
                                    tc,
                                    old(self).spec_holecard(),
                                ),
                                old(self).spec_dealer().spec_cards()[0],
                                &h_end,
                            ) == Ok::<Decision, StrategyError>(Decision::Stand));
                        }
                    }
                    return Ok(());
                },
                Decision::Hit => {
                    let card = match shoe.pick() {
                        Ok(c) => c,
                        Err(e) => {
                            return Err(RoundError::Shoe(e));
                        },
                    };
                    if self.hands[i].count() >= MAX_HAND_CARDS {
                        proof {
                            assert(self.spec_hands()[i as int].wf());
                        }
                        return Err(RoundError::HandOverflow);
                    }
                    let ghost hprev = self.spec_hands()[i as int];
                    let ghost tcv = self.context.true_count;
                    proof {
                        let s = self.spec_hands()[i as int].spec_cards();
                        assert(s.push(card).drop_last() =~= s);
                    }
                    self.hands[i].add(card);
                    proof {
                        if old(self).spec_override() is None {
                            assert(!from_override);
                            let h2 = self.spec_hands()[i as int];
                            assert(spec_hand_after_hit(&hprev, card, &h2));
                            assert(spec_tc_wf(tcv));
                            assert(strategy.spec_turn(
                                spec_turn_context(
                                    old(self).spec_rules(),
                                    old(self).spec_splits(),
                                    &hprev,
                                    tcv,
                                    old(self).spec_holecard(),
                                ),
                                old(self).spec_dealer().spec_cards()[0],
                                &hprev,
                            ) == Ok::<Decision, StrategyError>(Decision::Hit));
                            if !spec_busted(h2.spec_cards()) {
                                let k = choose|k: nat| #[trigger] spec_hits(
                                    k,
                                    strategy,
                                    old(self).spec_rules(),
                                    old(self).spec_dealer().spec_cards()[0],
                                    old(self).spec_holecard(),
                                    old(self).spec_hands()[i as int],
                                    old(self).spec_splits(),
                                    hprev,
                                );
                                assert(spec_hits(
                                    (k + 1) as nat,
                                    strategy,
                                    old(self).spec_rules(),
                                    old(self).spec_dealer().spec_cards()[0],
                                    old(self).spec_holecard(),
                                    old(self).spec_hands()[i as int],
                                    old(self).spec_splits(),
                                    h2,
                                ));
                            }
                        }
                    }
                    if self.hands[i].is_busted() {
                        return Ok(());
                    }
                },
                Decision::Double => {
                    if !self.context.may_double {
                        proof {
                            if !from_override {
                                let h = self.spec_hands()[i as int];
                                let tc = self.context.true_count;
                                let hc = self.context.holecard;
                                let count = self.spec_splits();
                                assert(spec_tc_wf(tc) && h.wf());
                                assert(strategy.spec_turn(
                                    spec_turn_context(old(self).spec_rules(), count, &h, tc, hc),
                                    old(self).spec_dealer().spec_cards()[0],
                                    &h,
                                ) == Ok::<Decision, StrategyError>(Decision::Double));
                            }
                        }
                        return Err(RoundError::DoubleForbidden);
                    }
                    let card = match shoe.pick() {
                        Ok(c) => c,
                        Err(e) => {
                            return Err(RoundError::Shoe(e));
                        },
                    };
                    if self.hands[i].count() >= MAX_HAND_CARDS {
                        proof {
                            assert(self.spec_hands()[i as int].wf());
                        }
                        return Err(RoundError::HandOverflow);
                    }
                    let ghost hprev = self.spec_hands()[i as int];
                    let ghost tcv = self.context.true_count;
                    self.hands[i].add(card);
                    self.hands[i].double_down();
                    proof {
                        if old(self).spec_override() is None {
                            assert(!from_override);
                            let h2 = self.spec_hands()[i as int];
                            assert(spec_hand_after_double(&hprev, card, &h2));
                            assert(spec_tc_wf(tcv));
                            assert(spec_may_double(
                                old(self).spec_rules().double_down,
                                old(self).spec_rules().das,
                                &hprev,
                            ));
                            assert(strategy.spec_turn(
                                spec_turn_context(
                                    old(self).spec_rules(),
                                    old(self).spec_splits(),
                                    &hprev,
                                    tcv,
                                    old(self).spec_holecard(),
                                ),
                                old(self).spec_dealer().spec_cards()[0],
                                &hprev,
                            ) == Ok::<Decision, StrategyError>(Decision::Double));
                        }
                    }
                    return Ok(());
                },
                Decision::Split => {
                    if !self.context.may_split {
                        proof {
                            if !from_override {
                                let h = self.spec_hands()[i as int];
                                let tc = self.context.true_count;
                                let hc = self.context.holecard;
                                let count = self.spec_splits();
                                assert(spec_tc_wf(tc) && h.wf());
                                assert(strategy.spec_turn(
                                    spec_turn_context(old(self).spec_rules(), count, &h, tc, hc),
                                    old(self).spec_dealer().spec_cards()[0],
                                    &h,
                                ) == Ok::<Decision, StrategyError>(Decision::Split));
                            }
                        }
                        return Err(RoundError::SplitForbidden);
                    }
                    let bet = self.hands[i].get_bet();
                    let common = self.hands[i].card(0);
                    let ghost hsplit = self.spec_hands()[i as int];
                    let ghost tcv = self.context.true_count;
                    proof {
                        assert(common.valid());
                        if old(self).spec_override() is None {
                            assert(!from_override);
                            assert(spec_tc_wf(tcv));
                            assert(hsplit.spec_cards().len() == 2);
                            assert(hsplit.spec_cards()[0] == hsplit.spec_cards()[1]);
                            assert(old(self).spec_splits() < old(self).spec_rules().max_splits);
                            assert(strategy.spec_turn(
                                spec_turn_context(
                                    old(self).spec_rules(),
                                    old(self).spec_splits(),
                                    &hsplit,
                                    tcv,
                                    old(self).spec_holecard(),
                                ),
                                old(self).spec_dealer().spec_cards()[0],
                                &hsplit,
                            ) == Ok::<Decision, StrategyError>(Decision::Split));
                        }
                    }
                    let c1 = match shoe.pick() {
                        Ok(c) => c,
                        Err(e) => {
                            return Err(RoundError::Shoe(e));
                        },
                    };
                    let mut h1 = Hand::new();
                    h1.add(common);
                    h1.add(c1);
                    h1.set_bet(bet);
                    h1.split();
                    self.hands[i] = h1;

                    let c2 = match shoe.pick() {
                        Ok(c) => c,
                        Err(e) => {
                            return Err(RoundError::Shoe(e));
                        },
                    };
                    let mut h2 = Hand::new();
                    h2.add(common);
                    h2.add(c2);
                    h2.set_id(id);
                    h2.set_bet(bet);
                    h2.split();
                    self.hands_per_player[id as usize] = hands_count + 1;
                    self.hands.push(h2);

                    if self.rules.play_ace_pairs || common != Card(1) {
                        let next = self.hands.len() - 1;
                        proof {
                            lemma_hard_sum_bounds(self.spec_hands()[i as int].spec_cards());
                        }
                        match self.do_player_turn(i, strategy, shoe) {
                            Ok(_) => {},
                            Err(e) => {
                                return Err(e);
                            },
                        }
                        proof {
                            lemma_hard_sum_bounds(self.spec_hands()[next as int].spec_cards());
                        }
                        match self.do_player_turn(next, strategy, shoe) {
                            Ok(_) => {},
                            Err(e) => {
                                return Err(e);
                            },
                        }
                    }
                    return Ok(());
                },
            }
        }
    }

    /// Plays one full round: bets and deals every hand, runs the surrender
    /// and insurance checks, short-circuits on a holecard-game dealer
    /// natural, resolves every player hand, plays the dealer to 17 (hitting
    /// a soft 17 when the rules say so), reshuffles a spent shoe, and
    /// settles. On success the returned statistics and per-seat winnings
    /// are exactly the fold of the settlement function over the final
    /// hands, every stake is the one placed at the deal, surrendered hands
    /// kept exactly their dealt cards, no reshuffle stays pending, and each
    /// unsurrendered seat's final hand is the outcome of strategy-endorsed
    /// play from a dealt two-card hand. A fatal game-contract violation
    /// yields the error instead, and each of the round's own errors occurs
    /// only on its named cause.
    pub fn run<S: Strategy, B: BettingStrategy, Sh: CardShoe>(
        self,
        strategy: &S,
        betting: &B,
        shoe: &mut Sh,
    ) -> (r: (Round, Result<RoundResult, RoundError>))
        requires
            self.wf(),
            strategy.wf(),
            betting.wf(),
            old(shoe).wf(),
            self.spec_hands().len() == self.spec_num_players(),
            self.spec_dealer().spec_cards().len() == 0,
            forall|k: int| 0 <= k < self.spec_hands().len() ==> {
                &&& (#[trigger] self.spec_hands()[k]).spec_cards().len() == 0
                &&& self.spec_hands()[k].spec_bet() == 1
                &&& !self.spec_hands()[k].spec_surrendered()
                &&& !self.spec_hands()[k].spec_doubled()
                &&& !self.spec_hands()[k].spec_split()
                &&& !self.spec_hands()[k].spec_insured()
            },
        ensures
            r.0.wf(),
            final(shoe).wf(),
            r.0.spec_rules() == self.spec_rules(),
            r.0.spec_num_players() == self.spec_num_players(),
            r.0.spec_hands().len() <= self.spec_num_players() + (if self.spec_rules().max_splits
                >= 1 {
                self.spec_rules().max_splits as int
            } else {
                1int
            }) - 1,
            r.0.spec_hands().len() >= self.spec_num_players(),
            r.1 matches Ok(result) ==> {
                let hands = r.0.spec_hands();
                let dealer = r.0.spec_dealer();
                &&& spec_stats_bounded(result.hand_stats)
                &&& result.hand_stats.total <= 1007
                &&& result.player_results@.len() == 7
                &&& forall|s: int| 0 <= s < 7 ==> #[trigger] result.player_results@[s] as int
                    == spec_settle_results(hands, &dealer, hands.len() as int)[s]
                &&& result.hand_stats == spec_settle_stats(hands, &dealer, hands.len() as int)
                &&& result.hand_stats.total == hands.len()
                &&& spec_value(dealer.spec_cards()) >= 17
                &&& (r.0.spec_rules().soft17 == Soft17::H17
                    ==> !(spec_soft(dealer.spec_cards())
                    && spec_value(dealer.spec_cards()) == 17))
                &&& !final(shoe).spec_needs_reshuffle()
                &&& forall|k: int| 0 <= k < hands.len()
                    ==> ((#[trigger] hands[k]).spec_surrendered() ==> spec_dealt(
                    hands[k],
                    if self.spec_start_cards().len() > 1 {
                        self.spec_start_cards().len() as int
                    } else {
                        2int
                    },
                    hands[k].spec_bet(),
                ))
                &&& exists|tc: TrueCount| #[trigger] spec_tc_wf(tc) && forall|k: int|
                    0 <= k < hands.len() ==> (#[trigger] hands[k]).spec_bet()
                    == betting.spec_bet(crate::strategy::spec_tc_rounded(tc))
                &&& (self.spec_override() is None && (r.0.spec_rules().game_type
                    == GameType::Enhc || !dealer.spec_is_bj()))
                    ==> forall|k: int| 0 <= k < self.spec_num_players()
                        && !(#[trigger] hands[k]).spec_surrendered()
                    ==> exists|h0: Hand, hc: Option<Card>, s0: int, s1: int, grew: bool|
                        #[trigger] spec_turn_outcome(
                            strategy,
                            r.0.spec_rules(),
                            dealer.spec_cards()[0],
                            hc,
                            h0,
                            s0,
                            hands[k],
                            grew,
                            s1,
                        ) && spec_dealt(h0, if self.spec_start_cards().len() > 1 {
                            self.spec_start_cards().len() as int
                        } else {
                            2int
                        }, hands[k].spec_bet()) && !h0.spec_surrendered()
            },
            r.1 == Err::<RoundResult, RoundError>(RoundError::DoubleForbidden)
                ==> r.0.spec_dealer().spec_cards().len() >= 1 && spec_double_fault(
                strategy,
                self.spec_rules(),
                r.0.spec_dealer().spec_cards()[0],
                self.spec_override(),
            ),
            r.1 == Err::<RoundResult, RoundError>(RoundError::SplitForbidden)
                ==> r.0.spec_dealer().spec_cards().len() >= 1 && spec_split_fault(
                strategy,
                self.spec_rules(),
                r.0.spec_dealer().spec_cards()[0],
                self.spec_override(),
            ),
            r.1 == Err::<RoundResult, RoundError>(RoundError::HandOverflow) ==> exists|h: Hand|
                (#[trigger] h.wf()) && h.spec_cards().len() >= MAX_HAND_CARDS,
            r.1 == Err::<RoundResult, RoundError>(RoundError::UnplayableHand) ==> exists|h: Hand|
                (#[trigger] h.wf()) && spec_busted(h.spec_cards()),
    {
        let mut this = self;
        let ghost deal_len: int = if this.start_cards@.len() > 1 {
            this.start_cards@.len() as int
        } else {
            2int
        };
        this.context.true_count = shoe.true_count();
        let ghost tc0 = this.context.true_count;
        let ghost bet0 = betting.spec_bet(crate::strategy::spec_tc_rounded(tc0));

        // First card and bet for every player hand.
        let n = this.hands.len();
        let mut i: usize = 0;
        while i < n
            invariant
                i <= n == this.spec_hands().len(),
                this.wf(),
                strategy.wf(),
                betting.wf(),
                shoe.wf(),
                this.spec_splits() == 1,
                this.spec_num_players() == self.spec_num_players(),
                this.spec_rules() == self.spec_rules(),
                this.spec_override() == self.spec_override(),
                this.spec_start_cards() == self.spec_start_cards(),
                deal_len == (if self.spec_start_cards().len() > 1 {
                    self.spec_start_cards().len() as int
                } else {
                    2int
                }),
                tc0 == this.context.true_count,
                spec_tc_wf(tc0),
                bet0 == betting.spec_bet(crate::strategy::spec_tc_rounded(tc0)),
                this.spec_dealer().spec_cards().len() == 0,
                forall|k: int| 0 <= k < n ==> {
                    &&& (#[trigger] this.spec_hands()[k]).spec_cards().len()
                        == (if k < i { 1int } else { 0int })
                    &&& this.spec_hands()[k].spec_bet() == (if k < i { bet0 } else { 1int })
                    &&& !this.spec_hands()[k].spec_surrendered()
                    &&& !this.spec_hands()[k].spec_doubled()
                    &&& !this.spec_hands()[k].spec_split()
                    &&& !this.spec_hands()[k].spec_insured()
                },
            decreases n - i,
        {
            proof {
                this.context.true_count.lemma_rounded_bounded();
                betting.lemma_bet_bounded(crate::strategy::spec_tc_rounded(
                    this.context.true_count,
                ));
            }
            let bet = betting.place_bet(this.context.true_count.rounded());
            this.hands[i].set_bet(bet);

            let card = if this.start_cards.len() == 0 {
                match shoe.pick() {
                    Ok(c) => c,
                    Err(e) => {
                        return (this, Err(RoundError::Shoe(e)));
                    },
                }
            } else {
                let want = this.start_cards[0];
                match shoe.pick_first(want) {
                    Ok(c) => c,
                    Err(e) => {
                        return (this, Err(RoundError::Shoe(e)));
                    },
                }
            };
            this.hands[i].add(card);
            i = i + 1;
        }

        // The dealer's up-card.
        match this.dealer_pick(shoe) {
            Ok(_) => {},
            Err(e) => {
                proof {
                    if e == RoundError::HandOverflow {
                        assert(this.spec_dealer().wf());
                    }
                }
                return (this, Err(e));
            },
        }
        if this.dealer.count() == 0 {
            return (this, Err(RoundError::Shoe(ShoeError::Exhausted)));
        }

        // Second (and any further forced) cards for every player hand.
        let mut i: usize = 0;
        while i < n
            invariant
                i <= n == this.spec_hands().len(),
                this.wf(),
                strategy.wf(),
                betting.wf(),
                shoe.wf(),
                this.spec_splits() == 1,
                this.spec_num_players() == self.spec_num_players(),
                this.spec_rules() == self.spec_rules(),
                this.spec_override() == self.spec_override(),
                this.spec_start_cards() == self.spec_start_cards(),
                deal_len == (if self.spec_start_cards().len() > 1 {
                    self.spec_start_cards().len() as int
                } else {
                    2int
                }),
                deal_len >= 2,
                this.spec_dealer().spec_cards().len() >= 1,
                forall|k: int| 0 <= k < n ==> {
                    &&& (#[trigger] this.spec_hands()[k]).spec_cards().len()
                        == (if k < i { deal_len } else { 1int })
                    &&& this.spec_hands()[k].spec_bet() == bet0
                    &&& !this.spec_hands()[k].spec_surrendered()
                    &&& !this.spec_hands()[k].spec_doubled()
                    &&& !this.spec_hands()[k].spec_split()
                    &&& !this.spec_hands()[k].spec_insured()
                },
            decreases n - i,
        {
            if this.start_cards.len() > 1 {
                let m = this.start_cards.len();
                let mut j: usize = 1;
                while j < m
                    invariant
                        1 <= j <= m == this.start_cards@.len(),
                        i < n == this.spec_hands().len(),
                        this.wf(),
                        shoe.wf(),
                        this.spec_splits() == 1,
                        this.spec_num_players() == self.spec_num_players(),
                        this.spec_rules() == self.spec_rules(),
                        this.spec_override() == self.spec_override(),
                        this.spec_start_cards() == self.spec_start_cards(),
                        deal_len == m,
                        this.spec_dealer().spec_cards().len() >= 1,
                        forall|k: int| 0 <= k < n ==> {
                            &&& (#[trigger] this.spec_hands()[k]).spec_cards().len()
                                == (if k < i { deal_len } else { if k == i { j as int } else { 1int } })
                            &&& this.spec_hands()[k].spec_bet() == bet0
                            &&& !this.spec_hands()[k].spec_surrendered()
                            &&& !this.spec_hands()[k].spec_doubled()
                            &&& !this.spec_hands()[k].spec_split()
                            &&& !this.spec_hands()[k].spec_insured()
                        },
                    decreases m - j,
                {
                    let want = this.start_cards[j];
                    let card = match shoe.pick_first(want) {
                        Ok(c) => c,
                        Err(e) => {
                            return (this, Err(RoundError::Shoe(e)));
                        },
                    };
                    if this.hands[i].count() >= MAX_HAND_CARDS {
                        proof {
                            assert(this.spec_hands()[i as int].wf());
                        }
                        return (this, Err(RoundError::HandOverflow));
                    }
                    this.hands[i].add(card);
                    j = j + 1;
                }
            } else {
                let card = match shoe.pick() {
                    Ok(c) => c,
                    Err(e) => {
                        return (this, Err(RoundError::Shoe(e)));
                    },
                };
                if this.hands[i].count() >= MAX_HAND_CARDS {
                    proof {
                        assert(this.spec_hands()[i as int].wf());
                    }
                    return (this, Err(RoundError::HandOverflow));
                }
                this.hands[i].add(card);
            }
            i = i + 1;
        }

        // The dealer's hole card in a holecard game.
        if this.rules.game_type == GameType::Ahc {
            match this.dealer_pick(shoe) {
                Ok(_) => {},
                Err(e) => {
                    proof {
                        if e == RoundError::HandOverflow {
                            assert(this.spec_dealer().wf());
                        }
                    }
                    return (this, Err(e));
                },
            }
            if this.holecarding {
                if this.dealer.count() < 2 {
                    return (this, Err(RoundError::Shoe(ShoeError::Exhausted)));
                }
                this.context.holecard = Some(this.dealer.card(1));
            }
        }

        if this.rules.surrender == SurrenderPolicy::EarlySurrender {
            match this.check_surrender(strategy, true) {
                Ok(_) => {},
                Err(e) => {
                    return (this, Err(e));
                },
            }
        }

        // Insurance against a dealer ace.
        proof {
            this.dealer.lemma_wf();
        }
        if this.dealer.card(0) == Card(1) {
            let mut k: usize = 0;
            while k < n
                invariant
                    k <= n == this.spec_hands().len(),
                    this.wf(),
                    strategy.wf(),
                    shoe.wf(),
                    this.spec_splits() == 1,
                    this.spec_num_players() == self.spec_num_players(),
                    this.spec_rules() == self.spec_rules(),
                    this.spec_override() == self.spec_override(),
                    deal_len >= 2,
                    this.spec_dealer().spec_cards().len() >= 1,
                    forall|j: int| 0 <= j < n ==> {
                        &&& spec_dealt(#[trigger] this.spec_hands()[j], deal_len, bet0)
                        &&& (j >= k ==> !this.spec_hands()[j].spec_insured())
                        &&& (this.spec_rules().surrender != SurrenderPolicy::EarlySurrender
                            ==> !this.spec_hands()[j].spec_surrendered())
                    },
                decreases n - k,
            {
                let surrendered = this.hands[k].is_surrendered();
                if !surrendered {
                    let insure = strategy.take_insurance(&this.context, &this.hands[k]);
                    if insure {
                        proof {
                            assert(this.spec_hands()[k as int] == this.hands@[k as int]);
                            assert(!this.spec_hands()[k as int].spec_insured());
                        }
                        this.hands[k].insure();
                    }
                }
                k = k + 1;
            }
        }

        // Play out the player hands unless a holecard-game dealer natural
        // short-circuits the round.
        let dealer_bj = this.dealer.is_bj();
        let ghost played: bool = this.rules.game_type == GameType::Enhc
            || (this.rules.game_type == GameType::Ahc && !dealer_bj);
        if this.rules.game_type == GameType::Enhc
            || (this.rules.game_type == GameType::Ahc && !dealer_bj) {
            if this.rules.surrender == SurrenderPolicy::LateSurrender {
                proof {
                    // late and early surrender are exclusive policies, so no
                    // hand has surrendered yet
                    assert(forall|j: int| 0 <= j < n
                        ==> !(#[trigger] this.spec_hands()[j]).spec_surrendered());
                }
                match this.check_surrender(strategy, false) {
                    Ok(_) => {},
                    Err(e) => {
                        return (this, Err(e));
                    },
                }
            }

            let mut k: usize = 0;
            while k < n
                invariant
                    k <= n,
                    n == self.spec_num_players(),
                    n <= this.spec_hands().len(),
                    this.wf(),
                    strategy.wf(),
                    shoe.wf(),
                    this.spec_num_players() == self.spec_num_players(),
                    this.spec_rules() == self.spec_rules(),
                    this.spec_override() == self.spec_override()
                        || this.spec_override() is None,
                    deal_len == (if self.spec_start_cards().len() > 1 {
                        self.spec_start_cards().len() as int
                    } else {
                        2int
                    }),
                    deal_len >= 2,
                    this.spec_dealer().spec_cards().len() >= 1,
                    forall|j: int| k <= j < n ==> {
                        &&& spec_dealt(#[trigger] this.spec_hands()[j], deal_len, bet0)
                    },
                    forall|j: int| 0 <= j < this.spec_hands().len()
                        ==> (#[trigger] this.spec_hands()[j]).spec_bet() == bet0,
                    forall|j: int| 0 <= j < this.spec_hands().len()
                        ==> ((#[trigger] this.spec_hands()[j]).spec_surrendered()
                        ==> spec_dealt(this.spec_hands()[j], deal_len, bet0)),
                    self.spec_override() is None ==> forall|j: int|
                        0 <= j < k && !(#[trigger] this.spec_hands()[j]).spec_surrendered()
                        ==> exists|h0: Hand, hc: Option<Card>, s0: int, s1: int, grew: bool|
                            #[trigger] spec_turn_outcome(
                                strategy,
                                this.spec_rules(),
                                this.spec_dealer().spec_cards()[0],
                                hc,
                                h0,
                                s0,
                                this.spec_hands()[j],
                                grew,
                                s1,
                            ) && spec_dealt(h0, deal_len, bet0) && !h0.spec_surrendered(),
                decreases n - k,
            {
                let surrendered = this.hands[k].is_surrendered();
                if !surrendered {
                    if this.hands[k].is_busted() {
                        proof {
                            assert(this.spec_hands()[k as int].wf());
                        }
                        return (this, Err(RoundError::UnplayableHand));
                    }
                    let ghost pre_hand = this.spec_hands()[k as int];
                    let ghost pre_splits = this.spec_splits();
                    let ghost pre_len = this.spec_hands().len();
                    let ghost pre_hc = this.spec_holecard();
                    match this.do_player_turn(k, strategy, shoe) {
                        Ok(_) => {},
                        Err(e) => {
                            return (this, Err(e));
                        },
                    }
                    proof {
                        if self.spec_override() is None {
                            assert(spec_turn_outcome(
                                strategy,
                                this.spec_rules(),
                                this.spec_dealer().spec_cards()[0],
                                pre_hc,
                                pre_hand,
                                pre_splits,
                                this.spec_hands()[k as int],
                                this.spec_hands().len() > pre_len,
                                this.spec_splits(),
                            ));
                            assert(spec_dealt(pre_hand, deal_len, bet0));
                        }
                    }
                }
                k = k + 1;
            }
        }

        // The dealer draws to 17, hitting a soft 17 when the rules say so.
        proof {
            this.dealer.lemma_wf();
            lemma_hard_sum_bounds(this.spec_dealer().spec_cards());
        }
        while this.dealer.value() < 17
            || (this.rules.soft17 == Soft17::H17 && this.dealer.is_soft()
                && this.dealer.value() == 17)
            invariant
                this.wf(),
                strategy.wf(),
                shoe.wf(),
                this.spec_num_players() == self.spec_num_players(),
                this.spec_rules() == self.spec_rules(),
                deal_len == (if self.spec_start_cards().len() > 1 {
                    self.spec_start_cards().len() as int
                } else {
                    2int
                }),
                spec_tc_wf(tc0),
                this.spec_dealer().spec_cards().len() >= 1,
                forall|j: int| 0 <= j < this.spec_hands().len()
                    ==> (#[trigger] this.spec_hands()[j]).spec_bet() == bet0,
                forall|j: int| 0 <= j < this.spec_hands().len()
                    ==> ((#[trigger] this.spec_hands()[j]).spec_surrendered()
                    ==> spec_dealt(this.spec_hands()[j], deal_len, bet0)),
                !played ==> this.spec_rules().game_type == GameType::Ahc
                    && this.spec_dealer().spec_is_bj(),
                (self.spec_override() is None && played) ==> forall|j: int|
                    0 <= j < self.spec_num_players()
                    && !(#[trigger] this.spec_hands()[j]).spec_surrendered()
                    ==> exists|h0: Hand, hc: Option<Card>, s0: int, s1: int, grew: bool|
                        #[trigger] spec_turn_outcome(
                            strategy,
                            this.spec_rules(),
                            this.spec_dealer().spec_cards()[0],
                            hc,
                            h0,
                            s0,
                            this.spec_hands()[j],
                            grew,
                            s1,
                        ) && spec_dealt(h0, deal_len, bet0) && !h0.spec_surrendered(),
            decreases (if spec_busted(this.spec_dealer().spec_cards()) {
                0int
            } else {
                22 - spec_hard_sum(this.spec_dealer().spec_cards())
            }),
        {
            proof {
                this.dealer.lemma_wf();
                lemma_hard_sum_bounds(this.spec_dealer().spec_cards());
            }
            let ghost before = this.spec_dealer().spec_cards();
            match this.dealer_pick(shoe) {
                Ok(_) => {},
                Err(e) => {
                    proof {
                        if e == RoundError::HandOverflow {
                            assert(this.spec_dealer().wf());
                        }
                    }
                    return (this, Err(e));
                },
            }
            proof {
                let c = choose|c: Card| c.valid() && this.spec_dealer().spec_cards()
                    == before.push(c);
                assert(before.push(c).drop_last() =~= before);
                assert(spec_hard_sum(this.spec_dealer().spec_cards())
                    == spec_hard_sum(before) + c.0);
            }
        }

        if shoe.needs_reshuffle() {
            shoe.reshuffle();
        }

        // Settlement.
        let mut player_results: Vec<i64> = Vec::new();
        let mut z: usize = 0;
        while z < 7
            invariant
                z <= 7,
                player_results@.len() == z,
                forall|s: int| 0 <= s < z ==> #[trigger] player_results@[s] == 0,
            decreases 7 - z,
        {
            player_results.push(0);
            z = z + 1;
        }
        let mut hand_stats = HandStats::default();

        let hn = this.hands.len();
        let mut k: usize = 0;
        while k < hn
            invariant
                k <= hn == this.spec_hands().len(),
                hn <= 1007,
                this.wf(),
                this.spec_num_players() == self.spec_num_players(),
                deal_len == (if self.spec_start_cards().len() > 1 {
                    self.spec_start_cards().len() as int
                } else {
                    2int
                }),
                spec_tc_wf(tc0),
                strategy.wf(),
                bet0 == betting.spec_bet(crate::strategy::spec_tc_rounded(tc0)),
                this.spec_dealer().spec_cards().len() >= 1,
                forall|j: int| 0 <= j < this.spec_hands().len()
                    ==> (#[trigger] this.spec_hands()[j]).spec_bet() == bet0,
                forall|j: int| 0 <= j < this.spec_hands().len()
                    ==> ((#[trigger] this.spec_hands()[j]).spec_surrendered()
                    ==> spec_dealt(this.spec_hands()[j], deal_len, bet0)),
                !played ==> this.spec_rules().game_type == GameType::Ahc
                    && this.spec_dealer().spec_is_bj(),
                (self.spec_override() is None && played) ==> forall|j: int|
                    0 <= j < self.spec_num_players()
                    && !(#[trigger] this.spec_hands()[j]).spec_surrendered()
                    ==> exists|h0: Hand, hc: Option<Card>, s0: int, s1: int, grew: bool|
                        #[trigger] spec_turn_outcome(
                            strategy,
                            this.spec_rules(),
                            this.spec_dealer().spec_cards()[0],
                            hc,
                            h0,
                            s0,
                            this.spec_hands()[j],
                            grew,
                            s1,
                        ) && spec_dealt(h0, deal_len, bet0) && !h0.spec_surrendered(),
                this.spec_rules() == self.spec_rules(),
                player_results@.len() == 7,
                spec_stats_bounded(hand_stats),
                hand_stats == spec_settle_stats(this.spec_hands(), &this.spec_dealer(), k as int),
                hand_stats.total == k,
                forall|s: int| 0 <= s < 7 ==> #[trigger] player_results@[s] as int
                    == spec_settle_results(this.spec_hands(), &this.spec_dealer(), k as int)[s],
                forall|s: int| 0 <= s < 7
                    ==> -(k as int) * 6_000_000_000_000 <= #[trigger] player_results@[s]
                        <= (k as int) * 6_000_000_000_000,
            decreases hn - k,
        {
            proof {
                assert(this.spec_hands()[k as int].wf());
            }
            let (outcome, half) = hand_result(&this.hands[k], &this.dealer);
            let id = this.hands[k].get_id();
            let bet = this.hands[k].get_bet();
            proof {
                let h = half as int;
                let b = bet as int;
                assert(-6_000_000_000_000 <= h * b <= 6_000_000_000_000) by (nonlinear_arith)
                    requires
                        -6 <= h <= 6,
                        0 <= b <= 1_000_000_000_000,
                ;
            }
            let delta: i64 = (half as i64) * bet;
            let seat = id as usize;
            let prev = player_results[seat];
            player_results[seat] = prev + delta;
            hand_stats.update(&this.hands[k], outcome);
            proof {
                let hands = this.spec_hands();
                let dealer = this.spec_dealer();
                lemma_settle_results_len(hands, &dealer, k as int);
                lemma_settle_results_len(hands, &dealer, k + 1);
                assert(spec_settle_stats(hands, &dealer, k + 1) == spec_update_stats(
                    spec_settle_stats(hands, &dealer, k as int),
                    &hands[k as int],
                    spec_hand_result(&hands[k as int], &dealer).0,
                ));
                assert(spec_settle_results(hands, &dealer, k + 1)
                    == spec_settle_results(hands, &dealer, k as int).update(
                    hands[k as int].spec_id() as int,
                    spec_settle_results(hands, &dealer, k as int)[hands[k as int].spec_id() as int]
                        + spec_hand_result(&hands[k as int], &dealer).1
                        * hands[k as int].spec_bet(),
                ));
            }
            k = k + 1;
        }

        proof {
            assert(this.spec_hands().len() <= self.spec_num_players() + (
            if this.spec_rules().max_splits >= 1 {
                this.spec_rules().max_splits as int
            } else {
                1int
            }) - 1);
            assert(spec_tc_wf(tc0) && forall|j: int| 0 <= j < this.spec_hands().len()
                ==> (#[trigger] this.spec_hands()[j]).spec_bet()
                == betting.spec_bet(crate::strategy::spec_tc_rounded(tc0)));
        }
        (this, Ok(RoundResult { player_results, hand_stats }))
    }
}

} // verus!
