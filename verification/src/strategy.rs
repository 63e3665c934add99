use vstd::prelude::*;
use crate::card::Card;
use crate::hand::{Hand, spec_busted};
use crate::game_rules::GameRules;

verus! {

#[derive(PartialEq, Eq, Structural, Debug, Copy, Clone)]
pub enum Decision {
    /// Ask the dealer for an additional card, this can be repeated
    Hit,
    /// Keep the current hand and end the round
    Stand,
    /// Double the bet and draw one card, ends the round
    Double,
    /// Split the pair in two hands played separately
    Split,
}

/// A failure of the decision engine itself: a malformed strategy table or an
/// unimplemented variant. The round treats it as fatal, never as a game event.
#[derive(PartialEq, Eq, Structural, Debug, Copy, Clone)]
pub enum StrategyError {
    /// A strategy table or deviation produced an action code that does not
    /// resolve to any play decision.
    UnknownAction(char),
    /// The variant that reads the dealer's hole card has no implementation.
    Holecarding,
}

/// The exact Hi-Lo true count of a shoe: the running count over the number of
/// decks left, kept as the pair (running count, cards left) so that nothing
/// is rounded away. The represented value is `rc * 52 / cards_left`.
#[derive(PartialEq, Eq, Structural, Debug, Copy, Clone)]
pub struct TrueCount {
    /// Hi-Lo running count of the cards removed so far.
    pub rc: i32,
    /// Number of cards left in the shoe.
    pub cards_left: u32,
}

/// A shoe can never hold more cards than this, nor a running count larger in
/// magnitude; every shoe keeps its true count inside these bounds.
pub open spec fn spec_tc_wf(tc: TrueCount) -> bool {
    &&& -2_000_000 <= tc.rc <= 2_000_000
    &&& tc.cards_left <= 2_000_000
}

/// The nearest integer to `rc * 52 / cards_left`, halves rounded away from
/// zero. An exhausted shoe with cards still counted saturates by the sign of
/// the running count.
pub open spec fn spec_tc_rounded(tc: TrueCount) -> int {
    if tc.cards_left == 0 {
        if tc.rc > 0 {
            127int
        } else if tc.rc < 0 {
            -128int
        } else {
            0int
        }
    } else {
        let num = 52 * tc.rc;
        let den = tc.cards_left as int;
        if num >= 0 {
            (2 * num + den) / (2 * den)
        } else {
            -((2 * (-num) + den) / (2 * den))
        }
    }
}

/// Whether the true count is at least the integer `n`; an exhausted shoe
/// counts as unboundedly high or low by the sign of its running count.
pub open spec fn spec_tc_at_least(tc: TrueCount, n: int) -> bool {
    if tc.cards_left == 0 {
        tc.rc > 0
    } else {
        52 * tc.rc >= n * tc.cards_left
    }
}

impl TrueCount {
    /// A zero count over an unknown remainder, reported by shoes that do not
    /// track counts.
    pub fn zero() -> (r: TrueCount)
        ensures
            r == (TrueCount { rc: 0, cards_left: 0 }),
            spec_tc_wf(r),
    {
        TrueCount { rc: 0, cards_left: 0 }
    }

    /// Rounds the true count to the nearest integer, halves away from zero.
    pub fn rounded(&self) -> (r: i64)
        ensures
            r == spec_tc_rounded(*self),
    {
        if self.cards_left == 0 {
            if self.rc > 0 {
                127
            } else if self.rc < 0 {
                -128
            } else {
                0
            }
        } else {
            let num: i64 = 52 * (self.rc as i64);
            let den: i64 = self.cards_left as i64;
            if num >= 0 {
                (2 * num + den) / (2 * den)
            } else {
                -((2 * (-num) + den) / (2 * den))
            }
        }
    }

    /// Whether the true count is at least the whole number `n`.
    pub fn at_least(&self, n: i32) -> (r: bool)
        requires
            spec_tc_wf(*self),
            -1000 <= n <= 1000,
        ensures
            r == spec_tc_at_least(*self, n as int),
    {
        if self.cards_left == 0 {
            self.rc > 0
        } else {
            proof {
                let ni = n as int;
                let ci = self.cards_left as int;
                assert(-2_000_000_000 <= ni * ci <= 2_000_000_000) by (nonlinear_arith)
                    requires
                        -1000 <= ni <= 1000,
                        0 <= ci <= 2_000_000,
                ;
            }
            52 * (self.rc as i64) >= (n as i64) * (self.cards_left as i64)
        }
    }

    /// A well-formed true count rounds to a bounded whole number.
    pub proof fn lemma_rounded_bounded(&self)
        requires
            spec_tc_wf(*self),
        ensures
            -104_000_001 <= spec_tc_rounded(*self) <= 104_000_001,
    {
        if self.cards_left != 0 {
            let num = 52 * self.rc as int;
            let den = self.cards_left as int;
            assert(-104_000_000 <= num <= 104_000_000);
            assert(den >= 1);
            if num >= 0 {
                assert((2 * num + den) / (2 * den) <= num + 1) by (nonlinear_arith)
                    requires
                        num >= 0,
                        den >= 1,
                ;
                assert((2 * num + den) / (2 * den) >= 0) by (nonlinear_arith)
                    requires
                        num >= 0,
                        den >= 1,
                ;
            } else {
                assert((2 * (-num) + den) / (2 * den) <= (-num) + 1) by (nonlinear_arith)
                    requires
                        num < 0,
                        den >= 1,
                ;
                assert((2 * (-num) + den) / (2 * den) >= 0) by (nonlinear_arith)
                    requires
                        num < 0,
                        den >= 1,
                ;
            }
        }
    }
}

/// This structure represents the game context in which a strategy decision
/// must be taken. It exposes the actions available to the player as well as
/// extra known information (e.g. true count, dealer's holecard), and the game
/// rules.
#[derive(Debug, Copy, Clone)]
pub struct GameContext {
    /// The current game rules at the table
    pub rules: GameRules,
    /// Whether the player may split its pair or not
    pub may_split: bool,
    /// Whether the player may double down on his hand
    pub may_double: bool,
    /// The current true count of the shoe
    pub true_count: TrueCount,
    /// The dealer's holecard if it is known (see holecarding option)
    pub holecard: Option<Card>,
}

/// A playing strategy: queried at every player decision point, and for the
/// surrender and insurance verdicts. Each implementation fixes its answers
/// through its own spec functions, so a round is verified against exactly
/// the decisions the strategy describes.
pub trait Strategy: Sized {
    spec fn wf(&self) -> bool;

    spec fn spec_turn(&self, game: GameContext, dealer: Card, me: &Hand) -> Result<
        Decision,
        StrategyError,
    >;

    spec fn spec_surrender(&self, game: GameContext, dealer: Card, me: &Hand, is_early: bool) -> bool;

    spec fn spec_insurance(&self, game: GameContext, me: &Hand) -> bool;

    /// Yields the play decision for the given hand, or a fatal error when a
    /// table produced an unrecognized action code.
    fn player_turn(&self, game: &GameContext, dealer: Card, me: &Hand) -> (r: Result<
        Decision,
        StrategyError,
    >)
        requires
            self.wf(),
            dealer.valid(),
            me.wf(),
            me.spec_cards().len() >= 2,
            !spec_busted(me.spec_cards()),
        ensures
            r == self.spec_turn(*game, dealer, me),
    ;

    /// Answers whether the hand should be surrendered.
    fn surrender(&self, game: &GameContext, dealer: Card, me: &Hand, is_early: bool) -> (r: bool)
        requires
            self.wf(),
            dealer.valid(),
            me.wf(),
            me.spec_cards().len() >= 2,
            !spec_busted(me.spec_cards()),
        ensures
            r == self.spec_surrender(*game, dealer, me, is_early),
    ;

    /// Answers whether the hand should take insurance.
    fn take_insurance(&self, game: &GameContext, me: &Hand) -> (r: bool)
        requires
            self.wf(),
            me.wf(),
            spec_tc_wf(game.true_count),
        ensures
            r == self.spec_insurance(*game, me),
    ;
}

} // verus!
