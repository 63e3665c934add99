use std::cell::RefCell;
use std::collections::VecDeque;

use freebj::round::{Round, RoundError};
use freebj::strategy::{Decision, GameContext, Strategy};
use freebj::strategy::Decision::{Hit, Stand, Double, Split};
use freebj::card::Card;
use freebj::hand::Hand;
use freebj::hand_stats::HandStats;
use freebj::betting::FixedBet;
use freebj::game_rules::{GameRules, GameType, Soft17};
use freebj::shoe::queued_shoe::QueuedShoe;

const AHC: u32 = 0;
const S17: u32 = 0;
const H17: u32 = 1 << 1;
const HAA: u32 = 1 << 3;
const INSURE: u32 = 1 << 3;
const SURRENDER: u32 = 1 << 4;

fn make_rules(opts: u32) -> GameRules {
    GameRules {
        game_type: GameType::Ahc,
        soft17: if opts & H17 > 0 { Soft17::H17 } else { Soft17::S17 },
        das: false,
        play_ace_pairs: opts & HAA > 0,
        ..GameRules::default()
    }
}

struct QueuedStrategy {
    decisions: RefCell<VecDeque<Decision>>,
    take_insurance: bool,
    surrender: bool,
}

impl QueuedStrategy {
    fn new(decisions: &[Decision], take_insurance: bool, surrender: bool) -> QueuedStrategy {
        QueuedStrategy {
            decisions: RefCell::new(decisions.iter().copied().collect()),
            take_insurance,
            surrender,
        }
    }

    fn is_empty(&self) -> bool {
        self.decisions.borrow().is_empty()
    }
}

impl Strategy for QueuedStrategy {
    fn wf(&self) -> bool {
        true
    }

    fn spec_turn(
        &self,
        _game: GameContext,
        _dealer: Card,
        _me: &Hand,
    ) -> Result<Decision, freebj::strategy::StrategyError> {
        Ok(Decision::Stand)
    }

    fn spec_surrender(&self, _game: GameContext, _dealer: Card, _me: &Hand, _is_early: bool) -> bool {
        false
    }

    fn spec_insurance(&self, _game: GameContext, _me: &Hand) -> bool {
        false
    }

    fn player_turn(
        &self,
        _game: &GameContext,
        _dealer: Card,
        _me: &Hand,
    ) -> Result<Decision, freebj::strategy::StrategyError> {
        Ok(self.decisions.borrow_mut().pop_front().expect("No more decisions in the queue"))
    }

    fn surrender(&self, _game: &GameContext, _dealer: Card, _me: &Hand, _is_early: bool) -> bool {
        self.surrender
    }

    fn take_insurance(&self, _game: &GameContext, _me: &Hand) -> bool {
        self.take_insurance
    }
}

#[test]
fn it_wins_a_hand() {
    //           Tt Wo Lo Pu Bu BJ Db Sp In Su
    test_result(&[10, 7, 9, 10], AHC | H17, &[Stand], 10.0, (1, 1, 0, 0, 0, 0, 0, 0, 0, 0));
    test_result(&[6, 7, 1, 10, 6, 5], AHC | S17, &[Hit, Hit, Stand], 10.0,
                (1, 1, 0, 0, 0, 0, 0, 0, 0, 0));
    test_result(&[10, 6, 8, 1], AHC | S17, &[Stand], 10.0, (1, 1, 0, 0, 0, 0, 0, 0, 0, 0));
}

#[test]
fn it_loses_a_hand() {
    //                 Tt Wo Lo Pu Bu BJ Db Sp In Su
    test_result(&[10, 6, 8, 1, 9, 4], AHC | H17, &[Stand], -10.0,
                (1, 0, 1, 0, 0, 0, 0, 0, 0, 0));
}

#[test]
fn it_busts_a_hand() {
    test_result(&[5, 8, 6, 2, 2, 3, 5, 1, 6, 8], AHC | S17, &[Hit, Hit, Hit, Hit], -10.0,
                (1, 0, 1, 0, 1, 0, 0, 0, 0, 0));
    test_result(&[5, 8, 6, 2, 3, 5, 1, 2, 6, 5], AHC | S17, &[Hit, Hit, Hit, Hit], -10.0,
                (1, 0, 1, 0, 1, 0, 0, 0, 0, 0));
}

#[test]
fn it_doubles_down() {
    test_result(&[6, 7, 5, 10, 9], AHC | S17, &[Double], 20.0, (1, 1, 0, 0, 0, 0, 1, 0, 0, 0));
    test_result(&[6, 7, 5, 10, 6], AHC | S17, &[Double], 0.0, (1, 0, 0, 1, 0, 0, 1, 0, 0, 0));
    test_result(&[6, 7, 5, 10, 2], AHC | S17, &[Double], -20.0, (1, 0, 1, 0, 0, 0, 1, 0, 0, 0));
}

#[test]
fn it_insures() {
    //           Tt Wo Lo Pu Bu BJ Db Sp In Su
    test_result(&[8, 10, 10, 1], AHC | S17 | INSURE, &[], -10.0, (1, 0, 1, 0, 0, 0, 0, 0, 0, 0));
    test_result(&[8, 1, 10, 10], AHC | S17 | INSURE, &[], 0.0, (1, 0, 1, 0, 0, 0, 0, 0, 1, 0));
    test_result(&[1, 1, 10, 10], AHC | S17 | INSURE, &[], 10.0, (1, 0, 0, 1, 0, 1, 0, 0, 1, 0));
    test_result(&[1, 1, 10, 9], AHC | S17 | INSURE, &[Stand], 10.0,
                (1, 1, 0, 0, 0, 1, 0, 0, 1, 0));
    test_result(&[10, 1, 10, 9], AHC | S17 | INSURE, &[Stand], -5.0,
                (1, 0, 0, 1, 0, 0, 0, 0, 1, 0));
    test_result(&[10, 1, 9, 9], AHC | S17 | INSURE, &[Stand], -15.0,
                (1, 0, 1, 0, 0, 0, 0, 0, 1, 0));
}

#[test]
fn it_split_pairs() {
    //                 Tt Wo Lo Pu Bu BJ Db Sp In Su
    test_result(&[8, 10, 8, 9, 10, 10], AHC | S17, &[Split, Stand, Stand], -20.0,
                (2, 0, 2, 0, 0, 0, 0, 2, 0, 0));
    test_result(&[8, 10, 8, 7, 10, 5], AHC | S17, &[Split, Stand, Stand], 0.0,
                (2, 1, 1, 0, 0, 0, 0, 2, 0, 0));
    test_result(&[1, 10, 1, 7, 10, 10], AHC | S17, &[Split], 20.0,
                (2, 2, 0, 0, 0, 0, 0, 2, 0, 0));
    test_result(&[1, 10, 1, 7, 4, 5], AHC | S17, &[Split], -20.0,
                (2, 0, 2, 0, 0, 0, 0, 2, 0, 0));
    test_result(&[1, 10, 1, 7, 4, 5, 4, 2], AHC | S17 | HAA,
                &[Split, Hit, Stand, Hit, Stand], 20.0, (2, 2, 0, 0, 0, 0, 0, 2, 0, 0));
    test_result(&[2, 7, 2, 10, 2, 9, 9, 8, 2, 2, 8, 2, 10, 10], AHC | S17,
                &[Split, Split, Hit, Hit, Hit, Hit, Hit, Hit, Stand], -10.0,
                (3, 1, 2, 0, 2, 0, 0, 3, 0, 0));
    //                 Tt Wo Lo Pu Bu BJ Db Sp In Su
}

#[test]
fn it_rejects_forbidden_doubles_after_split_with_no_das() {
    let rules = make_rules(AHC | S17);
    let strategy = QueuedStrategy::new(&[Split, Double, Double], false, false);
    let mut shoe = QueuedShoe::from_ints(&[8, 6, 8, 10, 3, 1]);
    let round = Round::new(rules, 1, false, None, None, Vec::new(), Vec::new());
    let (_, outcome) = round.run(&strategy, &FixedBet(1), &mut shoe);
    assert_eq!(outcome.unwrap_err(), RoundError::DoubleForbidden);
}

#[test]
fn it_rejects_forbidden_splits_of_non_pairs() {
    let rules = make_rules(AHC | S17);
    let strategy = QueuedStrategy::new(&[Split], false, false);
    let mut shoe = QueuedShoe::from_ints(&[8, 6, 7, 10]);
    let round = Round::new(rules, 1, false, None, None, Vec::new(), Vec::new());
    let (_, outcome) = round.run(&strategy, &FixedBet(1), &mut shoe);
    assert_eq!(outcome.unwrap_err(), RoundError::SplitForbidden);
}

#[test]
fn it_rejects_splitting_above_the_limit() {
    let mut rules = make_rules(AHC | S17);
    rules.max_splits = 2;
    let strategy = QueuedStrategy::new(&[Split, Split], false, false);
    let mut shoe = QueuedShoe::from_ints(&[8, 6, 8, 10, 8, 7]);
    let round = Round::new(rules, 1, false, None, None, Vec::new(), Vec::new());
    let (_, outcome) = round.run(&strategy, &FixedBet(1), &mut shoe);
    assert_eq!(outcome.unwrap_err(), RoundError::SplitForbidden);
}

#[test]
fn it_rejects_splitting_with_three_cards() {
    let rules = make_rules(AHC | S17);
    let strategy = QueuedStrategy::new(&[Hit, Split], false, false);
    let mut shoe = QueuedShoe::from_ints(&[4, 6, 4, 10, 4]);
    let round = Round::new(rules, 1, false, None, None, Vec::new(), Vec::new());
    let (_, outcome) = round.run(&strategy, &FixedBet(1), &mut shoe);
    assert_eq!(outcome.unwrap_err(), RoundError::SplitForbidden);
}

fn test_result(
    cards: &[u8],
    opts: u32,
    decisions: &[Decision],
    expected_result: f64,
    expected_stats: (u64, u64, u64, u64, u64, u64, u64, u64, u64, u64),
) {
    let rules = make_rules(opts);
    let strategy = QueuedStrategy::new(decisions, opts & INSURE > 0, opts & SURRENDER > 0);
    let betting = FixedBet(10);
    let mut shoe = QueuedShoe::from_ints(cards);
    let round = Round::new(rules, 1, false, None, None, Vec::new(), Vec::new());

    let (_, outcome) = round.run(&strategy, &betting, &mut shoe);
    let result = outcome.expect("the round should settle");

    // winnings are reported in half-bet currency units
    let expected = (expected_result * 2.0) as i64;
    assert_eq!(result.player_results, vec![expected, 0, 0, 0, 0, 0, 0], "{:?}", cards);
    assert_eq!(result.hand_stats, HandStats::from_tuple(expected_stats), "{:?}", cards);
    assert!(shoe.is_empty());
    assert!(strategy.is_empty(), "Not all decisions were taken");
}
