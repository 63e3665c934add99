use freebj::strategy::{Decision, GameContext, Strategy, TrueCount};
use freebj::strategy::Decision::{Hit, Stand, Double, Split};
use freebj::card::Card;
use freebj::basic_strategy::BasicStrategy;
use freebj::game_rules::{GameRules, GameType, Soft17};
use freebj::hand::Hand;
use freebj::deviation::Deviation;

const AHC: u32 = 0;
const ENHC: u32 = 1 << 0;
const S17: u32 = 0;
const H17: u32 = 1 << 1;
const DAS: u32 = 1 << 2;
const NO_DOUBLE: u32 = 1 << 3;
const NO_SPLIT: u32 = 1 << 4;
const ESURR: u32 = 0;
const LSURR: u32 = 1 << 5;

fn make_rules(opts: u32) -> GameRules {
    GameRules {
        game_type: if opts & ENHC > 0 { GameType::Enhc } else { GameType::Ahc },
        soft17: if opts & H17 > 0 { Soft17::H17 } else { Soft17::S17 },
        das: opts & DAS > 0,
        ..GameRules::default()
    }
}

fn make_context(rules: GameRules, opts: u32) -> GameContext {
    GameContext {
        rules,
        may_split: opts & NO_SPLIT == 0,
        may_double: opts & NO_DOUBLE == 0,
        true_count: TrueCount::zero(),
        holecard: None,
    }
}

/// An exact true count of `halves / 2`, as a rational over a two-deck shoe.
fn tc_halves(halves: i32) -> TrueCount {
    TrueCount { rc: halves, cards_left: 104 }
}

fn make_player_hand(cards: &[u8]) -> Hand {
    Hand::from_ranks(cards)
}

fn test_decision(expected: Decision, hand: &[u8], dealer: u8, opts: u32) {
    let strategy = BasicStrategy::new(false);
    let rules = make_rules(opts);
    let decision = strategy
        .player_turn(&make_context(rules, opts), Card(dealer), &make_player_hand(hand))
        .unwrap();

    assert_eq!(decision, expected, "{:?} vs {:?}, opts={:#b}", hand, dealer, opts);
}

fn test_surrender(expected: bool, hand: &[u8], dealer: u8, opts: u32) {
    let strategy = BasicStrategy::new(false);
    let rules = make_rules(opts);
    let decision = strategy.surrender(
        &make_context(rules, opts),
        Card(dealer),
        &make_player_hand(hand),
        opts & LSURR == 0,
    );

    assert_eq!(decision, expected, "{:?} vs {:?}, opts={:#b}", hand, dealer, opts);
}

#[test]
fn it_plays_hard_hands() {
    test_decision(Stand, &[3, 7, 10], 10, AHC | S17);

    test_decision(Stand, &[10, 7], 7, AHC | S17);

    test_decision(Stand, &[10, 6], 6, AHC | S17);
    test_decision(Hit, &[10, 6], 7, AHC | S17);

    test_decision(Hit, &[10, 2], 2, AHC | S17);
    test_decision(Hit, &[10, 2], 3, AHC | S17);
    test_decision(Stand, &[10, 2], 4, AHC | S17);
    test_decision(Stand, &[10, 2], 6, AHC | S17);
    test_decision(Hit, &[10, 2], 10, AHC | S17);

    test_decision(Double, &[4, 7], 6, AHC | S17);
    test_decision(Hit, &[4, 7], 6, AHC | S17 | NO_DOUBLE);
    test_decision(Double, &[4, 7], 10, AHC | S17);
    test_decision(Hit, &[4, 7], 10, ENHC | S17);
    test_decision(Hit, &[4, 7], 1, ENHC | S17);
    test_decision(Hit, &[4, 7], 1, AHC | S17);
    test_decision(Double, &[4, 7], 1, AHC | H17);

    test_decision(Double, &[4, 6], 6, AHC | S17);
    test_decision(Hit, &[4, 6], 6, AHC | S17 | NO_DOUBLE);
    test_decision(Hit, &[4, 6], 10, AHC | S17);
    test_decision(Hit, &[4, 6], 1, AHC | S17);

    test_decision(Hit, &[4, 5], 2, AHC | S17);
    test_decision(Double, &[4, 5], 3, AHC | S17);
    test_decision(Double, &[4, 5], 6, AHC | S17);
    test_decision(Hit, &[4, 5], 7, AHC | S17);

    test_decision(Hit, &[5, 3], 6, AHC | S17);

    test_decision(Hit, &[2, 2], 2, AHC | S17 | NO_SPLIT);
    test_decision(Hit, &[2, 2], 1, AHC | S17 | NO_SPLIT);
}

#[test]
fn it_plays_soft_hands() {
    test_decision(Stand, &[10, 1], 2, AHC | S17);
    test_decision(Stand, &[10, 1], 1, AHC | S17);

    test_decision(Stand, &[1, 9], 2, AHC | S17);
    test_decision(Stand, &[1, 9], 6, AHC | S17);
    test_decision(Stand, &[1, 9], 10, AHC | S17);
    test_decision(Stand, &[1, 9], 1, AHC | S17);

    test_decision(Stand, &[1, 8], 6, AHC | S17);
    test_decision(Double, &[1, 8], 6, AHC | H17);
    test_decision(Stand, &[1, 8], 6, AHC | H17 | NO_DOUBLE);
    test_decision(Stand, &[1, 8], 10, AHC | S17);
    test_decision(Stand, &[1, 8], 1, AHC | S17);

    test_decision(Stand, &[1, 7], 2, AHC | S17);
    test_decision(Double, &[1, 7], 2, AHC | H17);
    test_decision(Stand, &[1, 7], 2, AHC | H17 | NO_DOUBLE);
    test_decision(Double, &[1, 7], 3, AHC | S17);
    test_decision(Stand, &[1, 7], 3, AHC | S17 | NO_DOUBLE);
    test_decision(Double, &[1, 7], 6, AHC | S17);
    test_decision(Stand, &[1, 7], 7, AHC | S17);
    test_decision(Stand, &[1, 7], 8, AHC | S17);
    test_decision(Hit, &[1, 7], 9, AHC | S17);
    test_decision(Hit, &[1, 7], 10, AHC | S17);
    test_decision(Hit, &[1, 7], 1, AHC | S17);

    test_decision(Hit, &[1, 6], 2, AHC | S17);
    test_decision(Double, &[1, 6], 3, AHC | S17);
    test_decision(Double, &[1, 6], 6, AHC | S17);
    test_decision(Hit, &[1, 6], 6, AHC | S17 | NO_DOUBLE);
    test_decision(Hit, &[1, 6], 7, AHC | S17);
    test_decision(Hit, &[1, 6], 10, AHC | S17);

    test_decision(Hit, &[1, 5], 3, AHC | S17);
    test_decision(Double, &[1, 5], 4, AHC | S17);
    test_decision(Double, &[1, 5], 6, AHC | S17);
    test_decision(Hit, &[1, 5], 6, AHC | S17 | NO_DOUBLE);
    test_decision(Hit, &[1, 5], 7, AHC | S17);
    test_decision(Hit, &[1, 5], 10, AHC | S17);

    test_decision(Hit, &[1, 4], 3, AHC | S17);
    test_decision(Double, &[1, 4], 4, AHC | S17);
    test_decision(Double, &[1, 4], 6, AHC | S17);
    test_decision(Hit, &[1, 4], 6, AHC | S17 | NO_DOUBLE);
    test_decision(Hit, &[1, 4], 7, AHC | S17);
    test_decision(Hit, &[1, 4], 10, AHC | S17);

    test_decision(Hit, &[1, 3], 4, AHC | S17);
    test_decision(Double, &[1, 3], 5, AHC | S17);
    test_decision(Double, &[1, 3], 6, AHC | S17);
    test_decision(Hit, &[1, 3], 6, AHC | S17 | NO_DOUBLE);
    test_decision(Hit, &[1, 3], 7, AHC | S17);
    test_decision(Hit, &[1, 3], 10, AHC | S17);

    test_decision(Hit, &[1, 2], 4, AHC | S17);
    test_decision(Double, &[1, 2], 5, AHC | S17);
    test_decision(Double, &[1, 2], 6, AHC | S17);
    test_decision(Hit, &[1, 2], 6, AHC | S17 | NO_DOUBLE);
    test_decision(Hit, &[1, 2], 7, AHC | S17);
    test_decision(Hit, &[1, 2], 10, AHC | S17);
    test_decision(Hit, &[1, 2], 1, AHC | S17);
}

#[test]
fn it_plays_pairs() {
    test_decision(Split, &[1, 1], 2, AHC | S17);
    test_decision(Split, &[1, 1], 6, AHC | S17);
    test_decision(Split, &[1, 1], 7, AHC | S17);
    test_decision(Split, &[1, 1], 10, AHC | S17);
    test_decision(Split, &[1, 1], 1, AHC | S17);
    test_decision(Hit, &[1, 1], 1, ENHC | S17);

    test_decision(Stand, &[10, 10], 2, AHC | S17);
    test_decision(Stand, &[10, 10], 6, AHC | S17);
    test_decision(Stand, &[10, 10], 7, AHC | S17);
    test_decision(Stand, &[10, 10], 10, AHC | S17);
    test_decision(Stand, &[10, 10], 1, AHC | S17);

    test_decision(Split, &[9, 9], 2, AHC | S17);
    test_decision(Split, &[9, 9], 6, AHC | S17);
    test_decision(Stand, &[9, 9], 7, AHC | S17);
    test_decision(Split, &[9, 9], 8, AHC | S17);
    test_decision(Split, &[9, 9], 9, AHC | S17);
    test_decision(Stand, &[9, 9], 10, AHC | S17);
    test_decision(Stand, &[9, 9], 1, AHC | S17);

    test_decision(Split, &[8, 8], 2, AHC | S17);
    test_decision(Split, &[8, 8], 6, AHC | S17);
    test_decision(Split, &[8, 8], 7, AHC | S17);
    test_decision(Split, &[8, 8], 10, AHC | S17);
    test_decision(Hit, &[8, 8], 10, ENHC | S17);
    test_decision(Split, &[8, 8], 1, AHC | S17);
    test_decision(Hit, &[8, 8], 1, AHC | H17);
    test_decision(Hit, &[8, 8], 1, ENHC | S17);
    test_decision(Hit, &[8, 8], 1, ENHC | H17);

    test_decision(Split, &[7, 7], 2, AHC | S17);
    test_decision(Split, &[7, 7], 6, AHC | S17);
    test_decision(Split, &[7, 7], 7, AHC | S17);
    test_decision(Hit, &[7, 7], 8, AHC | S17);

    test_decision(Hit, &[6, 6], 2, AHC | S17);
    test_decision(Split, &[6, 6], 2, AHC | S17 | DAS);
    test_decision(Split, &[6, 6], 6, AHC | S17);
    test_decision(Hit, &[6, 6], 7, AHC | S17);

    test_decision(Double, &[5, 5], 2, AHC | S17);
    test_decision(Double, &[5, 5], 6, AHC | S17);
    test_decision(Double, &[5, 5], 7, AHC | S17);
    test_decision(Hit, &[5, 5], 10, AHC | S17);
    test_decision(Hit, &[5, 5], 1, AHC | S17);

    test_decision(Hit, &[4, 4], 2, AHC | S17);
    test_decision(Hit, &[4, 4], 4, AHC | S17);
    test_decision(Hit, &[4, 4], 5, AHC | S17);
    test_decision(Split, &[4, 4], 5, AHC | S17 | DAS);
    test_decision(Hit, &[4, 4], 6, AHC | S17);
    test_decision(Split, &[4, 4], 6, AHC | S17 | DAS);
    test_decision(Hit, &[4, 4], 7, AHC | S17);

    test_decision(Hit, &[3, 3], 2, AHC | S17);
    test_decision(Split, &[3, 3], 2, AHC | S17 | DAS);
    test_decision(Hit, &[3, 3], 3, AHC | S17);
    test_decision(Split, &[3, 3], 3, AHC | S17 | DAS);
    test_decision(Split, &[3, 3], 4, AHC | S17);
    test_decision(Split, &[3, 3], 7, AHC | S17);
    test_decision(Hit, &[3, 3], 8, AHC | S17);

    test_decision(Hit, &[2, 2], 2, AHC | S17);
    test_decision(Split, &[2, 2], 2, AHC | S17 | DAS);
    test_decision(Hit, &[2, 2], 3, AHC | S17);
    test_decision(Split, &[2, 2], 3, AHC | S17 | DAS);
    test_decision(Split, &[2, 2], 4, AHC | S17);
    test_decision(Split, &[2, 2], 7, AHC | S17);
    test_decision(Hit, &[2, 2], 8, AHC | S17);

    // low pairs never split against a dealer ace
    test_decision(Hit, &[2, 2], 1, AHC | S17 | DAS);
    test_decision(Hit, &[3, 3], 1, AHC | S17 | DAS);
    test_decision(Hit, &[6, 6], 1, AHC | S17 | DAS);
}

#[test]
fn it_plays_surrenders() {
    // the u-codes surrender late only when the dealer stands on soft 17
    test_surrender(true, &[10, 7], 1, AHC | S17 | LSURR);
    test_surrender(false, &[10, 7], 1, AHC | H17 | LSURR);
    test_surrender(true, &[10, 7], 1, AHC | S17 | ESURR);
    test_surrender(true, &[10, 7], 1, AHC | H17 | ESURR);

    test_surrender(true, &[10, 5], 1, AHC | S17 | LSURR);
    test_surrender(false, &[10, 5], 1, AHC | H17 | LSURR);
    test_surrender(true, &[10, 5], 1, AHC | S17 | ESURR);
    test_surrender(true, &[10, 5], 1, AHC | H17 | ESURR);
}

#[test]
fn it_plays_specific_deviations() {
    let rules = make_rules(AHC | S17);
    let mut game = make_context(rules, 0);

    let mut strat = BasicStrategy::new(true);
    strat.add_deviation(Deviation::from_str("20vs8:>+2D").unwrap());
    strat.add_deviation(Deviation::from_str("T/Tvs8:>+5V").unwrap());
    strat.add_deviation(Deviation::from_str("A5vs2:<-2D").unwrap());

    game.true_count = tc_halves(0);
    assert_eq!(
        strat.player_turn(&game, Card(8), &make_player_hand(&[10, 10])).unwrap(),
        Decision::Stand
    );

    game.true_count = tc_halves(4);
    assert_eq!(
        strat.player_turn(&game, Card(8), &make_player_hand(&[10, 10])).unwrap(),
        Decision::Double
    );

    game.true_count = tc_halves(7);
    assert_eq!(
        strat.player_turn(&game, Card(8), &make_player_hand(&[10, 10])).unwrap(),
        Decision::Double
    );

    game.true_count = tc_halves(10);
    assert_eq!(
        strat.player_turn(&game, Card(8), &make_player_hand(&[10, 10])).unwrap(),
        Decision::Split
    );

    game.true_count = tc_halves(0);
    assert_eq!(
        strat.player_turn(&game, Card(2), &make_player_hand(&[1, 5])).unwrap(),
        Decision::Hit
    );

    game.true_count = tc_halves(-4);
    assert_eq!(
        strat.player_turn(&game, Card(2), &make_player_hand(&[1, 5])).unwrap(),
        Decision::Double
    );
    assert_eq!(
        strat.player_turn(&game, Card(3), &make_player_hand(&[1, 5])).unwrap(),
        Decision::Hit
    );
}
