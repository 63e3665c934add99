use freebj::hand_logic::{hand_result, may_double, HandOutcome};
use freebj::game_rules::DoublePolicy::{AnyHand, AnyTwo, Hard9To11, Hard10To11, NoDouble};
use freebj::hand_logic::HandOutcome::{Win, Push, Lose};
use freebj::hand::Hand;

#[test]
fn it_returns_the_hand_result() {
    test_hand_result(Push, 0.0, &[10, 10], &[10, 10], 0);
    test_hand_result(Win, 1.0, &[10, 10], &[10, 9], 0);
    test_hand_result(Lose, -1.0, &[10, 6], &[10, 9], 0);

    test_hand_result(Push, 0.0, &[10, 10], &[10, 10], DOUBLED);
    test_hand_result(Win, 2.0, &[10, 10], &[10, 9], DOUBLED);
    test_hand_result(Lose, -2.0, &[10, 6], &[10, 9], DOUBLED);

    test_hand_result(Win, 1.5, &[10, 1], &[7, 7, 7], 0);
    test_hand_result(Push, 0.0, &[10, 1], &[1, 10], 0);
    test_hand_result(Lose, -1.0, &[7, 7, 7], &[10, 1], 0);

    test_hand_result(Lose, -1.0, &[7, 7, 8], &[10, 7], 0);
    test_hand_result(Lose, -1.0, &[7, 7, 8], &[10, 6, 9], 0);
    test_hand_result(Win, 1.0, &[8, 8], &[10, 6, 9], 0);

    test_hand_result(Lose, -0.5, &[8, 8], &[10, 7], SURRENDERED);
    test_hand_result(Lose, -0.5, &[8, 8], &[10, 6, 9], SURRENDERED);

    test_hand_result(Push, 0.0, &[1, 10], &[7, 7, 7], SPLIT);

    test_hand_result(Push, 1.0, &[1, 10], &[1, 10], INSURED);
    test_hand_result(Lose, 0.0, &[7, 7, 7], &[1, 10], INSURED);
    test_hand_result(Win, 0.5, &[7, 7, 7], &[1, 9], INSURED);
    test_hand_result(Lose, -1.5, &[10, 6, 7], &[1, 9], INSURED);
}

#[test]
fn it_determines_whether_it_can_double_down() {
    assert!(may_double(AnyHand, true, &Hand::from_ranks(&[4, 7])));
    assert!(may_double(AnyHand, false, &Hand::from_ranks(&[4, 7])));
    assert!(may_double(AnyHand, false, &Hand::from_ranks(&[4, 3, 8])));
    let mut hand = Hand::from_ranks(&[4, 3, 8]);
    hand.split();
    assert!(!may_double(AnyHand, false, &hand));
    assert!(may_double(AnyHand, true, &hand));

    assert!(may_double(AnyTwo, true, &Hand::from_ranks(&[4, 7])));
    assert!(may_double(AnyTwo, false, &Hand::from_ranks(&[4, 7])));
    assert!(may_double(AnyTwo, false, &Hand::from_ranks(&[1, 7])));
    assert!(!may_double(AnyTwo, false, &Hand::from_ranks(&[4, 3, 8])));

    assert!(!may_double(Hard9To11, true, &Hand::from_ranks(&[5, 3])));
    assert!(may_double(Hard9To11, true, &Hand::from_ranks(&[4, 5])));
    assert!(may_double(Hard9To11, true, &Hand::from_ranks(&[4, 6])));
    assert!(may_double(Hard9To11, true, &Hand::from_ranks(&[4, 7])));
    assert!(!may_double(Hard9To11, true, &Hand::from_ranks(&[4, 8])));
    assert!(!may_double(Hard9To11, true, &Hand::from_ranks(&[1, 2])));

    assert!(!may_double(Hard10To11, true, &Hand::from_ranks(&[5, 3])));
    assert!(!may_double(Hard10To11, true, &Hand::from_ranks(&[4, 5])));
    assert!(may_double(Hard10To11, true, &Hand::from_ranks(&[4, 6])));
    assert!(may_double(Hard10To11, true, &Hand::from_ranks(&[4, 7])));
    assert!(!may_double(Hard10To11, true, &Hand::from_ranks(&[4, 8])));
    assert!(!may_double(Hard10To11, true, &Hand::from_ranks(&[1, 2])));

    assert!(!may_double(NoDouble, true, &Hand::from_ranks(&[5, 3])));
    assert!(!may_double(NoDouble, true, &Hand::from_ranks(&[4, 5])));
    assert!(!may_double(NoDouble, true, &Hand::from_ranks(&[4, 6])));
    assert!(!may_double(NoDouble, true, &Hand::from_ranks(&[4, 7])));
    assert!(!may_double(NoDouble, true, &Hand::from_ranks(&[4, 8])));
    assert!(!may_double(NoDouble, true, &Hand::from_ranks(&[1, 2])));
}

const DOUBLED: u32 = 1 << 0;
const SURRENDERED: u32 = 1 << 1;
const INSURED: u32 = 1 << 2;
const SPLIT: u32 = 1 << 3;

fn test_hand_result(
    expected_outcome: HandOutcome,
    expected_result: f64,
    player: &[u8],
    dealer: &[u8],
    opts: u32,
) {
    let mut player = Hand::from_ranks(player);
    if opts & DOUBLED > 0 {
        player.double_down();
    }
    if opts & SURRENDERED > 0 {
        player.surrender();
    }
    if opts & INSURED > 0 {
        player.insure();
    }
    if opts & SPLIT > 0 {
        player.split();
    }
    let dealer = Hand::from_ranks(dealer);

    let (outcome, result) = hand_result(&player, &dealer);

    assert_eq!(outcome, expected_outcome);
    // the library settles in half-bet units
    assert_eq!(result, (expected_result * 2.0) as i32);
}
