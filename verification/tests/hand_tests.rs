use freebj::hand::Hand;
use freebj::card::Card;

#[test]
fn it_returns_the_number_of_cards() {
    let empty = Hand::new();
    assert_eq!(empty.count(), 0);

    let mut hand = Hand::new();
    hand.add(Card(5));
    hand.add(Card(8));
    assert_eq!(hand.count(), 2);
}

#[test]
fn it_can_be_indexed() {
    let mut hand = Hand::new();
    hand.add(Card(10));
    hand.add(Card(7));
    hand.add(Card(4));

    assert_eq!(hand.card(0), Card(10));
    assert_eq!(hand.card(1), Card(7));
    assert_eq!(hand.card(2), Card(4));
}

#[test]
fn it_can_be_iterated_over() {
    let mut hand = Hand::new();
    hand.add(Card(10));
    hand.add(Card(7));
    hand.add(Card(4));

    let mut seen = Vec::new();
    for i in 0..hand.count() {
        seen.push(hand.card(i));
    }
    assert_eq!(seen, vec![Card(10), Card(7), Card(4)]);
}

#[test]
fn it_returns_the_value_of_hard_hands() {
    test_hand(&[10, 5], 15, Some(false), None, None);
    test_hand(&[7, 2, 2, 8], 19, Some(false), None, None);
    test_hand(&[10, 10, 10], 30, Some(false), None, None);
}

#[test]
fn it_handles_soft_hands() {
    test_hand(&[1, 8], 19, Some(true), None, None);
    test_hand(&[1, 2, 4], 17, Some(true), None, None);
    test_hand(&[1, 1], 12, Some(true), None, None);
    test_hand(&[5, 1], 16, Some(true), None, None);
    test_hand(&[1, 10], 21, Some(true), None, None);
    test_hand(&[10, 1], 21, Some(true), None, None);
    test_hand(&[2, 8, 1], 21, Some(true), None, None);
    test_hand(&[1, 3, 7], 21, Some(true), None, None);
}

#[test]
fn it_handles_hard_hands_with_aces() {
    test_hand(&[10, 8, 1], 19, Some(false), None, None);
    test_hand(&[10, 8, 1, 1, 1], 21, Some(false), None, None);
    test_hand(&[1, 7, 4], 12, Some(false), None, None);
    test_hand(&[5, 1, 4, 7], 17, Some(false), None, None);
}

#[test]
fn it_detects_busted_hands() {
    test_hand(&[10, 6, 6], 22, None, Some(true), None);
    test_hand(&[1, 6, 6, 9], 22, None, Some(true), None);
    test_hand(&[7, 7, 7, 1], 22, None, Some(true), None);
    test_hand(&[10, 7], 17, None, Some(false), None);
    test_hand(&[10, 1], 21, None, Some(false), None);
    test_hand(&[7, 7, 7], 21, None, Some(false), None);
}

#[test]
fn it_detects_blackjacks() {
    test_hand(&[1, 10], 21, Some(true), Some(false), Some(true));
    test_hand(&[10, 1], 21, Some(true), Some(false), Some(true));
    test_hand(&[7, 7, 7], 21, Some(false), Some(false), Some(false));
}

#[test]
fn it_holds_a_full_hand_of_aces() {
    // the largest hand the engine deals with: sixteen cards
    let ranks = [1u8; 16];
    let hand = Hand::from_ranks(&ranks);
    assert_eq!(hand.count(), 16);
    assert_eq!(hand.value(), 16);
    assert!(!hand.is_soft());
    assert!(!hand.is_busted());
}

fn test_hand(
    cards: &[u8],
    value: u8,
    is_soft: Option<bool>,
    is_busted: Option<bool>,
    is_bj: Option<bool>,
) {
    let hand = Hand::from_ranks(cards);

    assert_eq!(hand.value(), value, "cards: {:?}", cards);

    match is_soft {
        Some(true) => assert!(hand.is_soft(), "Expected SOFT hand: {:?}", cards),
        Some(false) => assert!(!hand.is_soft(), "Expected HARD hand: {:?}", cards),
        None => (),
    }

    match is_busted {
        Some(true) => assert!(hand.is_busted(), "Expected BUSTED: {:?}", cards),
        Some(false) => assert!(!hand.is_busted(), "Expected not BUSTED: {:?}", cards),
        None => (),
    }

    match is_bj {
        Some(true) => assert!(hand.is_bj(), "Expected BLACKJACK: {:?}", cards),
        Some(false) => assert!(!hand.is_bj(), "Expected not BLACKJACK: {:?}", cards),
        None => (),
    }
}
