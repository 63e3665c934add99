use freebj::card::Card;
use freebj::shoe::standard_shoe::StandardShoe;
use freebj::shoe::{CardShoe, ShoeError};

fn drain(shoe: &mut StandardShoe) -> Vec<Card> {
    let mut out = Vec::new();
    while let Some(c) = shoe.try_pick() {
        out.push(c);
    }
    out
}

fn count_rank(cards: &[Card], rank: u8) -> usize {
    cards.iter().filter(|c| c.0 == rank).count()
}

fn true_count_of(shoe: &StandardShoe) -> f64 {
    let tc = shoe.true_count();
    tc.rc as f64 * 52.0 / tc.cards_left as f64
}

#[test]
fn it_creates_a_one_deck_shoe() {
    let mut shoe = StandardShoe::non_shuffled(1, 52);

    let cards = drain(&mut shoe);
    assert_eq!(cards.len(), 52);

    for card in 1..=9 {
        assert_eq!(count_rank(&cards, card), 4);
    }
    assert_eq!(count_rank(&cards, 10), 16);
}

#[test]
fn it_tries_to_pick_a_specific_card() {
    let mut shoe = StandardShoe::shuffled(1, 52);

    assert_eq!(shoe.try_pick_first(Card(5)), Some(Card(5)));
    assert_eq!(shoe.try_pick_first(Card(5)), Some(Card(5)));
    assert_eq!(shoe.try_pick_first(Card(5)), Some(Card(5)));
    assert_eq!(shoe.try_pick_first(Card(5)), Some(Card(5)));
    assert_eq!(shoe.try_pick_first(Card(5)), None);

    let cards = drain(&mut shoe);
    for card in 1..=9 {
        let expected_count = if card == 5 { 0 } else { 4 };
        assert_eq!(count_rank(&cards, card), expected_count);
    }
    assert_eq!(count_rank(&cards, 10), 16);
}

#[test]
fn it_can_be_reshuffled() {
    let mut shoe = StandardShoe::shuffled(1, 52);

    assert_eq!(shoe.try_pick_first(Card(5)), Some(Card(5)));
    assert_eq!(shoe.try_pick_first(Card(5)), Some(Card(5)));
    assert_eq!(shoe.try_pick_first(Card(5)), Some(Card(5)));
    assert_eq!(shoe.try_pick_first(Card(5)), Some(Card(5)));
    assert_eq!(shoe.try_pick_first(Card(5)), None);

    shoe.reshuffle();

    assert_eq!(shoe.try_pick_first(Card(5)), Some(Card(5)));
    assert_eq!(shoe.try_pick_first(Card(5)), Some(Card(5)));
    assert_eq!(shoe.try_pick_first(Card(5)), Some(Card(5)));
    assert_eq!(shoe.try_pick_first(Card(5)), Some(Card(5)));
    assert_eq!(shoe.try_pick_first(Card(5)), None);
}

#[test]
fn it_picks_a_card() {
    let mut shoe = StandardShoe::non_shuffled(1, 52);

    assert_eq!(shoe.try_pick(), Some(Card(10)));
    assert_eq!(shoe.try_pick(), Some(Card(10)));
    assert_eq!(shoe.try_pick(), Some(Card(10)));
    assert_eq!(shoe.try_pick(), Some(Card(10)));
    assert_eq!(shoe.try_pick(), Some(Card(9)));
    assert_eq!(shoe.try_pick(), Some(Card(8)));
}

#[test]
fn it_returns_the_running_count() {
    let mut shoe = StandardShoe::shuffled(4, 208);

    assert_eq!(shoe.running_count(), 0);
    shoe.try_pick_first(Card(8)).unwrap();
    assert_eq!(shoe.running_count(), 0);
    shoe.try_pick_first(Card(3)).unwrap();
    assert_eq!(shoe.running_count(), 1);
    shoe.try_pick_first(Card(6)).unwrap();
    shoe.try_pick_first(Card(2)).unwrap();
    assert_eq!(shoe.running_count(), 3);
    shoe.try_pick_first(Card(7)).unwrap();
    shoe.try_pick_first(Card(8)).unwrap();
    shoe.try_pick_first(Card(9)).unwrap();
    assert_eq!(shoe.running_count(), 3);
    shoe.try_pick_first(Card(10)).unwrap();
    assert_eq!(shoe.running_count(), 2);
    shoe.try_pick_first(Card(1)).unwrap();
    assert_eq!(shoe.running_count(), 1);
}

#[test]
fn it_needs_reshuffling_because_of_penetration() {
    let mut shoe = StandardShoe::shuffled(1, 3);

    assert!(!shoe.needs_reshuffle());
    shoe.pick().unwrap();
    shoe.pick().unwrap();
    assert!(!shoe.needs_reshuffle());
    shoe.pick().unwrap();
    assert!(shoe.needs_reshuffle());
    shoe.pick().unwrap();
    assert!(shoe.needs_reshuffle());
}

#[test]
fn it_forces_a_specific_true_count() {
    let mut shoe = StandardShoe::non_shuffled(2, 104);

    shoe.force_true_count(30).unwrap();

    assert_eq!(shoe.running_count(), 6);
    assert!((true_count_of(&shoe) - 3.184).abs() < 0.001);

    let mut shoe = StandardShoe::non_shuffled(2, 104);

    shoe.force_true_count(-50).unwrap();

    assert_eq!(shoe.running_count(), -9);
    assert!((true_count_of(&shoe) - -4.926).abs() < 0.001);
}

#[test]
fn it_removes_all_high_cards_single_deck() {
    let mut shoe = StandardShoe::non_shuffled(1, 52);

    shoe.force_true_count(-325).unwrap();

    assert_eq!(shoe.running_count(), -20);
    assert_eq!(true_count_of(&shoe), -32.5);
    let cards = drain(&mut shoe);
    assert_eq!(count_rank(&cards, 10) + count_rank(&cards, 1), 0);
}

#[test]
fn it_removes_low_high_cards_single_deck() {
    let mut shoe = StandardShoe::non_shuffled(1, 52);

    shoe.force_true_count(325).unwrap();

    assert_eq!(shoe.running_count(), 20);
    assert_eq!(true_count_of(&shoe), 32.5);
    let cards = drain(&mut shoe);
    assert_eq!(cards.iter().filter(|c| c.0 >= 2 && c.0 <= 6).count(), 0);
}

#[test]
fn it_rejects_unreachable_true_counts() {
    let mut shoe = StandardShoe::non_shuffled(1, 52);
    assert_eq!(shoe.force_true_count(330), Err(ShoeError::TargetUnreachable));

    let mut shoe = StandardShoe::non_shuffled(1, 52);
    assert_eq!(shoe.force_true_count(-330), Err(ShoeError::TargetUnreachable));
}

#[test]
fn it_adjusts_the_running_count_by_removing_cards() {
    let mut shoe = StandardShoe::non_shuffled(1, 52);
    shoe.adjust_running_count(3).unwrap();
    assert_eq!(shoe.running_count(), 3);

    let cards = drain(&mut shoe);
    assert_eq!(cards.len(), 49);
    // exactly three low cards are gone
    assert_eq!(cards.iter().filter(|c| c.0 >= 2 && c.0 <= 6).count(), 17);

    let mut shoe = StandardShoe::non_shuffled(1, 52);
    shoe.adjust_running_count(-2).unwrap();
    assert_eq!(shoe.running_count(), -2);
    let cards = drain(&mut shoe);
    assert_eq!(count_rank(&cards, 10) + count_rank(&cards, 1), 18);
}
