use freebj::shoe::queued_shoe::QueuedShoe;
use freebj::shoe::{CardShoe, ShoeError};
use freebj::card::Card;

#[test]
fn it_picks_a_card_in_queued_shoe() {
    let mut shoe = QueuedShoe::from_ints(&[5, 6, 8][..]);

    assert_eq!(shoe.pick().unwrap(), Card(5));
    assert_eq!(shoe.pick().unwrap(), Card(6));
    assert!(!shoe.is_empty());
    assert_eq!(shoe.pick().unwrap(), Card(8));
    assert!(shoe.is_empty());
}

#[test]
fn it_reports_an_exhausted_queued_shoe() {
    let mut shoe = QueuedShoe::from_ints(&[5][..]);
    assert_eq!(shoe.pick().unwrap(), Card(5));
    assert_eq!(shoe.pick(), Err(ShoeError::Exhausted));
}

#[test]
fn it_picks_a_specific_card_in_queued_shoe() {
    let mut shoe = QueuedShoe::new(&[Card(5), Card(6), Card(8)][..]);
    assert_eq!(shoe.pick_first(Card(6)).unwrap(), Card(6));
    assert_eq!(shoe.pick_first(Card(6)), Err(ShoeError::CardUnavailable));
    assert_eq!(shoe.pick().unwrap(), Card(5));
    assert_eq!(shoe.pick().unwrap(), Card(8));
}
