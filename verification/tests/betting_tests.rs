use freebj::betting::{FixedBet, BettingStrategy, HiloBetting};

#[test]
fn it_uses_a_fixed_bet() {
    let betting = FixedBet(5);

    assert_eq!(betting.place_bet(0), 5);
    assert_eq!(betting.place_bet(3), 5);
    assert_eq!(betting.place_bet(-1), 5);
}

#[test]
fn it_uses_hilo_betting() {
    let betting = HiloBetting::new(7, 2, None, None, None);

    assert_eq!(betting.place_bet(-5), 0);
    assert_eq!(betting.place_bet(-1), 5);
    assert_eq!(betting.place_bet(0), 7);
    assert_eq!(betting.place_bet(1), 9);
    assert_eq!(betting.place_bet(2), 11);
    assert_eq!(betting.place_bet(10), 27);
}

#[test]
fn it_uses_a_specific_bet_on_negative_or_zero_counts() {
    let betting = HiloBetting::new(10, 2, Some(5), None, None);

    assert_eq!(betting.place_bet(-5), 5);
    assert_eq!(betting.place_bet(-1), 5);
    assert_eq!(betting.place_bet(0), 5);
    assert_eq!(betting.place_bet(1), 12);
    assert_eq!(betting.place_bet(2), 14);
    assert_eq!(betting.place_bet(10), 30);
}

#[test]
fn it_stops_increasing_on_a_maximum_tc() {
    let betting = HiloBetting::new(10, 2, None, Some(5), None);

    assert_eq!(betting.place_bet(-5), 0);
    assert_eq!(betting.place_bet(-1), 8);
    assert_eq!(betting.place_bet(0), 10);
    assert_eq!(betting.place_bet(1), 12);
    assert_eq!(betting.place_bet(2), 14);
    assert_eq!(betting.place_bet(10), 20);
}

#[test]
fn it_wongouts_under_a_specific_tc() {
    let betting = HiloBetting::new(10, 2, None, None, Some(-4));

    assert_eq!(betting.place_bet(-5), 0);
    assert_eq!(betting.place_bet(-4), 0);
    assert_eq!(betting.place_bet(-3), 4);
    assert_eq!(betting.place_bet(-1), 8);
    assert_eq!(betting.place_bet(0), 10);
    assert_eq!(betting.place_bet(1), 12);
    assert_eq!(betting.place_bet(2), 14);
    assert_eq!(betting.place_bet(10), 30);
}

#[test]
fn it_uses_hilo_betting_with_all_options() {
    let betting = HiloBetting::new(0, 10, Some(5), Some(5), Some(-5));

    assert_eq!(betting.place_bet(-5), 0);
    assert_eq!(betting.place_bet(-4), 5);
    assert_eq!(betting.place_bet(-3), 5);
    assert_eq!(betting.place_bet(-1), 5);
    assert_eq!(betting.place_bet(0), 5);
    assert_eq!(betting.place_bet(1), 10);
    assert_eq!(betting.place_bet(2), 20);
    assert_eq!(betting.place_bet(5), 50);
    assert_eq!(betting.place_bet(6), 50);
    assert_eq!(betting.place_bet(10), 50);
}
