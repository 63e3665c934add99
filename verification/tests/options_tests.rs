use freebj::options::{parse_suffix_int, parse_card_list, parse_penetration, get_rc_adjust};
use freebj::card::Card;

fn make_card_list(cards: &[u8]) -> Vec<Card> {
    cards.iter().map(|&c| Card(c)).collect()
}

#[test]
fn it_parses_suffix_int() {
    assert_eq!(parse_suffix_int("0"), Ok(0));
    assert_eq!(parse_suffix_int("42"), Ok(42));
    assert_eq!(parse_suffix_int("12k"), Ok(12_000));
    assert_eq!(parse_suffix_int("388M"), Ok(388_000_000));
    assert_eq!(parse_suffix_int("9G"), Ok(9_000_000_000));
}

#[test]
fn it_parses_card_list() {
    assert_eq!(parse_card_list("8,6"), Ok(make_card_list(&[8, 6])));
    assert_eq!(parse_card_list("2"), Ok(make_card_list(&[2])));
    assert_eq!(parse_card_list("A,8,3"), Ok(make_card_list(&[1, 8, 3])));

    assert_eq!(parse_card_list("A,12,3"), Err("Invalid card"));
    assert_eq!(parse_card_list("A,,3"), Err("Invalid card"));
    assert_eq!(parse_card_list("A,8,"), Err("Invalid card"));
    assert_eq!(parse_card_list("pp,8,"), Err("Invalid card"));
    assert_eq!(parse_card_list("10, 8,2"), Err("Invalid card"));
    assert_eq!(parse_card_list(""), Err("Invalid card"));
    assert_eq!(parse_card_list(","), Err("Invalid card"));
}

#[test]
fn it_parses_penetration() {
    assert_eq!(parse_penetration("100", 6), Ok(100));
    assert_eq!(parse_penetration("100", 2), Ok(100));
    assert_eq!(parse_penetration("5/6", 6), Ok(260));
    assert_eq!(parse_penetration("5/6", 3), Ok(130));
    assert_eq!(parse_penetration("100%", 6), Ok(312));
    assert_eq!(parse_penetration("80%", 6), Ok(250));
    assert_eq!(parse_penetration("54%", 3), Ok(84));
    assert_eq!(parse_penetration("4d", 6), Ok(208));
    assert_eq!(parse_penetration("4d", 4), Ok(208));

    assert_eq!(parse_penetration("aaa", 6), Err("Invalid penetration"));
    assert_eq!(parse_penetration("-12", 6), Err("Invalid penetration"));
    assert_eq!(parse_penetration("foo%", 6), Err("Invalid penetration"));
    assert_eq!(parse_penetration("0%", 6), Err("Invalid penetration"));
    assert_eq!(parse_penetration("-50%", 6), Err("Invalid penetration"));
    assert_eq!(parse_penetration("%", 6), Err("Invalid penetration"));
    assert_eq!(parse_penetration("6/a", 6), Err("Invalid penetration"));
    assert_eq!(parse_penetration("/2", 6), Err("Invalid penetration"));
    assert_eq!(parse_penetration("6/0", 6), Err("Invalid penetration"));
    assert_eq!(parse_penetration("-5/6", 6), Err("Invalid penetration"));
    assert_eq!(parse_penetration("53", 1), Err("Penetration cannot exceed 100 %"));
    assert_eq!(parse_penetration("5d", 4), Err("Penetration cannot exceed 100 %"));
    assert_eq!(parse_penetration("101%", 4), Err("Penetration cannot exceed 100 %"));
    assert_eq!(parse_penetration("7/6", 4), Err("Penetration cannot exceed 100 %"));
}

#[test]
fn it_adjusts_the_running_count_for_fixed_cards() {
    // high cards raise the correction, low cards lower it, 7 to 9 are neutral
    let start = make_card_list(&[10, 1, 8]);
    let dealer = make_card_list(&[3]);
    assert_eq!(get_rc_adjust(true, Some(&start), Some(&dealer)), Some(1));
    assert_eq!(get_rc_adjust(true, Some(&start), None), Some(2));
    assert_eq!(get_rc_adjust(false, Some(&start), Some(&dealer)), None);

    // a balanced list needs no correction at all
    let balanced = make_card_list(&[10, 5]);
    assert_eq!(get_rc_adjust(true, Some(&balanced), None), None);
}
