use freebj::card::Card;

#[test]
fn it_converts_from_str() {
    assert_eq!(Card::try_from_str("2"), Ok(Card(2)));
    assert_eq!(Card::try_from_str("5"), Ok(Card(5)));
    assert_eq!(Card::try_from_str("10"), Ok(Card(10)));
    assert_eq!(Card::try_from_str("A"), Ok(Card(1)));

    assert_eq!(Card::try_from_str("11"), Err("Invalid card"));
    assert_eq!(Card::try_from_str("96558"), Err("Invalid card"));
    assert_eq!(Card::try_from_str("0"), Err("Invalid card"));
    assert_eq!(Card::try_from_str("1"), Err("Invalid card"));
    assert_eq!(Card::try_from_str(" 5"), Err("Invalid card"));
    assert_eq!(Card::try_from_str("8 "), Err("Invalid card"));
    assert_eq!(Card::try_from_str("AA"), Err("Invalid card"));
}
