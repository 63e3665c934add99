use freebj::shoe::file_shoe::FileShoe;
use freebj::shoe::CardShoe;
use freebj::card::Card;

#[test]
fn it_replays_recorded_cards() {
    let mut shoe = FileShoe::from_bytes(&[1, 6, 8, 10, 4]).expect("valid card bytes");

    assert_eq!(shoe.pick().unwrap(), Card(1));
    assert_eq!(shoe.pick().unwrap(), Card(6));
    assert_eq!(shoe.pick().unwrap(), Card(8));
    assert_eq!(shoe.pick().unwrap(), Card(10));
    assert_eq!(shoe.pick().unwrap(), Card(4));
}

#[test]
fn it_rejects_bytes_that_are_no_cards() {
    assert!(FileShoe::from_bytes(&[1, 6, 11]).is_err());
    assert!(FileShoe::from_bytes(&[0]).is_err());
}

#[test]
fn it_finds_a_specific_card_by_skipping() {
    let mut shoe = FileShoe::from_bytes(&[2; 40].iter().copied().chain([5]).collect::<Vec<u8>>()
        .as_slice()).expect("valid card bytes");
    assert_eq!(shoe.pick_first(Card(5)).unwrap(), Card(5));
}

#[test]
fn it_stretches_the_recording_with_a_growing_stride() {
    // 30 recorded cards allow strides 1 and 2 before the shoe ends
    let bytes: Vec<u8> = (0..30).map(|i| if i % 2 == 0 { 3 } else { 9 }).collect();
    let mut shoe = FileShoe::from_bytes(&bytes).expect("valid card bytes");
    let mut picked = 0;
    while shoe.try_pick().is_some() {
        picked += 1;
    }
    assert!(picked > 30, "the stride walk must revisit the recording");
}
