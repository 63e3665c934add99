use freebj::hand_stats::HandStats;
use freebj::hand::Hand;
use freebj::hand_logic::hand_result;

#[test]
fn it_update_hand_stats() {
    //               Tt Wo Lo Pu Bu BJ Db Sp In Su
    test_hand_stats(&[10, 8], &[10, 7], 0, (1, 1, 0, 0, 0, 0, 0, 0, 0, 0));
    test_hand_stats(&[10, 8], &[1, 7], INSURED, (1, 0, 0, 1, 0, 0, 0, 0, 1, 0));
}

#[test]
fn it_sums_hand_stats() {
    let a = HandStats::from_tuple((3, 1, 1, 1, 0, 1, 0, 2, 0, 0));
    let b = HandStats::from_tuple((2, 2, 0, 0, 0, 0, 1, 0, 1, 0));
    let sum = a.add(b);
    assert_eq!(sum, HandStats::from_tuple((5, 3, 1, 1, 0, 1, 1, 2, 1, 0)));

    let mut acc = HandStats::default();
    acc.add_assign(a);
    acc.add_assign(b);
    assert_eq!(acc, sum);
}

const DOUBLED: u32 = 1 << 0;
const SURRENDERED: u32 = 1 << 1;
const INSURED: u32 = 1 << 2;
const SPLIT: u32 = 1 << 3;

fn test_hand_stats(
    player: &[u8],
    dealer: &[u8],
    opts: u32,
    values: (u64, u64, u64, u64, u64, u64, u64, u64, u64, u64),
) {
    let mut stats = HandStats::default();

    let mut player = Hand::from_ranks(player);
    if opts & DOUBLED > 0 {
        player.double_down();
    }
    if opts & SURRENDERED > 0 {
        player.surrender();
    }
    if opts & INSURED > 0 {
        player.insure();
    }
    if opts & SPLIT > 0 {
        player.split();
    }

    let dealer = Hand::from_ranks(dealer);

    let (outcome, _) = hand_result(&player, &dealer);
    stats.update(&player, outcome);

    assert_eq!(stats, HandStats::from_tuple(values));
}
