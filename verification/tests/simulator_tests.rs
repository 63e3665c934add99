use freebj::simulator::Simulator;
use freebj::round_factory::RoundFactory;
use freebj::basic_strategy::BasicStrategy;
use freebj::betting::FixedBet;
use freebj::game_rules::GameRules;
use freebj::shoe::standard_shoe::StandardShoe;

#[test]
fn it_simulates_rounds_and_tallies_them() {
    let rules = GameRules::default();
    let factory = RoundFactory::new(
        rules,
        BasicStrategy::new(false),
        FixedBet(10),
        1,
        false,
        None,
        None,
        Vec::new(),
        Vec::new(),
    );
    let shoe = StandardShoe::shuffled(rules.decks, rules.penetration_cards);
    let simulator = Simulator::new(50, shoe, factory, None, None);

    let result = simulator.run().expect("the simulation should complete");

    assert_eq!(result.winnings.count(), 50);
    assert!(result.hand_stats.total >= 50);
    assert_eq!(
        result.hand_stats.won + result.hand_stats.lost + result.hand_stats.push,
        result.hand_stats.total
    );
    let histogram_total: u64 = result.winning_distrib.values().sum();
    assert_eq!(histogram_total, 50);
}

#[test]
fn it_forces_the_true_count_each_round() {
    let rules = GameRules::default();
    let factory = RoundFactory::new(
        rules,
        BasicStrategy::new(true),
        FixedBet(10),
        1,
        false,
        None,
        None,
        Vec::new(),
        Vec::new(),
    );
    let shoe = StandardShoe::shuffled(rules.decks, rules.penetration_cards);
    let simulator = Simulator::new(20, shoe, factory, Some(30), None);

    let result = simulator.run().expect("the simulation should complete");
    assert_eq!(result.winnings.count(), 20);
}
