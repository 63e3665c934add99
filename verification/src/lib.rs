//! Blackjack game engine with verified rules logic.
//!
//! The crate models one round of blackjack end to end: hands and their point
//! values, a card shoe with Hi-Lo count tracking, a table-driven decision
//! engine with count-triggered deviations, settlement, and the aggregate
//! statistics that a simulation collects over many rounds.

pub mod card;
pub mod parse_num;
pub mod hand;
pub mod game_rules;
pub mod hand_logic;
pub mod hand_stats;
pub mod strategy;
pub mod deviation;
pub mod basic_strategy;
pub mod shoe;
pub mod round;
pub mod running_stats;
pub mod options;
pub mod round_factory;
pub mod simulator;
pub mod output;
pub mod betting;
