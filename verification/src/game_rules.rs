use vstd::prelude::*;

verus! {

#[derive(Debug, PartialEq, Eq, Structural, Copy, Clone)]
pub enum GameType {
    /// American holecard game
    Ahc,
    /// European no-holecard game
    Enhc,
}

#[derive(Debug, PartialEq, Eq, Structural, Copy, Clone)]
pub enum Soft17 {
    /// Dealer stands on soft 17 hands
    S17,
    /// Dealer hits soft 17 hands
    H17,
}

#[derive(Debug, PartialEq, Eq, Structural, Copy, Clone)]
pub enum SurrenderPolicy {
    /// Do not allow surrender
    NoSurrender,
    /// Allow early surrender
    EarlySurrender,
    /// Allow late surrender (AHC only)
    LateSurrender,
}

#[derive(Debug, PartialEq, Eq, Structural, Copy, Clone)]
pub enum DoublePolicy {
    /// Do not allow doubling-down for any hand
    NoDouble,
    /// Allow doubling-down any hand of any cards
    AnyHand,
    /// Allow doubling-down on any hand of two cards
    AnyTwo,
    /// Allow doubling-down on any hard hand of 9, 10, or 11
    Hard9To11,
    /// Allow doubling-down on any hard hand of 10 or 11
    Hard10To11,
}

/// The immutable per-simulation table rules. A natural blackjack always pays
/// three half-bets to two (handled directly by settlement).
#[derive(Debug, PartialEq, Eq, Structural, Copy, Clone)]
pub struct GameRules {
    pub game_type: GameType,
    pub soft17: Soft17,
    /// Double after split allowed
    pub das: bool,
    pub double_down: DoublePolicy,
    pub surrender: SurrenderPolicy,
    /// Whether hands split from an ace pair may be played on
    pub play_ace_pairs: bool,
    /// The maximum number of hands a player can reach by splitting
    pub max_splits: u32,
    /// The number of card decks in the shoe
    pub decks: u32,
    /// Number of cards dealt from the shoe before it must be reshuffled
    pub penetration_cards: u32,
}

pub open spec fn spec_default_rules() -> GameRules {
    GameRules {
        game_type: GameType::Ahc,
        soft17: Soft17::S17,
        das: true,
        double_down: DoublePolicy::AnyTwo,
        surrender: SurrenderPolicy::NoSurrender,
        play_ace_pairs: false,
        max_splits: 4,
        decks: 6,
        penetration_cards: 260,
    }
}

impl Default for GameRules {
    /// A six-deck American holecard game, stand on soft 17, double on any
    /// two cards, double after split allowed, no surrender, five of the six
    /// decks dealt before reshuffling.
    fn default() -> (r: Self)
        ensures
            r == spec_default_rules(),
    {
        GameRules {
            game_type: GameType::Ahc,
            soft17: Soft17::S17,
            das: true,
            double_down: DoublePolicy::AnyTwo,
            surrender: SurrenderPolicy::NoSurrender,
            play_ace_pairs: false,
            max_splits: 4,
            decks: 6,
            penetration_cards: 5 * 52,
        }
    }
}

} // verus!
