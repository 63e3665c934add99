use vstd::prelude::*;
use crate::card::Card;
use crate::game_rules::GameRules;
use crate::hand::all_valid;
use crate::strategy::{Strategy, Decision};
use crate::betting::BettingStrategy;
use crate::round::Round;

verus! {

/// Builds identically configured rounds: the simulator asks for a fresh
/// one before every deal. The factory owns the strategy and the betting
/// policy that every round it makes will consult.
pub struct RoundFactory<S: Strategy, B: BettingStrategy> {
    rules: GameRules,
    strategy: S,
    betting: B,
    num_players: u8,
    holecarding: bool,
    override_action: Option<Decision>,
    surrender_override: Option<bool>,
    start_cards: Vec<Card>,
    dealer_cards: Vec<Card>,
}

impl<S: Strategy, B: BettingStrategy> RoundFactory<S, B> {
    pub closed spec fn spec_strategy(&self) -> S {
        self.strategy
    }

    pub closed spec fn spec_betting(&self) -> B {
        self.betting
    }

    pub closed spec fn spec_rules(&self) -> GameRules {
        self.rules
    }

    pub closed spec fn spec_num_players(&self) -> int {
        self.num_players as int
    }

    pub closed spec fn wf(&self) -> bool {
        &&& 1 <= self.num_players <= 7
        &&& self.rules.max_splits <= 1000
        &&& !(self.surrender_override == Some(true) && self.override_action is Some)
        &&& all_valid(self.start_cards@)
        &&& all_valid(self.dealer_cards@)
        &&& self.strategy.wf()
        &&& self.betting.wf()
    }

    pub fn new(
        rules: GameRules,
        strategy: S,
        betting: B,
        num_players: u8,
        holecarding: bool,
        override_action: Option<Decision>,
        surrender_override: Option<bool>,
        start_cards: Vec<Card>,
        dealer_cards: Vec<Card>,
    ) -> (r: RoundFactory<S, B>)
        requires
            1 <= num_players <= 7,
            rules.max_splits <= 1000,
            !(surrender_override == Some(true) && override_action is Some),
            all_valid(start_cards@),
            all_valid(dealer_cards@),
            strategy.wf(),
            betting.wf(),
        ensures
            r.wf(),
            r.spec_strategy() == strategy,
            r.spec_betting() == betting,
            r.spec_rules() == rules,
            r.spec_num_players() == num_players,
    {
        RoundFactory {
            rules,
            strategy,
            betting,
            num_players,
            holecarding,
            override_action,
            surrender_override,
            start_cards,
            dealer_cards,
        }
    }

    /// The strategy every made round consults.
    pub fn strategy(&self) -> (r: &S)
        requires
            self.wf(),
        ensures
            *r == self.spec_strategy(),
            r.wf(),
    {
        &self.strategy
    }

    /// The betting policy every made round consults.
    pub fn betting(&self) -> (r: &B)
        requires
            self.wf(),
        ensures
            *r == self.spec_betting(),
            r.wf(),
    {
        &self.betting
    }

    /// Makes one fresh round with this factory's configuration.
    pub fn make(&self) -> (r: Round)
        requires
            self.wf(),
        ensures
            r.wf(),
            r.spec_rules() == self.spec_rules(),
            r.spec_num_players() == self.spec_num_players(),
            1 <= r.spec_num_players() <= 7,
            r.spec_hands().len() == self.spec_num_players(),
            r.spec_dealer().spec_cards().len() == 0,
            forall|k: int| 0 <= k < self.spec_num_players() ==> {
                &&& (#[trigger] r.spec_hands()[k]).spec_cards().len() == 0
                &&& r.spec_hands()[k].spec_bet() == 1
                &&& !r.spec_hands()[k].spec_surrendered()
                &&& !r.spec_hands()[k].spec_doubled()
                &&& !r.spec_hands()[k].spec_split()
                &&& !r.spec_hands()[k].spec_insured()
            },
    {
        let start_cards = clone_cards(&self.start_cards);
        let dealer_cards = clone_cards(&self.dealer_cards);
        Round::new(
            self.rules,
            self.num_players,
            self.holecarding,
            self.override_action,
            self.surrender_override,
            start_cards,
            dealer_cards,
        )
    }
}

/// Copies a card list.
fn clone_cards(cards: &Vec<Card>) -> (r: Vec<Card>)
    ensures
        r@ == cards@,
{
    let mut out: Vec<Card> = Vec::new();
    let mut i: usize = 0;
    while i < cards.len()
        invariant
            i <= cards@.len(),
            out@ =~= cards@.subrange(0, i as int),
        decreases cards@.len() - i,
    {
        out.push(cards[i]);
        i = i + 1;
    }
    proof {
        assert(cards@.subrange(0, cards@.len() as int) =~= cards@);
    }
    out
}

} // verus!
