//! The sequential simulator: one worker playing many rounds against its
//! own private shoe, tallying winnings and per-hand statistics.

use vstd::prelude::*;
use std::collections::BTreeMap;
use crate::hand_stats::{HandStats, spec_stats_bounded};
use crate::running_stats::{RunningStats, MAX_STAT_VALUE};
use crate::round::RoundError;
use crate::round_factory::RoundFactory;
use crate::strategy::Strategy;
use crate::betting::BettingStrategy;
use crate::shoe::{CardShoe, ShoeError};

verus! {

/// A failure that ends a simulation: a fatal round error, a shoe that
/// cannot honor its configuration, or a per-round result too large to
/// tally exactly.
#[derive(PartialEq, Eq, Structural, Debug, Copy, Clone)]
pub enum SimulationError {
    Round(RoundError),
    Shoe(ShoeError),
    /// A single round's winnings exceeded what the exact tally accepts.
    ResultOutOfRange,
}

/// The aggregate outcome of one worker's rounds.
pub struct SimulationResult {
    /// Exact statistics of the per-round winnings of seat zero.
    pub winnings: RunningStats,
    /// Per-hand categorical counters summed over all rounds.
    pub hand_stats: HandStats,
    /// How many rounds ended at each winnings value.
    pub winning_distrib: BTreeMap<i64, u64>,
}

/// One simulation worker: plays `round_count` rounds from its own shoe,
/// forcing or correcting the count before or after each round when asked.
pub struct Simulator<S: Strategy, B: BettingStrategy, Sh: CardShoe> {
    round_count: u64,
    shoe: Sh,
    round_factory: RoundFactory<S, B>,
    force_tc: Option<i32>,
    adjust_rc: Option<i32>,
}

impl<S: Strategy, B: BettingStrategy, Sh: CardShoe> Simulator<S, B, Sh> {
    pub closed spec fn spec_round_count(&self) -> int {
        self.round_count as int
    }

    pub closed spec fn wf(&self) -> bool {
        &&& self.round_count <= 1_000_000_000_000
        &&& self.shoe.wf()
        &&& self.round_factory.wf()
        &&& (self.force_tc matches Some(t) ==> -100_000 <= t <= 100_000)
        &&& (self.adjust_rc matches Some(a) ==> -1_000_000 <= a <= 1_000_000)
    }

    /// Sets up a worker. `force_tc` forces the shoe's true count (in
    /// tenths) before every round; `adjust_rc` corrects the running count
    /// after every round for externally fixed starting cards.
    pub fn new(
        round_count: u64,
        shoe: Sh,
        round_factory: RoundFactory<S, B>,
        force_tc: Option<i32>,
        adjust_rc: Option<i32>,
    ) -> (r: Simulator<S, B, Sh>)
        requires
            round_count <= 1_000_000_000_000,
            shoe.wf(),
            round_factory.wf(),
            force_tc matches Some(t) ==> -100_000 <= t <= 100_000,
            adjust_rc matches Some(a) ==> -1_000_000 <= a <= 1_000_000,
        ensures
            r.wf(),
            r.spec_round_count() == round_count,
    {
        Simulator { round_count, shoe, round_factory, force_tc, adjust_rc }
    }

    /// Plays all rounds to completion. On success the tally holds exactly
    /// one winnings value per round, and the hand counters stay coherent;
    /// any fatal error ends the simulation at once.
    pub fn run(self) -> (r: Result<SimulationResult, SimulationError>)
        requires
            self.wf(),
        ensures
            r matches Ok(res) ==> {
                &&& res.winnings.wf()
                &&& res.winnings.spec_vals().len() == self.spec_round_count()
                &&& spec_stats_bounded(res.hand_stats)
                &&& res.hand_stats.total >= self.spec_round_count()
            },
            self.spec_round_count() == 0 ==> (r matches Ok(res) && res.hand_stats.total == 0
                && res.winning_distrib@.is_empty()),
            r == Err::<SimulationResult, SimulationError>(SimulationError::ResultOutOfRange)
                ==> self.spec_round_count() > 0,
    {
        let Simulator { round_count, mut shoe, round_factory, force_tc, adjust_rc } = self;

        let mut winnings = RunningStats::default();
        let mut hand_stats = HandStats::default();
        let mut winning_distrib: BTreeMap<i64, u64> = BTreeMap::new();

        let mut round_i: u64 = 0;
        while round_i < round_count
            invariant
                round_count == self.spec_round_count(),
                round_i <= round_count <= 1_000_000_000_000,
                round_i == 0 ==> winning_distrib@.is_empty(),
                shoe.wf(),
                round_factory.wf(),
                force_tc matches Some(t) ==> -100_000 <= t <= 100_000,
                adjust_rc matches Some(a) ==> -1_000_000 <= a <= 1_000_000,
                winnings.wf(),
                winnings.spec_vals().len() == round_i,
                spec_stats_bounded(hand_stats),
                round_i <= hand_stats.total <= round_i * 1007,
                forall|k: i64| winning_distrib@.contains_key(k)
                    ==> #[trigger] winning_distrib@[k] <= round_i,
            decreases round_count - round_i,
        {
            if let Some(tc) = force_tc {
                match shoe.force_true_count(tc) {
                    Ok(_) => {},
                    Err(e) => {
                        return Err(SimulationError::Shoe(e));
                    },
                }
            }

            let round = round_factory.make();
            let (_, outcome) = round.run(
                round_factory.strategy(),
                round_factory.betting(),
                &mut shoe,
            );
            let result = match outcome {
                Ok(result) => result,
                Err(e) => {
                    return Err(SimulationError::Round(e));
                },
            };

            if let Some(rel_rc) = adjust_rc {
                match shoe.adjust_running_count(rel_rc) {
                    Ok(_) => {},
                    Err(e) => {
                        return Err(SimulationError::Shoe(e));
                    },
                }
            }

            let num_result = result.player_results[0];
            if num_result < -MAX_STAT_VALUE || num_result > MAX_STAT_VALUE {
                return Err(SimulationError::ResultOutOfRange);
            }
            winnings.push(num_result);
            hand_stats.add_assign(result.hand_stats);

            let prev: u64 = match winning_distrib.get(&num_result) {
                Some(v) => *v,
                None => 0,
            };
            winning_distrib.insert(num_result, prev + 1);

            round_i = round_i + 1;
        }

        Ok(SimulationResult { winnings, hand_stats, winning_distrib })
    }
}

} // verus!
