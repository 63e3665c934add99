use vstd::prelude::*;
use std::collections::BTreeMap;

verus! {

/// The distribution of per-round winnings: how many rounds ended at each
/// signed result, keyed by the result in half-bet currency units.
pub struct WinningDistrib {
    pub distrib: BTreeMap<i64, u64>,
}

impl WinningDistrib {
    /// Wraps a winnings histogram for reporting.
    pub fn new(distrib: BTreeMap<i64, u64>) -> (r: WinningDistrib)
        ensures
            r.distrib@ == distrib@,
    {
        WinningDistrib { distrib }
    }
}

} // verus!
