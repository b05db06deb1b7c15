//! Cumulative combat counters over a stream of hits.
//!
//! A [`CombatStats`] records the running totals for one category of combat
//! activity (damage dealt, healing dealt, or damage taken): the summed value,
//! the hit count, and the critical / lucky splits. Counters only grow while
//! an encounter runs and are cleared on reset.

use vstd::prelude::*;

verus! {

/// Cumulative counters over a stream of hits. All counters are monotonic
/// within an encounter; 128-bit width tolerates extreme bursts.
#[derive(Debug, Clone, Copy, PartialEq, Eq, Structural)]
pub struct CombatStats {
    /// Sum of all hit values.
    pub total: u128,
    /// Number of hits.
    pub hits: u128,
    /// Number of critical hits.
    pub crit_hits: u128,
    /// Sum of values of critical hits.
    pub crit_total: u128,
    /// Number of lucky hits.
    pub lucky_hits: u128,
    /// Sum of values of lucky hits.
    pub lucky_total: u128,
}

/// The all-zero counter state.
pub open spec fn spec_stats_zero() -> CombatStats {
    CombatStats { total: 0, hits: 0, crit_hits: 0, crit_total: 0, lucky_hits: 0, lucky_total: 0 }
}

/// True when one more hit of `value` (with the given crit / lucky flags)
/// can be added to `s` without any counter overflowing.
pub open spec fn spec_stats_fits(s: CombatStats, value: u128) -> bool {
    &&& s.total + value <= u128::MAX
    &&& s.hits + 1 <= u128::MAX
    &&& s.crit_hits + 1 <= u128::MAX
    &&& s.crit_total + value <= u128::MAX
    &&& s.lucky_hits + 1 <= u128::MAX
    &&& s.lucky_total + value <= u128::MAX
}

/// The counter state after one hit of `value` with the given flags:
/// `total` grows by the value and `hits` by one; the crit and lucky splits
/// grow the same way when their flag is set. Crit and lucky are independent.
pub open spec fn spec_stats_after_hit(s: CombatStats, value: u128, crit: bool, lucky: bool) -> CombatStats {
    CombatStats {
        total: (s.total + value) as u128,
        hits: (s.hits + 1) as u128,
        crit_hits: if crit { (s.crit_hits + 1) as u128 } else { s.crit_hits },
        crit_total: if crit { (s.crit_total + value) as u128 } else { s.crit_total },
        lucky_hits: if lucky { (s.lucky_hits + 1) as u128 } else { s.lucky_hits },
        lucky_total: if lucky { (s.lucky_total + value) as u128 } else { s.lucky_total },
    }
}

/// Every counter of `a` is at most the matching counter of `b`.
/// The boss-only split of an entity stays below its full damage counters.
pub open spec fn spec_stats_le(a: CombatStats, b: CombatStats) -> bool {
    &&& a.total <= b.total
    &&& a.hits <= b.hits
    &&& a.crit_hits <= b.crit_hits
    &&& a.crit_total <= b.crit_total
    &&& a.lucky_hits <= b.lucky_hits
    &&& a.lucky_total <= b.lucky_total
}

impl CombatStats {
    /// Fresh counters with every field zero.
    pub fn new() -> (r: CombatStats)
        ensures
            r == spec_stats_zero(),
    {
        CombatStats { total: 0, hits: 0, crit_hits: 0, crit_total: 0, lucky_hits: 0, lucky_total: 0 }
    }

    /// Runtime check of [`spec_stats_fits`].
    pub fn fits(&self, value: u128) -> (r: bool)
        ensures
            r == spec_stats_fits(*self, value),
    {
        self.total <= u128::MAX - value && self.hits < u128::MAX && self.crit_hits < u128::MAX
            && self.crit_total <= u128::MAX - value && self.lucky_hits < u128::MAX
            && self.lucky_total <= u128::MAX - value
    }

    /// Record one hit of `value` with the given crit / lucky flags.
    pub fn apply_hit(&mut self, value: u128, crit: bool, lucky: bool)
        requires
            spec_stats_fits(*old(self), value),
        ensures
            *final(self) == spec_stats_after_hit(*old(self), value, crit, lucky),
    {
        self.total = self.total + value;
        self.hits = self.hits + 1;
        if crit {
            self.crit_hits = self.crit_hits + 1;
            self.crit_total = self.crit_total + value;
        }
        if lucky {
            self.lucky_hits = self.lucky_hits + 1;
            self.lucky_total = self.lucky_total + value;
        }
    }
}

impl Default for CombatStats {
    /// Fresh counters with every field zero.
    fn default() -> (r: CombatStats)
        ensures
            r == spec_stats_zero(),
    {
        CombatStats::new()
    }
}

} // verus!
