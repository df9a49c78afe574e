//! The win/loss statistics record.
//!
//! The win rate is a percentage; floating point stays outside the library,
//! so the record carries it scaled to hundredths of a percent, rounded
//! down: `rate_centi == won * 10000 / (won + lost)`, and `0` before any
//! game has ended.

use vstd::prelude::*;
use vstd::arithmetic::div_mod::lemma_div_is_ordered;
use vstd::arithmetic::div_mod::lemma_div_multiples_vanish;
use vstd::arithmetic::div_mod::lemma_div_multiples_vanish_fancy;

verus! {

/// The win rate `won / (won + lost) * 100`, in hundredths of a percent,
/// rounded down; `0` when no game has ended yet.
pub open spec fn rate_centi_spec(won: nat, lost: nat) -> nat {
    if won + lost == 0 {
        0
    } else {
        (won * 10000) / (won + lost)
    }
}

/// The scaled win rate never exceeds 100 percent.
pub proof fn lemma_rate_centi_bound(won: nat, lost: nat)
    ensures
        rate_centi_spec(won, lost) <= 10000,
{
    if won + lost != 0 {
        let t = (won + lost) as int;
        assert(won * 10000 <= t * 10000);
        lemma_div_is_ordered((won * 10000) as int, t * 10000, t);
        lemma_div_multiples_vanish(10000, t);
    }
}

/// Wins, losses and the derived win rate, as persisted between runs.
#[derive(Clone, Copy, Debug, PartialEq, Eq, Structural)]
pub struct StatsRecord {
    /// Rounds won, over all runs.
    pub won: u32,
    /// Rounds lost, over all runs.
    pub lost: u32,
    /// The win rate in hundredths of a percent, rounded down.
    pub rate_centi: u32,
}

impl StatsRecord {
    /// The rate field agrees with the counters.
    pub open spec fn wf(self) -> bool {
        self.rate_centi == rate_centi_spec(self.won as nat, self.lost as nat)
    }

    /// The record with its rate recomputed from the counters.
    pub open spec fn recomputed(self) -> StatsRecord {
        StatsRecord {
            rate_centi: rate_centi_spec(self.won as nat, self.lost as nat) as u32,
            ..self
        }
    }

    /// Build a record from the two counters, rate derived.
    pub fn new(won: u32, lost: u32) -> (r: StatsRecord)
        ensures
            r.won == won,
            r.lost == lost,
            r.wf(),
    {
        StatsRecord { won, lost, rate_centi: rate_centi(won, lost) }
    }

    /// Recompute the rate field from the counters; they are unchanged.
    pub fn recompute(&mut self)
        ensures
            *final(self) == old(self).recomputed(),
            final(self).won == old(self).won,
            final(self).lost == old(self).lost,
            final(self).wf(),
    {
        self.rate_centi = rate_centi(self.won, self.lost);
        proof {
            lemma_rate_centi_bound(self.won as nat, self.lost as nat);
        }
    }

    /// Count one more won round and recompute the rate.
    pub fn record_win(&mut self)
        requires
            old(self).won < u32::MAX,
        ensures
            final(self).won == old(self).won + 1,
            final(self).lost == old(self).lost,
            final(self).wf(),
    {
        self.won = self.won + 1;
        self.recompute();
    }

    /// Count one more lost round and recompute the rate.
    pub fn record_loss(&mut self)
        requires
            old(self).lost < u32::MAX,
        ensures
            final(self).won == old(self).won,
            final(self).lost == old(self).lost + 1,
            final(self).wf(),
    {
        self.lost = self.lost + 1;
        self.recompute();
    }

    /// The whole-percent win rate, rounded up: what the stats popup shows.
    pub fn rate_ceil_percent(&self) -> (r: u32)
        ensures
            self.won + self.lost == 0 ==> r == 0,
            self.won + self.lost > 0 ==> r == (self.won * 100 + (self.won + self.lost)
                - 1) / (self.won + self.lost),
            r <= 100,
    {
        let total: u64 = self.won as u64 + self.lost as u64;
        if total == 0 {
            0
        } else {
            let c: u64 = (self.won as u64 * 100 + total - 1) / total;
            proof {
                let t = total as int;
                assert(self.won * 100 + t - 1 <= t * 100 + (t - 1));
                lemma_div_is_ordered(self.won * 100 + t - 1, t * 100 + (t - 1), t);
                lemma_div_multiples_vanish_fancy(100, t - 1, t);
            }
            c as u32
        }
    }
}

/// The scaled win rate of the given counters, computed exactly.
pub fn rate_centi(won: u32, lost: u32) -> (r: u32)
    ensures
        r == rate_centi_spec(won as nat, lost as nat),
{
    let total: u64 = won as u64 + lost as u64;
    if total == 0 {
        0
    } else {
        let c: u64 = (won as u64 * 10000) / total;
        proof {
            lemma_rate_centi_bound(won as nat, lost as nat);
        }
        c as u32
    }
}

/// Recomputing the win rate is idempotent: recomputing a second time from
/// the same counters leaves the record unchanged.
pub proof fn lemma_recompute_idempotent(r: StatsRecord)
    ensures
        r.recomputed().recomputed() == r.recomputed(),
{
}

/// A record whose rate already agrees with its counters is left unchanged
/// by a recomputation.
pub proof fn lemma_recompute_fixed_point(r: StatsRecord)
    requires
        r.wf(),
    ensures
        r.recomputed() == r,
{
    lemma_rate_centi_bound(r.won as nat, r.lost as nat);
}

} // verus!
