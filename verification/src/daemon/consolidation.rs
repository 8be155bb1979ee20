//! When idle agents are asked to tidy their memory.
use vstd::prelude::*;

use crate::table::Table;

verus! {

/// When each agent was last tidied, in nanoseconds of some clock.
pub struct ConsolidationClock {
    last: Table<u64>,
    interval_secs: u64,
}

/// What an agent answered.
pub enum Consolidation {
    /// It was idle for long enough and did the work.
    Ran,
    /// It was not idle for long enough.
    Skipped,
    Failed,
}

/// Less than an interval has passed; a clock that went back counts as no time.
pub open spec fn is_recent(last: u64, now: u64, interval_secs: u64) -> bool {
    (if now >= last {
        now - last
    } else {
        0
    }) < interval_secs * 1_000_000_000
}

impl ConsolidationClock {
    /// When each agent was last tidied.
    pub closed spec fn view(&self) -> Map<Seq<char>, u64> {
        self.last@
    }

    pub closed spec fn interval(self) -> u64 {
        self.interval_secs
    }

    /// A clock under which no agent was tidied yet.
    pub fn new(interval_secs: u64) -> (r: ConsolidationClock)
        ensures
            r@ == Map::<Seq<char>, u64>::empty(),
            r.interval() == interval_secs,
    {
        ConsolidationClock { last: Table::new(), interval_secs }
    }

    /// Whether an agent is to be asked: it was not tidied within the interval.
    pub fn is_due(&self, agent_id: &str, now: u64) -> (r: bool)
        ensures
            r == !(self@.dom().contains(agent_id@) && is_recent(self@[agent_id@], now, self.interval())),
    {
        match self.last.get(agent_id) {
            None => true,
            Some(t) => {
                let passed: u64 = if now >= *t {
                    now - *t
                } else {
                    0
                };
                (passed as u128) >= (self.interval_secs as u128) * 1_000_000_000
            },
        }
    }

    /// Takes an agent's answer: only work that was done starts a new interval.
    pub fn record(&mut self, agent_id: &str, outcome: Consolidation, now: u64)
        ensures
            final(self).interval() == old(self).interval(),
            final(self)@ == if outcome is Ran {
                old(self)@.insert(agent_id@, now)
            } else {
                old(self)@
            },
    {
        match outcome {
            Consolidation::Ran => {
                self.last.insert(agent_id.to_owned(), now);
            },
            _ => {},
        }
    }
}

/// An agent that was just tidied is not asked again before the interval has
/// passed, and is asked once it has.
pub proof fn law_interval_is_kept(at: u64, now: u64, interval_secs: u64)
    requires
        at <= now,
    ensures
        is_recent(at, now, interval_secs) <==> now - at < interval_secs * 1_000_000_000,
{
}

} // verus!
