//! The token budget of one execution of an agent.
use vstd::prelude::*;

use crate::llm::provider::{TokenUsageStats, usage_of};
use crate::token::counter::TokenCounter;

verus! {

/// What is done when a budget does not suffice.
#[derive(Debug, Clone, Copy, PartialEq, Eq, Structural)]
pub enum OverflowPolicy {
    Abort,
    Warn,
}

/// How many tokens a call and an execution may use.
#[derive(Debug, Clone, Copy, PartialEq, Eq, Structural)]
pub struct TokenBudget {
    pub per_call: usize,
    pub per_execution: usize,
    pub overflow_policy: OverflowPolicy,
}

/// Why a budget does not suffice.
#[derive(Debug, Clone, Copy, PartialEq, Eq, Structural)]
pub enum BudgetError {
    ExecutionBudgetExceeded { used: usize, budget: usize },
    WouldExceedBudget { current: usize, requested: usize, budget: usize },
}

/// The tokens that an execution has used, under its budget.
pub struct TokenTracker<C> {
    used_input: usize,
    used_output: usize,
    budget: TokenBudget,
    counter: C,
}

/// Why a call is refused before it is made.
pub open spec fn headroom_error(budget: TokenBudget, used: int, estimated: usize) -> Option<BudgetError> {
    if estimated > budget.per_call {
        Some(BudgetError::WouldExceedBudget { current: 0, requested: estimated, budget: budget.per_call })
    } else if used + estimated > budget.per_execution {
        Some(
            BudgetError::WouldExceedBudget {
                current: used as usize,
                requested: estimated,
                budget: budget.per_execution,
            },
        )
    } else {
        None
    }
}

impl<C: TokenCounter> TokenTracker<C> {
    pub closed spec fn input(self) -> usize {
        self.used_input
    }

    pub closed spec fn output(self) -> usize {
        self.used_output
    }

    pub closed spec fn limits(self) -> TokenBudget {
        self.budget
    }

    pub closed spec fn counts_with(self) -> C {
        self.counter
    }

    /// The tokens used so far.
    pub open spec fn used(self) -> int {
        self.input() + self.output()
    }

    /// All tokens used so far can be counted.
    pub open spec fn wf(self) -> bool {
        self.used() <= usize::MAX
    }

    /// A tracker that has seen no call.
    pub fn new(budget: TokenBudget, counter: C) -> (r: Self)
        ensures
            r.wf(),
            r.input() == 0,
            r.output() == 0,
            r.limits() == budget,
            r.counts_with() == counter,
    {
        TokenTracker { used_input: 0, used_output: 0, budget, counter }
    }

    /// Records the tokens of a call; they count even where they exceed the
    /// budget.
    pub fn record_usage(&mut self, input_tokens: usize, output_tokens: usize) -> (r: Result<(), BudgetError>)
        requires
            old(self).wf(),
            old(self).used() + input_tokens + output_tokens <= usize::MAX,
        ensures
            final(self).wf(),
            final(self).input() == old(self).input() + input_tokens,
            final(self).output() == old(self).output() + output_tokens,
            final(self).limits() == old(self).limits(),
            final(self).counts_with() == old(self).counts_with(),
            match r {
                Ok(_) => final(self).used() <= old(self).limits().per_execution,
                Err(e) => final(self).used() > old(self).limits().per_execution && e
                    == (BudgetError::ExecutionBudgetExceeded {
                    used: final(self).used() as usize,
                    budget: old(self).limits().per_execution,
                }),
            },
    {
        self.used_input = self.used_input + input_tokens;
        self.used_output = self.used_output + output_tokens;
        let total: usize = self.used_input + self.used_output;
        if total > self.budget.per_execution {
            return Err(BudgetError::ExecutionBudgetExceeded { used: total, budget: self.budget.per_execution });
        }
        Ok(())
    }

    /// Whether a call of this size fits, by itself and with those before it.
    pub fn check_headroom(&self, estimated_input: usize) -> (r: Result<(), BudgetError>)
        requires
            self.wf(),
        ensures
            match r {
                Ok(_) => headroom_error(self.limits(), self.used(), estimated_input) is None,
                Err(e) => headroom_error(self.limits(), self.used(), estimated_input) == Some(e),
            },
    {
        if estimated_input > self.budget.per_call {
            return Err(
                BudgetError::WouldExceedBudget { current: 0, requested: estimated_input, budget: self.budget.per_call },
            );
        }
        let current: usize = self.used_input + self.used_output;
        if current > self.budget.per_execution || estimated_input > self.budget.per_execution - current {
            return Err(
                BudgetError::WouldExceedBudget {
                    current,
                    requested: estimated_input,
                    budget: self.budget.per_execution,
                },
            );
        }
        Ok(())
    }

    /// All tokens used so far.
    pub fn total_used(&self) -> (r: usize)
        requires
            self.wf(),
        ensures
            r == self.used(),
    {
        self.used_input + self.used_output
    }

    /// The tokens read so far.
    pub fn input_used(&self) -> (r: usize)
        ensures
            r == self.input(),
    {
        self.used_input
    }

    /// The tokens written so far.
    pub fn output_used(&self) -> (r: usize)
        ensures
            r == self.output(),
    {
        self.used_output
    }

    /// The way in which tokens are counted.
    pub fn counter(&self) -> (r: &C)
        ensures
            *r == self.counts_with(),
    {
        &self.counter
    }

    /// The budget.
    pub fn budget(&self) -> (r: &TokenBudget)
        ensures
            *r == self.limits(),
    {
        &self.budget
    }

    /// The usage at the end.
    pub fn finalize(self) -> (r: TokenUsageStats)
        ensures
            r == usage_of(self.input(), self.output()),
    {
        TokenUsageStats::new(self.used_input, self.used_output)
    }
}

/// A call that fits, and uses no more than was estimated, is recorded without
/// an error.
pub proof fn law_headroom_predicts_recording(budget: TokenBudget, used: int, estimated: usize, spent: int)
    requires
        headroom_error(budget, used, estimated) is None,
        0 <= spent <= estimated,
    ensures
        used + spent <= budget.per_execution,
{
}

} // verus!
