//! One log per agent and day.
use vstd::prelude::*;

use crate::json::Json;
use crate::text::concat;
use crate::tools::paths::{joined, joined_path};

verus! {

/// A line of a log.
#[derive(Debug)]
pub struct LogEntry {
    pub timestamp: u64,
    pub entry_type: LogEntryType,
    pub content: Json,
}

/// What a line of a log is about.
#[derive(Debug, Clone, Copy, PartialEq, Eq, Structural)]
pub enum LogEntryType {
    Conversation,
    ToolCall,
    Decision,
    Error,
    Note,
}

/// A day as year, month and day of the month, if the calendar has it. Days are
/// counted from the first day of the year 1, which is day 1.
pub uninterp spec fn day_name(day: i32) -> Option<Seq<char>>;

/// `chrono::NaiveDate::from_num_days_from_ce_opt` and its `format` with
/// `%Y-%m-%d` depend on the day alone.
#[verifier::external_body]
fn day_text(day: i32) -> (r: Option<String>)
    ensures
        match r {
            Some(s) => day_name(day) == Some(s@),
            None => day_name(day) is None,
        },
{
    chrono::NaiveDate::from_num_days_from_ce_opt(day).map(|d| d.format("%Y-%m-%d").to_string())
}

/// The logs of an agent.
#[derive(Debug)]
pub struct DailyLogMemory {
    agent_id: String,
    base_dir: String,
}

/// The days from one to another, both included.
pub open spec fn days_between(from: i32, to: i32) -> Seq<i32> {
    if from > to {
        Seq::empty()
    } else {
        Seq::new((to - from + 1) as nat, |i: int| (from + i) as i32)
    }
}

impl DailyLogMemory {
    /// Whose logs they are.
    pub closed spec fn owner(&self) -> Seq<char> {
        self.agent_id@
    }

    /// Where they are kept.
    pub closed spec fn place(&self) -> Seq<char> {
        self.base_dir@
    }

    /// The logs of an agent under a directory.
    pub fn new(agent_id: &str, base_dir: &str) -> (r: DailyLogMemory)
        ensures
            r.owner() == agent_id@,
            r.place() == joined(base_dir@, agent_id@),
    {
        DailyLogMemory { agent_id: agent_id.to_owned(), base_dir: joined_path(base_dir, agent_id) }
    }

    /// Whose logs they are.
    pub fn agent_id(&self) -> (r: &str)
        ensures
            r@ == self.owner(),
    {
        self.agent_id.as_str()
    }

    /// Where they are kept.
    pub fn base_dir(&self) -> (r: &str)
        ensures
            r@ == self.place(),
    {
        self.base_dir.as_str()
    }

    /// Where the log of a day is kept, given how the day is written.
    pub fn log_file(&self, day: &str) -> (r: String)
        ensures
            r@ == joined(self.place(), day@ + ".jsonl"@),
    {
        joined_path(self.base_dir.as_str(), concat(day, ".jsonl").as_str())
    }

    /// Where the log of a day is kept; nowhere where the calendar does not have
    /// the day.
    pub fn log_path(&self, day: i32) -> (r: Option<String>)
        ensures
            match r {
                Some(p) => day_name(day) matches Some(d) && p@ == joined(self.place(), d + ".jsonl"@),
                None => day_name(day) is None,
            },
    {
        match day_text(day) {
            Some(d) => Some(self.log_file(d.as_str())),
            None => None,
        }
    }

    /// The days whose logs are read for a range.
    pub fn read_range(from: i32, to: i32) -> (r: Vec<i32>)
        ensures
            r@ == days_between(from, to),
    {
        let mut out: Vec<i32> = Vec::new();
        if from > to {
            return out;
        }
        let mut day: i32 = from;
        out.push(day);
        proof {
            assert(out@ =~= days_between(from, day));
        }
        while day < to
            invariant
                from <= day <= to,
                out@ == days_between(from, day),
            decreases to - day,
        {
            day = day + 1;
            out.push(day);
            proof {
                assert(out@ =~= days_between(from, day));
            }
        }
        out
    }
}

} // verus!
