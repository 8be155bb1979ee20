//! The history of an automation's runs: what each run did, step by step.
use vstd::prelude::*;

use crate::daemon::automation_executor::pair_views;
use crate::outside::now_unix;
use crate::table::{Ranked, Table, has_value, lemma_permuted, sort, sorted};
use crate::text::{chars_of, concat, same, views};

verus! {

/// How a run stands.
#[derive(Debug, Clone, Copy, PartialEq, Eq, Structural)]
pub enum RunStatus {
    Running,
    Completed,
    Failed,
    /// Waits for an operator.
    Interrupted,
    /// Continues as another run.
    Forked,
}

/// The run and the step that a run was forked from.
#[derive(Debug)]
pub struct ForkSource {
    pub source_run_id: String,
    pub from_step: usize,
}

/// What happened at a checkpoint.
#[derive(Debug, Clone, Copy, PartialEq, Eq, Structural)]
pub enum CheckpointEvent {
    NodeCompleted,
    NodeFailed,
    NodeSkipped,
    InterruptParked,
    InterruptResumed,
}

/// The state of a run after a step: with the outputs and the active edges the
/// run can go on from there.
#[derive(Debug)]
pub struct Checkpoint {
    pub step_idx: usize,
    pub node_id: String,
    pub event: CheckpointEvent,
    /// The outputs so far, by node.
    pub outputs: Vec<(String, String)>,
    /// The active edges, each once.
    pub active_edges: Vec<String>,
    pub at_unix: u64,
}

pub struct CheckpointV {
    pub step_idx: int,
    pub node_id: Seq<char>,
    pub event: CheckpointEvent,
    pub outputs: Seq<(Seq<char>, Seq<char>)>,
    pub active_edges: Seq<Seq<char>>,
    pub at_unix: u64,
}

impl View for Checkpoint {
    type V = CheckpointV;

    open spec fn view(&self) -> CheckpointV {
        CheckpointV {
            step_idx: self.step_idx as int,
            node_id: self.node_id@,
            event: self.event,
            outputs: pair_views(self.outputs@),
            active_edges: views(self.active_edges@),
            at_unix: self.at_unix,
        }
    }
}

/// One run of an automation.
#[derive(Debug)]
pub struct Run {
    pub run_id: String,
    pub automation_id: String,
    pub trigger_input: String,
    pub status: RunStatus,
    pub started_at_unix: u64,
    pub finished_at_unix: Option<u64>,
    pub checkpoints: Vec<Checkpoint>,
    pub forked_from: Option<ForkSource>,
}

impl Run {
    /// `after` differs from this run in its status only.
    pub open spec fn with_status(self, after: Run, status: RunStatus) -> bool {
        after == Run { status, ..self }
    }

    /// The run has just started.
    pub open spec fn starts(self, automation_id: Seq<char>, run_id: Seq<char>, trigger_input: Seq<char>, now: u64) -> bool {
        &&& self.run_id@ == run_id
        &&& self.automation_id@ == automation_id
        &&& self.trigger_input@ == trigger_input
        &&& self.status == RunStatus::Running
        &&& self.started_at_unix == now
        &&& self.finished_at_unix is None
        &&& self.checkpoints@.len() == 0
    }

    /// A run that starts now.
    pub fn start(automation_id: &str, run_id: &str, trigger_input: &str, forked_from: Option<ForkSource>, now: u64) -> (r:
        Run)
        ensures
            r.starts(automation_id@, run_id@, trigger_input@, now),
            r.forked_from == forked_from,
    {
        Run {
            run_id: run_id.to_owned(),
            automation_id: automation_id.to_owned(),
            trigger_input: trigger_input.to_owned(),
            status: RunStatus::Running,
            started_at_unix: now,
            finished_at_unix: None,
            checkpoints: Vec::new(),
            forked_from,
        }
    }

    /// Adds a checkpoint.
    pub fn checkpoint(&mut self, checkpoint: Checkpoint)
        ensures
            final(self).checkpoints@ == old(self).checkpoints@.push(checkpoint),
            *final(self) == (Run { checkpoints: final(self).checkpoints, ..*old(self) }),
    {
        self.checkpoints.push(checkpoint);
    }

    /// Ends the run now with a status.
    pub fn finish(&mut self, status: RunStatus, now: u64)
        ensures
            *final(self) == (Run { status, finished_at_unix: Some(now), ..*old(self) }),
    {
        self.status = status;
        self.finished_at_unix = Some(now);
    }

    /// The run waits for an operator.
    pub fn mark_interrupted(&mut self)
        ensures
            old(self).with_status(*final(self), RunStatus::Interrupted),
    {
        self.status = RunStatus::Interrupted;
    }

    /// The run goes on.
    pub fn mark_running(&mut self)
        ensures
            old(self).with_status(*final(self), RunStatus::Running),
    {
        self.status = RunStatus::Running;
    }
}

/// How a run that ended stands: it completed unless an error ended it.
pub fn final_status(succeeded: bool) -> (r: RunStatus)
    ensures
        r == if succeeded {
            RunStatus::Completed
        } else {
            RunStatus::Failed
        },
{
    if succeeded {
        RunStatus::Completed
    } else {
        RunStatus::Failed
    }
}

impl<'a> Ranked for &'a Run {
    /// The run that started later comes first.
    open spec fn comes_before(a: &'a Run, b: &'a Run) -> bool {
        a.started_at_unix > b.started_at_unix
    }

    proof fn order_is_strict(a: &'a Run, b: &'a Run, c: &'a Run) {
    }

    fn ranks_before(&self, other: &&'a Run) -> (r: bool) {
        self.started_at_unix > other.started_at_unix
    }
}

// ---------------------------------------------------------------------------
// Files
// ---------------------------------------------------------------------------

/// A character that a file name keeps.
pub open spec fn is_safe(c: char) -> bool {
    ('0' <= c <= '9') || ('a' <= c <= 'z') || ('A' <= c <= 'Z') || c == '-' || c == '_' || c == '.' || c == ':'
}

/// An id with an underscore for each character that is not kept.
pub open spec fn kept_name(s: Seq<char>) -> Seq<char> {
    s.map_values(
        |c: char|
            if is_safe(c) {
                c
            } else {
                '_'
            },
    )
}

/// An id as a file name: each character that is not kept becomes an underscore,
/// and so do the dots of the names that stand for a directory and its parent.
pub open spec fn safe_name(s: Seq<char>) -> Seq<char> {
    if kept_name(s) == "."@ {
        "_"@
    } else if kept_name(s) == ".."@ {
        "__"@
    } else {
        kept_name(s)
    }
}

/// The id as a file name.
pub fn sanitize(s: &str) -> (r: String)
    ensures
        r@ == safe_name(s@),
        r@ != "."@ && r@ != ".."@,
{
    let name = keep_characters(s);
    proof {
        law_file_names_stay(s@);
    }
    if same(name.as_str(), ".") {
        "_".to_owned()
    } else if same(name.as_str(), "..") {
        "__".to_owned()
    } else {
        name
    }
}

fn keep_characters(s: &str) -> (r: String)
    ensures
        r@ == kept_name(s@),
{
    let v = chars_of(s);
    let mut out = String::new();
    let mut i: usize = 0;
    while i < v.len()
        invariant
            i <= v@.len(),
            v@ == s@,
            out@ == kept_name(s@).take(i as int),
        decreases v@.len() - i,
    {
        let c = v[i];
        let keep = (c >= '0' && c <= '9') || (c >= 'a' && c <= 'z') || (c >= 'A' && c <= 'Z') || c == '-' || c == '_'
            || c == '.' || c == ':';
        let d = if keep {
            c
        } else {
            '_'
        };
        out.push(d);
        proof {
            assert(kept_name(s@).take(i + 1) =~= kept_name(s@).take(i as int).push(d));
        }
        i += 1;
    }
    proof {
        assert(kept_name(s@).take(i as int) =~= kept_name(s@));
    }
    out
}

/// The file of a run, below the root: in the directory of its automation.
pub open spec fn run_key(automation_id: Seq<char>, run_id: Seq<char>) -> Seq<char> {
    safe_name(automation_id) + "/"@ + (safe_name(run_id) + ".json"@)
}

/// The file of a run, below the root.
pub fn run_path(automation_id: &str, run_id: &str) -> (r: String)
    ensures
        r@ == run_key(automation_id@, run_id@),
{
    let dir = concat(sanitize(automation_id).as_str(), "/");
    let file = concat(sanitize(run_id).as_str(), ".json");
    concat(dir.as_str(), file.as_str())
}

// ---------------------------------------------------------------------------
// The store
// ---------------------------------------------------------------------------

/// Why a run could not be had.
#[derive(Debug)]
pub enum RunStoreError {
    NotFound(String),
}

impl RunStoreError {
    /// The run that was asked for.
    pub open spec fn missing(self) -> Seq<char> {
        match self {
            RunStoreError::NotFound(id) => id@,
        }
    }

    /// What the error says.
    pub fn message(&self) -> (r: String)
        ensures
            r@ == "run '"@ + self.missing() + "' not found"@,
    {
        match self {
            RunStoreError::NotFound(id) => {
                let head = concat("run '", id.as_str());
                concat(head.as_str(), "' not found")
            },
        }
    }
}

/// The runs, each under its file.
pub struct AutomationRunStore {
    by_path: Table<Run>,
}

/// The list holds the runs of an automation, each once.
pub open spec fn lists_runs(r: Seq<&Run>, m: Map<Seq<char>, Run>, automation_id: Seq<char>) -> bool {
    let dir = safe_name(automation_id);
    &&& forall|i: int|
        0 <= i < r.len() ==> has_value(m, *(#[trigger] r[i])) && safe_name(r[i].automation_id@) == dir
    &&& forall|k: Seq<char>| #[trigger]
        m.dom().contains(k) && safe_name(m[k].automation_id@) == dir ==> exists|i: int|
            0 <= i < r.len() && *(#[trigger] r[i]) == m[k]
    &&& forall|i: int, j: int| 0 <= i < j < r.len() ==> #[trigger] r[i] != #[trigger] r[j]
}

impl AutomationRunStore {
    /// The runs by their files.
    pub closed spec fn runs(self) -> Map<Seq<char>, Run> {
        self.by_path@
    }

    /// Each run stands under its own file.
    pub closed spec fn wf(self) -> bool {
        forall|k: Seq<char>| #[trigger]
            self.by_path@.dom().contains(k) ==> run_key(
                self.by_path@[k].automation_id@,
                self.by_path@[k].run_id@,
            ) == k
    }

    /// A store without runs.
    pub fn new() -> (r: AutomationRunStore)
        ensures
            r.wf(),
            r.runs() == Map::<Seq<char>, Run>::empty(),
    {
        AutomationRunStore { by_path: Table::new() }
    }

    /// Takes a run in; one with the same file is replaced.
    pub fn keep(&mut self, run: Run)
        requires
            old(self).wf(),
        ensures
            final(self).wf(),
            final(self).runs() == old(self).runs().insert(run_key(run.automation_id@, run.run_id@), run),
    {
        let path = run_path(run.automation_id.as_str(), run.run_id.as_str());
        self.by_path.insert(path, run);
    }

    /// Starts a run at a time. One with the same file is replaced.
    pub fn start_at(
        &mut self,
        automation_id: &str,
        run_id: &str,
        trigger_input: &str,
        forked_from: Option<ForkSource>,
        now: u64,
    )
        requires
            old(self).wf(),
        ensures
            final(self).wf(),
            ({
                let k = run_key(automation_id@, run_id@);
                let run = final(self).runs()[k];
                &&& final(self).runs() == old(self).runs().insert(k, run)
                &&& run.starts(automation_id@, run_id@, trigger_input@, now)
                &&& run.forked_from == forked_from
            }),
    {
        self.keep(Run::start(automation_id, run_id, trigger_input, forked_from, now));
    }

    /// Starts a run now. One with the same file is replaced.
    pub fn start(&mut self, automation_id: &str, run_id: &str, trigger_input: &str, forked_from: Option<ForkSource>)
        requires
            old(self).wf(),
        ensures
            final(self).wf(),
            ({
                let k = run_key(automation_id@, run_id@);
                let run = final(self).runs()[k];
                &&& final(self).runs() == old(self).runs().insert(k, run)
                &&& run.starts(automation_id@, run_id@, trigger_input@, run.started_at_unix)
                &&& run.forked_from == forked_from
            }),
    {
        self.start_at(automation_id, run_id, trigger_input, forked_from, now_unix())
    }

    /// The run with an id.
    pub fn load(&self, automation_id: &str, run_id: &str) -> (r: Result<&Run, RunStoreError>)
        ensures
            ({
                let k = run_key(automation_id@, run_id@);
                match r {
                    Ok(run) => self.runs().dom().contains(k) && *run == self.runs()[k],
                    Err(e) => !self.runs().dom().contains(k) && e.missing() == run_id@,
                }
            }),
    {
        match self.by_path.get(run_path(automation_id, run_id).as_str()) {
            Some(run) => Ok(run),
            None => Err(RunStoreError::NotFound(run_id.to_owned())),
        }
    }

    fn take(&mut self, automation_id: &str, run_id: &str) -> (r: Result<Run, RunStoreError>)
        requires
            old(self).wf(),
        ensures
            final(self).wf(),
            ({
                let k = run_key(automation_id@, run_id@);
                match r {
                    Ok(run) => {
                        &&& old(self).runs().dom().contains(k)
                        &&& run == old(self).runs()[k]
                        &&& final(self).runs() == old(self).runs().remove(k)
                        &&& run_key(run.automation_id@, run.run_id@) == k
                    },
                    Err(e) => {
                        &&& !old(self).runs().dom().contains(k)
                        &&& e.missing() == run_id@
                        &&& final(self).runs() == old(self).runs()
                    },
                }
            }),
    {
        let path = run_path(automation_id, run_id);
        let ghost before = self.by_path@;
        match self.by_path.remove(path.as_str()) {
            Some(run) => {
                proof {
                    assert(before.dom().contains(path@));
                }
                Ok(run)
            },
            None => {
                proof {
                    assert(before.remove(path@) =~= before);
                }
                Err(RunStoreError::NotFound(run_id.to_owned()))
            },
        }
    }

    /// Adds a checkpoint to a run.
    pub fn checkpoint(&mut self, automation_id: &str, run_id: &str, checkpoint: Checkpoint) -> (r: Result<
        (),
        RunStoreError,
    >)
        requires
            old(self).wf(),
        ensures
            final(self).wf(),
            ({
                let k = run_key(automation_id@, run_id@);
                match r {
                    Ok(_) => {
                        let was = old(self).runs()[k];
                        let is = final(self).runs()[k];
                        &&& old(self).runs().dom().contains(k)
                        &&& final(self).runs() == old(self).runs().insert(k, is)
                        &&& is.checkpoints@ == was.checkpoints@.push(checkpoint)
                        &&& is == (Run { checkpoints: is.checkpoints, ..was })
                    },
                    Err(e) => {
                        &&& !old(self).runs().dom().contains(k)
                        &&& e.missing() == run_id@
                        &&& final(self).runs() == old(self).runs()
                    },
                }
            }),
    {
        let mut run = match self.take(automation_id, run_id) {
            Ok(run) => run,
            Err(e) => {
                return Err(e);
            },
        };
        run.checkpoint(checkpoint);
        self.keep(run);
        proof {
            let k = run_key(automation_id@, run_id@);
            assert(self.runs() =~= old(self).runs().insert(k, run));
        }
        Ok(())
    }

    /// Ends a run at a time with a status.
    pub fn finish_at(&mut self, automation_id: &str, run_id: &str, status: RunStatus, now: u64) -> (r: Result<
        (),
        RunStoreError,
    >)
        requires
            old(self).wf(),
        ensures
            final(self).wf(),
            ({
                let k = run_key(automation_id@, run_id@);
                match r {
                    Ok(_) => old(self).runs().dom().contains(k) && final(self).runs() == old(self).runs().insert(
                        k,
                        (Run { status, finished_at_unix: Some(now), ..old(self).runs()[k] }),
                    ),
                    Err(e) => {
                        &&& !old(self).runs().dom().contains(k)
                        &&& e.missing() == run_id@
                        &&& final(self).runs() == old(self).runs()
                    },
                }
            }),
    {
        let mut run = match self.take(automation_id, run_id) {
            Ok(run) => run,
            Err(e) => {
                return Err(e);
            },
        };
        run.finish(status, now);
        self.keep(run);
        proof {
            let k = run_key(automation_id@, run_id@);
            assert(self.runs() =~= old(self).runs().insert(k, run));
        }
        Ok(())
    }

    /// Ends a run now with a status.
    pub fn finish(&mut self, automation_id: &str, run_id: &str, status: RunStatus) -> (r: Result<(), RunStoreError>)
        requires
            old(self).wf(),
        ensures
            final(self).wf(),
            ({
                let k = run_key(automation_id@, run_id@);
                let is = final(self).runs()[k];
                match r {
                    Ok(_) => {
                        &&& old(self).runs().dom().contains(k)
                        &&& final(self).runs() == old(self).runs().insert(k, is)
                        &&& is.finished_at_unix is Some
                        &&& is == (Run { status, finished_at_unix: is.finished_at_unix, ..old(self).runs()[k] })
                    },
                    Err(e) => {
                        &&& !old(self).runs().dom().contains(k)
                        &&& e.missing() == run_id@
                        &&& final(self).runs() == old(self).runs()
                    },
                }
            }),
    {
        self.finish_at(automation_id, run_id, status, now_unix())
    }

    fn mark(&mut self, automation_id: &str, run_id: &str, interrupted: bool) -> (r: Result<(), RunStoreError>)
        requires
            old(self).wf(),
        ensures
            final(self).wf(),
            ({
                let k = run_key(automation_id@, run_id@);
                let status = if interrupted {
                    RunStatus::Interrupted
                } else {
                    RunStatus::Running
                };
                match r {
                    Ok(_) => old(self).runs().dom().contains(k) && final(self).runs() == old(self).runs().insert(
                        k,
                        (Run { status, ..old(self).runs()[k] }),
                    ),
                    Err(e) => {
                        &&& !old(self).runs().dom().contains(k)
                        &&& e.missing() == run_id@
                        &&& final(self).runs() == old(self).runs()
                    },
                }
            }),
    {
        let mut run = match self.take(automation_id, run_id) {
            Ok(run) => run,
            Err(e) => {
                return Err(e);
            },
        };
        if interrupted {
            run.mark_interrupted();
        } else {
            run.mark_running();
        }
        self.keep(run);
        proof {
            let k = run_key(automation_id@, run_id@);
            assert(self.runs() =~= old(self).runs().insert(k, run));
        }
        Ok(())
    }

    /// A run waits for an operator.
    pub fn mark_interrupted(&mut self, automation_id: &str, run_id: &str) -> (r: Result<(), RunStoreError>)
        requires
            old(self).wf(),
        ensures
            final(self).wf(),
            ({
                let k = run_key(automation_id@, run_id@);
                match r {
                    Ok(_) => old(self).runs().dom().contains(k) && final(self).runs() == old(self).runs().insert(
                        k,
                        (Run { status: RunStatus::Interrupted, ..old(self).runs()[k] }),
                    ),
                    Err(e) => {
                        &&& !old(self).runs().dom().contains(k)
                        &&& e.missing() == run_id@
                        &&& final(self).runs() == old(self).runs()
                    },
                }
            }),
    {
        self.mark(automation_id, run_id, true)
    }

    /// A run goes on.
    pub fn mark_running(&mut self, automation_id: &str, run_id: &str) -> (r: Result<(), RunStoreError>)
        requires
            old(self).wf(),
        ensures
            final(self).wf(),
            ({
                let k = run_key(automation_id@, run_id@);
                match r {
                    Ok(_) => old(self).runs().dom().contains(k) && final(self).runs() == old(self).runs().insert(
                        k,
                        (Run { status: RunStatus::Running, ..old(self).runs()[k] }),
                    ),
                    Err(e) => {
                        &&& !old(self).runs().dom().contains(k)
                        &&& e.missing() == run_id@
                        &&& final(self).runs() == old(self).runs()
                    },
                }
            }),
    {
        self.mark(automation_id, run_id, false)
    }

    /// The runs of an automation, newest first.
    pub fn list(&self, automation_id: &str) -> (r: Vec<&Run>)
        requires
            self.wf(),
        ensures
            sorted(r@),
            lists_runs(r@, self.runs(), automation_id@),
    {
        let dir = sanitize(automation_id);
        let all = self.by_path.refs();
        let ghost order = self.by_path.order();
        let ghost m = self.by_path@;
        let mut hits: Vec<&Run> = Vec::new();
        let ghost mut from: Seq<int> = Seq::empty();
        let mut i: usize = 0;
        while i < all.len()
            invariant
                i <= all@.len(),
                all@.len() == order.len(),
                dir@ == safe_name(automation_id@),
                forall|k: int| 0 <= k < all@.len() ==> *(#[trigger] all@[k]) == m[order[k]],
                from.len() == hits@.len(),
                forall|k: int|
                    0 <= k < from.len() ==> 0 <= #[trigger] from[k] < i && hits@[k] == all@[from[k]] && safe_name(
                        all@[from[k]].automation_id@,
                    ) == dir@,
                forall|a: int, b: int| 0 <= a < b < from.len() ==> #[trigger] from[a] < #[trigger] from[b],
                forall|k: int|
                    0 <= k < i && safe_name((#[trigger] all@[k]).automation_id@) == dir@ ==> from.contains(k),
            decreases all@.len() - i,
        {
            let run: &Run = all[i];
            let ghost was = from;
            if same(sanitize(run.automation_id.as_str()).as_str(), dir.as_str()) {
                hits.push(run);
                proof {
                    from = from.push(i as int);
                    assert(from[from.len() - 1] == i);
                }
            }
            proof {
                assert forall|k: int|
                    0 <= k < i + 1 && safe_name((#[trigger] all@[k]).automation_id@) == dir@ implies from.contains(k) by {
                    if k < i {
                        assert(was.contains(k));
                        let j = choose|j: int| 0 <= j < was.len() && was[j] == k;
                        assert(from[j] == k);
                    }
                }
            }
            i += 1;
        }
        proof {
            assert forall|a: int, b: int| 0 <= a < hits@.len() && 0 <= b < hits@.len() && a != b implies hits@[a]
                != hits@[b] by {
                let ka = order[from[a]];
                let kb = order[from[b]];
                assert(ka != kb);
                assert(order.to_set().contains(ka) && order.to_set().contains(kb));
                assert(m.dom().contains(ka) && m.dom().contains(kb));
            }
        }
        let ghost u = hits@;
        let out = sort(hits);
        proof {
            lemma_permuted(u, out@);
            assert forall|k: int| 0 <= k < out@.len() implies has_value(m, *(#[trigger] out@[k])) && safe_name(
                out@[k].automation_id@,
            ) == dir@ by {
                assert(out@.contains(out@[k]));
                assert(u.contains(out@[k]));
                let a = choose|a: int| 0 <= a < u.len() && u[a] == out@[k];
                assert(order.to_set().contains(order[from[a]]));
                assert(m.dom().contains(order[from[a]]));
            }
            assert forall|k: Seq<char>| #[trigger]
                m.dom().contains(k) && safe_name(m[k].automation_id@) == dir@ implies exists|x: int|
                0 <= x < out@.len() && *(#[trigger] out@[x]) == m[k] by {
                let p = choose|p: int| 0 <= p < order.len() && order[p] == k;
                assert(safe_name(all@[p].automation_id@) == dir@);
                assert(from.contains(p));
                let a = choose|a: int| 0 <= a < from.len() && from[a] == p;
                assert(u.contains(u[a]));
                assert(out@.contains(u[a]));
                let x = choose|x: int| 0 <= x < out@.len() && out@[x] == u[a];
                assert(*out@[x] == m[k]);
            }
        }
        out
    }
}

/// No id leads out of the root: its file name holds no path separator, and does
/// not stand for a directory or its parent.
pub proof fn law_file_names_stay(id: Seq<char>)
    ensures
        safe_name(id).len() == id.len(),
        !safe_name(id).contains('/'),
        !safe_name(id).contains('\\'),
        safe_name(id) != "."@,
        safe_name(id) != ".."@,
{
    reveal_strlit(".");
    reveal_strlit("..");
    reveal_strlit("_");
    reveal_strlit("__");
    assert("_"@[0] == '_' && "__"@[0] == '_');
    assert("."@[0] == '.' && ".."@[0] == '.');
    assert(kept_name(id).len() == id.len());
    assert forall|i: int| 0 <= i < safe_name(id).len() implies safe_name(id)[i] != '/' && safe_name(id)[i] != '\\' by {
    }
}

/// An id whose characters are all kept names its own file, unless it stands for a
/// directory or its parent.
pub proof fn law_safe_ids_keep_their_names(id: Seq<char>)
    requires
        forall|i: int| 0 <= i < id.len() ==> is_safe(#[trigger] id[i]),
        id != "."@,
        id != ".."@,
    ensures
        safe_name(id) == id,
{
    assert(kept_name(id) =~= id);
}

/// Runs of automations and with ids whose names differ as file names do not
/// share a file.
pub proof fn law_runs_have_their_own_files(a: Seq<char>, b: Seq<char>, x: Seq<char>, y: Seq<char>)
    requires
        run_key(a, x) == run_key(b, y),
    ensures
        safe_name(a) == safe_name(b),
        safe_name(x) == safe_name(y),
{
    reveal_strlit("/");
    reveal_strlit(".json");
    law_file_names_stay(a);
    law_file_names_stay(b);
    let sa = safe_name(a);
    let sb = safe_name(b);
    let p = run_key(a, x);
    let q = run_key(b, y);
    assert(p[sa.len() as int] == '/');
    assert(q[sb.len() as int] == '/');
    if sa.len() < sb.len() {
        assert(q[sa.len() as int] == sb[sa.len() as int]);
        assert(sb.contains(sb[sa.len() as int]));
    }
    if sb.len() < sa.len() {
        assert(p[sb.len() as int] == sa[sb.len() as int]);
        assert(sa.contains(sa[sb.len() as int]));
    }
    assert(p.subrange(0, sa.len() as int) =~= sa);
    assert(q.subrange(0, sb.len() as int) =~= sb);
    assert(p.subrange(sa.len() as int + 1, p.len() - 5) =~= safe_name(x));
    assert(q.subrange(sb.len() as int + 1, q.len() - 5) =~= safe_name(y));
}

/// Interrupting a run and letting it go on again leaves a running run as it was.
pub proof fn law_interrupt_then_resume(a: Run, b: Run, c: Run)
    requires
        a.status == RunStatus::Running,
        a.with_status(b, RunStatus::Interrupted),
        b.with_status(c, RunStatus::Running),
    ensures
        c == a,
{
}

} // verus!
