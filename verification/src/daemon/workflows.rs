//! Running a workflow: which agents take part, and which of them begin.
use vstd::prelude::*;

use crate::daemon::automation_executor::{DaemonError, DaemonErrorV};
use crate::daemon::config::{AgentSettings, AxocoatlConfig, WorkflowSettings, agent_from, find_agent, find_workflow,
    workflow_from};
use crate::json::{Json, JsonV, empty_object};
use crate::session::copy_texts;
use crate::text::{holds, push_text, views};

verus! {

/// How long a workflow may take, in seconds.
pub const WORKFLOW_SECS: u64 = 300;

/// The names, each where it occurs first.
pub open spec fn distinct(names: Seq<Seq<char>>) -> Seq<Seq<char>>
    decreases names.len(),
{
    if names.len() == 0 {
        names
    } else {
        let earlier = distinct(names.drop_last());
        if earlier.contains(names.last()) {
            earlier
        } else {
            earlier.push(names.last())
        }
    }
}

/// The configured agents among some, each with those that it depends on.
pub open spec fn dependencies(names: Seq<Seq<char>>, agents: Seq<AgentSettings>) -> Map<Seq<char>, Seq<Seq<char>>>
    decreases names.len(),
{
    if names.len() == 0 {
        Map::empty()
    } else {
        let earlier = dependencies(names.drop_last(), agents);
        match agent_from(agents, names.last(), 0) {
            Some(i) => earlier.insert(names.last(), views(agents[i].depends_on@)),
            None => earlier,
        }
    }
}

/// `dashmap::DashMap`, a map that threads share.
#[verifier::external_type_specification]
#[verifier::external_body]
#[verifier::reject_recursive_types(K)]
#[verifier::reject_recursive_types(V)]
#[verifier::reject_recursive_types(S)]
pub struct ExDashMap<K, V, S>(dashmap::DashMap<K, V, S>);

/// What a shared map of lists of names holds.
pub uninterp spec fn held(m: dashmap::DashMap<String, Vec<String>>) -> Map<Seq<char>, Seq<Seq<char>>>;

/// `dashmap::DashMap::new` gives a map that holds nothing.
#[verifier::external_body]
fn shared_map() -> (r: dashmap::DashMap<String, Vec<String>>)
    ensures
        (held(r) == Map::<Seq<char>, Seq<Seq<char>>>::empty()),
{
    dashmap::DashMap::new()
}

/// `dashmap::DashMap::insert` gives a key its value and leaves the other keys as
/// they are. No reference into the map is held meanwhile: it is borrowed alone.
#[verifier::external_body]
fn share(m: &mut dashmap::DashMap<String, Vec<String>>, key: String, value: Vec<String>)
    ensures
        held(*final(m)) == held(*old(m)).insert(key@, views(value@)),
{
    m.insert(key, value);
}

/// The configured agents among some that depend on nobody.
pub open spec fn independent(names: Seq<Seq<char>>, agents: Seq<AgentSettings>) -> Seq<Seq<char>>
    decreases names.len(),
{
    if names.len() == 0 {
        names
    } else {
        let earlier = independent(names.drop_last(), agents);
        match agent_from(agents, names.last(), 0) {
            Some(i) => if agents[i].depends_on@.len() == 0 {
                earlier.push(names.last())
            } else {
                earlier
            },
            None => earlier,
        }
    }
}

/// The agents that begin: the entry point, or all that depend on nobody.
pub open spec fn beginners(w: WorkflowSettings, agents: Seq<AgentSettings>) -> Seq<Seq<char>> {
    match w.entry_point {
        Some(e) => seq![e@],
        None => independent(views(w.agents@), agents),
    }
}

/// Those of the beginners that take part.
pub open spec fn taking_part(beginners: Seq<Seq<char>>, names: Seq<Seq<char>>) -> Seq<Seq<char>> {
    crate::daemon::topology::among(beginners, names)
}

/// What starts a workflow.
pub open spec fn kickoff(workflow_id: Seq<char>, input: Seq<char>) -> JsonV {
    empty_object().with("input"@, JsonV::Text(input)).with("workflow_id"@, JsonV::Text(workflow_id))
}

/// Why a workflow cannot run.
pub open spec fn workflow_error(config: AxocoatlConfig, workflow_id: Seq<char>) -> Option<DaemonErrorV> {
    match workflow_from(config.workflows@, workflow_id, 0) {
        None => Some(DaemonErrorV::WorkflowNotFound(workflow_id)),
        Some(i) => {
            let w = config.workflows@[i];
            if w.agents@.len() == 0 {
                Some(DaemonErrorV::WorkflowExecution("Workflow has no agents"@))
            } else if beginners(w, config.agents@).len() == 0 {
                Some(
                    DaemonErrorV::WorkflowExecution(
                        "Workflow has no entry agents (no entry_point and no agents with empty depends_on)"@,
                    ),
                )
            } else {
                None
            }
        },
    }
}

/// How a workflow runs.
#[derive(Debug)]
pub struct WorkflowPlan {
    /// The agents that must finish.
    pub expected: Vec<String>,
    /// The agents that each waits for.
    pub depends_on: dashmap::DashMap<String, Vec<String>>,
    /// The agents that begin.
    pub activated: Vec<String>,
    /// What they are started with.
    pub kickoff: Json,
}

fn distinct_texts(names: &Vec<String>) -> (r: Vec<String>)
    ensures
        views(r@) == distinct(views(names@)),
{
    let ghost all = views(names@);
    let mut out: Vec<String> = Vec::new();
    let mut i: usize = 0;
    proof {
        assert(views(out@) =~= all.take(0));
    }
    while i < names.len()
        invariant
            i <= names@.len(),
            all == views(names@),
            views(out@) == distinct(all.take(i as int)),
        decreases names@.len() - i,
    {
        proof {
            assert(all.take(i + 1).drop_last() =~= all.take(i as int));
            assert(all.take(i + 1).last() == names@[i as int]@);
        }
        if !holds(&out, names[i].as_str()) {
            push_text(&mut out, names[i].as_str());
        }
        i += 1;
    }
    proof {
        assert(all.take(all.len() as int) =~= all);
    }
    out
}

fn collect_dependencies(names: &Vec<String>, agents: &Vec<AgentSettings>) -> (r: dashmap::DashMap<String, Vec<String>>)
    ensures
        held(r) == dependencies(views(names@), agents@),
{
    let ghost all = views(names@);
    let mut out = shared_map();
    let mut i: usize = 0;
    proof {
        assert(all.take(0).len() == 0);
    }
    while i < names.len()
        invariant
            i <= names@.len(),
            all == views(names@),
            held(out) == dependencies(all.take(i as int), agents@),
        decreases names@.len() - i,
    {
        proof {
            assert(all.take(i + 1).drop_last() =~= all.take(i as int));
            assert(all.take(i + 1).last() == names@[i as int]@);
        }
        match find_agent(agents, names[i].as_str()) {
            Some(k) => {
                share(&mut out, names[i].clone(), copy_texts(&agents[k].depends_on));
            },
            None => {},
        }
        i += 1;
    }
    proof {
        assert(all.take(all.len() as int) =~= all);
    }
    out
}

fn find_independent(names: &Vec<String>, agents: &Vec<AgentSettings>) -> (r: Vec<String>)
    ensures
        views(r@) == independent(views(names@), agents@),
{
    let ghost all = views(names@);
    let mut out: Vec<String> = Vec::new();
    let mut i: usize = 0;
    proof {
        assert(views(out@) =~= all.take(0));
    }
    while i < names.len()
        invariant
            i <= names@.len(),
            all == views(names@),
            views(out@) == independent(all.take(i as int), agents@),
        decreases names@.len() - i,
    {
        proof {
            assert(all.take(i + 1).drop_last() =~= all.take(i as int));
            assert(all.take(i + 1).last() == names@[i as int]@);
        }
        match find_agent(agents, names[i].as_str()) {
            Some(k) => {
                if agents[k].depends_on.len() == 0 {
                    push_text(&mut out, names[i].as_str());
                }
            },
            None => {},
        }
        i += 1;
    }
    proof {
        assert(all.take(all.len() as int) =~= all);
    }
    out
}

/// How a workflow runs, or why it cannot.
pub fn execute_workflow(config: &AxocoatlConfig, workflow_id: &str, input: &str) -> (r: Result<
    WorkflowPlan,
    DaemonError,
>)
    ensures
        match r {
            Ok(p) => {
                &&& workflow_error(*config, workflow_id@) is None
                &&& workflow_from(config.workflows@, workflow_id@, 0) matches Some(i) && {
                    let w = config.workflows@[i];
                    &&& views(p.expected@) == distinct(views(w.agents@))
                    &&& held(p.depends_on) == dependencies(views(w.agents@), config.agents@)
                    &&& views(p.activated@) == taking_part(beginners(w, config.agents@), views(w.agents@))
                }
                &&& p.kickoff@ == kickoff(workflow_id@, input@)
            },
            Err(e) => workflow_error(*config, workflow_id@) == Some(e@),
        },
{
    let w = match find_workflow(&config.workflows, workflow_id) {
        None => {
            return Err(DaemonError::WorkflowNotFound(workflow_id.to_owned()));
        },
        Some(i) => &config.workflows[i],
    };
    if w.agents.len() == 0 {
        return Err(DaemonError::WorkflowExecution("Workflow has no agents".to_owned()));
    }
    let first = match &w.entry_point {
        Some(e) => {
            let mut v: Vec<String> = Vec::new();
            proof {
                assert(views(v@) =~= Seq::<Seq<char>>::empty());
            }
            push_text(&mut v, e.as_str());
            proof {
                assert(views(v@) =~= seq![e@]);
            }
            v
        },
        None => find_independent(&w.agents, &config.agents),
    };
    proof {
        assert(views(first@).len() == first@.len());
    }
    if first.len() == 0 {
        return Err(
            DaemonError::WorkflowExecution(
                "Workflow has no entry agents (no entry_point and no agents with empty depends_on)".to_owned(),
            ),
        );
    }
    let expected = distinct_texts(&w.agents);
    let depends_on = collect_dependencies(&w.agents, &config.agents);
    let activated = crate::daemon::topology::members_of(&first, &w.agents);
    let kickoff = Json::object().with("input", Json::text(input)).with("workflow_id", Json::text(workflow_id));
    Ok(WorkflowPlan { expected, depends_on, activated, kickoff })
}

/// The error of a workflow that did not finish in time.
pub fn workflow_timed_out() -> (r: DaemonError)
    ensures
        r@ == DaemonErrorV::WorkflowTimeout(WORKFLOW_SECS),
{
    DaemonError::WorkflowTimeout(WORKFLOW_SECS)
}

/// Without an entry point every agent that begins takes part, is configured and
/// depends on nobody.
pub proof fn law_beginners_depend_on_nobody(names: Seq<Seq<char>>, agents: Seq<AgentSettings>)
    ensures
        forall|x: Seq<char>| #[trigger]
            independent(names, agents).contains(x) ==> names.contains(x) && agent_from(agents, x, 0) is Some
                && agents[agent_from(agents, x, 0)->0].depends_on@.len() == 0,
    decreases names.len(),
{
    let r = independent(names, agents);
    if names.len() > 0 {
        let rest = names.drop_last();
        law_beginners_depend_on_nobody(rest, agents);
        assert forall|x: Seq<char>| #[trigger] r.contains(x) implies names.contains(x) && agent_from(agents, x, 0) is Some
            && agents[agent_from(agents, x, 0)->0].depends_on@.len() == 0 by {
            let earlier = independent(rest, agents);
            let i = choose|i: int| 0 <= i < r.len() && r[i] == x;
            if i < earlier.len() {
                assert(earlier[i] == x);
                assert(earlier.contains(x));
                let k = choose|k: int| 0 <= k < rest.len() && rest[k] == x;
                assert(names[k] == x);
            } else {
                assert(names[names.len() - 1] == x);
            }
        }
    }
}

/// A workflow knows the dependencies of exactly those of its agents that are
/// configured, and knows them as configured.
pub proof fn law_dependencies_are_as_configured(names: Seq<Seq<char>>, agents: Seq<AgentSettings>, x: Seq<char>)
    ensures
        dependencies(names, agents).dom().contains(x) <==> names.contains(x) && agent_from(agents, x, 0) is Some,
        dependencies(names, agents).dom().contains(x) ==> dependencies(names, agents)[x] == views(
            agents[agent_from(agents, x, 0)->0].depends_on@,
        ),
    decreases names.len(),
{
    if names.len() > 0 {
        let rest = names.drop_last();
        law_dependencies_are_as_configured(rest, agents, x);
        assert(names =~= rest.push(names.last()));
        if rest.contains(x) {
            let k = choose|k: int| 0 <= k < rest.len() && rest[k] == x;
            assert(names[k] == x);
        }
        if names.contains(x) && names.last() != x {
            let k = choose|k: int| 0 <= k < names.len() && names[k] == x;
            assert(rest[k] == x);
        }
        if names.last() == x {
            assert(names[names.len() - 1] == x);
        }
    }
}

} // verus!
