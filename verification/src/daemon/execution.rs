//! One run of an automation as a state machine.
//!
//! `Execution::step` looks at one node (or at one item of a map) and says what
//! to record and what to ask for; `Execution::reply` takes the answer.
use vstd::prelude::*;

use crate::daemon::automation::{Automation, AutomationEdge, AutomationNode, AutomationNodeKind, EdgeV, KindV, NodeV,
    ResumeStrategy, edge_views, is_body, node_of, node_views};
use crate::daemon::automation_executor::{DaemonError, DaemonErrorV, MAX_SUBGRAPH_DEPTH, chosen_branch, copy_pairs,
    law_put_then_read, list_items, pair_value, pair_views, parse_list, pick_branch, put, put_pair, resolve_node_input,
    resolve_node_input_with_item, resolved, value_of, write_list};
use crate::daemon::automation_runs::{Checkpoint, CheckpointEvent, CheckpointV};
use crate::json::{Json, JsonV, empty_object, parse, parsed, render, rendered};
use crate::llm::provider::{TokenUsageStats, opt_view};
use crate::llm::wire::text_values;
use crate::text::{chars_of, concat, decimal, decimal_text, same, text_between, views};

verus! {

// ---------------------------------------------------------------------------
// Values
// ---------------------------------------------------------------------------

/// What an agent answered.
#[derive(Debug)]
pub struct AgentOutput {
    pub content: String,
    pub token_usage: TokenUsageStats,
    /// All tokens of the call.
    pub total_tokens: u64,
}

pub struct AgentOutputV {
    pub content: Seq<char>,
    pub token_usage: TokenUsageStats,
    pub total_tokens: u64,
}

impl View for AgentOutput {
    type V = AgentOutputV;

    open spec fn view(&self) -> AgentOutputV {
        AgentOutputV { content: self.content@, token_usage: self.token_usage, total_tokens: self.total_tokens }
    }
}

/// An event for those who watch the run.
#[derive(Debug)]
pub struct EventFrame {
    pub event_type: String,
    pub agent: Option<String>,
    pub task: String,
    pub output: Option<String>,
    pub tokens: Option<u64>,
    pub workflow: String,
}

pub struct EventV {
    pub event_type: Seq<char>,
    pub agent: Option<Seq<char>>,
    pub task: Seq<char>,
    pub output: Option<Seq<char>>,
    pub tokens: Option<u64>,
    pub workflow: Seq<char>,
}

impl View for EventFrame {
    type V = EventV;

    open spec fn view(&self) -> EventV {
        EventV {
            event_type: self.event_type@,
            agent: opt_view(self.agent),
            task: self.task@,
            output: opt_view(self.output),
            tokens: self.tokens,
            workflow: self.workflow@,
        }
    }
}

/// The first 200 characters.
pub open spec fn excerpt(s: Seq<char>) -> Seq<char> {
    if s.len() <= 200 {
        s
    } else {
        s.subrange(0, 200)
    }
}

/// An event of a node; its output is cut to 200 characters.
pub open spec fn event_of(
    workflow: Seq<char>,
    agent: Option<Seq<char>>,
    task: Seq<char>,
    event_type: Seq<char>,
    output: Option<Seq<char>>,
    tokens: Option<u64>,
) -> EventV {
    EventV {
        event_type,
        agent,
        task,
        output: match output {
            Some(o) => Some(excerpt(o)),
            None => None,
        },
        tokens,
        workflow,
    }
}

pub open spec fn opt_str(s: Option<&str>) -> Option<Seq<char>> {
    match s {
        Some(t) => Some(t@),
        None => None,
    }
}

/// Makes the event of a node.
pub fn make_event(
    workflow: &str,
    agent: Option<&str>,
    task: &str,
    event_type: &str,
    output: Option<&str>,
    tokens: Option<u64>,
) -> (r: EventFrame)
    ensures
        r@ == event_of(workflow@, opt_str(agent), task@, event_type@, opt_str(output), tokens),
{
    let output = match output {
        Some(o) => {
            let v = chars_of(o);
            let n: usize = if v.len() <= 200 {
                v.len()
            } else {
                200
            };
            let cut = text_between(&v, 0, n);
            proof {
                assert(cut@ =~= excerpt(o@));
            }
            Some(cut)
        },
        None => None,
    };
    let agent = match agent {
        Some(a) => Some(a.to_owned()),
        None => None,
    };
    EventFrame {
        event_type: event_type.to_owned(),
        agent,
        task: task.to_owned(),
        output,
        tokens,
        workflow: workflow.to_owned(),
    }
}

/// Something to record, in order.
#[derive(Debug)]
pub enum Effect {
    /// The run waits for an operator.
    MarkInterrupted,
    /// The run goes on.
    MarkRunning,
    Event(EventFrame),
    Checkpoint(Checkpoint),
}

pub enum EffectV {
    MarkInterrupted,
    MarkRunning,
    Event(EventV),
    Checkpoint(CheckpointV),
}

impl View for Effect {
    type V = EffectV;

    open spec fn view(&self) -> EffectV {
        match *self {
            Effect::MarkInterrupted => EffectV::MarkInterrupted,
            Effect::MarkRunning => EffectV::MarkRunning,
            Effect::Event(e) => EffectV::Event(e@),
            Effect::Checkpoint(c) => EffectV::Checkpoint(c@),
        }
    }
}

pub open spec fn effect_views(v: Seq<Effect>) -> Seq<EffectV> {
    v.map_values(|e: Effect| e@)
}

/// What a run needs next.
#[derive(Debug)]
pub enum Ask {
    /// Nothing: step again.
    GoOn,
    /// An answer is outstanding.
    Waiting,
    /// The run is over.
    Finished,
    /// Run an agent; `activated` is the event of its start.
    Agent { agent_id: String, input: String, activated: EventFrame },
    /// Run a tool.
    Tool { tool_id: String, args: Json },
    /// Run another automation at this depth.
    Subgraph { automation_id: String, input: String, depth: usize },
    /// Ask an operator; `interrupted` is the event of the pause.
    Operator { node_id: String, message: String, interrupted: EventFrame },
}

pub enum AskV {
    GoOn,
    Waiting,
    Finished,
    Agent(Seq<char>, Seq<char>, EventV),
    Tool(Seq<char>, JsonV),
    Subgraph(Seq<char>, Seq<char>, int),
    Operator(Seq<char>, Seq<char>, EventV),
}

impl View for Ask {
    type V = AskV;

    open spec fn view(&self) -> AskV {
        match *self {
            Ask::GoOn => AskV::GoOn,
            Ask::Waiting => AskV::Waiting,
            Ask::Finished => AskV::Finished,
            Ask::Agent { agent_id, input, activated } => AskV::Agent(agent_id@, input@, activated@),
            Ask::Tool { tool_id, args } => AskV::Tool(tool_id@, args@),
            Ask::Subgraph { automation_id, input, depth } => AskV::Subgraph(automation_id@, input@, depth as int),
            Ask::Operator { node_id, message, interrupted } => AskV::Operator(node_id@, message@, interrupted@),
        }
    }
}

/// An answer to what a run asked for.
#[derive(Debug)]
pub enum Reply {
    Agent(Result<AgentOutput, DaemonError>),
    /// What a tool or another automation gave.
    Text(Result<String, DaemonError>),
    /// The operator's answer.
    Resume(String),
    /// The operator cancelled the question.
    Cancel,
}

pub enum ReplyV {
    Agent(Result<AgentOutputV, DaemonErrorV>),
    Text(Result<Seq<char>, DaemonErrorV>),
    Resume(Seq<char>),
    Cancel,
}

impl View for Reply {
    type V = ReplyV;

    open spec fn view(&self) -> ReplyV {
        match *self {
            Reply::Agent(Ok(o)) => ReplyV::Agent(Ok(o@)),
            Reply::Agent(Err(e)) => ReplyV::Agent(Err(e@)),
            Reply::Text(Ok(t)) => ReplyV::Text(Ok(t@)),
            Reply::Text(Err(e)) => ReplyV::Text(Err(e@)),
            Reply::Resume(t) => ReplyV::Resume(t@),
            Reply::Cancel => ReplyV::Cancel,
        }
    }
}

// ---------------------------------------------------------------------------
// Outside work
// ---------------------------------------------------------------------------

/// The arguments of a tool: the JSON document that the input writes, else an
/// object with the input.
pub open spec fn tool_args(input: Seq<char>) -> JsonV {
    match parsed(input) {
        Some(v) => v,
        None => empty_object().with("input"@, JsonV::Text(input)),
    }
}

/// The arguments of a tool node.
pub fn read_tool_args(input: &str) -> (r: Json)
    ensures
        r@ == tool_args(input@),
{
    match parse(input) {
        Some(v) => v,
        None => Json::object().with("input", Json::text(input)),
    }
}

/// The answer of a tool as a run takes it: its value as JSON, or its failure.
pub fn tool_reply(tool_id: &str, result: Result<Json, String>) -> (r: Result<String, DaemonError>)
    ensures
        match (result, r) {
            (Ok(v), Ok(t)) => t@ == rendered(v@),
            (Err(e), Err(d)) => d@ == DaemonErrorV::WorkflowExecution("tool '"@ + tool_id@ + "': "@ + e@),
            _ => false,
        },
{
    match result {
        Ok(v) => Ok(render(&v)),
        Err(e) => {
            let mut m = concat("tool '", tool_id);
            m.append("': ");
            m.append(e.as_str());
            Err(DaemonError::WorkflowExecution(m))
        },
    }
}

/// The failure of a node whose agent does not exist.
pub fn unknown_agent(automation_id: &str, agent_id: &str) -> (r: DaemonError)
    ensures
        r@ == DaemonErrorV::AgentSpawn(
            "automation '"@ + automation_id@ + "' references unknown agent '"@ + agent_id@ + "'"@,
        ),
{
    let mut m = concat("automation '", automation_id);
    m.append("' references unknown agent '");
    m.append(agent_id);
    m.append("'");
    DaemonError::AgentSpawn(m)
}

/// The failure of a node whose automation does not exist.
pub fn unknown_subgraph(automation_id: &str) -> (r: DaemonError)
    ensures
        r@ == DaemonErrorV::WorkflowExecution(
            "subgraph references unknown automation '"@ + automation_id@ + "'"@,
        ),
{
    let mut m = concat("subgraph references unknown automation '", automation_id);
    m.append("'");
    DaemonError::WorkflowExecution(m)
}

// ---------------------------------------------------------------------------
// Edges
// ---------------------------------------------------------------------------

/// The active edges with those added that leave `from`; with a label, only
/// those that carry it.
pub open spec fn activated(
    edges: Seq<EdgeV>,
    from: Seq<char>,
    label: Option<Seq<char>>,
    active: Seq<(Seq<char>, Seq<char>)>,
) -> Seq<(Seq<char>, Seq<char>)>
    decreases edges.len(),
{
    if edges.len() == 0 {
        active
    } else {
        let rest = activated(edges.drop_last(), from, label, active);
        let e = edges.last();
        if e.from == from && (label is Some ==> e.label == label) && !rest.contains((e.from, e.to)) {
            rest.push((e.from, e.to))
        } else {
            rest
        }
    }
}

/// An edge is active afterwards if it was before, or leaves the node and fits
/// the label.
pub proof fn lemma_activated(
    edges: Seq<EdgeV>,
    from: Seq<char>,
    label: Option<Seq<char>>,
    active: Seq<(Seq<char>, Seq<char>)>,
    p: (Seq<char>, Seq<char>),
)
    ensures
        activated(edges, from, label, active).contains(p) <==> active.contains(p) || exists|i: int|
            0 <= i < edges.len() && p == ((#[trigger] edges[i]).from, edges[i].to) && edges[i].from == from && (label
                is Some ==> edges[i].label == label),
    decreases edges.len(),
{
    if edges.len() > 0 {
        let init = edges.drop_last();
        let rest = activated(init, from, label, active);
        let e = edges.last();
        let all = activated(edges, from, label, active);
        lemma_activated(init, from, label, active, p);
        let fits = |d: EdgeV| p == (d.from, d.to) && d.from == from && (label is Some ==> d.label == label);
        if all.contains(p) {
            if !rest.contains(p) {
                let k = choose|k: int| 0 <= k < all.len() && all[k] == p;
                assert(k == rest.len());
                assert(fits(edges[edges.len() - 1]));
            } else if !active.contains(p) {
                let i = choose|i: int|
                    0 <= i < init.len() && p == ((#[trigger] init[i]).from, init[i].to) && init[i].from == from && (
                    label is Some ==> init[i].label == label);
                assert(edges[i] == init[i]);
            }
        }
        if rest.contains(p) {
            let k = choose|k: int| 0 <= k < rest.len() && rest[k] == p;
            assert(all[k] == p);
        }
        if exists|i: int|
            0 <= i < edges.len() && p == ((#[trigger] edges[i]).from, edges[i].to) && edges[i].from == from && (label
                is Some ==> edges[i].label == label) {
            let i = choose|i: int|
                0 <= i < edges.len() && p == ((#[trigger] edges[i]).from, edges[i].to) && edges[i].from == from && (
                label is Some ==> edges[i].label == label);
            if i < init.len() {
                assert(init[i] == edges[i]);
            } else if !rest.contains(p) {
                assert(all[rest.len() as int] == p);
            }
        }
    }
}

fn has_pair(v: &Vec<(String, String)>, a: &str, b: &str) -> (r: bool)
    ensures
        r == pair_views(v@).contains((a@, b@)),
{
    let ghost all = pair_views(v@);
    let mut i: usize = 0;
    while i < v.len()
        invariant
            i <= v@.len(),
            all == pair_views(v@),
            forall|j: int| 0 <= j < i ==> all[j] != (a@, b@),
        decreases v@.len() - i,
    {
        if same(v[i].0.as_str(), a) && same(v[i].1.as_str(), b) {
            proof {
                assert(all[i as int] == (a@, b@));
            }
            return true;
        }
        i += 1;
    }
    false
}

fn activate(
    edges: &Vec<AutomationEdge>,
    from: &str,
    label: Option<&str>,
    active: &mut Vec<(String, String)>,
)
    ensures
        pair_views(final(active)@) == activated(edge_views(edges@), from@, opt_str(label), pair_views(old(active)@)),
{
    let ghost all = edge_views(edges@);
    let ghost start = pair_views(active@);
    let mut i: usize = 0;
    while i < edges.len()
        invariant
            i <= edges@.len(),
            all == edge_views(edges@),
            pair_views(active@) == activated(all.take(i as int), from@, opt_str(label), start),
        decreases edges@.len() - i,
    {
        let e = &edges[i];
        let ghost before = active@;
        proof {
            assert(all.take(i + 1).drop_last() =~= all.take(i as int));
            assert(all.take(i + 1).last() == e@);
        }
        let fits = match label {
            None => true,
            Some(l) => match &e.label {
                Some(m) => same(m.as_str(), l),
                None => false,
            },
        };
        if same(e.from.as_str(), from) && fits && !has_pair(active, e.from.as_str(), e.to.as_str()) {
            active.push((e.from.clone(), e.to.clone()));
            proof {
                assert(pair_views(active@) =~= pair_views(before).push((e.from@, e.to@)));
            }
        }
        i += 1;
    }
    proof {
        assert(all.take(i as int) =~= all);
    }
}

/// An edge as a checkpoint writes it.
pub open spec fn edge_text(p: (Seq<char>, Seq<char>)) -> Seq<char> {
    p.0 + "→"@ + p.1
}

/// The active edges as a checkpoint writes them, each text once.
pub open spec fn flat_edges(active: Seq<(Seq<char>, Seq<char>)>) -> Seq<Seq<char>>
    decreases active.len(),
{
    if active.len() == 0 {
        Seq::empty()
    } else {
        let rest = flat_edges(active.drop_last());
        if rest.contains(edge_text(active.last())) {
            rest
        } else {
            rest.push(edge_text(active.last()))
        }
    }
}

fn has_text(v: &Vec<String>, s: &str) -> (r: bool)
    ensures
        r == views(v@).contains(s@),
{
    let ghost all = views(v@);
    let mut i: usize = 0;
    while i < v.len()
        invariant
            i <= v@.len(),
            all == views(v@),
            forall|j: int| 0 <= j < i ==> all[j] != s@,
        decreases v@.len() - i,
    {
        if same(v[i].as_str(), s) {
            proof {
                assert(all[i as int] == s@);
            }
            return true;
        }
        i += 1;
    }
    false
}

fn write_edges(active: &Vec<(String, String)>) -> (r: Vec<String>)
    ensures
        views(r@) == flat_edges(pair_views(active@)),
{
    let ghost all = pair_views(active@);
    let mut out: Vec<String> = Vec::new();
    let mut i: usize = 0;
    proof {
        assert(views(out@) =~= Seq::<Seq<char>>::empty());
    }
    while i < active.len()
        invariant
            i <= active@.len(),
            all == pair_views(active@),
            views(out@) == flat_edges(all.take(i as int)),
        decreases active@.len() - i,
    {
        let ghost before = out@;
        proof {
            assert(all.take(i + 1).drop_last() =~= all.take(i as int));
            assert(all.take(i + 1).last() == all[i as int]);
        }
        let mut t = concat(active[i].0.as_str(), "→");
        t.append(active[i].1.as_str());
        if !has_text(&out, t.as_str()) {
            out.push(t);
            proof {
                assert(views(out@) =~= views(before).push(t@));
            }
        }
        i += 1;
    }
    proof {
        assert(all.take(i as int) =~= all);
    }
    out
}

/// Some edge leads to the node.
pub open spec fn has_incoming(edges: Seq<EdgeV>, id: Seq<char>) -> bool {
    exists|i: int| 0 <= i < edges.len() && (#[trigger] edges[i]).to == id
}

/// Some active edge leads to the node.
pub open spec fn is_reached(edges: Seq<EdgeV>, active: Seq<(Seq<char>, Seq<char>)>, id: Seq<char>) -> bool {
    exists|i: int|
        0 <= i < edges.len() && (#[trigger] edges[i]).to == id && active.contains((edges[i].from, edges[i].to))
}

/// The node runs: it is no map's body, it exists, and it is a root or reached.
pub open spec fn should_run(
    nodes: Seq<NodeV>,
    edges: Seq<EdgeV>,
    active: Seq<(Seq<char>, Seq<char>)>,
    id: Seq<char>,
) -> bool {
    !is_body(nodes, id) && node_of(nodes, id) is Some && (!has_incoming(edges, id) || is_reached(edges, active, id))
}

fn root_or_reached(edges: &Vec<AutomationEdge>, active: &Vec<(String, String)>, id: &str) -> (r: bool)
    ensures
        r == (!has_incoming(edge_views(edges@), id@) || is_reached(edge_views(edges@), pair_views(active@), id@)),
{
    let ghost all = edge_views(edges@);
    let mut incoming = false;
    let mut i: usize = 0;
    while i < edges.len()
        invariant
            i <= edges@.len(),
            all == edge_views(edges@),
            incoming ==> has_incoming(all, id@),
            !incoming ==> forall|j: int| 0 <= j < i ==> (#[trigger] all[j]).to != id@,
            forall|j: int|
                0 <= j < i ==> !((#[trigger] all[j]).to == id@ && pair_views(active@).contains(
                    (all[j].from, all[j].to),
                )),
        decreases edges@.len() - i,
    {
        let e = &edges[i];
        proof {
            assert(all[i as int] == e@);
        }
        if same(e.to.as_str(), id) {
            incoming = true;
            if has_pair(active, e.from.as_str(), e.to.as_str()) {
                return true;
            }
        }
        i += 1;
    }
    !incoming
}

// ---------------------------------------------------------------------------
// The machine
// ---------------------------------------------------------------------------

/// What a run does not change.
pub struct PlanV {
    pub id: Seq<char>,
    pub nodes: Seq<NodeV>,
    pub edges: Seq<EdgeV>,
    pub order: Seq<Seq<char>>,
    pub trigger: Seq<char>,
    pub text_inputs: Seq<(Seq<char>, Seq<char>)>,
    pub depth: int,
}

/// What the run is waiting for, if anything.
pub enum PhaseV {
    Ready,
    Agent(Seq<char>),
    Tool(Seq<char>),
    Subgraph(Seq<char>),
    /// The message that was shown, and what becomes of the answer.
    Operator(Seq<char>, ResumeStrategy),
    /// A map: its body, its items, the results so far, and whether the result
    /// for the next item is outstanding.
    Mapping(Seq<char>, Seq<Seq<char>>, Seq<Seq<char>>, bool),
}

/// How far a run has come.
pub struct ExecV {
    /// The position in the order.
    pub pos: int,
    pub outputs: Seq<(Seq<char>, Seq<char>)>,
    pub active: Seq<(Seq<char>, Seq<char>)>,
    pub agent_outputs: Seq<(Seq<char>, AgentOutputV)>,
    pub completed: Seq<Seq<char>>,
    pub failed: Seq<(Seq<char>, DaemonErrorV)>,
    pub input_tokens: usize,
    pub output_tokens: usize,
    /// How many nodes have been settled.
    pub step_idx: int,
    pub phase: PhaseV,
}

/// A run of which nothing has been done.
pub open spec fn fresh() -> ExecV {
    ExecV {
        pos: 0,
        outputs: Seq::empty(),
        active: Seq::empty(),
        agent_outputs: Seq::empty(),
        completed: Seq::empty(),
        failed: Seq::empty(),
        input_tokens: 0,
        output_tokens: 0,
        step_idx: 0,
        phase: PhaseV::Ready,
    }
}

/// The sum of two counts, or the greatest count.
pub open spec fn saturating(a: usize, b: usize) -> usize {
    if a + b > usize::MAX {
        usize::MAX
    } else {
        (a + b) as usize
    }
}

/// The node has its output, and all its outgoing edges are active.
pub open spec fn with_output(plan: PlanV, st: ExecV, id: Seq<char>, out: Seq<char>) -> ExecV {
    ExecV {
        outputs: put(st.outputs, id, out),
        active: activated(plan.edges, id, None, st.active),
        ..st
    }
}

pub open spec fn completing(st: ExecV, label: Seq<char>) -> ExecV {
    ExecV { completed: st.completed.push(label), ..st }
}

pub open spec fn failing(st: ExecV, label: Seq<char>, e: DaemonErrorV) -> ExecV {
    ExecV { failed: st.failed.push((label, e)), ..st }
}

/// The run goes to the next node; the step counts.
pub open spec fn settled(st: ExecV) -> ExecV {
    ExecV { pos: st.pos + 1, step_idx: st.step_idx + 1, phase: PhaseV::Ready, ..st }
}

/// The run goes to the next node; the step does not count.
pub open spec fn passed(st: ExecV) -> ExecV {
    ExecV { pos: st.pos + 1, phase: PhaseV::Ready, ..st }
}

pub open spec fn snapshot(st: ExecV, id: Seq<char>, event: CheckpointEvent, now: u64) -> EffectV {
    EffectV::Checkpoint(
        CheckpointV {
            step_idx: st.step_idx,
            node_id: id,
            event,
            outputs: st.outputs,
            active_edges: flat_edges(st.active),
            at_unix: now,
        },
    )
}

pub open spec fn plain_event(
    plan: PlanV,
    id: Seq<char>,
    event_type: Seq<char>,
    output: Option<Seq<char>>,
) -> EffectV {
    EffectV::Event(event_of(plan.id, None, id, event_type, output, None))
}

/// The event of an agent that starts on a task.
pub open spec fn activation(plan: PlanV, agent_id: Seq<char>, task: Seq<char>) -> EventV {
    event_of(plan.id, Some(agent_id), task, "AgentActivated"@, None, None)
}

/// The event of an agent that finished a task.
pub open spec fn completion(plan: PlanV, agent_id: Seq<char>, task: Seq<char>, o: AgentOutputV) -> EffectV {
    EffectV::Event(
        event_of(plan.id, Some(agent_id), task, "TaskCompleted"@, Some(o.content), Some(o.total_tokens)),
    )
}

/// The number of items, as events and labels write it.
pub open spec fn items_text(n: nat) -> Seq<char> {
    decimal(n) + " item(s)"@
}

/// The name of one item of a map.
pub open spec fn item_task(id: Seq<char>, idx: nat) -> Seq<char> {
    id + "#"@ + decimal(idx)
}

/// What a text input gives: the operator's value, else the default, else
/// nothing.
pub open spec fn entered(plan: PlanV, id: Seq<char>, default: Option<Seq<char>>) -> Seq<char> {
    match value_of(plan.text_inputs, id) {
        Some(v) => v,
        None => match default {
            Some(v) => v,
            None => Seq::empty(),
        },
    }
}

/// One step at a node that runs.
pub open spec fn node_step(plan: PlanV, st: ExecV, node: NodeV, now: u64) -> (ExecV, Seq<EffectV>, AskV) {
    let id = plan.order[st.pos];
    let input = resolved(node.kind, plan.trigger, st.outputs, None);
    match node.kind {
        KindV::Agent(agent_id, _) => (
            ExecV { phase: PhaseV::Agent(agent_id), ..st },
            Seq::empty(),
            AskV::Agent(agent_id, input, activation(plan, agent_id, id)),
        ),
        KindV::Tool(tool_id, _) => (
            ExecV { phase: PhaseV::Tool(tool_id), ..st },
            Seq::empty(),
            AskV::Tool(tool_id, tool_args(input)),
        ),
        KindV::Subgraph(automation_id, _) => (
            ExecV { phase: PhaseV::Subgraph(automation_id), ..st },
            Seq::empty(),
            AskV::Subgraph(automation_id, input, plan.depth + 1),
        ),
        KindV::Interrupt(_, strategy) => (
            ExecV { phase: PhaseV::Operator(input, strategy), ..st },
            seq![EffectV::MarkInterrupted, snapshot(st, id, CheckpointEvent::InterruptParked, now)],
            AskV::Operator(id, input, event_of(plan.id, None, id, "Interrupted"@, Some(input), None)),
        ),
        KindV::TextInput(default) => {
            let s1 = completing(with_output(plan, st, id, entered(plan, id, default)), "input:"@ + id);
            (
                settled(s1),
                seq![
                    plain_event(plan, id, "TaskCompleted"@, None),
                    snapshot(s1, id, CheckpointEvent::NodeCompleted, now),
                ],
                AskV::GoOn,
            )
        },
        KindV::Conditional(_, branches, default) => {
            let chosen = chosen_branch(input, branches, default);
            let s1 = ExecV {
                outputs: put(
                    st.outputs,
                    id,
                    match chosen {
                        Some(b) => b,
                        None => Seq::empty(),
                    },
                ),
                active: match chosen {
                    Some(b) => activated(plan.edges, id, Some(b), st.active),
                    None => st.active,
                },
                ..st
            };
            (
                settled(s1),
                seq![
                    plain_event(plan, id, "Branched"@, chosen),
                    snapshot(s1, id, CheckpointEvent::NodeCompleted, now),
                ],
                AskV::GoOn,
            )
        },
        KindV::Mapping(_, body) => if node_of(plan.nodes, body) is None {
            (
                passed(ExecV { active: activated(plan.edges, id, None, st.active), ..st }),
                Seq::empty(),
                AskV::GoOn,
            )
        } else {
            let items = list_items(input);
            (
                ExecV { phase: PhaseV::Mapping(body, items, Seq::empty(), false), ..st },
                seq![plain_event(plan, id, "MapStarted"@, Some(items_text(items.len())))],
                AskV::GoOn,
            )
        },
    }
}

/// The result for an item of a map.
pub open spec fn item_result(
    st: ExecV,
    id: Seq<char>,
    body: Seq<char>,
    items: Seq<Seq<char>>,
    collected: Seq<Seq<char>>,
    result: Result<Seq<char>, DaemonErrorV>,
) -> ExecV {
    let s1 = match result {
        Ok(t) => st,
        Err(e) => failing(st, "map:"@ + item_task(id, collected.len()), e),
    };
    let out = match result {
        Ok(t) => t,
        Err(e) => Seq::empty(),
    };
    ExecV { phase: PhaseV::Mapping(body, items, collected.push(out), false), ..s1 }
}

/// One step in a map: the next item, or the end.
pub open spec fn map_step(
    plan: PlanV,
    st: ExecV,
    body: Seq<char>,
    items: Seq<Seq<char>>,
    collected: Seq<Seq<char>>,
    now: u64,
) -> (ExecV, Seq<EffectV>, AskV) {
    let id = plan.order[st.pos];
    let idx = collected.len();
    if idx < items.len() {
        let waiting = ExecV { phase: PhaseV::Mapping(body, items, collected, true), ..st };
        let unsupported = (
            item_result(
                st,
                id,
                body,
                items,
                collected,
                Err(
                    DaemonErrorV::WorkflowExecution(
                        "Map body node '"@ + body + "' has unsupported kind for iteration"@,
                    ),
                ),
            ),
            Seq::<EffectV>::empty(),
            AskV::GoOn,
        );
        match node_of(plan.nodes, body) {
            None => unsupported,
            Some(b) => {
                let input = resolved(b.kind, plan.trigger, st.outputs, Some(items[idx as int]));
                match b.kind {
                    KindV::Agent(agent_id, _) => (
                        waiting,
                        Seq::empty(),
                        AskV::Agent(agent_id, input, activation(plan, agent_id, item_task(id, idx))),
                    ),
                    KindV::Tool(tool_id, _) => (waiting, Seq::empty(), AskV::Tool(tool_id, tool_args(input))),
                    KindV::Subgraph(automation_id, _) => (
                        waiting,
                        Seq::empty(),
                        AskV::Subgraph(automation_id, input, plan.depth + 1),
                    ),
                    _ => unsupported,
                }
            },
        }
    } else {
        let s1 = completing(
            with_output(plan, st, id, rendered(JsonV::Array(text_values(collected)))),
            "map:"@ + id + " ("@ + decimal(items.len()) + " items)"@,
        );
        (
            settled(s1),
            seq![
                plain_event(plan, id, "MapCompleted"@, Some(items_text(items.len()))),
                snapshot(s1, id, CheckpointEvent::NodeCompleted, now),
            ],
            AskV::GoOn,
        )
    }
}

/// The output of a node writes a list that holds these texts.
pub open spec fn reads_as(st: ExecV, id: Seq<char>, texts: Seq<Seq<char>>) -> bool {
    match value_of(st.outputs, id) {
        Some(out) => list_items(out) == texts,
        None => false,
    }
}

/// One step of a run.
pub open spec fn step(plan: PlanV, st: ExecV, now: u64) -> (ExecV, Seq<EffectV>, AskV) {
    match st.phase {
        PhaseV::Ready => if st.pos >= plan.order.len() {
            (st, Seq::empty(), AskV::Finished)
        } else if !should_run(plan.nodes, plan.edges, st.active, plan.order[st.pos]) {
            (passed(st), Seq::empty(), AskV::GoOn)
        } else {
            node_step(plan, st, node_of(plan.nodes, plan.order[st.pos])->0, now)
        },
        PhaseV::Mapping(body, items, collected, waiting) => if waiting {
            (st, Seq::empty(), AskV::Waiting)
        } else {
            map_step(plan, st, body, items, collected, now)
        },
        _ => (st, Seq::empty(), AskV::Waiting),
    }
}

/// What an answer does to a run; an answer that the run does not wait for is
/// refused.
pub open spec fn answer(plan: PlanV, st: ExecV, reply: ReplyV, now: u64) -> Option<(ExecV, Seq<EffectV>)> {
    let id = plan.order[st.pos];
    match (st.phase, reply) {
        (PhaseV::Agent(agent_id), ReplyV::Agent(Ok(o))) => {
            let s0 = with_output(plan, st, id, o.content);
            let s1 = ExecV {
                input_tokens: saturating(s0.input_tokens, o.token_usage.input_tokens),
                output_tokens: saturating(s0.output_tokens, o.token_usage.output_tokens),
                agent_outputs: s0.agent_outputs.push((agent_id, o)),
                completed: s0.completed.push(agent_id),
                ..s0
            };
            Some(
                (
                    settled(s1),
                    seq![
                        completion(plan, agent_id, id, o),
                        snapshot(s1, id, CheckpointEvent::NodeCompleted, now),
                    ],
                ),
            )
        },
        (PhaseV::Agent(agent_id), ReplyV::Agent(Err(e))) => {
            let s1 = failing(with_output(plan, st, id, Seq::empty()), agent_id, e);
            Some((settled(s1), seq![snapshot(s1, id, CheckpointEvent::NodeCompleted, now)]))
        },
        (PhaseV::Tool(tool_id), ReplyV::Text(Ok(t))) => {
            let s1 = completing(with_output(plan, st, id, t), "tool:"@ + tool_id);
            Some(
                (
                    settled(s1),
                    seq![
                        plain_event(plan, id, "TaskCompleted"@, Some(t)),
                        snapshot(s1, id, CheckpointEvent::NodeCompleted, now),
                    ],
                ),
            )
        },
        (PhaseV::Tool(tool_id), ReplyV::Text(Err(e))) => {
            let s1 = failing(with_output(plan, st, id, Seq::empty()), "tool:"@ + tool_id, e);
            Some((settled(s1), seq![snapshot(s1, id, CheckpointEvent::NodeCompleted, now)]))
        },
        (PhaseV::Subgraph(automation_id), ReplyV::Text(Ok(t))) => {
            let s1 = completing(with_output(plan, st, id, t), "subgraph:"@ + automation_id);
            Some((settled(s1), seq![snapshot(s1, id, CheckpointEvent::NodeCompleted, now)]))
        },
        (PhaseV::Subgraph(automation_id), ReplyV::Text(Err(e))) => {
            let s1 = failing(with_output(plan, st, id, Seq::empty()), "subgraph:"@ + automation_id, e);
            Some((settled(s1), seq![snapshot(s1, id, CheckpointEvent::NodeCompleted, now)]))
        },
        (PhaseV::Operator(input, strategy), ReplyV::Resume(t)) => {
            let out = if strategy == ResumeStrategy::Replace {
                t
            } else {
                input + "\n\n"@ + t
            };
            let s1 = completing(with_output(plan, st, id, out), "interrupt:"@ + id);
            Some(
                (
                    settled(s1),
                    seq![
                        EffectV::MarkRunning,
                        plain_event(plan, id, "Resumed"@, None),
                        snapshot(s1, id, CheckpointEvent::InterruptResumed, now),
                    ],
                ),
            )
        },
        (PhaseV::Operator(input, strategy), ReplyV::Cancel) => {
            let s1 = completing(with_output(plan, st, id, Seq::empty()), "interrupt:"@ + id);
            Some(
                (
                    settled(s1),
                    seq![
                        EffectV::MarkRunning,
                        plain_event(plan, id, "Cancelled"@, None),
                        snapshot(s1, id, CheckpointEvent::InterruptResumed, now),
                    ],
                ),
            )
        },
        (PhaseV::Mapping(body, items, collected, true), ReplyV::Agent(Ok(o))) => match node_of(plan.nodes, body) {
            Some(b) => match b.kind {
                KindV::Agent(agent_id, _) => Some(
                    (
                        item_result(st, id, body, items, collected, Ok(o.content)),
                        seq![completion(plan, agent_id, item_task(id, collected.len()), o)],
                    ),
                ),
                _ => None,
            },
            None => None,
        },
        (PhaseV::Mapping(body, items, collected, true), ReplyV::Agent(Err(e))) => match node_of(plan.nodes, body) {
            Some(b) => match b.kind {
                KindV::Agent(agent_id, _) => Some(
                    (item_result(st, id, body, items, collected, Err(e)), Seq::empty()),
                ),
                _ => None,
            },
            None => None,
        },
        (PhaseV::Mapping(body, items, collected, true), ReplyV::Text(result)) => match node_of(plan.nodes, body) {
            Some(b) => match b.kind {
                KindV::Agent(_, _) => None,
                _ => Some((item_result(st, id, body, items, collected, result), Seq::empty())),
            },
            None => None,
        },
        _ => None,
    }
}

/// The result of a run.
pub struct OutcomeV {
    pub workflow_id: Seq<char>,
    pub agent_outputs: Seq<(Seq<char>, AgentOutputV)>,
    pub final_content: Seq<char>,
    pub input_tokens: usize,
    pub output_tokens: usize,
    pub completed: Seq<Seq<char>>,
    pub failed: Seq<(Seq<char>, DaemonErrorV)>,
}

/// What the run said last: the last agent's answer, else the output of the node
/// that was the last to get one.
pub open spec fn last_word(st: ExecV) -> Seq<char> {
    if st.agent_outputs.len() > 0 {
        st.agent_outputs.last().1.content
    } else if st.outputs.len() > 0 {
        st.outputs.last().1
    } else {
        Seq::empty()
    }
}

pub open spec fn outcome(plan: PlanV, st: ExecV) -> OutcomeV {
    OutcomeV {
        workflow_id: plan.id,
        agent_outputs: st.agent_outputs,
        final_content: last_word(st),
        input_tokens: st.input_tokens,
        output_tokens: st.output_tokens,
        completed: st.completed,
        failed: st.failed,
    }
}

// ---------------------------------------------------------------------------
// The executable machine
// ---------------------------------------------------------------------------

pub open spec fn agent_views(v: Seq<(String, AgentOutput)>) -> Seq<(Seq<char>, AgentOutputV)> {
    v.map_values(|p: (String, AgentOutput)| (p.0@, p.1@))
}

pub open spec fn failure_views(v: Seq<(String, DaemonError)>) -> Seq<(Seq<char>, DaemonErrorV)> {
    v.map_values(|p: (String, DaemonError)| (p.0@, p.1@))
}

/// The result of a run.
#[derive(Debug)]
pub struct WorkflowOutput {
    pub workflow_id: String,
    pub agent_outputs: Vec<(String, AgentOutput)>,
    pub final_content: String,
    pub total_token_usage: TokenUsageStats,
    pub completed_agents: Vec<String>,
    pub failed_agents: Vec<(String, DaemonError)>,
}

impl View for WorkflowOutput {
    type V = OutcomeV;

    open spec fn view(&self) -> OutcomeV {
        OutcomeV {
            workflow_id: self.workflow_id@,
            agent_outputs: agent_views(self.agent_outputs@),
            final_content: self.final_content@,
            input_tokens: self.total_token_usage.input_tokens,
            output_tokens: self.total_token_usage.output_tokens,
            completed: views(self.completed_agents@),
            failed: failure_views(self.failed_agents@),
        }
    }
}

/// What a step brought.
#[derive(Debug)]
pub struct Step {
    pub effects: Vec<Effect>,
    pub ask: Ask,
}

enum Phase {
    Ready,
    Agent(String),
    Tool(String),
    Subgraph(String),
    Operator(String, ResumeStrategy),
    Mapping(String, Vec<String>, Vec<String>, bool),
}

impl Phase {
    spec fn value(self) -> PhaseV {
        match self {
            Phase::Ready => PhaseV::Ready,
            Phase::Agent(a) => PhaseV::Agent(a@),
            Phase::Tool(t) => PhaseV::Tool(t@),
            Phase::Subgraph(a) => PhaseV::Subgraph(a@),
            Phase::Operator(m, s) => PhaseV::Operator(m@, s),
            Phase::Mapping(b, items, collected, waiting) => PhaseV::Mapping(
                b@,
                views(items@),
                views(collected@),
                waiting,
            ),
        }
    }
}

/// A run of an automation.
pub struct Execution<'a> {
    automation: &'a Automation,
    order: Vec<String>,
    trigger: String,
    text_inputs: Vec<(String, String)>,
    depth: usize,
    pos: usize,
    outputs: Vec<(String, String)>,
    active: Vec<(String, String)>,
    agent_outputs: Vec<(String, AgentOutput)>,
    completed: Vec<String>,
    failed: Vec<(String, DaemonError)>,
    input_tokens: usize,
    output_tokens: usize,
    step_idx: usize,
    phase: Phase,
}

fn push_text(v: &mut Vec<String>, s: String)
    ensures
        views(final(v)@) == views(old(v)@).push(s@),
{
    let ghost before = v@;
    v.push(s);
    proof {
        assert(views(v@) =~= views(before).push(s@));
    }
}

fn one_effect(a: Effect) -> (r: Vec<Effect>)
    ensures
        effect_views(r@) == seq![a@],
{
    let mut v: Vec<Effect> = Vec::new();
    v.push(a);
    proof {
        assert(effect_views(v@) =~= seq![a@]);
    }
    v
}

fn two_effects(a: Effect, b: Effect) -> (r: Vec<Effect>)
    ensures
        effect_views(r@) == seq![a@, b@],
{
    let mut v: Vec<Effect> = Vec::new();
    v.push(a);
    v.push(b);
    proof {
        assert(effect_views(v@) =~= seq![a@, b@]);
    }
    v
}

fn three_effects(a: Effect, b: Effect, c: Effect) -> (r: Vec<Effect>)
    ensures
        effect_views(r@) == seq![a@, b@, c@],
{
    let mut v: Vec<Effect> = Vec::new();
    v.push(a);
    v.push(b);
    v.push(c);
    proof {
        assert(effect_views(v@) =~= seq![a@, b@, c@]);
    }
    v
}

fn no_effects() -> (r: Vec<Effect>)
    ensures
        effect_views(r@) == Seq::<EffectV>::empty(),
{
    let v: Vec<Effect> = Vec::new();
    proof {
        assert(effect_views(v@) =~= Seq::<EffectV>::empty());
    }
    v
}

fn labelled(kind: &str, id: &str) -> (r: String)
    ensures
        r@ == kind@ + id@,
{
    concat(kind, id)
}

fn write_items(n: usize) -> (r: String)
    ensures
        r@ == items_text(n as nat),
{
    concat(decimal_text(n as u64).as_str(), " item(s)")
}

fn write_item_task(id: &str, idx: usize) -> (r: String)
    ensures
        r@ == item_task(id@, idx as nat),
{
    let mut t = concat(id, "#");
    t.append(decimal_text(idx as u64).as_str());
    t
}

impl<'a> Execution<'a> {
    /// What the run does not change.
    pub closed spec fn plan(self) -> PlanV {
        PlanV {
            id: self.automation.id@,
            nodes: node_views(self.automation.nodes@),
            edges: edge_views(self.automation.edges@),
            order: views(self.order@),
            trigger: self.trigger@,
            text_inputs: pair_views(self.text_inputs@),
            depth: self.depth as int,
        }
    }

    /// How far the run has come.
    pub closed spec fn view(&self) -> ExecV {
        ExecV {
            pos: self.pos as int,
            outputs: pair_views(self.outputs@),
            active: pair_views(self.active@),
            agent_outputs: agent_views(self.agent_outputs@),
            completed: views(self.completed@),
            failed: failure_views(self.failed@),
            input_tokens: self.input_tokens,
            output_tokens: self.output_tokens,
            step_idx: self.step_idx as int,
            phase: self.phase.value(),
        }
    }

    /// The run waits only at a node, and no step counts more than one node.
    pub closed spec fn wf(self) -> bool {
        &&& self.pos <= self.order@.len()
        &&& self.step_idx <= self.pos
        &&& self.depth <= MAX_SUBGRAPH_DEPTH
        &&& !(self.phase is Ready) ==> self.pos < self.order@.len()
        &&& self.phase is Mapping ==> {
            &&& self.phase->Mapping_2@.len() <= self.phase->Mapping_1@.len()
            &&& self.phase->Mapping_3 ==> self.phase->Mapping_2@.len() < self.phase->Mapping_1@.len()
        }
    }

    /// A run at a depth, with its nodes in an order in which each follows those
    /// that lead to it; too deep a run is refused.
    pub fn start(
        automation: &'a Automation,
        order: Vec<String>,
        trigger_input: &str,
        text_inputs: Vec<(String, String)>,
        depth: usize,
    ) -> (r: Result<Execution<'a>, DaemonError>)
        ensures
            match r {
                Ok(x) => {
                    &&& depth <= MAX_SUBGRAPH_DEPTH
                    &&& x.wf()
                    &&& x@ == fresh()
                    &&& x.plan() == (PlanV {
                        id: automation.id@,
                        nodes: node_views(automation.nodes@),
                        edges: edge_views(automation.edges@),
                        order: views(order@),
                        trigger: trigger_input@,
                        text_inputs: pair_views(text_inputs@),
                        depth: depth as int,
                    })
                },
                Err(e) => depth > MAX_SUBGRAPH_DEPTH && e@ == DaemonErrorV::WorkflowExecution(
                    "automation '"@ + automation.id@ + "' exceeded max subgraph depth ("@ + decimal(8)
                        + ") — likely a recursive call cycle"@,
                ),
            },
    {
        if depth > MAX_SUBGRAPH_DEPTH {
            let mut m = concat("automation '", automation.id.as_str());
            m.append("' exceeded max subgraph depth (");
            m.append(decimal_text(MAX_SUBGRAPH_DEPTH as u64).as_str());
            m.append(") — likely a recursive call cycle");
            return Err(DaemonError::WorkflowExecution(m));
        }
        let x = Execution {
            automation,
            order,
            trigger: trigger_input.to_owned(),
            text_inputs,
            depth,
            pos: 0,
            outputs: Vec::new(),
            active: Vec::new(),
            agent_outputs: Vec::new(),
            completed: Vec::new(),
            failed: Vec::new(),
            input_tokens: 0,
            output_tokens: 0,
            step_idx: 0,
            phase: Phase::Ready,
        };
        proof {
            let f = fresh();
            assert(x@.outputs =~= f.outputs);
            assert(x@.active =~= f.active);
            assert(x@.agent_outputs =~= f.agent_outputs);
            assert(x@.completed =~= f.completed);
            assert(x@.failed =~= f.failed);
        }
        Ok(x)
    }

    fn event(&self, agent: Option<&str>, task: &str, event_type: &str, output: Option<&str>, tokens: Option<u64>) -> (r:
        EventFrame)
        ensures
            r@ == event_of(self.plan().id, opt_str(agent), task@, event_type@, opt_str(output), tokens),
    {
        make_event(self.automation.id.as_str(), agent, task, event_type, output, tokens)
    }

    fn snap(&self, id: &str, event: CheckpointEvent, now: u64) -> (r: Effect)
        ensures
            r@ == snapshot(self@, id@, event, now),
    {
        Effect::Checkpoint(
            Checkpoint {
                step_idx: self.step_idx,
                node_id: id.to_owned(),
                event,
                outputs: copy_pairs(&self.outputs),
                active_edges: write_edges(&self.active),
                at_unix: now,
            },
        )
    }

    fn give_output(&mut self, id: &str, out: String)
        ensures
            final(self)@ == with_output(old(self).plan(), old(self)@, id@, out@),
            final(self).plan() == old(self).plan(),
            final(self).order == old(self).order,
            final(self).depth == old(self).depth,
            final(self).phase == old(self).phase,
            final(self).pos == old(self).pos,
            final(self).step_idx == old(self).step_idx,
    {
        put_pair(&mut self.outputs, id, out);
        activate(&self.automation.edges, id, None, &mut self.active);
    }

    fn complete(&mut self, label: String)
        ensures
            final(self)@ == completing(old(self)@, label@),
            final(self).plan() == old(self).plan(),
            final(self).order == old(self).order,
            final(self).depth == old(self).depth,
            final(self).phase == old(self).phase,
            final(self).pos == old(self).pos,
            final(self).step_idx == old(self).step_idx,
    {
        push_text(&mut self.completed, label);
    }

    fn fail(&mut self, label: String, e: DaemonError)
        ensures
            final(self)@ == failing(old(self)@, label@, e@),
            final(self).plan() == old(self).plan(),
            final(self).order == old(self).order,
            final(self).depth == old(self).depth,
            final(self).phase == old(self).phase,
            final(self).pos == old(self).pos,
            final(self).step_idx == old(self).step_idx,
    {
        let ghost before = self.failed@;
        self.failed.push((label, e));
        proof {
            assert(failure_views(self.failed@) =~= failure_views(before).push((label@, e@)));
        }
    }

    fn settle(&mut self)
        requires
            old(self).pos < old(self).order@.len(),
            old(self).step_idx <= old(self).pos,
            old(self).depth <= MAX_SUBGRAPH_DEPTH,
        ensures
            final(self)@ == settled(old(self)@),
            final(self).plan() == old(self).plan(),
            final(self).wf(),
    {
        let n: usize = self.order.len();
        self.pos += 1;
        self.step_idx += 1;
        self.phase = Phase::Ready;
    }

    fn pass(&mut self)
        requires
            old(self).pos < old(self).order@.len(),
            old(self).step_idx <= old(self).pos,
            old(self).depth <= MAX_SUBGRAPH_DEPTH,
        ensures
            final(self)@ == passed(old(self)@),
            final(self).plan() == old(self).plan(),
            final(self).wf(),
    {
        let n: usize = self.order.len();
        self.pos += 1;
        self.phase = Phase::Ready;
    }

    /// The node at the position runs.
    fn step_node(&mut self, id: &str, node: &AutomationNode, now: u64) -> (r: Step)
        requires
            old(self).wf(),
            old(self)@.phase is Ready,
            old(self)@.pos < old(self).plan().order.len(),
            id@ == old(self).plan().order[old(self)@.pos],
        ensures
            final(self).wf(),
            final(self).plan() == old(self).plan(),
            (final(self)@, effect_views(r.effects@), r.ask@) == node_step(old(self).plan(), old(self)@, node@, now),
    {
        let input = resolve_node_input(node, self.trigger.as_str(), &self.outputs);
        match &node.kind {
            AutomationNodeKind::Agent { agent_id, .. } => {
                let activated = self.event(Some(agent_id.as_str()), id, "AgentActivated", None, None);
                self.phase = Phase::Agent(agent_id.clone());
                Step { effects: no_effects(), ask: Ask::Agent { agent_id: agent_id.clone(), input, activated } }
            },
            AutomationNodeKind::Tool { tool_id, .. } => {
                self.phase = Phase::Tool(tool_id.clone());
                Step {
                    effects: no_effects(),
                    ask: Ask::Tool { tool_id: tool_id.clone(), args: read_tool_args(input.as_str()) },
                }
            },
            AutomationNodeKind::Subgraph { automation_id, .. } => {
                self.phase = Phase::Subgraph(automation_id.clone());
                Step {
                    effects: no_effects(),
                    ask: Ask::Subgraph { automation_id: automation_id.clone(), input, depth: self.depth + 1 },
                }
            },
            AutomationNodeKind::Interrupt { resume_strategy, .. } => {
                let effects = two_effects(
                    Effect::MarkInterrupted,
                    self.snap(id, CheckpointEvent::InterruptParked, now),
                );
                let interrupted = self.event(None, id, "Interrupted", Some(input.as_str()), None);
                self.phase = Phase::Operator(input.clone(), *resume_strategy);
                Step { effects, ask: Ask::Operator { node_id: id.to_owned(), message: input, interrupted } }
            },
            AutomationNodeKind::TextInput { default_value } => {
                let value = match pair_value(&self.text_inputs, id) {
                    Some(v) => v,
                    None => match default_value {
                        Some(v) => v.clone(),
                        None => String::new(),
                    },
                };
                self.give_output(id, value);
                self.complete(labelled("input:", id));
                let effects = two_effects(
                    Effect::Event(self.event(None, id, "TaskCompleted", None, None)),
                    self.snap(id, CheckpointEvent::NodeCompleted, now),
                );
                self.settle();
                Step { effects, ask: Ask::GoOn }
            },
            AutomationNodeKind::Conditional { branches, default, .. } => {
                let default = match default {
                    Some(d) => Some(d.as_str()),
                    None => None,
                };
                let chosen = pick_branch(input.as_str(), branches, default);
                let effect = match &chosen {
                    Some(b) => {
                        put_pair(&mut self.outputs, id, b.clone());
                        activate(&self.automation.edges, id, Some(b.as_str()), &mut self.active);
                        Effect::Event(self.event(None, id, "Branched", Some(b.as_str()), None))
                    },
                    None => {
                        put_pair(&mut self.outputs, id, String::new());
                        Effect::Event(self.event(None, id, "Branched", None, None))
                    },
                };
                let effects = two_effects(effect, self.snap(id, CheckpointEvent::NodeCompleted, now));
                self.settle();
                Step { effects, ask: Ask::GoOn }
            },
            AutomationNodeKind::Mapping { body_node, .. } => {
                if self.automation.node(body_node.as_str()).is_none() {
                    activate(&self.automation.edges, id, None, &mut self.active);
                    self.pass();
                    return Step { effects: no_effects(), ask: Ask::GoOn };
                }
                let items = parse_list(input.as_str());
                proof {
                    assert(views(items@).len() == items@.len());
                }
                let effects = one_effect(
                    Effect::Event(
                        self.event(None, id, "MapStarted", Some(write_items(items.len()).as_str()), None),
                    ),
                );
                let none: Vec<String> = Vec::new();
                proof {
                    assert(views(none@) =~= Seq::<Seq<char>>::empty());
                }
                self.phase = Phase::Mapping(body_node.clone(), items, none, false);
                Step { effects, ask: Ask::GoOn }
            },
        }
    }

    /// The result for the next item of a map.
    fn take_item(
        &mut self,
        id: &str,
        body: String,
        items: Vec<String>,
        collected: Vec<String>,
        result: Result<String, DaemonError>,
    )
        requires
            old(self).pos < old(self).order@.len(),
            old(self).step_idx <= old(self).pos,
            old(self).depth <= MAX_SUBGRAPH_DEPTH,
            collected@.len() < items@.len(),
        ensures
            final(self).wf(),
            final(self).plan() == old(self).plan(),
            final(self)@ == item_result(
                old(self)@,
                id@,
                body@,
                views(items@),
                views(collected@),
                match result {
                    Ok(t) => Ok(t@),
                    Err(e) => Err(e@),
                },
            ),
    {
        let mut collected = collected;
        proof {
            assert(views(collected@).len() == collected@.len());
        }
        match result {
            Ok(t) => {
                push_text(&mut collected, t);
            },
            Err(e) => {
                let task = write_item_task(id, collected.len());
                let none = String::new();
                push_text(&mut collected, none);
                self.fail(labelled("map:", task.as_str()), e);
            },
        }
        proof {
            assert(views(collected@).len() == collected@.len());
        }
        self.phase = Phase::Mapping(body, items, collected, false);
    }

    /// The next item of a map, or its end.
    fn step_map(
        &mut self,
        id: &str,
        body: String,
        items: Vec<String>,
        collected: Vec<String>,
        now: u64,
    ) -> (r: Step)
        requires
            old(self).pos < old(self).order@.len(),
            old(self).step_idx <= old(self).pos,
            old(self).depth <= MAX_SUBGRAPH_DEPTH,
            collected@.len() <= items@.len(),
            id@ == old(self).plan().order[old(self)@.pos],
        ensures
            final(self).wf(),
            final(self).plan() == old(self).plan(),
            (final(self)@, effect_views(r.effects@), r.ask@) == map_step(
                old(self).plan(),
                old(self)@,
                body@,
                views(items@),
                views(collected@),
                now,
            ),
            collected@.len() == items@.len() ==> reads_as(final(self)@, id@, views(collected@)),
    {
        proof {
            assert(views(items@).len() == items@.len());
            assert(views(collected@).len() == collected@.len());
        }
        let idx: usize = collected.len();
        if idx < items.len() {
            let task = write_item_task(id, idx);
            let automation = self.automation;
            let ask: Option<Ask> = match automation.node(body.as_str()) {
                None => None,
                Some(b) => {
                    let input = resolve_node_input_with_item(b, self.trigger.as_str(), &self.outputs, Some(&items[idx]));
                    match &b.kind {
                        AutomationNodeKind::Agent { agent_id, .. } => {
                            let activated = self.event(
                                Some(agent_id.as_str()),
                                task.as_str(),
                                "AgentActivated",
                                None,
                                None,
                            );
                            Some(Ask::Agent { agent_id: agent_id.clone(), input, activated })
                        },
                        AutomationNodeKind::Tool { tool_id, .. } => Some(
                            Ask::Tool { tool_id: tool_id.clone(), args: read_tool_args(input.as_str()) },
                        ),
                        AutomationNodeKind::Subgraph { automation_id, .. } => Some(
                            Ask::Subgraph { automation_id: automation_id.clone(), input, depth: self.depth + 1 },
                        ),
                        _ => None,
                    }
                },
            };
            match ask {
                Some(ask) => {
                    self.phase = Phase::Mapping(body, items, collected, true);
                    Step { effects: no_effects(), ask }
                },
                None => {
                    let mut m = concat("Map body node '", body.as_str());
                    m.append("' has unsupported kind for iteration");
                    self.take_item(id, body, items, collected, Err(DaemonError::WorkflowExecution(m)));
                    Step { effects: no_effects(), ask: Ask::GoOn }
                },
            }
        } else {
            let list = write_list(&collected);
            proof {
                law_put_then_read(self@.outputs, id@, list@, id@.push('x'));
            }
            self.give_output(id, list);
            let mut label = concat("map:", id);
            label.append(" (");
            label.append(decimal_text(items.len() as u64).as_str());
            label.append(" items)");
            self.complete(label);
            let effects = two_effects(
                Effect::Event(self.event(None, id, "MapCompleted", Some(write_items(items.len()).as_str()), None)),
                self.snap(id, CheckpointEvent::NodeCompleted, now),
            );
            self.settle();
            Step { effects, ask: Ask::GoOn }
        }
    }

    /// Takes one step.
    pub fn step(&mut self, now: u64) -> (r: Step)
        requires
            old(self).wf(),
        ensures
            final(self).wf(),
            final(self).plan() == old(self).plan(),
            (final(self)@, effect_views(r.effects@), r.ask@) == step(old(self).plan(), old(self)@, now),
            match old(self)@.phase {
                PhaseV::Mapping(_, items, collected, false) => collected.len() == items.len() ==> reads_as(
                    final(self)@,
                    old(self).plan().order[old(self)@.pos],
                    collected,
                ),
                _ => true,
            },
    {
        let mut phase = Phase::Ready;
        std::mem::swap(&mut phase, &mut self.phase);
        match phase {
            Phase::Ready => {
                if self.pos >= self.order.len() {
                    return Step { effects: no_effects(), ask: Ask::Finished };
                }
                let id = self.order[self.pos].clone();
                let automation = self.automation;
                if automation.is_map_body(id.as_str()) {
                    self.pass();
                    return Step { effects: no_effects(), ask: Ask::GoOn };
                }
                match automation.node(id.as_str()) {
                    None => {
                        self.pass();
                        Step { effects: no_effects(), ask: Ask::GoOn }
                    },
                    Some(node) => {
                        if !root_or_reached(&automation.edges, &self.active, id.as_str()) {
                            self.pass();
                            return Step { effects: no_effects(), ask: Ask::GoOn };
                        }
                        self.step_node(id.as_str(), node, now)
                    },
                }
            },
            Phase::Mapping(body, items, collected, waiting) => {
                if waiting {
                    self.phase = Phase::Mapping(body, items, collected, waiting);
                    return Step { effects: no_effects(), ask: Ask::Waiting };
                }
                let id = self.order[self.pos].clone();
                let r = self.step_map(id.as_str(), body, items, collected, now);
                r
            },
            other => {
                self.phase = other;
                Step { effects: no_effects(), ask: Ask::Waiting }
            },
        }
    }

    /// The agent of the node answered.
    fn agent_answers(&mut self, id: &str, agent_id: String, o: AgentOutput, now: u64) -> (r: Vec<Effect>)
        requires
            old(self).pos < old(self).order@.len(),
            old(self).step_idx <= old(self).pos,
            old(self).depth <= MAX_SUBGRAPH_DEPTH,
            id@ == old(self).plan().order[old(self)@.pos],
        ensures
            final(self).wf(),
            final(self).plan() == old(self).plan(),
            Some((final(self)@, effect_views(r@))) == answer(
                old(self).plan(),
                ExecV { phase: PhaseV::Agent(agent_id@), ..old(self)@ },
                ReplyV::Agent(Ok(o@)),
                now,
            ),
    {
        let event = self.event(
            Some(agent_id.as_str()),
            id,
            "TaskCompleted",
            Some(o.content.as_str()),
            Some(o.total_tokens),
        );
        self.give_output(id, o.content.clone());
        self.input_tokens = self.input_tokens.saturating_add(o.token_usage.input_tokens);
        self.output_tokens = self.output_tokens.saturating_add(o.token_usage.output_tokens);
        let ghost before = self.agent_outputs@;
        self.agent_outputs.push((agent_id.clone(), o));
        proof {
            assert(agent_views(self.agent_outputs@) =~= agent_views(before).push((agent_id@, o@)));
        }
        self.complete(agent_id);
        let effects = two_effects(Effect::Event(event), self.snap(id, CheckpointEvent::NodeCompleted, now));
        self.settle();
        effects
    }

    /// The node failed: it has an empty output, and its edges are active.
    fn node_fails(&mut self, id: &str, label: String, e: DaemonError, now: u64) -> (r: Vec<Effect>)
        requires
            old(self).pos < old(self).order@.len(),
            old(self).step_idx <= old(self).pos,
            old(self).depth <= MAX_SUBGRAPH_DEPTH,
        ensures
            final(self).wf(),
            final(self).plan() == old(self).plan(),
            ({
                let s1 = failing(with_output(old(self).plan(), old(self)@, id@, Seq::empty()), label@, e@);
                &&& final(self)@ == settled(s1)
                &&& effect_views(r@) == seq![snapshot(s1, id@, CheckpointEvent::NodeCompleted, now)]
            }),
    {
        self.give_output(id, String::new());
        self.fail(label, e);
        let effects = one_effect(self.snap(id, CheckpointEvent::NodeCompleted, now));
        self.settle();
        effects
    }

    /// The operator's question is over.
    fn operator_ends(&mut self, id: &str, out: String, event_type: &str, now: u64) -> (r: Vec<Effect>)
        requires
            old(self).pos < old(self).order@.len(),
            old(self).step_idx <= old(self).pos,
            old(self).depth <= MAX_SUBGRAPH_DEPTH,
        ensures
            final(self).wf(),
            final(self).plan() == old(self).plan(),
            ({
                let s1 = completing(with_output(old(self).plan(), old(self)@, id@, out@), "interrupt:"@ + id@);
                &&& final(self)@ == settled(s1)
                &&& effect_views(r@) == seq![
                    EffectV::MarkRunning,
                    plain_event(old(self).plan(), id@, event_type@, None),
                    snapshot(s1, id@, CheckpointEvent::InterruptResumed, now),
                ]
            }),
    {
        self.give_output(id, out);
        self.complete(labelled("interrupt:", id));
        let effects = three_effects(
            Effect::MarkRunning,
            Effect::Event(self.event(None, id, event_type, None, None)),
            self.snap(id, CheckpointEvent::InterruptResumed, now),
        );
        self.settle();
        effects
    }

    /// Whether a map's body is an agent, and which.
    fn body_agent(&self, body: &str) -> (r: Option<String>)
        ensures
            match r {
                Some(a) => node_of(self.plan().nodes, body@) is Some && node_of(self.plan().nodes, body@)->0.kind is Agent
                    && node_of(self.plan().nodes, body@)->0.kind->Agent_0 == a@,
                None => node_of(self.plan().nodes, body@) is None || !(node_of(self.plan().nodes, body@)->0.kind is Agent),
            },
    {
        match self.automation.node(body) {
            Some(b) => match &b.kind {
                AutomationNodeKind::Agent { agent_id, .. } => Some(agent_id.clone()),
                _ => None,
            },
            None => None,
        }
    }

    /// Takes an answer; one that the run does not wait for changes nothing.
    pub fn reply(&mut self, reply: Reply, now: u64) -> (r: Option<Vec<Effect>>)
        requires
            old(self).wf(),
        ensures
            final(self).wf(),
            final(self).plan() == old(self).plan(),
            match r {
                Some(effects) => answer(old(self).plan(), old(self)@, reply@, now) == Some(
                    (final(self)@, effect_views(effects@)),
                ),
                None => answer(old(self).plan(), old(self)@, reply@, now) is None && final(self)@ == old(self)@,
            },
    {
        if self.pos >= self.order.len() {
            return None;
        }
        let id = self.order[self.pos].clone();
        let ghost st = self@;
        let ghost plan = self.plan();
        let mut phase = Phase::Ready;
        std::mem::swap(&mut phase, &mut self.phase);
        match (phase, reply) {
            (Phase::Agent(agent_id), Reply::Agent(Ok(o))) => Some(self.agent_answers(id.as_str(), agent_id, o, now)),
            (Phase::Agent(agent_id), Reply::Agent(Err(e))) => Some(self.node_fails(id.as_str(), agent_id, e, now)),
            (Phase::Tool(tool_id), Reply::Text(Ok(t))) => {
                let event = self.event(None, id.as_str(), "TaskCompleted", Some(t.as_str()), None);
                self.give_output(id.as_str(), t);
                self.complete(labelled("tool:", tool_id.as_str()));
                let effects = two_effects(
                    Effect::Event(event),
                    self.snap(id.as_str(), CheckpointEvent::NodeCompleted, now),
                );
                self.settle();
                Some(effects)
            },
            (Phase::Tool(tool_id), Reply::Text(Err(e))) => Some(
                self.node_fails(id.as_str(), labelled("tool:", tool_id.as_str()), e, now),
            ),
            (Phase::Subgraph(automation_id), Reply::Text(Ok(t))) => {
                self.give_output(id.as_str(), t);
                self.complete(labelled("subgraph:", automation_id.as_str()));
                let effects = one_effect(self.snap(id.as_str(), CheckpointEvent::NodeCompleted, now));
                self.settle();
                Some(effects)
            },
            (Phase::Subgraph(automation_id), Reply::Text(Err(e))) => Some(
                self.node_fails(id.as_str(), labelled("subgraph:", automation_id.as_str()), e, now),
            ),
            (Phase::Operator(input, strategy), Reply::Resume(t)) => {
                let out = match strategy {
                    ResumeStrategy::Replace => t,
                    ResumeStrategy::Append => {
                        let mut o = concat(input.as_str(), "\n\n");
                        o.append(t.as_str());
                        o
                    },
                };
                Some(self.operator_ends(id.as_str(), out, "Resumed", now))
            },
            (Phase::Operator(input, strategy), Reply::Cancel) => Some(
                self.operator_ends(id.as_str(), String::new(), "Cancelled", now),
            ),
            (Phase::Mapping(body, items, collected, true), Reply::Agent(result)) => {
                match self.body_agent(body.as_str()) {
                    None => {
                        self.phase = Phase::Mapping(body, items, collected, true);
                        None
                    },
                    Some(agent_id) => match result {
                        Ok(o) => {
                            proof {
                                assert(views(collected@).len() == collected@.len());
                            }
                            let task = write_item_task(id.as_str(), collected.len());
                            let event = self.event(
                                Some(agent_id.as_str()),
                                task.as_str(),
                                "TaskCompleted",
                                Some(o.content.as_str()),
                                Some(o.total_tokens),
                            );
                            self.take_item(id.as_str(), body, items, collected, Ok(o.content));
                            Some(one_effect(Effect::Event(event)))
                        },
                        Err(e) => {
                            self.take_item(id.as_str(), body, items, collected, Err(e));
                            Some(no_effects())
                        },
                    },
                }
            },
            (Phase::Mapping(body, items, collected, true), Reply::Text(result)) => {
                if self.automation.node(body.as_str()).is_none() || self.body_agent(body.as_str()).is_some() {
                    self.phase = Phase::Mapping(body, items, collected, true);
                    return None;
                }
                self.take_item(id.as_str(), body, items, collected, result);
                Some(no_effects())
            },
            (phase, _) => {
                self.phase = phase;
                None
            },
        }
    }

    /// The result of the run so far.
    pub fn finish(self) -> (r: WorkflowOutput)
        ensures
            r@ == outcome(self.plan(), self@),
            r.total_token_usage.reasoning_tokens is None,
    {
        let n: usize = self.agent_outputs.len();
        let m: usize = self.outputs.len();
        let final_content = if n > 0 {
            self.agent_outputs[n - 1].1.content.clone()
        } else if m > 0 {
            self.outputs[m - 1].1.clone()
        } else {
            String::new()
        };
        WorkflowOutput {
            workflow_id: self.automation.id.clone(),
            agent_outputs: self.agent_outputs,
            final_content,
            total_token_usage: TokenUsageStats::new(self.input_tokens, self.output_tokens),
            completed_agents: self.completed,
            failed_agents: self.failed,
        }
    }
}

} // verus!
