//! Running agents in sessions.
//!
//! A session runs one agent, or several in the order of their dependencies, each
//! of which is told what those before it have done.
use vstd::prelude::*;

use crate::daemon::automation_executor::{DaemonError, DaemonErrorV, pair_views};
use crate::daemon::config::{AgentSettings, AxocoatlConfig, agent_from, find_agent, find_workflow, workflow_from};
use crate::daemon::execution::{AgentOutput, AgentOutputV};
use crate::daemon::frames::{FrameV, StreamFrame, activated, completed, make_activated, make_completed};
use crate::daemon::topology::{all_needs, run_order, topo_order};
use crate::isolation::session_sandbox::{BgTaskV, ExecResult, SessionSandbox, TerminalV};
use crate::json::{Json, JsonV, empty_object, lemma_views, lemma_views_push, views as json_views};
use crate::session::{ModeV, Session, SessionMode};
use crate::text::{concat, contains, has, holds, join, join_texts, push_text, push_texts, same, trim, trimmed, views};

verus! {

// ---------------------------------------------------------------------------
// Names
// ---------------------------------------------------------------------------

/// The name of an agent in a session.
pub open spec fn scoped_id(session: Seq<char>, agent: Seq<char>) -> Seq<char> {
    session + ":"@ + agent
}

/// The name of an agent in a session.
pub fn scoped_agent(session_id: &str, agent_id: &str) -> (r: String)
    ensures
        r@ == scoped_id(session_id@, agent_id@),
{
    concat(concat(session_id, ":").as_str(), agent_id)
}

/// The settings of an agent that is to work in a session.
pub fn session_agent<'a>(agents: &'a Vec<AgentSettings>, agent_id: &str) -> (r: Result<&'a AgentSettings, DaemonError>)
    ensures
        match r {
            Ok(a) => agent_from(agents@, agent_id@, 0) matches Some(i) && *a == agents@[i],
            Err(e) => agent_from(agents@, agent_id@, 0) is None && e@ == DaemonErrorV::Session(
                "agent '"@ + agent_id@ + "' is not in the config"@,
            ),
        },
{
    match find_agent(agents, agent_id) {
        Some(i) => Ok(&agents[i]),
        None => {
            let head = concat("agent '", agent_id);
            Err(DaemonError::Session(concat(head.as_str(), "' is not in the config")))
        },
    }
}

/// The error for a session that is not there.
pub fn no_session(session_id: &str) -> (r: DaemonError)
    ensures
        r@ == DaemonErrorV::Session("session '"@ + session_id@ + "' not found"@),
{
    let head = concat("session '", session_id);
    DaemonError::Session(concat(head.as_str(), "' not found"))
}

// ---------------------------------------------------------------------------
// Who works
// ---------------------------------------------------------------------------

/// Who works in a turn of a session.
#[derive(Debug)]
pub enum TurnPlan {
    /// One agent.
    Single(String),
    /// These agents, one after the other.
    Many(Vec<String>),
}

pub enum TurnV {
    Single(Seq<char>),
    Many(Seq<Seq<char>>),
}

impl View for TurnPlan {
    type V = TurnV;

    open spec fn view(&self) -> TurnV {
        match *self {
            TurnPlan::Single(a) => TurnV::Single(a@),
            TurnPlan::Many(v) => TurnV::Many(views(v@)),
        }
    }
}

/// Those of the names that are a certain one.
pub open spec fn only(names: Seq<Seq<char>>, name: Seq<char>) -> Seq<Seq<char>>
    decreases names.len(),
{
    if names.len() == 0 {
        names
    } else if names.last() == name {
        only(names.drop_last(), name).push(name)
    } else {
        only(names.drop_last(), name)
    }
}

/// Agents in the order of their dependencies, or one of them where a turn is
/// for it alone.
pub open spec fn turn_order(
    settings: Seq<AgentSettings>,
    agents: Seq<Seq<char>>,
    target: Option<Seq<char>>,
) -> Result<Seq<Seq<char>>, DaemonErrorV> {
    let order = run_order(agents, all_needs(settings, agents));
    match target {
        None => Ok(order),
        Some(t) => if order.contains(t) {
            Ok(only(order, t))
        } else {
            Err(DaemonErrorV::Session("target agent '"@ + t + "' is not in this session"@))
        },
    }
}

/// The agents of the workflow that a session runs.
pub open spec fn lattice_agents(config: AxocoatlConfig, workflow_id: Option<Seq<char>>) -> Result<
    Seq<Seq<char>>,
    DaemonErrorV,
> {
    let found: Result<int, DaemonErrorV> = match workflow_id {
        Some(id) => match workflow_from(config.workflows@, id, 0) {
            Some(i) => Ok(i),
            None => Err(DaemonErrorV::Session("workflow '"@ + id + "' not found"@)),
        },
        None => if config.workflows@.len() > 0 {
            Ok(0)
        } else {
            Err(DaemonErrorV::Session("no workflows configured"@))
        },
    };
    match found {
        Ok(i) => if config.workflows@[i].agents@.len() == 0 {
            Err(DaemonErrorV::Session("workflow has no agents"@))
        } else {
            Ok(views(config.workflows@[i].agents@))
        },
        Err(e) => Err(e),
    }
}

/// Who works in a turn of a session, or why nobody does.
pub open spec fn turn_of(config: AxocoatlConfig, mode: ModeV, target: Option<Seq<char>>) -> Result<TurnV, DaemonErrorV> {
    match mode {
        ModeV::SingleAgent { agent_id } => Ok(TurnV::Single(agent_id)),
        ModeV::Lattice { workflow_id } => match lattice_agents(config, workflow_id) {
            Ok(agents) => match turn_order(config.agents@, agents, target) {
                Ok(order) => Ok(TurnV::Many(order)),
                Err(e) => Err(e),
            },
            Err(e) => Err(e),
        },
        ModeV::Custom { agents } => if agents.len() == 0 {
            Err(DaemonErrorV::Session("Custom mode has no agents selected"@))
        } else {
            match turn_order(config.agents@, agents, target) {
                Ok(order) => Ok(TurnV::Many(order)),
                Err(e) => Err(e),
            }
        },
    }
}

pub open spec fn str_view(s: Option<&str>) -> Option<Seq<char>> {
    match s {
        Some(t) => Some(t@),
        None => None,
    }
}

fn order_turn(settings: &Vec<AgentSettings>, agents: &Vec<String>, target: Option<&str>) -> (r: Result<
    Vec<String>,
    DaemonError,
>)
    ensures
        match r {
            Ok(v) => turn_order(settings@, views(agents@), str_view(target)) == Ok::<Seq<Seq<char>>, DaemonErrorV>(
                views(v@),
            ),
            Err(e) => turn_order(settings@, views(agents@), str_view(target)) == Err::<Seq<Seq<char>>, DaemonErrorV>(
                e@,
            ),
        },
{
    let order = topo_order(agents, settings);
    match target {
        None => Ok(order),
        Some(t) => {
            if !holds(&order, t) {
                let head = concat("target agent '", t);
                return Err(DaemonError::Session(concat(head.as_str(), "' is not in this session")));
            }
            let ghost all = views(order@);
            let mut out: Vec<String> = Vec::new();
            let mut i: usize = 0;
            proof {
                assert(views(out@) =~= all.take(0));
            }
            while i < order.len()
                invariant
                    i <= order@.len(),
                    all == views(order@),
                    views(out@) == only(all.take(i as int), t@),
                decreases order@.len() - i,
            {
                proof {
                    assert(all.take(i + 1).drop_last() =~= all.take(i as int));
                    assert(all.take(i + 1).last() == order@[i as int]@);
                }
                if same(order[i].as_str(), t) {
                    push_text(&mut out, t);
                }
                i += 1;
            }
            proof {
                assert(all.take(all.len() as int) =~= all);
            }
            Ok(out)
        },
    }
}

/// Who works in a turn of a session, or why nobody does.
pub fn execute_session_streaming(config: &AxocoatlConfig, session: &Session, target: Option<&str>) -> (r: Result<
    TurnPlan,
    DaemonError,
>)
    ensures
        match r {
            Ok(t) => turn_of(*config, session@.mode, str_view(target)) == Ok::<TurnV, DaemonErrorV>(t@),
            Err(e) => turn_of(*config, session@.mode, str_view(target)) == Err::<TurnV, DaemonErrorV>(e@),
        },
{
    match &session.mode {
        SessionMode::SingleAgent { agent_id } => Ok(TurnPlan::Single(agent_id.clone())),
        SessionMode::Lattice { workflow_id } => {
            let i: usize = match workflow_id {
                Some(id) => match find_workflow(&config.workflows, id.as_str()) {
                    Some(i) => i,
                    None => {
                        let head = concat("workflow '", id.as_str());
                        return Err(DaemonError::Session(concat(head.as_str(), "' not found")));
                    },
                },
                None => {
                    if config.workflows.len() == 0 {
                        return Err(DaemonError::Session("no workflows configured".to_owned()));
                    }
                    0
                },
            };
            let w = &config.workflows[i];
            if w.agents.len() == 0 {
                return Err(DaemonError::Session("workflow has no agents".to_owned()));
            }
            match order_turn(&config.agents, &w.agents, target) {
                Ok(order) => Ok(TurnPlan::Many(order)),
                Err(e) => Err(e),
            }
        },
        SessionMode::Custom { agents } => {
            proof {
                assert(views(agents@).len() == agents@.len());
            }
            if agents.len() == 0 {
                return Err(DaemonError::Session("Custom mode has no agents selected".to_owned()));
            }
            match order_turn(&config.agents, agents, target) {
                Ok(order) => Ok(TurnPlan::Many(order)),
                Err(e) => Err(e),
            }
        },
    }
}

/// The agent of a session that can be run without streaming: one of several is
/// not.
pub fn execute_session(session: &Session) -> (r: Result<String, DaemonError>)
    ensures
        match r {
            Ok(a) => session@.mode == (ModeV::SingleAgent { agent_id: a@ }),
            Err(e) => !(session@.mode is SingleAgent) && e@ == DaemonErrorV::Session(
                "multi-agent sessions require the streaming API — call execute_session_streaming instead"@,
            ),
        },
{
    match &session.mode {
        SessionMode::SingleAgent { agent_id } => Ok(agent_id.clone()),
        _ => Err(
            DaemonError::Session(
                "multi-agent sessions require the streaming API — call execute_session_streaming instead".to_owned(),
            ),
        ),
    }
}

// ---------------------------------------------------------------------------
// A turn of several agents
// ---------------------------------------------------------------------------

/// The work of those before, each under its agent.
pub open spec fn sections(prior: Seq<(Seq<char>, Seq<char>)>) -> Seq<Seq<char>> {
    prior.map_values(|p: (Seq<char>, Seq<char>)| "### "@ + p.0 + "\n"@ + p.1)
}

/// What an agent is told: the instruction, and the work of those before it.
pub open spec fn composed(input: Seq<char>, prior: Seq<(Seq<char>, Seq<char>)>) -> Seq<char> {
    if prior.len() == 0 {
        input
    } else {
        input + "\n\n## Work already completed by other agents\n"@ + join(sections(prior), "\n\n"@)
    }
}

/// A turn of several agents, one after the other.
#[derive(Debug)]
pub struct SessionTurn {
    session_id: String,
    input: String,
    order: Vec<String>,
    prior: Vec<(String, String)>,
    last: Option<AgentOutput>,
}

pub struct TurnStateV {
    pub session_id: Seq<char>,
    pub input: Seq<char>,
    pub order: Seq<Seq<char>>,
    /// The agents that have finished, with what they said.
    pub prior: Seq<(Seq<char>, Seq<char>)>,
    pub last: Option<AgentOutputV>,
}

impl View for SessionTurn {
    type V = TurnStateV;

    closed spec fn view(&self) -> TurnStateV {
        TurnStateV {
            session_id: self.session_id@,
            input: self.input@,
            order: views(self.order@),
            prior: pair_views(self.prior@),
            last: match self.last {
                Some(o) => Some(o@),
                None => None,
            },
        }
    }
}

impl TurnStateV {
    /// The agents have finished in order, and the last answer is theirs.
    pub open spec fn wf(self) -> bool {
        &&& self.prior.len() <= self.order.len()
        &&& forall|i: int| 0 <= i < self.prior.len() ==> (#[trigger] self.prior[i]).0 == self.order[i]
        &&& self.last is Some <==> self.prior.len() > 0
        &&& self.last matches Some(o) ==> o.content == self.prior.last().1
    }

    /// The agent that is next, what it is told, and what those who watch are.
    pub open spec fn upcoming(self) -> Option<(Seq<char>, Seq<char>, FrameV)> {
        if self.prior.len() < self.order.len() {
            let agent = self.order[self.prior.len() as int];
            Some((agent, composed(self.input, self.prior), activated(self.session_id, agent)))
        } else {
            None
        }
    }

    /// The turn once the next agent has answered.
    pub open spec fn after(self, out: AgentOutputV) -> TurnStateV {
        TurnStateV {
            prior: self.prior.push((self.order[self.prior.len() as int], out.content)),
            last: Some(out),
            ..self
        }
    }
}

fn compose(input: &str, prior: &Vec<(String, String)>) -> (r: String)
    ensures
        r@ == composed(input@, pair_views(prior@)),
{
    if prior.len() == 0 {
        return input.to_owned();
    }
    let mut parts: Vec<String> = Vec::new();
    let mut i: usize = 0;
    while i < prior.len()
        invariant
            i <= prior@.len(),
            parts@.len() == i,
            forall|k: int| 0 <= k < i ==> (#[trigger] parts@[k])@ == "### "@ + prior@[k].0@ + "\n"@ + prior@[k].1@,
        decreases prior@.len() - i,
    {
        let a = concat("### ", prior[i].0.as_str());
        let b = concat(a.as_str(), "\n");
        parts.push(concat(b.as_str(), prior[i].1.as_str()));
        i += 1;
    }
    proof {
        assert(views(parts@) =~= sections(pair_views(prior@)));
    }
    let head = concat(input, "\n\n## Work already completed by other agents\n");
    concat(head.as_str(), join_texts(&parts, "\n\n").as_str())
}

impl SessionTurn {
    /// A turn in which nobody has worked yet.
    pub fn start(session_id: &str, input: &str, order: Vec<String>) -> (r: SessionTurn)
        ensures
            r@.wf(),
            r@ == (TurnStateV {
                session_id: session_id@,
                input: input@,
                order: views(order@),
                prior: Seq::empty(),
                last: None,
            }),
    {
        let r = SessionTurn {
            session_id: session_id.to_owned(),
            input: input.to_owned(),
            order,
            prior: Vec::new(),
            last: None,
        };
        proof {
            assert(r@.prior =~= Seq::<(Seq<char>, Seq<char>)>::empty());
        }
        r
    }

    /// The agent that is next, what it is told, and what those who watch are.
    pub fn next(&self) -> (r: Option<(String, String, StreamFrame)>)
        requires
            self@.wf(),
        ensures
            match r {
                Some(p) => self@.upcoming() == Some((p.0@, p.1@, p.2@)),
                None => self@.upcoming() is None,
            },
    {
        proof {
            assert(self@.prior.len() == self.prior@.len());
            assert(self@.order.len() == self.order@.len());
        }
        let i: usize = self.prior.len();
        if i < self.order.len() {
            let agent = self.order[i].clone();
            proof {
                assert(self@.order[i as int] == agent@);
            }
            let told = compose(self.input.as_str(), &self.prior);
            let frame = make_activated(self.session_id.as_str(), agent.as_str());
            Some((agent, told, frame))
        } else {
            None
        }
    }

    /// Takes the answer of the agent that was next; says what those who watch
    /// are told.
    pub fn done(&mut self, out: AgentOutput) -> (r: StreamFrame)
        requires
            old(self)@.wf(),
            old(self)@.upcoming() is Some,
        ensures
            final(self)@.wf(),
            final(self)@ == old(self)@.after(out@),
            r@ == completed(
                old(self)@.session_id,
                old(self)@.order[old(self)@.prior.len() as int],
                out@.content,
                out@.total_tokens,
            ),
    {
        let ghost before = self@;
        proof {
            assert(self@.prior.len() == self.prior@.len());
            assert(self@.order.len() == self.order@.len());
        }
        let i: usize = self.prior.len();
        let agent = self.order[i].clone();
        proof {
            assert(before.order[i as int] == agent@);
        }
        let frame = make_completed(
            self.session_id.as_str(),
            agent.as_str(),
            out.content.as_str(),
            out.total_tokens,
        );
        let said = out.content.clone();
        self.prior.push((agent, said));
        self.last = Some(out);
        proof {
            assert(self@.prior =~= before.prior.push((agent@, said@)));
            assert forall|k: int| 0 <= k < self@.prior.len() implies (#[trigger] self@.prior[k]).0 == self@.order[k] by {
                if k < before.prior.len() {
                    assert(self@.prior[k] == before.prior[k]);
                }
            }
        }
        frame
    }

    /// The answer of the turn: that of the last agent.
    pub fn finish(self) -> (r: Result<AgentOutput, DaemonError>)
        ensures
            match r {
                Ok(o) => self@.last == Some(o@),
                Err(e) => self@.last is None && e@ == DaemonErrorV::Session("no agents ran"@),
            },
    {
        match self.last {
            Some(o) => Ok(o),
            None => Err(DaemonError::Session("no agents ran".to_owned())),
        }
    }
}

/// A turn moves on by one agent at a time and ends when all have worked.
pub proof fn law_turns_end(st: TurnStateV, out: AgentOutputV)
    requires
        st.wf(),
        st.upcoming() is Some,
    ensures
        st.after(out).wf(),
        st.after(out).prior.len() == st.prior.len() + 1,
        st.after(out).upcoming() is None <==> st.prior.len() + 1 == st.order.len(),
{
    let next = st.after(out);
    assert forall|k: int| 0 <= k < next.prior.len() implies (#[trigger] next.prior[k]).0 == next.order[k] by {
        if k < st.prior.len() {
            assert(next.prior[k] == st.prior[k]);
        }
    }
}

/// The first agent is told the instruction alone, and every later one is told
/// it first.
pub proof fn law_agents_see_the_instruction(input: Seq<char>, prior: Seq<(Seq<char>, Seq<char>)>)
    ensures
        composed(input, Seq::empty()) == input,
        composed(input, prior).len() >= input.len(),
        composed(input, prior).take(input.len() as int) == input,
{
    assert(composed(input, prior).take(input.len() as int) =~= input);
}

// ---------------------------------------------------------------------------
// Going back
// ---------------------------------------------------------------------------

/// The agent whose conversation can go back.
pub fn rewind_session(session: &Session) -> (r: Result<String, DaemonError>)
    ensures
        match r {
            Ok(id) => session@.mode matches ModeV::SingleAgent { agent_id } && id@ == scoped_id(session@.id, agent_id),
            Err(e) => !(session@.mode is SingleAgent) && e@ == DaemonErrorV::Session(
                "rewind is only supported for single-agent sessions"@,
            ),
        },
{
    match &session.mode {
        SessionMode::SingleAgent { agent_id } => Ok(scoped_agent(session.id.as_str(), agent_id.as_str())),
        _ => Err(DaemonError::Session("rewind is only supported for single-agent sessions".to_owned())),
    }
}

/// The agent whose conversation is the session's; none where several work.
pub fn session_messages(session: &Session) -> (r: Option<String>)
    ensures
        match r {
            Some(id) => session@.mode matches ModeV::SingleAgent { agent_id } && id@ == scoped_id(
                session@.id,
                agent_id,
            ),
            None => !(session@.mode is SingleAgent),
        },
{
    match &session.mode {
        SessionMode::SingleAgent { agent_id } => Some(scoped_agent(session.id.as_str(), agent_id.as_str())),
        _ => None,
    }
}

// ---------------------------------------------------------------------------
// Tasks
// ---------------------------------------------------------------------------

/// A background task in the list.
pub open spec fn task_entry(t: BgTaskV) -> JsonV {
    empty_object().with("id"@, JsonV::Text(t.id)).with("kind"@, JsonV::Text("task"@)).with(
        "command"@,
        JsonV::Text(t.command),
    ).with("status"@, JsonV::Text(t.status)).with("log"@, JsonV::Text(t.log))
}

/// A terminal in the list.
pub open spec fn terminal_task(t: TerminalV) -> JsonV {
    empty_object().with("id"@, JsonV::Text(t.id)).with("kind"@, JsonV::Text("terminal"@)).with(
        "command"@,
        JsonV::Text(t.command),
    ).with(
        "status"@,
        JsonV::Text(
            if t.alive {
                "running"@
            } else {
                "exited"@
            },
        ),
    ).with("log"@, JsonV::Text(""@))
}

/// The tasks and terminals of a session.
pub open spec fn task_list(tasks: Seq<BgTaskV>, terminals: Seq<TerminalV>) -> Seq<JsonV> {
    tasks.map_values(|t: BgTaskV| task_entry(t)) + terminals.map_values(|t: TerminalV| terminal_task(t))
}

/// The tasks and terminals of a session; none where it has no sandbox.
pub fn session_tasks(sandbox: Option<&SessionSandbox>) -> (r: Json)
    ensures
        r@ == JsonV::Array(
            match sandbox {
                Some(s) => task_list(s.tasks(), s.terminals()),
                None => Seq::empty(),
            },
        ),
{
    let mut out: Vec<Json> = Vec::new();
    proof {
        lemma_views(out@);
        assert(json_views(out@) =~= Seq::<JsonV>::empty());
    }
    match sandbox {
        None => {},
        Some(s) => {
            let tasks = s.list_tasks();
            let terminals = s.list_terminals();
            let ghost a = s.tasks().map_values(|t: BgTaskV| task_entry(t));
            let ghost b = s.terminals().map_values(|t: TerminalV| terminal_task(t));
            let mut i: usize = 0;
            proof {
                assert(a.take(0) =~= Seq::<JsonV>::empty());
                assert(crate::isolation::session_sandbox::task_views(tasks@).len() == tasks@.len());
            }
            while i < tasks.len()
                invariant
                    i <= tasks@.len(),
                    s.tasks() == crate::isolation::session_sandbox::task_views(tasks@),
                    a == s.tasks().map_values(|t: BgTaskV| task_entry(t)),
                    json_views(out@) == a.take(i as int),
                decreases tasks@.len() - i,
            {
                let t = &tasks[i];
                let j = Json::object().with("id", Json::text(t.id.as_str())).with("kind", Json::text("task")).with(
                    "command",
                    Json::text(t.command.as_str()),
                ).with("status", Json::text(t.status.as_str())).with("log", Json::text(t.log.as_str()));
                proof {
                    assert(s.tasks()[i as int] == t@);
                    assert(j@ == task_entry(t@));
                    lemma_views_push(out@, j);
                    assert(a.take(i + 1) =~= a.take(i as int).push(a[i as int]));
                }
                out.push(j);
                i += 1;
            }
            let mut k: usize = 0;
            proof {
                assert(a.take(a.len() as int) =~= a);
                assert(a + b.take(0) =~= a);
            }
            while k < terminals.len()
                invariant
                    k <= terminals@.len(),
                    terminals@.len() == s.terminals().len(),
                    forall|x: int|
                        0 <= x < terminals@.len() ==> (#[trigger] terminals@[x]).0@ == s.terminals()[x].id
                            && terminals@[x].1@ == s.terminals()[x].command && terminals@[x].2
                            == s.terminals()[x].alive,
                    b == s.terminals().map_values(|t: TerminalV| terminal_task(t)),
                    json_views(out@) == a + b.take(k as int),
                decreases terminals@.len() - k,
            {
                let t = &terminals[k];
                let status = if t.2 {
                    "running"
                } else {
                    "exited"
                };
                let j = Json::object().with("id", Json::text(t.0.as_str())).with("kind", Json::text("terminal")).with(
                    "command",
                    Json::text(t.1.as_str()),
                ).with("status", Json::text(status)).with("log", Json::text(""));
                proof {
                    assert(j@ == terminal_task(s.terminals()[k as int]));
                    lemma_views_push(out@, j);
                    assert(a + b.take(k + 1) =~= (a + b.take(k as int)).push(b[k as int]));
                }
                out.push(j);
                k += 1;
            }
            proof {
                assert(b.take(b.len() as int) =~= b);
            }
        },
    }
    Json::Array(out)
}

// ---------------------------------------------------------------------------
// Tools beyond files and shell
// ---------------------------------------------------------------------------

/// The enabled skills that are configured, in order.
pub open spec fn usable_skills(enabled: Seq<Seq<char>>, configured: Seq<Seq<char>>) -> Seq<Seq<char>> {
    crate::daemon::topology::among(enabled, configured)
}

/// The skills that a session's agents can call, and whether they can search the
/// web.
pub fn build_session_executor(config: &AxocoatlConfig, session: &Session) -> (r: (Vec<String>, bool))
    ensures
        views(r.0@) == usable_skills(session@.enabled_skills, views(config.skills@)),
        r.1 == config.web_search,
{
    (crate::daemon::topology::members_of(&session.enabled_skills, &config.skills), config.web_search)
}

// ---------------------------------------------------------------------------
// git
// ---------------------------------------------------------------------------

/// The command line of git in a directory.
pub open spec fn git_line(cwd: Seq<char>, args: Seq<Seq<char>>) -> Seq<Seq<char>> {
    seq!["git"@, "-c"@, "safe.directory=*"@, "-C"@, cwd] + args
}

/// The command line of git in a directory.
pub fn session_git_at(cwd: &str, args: &Vec<String>) -> (r: Vec<String>)
    ensures
        views(r@) == git_line(cwd@, views(args@)),
{
    let mut argv: Vec<String> = Vec::new();
    proof {
        assert(views(argv@) =~= Seq::<Seq<char>>::empty());
    }
    push_text(&mut argv, "git");
    push_text(&mut argv, "-c");
    push_text(&mut argv, "safe.directory=*");
    push_text(&mut argv, "-C");
    push_text(&mut argv, cwd);
    proof {
        assert(views(argv@) =~= seq!["git"@, "-c"@, "safe.directory=*"@, "-C"@, cwd@]);
    }
    push_texts(&mut argv, args);
    argv
}

/// Whether a probe says that the directory is a repository.
pub fn is_repository(probe: &ExecResult) -> (r: bool)
    ensures
        r == (probe.exit_code == 0 && trim(probe.stdout@) == "true"@),
{
    probe.ok() && same(trimmed(probe.stdout.as_str()).as_str(), "true")
}

/// The git commands that make a directory a repository with a first commit.
pub open spec fn baseline() -> Seq<Seq<Seq<char>>> {
    seq![
        seq!["init"@, "-q"@],
        seq!["config"@, "user.email"@, "agent@axocoatl.local"@],
        seq!["config"@, "user.name"@, "Axocoatl"@],
        seq!["add"@, "-A"@],
        seq!["commit"@, "-q"@, "-m"@, "axocoatl: baseline"@, "--allow-empty"@],
    ]
}

fn words2(a: &str, b: &str) -> (r: Vec<String>)
    ensures
        views(r@) == seq![a@, b@],
{
    let mut v: Vec<String> = Vec::new();
    push_text(&mut v, a);
    push_text(&mut v, b);
    proof {
        assert(views(v@) =~= seq![a@, b@]);
    }
    v
}

fn words3(a: &str, b: &str, c: &str) -> (r: Vec<String>)
    ensures
        views(r@) == seq![a@, b@, c@],
{
    let mut v = words2(a, b);
    push_text(&mut v, c);
    proof {
        assert(views(v@) =~= seq![a@, b@, c@]);
    }
    v
}

fn words4(a: &str, b: &str, c: &str, d: &str) -> (r: Vec<String>)
    ensures
        views(r@) == seq![a@, b@, c@, d@],
{
    let mut v = words3(a, b, c);
    push_text(&mut v, d);
    proof {
        assert(views(v@) =~= seq![a@, b@, c@, d@]);
    }
    v
}

/// The git commands that make a directory a repository with a first commit.
pub fn ensure_session_git() -> (r: Vec<Vec<String>>)
    ensures
        crate::daemon::topology::list_views(r@) == baseline(),
{
    let mut out: Vec<Vec<String>> = Vec::new();
    out.push(words2("init", "-q"));
    out.push(words3("config", "user.email", "agent@axocoatl.local"));
    out.push(words3("config", "user.name", "Axocoatl"));
    out.push(words2("add", "-A"));
    let mut commit = words4("commit", "-q", "-m", "axocoatl: baseline");
    push_text(&mut commit, "--allow-empty");
    proof {
        assert(views(commit@) =~= seq!["commit"@, "-q"@, "-m"@, "axocoatl: baseline"@, "--allow-empty"@]);
    }
    out.push(commit);
    proof {
        assert(crate::daemon::topology::list_views(out@) =~= baseline());
    }
    out
}

/// The git command that lists the branch and the changed files.
pub fn git_status() -> (r: Vec<String>)
    ensures
        views(r@) == seq!["status"@, "--porcelain=v1"@, "-b"@, "--untracked-files=all"@],
{
    words4("status", "--porcelain=v1", "-b", "--untracked-files=all")
}

/// The git commands that name the current branch and list all branches.
pub fn git_branches() -> (r: (Vec<String>, Vec<String>))
    ensures
        views(r.0@) == seq!["rev-parse"@, "--abbrev-ref"@, "HEAD"@],
        views(r.1@) == seq!["branch"@, "--format=%(refname:short)"@],
{
    (words3("rev-parse", "--abbrev-ref", "HEAD"), words2("branch", "--format=%(refname:short)"))
}

/// The command that commits with a message; a blank one is replaced.
pub fn git_commit(message: &str) -> (r: Vec<String>)
    ensures
        views(r@) == seq![
            "commit"@,
            "-q"@,
            "-m"@,
            if trim(message@).len() == 0 {
                "axocoatl: snapshot"@
            } else {
                message@
            },
        ],
{
    if trimmed(message).as_str().unicode_len() == 0 {
        words4("commit", "-q", "-m", "axocoatl: snapshot")
    } else {
        words4("commit", "-q", "-m", message)
    }
}

/// The commands that discard the changes of a path, or of all; a path that goes
/// up is refused.
pub open spec fn discarding(path: Option<Seq<char>>) -> Result<(Seq<Seq<char>>, Seq<Seq<char>>), DaemonErrorV> {
    match path {
        Some(p) => if contains(p, ".."@) {
            Err(DaemonErrorV::Session("invalid path"@))
        } else {
            Ok((seq!["checkout"@, "--"@, p], seq!["clean"@, "-fd"@, "--"@, p]))
        },
        None => Ok((seq!["checkout"@, "--"@, "."@], seq!["clean"@, "-fd"@])),
    }
}

/// The commands that discard the changes of a path, or of all.
pub fn git_discard(path: Option<&str>) -> (r: Result<(Vec<String>, Vec<String>), DaemonError>)
    ensures
        match r {
            Ok(p) => discarding(str_view(path)) == Ok::<(Seq<Seq<char>>, Seq<Seq<char>>), DaemonErrorV>(
                (views(p.0@), views(p.1@)),
            ),
            Err(e) => discarding(str_view(path)) == Err::<(Seq<Seq<char>>, Seq<Seq<char>>), DaemonErrorV>(e@),
        },
{
    match path {
        Some(p) => {
            if has(p, "..") {
                return Err(DaemonError::Session("invalid path".to_owned()));
            }
            Ok((words3("checkout", "--", p), words4("clean", "-fd", "--", p)))
        },
        None => Ok((words3("checkout", "--", "."), words2("clean", "-fd"))),
    }
}

/// Whether a checkout succeeded.
pub fn git_checkout(r: &ExecResult) -> (res: Result<(), DaemonError>)
    ensures
        match res {
            Ok(_) => r.exit_code == 0,
            Err(e) => r.exit_code != 0 && e@ == DaemonErrorV::Session("checkout failed: "@ + trim(r.stderr@)),
        },
{
    if r.ok() {
        Ok(())
    } else {
        Err(DaemonError::Session(concat("checkout failed: ", trimmed(r.stderr.as_str()).as_str())))
    }
}

} // verus!
