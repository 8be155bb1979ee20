//! What those who watch a session are sent.
use vstd::prelude::*;

use crate::daemon::execution::excerpt;
use crate::json::{Json, JsonV};
use crate::llm::provider::opt_view;
use crate::text::{chars_of, text_between};

verus! {

/// A piece of what an agent does, as it comes.
#[derive(Debug)]
pub enum StreamChunk {
    Text(String),
    Reasoning(String),
    ToolCallStarted { id: String, name: String, arguments: Json },
    ToolCallResult { id: String, name: String, result: Json, is_error: bool },
}

/// A message to those who watch.
#[derive(Debug)]
pub enum StreamFrame {
    Token { workflow: String, agent: String, delta: String },
    Reasoning { workflow: String, agent: String, delta: String },
    ToolCall {
        workflow: String,
        agent: String,
        call_id: String,
        name: String,
        phase: String,
        arguments: Option<Json>,
        result: Option<Json>,
        is_error: bool,
    },
    Event {
        event_type: String,
        agent: Option<String>,
        output: Option<String>,
        tokens: Option<u64>,
        workflow: String,
    },
    SessionStart { session: String },
    SessionDone { session: String, input_tokens: u64, output_tokens: u64 },
    SessionError { session: String, error: String },
}

pub enum FrameV {
    Token { workflow: Seq<char>, agent: Seq<char>, delta: Seq<char> },
    Reasoning { workflow: Seq<char>, agent: Seq<char>, delta: Seq<char> },
    ToolCall {
        workflow: Seq<char>,
        agent: Seq<char>,
        call_id: Seq<char>,
        name: Seq<char>,
        phase: Seq<char>,
        arguments: Option<JsonV>,
        result: Option<JsonV>,
        is_error: bool,
    },
    Event {
        event_type: Seq<char>,
        agent: Option<Seq<char>>,
        output: Option<Seq<char>>,
        tokens: Option<u64>,
        workflow: Seq<char>,
    },
    SessionStart { session: Seq<char> },
    SessionDone { session: Seq<char>, input_tokens: u64, output_tokens: u64 },
    SessionError { session: Seq<char>, error: Seq<char> },
}

pub open spec fn opt_json_view(j: Option<Json>) -> Option<JsonV> {
    match j {
        Some(v) => Some(v@),
        None => None,
    }
}

impl View for StreamFrame {
    type V = FrameV;

    open spec fn view(&self) -> FrameV {
        match *self {
            StreamFrame::Token { workflow, agent, delta } => FrameV::Token {
                workflow: workflow@,
                agent: agent@,
                delta: delta@,
            },
            StreamFrame::Reasoning { workflow, agent, delta } => FrameV::Reasoning {
                workflow: workflow@,
                agent: agent@,
                delta: delta@,
            },
            StreamFrame::ToolCall { workflow, agent, call_id, name, phase, arguments, result, is_error } => {
                FrameV::ToolCall {
                    workflow: workflow@,
                    agent: agent@,
                    call_id: call_id@,
                    name: name@,
                    phase: phase@,
                    arguments: opt_json_view(arguments),
                    result: opt_json_view(result),
                    is_error,
                }
            },
            StreamFrame::Event { event_type, agent, output, tokens, workflow } => FrameV::Event {
                event_type: event_type@,
                agent: opt_view(agent),
                output: opt_view(output),
                tokens,
                workflow: workflow@,
            },
            StreamFrame::SessionStart { session } => FrameV::SessionStart { session: session@ },
            StreamFrame::SessionDone { session, input_tokens, output_tokens } => FrameV::SessionDone {
                session: session@,
                input_tokens,
                output_tokens,
            },
            StreamFrame::SessionError { session, error } => FrameV::SessionError { session: session@, error: error@ },
        }
    }
}

/// What those who watch are sent for a piece.
pub open spec fn forwarded(chunk: StreamChunk, run: Seq<char>, agent: Seq<char>) -> FrameV {
    match chunk {
        StreamChunk::Text(d) => FrameV::Token { workflow: run, agent, delta: d@ },
        StreamChunk::Reasoning(d) => FrameV::Reasoning { workflow: run, agent, delta: d@ },
        StreamChunk::ToolCallStarted { id, name, arguments } => FrameV::ToolCall {
            workflow: run,
            agent,
            call_id: id@,
            name: name@,
            phase: "start"@,
            arguments: Some(arguments@),
            result: None,
            is_error: false,
        },
        StreamChunk::ToolCallResult { id, name, result, is_error } => FrameV::ToolCall {
            workflow: run,
            agent,
            call_id: id@,
            name: name@,
            phase: "result"@,
            arguments: None,
            result: Some(result@),
            is_error,
        },
    }
}

/// What those who watch are sent for a piece.
pub fn stream_agent_run(chunk: StreamChunk, run_id: &str, agent_label: &str) -> (r: StreamFrame)
    ensures
        r@ == forwarded(chunk, run_id@, agent_label@),
{
    let workflow = run_id.to_owned();
    let agent = agent_label.to_owned();
    match chunk {
        StreamChunk::Text(delta) => StreamFrame::Token { workflow, agent, delta },
        StreamChunk::Reasoning(delta) => StreamFrame::Reasoning { workflow, agent, delta },
        StreamChunk::ToolCallStarted { id, name, arguments } => StreamFrame::ToolCall {
            workflow,
            agent,
            call_id: id,
            name,
            phase: "start".to_owned(),
            arguments: Some(arguments),
            result: None,
            is_error: false,
        },
        StreamChunk::ToolCallResult { id, name, result, is_error } => StreamFrame::ToolCall {
            workflow,
            agent,
            call_id: id,
            name,
            phase: "result".to_owned(),
            arguments: None,
            result: Some(result),
            is_error,
        },
    }
}

/// An agent of a run begins.
pub open spec fn activated(run: Seq<char>, agent: Seq<char>) -> FrameV {
    FrameV::Event { event_type: "AgentActivated"@, agent: Some(agent), output: None, tokens: None, workflow: run }
}

/// An agent of a run has finished.
pub open spec fn completed(run: Seq<char>, agent: Seq<char>, output: Seq<char>, tokens: u64) -> FrameV {
    FrameV::Event {
        event_type: "TaskCompleted"@,
        agent: Some(agent),
        output: Some(excerpt(output)),
        tokens: Some(tokens),
        workflow: run,
    }
}

/// An agent of a run begins.
pub fn make_activated(run: &str, agent: &str) -> (r: StreamFrame)
    ensures
        r@ == activated(run@, agent@),
{
    StreamFrame::Event {
        event_type: "AgentActivated".to_owned(),
        agent: Some(agent.to_owned()),
        output: None,
        tokens: None,
        workflow: run.to_owned(),
    }
}

/// An agent of a run has finished.
pub fn make_completed(run: &str, agent: &str, output: &str, tokens: u64) -> (r: StreamFrame)
    ensures
        r@ == completed(run@, agent@, output@, tokens),
{
    let v = chars_of(output);
    let n: usize = if v.len() <= 200 {
        v.len()
    } else {
        200
    };
    let cut = text_between(&v, 0, n);
    proof {
        assert(cut@ =~= excerpt(output@));
    }
    StreamFrame::Event {
        event_type: "TaskCompleted".to_owned(),
        agent: Some(agent.to_owned()),
        output: Some(cut),
        tokens: Some(tokens),
        workflow: run.to_owned(),
    }
}

} // verus!
