//! The entries of a session's transcript.
use vstd::prelude::*;

use crate::json::{Json, JsonV};
use crate::llm::provider::MessageRole;
use crate::memory::files::dot_before;
use crate::text::{chars_of, concat, lines, lines_of, push_text, same, text_between, trim, trimmed, views};

verus! {

/// An entry.
#[derive(Debug)]
pub struct TranscriptEntry {
    pub session_id: String,
    pub timestamp: u64,
    pub entry_type: TranscriptEntryType,
}

/// What an entry records.
#[derive(Debug)]
pub enum TranscriptEntryType {
    Message { role: MessageRole, content: String, token_count: usize },
    ToolCall { tool_name: String, arguments: Json },
    ToolResult { tool_name: String, result: Json, token_count: usize },
    SessionStart { agent_id: String, model: String },
    SessionEnd { total_tokens: usize },
    Compression { stage: String, tokens_before: usize, tokens_after: usize },
}

pub enum RecordV {
    Message { role: MessageRole, content: Seq<char>, token_count: usize },
    ToolCall { tool_name: Seq<char>, arguments: JsonV },
    ToolResult { tool_name: Seq<char>, result: JsonV, token_count: usize },
    SessionStart { agent_id: Seq<char>, model: Seq<char> },
    SessionEnd { total_tokens: usize },
    Compression { stage: Seq<char>, tokens_before: usize, tokens_after: usize },
}

impl View for TranscriptEntryType {
    type V = RecordV;

    open spec fn view(&self) -> RecordV {
        match *self {
            TranscriptEntryType::Message { role, content, token_count } => RecordV::Message {
                role,
                content: content@,
                token_count,
            },
            TranscriptEntryType::ToolCall { tool_name, arguments } => RecordV::ToolCall {
                tool_name: tool_name@,
                arguments: arguments@,
            },
            TranscriptEntryType::ToolResult { tool_name, result, token_count } => RecordV::ToolResult {
                tool_name: tool_name@,
                result: result@,
                token_count,
            },
            TranscriptEntryType::SessionStart { agent_id, model } => RecordV::SessionStart {
                agent_id: agent_id@,
                model: model@,
            },
            TranscriptEntryType::SessionEnd { total_tokens } => RecordV::SessionEnd { total_tokens },
            TranscriptEntryType::Compression { stage, tokens_before, tokens_after } => RecordV::Compression {
                stage: stage@,
                tokens_before,
                tokens_after,
            },
        }
    }
}

impl TranscriptEntry {
    /// The entry of a message.
    pub fn message(session_id: &str, role: MessageRole, content: &str, token_count: usize, now: u64) -> (r:
        TranscriptEntry)
        ensures
            r.session_id@ == session_id@,
            r.timestamp == now,
            r.entry_type@ == (RecordV::Message { role, content: content@, token_count }),
    {
        TranscriptEntry {
            session_id: session_id.to_owned(),
            timestamp: now,
            entry_type: TranscriptEntryType::Message { role, content: content.to_owned(), token_count },
        }
    }

    /// The entry of a tool call.
    pub fn tool_call(session_id: &str, tool_name: &str, arguments: Json, now: u64) -> (r: TranscriptEntry)
        ensures
            r.session_id@ == session_id@,
            r.timestamp == now,
            r.entry_type@ == (RecordV::ToolCall { tool_name: tool_name@, arguments: arguments@ }),
    {
        TranscriptEntry {
            session_id: session_id.to_owned(),
            timestamp: now,
            entry_type: TranscriptEntryType::ToolCall { tool_name: tool_name.to_owned(), arguments },
        }
    }

    /// The entry of a tool's result.
    pub fn tool_result(session_id: &str, tool_name: &str, result: Json, token_count: usize, now: u64) -> (r:
        TranscriptEntry)
        ensures
            r.session_id@ == session_id@,
            r.timestamp == now,
            r.entry_type@ == (RecordV::ToolResult { tool_name: tool_name@, result: result@, token_count }),
    {
        TranscriptEntry {
            session_id: session_id.to_owned(),
            timestamp: now,
            entry_type: TranscriptEntryType::ToolResult { tool_name: tool_name.to_owned(), result, token_count },
        }
    }
}

/// The name of a session's transcript.
pub fn transcript_file(session_id: &str) -> (r: String)
    ensures
        r@ == session_id@ + ".jsonl"@,
{
    concat(session_id, ".jsonl")
}

/// The lines that may hold an entry: those that are not blank.
pub open spec fn entry_lines(ls: Seq<Seq<char>>) -> Seq<Seq<char>>
    decreases ls.len(),
{
    if ls.len() == 0 {
        ls
    } else if trim(ls.last()).len() == 0 {
        entry_lines(ls.drop_last())
    } else {
        entry_lines(ls.drop_last()).push(ls.last())
    }
}

/// The lines of a transcript that may hold an entry.
pub fn read_transcript(content: &str) -> (r: Vec<String>)
    ensures
        views(r@) == entry_lines(lines(content@)),
{
    let ls = lines_of(content);
    let ghost all = lines(content@);
    let mut out: Vec<String> = Vec::new();
    let mut i: usize = 0;
    proof {
        assert(views(out@) =~= all.take(0));
    }
    while i < ls.len()
        invariant
            i <= ls@.len(),
            all == views(ls@),
            views(out@) == entry_lines(all.take(i as int)),
        decreases ls@.len() - i,
    {
        proof {
            assert(all.take(i + 1).drop_last() =~= all.take(i as int));
            assert(all.take(i + 1).last() == ls@[i as int]@);
        }
        if trimmed(ls[i].as_str()).as_str().unicode_len() > 0 {
            push_text(&mut out, ls[i].as_str());
        }
        i += 1;
    }
    proof {
        assert(all.take(all.len() as int) =~= all);
    }
    out
}

/// The session whose transcript a file is, if it is one.
pub open spec fn session_in(name: Seq<char>) -> Option<Seq<char>> {
    match dot_before(name, name.len() as int) {
        Some(d) => if d > 0 && name.subrange(d + 1, name.len() as int) == "jsonl"@ {
            Some(name.subrange(0, d))
        } else {
            None
        },
        None => None,
    }
}

/// The sessions whose transcripts are among some files.
pub open spec fn sessions_in(names: Seq<Seq<char>>) -> Seq<Seq<char>>
    decreases names.len(),
{
    if names.len() == 0 {
        names
    } else {
        match session_in(names.last()) {
            Some(id) => sessions_in(names.drop_last()).push(id),
            None => sessions_in(names.drop_last()),
        }
    }
}

fn session_of(name: &str) -> (r: Option<String>)
    ensures
        match r {
            Some(s) => session_in(name@) == Some(s@),
            None => session_in(name@) is None,
        },
{
    let v = chars_of(name);
    let mut i: usize = v.len();
    while i > 0
        invariant
            i <= v@.len(),
            v@ == name@,
            dot_before(name@, name@.len() as int) == dot_before(name@, i as int),
        decreases i,
    {
        if v[i - 1] == '.' {
            if i > 1 && same(text_between(&v, i, v.len()).as_str(), "jsonl") {
                return Some(text_between(&v, 0, i - 1));
            }
            return None;
        }
        i = i - 1;
    }
    None
}

/// The sessions whose transcripts are among some files.
pub fn list_sessions(names: &Vec<String>) -> (r: Vec<String>)
    ensures
        views(r@) == sessions_in(views(names@)),
{
    let ghost all = views(names@);
    let mut out: Vec<String> = Vec::new();
    let mut i: usize = 0;
    proof {
        assert(views(out@) =~= all.take(0));
    }
    while i < names.len()
        invariant
            i <= names@.len(),
            all == views(names@),
            views(out@) == sessions_in(all.take(i as int)),
        decreases names@.len() - i,
    {
        proof {
            assert(all.take(i + 1).drop_last() =~= all.take(i as int));
            assert(all.take(i + 1).last() == names@[i as int]@);
        }
        match session_of(names[i].as_str()) {
            Some(id) => {
                push_text(&mut out, id.as_str());
            },
            None => {},
        }
        i += 1;
    }
    proof {
        assert(all.take(all.len() as int) =~= all);
    }
    out
}

/// The transcript of a session is listed under the session, whatever its id but
/// the empty one.
pub proof fn law_transcripts_are_listed(session_id: Seq<char>)
    requires
        session_id.len() > 0,
    ensures
        session_in(session_id + ".jsonl"@) == Some(session_id),
{
    let name = session_id + ".jsonl"@;
    let d = session_id.len() as int;
    reveal_strlit(".jsonl");
    reveal_strlit("jsonl");
    assert(name[d] == '.');
    assert(name[d + 1] == 'j' && name[d + 2] == 's' && name[d + 3] == 'o' && name[d + 4] == 'n' && name[d + 5] == 'l');
    assert(name.len() == d + 6);
    assert(dot_before(name, d + 1) == Some(d));
    assert(dot_before(name, d + 2) == dot_before(name, d + 1));
    assert(dot_before(name, d + 3) == dot_before(name, d + 2));
    assert(dot_before(name, d + 4) == dot_before(name, d + 3));
    assert(dot_before(name, d + 5) == dot_before(name, d + 4));
    assert(dot_before(name, d + 6) == dot_before(name, d + 5));
    assert(name.subrange(d + 1, name.len() as int) =~= "jsonl"@);
    assert(name.subrange(0, d) =~= session_id);
}

} // verus!
