//! The file and shell tools of a session.
//!
//! A tool turns its arguments into a command for the session's container, and
//! what the command printed into its answer. Paths and patterns are handed over
//! as arguments of their own, never inside a script, and paths stay in the
//! session's directory.
use vstd::prelude::*;

use crate::isolation::session_sandbox::{BgTaskV, ExecResult, SessionSandbox, TerminalV, others, started_id,
    terminal_from};
use crate::json::{Json, JsonV, empty_object, lemma_views_push, number_of_i64, number_of_u64, views as json_views};
use crate::llm::wire::{text_array, text_values};
use crate::text::{byte_len, concat, contains, count_all, has, join, join_texts, lines, lines_of, lossy, lossy_text,
    push_text, replace_all, replaced_all, signed, signed_text, trim, trimmed, views};
use crate::tools::error::{ToolError, ToolErrorV};
use crate::tools::executor::{BackendV, BuiltinTool, ToolExecutor};
use crate::tools::paths::{confine, escape_text, inside};

verus! {

// ---------------------------------------------------------------------------
// Commands
// ---------------------------------------------------------------------------

/// How long a command on files may take, in seconds.
pub const FS_SECS: u64 = 30;

/// How long a shell command may take, in seconds.
pub const SHELL_SECS: u64 = 180;

/// A command for a container.
#[derive(Debug)]
pub struct SandboxCommand {
    pub argv: Vec<String>,
    pub stdin: Option<String>,
    pub secs: u64,
}

pub struct CommandV {
    pub argv: Seq<Seq<char>>,
    pub stdin: Option<Seq<char>>,
    pub secs: u64,
}

impl View for SandboxCommand {
    type V = CommandV;

    open spec fn view(&self) -> CommandV {
        CommandV {
            argv: views(self.argv@),
            stdin: match self.stdin {
                Some(s) => Some(s@),
                None => None,
            },
            secs: self.secs,
        }
    }
}

/// A command without input.
pub open spec fn plain(argv: Seq<Seq<char>>, secs: u64) -> CommandV {
    CommandV { argv, stdin: None, secs }
}

/// The command that writes a file.
pub open spec fn writing(path: Seq<char>, content: Seq<char>) -> CommandV {
    CommandV {
        argv: seq!["sh"@, "-c"@, "cat > \"$1\""@, "sh"@, path],
        stdin: Some(content),
        secs: FS_SECS,
    }
}

fn reading_command(path: &str) -> (r: SandboxCommand)
    ensures
        r@ == plain(seq!["cat"@, path@], FS_SECS),
{
    let mut argv: Vec<String> = Vec::new();
    proof {
        assert(views(argv@) =~= Seq::<Seq<char>>::empty());
    }
    push_text(&mut argv, "cat");
    push_text(&mut argv, path);
    proof {
        assert(views(argv@) =~= seq!["cat"@, path@]);
    }
    SandboxCommand { argv, stdin: None, secs: FS_SECS }
}

fn writing_command(path: &str, content: &str) -> (r: SandboxCommand)
    ensures
        r@ == writing(path@, content@),
{
    let mut argv: Vec<String> = Vec::new();
    proof {
        assert(views(argv@) =~= Seq::<Seq<char>>::empty());
    }
    push_text(&mut argv, "sh");
    push_text(&mut argv, "-c");
    push_text(&mut argv, "cat > \"$1\"");
    push_text(&mut argv, "sh");
    push_text(&mut argv, path);
    proof {
        assert(views(argv@) =~= seq!["sh"@, "-c"@, "cat > \"$1\""@, "sh"@, path@]);
    }
    SandboxCommand { argv, stdin: Some(content.to_owned()), secs: FS_SECS }
}

/// What came of a command: its result, or why it could not be run.
pub type Outcome = Result<ExecResult, String>;

/// Why a command that ran is counted as failed.
pub open spec fn failure_reason(r: ExecResult) -> Seq<char> {
    if trim(r.stderr@).len() == 0 {
        "exit code "@ + signed(r.exit_code as int)
    } else {
        trim(r.stderr@)
    }
}

/// The error of a command that ran and failed.
pub open spec fn failed(tool: Seq<char>, r: ExecResult) -> ToolErrorV {
    ToolErrorV::ExecutionFailed { tool, reason: failure_reason(r) }
}

/// The error of a command that could not be run.
pub open spec fn not_run(tool: Seq<char>, message: Seq<char>) -> ToolErrorV {
    ToolErrorV::ExecutionFailed { tool, reason: message }
}

/// What a command that must succeed has printed.
pub open spec fn printed(tool: Seq<char>, outcome: Outcome) -> Result<Seq<char>, ToolErrorV> {
    match outcome {
        Ok(r) => if r.exit_code == 0 {
            Ok(r.stdout@)
        } else {
            Err(failed(tool, r))
        },
        Err(m) => Err(not_run(tool, m@)),
    }
}

/// The result has this value.
pub open spec fn gives(r: Result<Json, ToolError>, s: Result<JsonV, ToolErrorV>) -> bool {
    match r {
        Ok(j) => s == Ok::<JsonV, ToolErrorV>(j@),
        Err(e) => s == Err::<JsonV, ToolErrorV>(e@),
    }
}

/// The command has this value.
pub open spec fn plans(r: Result<SandboxCommand, ToolError>, s: Result<CommandV, ToolErrorV>) -> bool {
    match r {
        Ok(c) => s == Ok::<CommandV, ToolErrorV>(c@),
        Err(e) => s == Err::<CommandV, ToolErrorV>(e@),
    }
}

/// The error of a command that could not be run.
pub fn exec_err(tool: &str, message: String) -> (r: ToolError)
    ensures
        r@ == not_run(tool@, message@),
{
    ToolError::ExecutionFailed { tool: tool.to_owned(), reason: message }
}

fn failed_error(tool: &str, r: &ExecResult) -> (e: ToolError)
    ensures
        e@ == failed(tool@, *r),
{
    let said = trimmed(r.stderr.as_str());
    let reason = if said.as_str().unicode_len() == 0 {
        concat("exit code ", signed_text(r.exit_code).as_str())
    } else {
        said
    };
    ToolError::ExecutionFailed { tool: tool.to_owned(), reason }
}

/// Gives the result of a command that succeeded back; any other is an error.
pub fn require_ok(tool: &str, r: ExecResult) -> (res: Result<ExecResult, ToolError>)
    ensures
        match res {
            Ok(x) => r.exit_code == 0 && x == r,
            Err(e) => r.exit_code != 0 && e@ == failed(tool@, r),
        },
{
    if r.ok() {
        Ok(r)
    } else {
        Err(failed_error(tool, &r))
    }
}

fn printed_text(tool: &str, outcome: Outcome) -> (r: Result<String, ToolError>)
    ensures
        match r {
            Ok(s) => printed(tool@, outcome) == Ok::<Seq<char>, ToolErrorV>(s@),
            Err(e) => printed(tool@, outcome) == Err::<Seq<char>, ToolErrorV>(e@),
        },
{
    match outcome {
        Ok(r) => match require_ok(tool, r) {
            Ok(x) => Ok(x.stdout),
            Err(e) => Err(e),
        },
        Err(m) => Err(exec_err(tool, m)),
    }
}

// ---------------------------------------------------------------------------
// Arguments
// ---------------------------------------------------------------------------

/// The text of an argument.
pub open spec fn arg_text(args: JsonV, key: Seq<char>) -> Option<Seq<char>> {
    match args.field(key) {
        Some(v) => v.as_text(),
        None => None,
    }
}

/// The number of an argument.
pub open spec fn arg_number(args: JsonV, key: Seq<char>) -> Option<u64> {
    match args.field(key) {
        Some(v) => v.as_u64(),
        None => None,
    }
}

/// A text argument that must be there.
pub open spec fn needed(args: JsonV, key: Seq<char>, tool: Seq<char>) -> Result<Seq<char>, ToolErrorV> {
    match arg_text(args, key) {
        Some(s) => Ok(s),
        None => Err(ToolErrorV::InvalidArgs { tool, reason: "expected string field '"@ + key + "'"@ }),
    }
}

/// A path that stays in the root.
pub open spec fn confined(root: Seq<char>, path: Seq<char>, tool: Seq<char>) -> Result<Seq<char>, ToolErrorV> {
    if inside(root, path) {
        Ok(path)
    } else {
        Err(ToolErrorV::InvalidArgs { tool, reason: escape_text(path) })
    }
}

/// The path argument, which must be there and stay in the root.
pub open spec fn path_arg(root: Seq<char>, args: JsonV, tool: Seq<char>) -> Result<Seq<char>, ToolErrorV> {
    match needed(args, "path"@, tool) {
        Ok(p) => confined(root, p, tool),
        Err(e) => Err(e),
    }
}

/// The path argument, or the directory itself.
pub open spec fn path_or_here(root: Seq<char>, args: JsonV, tool: Seq<char>) -> Result<Seq<char>, ToolErrorV> {
    confined(
        root,
        match arg_text(args, "path"@) {
            Some(p) => p,
            None => "."@,
        },
        tool,
    )
}

fn text_arg<'a>(args: &'a Json, key: &str) -> (r: Option<&'a str>)
    ensures
        match r {
            Some(s) => arg_text(args@, key@) == Some(s@),
            None => arg_text(args@, key@) is None,
        },
{
    match args.get(key) {
        Some(v) => v.as_str(),
        None => None,
    }
}

fn number_arg(args: &Json, key: &str) -> (r: Option<u64>)
    ensures
        r == arg_number(args@, key@),
{
    match args.get(key) {
        Some(v) => v.as_u64(),
        None => None,
    }
}

/// A text argument that must be there.
pub fn str_arg<'a>(args: &'a Json, key: &str, tool: &str) -> (r: Result<&'a str, ToolError>)
    ensures
        match r {
            Ok(s) => needed(args@, key@, tool@) == Ok::<Seq<char>, ToolErrorV>(s@),
            Err(e) => needed(args@, key@, tool@) == Err::<Seq<char>, ToolErrorV>(e@),
        },
{
    match text_arg(args, key) {
        Some(s) => Ok(s),
        None => {
            let head = concat("expected string field '", key);
            Err(ToolError::InvalidArgs { tool: tool.to_owned(), reason: concat(head.as_str(), "'") })
        },
    }
}

fn inside_path<'a>(root: &str, path: &'a str, tool: &str) -> (r: Result<&'a str, ToolError>)
    ensures
        match r {
            Ok(s) => confined(root@, path@, tool@) == Ok::<Seq<char>, ToolErrorV>(s@),
            Err(e) => confined(root@, path@, tool@) == Err::<Seq<char>, ToolErrorV>(e@),
        },
{
    confine(root, path, tool)
}

fn needed_path<'a>(root: &str, args: &'a Json, tool: &str) -> (r: Result<&'a str, ToolError>)
    ensures
        match r {
            Ok(s) => path_arg(root@, args@, tool@) == Ok::<Seq<char>, ToolErrorV>(s@),
            Err(e) => path_arg(root@, args@, tool@) == Err::<Seq<char>, ToolErrorV>(e@),
        },
{
    match str_arg(args, "path", tool) {
        Ok(p) => inside_path(root, p, tool),
        Err(e) => Err(e),
    }
}

fn optional_path<'a>(root: &str, args: &'a Json, tool: &str) -> (r: Result<&'a str, ToolError>)
    ensures
        match r {
            Ok(s) => path_or_here(root@, args@, tool@) == Ok::<Seq<char>, ToolErrorV>(s@),
            Err(e) => path_or_here(root@, args@, tool@) == Err::<Seq<char>, ToolErrorV>(e@),
        },
{
    let p: &'a str = match text_arg(args, "path") {
        Some(p) => p,
        None => ".",
    };
    inside_path(root, p, tool)
}

// ---------------------------------------------------------------------------
// Descriptions of parameters
// ---------------------------------------------------------------------------

/// A parameter of some type.
pub open spec fn param(kind: Seq<char>, about: Seq<char>) -> JsonV {
    empty_object().with("type"@, JsonV::Text(kind)).with("description"@, JsonV::Text(about))
}

/// The parameters of a tool.
pub open spec fn params(properties: JsonV) -> JsonV {
    empty_object().with("type"@, JsonV::Text("object"@)).with("properties"@, properties)
}

/// The parameters of a tool, some of which are required.
pub open spec fn params_with(properties: JsonV, required: Seq<Seq<char>>) -> JsonV {
    params(properties).with("required"@, JsonV::Array(text_values(required)))
}

fn make_param(kind: &str, about: &str) -> (r: Json)
    ensures
        r@ == param(kind@, about@),
{
    Json::object().with("type", Json::text(kind)).with("description", Json::text(about))
}

fn make_params(properties: Json) -> (r: Json)
    ensures
        r@ == params(properties@),
{
    Json::object().with("type", Json::text("object")).with("properties", properties)
}

fn one_required(properties: Json, a: &str) -> (r: Json)
    ensures
        r@ == params_with(properties@, seq![a@]),
{
    let mut names: Vec<String> = Vec::new();
    proof {
        assert(views(names@) =~= Seq::<Seq<char>>::empty());
    }
    push_text(&mut names, a);
    proof {
        assert(views(names@) =~= seq![a@]);
    }
    make_params(properties).with("required", text_array(&names))
}

fn two_required(properties: Json, a: &str, b: &str) -> (r: Json)
    ensures
        r@ == params_with(properties@, seq![a@, b@]),
{
    let mut names: Vec<String> = Vec::new();
    proof {
        assert(views(names@) =~= Seq::<Seq<char>>::empty());
    }
    push_text(&mut names, a);
    push_text(&mut names, b);
    proof {
        assert(views(names@) =~= seq![a@, b@]);
    }
    make_params(properties).with("required", text_array(&names))
}

fn three_required(properties: Json, a: &str, b: &str, c: &str) -> (r: Json)
    ensures
        r@ == params_with(properties@, seq![a@, b@, c@]),
{
    let mut names: Vec<String> = Vec::new();
    proof {
        assert(views(names@) =~= Seq::<Seq<char>>::empty());
    }
    push_text(&mut names, a);
    push_text(&mut names, b);
    push_text(&mut names, c);
    proof {
        assert(views(names@) =~= seq![a@, b@, c@]);
    }
    make_params(properties).with("required", text_array(&names))
}

// ---------------------------------------------------------------------------
// read_file
// ---------------------------------------------------------------------------

/// Reads a file.
#[derive(Debug)]
pub struct ReadFileTool {
    pub root: String,
}

impl ReadFileTool {
    pub open spec fn planned(root: Seq<char>, args: JsonV) -> Result<CommandV, ToolErrorV> {
        match path_arg(root, args, "read_file"@) {
            Ok(path) => Ok(plain(seq!["cat"@, path], FS_SECS)),
            Err(e) => Err(e),
        }
    }

    pub open spec fn answered(outcome: Outcome) -> Result<JsonV, ToolErrorV> {
        match printed("read_file"@, outcome) {
            Ok(s) => Ok(empty_object().with("content"@, JsonV::Text(s))),
            Err(e) => Err(e),
        }
    }

    /// The command that reads the file.
    pub fn plan(&self, args: &Json) -> (r: Result<SandboxCommand, ToolError>)
        ensures
            plans(r, Self::planned(self.root@, args@)),
    {
        match needed_path(self.root.as_str(), args, "read_file") {
            Ok(path) => Ok(reading_command(path)),
            Err(e) => Err(e),
        }
    }

    /// The answer to what the command printed.
    pub fn answer(&self, outcome: Outcome) -> (r: Result<Json, ToolError>)
        ensures
            gives(r, Self::answered(outcome)),
    {
        match printed_text("read_file", outcome) {
            Ok(s) => Ok(Json::object().with("content", Json::text(s.as_str()))),
            Err(e) => Err(e),
        }
    }
}

impl BuiltinTool for ReadFileTool {
    open spec fn about(&self) -> Seq<char> {
        "Read the contents of a file in the session directory"@
    }

    open spec fn schema(&self) -> JsonV {
        params_with(empty_object().with("path"@, param("string"@, "File path to read"@)), seq!["path"@])
    }

    fn description(&self) -> (r: &str) {
        "Read the contents of a file in the session directory"
    }

    fn parameters_schema(&self) -> (r: Json) {
        one_required(Json::object().with("path", make_param("string", "File path to read")), "path")
    }
}

// ---------------------------------------------------------------------------
// write_file
// ---------------------------------------------------------------------------

/// Writes a file.
#[derive(Debug)]
pub struct WriteFileTool {
    pub root: String,
}

impl WriteFileTool {
    /// The path and the content that are asked for.
    pub open spec fn asked(root: Seq<char>, args: JsonV) -> Result<(Seq<char>, Seq<char>), ToolErrorV> {
        match path_arg(root, args, "write_file"@) {
            Ok(path) => match needed(args, "content"@, "write_file"@) {
                Ok(content) => Ok((path, content)),
                Err(e) => Err(e),
            },
            Err(e) => Err(e),
        }
    }

    pub open spec fn planned(root: Seq<char>, args: JsonV) -> Result<CommandV, ToolErrorV> {
        match Self::asked(root, args) {
            Ok((path, content)) => Ok(writing(path, content)),
            Err(e) => Err(e),
        }
    }

    pub open spec fn answered(root: Seq<char>, args: JsonV, outcome: Outcome) -> Result<JsonV, ToolErrorV> {
        match Self::asked(root, args) {
            Ok((path, content)) => match printed("write_file"@, outcome) {
                Ok(_) => Ok(
                    empty_object().with("ok"@, JsonV::Bool(true)).with("path"@, JsonV::Text(path)).with(
                        "bytes"@,
                        JsonV::Number(number_of_u64(byte_len(content) as u64)),
                    ),
                ),
                Err(e) => Err(e),
            },
            Err(e) => Err(e),
        }
    }

    fn request<'a>(&self, args: &'a Json) -> (r: Result<(&'a str, &'a str), ToolError>)
        ensures
            match r {
                Ok(p) => Self::asked(self.root@, args@) == Ok::<(Seq<char>, Seq<char>), ToolErrorV>((p.0@, p.1@)),
                Err(e) => Self::asked(self.root@, args@) == Err::<(Seq<char>, Seq<char>), ToolErrorV>(e@),
            },
    {
        match needed_path(self.root.as_str(), args, "write_file") {
            Ok(path) => match str_arg(args, "content", "write_file") {
                Ok(content) => Ok((path, content)),
                Err(e) => Err(e),
            },
            Err(e) => Err(e),
        }
    }

    /// The command that writes the file.
    pub fn plan(&self, args: &Json) -> (r: Result<SandboxCommand, ToolError>)
        ensures
            plans(r, Self::planned(self.root@, args@)),
    {
        match self.request(args) {
            Ok((path, content)) => Ok(writing_command(path, content)),
            Err(e) => Err(e),
        }
    }

    /// The answer once the command has run.
    pub fn answer(&self, args: &Json, outcome: Outcome) -> (r: Result<Json, ToolError>)
        ensures
            gives(r, Self::answered(self.root@, args@, outcome)),
    {
        match self.request(args) {
            Ok((path, content)) => match printed_text("write_file", outcome) {
                Ok(_) => Ok(
                    Json::object().with("ok", Json::Bool(true)).with("path", Json::text(path)).with(
                        "bytes",
                        Json::number(content.len() as u64),
                    ),
                ),
                Err(e) => Err(e),
            },
            Err(e) => Err(e),
        }
    }
}

impl BuiltinTool for WriteFileTool {
    open spec fn about(&self) -> Seq<char> {
        "Write (creating or overwriting) a file in the session directory"@
    }

    open spec fn schema(&self) -> JsonV {
        params_with(
            empty_object().with("path"@, param("string"@, "File path to write"@)).with(
                "content"@,
                param("string"@, "Full file content"@),
            ),
            seq!["path"@, "content"@],
        )
    }

    fn description(&self) -> (r: &str) {
        "Write (creating or overwriting) a file in the session directory"
    }

    fn parameters_schema(&self) -> (r: Json) {
        two_required(
            Json::object().with("path", make_param("string", "File path to write")).with(
                "content",
                make_param("string", "Full file content"),
            ),
            "path",
            "content",
        )
    }
}

// ---------------------------------------------------------------------------
// edit_file
// ---------------------------------------------------------------------------

/// Replaces a text in a file.
#[derive(Debug)]
pub struct EditFileTool {
    pub root: String,
}

/// What is to be replaced where.
#[derive(Debug)]
pub struct Edit {
    pub path: String,
    pub old: String,
    pub new: String,
}

pub struct EditV {
    pub path: Seq<char>,
    pub old: Seq<char>,
    pub new: Seq<char>,
}

impl View for Edit {
    type V = EditV;

    open spec fn view(&self) -> EditV {
        EditV { path: self.path@, old: self.old@, new: self.new@ }
    }
}

impl EditV {
    /// The file with the text replaced, and how often it was; an error where
    /// the text is not there.
    pub open spec fn applied(self, content: Seq<char>) -> Result<(CommandV, nat), ToolErrorV> {
        if contains(content, self.old) {
            Ok((writing(self.path, replace_all(content, self.old, self.new)), count_all(content, self.old)))
        } else {
            Err(
                ToolErrorV::ExecutionFailed {
                    tool: "edit_file"@,
                    reason: "the 'old' text was not found in the file"@,
                },
            )
        }
    }

    /// What follows the reading of the file.
    pub open spec fn after_read(self, outcome: Outcome) -> Result<(CommandV, nat), ToolErrorV> {
        match printed("edit_file"@, outcome) {
            Ok(content) => self.applied(content),
            Err(e) => Err(e),
        }
    }

    pub open spec fn answered(self, replacements: usize, outcome: Outcome) -> Result<JsonV, ToolErrorV> {
        match printed("edit_file"@, outcome) {
            Ok(_) => Ok(
                empty_object().with("ok"@, JsonV::Bool(true)).with("path"@, JsonV::Text(self.path)).with(
                    "replacements"@,
                    JsonV::Number(number_of_u64(replacements as u64)),
                ),
            ),
            Err(e) => Err(e),
        }
    }
}

impl EditFileTool {
    /// What is asked for.
    pub open spec fn asked(root: Seq<char>, args: JsonV) -> Result<EditV, ToolErrorV> {
        match path_arg(root, args, "edit_file"@) {
            Ok(path) => match needed(args, "old"@, "edit_file"@) {
                Ok(old) => match needed(args, "new"@, "edit_file"@) {
                    Ok(new) => Ok(EditV { path, old, new }),
                    Err(e) => Err(e),
                },
                Err(e) => Err(e),
            },
            Err(e) => Err(e),
        }
    }

    /// What is asked for, and the command that reads the file.
    pub fn plan(&self, args: &Json) -> (r: Result<(Edit, SandboxCommand), ToolError>)
        ensures
            match r {
                Ok(p) => Self::asked(self.root@, args@) == Ok::<EditV, ToolErrorV>(p.0@) && p.1@ == plain(
                    seq!["cat"@, p.0@.path],
                    FS_SECS,
                ),
                Err(e) => Self::asked(self.root@, args@) == Err::<EditV, ToolErrorV>(e@),
            },
    {
        let path = match needed_path(self.root.as_str(), args, "edit_file") {
            Ok(p) => p,
            Err(e) => {
                return Err(e);
            },
        };
        let old_text = match str_arg(args, "old", "edit_file") {
            Ok(t) => t,
            Err(e) => {
                return Err(e);
            },
        };
        let new_text = match str_arg(args, "new", "edit_file") {
            Ok(t) => t,
            Err(e) => {
                return Err(e);
            },
        };
        Ok(
            (
                Edit { path: path.to_owned(), old: old_text.to_owned(), new: new_text.to_owned() },
                reading_command(path),
            ),
        )
    }
}

impl Edit {
    /// The command that writes the file back, and how often the text was
    /// replaced.
    pub fn after_read(&self, outcome: Outcome) -> (r: Result<(SandboxCommand, usize), ToolError>)
        requires
            outcome matches Ok(x) ==> x.stdout@.len() < usize::MAX,
        ensures
            match r {
                Ok(p) => self@.after_read(outcome) == Ok::<(CommandV, nat), ToolErrorV>((p.0@, p.1 as nat)),
                Err(e) => self@.after_read(outcome) == Err::<(CommandV, nat), ToolErrorV>(e@),
            },
    {
        match printed_text("edit_file", outcome) {
            Ok(content) => if has(content.as_str(), self.old.as_str()) {
                let (text, n) = replaced_all(content.as_str(), self.old.as_str(), self.new.as_str());
                Ok((writing_command(self.path.as_str(), text.as_str()), n))
            } else {
                Err(
                    ToolError::ExecutionFailed {
                        tool: "edit_file".to_owned(),
                        reason: "the 'old' text was not found in the file".to_owned(),
                    },
                )
            },
            Err(e) => Err(e),
        }
    }

    /// The answer once the file has been written.
    pub fn answer(&self, replacements: usize, outcome: Outcome) -> (r: Result<Json, ToolError>)
        ensures
            gives(r, self@.answered(replacements, outcome)),
    {
        match printed_text("edit_file", outcome) {
            Ok(_) => Ok(
                Json::object().with("ok", Json::Bool(true)).with("path", Json::text(self.path.as_str())).with(
                    "replacements",
                    Json::number(replacements as u64),
                ),
            ),
            Err(e) => Err(e),
        }
    }
}

impl BuiltinTool for EditFileTool {
    open spec fn about(&self) -> Seq<char> {
        "Replace an exact substring in a file with new text"@
    }

    open spec fn schema(&self) -> JsonV {
        params_with(
            empty_object().with("path"@, param("string"@, "File path to edit"@)).with(
                "old"@,
                param("string"@, "Exact text to replace"@),
            ).with("new"@, param("string"@, "Replacement text"@)),
            seq!["path"@, "old"@, "new"@],
        )
    }

    fn description(&self) -> (r: &str) {
        "Replace an exact substring in a file with new text"
    }

    fn parameters_schema(&self) -> (r: Json) {
        three_required(
            Json::object().with("path", make_param("string", "File path to edit")).with(
                "old",
                make_param("string", "Exact text to replace"),
            ).with("new", make_param("string", "Replacement text")),
            "path",
            "old",
            "new",
        )
    }
}

// ---------------------------------------------------------------------------
// list_dir
// ---------------------------------------------------------------------------

/// Lists a directory.
#[derive(Debug)]
pub struct ListDirTool {
    pub root: String,
}

impl ListDirTool {
    pub open spec fn planned(root: Seq<char>, args: JsonV) -> Result<CommandV, ToolErrorV> {
        match path_or_here(root, args, "list_dir"@) {
            Ok(path) => Ok(plain(seq!["ls"@, "-la"@, path], FS_SECS)),
            Err(e) => Err(e),
        }
    }

    pub open spec fn answered(outcome: Outcome) -> Result<JsonV, ToolErrorV> {
        match printed("list_dir"@, outcome) {
            Ok(s) => Ok(empty_object().with("listing"@, JsonV::Text(s))),
            Err(e) => Err(e),
        }
    }

    /// The command that lists the directory.
    pub fn plan(&self, args: &Json) -> (r: Result<SandboxCommand, ToolError>)
        ensures
            plans(r, Self::planned(self.root@, args@)),
    {
        match optional_path(self.root.as_str(), args, "list_dir") {
            Ok(path) => {
                let mut argv: Vec<String> = Vec::new();
                proof {
                    assert(views(argv@) =~= Seq::<Seq<char>>::empty());
                }
                push_text(&mut argv, "ls");
                push_text(&mut argv, "-la");
                push_text(&mut argv, path);
                proof {
                    assert(views(argv@) =~= seq!["ls"@, "-la"@, path@]);
                }
                Ok(SandboxCommand { argv, stdin: None, secs: FS_SECS })
            },
            Err(e) => Err(e),
        }
    }

    /// The answer to what the command printed.
    pub fn answer(&self, outcome: Outcome) -> (r: Result<Json, ToolError>)
        ensures
            gives(r, Self::answered(outcome)),
    {
        match printed_text("list_dir", outcome) {
            Ok(s) => Ok(Json::object().with("listing", Json::text(s.as_str()))),
            Err(e) => Err(e),
        }
    }
}

impl BuiltinTool for ListDirTool {
    open spec fn about(&self) -> Seq<char> {
        "List the contents of a directory in the session"@
    }

    open spec fn schema(&self) -> JsonV {
        params(empty_object().with("path"@, param("string"@, "Directory path (default: .)"@)))
    }

    fn description(&self) -> (r: &str) {
        "List the contents of a directory in the session"
    }

    fn parameters_schema(&self) -> (r: Json) {
        make_params(Json::object().with("path", make_param("string", "Directory path (default: .)")))
    }
}

// ---------------------------------------------------------------------------
// grep
// ---------------------------------------------------------------------------

/// Searches files.
#[derive(Debug)]
pub struct GrepTool {
    pub root: String,
}

impl GrepTool {
    pub open spec fn planned(root: Seq<char>, args: JsonV) -> Result<CommandV, ToolErrorV> {
        match needed(args, "pattern"@, "grep"@) {
            Ok(pattern) => match path_or_here(root, args, "grep"@) {
                Ok(path) => Ok(plain(seq!["grep"@, "-rn"@, "-e"@, pattern, path], FS_SECS)),
                Err(e) => Err(e),
            },
            Err(e) => Err(e),
        }
    }

    /// No match is no error; only an exit code above 1 is.
    pub open spec fn answered(outcome: Outcome) -> Result<JsonV, ToolErrorV> {
        match outcome {
            Ok(r) => if r.exit_code > 1 {
                Err(failed("grep"@, r))
            } else {
                Ok(empty_object().with("matches"@, JsonV::Text(r.stdout@)))
            },
            Err(m) => Err(not_run("grep"@, m@)),
        }
    }

    /// The command that searches.
    pub fn plan(&self, args: &Json) -> (r: Result<SandboxCommand, ToolError>)
        ensures
            plans(r, Self::planned(self.root@, args@)),
    {
        let pattern = match str_arg(args, "pattern", "grep") {
            Ok(p) => p,
            Err(e) => {
                return Err(e);
            },
        };
        match optional_path(self.root.as_str(), args, "grep") {
            Ok(path) => {
                let mut argv: Vec<String> = Vec::new();
                proof {
                    assert(views(argv@) =~= Seq::<Seq<char>>::empty());
                }
                push_text(&mut argv, "grep");
                push_text(&mut argv, "-rn");
                push_text(&mut argv, "-e");
                push_text(&mut argv, pattern);
                push_text(&mut argv, path);
                proof {
                    assert(views(argv@) =~= seq!["grep"@, "-rn"@, "-e"@, pattern@, path@]);
                }
                Ok(SandboxCommand { argv, stdin: None, secs: FS_SECS })
            },
            Err(e) => Err(e),
        }
    }

    /// The answer to what the command printed.
    pub fn answer(&self, outcome: Outcome) -> (r: Result<Json, ToolError>)
        ensures
            gives(r, Self::answered(outcome)),
    {
        match outcome {
            Ok(r) => if r.exit_code > 1 {
                Err(failed_error("grep", &r))
            } else {
                Ok(Json::object().with("matches", Json::text(r.stdout.as_str())))
            },
            Err(m) => Err(exec_err("grep", m)),
        }
    }
}

impl BuiltinTool for GrepTool {
    open spec fn about(&self) -> Seq<char> {
        "Search file contents for a pattern (recursive, with line numbers)"@
    }

    open spec fn schema(&self) -> JsonV {
        params_with(
            empty_object().with("pattern"@, param("string"@, "Text or regex to search for"@)).with(
                "path"@,
                param("string"@, "Directory or file to search (default: .)"@),
            ),
            seq!["pattern"@],
        )
    }

    fn description(&self) -> (r: &str) {
        "Search file contents for a pattern (recursive, with line numbers)"
    }

    fn parameters_schema(&self) -> (r: Json) {
        one_required(
            Json::object().with("pattern", make_param("string", "Text or regex to search for")).with(
                "path",
                make_param("string", "Directory or file to search (default: .)"),
            ),
            "pattern",
        )
    }
}

// ---------------------------------------------------------------------------
// glob
// ---------------------------------------------------------------------------

/// Finds files by name.
#[derive(Debug)]
pub struct GlobTool;

/// The lines that are not empty.
pub open spec fn filled_lines(ls: Seq<Seq<char>>) -> Seq<Seq<char>>
    decreases ls.len(),
{
    if ls.len() == 0 {
        ls
    } else if ls.last().len() == 0 {
        filled_lines(ls.drop_last())
    } else {
        filled_lines(ls.drop_last()).push(ls.last())
    }
}

impl GlobTool {
    pub open spec fn planned(args: JsonV) -> Result<CommandV, ToolErrorV> {
        match needed(args, "pattern"@, "glob"@) {
            Ok(pattern) => Ok(
                plain(seq!["sh"@, "-c"@, "find . -name \"$1\" -type f"@, "sh"@, pattern], FS_SECS),
            ),
            Err(e) => Err(e),
        }
    }

    pub open spec fn answered(outcome: Outcome) -> Result<JsonV, ToolErrorV> {
        match printed("glob"@, outcome) {
            Ok(s) => {
                let files = filled_lines(lines(s));
                Ok(
                    empty_object().with("files"@, JsonV::Array(text_values(files))).with(
                        "count"@,
                        JsonV::Number(number_of_u64(files.len() as u64)),
                    ),
                )
            },
            Err(e) => Err(e),
        }
    }

    /// The command that finds the files.
    pub fn plan(&self, args: &Json) -> (r: Result<SandboxCommand, ToolError>)
        ensures
            plans(r, Self::planned(args@)),
    {
        match str_arg(args, "pattern", "glob") {
            Ok(pattern) => {
                let mut argv: Vec<String> = Vec::new();
                proof {
                    assert(views(argv@) =~= Seq::<Seq<char>>::empty());
                }
                push_text(&mut argv, "sh");
                push_text(&mut argv, "-c");
                push_text(&mut argv, "find . -name \"$1\" -type f");
                push_text(&mut argv, "sh");
                push_text(&mut argv, pattern);
                proof {
                    assert(views(argv@) =~= seq!["sh"@, "-c"@, "find . -name \"$1\" -type f"@, "sh"@, pattern@]);
                }
                Ok(SandboxCommand { argv, stdin: None, secs: FS_SECS })
            },
            Err(e) => Err(e),
        }
    }

    /// The answer to what the command printed.
    pub fn answer(&self, outcome: Outcome) -> (r: Result<Json, ToolError>)
        ensures
            gives(r, Self::answered(outcome)),
    {
        let text = match printed_text("glob", outcome) {
            Ok(s) => s,
            Err(e) => {
                return Err(e);
            },
        };
        let ls = lines_of(text.as_str());
        let ghost all = lines(text@);
        let mut files: Vec<String> = Vec::new();
        let mut i: usize = 0;
        proof {
            assert(views(files@) =~= Seq::<Seq<char>>::empty());
            assert(all.take(0) =~= Seq::<Seq<char>>::empty());
        }
        while i < ls.len()
            invariant
                i <= ls@.len(),
                all == views(ls@),
                views(files@) == filled_lines(all.take(i as int)),
            decreases ls@.len() - i,
        {
            proof {
                assert(all.take(i + 1).drop_last() =~= all.take(i as int));
                assert(all.take(i + 1).last() == ls@[i as int]@);
            }
            if ls[i].as_str().unicode_len() > 0 {
                push_text(&mut files, ls[i].as_str());
            }
            i += 1;
        }
        proof {
            assert(all.take(all.len() as int) =~= all);
            assert(views(files@).len() == files@.len());
        }
        Ok(
            Json::object().with("files", text_array(&files)).with("count", Json::number(files.len() as u64)),
        )
    }
}

impl BuiltinTool for GlobTool {
    open spec fn about(&self) -> Seq<char> {
        "Find files whose name matches a glob pattern (e.g. *.rs)"@
    }

    open spec fn schema(&self) -> JsonV {
        params_with(empty_object().with("pattern"@, param("string"@, "Filename glob, e.g. '*.rs'"@)), seq!["pattern"@])
    }

    fn description(&self) -> (r: &str) {
        "Find files whose name matches a glob pattern (e.g. *.rs)"
    }

    fn parameters_schema(&self) -> (r: Json) {
        one_required(
            Json::object().with("pattern", make_param("string", "Filename glob, e.g. '*.rs'")),
            "pattern",
        )
    }
}

// ---------------------------------------------------------------------------
// bash
// ---------------------------------------------------------------------------

/// A command that is run in a directory.
pub open spec fn scoped(root: Seq<char>, command: Seq<char>) -> Seq<char> {
    "cd '"@ + root + "' && "@ + command
}

fn scoped_text(root: &str, command: &str) -> (r: String)
    ensures
        r@ == scoped(root@, command@),
{
    let a = concat("cd '", root);
    let b = concat(a.as_str(), "' && ");
    concat(b.as_str(), command)
}

/// Runs a shell command.
#[derive(Debug)]
pub struct BashTool {
    pub root: String,
}

impl BashTool {
    pub open spec fn planned(root: Seq<char>, args: JsonV) -> Result<CommandV, ToolErrorV> {
        match needed(args, "command"@, "bash"@) {
            Ok(command) => Ok(plain(seq!["sh"@, "-c"@, scoped(root, command)], SHELL_SECS)),
            Err(e) => Err(e),
        }
    }

    /// A command that ran is answered in full, whatever its exit code.
    pub open spec fn answered(outcome: Outcome) -> Result<JsonV, ToolErrorV> {
        match outcome {
            Ok(r) => Ok(
                empty_object().with("stdout"@, JsonV::Text(r.stdout@)).with("stderr"@, JsonV::Text(r.stderr@)).with(
                    "exit_code"@,
                    JsonV::Number(number_of_i64(r.exit_code as i64)),
                ),
            ),
            Err(m) => Err(not_run("bash"@, m@)),
        }
    }

    /// The command.
    pub fn plan(&self, args: &Json) -> (r: Result<SandboxCommand, ToolError>)
        ensures
            plans(r, Self::planned(self.root@, args@)),
    {
        match str_arg(args, "command", "bash") {
            Ok(command) => {
                let script = scoped_text(self.root.as_str(), command);
                let mut argv: Vec<String> = Vec::new();
                proof {
                    assert(views(argv@) =~= Seq::<Seq<char>>::empty());
                }
                push_text(&mut argv, "sh");
                push_text(&mut argv, "-c");
                push_text(&mut argv, script.as_str());
                proof {
                    assert(views(argv@) =~= seq!["sh"@, "-c"@, script@]);
                }
                Ok(SandboxCommand { argv, stdin: None, secs: SHELL_SECS })
            },
            Err(e) => Err(e),
        }
    }

    /// The answer to what the command printed.
    pub fn answer(&self, outcome: Outcome) -> (r: Result<Json, ToolError>)
        ensures
            gives(r, Self::answered(outcome)),
    {
        match outcome {
            Ok(r) => Ok(
                Json::object().with("stdout", Json::text(r.stdout.as_str())).with(
                    "stderr",
                    Json::text(r.stderr.as_str()),
                ).with("exit_code", Json::signed(r.exit_code as i64)),
            ),
            Err(m) => Err(exec_err("bash", m)),
        }
    }
}

impl BuiltinTool for BashTool {
    open spec fn about(&self) -> Seq<char> {
        "Run a shell command inside the session's sandboxed container"@
    }

    open spec fn schema(&self) -> JsonV {
        params_with(empty_object().with("command"@, param("string"@, "Shell command to run"@)), seq!["command"@])
    }

    fn description(&self) -> (r: &str) {
        "Run a shell command inside the session's sandboxed container"
    }

    fn parameters_schema(&self) -> (r: Json) {
        one_required(Json::object().with("command", make_param("string", "Shell command to run")), "command")
    }
}

// ---------------------------------------------------------------------------
// bash_background
// ---------------------------------------------------------------------------

/// Starts a command that keeps running.
#[derive(Debug)]
pub struct BashBackgroundTool;

impl BashBackgroundTool {
    pub open spec fn answered(task_id: Seq<char>) -> JsonV {
        empty_object().with("task_id"@, JsonV::Text(task_id)).with("started"@, JsonV::Bool(true))
    }

    /// Notes the task and says its id; nothing is noted where the command is
    /// missing.
    pub fn execute(&self, sandbox: &mut SessionSandbox, args: &Json) -> (r: Result<(String, Json), ToolError>)
        ensures
            match r {
                Ok(p) => {
                    &&& needed(args@, "command"@, "bash_background"@) matches Ok(command) && final(sandbox).tasks()
                        == old(sandbox).tasks().push(
                        (BgTaskV {
                            id: p.0@,
                            command: scoped(old(sandbox).root_dir(), command),
                            status: "running"@,
                            log: Seq::empty(),
                        }),
                    )
                    &&& p.1@ == Self::answered(p.0@)
                    &&& exists|millis: u128| p.0@ == started_id("task-"@, millis)
                },
                Err(e) => needed(args@, "command"@, "bash_background"@) == Err::<Seq<char>, ToolErrorV>(e@)
                    && final(sandbox).tasks() == old(sandbox).tasks(),
            },
            final(sandbox).terminals() == old(sandbox).terminals(),
            final(sandbox).name() == old(sandbox).name(),
            final(sandbox).root_dir() == old(sandbox).root_dir(),
    {
        match str_arg(args, "command", "bash_background") {
            Ok(command) => {
                let script = scoped_text(sandbox.root(), command);
                let id = sandbox.spawn_background(script.as_str());
                let j = Json::object().with("task_id", Json::text(id.as_str())).with("started", Json::Bool(true));
                Ok((id, j))
            },
            Err(e) => Err(e),
        }
    }
}

impl BuiltinTool for BashBackgroundTool {
    open spec fn about(&self) -> Seq<char> {
        "Start a long-running command in the background inside the session container (a dev server, a build/test watch). Returns a task id immediately — the command keeps running; check it in Background tasks."@
    }

    open spec fn schema(&self) -> JsonV {
        params_with(
            empty_object().with("command"@, param("string"@, "Shell command to run in the background"@)),
            seq!["command"@],
        )
    }

    fn description(&self) -> (r: &str) {
        "Start a long-running command in the background inside the session container (a dev server, a build/test watch). Returns a task id immediately — the command keeps running; check it in Background tasks."
    }

    fn parameters_schema(&self) -> (r: Json) {
        one_required(
            Json::object().with("command", make_param("string", "Shell command to run in the background")),
            "command",
        )
    }
}

// ---------------------------------------------------------------------------
// spawn_terminal
// ---------------------------------------------------------------------------

/// Opens a terminal that the user sees.
#[derive(Debug)]
pub struct SpawnTerminalTool;

/// The terminal that is asked for.
#[derive(Debug)]
pub struct TerminalRequest {
    pub command: String,
    pub rows: u16,
    pub cols: u16,
}

/// A size argument, cut to sixteen bits.
pub open spec fn size_arg(args: JsonV, key: Seq<char>, default: u64) -> u16 {
    (match arg_number(args, key) {
        Some(n) => n,
        None => default,
    } % 65536) as u16
}

fn read_size(args: &Json, key: &str, default: u64) -> (r: u16)
    ensures
        r == size_arg(args@, key@, default),
{
    let n: u64 = match number_arg(args, key) {
        Some(n) => n,
        None => default,
    };
    (n % 65536) as u16
}

impl SpawnTerminalTool {
    /// The terminal that is asked for.
    pub fn plan(&self, args: &Json) -> (r: Result<TerminalRequest, ToolError>)
        ensures
            match r {
                Ok(t) => needed(args@, "command"@, "spawn_terminal"@) == Ok::<Seq<char>, ToolErrorV>(t.command@)
                    && t.rows == size_arg(args@, "rows"@, 24) && t.cols == size_arg(args@, "cols"@, 80),
                Err(e) => needed(args@, "command"@, "spawn_terminal"@) == Err::<Seq<char>, ToolErrorV>(e@),
            },
    {
        match str_arg(args, "command", "spawn_terminal") {
            Ok(command) => Ok(
                TerminalRequest {
                    command: command.to_owned(),
                    rows: read_size(args, "rows", 24),
                    cols: read_size(args, "cols", 80),
                },
            ),
            Err(e) => Err(e),
        }
    }

    pub open spec fn answered(request: TerminalRequest, opened: Result<String, String>) -> Result<JsonV, ToolErrorV> {
        match opened {
            Ok(id) => Ok(
                empty_object().with("terminal_id"@, JsonV::Text(id@)).with(
                    "command"@,
                    JsonV::Text(request.command@),
                ).with("rows"@, JsonV::Number(number_of_u64(request.rows as u64))).with(
                    "cols"@,
                    JsonV::Number(number_of_u64(request.cols as u64)),
                ),
            ),
            Err(m) => Err(not_run("spawn_terminal"@, m@)),
        }
    }

    /// The answer once the terminal was opened under an id, or could not be.
    pub fn answer(&self, request: &TerminalRequest, opened: Result<String, String>) -> (r: Result<Json, ToolError>)
        ensures
            gives(r, Self::answered(*request, opened)),
    {
        match opened {
            Ok(id) => Ok(
                Json::object().with("terminal_id", Json::text(id.as_str())).with(
                    "command",
                    Json::text(request.command.as_str()),
                ).with("rows", Json::number(request.rows as u64)).with("cols", Json::number(request.cols as u64)),
            ),
            Err(m) => Err(exec_err("spawn_terminal", m)),
        }
    }
}

impl BuiltinTool for SpawnTerminalTool {
    open spec fn about(&self) -> Seq<char> {
        SPAWN_ABOUT@
    }

    open spec fn schema(&self) -> JsonV {
        params_with(
            empty_object().with("command"@, param("string"@, "Shell command to run in the new terminal"@)).with(
                "rows"@,
                param("integer"@, "Terminal rows (default 24)"@).with("minimum"@, JsonV::Number(number_of_u64(4))),
            ).with(
                "cols"@,
                param("integer"@, "Terminal cols (default 80)"@).with("minimum"@, JsonV::Number(number_of_u64(20))),
            ),
            seq!["command"@],
        )
    }

    fn description(&self) -> (r: &str) {
        SPAWN_ABOUT
    }

    fn parameters_schema(&self) -> (r: Json) {
        one_required(
            Json::object().with("command", make_param("string", "Shell command to run in the new terminal")).with(
                "rows",
                make_param("integer", "Terminal rows (default 24)").with("minimum", Json::number(4)),
            ).with("cols", make_param("integer", "Terminal cols (default 80)").with("minimum", Json::number(20))),
            "command",
        )
    }
}

/// What `spawn_terminal` is for.
pub const SPAWN_ABOUT: &'static str =
    "Open a new terminal in the user's Terminals pane and run a command in it.  Use when the user should be able to watch live output (scripts, dev servers, demos).\n\nCONTRACT: when this returns successfully with a `terminal_id`, the terminal is ALREADY ALIVE in the user's pane and the command is running.  There is nothing else to do to make it visible — the user can already see it.\n\nDo NOT call spawn_terminal a second time for the same purpose. If you need to confirm what's running, call `list_terminals` instead.  If you need to see output from a terminal you spawned, call `read_terminal` with the id you already received.  Calling spawn_terminal again will start a SECOND independent process — which is almost never what you want.";

// ---------------------------------------------------------------------------
// list_terminals
// ---------------------------------------------------------------------------

/// Lists the terminals.
#[derive(Debug)]
pub struct ListTerminalsTool;

/// A terminal in the list.
pub open spec fn terminal_entry(t: TerminalV) -> JsonV {
    empty_object().with("terminal_id"@, JsonV::Text(t.id)).with("command"@, JsonV::Text(t.command)).with(
        "alive"@,
        JsonV::Bool(t.alive),
    )
}

impl ListTerminalsTool {
    pub open spec fn answered(terminals: Seq<TerminalV>) -> JsonV {
        empty_object().with(
            "terminals"@,
            JsonV::Array(terminals.map_values(|t: TerminalV| terminal_entry(t))),
        ).with("count"@, JsonV::Number(number_of_u64(terminals.len() as u64)))
    }

    /// The list.
    pub fn execute(&self, sandbox: &SessionSandbox) -> (r: Json)
        ensures
            r@ == Self::answered(sandbox.terminals()),
    {
        let list = sandbox.list_terminals();
        let ghost all = sandbox.terminals();
        let ghost want = all.map_values(|t: TerminalV| terminal_entry(t));
        let mut out: Vec<Json> = Vec::new();
        let mut i: usize = 0;
        proof {
            crate::json::lemma_views(out@);
            assert(json_views(out@) =~= want.take(0));
        }
        while i < list.len()
            invariant
                i <= list@.len(),
                list@.len() == all.len(),
                want == all.map_values(|t: TerminalV| terminal_entry(t)),
                forall|k: int|
                    0 <= k < list@.len() ==> (#[trigger] list@[k]).0@ == all[k].id && list@[k].1@ == all[k].command
                        && list@[k].2 == all[k].alive,
                json_views(out@) == want.take(i as int),
            decreases list@.len() - i,
        {
            let t = &list[i];
            let j = Json::object().with("terminal_id", Json::text(t.0.as_str())).with(
                "command",
                Json::text(t.1.as_str()),
            ).with("alive", Json::Bool(t.2));
            proof {
                assert(j@ == terminal_entry(all[i as int]));
                lemma_views_push(out@, j);
                assert(want.take(i + 1) =~= want.take(i as int).push(want[i as int]));
            }
            out.push(j);
            i += 1;
        }
        proof {
            assert(want.take(want.len() as int) =~= want);
            assert(list@.len() == all.len());
        }
        Json::object().with("terminals", Json::Array(out)).with("count", Json::number(list.len() as u64))
    }
}

impl BuiltinTool for ListTerminalsTool {
    open spec fn about(&self) -> Seq<char> {
        LIST_ABOUT@
    }

    open spec fn schema(&self) -> JsonV {
        params(empty_object())
    }

    fn description(&self) -> (r: &str) {
        LIST_ABOUT
    }

    fn parameters_schema(&self) -> (r: Json) {
        make_params(Json::object())
    }
}

/// What `list_terminals` is for.
pub const LIST_ABOUT: &'static str =
    "List every terminal currently open in the user's Terminals pane.  Returns an array of objects with `terminal_id`, `command`, and `alive`.\n\nUse this BEFORE calling spawn_terminal if you're not sure whether a terminal for the same command already exists.  Also use this to recover terminal ids after a turn break (the ids you got from spawn_terminal earlier are still valid as long as the entry appears in this list).";

// ---------------------------------------------------------------------------
// read_terminal
// ---------------------------------------------------------------------------

/// Reads what a terminal has shown.
#[derive(Debug)]
pub struct ReadTerminalTool;

/// The last lines of a text, or all of it where no number of lines is given.
pub open spec fn tail_of(text: Seq<char>, tail_lines: Option<u64>) -> Seq<char> {
    match tail_lines {
        Some(n) => if n > 0 {
            let ls = lines(text);
            let start = if n >= ls.len() {
                0
            } else {
                ls.len() - n
            };
            join(ls.skip(start), "\n"@)
        } else {
            text
        },
        None => text,
    }
}

/// The last lines of a text, or all of it where no number of lines is given.
pub fn tail_text(text: String, tail_lines: Option<u64>) -> (r: String)
    ensures
        r@ == tail_of(text@, tail_lines),
{
    match tail_lines {
        Some(n) => if n > 0 {
            let mut ls = lines_of(text.as_str());
            let ghost all = lines(text@);
            proof {
                assert(views(ls@) =~= all.skip(0));
            }
            let ghost mut dropped: int = 0;
            while ls.len() as u64 > n
                invariant
                    0 <= dropped <= all.len(),
                    views(ls@) == all.skip(dropped),
                    ls@.len() == all.len() - dropped,
                    n >= all.len() ==> dropped == 0,
                    n < all.len() ==> ls@.len() >= n,
                decreases ls@.len(),
            {
                let ghost was = ls@;
                let _ = ls.remove(0);
                proof {
                    assert forall|k: int| 0 <= k < ls@.len() implies (#[trigger] views(ls@)[k]) == all.skip(
                        dropped + 1,
                    )[k] by {
                        assert(views(was)[k + 1] == all.skip(dropped)[k + 1]);
                        assert(ls@[k] == was[k + 1]);
                    }
                    dropped = dropped + 1;
                    assert(views(ls@) =~= all.skip(dropped));
                }
            }
            join_texts(&ls, "\n")
        } else {
            text
        },
        None => text,
    }
}

impl ReadTerminalTool {
    pub open spec fn answered(terminals: Seq<TerminalV>, args: JsonV, shown: Seq<u8>) -> Result<JsonV, ToolErrorV> {
        match needed(args, "terminal_id"@, "read_terminal"@) {
            Ok(id) => match terminal_from(terminals, id, 0) {
                Some(i) => Ok(
                    empty_object().with("terminal_id"@, JsonV::Text(id)).with(
                        "alive"@,
                        JsonV::Bool(terminals[i].alive),
                    ).with("output"@, JsonV::Text(tail_of(lossy(shown), arg_number(args, "tail_lines"@)))),
                ),
                None => Err(
                    ToolErrorV::ExecutionFailed {
                        tool: "read_terminal"@,
                        reason: "no terminal with id '"@ + id + "' (killed or never existed)"@,
                    },
                ),
            },
            Err(e) => Err(e),
        }
    }

    /// The answer, where the terminal has shown the given bytes.
    pub fn execute(&self, sandbox: &SessionSandbox, args: &Json, shown: &[u8]) -> (r: Result<Json, ToolError>)
        ensures
            gives(r, Self::answered(sandbox.terminals(), args@, shown@)),
    {
        let id = match str_arg(args, "terminal_id", "read_terminal") {
            Ok(id) => id,
            Err(e) => {
                return Err(e);
            },
        };
        match sandbox.get_terminal(id) {
            Some(t) => {
                let output = tail_text(lossy_text(shown), number_arg(args, "tail_lines"));
                Ok(
                    Json::object().with("terminal_id", Json::text(id)).with("alive", Json::Bool(t.alive)).with(
                        "output",
                        Json::text(output.as_str()),
                    ),
                )
            },
            None => {
                let head = concat("no terminal with id '", id);
                Err(
                    ToolError::ExecutionFailed {
                        tool: "read_terminal".to_owned(),
                        reason: concat(head.as_str(), "' (killed or never existed)"),
                    },
                )
            },
        }
    }
}

impl BuiltinTool for ReadTerminalTool {
    open spec fn about(&self) -> Seq<char> {
        READ_ABOUT@
    }

    open spec fn schema(&self) -> JsonV {
        params_with(
            empty_object().with("terminal_id"@, param("string"@, "ID returned by spawn_terminal"@)).with(
                "tail_lines"@,
                param("integer"@, "If set, return only the last N lines.  Default: full buffer."@),
            ),
            seq!["terminal_id"@],
        )
    }

    fn description(&self) -> (r: &str) {
        READ_ABOUT
    }

    fn parameters_schema(&self) -> (r: Json) {
        one_required(
            Json::object().with("terminal_id", make_param("string", "ID returned by spawn_terminal")).with(
                "tail_lines",
                make_param("integer", "If set, return only the last N lines.  Default: full buffer."),
            ),
            "terminal_id",
        )
    }
}

/// What `read_terminal` is for.
pub const READ_ABOUT: &'static str =
    "Read the recent output of a terminal previously created with spawn_terminal.  Returns the current scrollback buffer (up to ~64 KiB) plus whether the terminal is still alive.";

// ---------------------------------------------------------------------------
// kill_terminal
// ---------------------------------------------------------------------------

/// Stops a terminal.
#[derive(Debug)]
pub struct KillTerminalTool;

impl KillTerminalTool {
    /// Forgets the terminal; `ok` says whether there was one.
    pub fn execute(&self, sandbox: &mut SessionSandbox, args: &Json) -> (r: Result<Json, ToolError>)
        ensures
            match needed(args@, "terminal_id"@, "kill_terminal"@) {
                Ok(id) => {
                    &&& final(sandbox).terminals() == others(old(sandbox).terminals(), id)
                    &&& r matches Ok(j) && j@ == empty_object().with("terminal_id"@, JsonV::Text(id)).with(
                        "ok"@,
                        JsonV::Bool(final(sandbox).terminals().len() < old(sandbox).terminals().len()),
                    )
                },
                Err(e) => {
                    &&& final(sandbox).terminals() == old(sandbox).terminals()
                    &&& r matches Err(f) && f@ == e
                },
            },
            final(sandbox).tasks() == old(sandbox).tasks(),
            final(sandbox).name() == old(sandbox).name(),
            final(sandbox).root_dir() == old(sandbox).root_dir(),
    {
        match str_arg(args, "terminal_id", "kill_terminal") {
            Ok(id) => {
                let killed = sandbox.kill_terminal(id);
                Ok(Json::object().with("terminal_id", Json::text(id)).with("ok", Json::Bool(killed)))
            },
            Err(e) => Err(e),
        }
    }
}

impl BuiltinTool for KillTerminalTool {
    open spec fn about(&self) -> Seq<char> {
        KILL_ABOUT@
    }

    open spec fn schema(&self) -> JsonV {
        params_with(
            empty_object().with("terminal_id"@, param("string"@, "ID returned by spawn_terminal"@)),
            seq!["terminal_id"@],
        )
    }

    fn description(&self) -> (r: &str) {
        KILL_ABOUT
    }

    fn parameters_schema(&self) -> (r: Json) {
        one_required(
            Json::object().with("terminal_id", make_param("string", "ID returned by spawn_terminal")),
            "terminal_id",
        )
    }
}

/// What `kill_terminal` is for.
pub const KILL_ABOUT: &'static str =
    "Stop a terminal previously created with spawn_terminal and drop it from the Terminals pane.  Idempotent — returns ok=false if the id is unknown.";

// ---------------------------------------------------------------------------
// The toolset of a session
// ---------------------------------------------------------------------------

/// One of the tools of a session.
#[derive(Debug)]
pub enum SessionTool {
    ReadFile(ReadFileTool),
    WriteFile(WriteFileTool),
    EditFile(EditFileTool),
    ListDir(ListDirTool),
    Grep(GrepTool),
    Glob(GlobTool),
    Bash(BashTool),
    BashBackground(BashBackgroundTool),
    SpawnTerminal(SpawnTerminalTool),
    ListTerminals(ListTerminalsTool),
    ReadTerminal(ReadTerminalTool),
    KillTerminal(KillTerminalTool),
}

impl SessionTool {
    /// The name that the tool is called by.
    pub open spec fn called(&self) -> Seq<char> {
        match *self {
            SessionTool::ReadFile(_) => "read_file"@,
            SessionTool::WriteFile(_) => "write_file"@,
            SessionTool::EditFile(_) => "edit_file"@,
            SessionTool::ListDir(_) => "list_dir"@,
            SessionTool::Grep(_) => "grep"@,
            SessionTool::Glob(_) => "glob"@,
            SessionTool::Bash(_) => "bash"@,
            SessionTool::BashBackground(_) => "bash_background"@,
            SessionTool::SpawnTerminal(_) => "spawn_terminal"@,
            SessionTool::ListTerminals(_) => "list_terminals"@,
            SessionTool::ReadTerminal(_) => "read_terminal"@,
            SessionTool::KillTerminal(_) => "kill_terminal"@,
        }
    }

    /// The directory that the tool is confined to, if it has one.
    pub open spec fn root(&self) -> Option<Seq<char>> {
        match *self {
            SessionTool::ReadFile(t) => Some(t.root@),
            SessionTool::WriteFile(t) => Some(t.root@),
            SessionTool::EditFile(t) => Some(t.root@),
            SessionTool::ListDir(t) => Some(t.root@),
            SessionTool::Grep(t) => Some(t.root@),
            SessionTool::Bash(t) => Some(t.root@),
            _ => None,
        }
    }

    /// The name that the tool is called by.
    pub fn name(&self) -> (r: &str)
        ensures
            r@ == self.called(),
    {
        match self {
            SessionTool::ReadFile(_) => "read_file",
            SessionTool::WriteFile(_) => "write_file",
            SessionTool::EditFile(_) => "edit_file",
            SessionTool::ListDir(_) => "list_dir",
            SessionTool::Grep(_) => "grep",
            SessionTool::Glob(_) => "glob",
            SessionTool::Bash(_) => "bash",
            SessionTool::BashBackground(_) => "bash_background",
            SessionTool::SpawnTerminal(_) => "spawn_terminal",
            SessionTool::ListTerminals(_) => "list_terminals",
            SessionTool::ReadTerminal(_) => "read_terminal",
            SessionTool::KillTerminal(_) => "kill_terminal",
        }
    }
}

impl BuiltinTool for SessionTool {
    open spec fn about(&self) -> Seq<char> {
        match *self {
            SessionTool::ReadFile(t) => t.about(),
            SessionTool::WriteFile(t) => t.about(),
            SessionTool::EditFile(t) => t.about(),
            SessionTool::ListDir(t) => t.about(),
            SessionTool::Grep(t) => t.about(),
            SessionTool::Glob(t) => t.about(),
            SessionTool::Bash(t) => t.about(),
            SessionTool::BashBackground(t) => t.about(),
            SessionTool::SpawnTerminal(t) => t.about(),
            SessionTool::ListTerminals(t) => t.about(),
            SessionTool::ReadTerminal(t) => t.about(),
            SessionTool::KillTerminal(t) => t.about(),
        }
    }

    open spec fn schema(&self) -> JsonV {
        match *self {
            SessionTool::ReadFile(t) => t.schema(),
            SessionTool::WriteFile(t) => t.schema(),
            SessionTool::EditFile(t) => t.schema(),
            SessionTool::ListDir(t) => t.schema(),
            SessionTool::Grep(t) => t.schema(),
            SessionTool::Glob(t) => t.schema(),
            SessionTool::Bash(t) => t.schema(),
            SessionTool::BashBackground(t) => t.schema(),
            SessionTool::SpawnTerminal(t) => t.schema(),
            SessionTool::ListTerminals(t) => t.schema(),
            SessionTool::ReadTerminal(t) => t.schema(),
            SessionTool::KillTerminal(t) => t.schema(),
        }
    }

    fn description(&self) -> (r: &str) {
        match self {
            SessionTool::ReadFile(t) => t.description(),
            SessionTool::WriteFile(t) => t.description(),
            SessionTool::EditFile(t) => t.description(),
            SessionTool::ListDir(t) => t.description(),
            SessionTool::Grep(t) => t.description(),
            SessionTool::Glob(t) => t.description(),
            SessionTool::Bash(t) => t.description(),
            SessionTool::BashBackground(t) => t.description(),
            SessionTool::SpawnTerminal(t) => t.description(),
            SessionTool::ListTerminals(t) => t.description(),
            SessionTool::ReadTerminal(t) => t.description(),
            SessionTool::KillTerminal(t) => t.description(),
        }
    }

    fn parameters_schema(&self) -> (r: Json) {
        match self {
            SessionTool::ReadFile(t) => t.parameters_schema(),
            SessionTool::WriteFile(t) => t.parameters_schema(),
            SessionTool::EditFile(t) => t.parameters_schema(),
            SessionTool::ListDir(t) => t.parameters_schema(),
            SessionTool::Grep(t) => t.parameters_schema(),
            SessionTool::Glob(t) => t.parameters_schema(),
            SessionTool::Bash(t) => t.parameters_schema(),
            SessionTool::BashBackground(t) => t.parameters_schema(),
            SessionTool::SpawnTerminal(t) => t.parameters_schema(),
            SessionTool::ListTerminals(t) => t.parameters_schema(),
            SessionTool::ReadTerminal(t) => t.parameters_schema(),
            SessionTool::KillTerminal(t) => t.parameters_schema(),
        }
    }
}

/// The names of a session's tools.
pub open spec fn session_tool_names() -> Seq<Seq<char>> {
    seq![
        "read_file"@,
        "write_file"@,
        "edit_file"@,
        "list_dir"@,
        "grep"@,
        "glob"@,
        "bash"@,
        "bash_background"@,
        "spawn_terminal"@,
        "list_terminals"@,
        "read_terminal"@,
        "kill_terminal"@,
    ]
}

/// A tool of the session under its own name, confined to the root.
pub open spec fn is_session_tool(backend: BackendV<SessionTool>, name: Seq<char>, root: Seq<char>) -> bool {
    &&& backend matches BackendV::Builtin(t)
    &&& t.called() == name
    &&& t.root() matches Some(r) ==> r == root
}

fn add_tool(executor: &mut ToolExecutor<SessionTool>, tool: SessionTool)
    ensures
        final(executor)@ == old(executor)@.insert(tool.called(), BackendV::Builtin(tool)),
        final(executor).has_registry() == old(executor).has_registry(),
{
    let name = tool.name().to_owned();
    executor.register_builtin(name.as_str(), tool);
}

/// Registers the tools of a session that works in a directory.
pub fn register_session_tools(executor: &mut ToolExecutor<SessionTool>, root: &str)
    ensures
        final(executor).has_registry() == old(executor).has_registry(),
        forall|k: Seq<char>|
            #[trigger] final(executor)@.dom().contains(k) <==> old(executor)@.dom().contains(k)
                || session_tool_names().contains(k),
        forall|k: Seq<char>| #[trigger]
            final(executor)@.dom().contains(k) ==> if session_tool_names().contains(k) {
                is_session_tool(final(executor)@[k], k, root@)
            } else {
                final(executor)@[k] == old(executor)@[k]
            },
{
    add_tool(executor, SessionTool::ReadFile(ReadFileTool { root: root.to_owned() }));
    add_tool(executor, SessionTool::WriteFile(WriteFileTool { root: root.to_owned() }));
    add_tool(executor, SessionTool::EditFile(EditFileTool { root: root.to_owned() }));
    add_tool(executor, SessionTool::ListDir(ListDirTool { root: root.to_owned() }));
    add_tool(executor, SessionTool::Grep(GrepTool { root: root.to_owned() }));
    add_tool(executor, SessionTool::Glob(GlobTool));
    add_tool(executor, SessionTool::Bash(BashTool { root: root.to_owned() }));
    add_tool(executor, SessionTool::BashBackground(BashBackgroundTool));
    add_tool(executor, SessionTool::SpawnTerminal(SpawnTerminalTool));
    add_tool(executor, SessionTool::ListTerminals(ListTerminalsTool));
    add_tool(executor, SessionTool::ReadTerminal(ReadTerminalTool));
    add_tool(executor, SessionTool::KillTerminal(KillTerminalTool));
    proof {
        let names = session_tool_names();
        assert(names[0] == "read_file"@ && names[1] == "write_file"@ && names[2] == "edit_file"@ && names[3]
            == "list_dir"@ && names[4] == "grep"@ && names[5] == "glob"@ && names[6] == "bash"@ && names[7]
            == "bash_background"@ && names[8] == "spawn_terminal"@ && names[9] == "list_terminals"@ && names[10]
            == "read_terminal"@ && names[11] == "kill_terminal"@);
    }
}

// ---------------------------------------------------------------------------
// Laws
// ---------------------------------------------------------------------------

/// No command of a file tool names a path outside the session's directory.
pub proof fn law_file_commands_stay_inside(root: Seq<char>, args: JsonV)
    ensures
        ReadFileTool::planned(root, args) matches Ok(c) ==> inside(root, c.argv.last()),
        WriteFileTool::planned(root, args) matches Ok(c) ==> inside(root, c.argv.last()),
        EditFileTool::asked(root, args) matches Ok(e) ==> inside(root, e.path),
        ListDirTool::planned(root, args) matches Ok(c) ==> inside(root, c.argv.last()),
        GrepTool::planned(root, args) matches Ok(c) ==> inside(root, c.argv.last()),
{
}

/// Whatever the arguments, the scripts that are run are the fixed ones: what a
/// model supplies to a file tool stands in an argument of its own.
pub proof fn law_arguments_are_not_scripts(root: Seq<char>, args: JsonV)
    ensures
        WriteFileTool::planned(root, args) matches Ok(c) ==> c.argv.take(4) == seq![
            "sh"@,
            "-c"@,
            "cat > \"$1\""@,
            "sh"@,
        ],
        GlobTool::planned(args) matches Ok(c) ==> c.argv.take(4) == seq![
            "sh"@,
            "-c"@,
            "find . -name \"$1\" -type f"@,
            "sh"@,
        ],
{
    if let Ok(c) = WriteFileTool::planned(root, args) {
        assert(c.argv.take(4) =~= seq!["sh"@, "-c"@, "cat > \"$1\""@, "sh"@]);
    }
    if let Ok(c) = GlobTool::planned(args) {
        assert(c.argv.take(4) =~= seq!["sh"@, "-c"@, "find . -name \"$1\" -type f"@, "sh"@]);
    }
}

} // verus!
