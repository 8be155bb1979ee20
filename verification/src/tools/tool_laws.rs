//! What the tools of a session do, field by field.
use vstd::prelude::*;

use crate::isolation::session_sandbox::{ExecResult, TerminalV, terminal_from};
use crate::json::{JsonV, number_of_i64, number_of_u64};
use crate::text::{at, contains, join, lines, lossy, signed, trim};
use crate::text_laws::{leftmost, law_replacing_keeps_the_rest};
use crate::tools::error::ToolErrorV;
use crate::tools::fs_tools::{BashBackgroundTool, BashTool, CommandV, EditFileTool, EditV, GlobTool, GrepTool,
    ListDirTool, ListTerminalsTool, ReadFileTool, ReadTerminalTool, SpawnTerminalTool, TerminalRequest, WriteFileTool,
    arg_number, arg_text, failure_reason, filled_lines, needed, scoped, size_arg, tail_of, terminal_entry};
use crate::tools::paths::{escape_text, follow, follow_all, inside, joined, path_text, start_of};

verus! {

/// The names of the fields of answers are different.
proof fn lemma_answer_fields()
    ensures
        "stdout"@ != "stderr"@,
        "stdout"@ != "exit_code"@,
        "stdout"@ != "ok"@,
        "stdout"@ != "path"@,
        "stdout"@ != "bytes"@,
        "stdout"@ != "replacements"@,
        "stdout"@ != "files"@,
        "stdout"@ != "count"@,
        "stdout"@ != "terminal_id"@,
        "stdout"@ != "command"@,
        "stdout"@ != "rows"@,
        "stdout"@ != "cols"@,
        "stdout"@ != "alive"@,
        "stdout"@ != "output"@,
        "stdout"@ != "task_id"@,
        "stdout"@ != "started"@,
        "stdout"@ != "terminals"@,
        "stderr"@ != "exit_code"@,
        "stderr"@ != "ok"@,
        "stderr"@ != "path"@,
        "stderr"@ != "bytes"@,
        "stderr"@ != "replacements"@,
        "stderr"@ != "files"@,
        "stderr"@ != "count"@,
        "stderr"@ != "terminal_id"@,
        "stderr"@ != "command"@,
        "stderr"@ != "rows"@,
        "stderr"@ != "cols"@,
        "stderr"@ != "alive"@,
        "stderr"@ != "output"@,
        "stderr"@ != "task_id"@,
        "stderr"@ != "started"@,
        "stderr"@ != "terminals"@,
        "exit_code"@ != "ok"@,
        "exit_code"@ != "path"@,
        "exit_code"@ != "bytes"@,
        "exit_code"@ != "replacements"@,
        "exit_code"@ != "files"@,
        "exit_code"@ != "count"@,
        "exit_code"@ != "terminal_id"@,
        "exit_code"@ != "command"@,
        "exit_code"@ != "rows"@,
        "exit_code"@ != "cols"@,
        "exit_code"@ != "alive"@,
        "exit_code"@ != "output"@,
        "exit_code"@ != "task_id"@,
        "exit_code"@ != "started"@,
        "exit_code"@ != "terminals"@,
        "ok"@ != "path"@,
        "ok"@ != "bytes"@,
        "ok"@ != "replacements"@,
        "ok"@ != "files"@,
        "ok"@ != "count"@,
        "ok"@ != "terminal_id"@,
        "ok"@ != "command"@,
        "ok"@ != "rows"@,
        "ok"@ != "cols"@,
        "ok"@ != "alive"@,
        "ok"@ != "output"@,
        "ok"@ != "task_id"@,
        "ok"@ != "started"@,
        "ok"@ != "terminals"@,
        "path"@ != "bytes"@,
        "path"@ != "replacements"@,
        "path"@ != "files"@,
        "path"@ != "count"@,
        "path"@ != "terminal_id"@,
        "path"@ != "command"@,
        "path"@ != "rows"@,
        "path"@ != "cols"@,
        "path"@ != "alive"@,
        "path"@ != "output"@,
        "path"@ != "task_id"@,
        "path"@ != "started"@,
        "path"@ != "terminals"@,
        "bytes"@ != "replacements"@,
        "bytes"@ != "files"@,
        "bytes"@ != "count"@,
        "bytes"@ != "terminal_id"@,
        "bytes"@ != "command"@,
        "bytes"@ != "rows"@,
        "bytes"@ != "cols"@,
        "bytes"@ != "alive"@,
        "bytes"@ != "output"@,
        "bytes"@ != "task_id"@,
        "bytes"@ != "started"@,
        "bytes"@ != "terminals"@,
        "replacements"@ != "files"@,
        "replacements"@ != "count"@,
        "replacements"@ != "terminal_id"@,
        "replacements"@ != "command"@,
        "replacements"@ != "rows"@,
        "replacements"@ != "cols"@,
        "replacements"@ != "alive"@,
        "replacements"@ != "output"@,
        "replacements"@ != "task_id"@,
        "replacements"@ != "started"@,
        "replacements"@ != "terminals"@,
        "files"@ != "count"@,
        "files"@ != "terminal_id"@,
        "files"@ != "command"@,
        "files"@ != "rows"@,
        "files"@ != "cols"@,
        "files"@ != "alive"@,
        "files"@ != "output"@,
        "files"@ != "task_id"@,
        "files"@ != "started"@,
        "files"@ != "terminals"@,
        "count"@ != "terminal_id"@,
        "count"@ != "command"@,
        "count"@ != "rows"@,
        "count"@ != "cols"@,
        "count"@ != "alive"@,
        "count"@ != "output"@,
        "count"@ != "task_id"@,
        "count"@ != "started"@,
        "count"@ != "terminals"@,
        "terminal_id"@ != "command"@,
        "terminal_id"@ != "rows"@,
        "terminal_id"@ != "cols"@,
        "terminal_id"@ != "alive"@,
        "terminal_id"@ != "output"@,
        "terminal_id"@ != "task_id"@,
        "terminal_id"@ != "started"@,
        "terminal_id"@ != "terminals"@,
        "command"@ != "rows"@,
        "command"@ != "cols"@,
        "command"@ != "alive"@,
        "command"@ != "output"@,
        "command"@ != "task_id"@,
        "command"@ != "started"@,
        "command"@ != "terminals"@,
        "rows"@ != "cols"@,
        "rows"@ != "alive"@,
        "rows"@ != "output"@,
        "rows"@ != "task_id"@,
        "rows"@ != "started"@,
        "rows"@ != "terminals"@,
        "cols"@ != "alive"@,
        "cols"@ != "output"@,
        "cols"@ != "task_id"@,
        "cols"@ != "started"@,
        "cols"@ != "terminals"@,
        "alive"@ != "output"@,
        "alive"@ != "task_id"@,
        "alive"@ != "started"@,
        "alive"@ != "terminals"@,
        "output"@ != "task_id"@,
        "output"@ != "started"@,
        "output"@ != "terminals"@,
        "task_id"@ != "started"@,
        "task_id"@ != "terminals"@,
        "started"@ != "terminals"@,
{
    reveal_strlit("stdout");
    reveal_strlit("stderr");
    reveal_strlit("exit_code");
    reveal_strlit("ok");
    reveal_strlit("path");
    reveal_strlit("bytes");
    reveal_strlit("replacements");
    reveal_strlit("files");
    reveal_strlit("count");
    reveal_strlit("terminal_id");
    reveal_strlit("command");
    reveal_strlit("rows");
    reveal_strlit("cols");
    reveal_strlit("alive");
    reveal_strlit("output");
    reveal_strlit("task_id");
    reveal_strlit("started");
    reveal_strlit("terminals");
    assert("stdout"@[3] != "stderr"@[3]);
    assert("stdout"@.len() != "exit_code"@.len());
    assert("stdout"@.len() != "ok"@.len());
    assert("stdout"@.len() != "path"@.len());
    assert("stdout"@.len() != "bytes"@.len());
    assert("stdout"@.len() != "replacements"@.len());
    assert("stdout"@.len() != "files"@.len());
    assert("stdout"@.len() != "count"@.len());
    assert("stdout"@.len() != "terminal_id"@.len());
    assert("stdout"@.len() != "command"@.len());
    assert("stdout"@.len() != "rows"@.len());
    assert("stdout"@.len() != "cols"@.len());
    assert("stdout"@.len() != "alive"@.len());
    assert("stdout"@[0] != "output"@[0]);
    assert("stdout"@.len() != "task_id"@.len());
    assert("stdout"@.len() != "started"@.len());
    assert("stdout"@.len() != "terminals"@.len());
    assert("stderr"@.len() != "exit_code"@.len());
    assert("stderr"@.len() != "ok"@.len());
    assert("stderr"@.len() != "path"@.len());
    assert("stderr"@.len() != "bytes"@.len());
    assert("stderr"@.len() != "replacements"@.len());
    assert("stderr"@.len() != "files"@.len());
    assert("stderr"@.len() != "count"@.len());
    assert("stderr"@.len() != "terminal_id"@.len());
    assert("stderr"@.len() != "command"@.len());
    assert("stderr"@.len() != "rows"@.len());
    assert("stderr"@.len() != "cols"@.len());
    assert("stderr"@.len() != "alive"@.len());
    assert("stderr"@[0] != "output"@[0]);
    assert("stderr"@.len() != "task_id"@.len());
    assert("stderr"@.len() != "started"@.len());
    assert("stderr"@.len() != "terminals"@.len());
    assert("exit_code"@.len() != "ok"@.len());
    assert("exit_code"@.len() != "path"@.len());
    assert("exit_code"@.len() != "bytes"@.len());
    assert("exit_code"@.len() != "replacements"@.len());
    assert("exit_code"@.len() != "files"@.len());
    assert("exit_code"@.len() != "count"@.len());
    assert("exit_code"@.len() != "terminal_id"@.len());
    assert("exit_code"@.len() != "command"@.len());
    assert("exit_code"@.len() != "rows"@.len());
    assert("exit_code"@.len() != "cols"@.len());
    assert("exit_code"@.len() != "alive"@.len());
    assert("exit_code"@.len() != "output"@.len());
    assert("exit_code"@.len() != "task_id"@.len());
    assert("exit_code"@.len() != "started"@.len());
    assert("exit_code"@[0] != "terminals"@[0]);
    assert("ok"@.len() != "path"@.len());
    assert("ok"@.len() != "bytes"@.len());
    assert("ok"@.len() != "replacements"@.len());
    assert("ok"@.len() != "files"@.len());
    assert("ok"@.len() != "count"@.len());
    assert("ok"@.len() != "terminal_id"@.len());
    assert("ok"@.len() != "command"@.len());
    assert("ok"@.len() != "rows"@.len());
    assert("ok"@.len() != "cols"@.len());
    assert("ok"@.len() != "alive"@.len());
    assert("ok"@.len() != "output"@.len());
    assert("ok"@.len() != "task_id"@.len());
    assert("ok"@.len() != "started"@.len());
    assert("ok"@.len() != "terminals"@.len());
    assert("path"@.len() != "bytes"@.len());
    assert("path"@.len() != "replacements"@.len());
    assert("path"@.len() != "files"@.len());
    assert("path"@.len() != "count"@.len());
    assert("path"@.len() != "terminal_id"@.len());
    assert("path"@.len() != "command"@.len());
    assert("path"@[0] != "rows"@[0]);
    assert("path"@[0] != "cols"@[0]);
    assert("path"@.len() != "alive"@.len());
    assert("path"@.len() != "output"@.len());
    assert("path"@.len() != "task_id"@.len());
    assert("path"@.len() != "started"@.len());
    assert("path"@.len() != "terminals"@.len());
    assert("bytes"@.len() != "replacements"@.len());
    assert("bytes"@[0] != "files"@[0]);
    assert("bytes"@[0] != "count"@[0]);
    assert("bytes"@.len() != "terminal_id"@.len());
    assert("bytes"@.len() != "command"@.len());
    assert("bytes"@.len() != "rows"@.len());
    assert("bytes"@.len() != "cols"@.len());
    assert("bytes"@[0] != "alive"@[0]);
    assert("bytes"@.len() != "output"@.len());
    assert("bytes"@.len() != "task_id"@.len());
    assert("bytes"@.len() != "started"@.len());
    assert("bytes"@.len() != "terminals"@.len());
    assert("replacements"@.len() != "files"@.len());
    assert("replacements"@.len() != "count"@.len());
    assert("replacements"@.len() != "terminal_id"@.len());
    assert("replacements"@.len() != "command"@.len());
    assert("replacements"@.len() != "rows"@.len());
    assert("replacements"@.len() != "cols"@.len());
    assert("replacements"@.len() != "alive"@.len());
    assert("replacements"@.len() != "output"@.len());
    assert("replacements"@.len() != "task_id"@.len());
    assert("replacements"@.len() != "started"@.len());
    assert("replacements"@.len() != "terminals"@.len());
    assert("files"@[0] != "count"@[0]);
    assert("files"@.len() != "terminal_id"@.len());
    assert("files"@.len() != "command"@.len());
    assert("files"@.len() != "rows"@.len());
    assert("files"@.len() != "cols"@.len());
    assert("files"@[0] != "alive"@[0]);
    assert("files"@.len() != "output"@.len());
    assert("files"@.len() != "task_id"@.len());
    assert("files"@.len() != "started"@.len());
    assert("files"@.len() != "terminals"@.len());
    assert("count"@.len() != "terminal_id"@.len());
    assert("count"@.len() != "command"@.len());
    assert("count"@.len() != "rows"@.len());
    assert("count"@.len() != "cols"@.len());
    assert("count"@[0] != "alive"@[0]);
    assert("count"@.len() != "output"@.len());
    assert("count"@.len() != "task_id"@.len());
    assert("count"@.len() != "started"@.len());
    assert("count"@.len() != "terminals"@.len());
    assert("terminal_id"@.len() != "command"@.len());
    assert("terminal_id"@.len() != "rows"@.len());
    assert("terminal_id"@.len() != "cols"@.len());
    assert("terminal_id"@.len() != "alive"@.len());
    assert("terminal_id"@.len() != "output"@.len());
    assert("terminal_id"@.len() != "task_id"@.len());
    assert("terminal_id"@.len() != "started"@.len());
    assert("terminal_id"@.len() != "terminals"@.len());
    assert("command"@.len() != "rows"@.len());
    assert("command"@.len() != "cols"@.len());
    assert("command"@.len() != "alive"@.len());
    assert("command"@.len() != "output"@.len());
    assert("command"@[0] != "task_id"@[0]);
    assert("command"@[0] != "started"@[0]);
    assert("command"@.len() != "terminals"@.len());
    assert("rows"@[0] != "cols"@[0]);
    assert("rows"@.len() != "alive"@.len());
    assert("rows"@.len() != "output"@.len());
    assert("rows"@.len() != "task_id"@.len());
    assert("rows"@.len() != "started"@.len());
    assert("rows"@.len() != "terminals"@.len());
    assert("cols"@.len() != "alive"@.len());
    assert("cols"@.len() != "output"@.len());
    assert("cols"@.len() != "task_id"@.len());
    assert("cols"@.len() != "started"@.len());
    assert("cols"@.len() != "terminals"@.len());
    assert("alive"@.len() != "output"@.len());
    assert("alive"@.len() != "task_id"@.len());
    assert("alive"@.len() != "started"@.len());
    assert("alive"@.len() != "terminals"@.len());
    assert("output"@.len() != "task_id"@.len());
    assert("output"@.len() != "started"@.len());
    assert("output"@.len() != "terminals"@.len());
    assert("task_id"@[0] != "started"@[0]);
    assert("task_id"@.len() != "terminals"@.len());
    assert("started"@.len() != "terminals"@.len());
}

/// What a model supplies under a key, as a text.
pub open spec fn given(args: JsonV, key: Seq<char>, text: Seq<char>) -> bool {
    args.at_key(key) == JsonV::Text(text)
}

/// What is supplied under the key is no text.
pub open spec fn lacks(args: JsonV, key: Seq<char>) -> bool {
    !(args.at_key(key) is Text)
}

proof fn lemma_given(args: JsonV, key: Seq<char>)
    ensures
        forall|t: Seq<char>| given(args, key, t) <==> #[trigger] arg_text(args, key) == Some(t),
        lacks(args, key) <==> arg_text(args, key) is None,
{
    assert forall|t: Seq<char>| given(args, key, t) <==> #[trigger] arg_text(args, key) == Some(t) by {}
}

/// The answer to a shell command that ran holds the text that the command wrote
/// to standard output, the text that it wrote to standard error and its exit
/// code, whatever the exit code. A command that could not be run is an error
/// that says why.
pub proof fn law_shell_answers_hold_what_was_printed(r: ExecResult, why: String)
    ensures
        BashTool::answered(Ok(r)) matches Ok(a) && {
            &&& a.at_key("stdout"@) == JsonV::Text(r.stdout@)
            &&& a.at_key("stderr"@) == JsonV::Text(r.stderr@)
            &&& a.at_key("exit_code"@) == JsonV::Number(number_of_i64(r.exit_code as i64))
        },
        BashTool::answered(Err(why)) == Err::<JsonV, ToolErrorV>(
            ToolErrorV::ExecutionFailed { tool: "bash"@, reason: why@ },
        ),
{
    lemma_answer_fields();
}

/// A shell command is run by `sh -c` as a script that first changes to the
/// session's directory and ends with the whole command, for at most three
/// minutes and without input.
pub proof fn law_shell_commands_are_run_whole(root: Seq<char>, args: JsonV, command: Seq<char>)
    requires
        given(args, "command"@, command),
    ensures
        BashTool::planned(root, args) matches Ok(c) && {
            &&& c.argv.len() == 3
            &&& c.argv[0] == "sh"@
            &&& c.argv[1] == "-c"@
            &&& c.argv[2] == seq!['c', 'd', ' ', '\''] + root + seq!['\'', ' ', '&', '&', ' '] + command
            &&& c.stdin is None
            &&& c.secs == 180
        },
{
    lemma_given(args, "command"@);
    reveal_strlit("cd '");
    reveal_strlit("' && ");
    assert("cd '"@ =~= seq!['c', 'd', ' ', '\'']);
    assert("' && "@ =~= seq!['\'', ' ', '&', '&', ' ']);
}

/// A tool whose command must succeed answers with an error where it did not:
/// the error names the tool, and says what the command wrote to standard
/// error, or the exit code where it wrote nothing there.
pub proof fn law_failures_are_told(r: ExecResult, why: String, root: Seq<char>, args: JsonV)
    requires
        r.exit_code != 0,
    ensures
        trim(r.stderr@).len() > 0 ==> failure_reason(r) == trim(r.stderr@),
        trim(r.stderr@).len() == 0 ==> failure_reason(r) == "exit code "@ + signed(r.exit_code as int),
        ReadFileTool::answered(Ok(r)) == Err::<JsonV, ToolErrorV>(
            ToolErrorV::ExecutionFailed { tool: "read_file"@, reason: failure_reason(r) },
        ),
        ReadFileTool::answered(Err(why)) == Err::<JsonV, ToolErrorV>(
            ToolErrorV::ExecutionFailed { tool: "read_file"@, reason: why@ },
        ),
        ListDirTool::answered(Ok(r)) == Err::<JsonV, ToolErrorV>(
            ToolErrorV::ExecutionFailed { tool: "list_dir"@, reason: failure_reason(r) },
        ),
        ListDirTool::answered(Err(why)) == Err::<JsonV, ToolErrorV>(
            ToolErrorV::ExecutionFailed { tool: "list_dir"@, reason: why@ },
        ),
        GlobTool::answered(Ok(r)) == Err::<JsonV, ToolErrorV>(
            ToolErrorV::ExecutionFailed { tool: "glob"@, reason: failure_reason(r) },
        ),
        GlobTool::answered(Err(why)) == Err::<JsonV, ToolErrorV>(
            ToolErrorV::ExecutionFailed { tool: "glob"@, reason: why@ },
        ),
        r.exit_code > 1 ==> GrepTool::answered(Ok(r)) == Err::<JsonV, ToolErrorV>(
            ToolErrorV::ExecutionFailed { tool: "grep"@, reason: failure_reason(r) },
        ),
        GrepTool::answered(Err(why)) == Err::<JsonV, ToolErrorV>(
            ToolErrorV::ExecutionFailed { tool: "grep"@, reason: why@ },
        ),
        WriteFileTool::answered(root, args, Ok(r)) is Err,
        WriteFileTool::answered(root, args, Err(why)) is Err,
{
}

/// The answer to reading a file is what the command wrote to standard output,
/// and so is the listing of a directory.
pub proof fn law_contents_are_what_was_printed(r: ExecResult)
    requires
        r.exit_code == 0,
    ensures
        ReadFileTool::answered(Ok(r)) matches Ok(a) && a.at_key("content"@) == JsonV::Text(r.stdout@),
        ListDirTool::answered(Ok(r)) matches Ok(a) && a.at_key("listing"@) == JsonV::Text(r.stdout@),
{
}

/// A search that found nothing, which ends with exit code 1, is answered like
/// one that found something: with what it printed.
pub proof fn law_searches_answer_what_was_printed(r: ExecResult)
    requires
        r.exit_code == 0 || r.exit_code == 1,
    ensures
        GrepTool::answered(Ok(r)) matches Ok(a) && a.at_key("matches"@) == JsonV::Text(r.stdout@),
{
}

/// Where the path stays in the session's directory, it is the path that is
/// read, listed or searched, and the file that is written holds exactly the
/// content: the content is the command's input and the path an argument.
pub proof fn law_commands_work_on_the_path(root: Seq<char>, args: JsonV, path: Seq<char>)
    requires
        given(args, "path"@, path),
        inside(root, path),
    ensures
        ReadFileTool::planned(root, args) matches Ok(c) && c.argv == seq!["cat"@, path] && c.stdin is None,
        ListDirTool::planned(root, args) matches Ok(c) && c.argv == seq!["ls"@, "-la"@, path] && c.stdin is None,
        forall|pattern: Seq<char>| #[trigger]
            given(args, "pattern"@, pattern) ==> (GrepTool::planned(root, args) matches Ok(c) && c.argv == seq![
                "grep"@,
                "-rn"@,
                "-e"@,
                pattern,
                path,
            ] && c.stdin is None),
        forall|content: Seq<char>| #[trigger]
            given(args, "content"@, content) ==> (WriteFileTool::planned(root, args) matches Ok(c) && c.argv.last()
                == path && c.stdin == Some(content)),
        forall|before: Seq<char>, after: Seq<char>| #[trigger]
            given(args, "old"@, before) && #[trigger] given(args, "new"@, after) ==> (EditFileTool::asked(root, args)
                matches Ok(e) && e.path == path && e.old == before && e.new == after),
{
    lemma_given(args, "path"@);
    lemma_given(args, "pattern"@);
    lemma_given(args, "content"@);
    lemma_given(args, "old"@);
    lemma_given(args, "new"@);
}

/// A path that leaves the session's directory is refused by every file tool,
/// and so is a missing one by those that need it.
pub proof fn law_refused_paths(root: Seq<char>, args: JsonV, path: Seq<char>)
    ensures
        given(args, "path"@, path) && !inside(root, path) ==> {
            &&& ReadFileTool::planned(root, args) == Err::<CommandV, ToolErrorV>(
                ToolErrorV::InvalidArgs { tool: "read_file"@, reason: escape_text(path) },
            )
            &&& WriteFileTool::planned(root, args) == Err::<CommandV, ToolErrorV>(
                ToolErrorV::InvalidArgs { tool: "write_file"@, reason: escape_text(path) },
            )
            &&& EditFileTool::asked(root, args) == Err::<EditV, ToolErrorV>(
                ToolErrorV::InvalidArgs { tool: "edit_file"@, reason: escape_text(path) },
            )
            &&& ListDirTool::planned(root, args) == Err::<CommandV, ToolErrorV>(
                ToolErrorV::InvalidArgs { tool: "list_dir"@, reason: escape_text(path) },
            )
            &&& GrepTool::planned(root, args) is Err
        },
        lacks(args, "path"@) ==> {
            &&& ReadFileTool::planned(root, args) is Err
            &&& WriteFileTool::planned(root, args) is Err
            &&& EditFileTool::asked(root, args) is Err
            &&& inside(root, "."@) ==> (ListDirTool::planned(root, args) matches Ok(c) && c.argv.last() == "."@)
        },
        lacks(args, "content"@) ==> WriteFileTool::planned(root, args) is Err,
        lacks(args, "old"@) || lacks(args, "new"@) ==> EditFileTool::asked(root, args) is Err,
        lacks(args, "pattern"@) ==> GrepTool::planned(root, args) is Err && GlobTool::planned(args) is Err,
        lacks(args, "command"@) ==> BashTool::planned(root, args) is Err,
{
    lemma_given(args, "path"@);
    lemma_given(args, "content"@);
    lemma_given(args, "old"@);
    lemma_given(args, "new"@);
    lemma_given(args, "pattern"@);
    lemma_given(args, "command"@);
}

/// A missing argument is refused with an error that names the tool and the
/// argument.
pub proof fn law_missing_arguments_are_named(args: JsonV, key: Seq<char>, tool: Seq<char>)
    ensures
        lacks(args, key) ==> (needed(args, key, tool) matches Err(ToolErrorV::InvalidArgs { tool: t, reason })
            && t == tool && contains(reason, key)),
        forall|text: Seq<char>| #[trigger] given(args, key, text) ==> needed(args, key, tool) == Ok::<
            Seq<char>,
            ToolErrorV,
        >(text),
{
    lemma_given(args, key);
    let a = "expected string field '"@;
    let reason = a + key + "'"@;
    assert(reason.subrange(a.len() as int, (a.len() + key.len()) as int) =~= key);
    assert(at(reason, key, a.len() as int));
}

/// The answer to a file that was written names the path and the bytes that the
/// content takes.
pub proof fn law_written_files_are_reported(
    root: Seq<char>,
    args: JsonV,
    path: Seq<char>,
    content: Seq<char>,
    r: ExecResult,
)
    requires
        given(args, "path"@, path),
        inside(root, path),
        given(args, "content"@, content),
        r.exit_code == 0,
    ensures
        WriteFileTool::answered(root, args, Ok(r)) matches Ok(a) && {
            &&& a.at_key("ok"@) == JsonV::Bool(true)
            &&& a.at_key("path"@) == JsonV::Text(path)
            &&& a.at_key("bytes"@) == JsonV::Number(number_of_u64(vstd::utf8::encode_utf8(content).len() as usize as u64))
        },
{
    lemma_given(args, "path"@);
    lemma_given(args, "content"@);
    lemma_answer_fields();
}

/// An edit writes the file back with the new text in each place of the old one
/// and all the rest as it was, and counts the places; the path stays. Where
/// the old text does not stand in the file, nothing is written.
pub proof fn law_edits_replace_the_text_only(e: EditV, r: ExecResult)
    requires
        r.exit_code == 0,
    ensures
        e.after_read(Ok(r)) is Ok <==> contains(r.stdout@, e.old),
        e.after_read(Ok(r)) matches Ok(p) ==> {
            &&& p.0.argv.last() == e.path
            &&& p.0.stdin matches Some(text) && exists|pieces: Seq<Seq<char>>|
                {
                    &&& #[trigger] join(pieces, e.old) == r.stdout@
                    &&& join(pieces, e.new) == text
                    &&& pieces.len() == p.1 + 1
                    &&& e.old.len() > 0 ==> leftmost(pieces, e.old)
                }
        },
{
    let pieces = law_replacing_keeps_the_rest(r.stdout@, e.old, e.new);
    assert(join(pieces, e.old) == r.stdout@);
}

/// The answer to an edit names the path and how often the text was replaced; a
/// file that could not be read or written is an error.
pub proof fn law_edits_are_reported(e: EditV, replacements: usize, r: ExecResult, why: String)
    ensures
        r.exit_code == 0 ==> (e.answered(replacements, Ok(r)) matches Ok(a) && {
            &&& a.at_key("ok"@) == JsonV::Bool(true)
            &&& a.at_key("path"@) == JsonV::Text(e.path)
            &&& a.at_key("replacements"@) == JsonV::Number(number_of_u64(replacements as u64))
        }),
        r.exit_code != 0 ==> e.answered(replacements, Ok(r)) == Err::<JsonV, ToolErrorV>(
            ToolErrorV::ExecutionFailed { tool: "edit_file"@, reason: failure_reason(r) },
        ) && e.after_read(Ok(r)) is Err,
        e.answered(replacements, Err(why)) == Err::<JsonV, ToolErrorV>(
            ToolErrorV::ExecutionFailed { tool: "edit_file"@, reason: why@ },
        ),
        e.after_read(Err(why)) is Err,
{
    lemma_answer_fields();
}

proof fn lemma_filled(ls: Seq<Seq<char>>)
    ensures
        filled_lines(ls) == ls.filter(|l: Seq<char>| l.len() > 0),
    decreases ls.len(),
{
    reveal(Seq::filter);
    if ls.len() > 0 {
        lemma_filled(ls.drop_last());
    }
}

/// The files that a pattern matches are the lines that were printed, without
/// the empty ones and in their order, and their number is counted. The pattern
/// is the last argument of the command.
pub proof fn law_found_files_are_the_lines_printed(args: JsonV, pattern: Seq<char>, r: ExecResult)
    requires
        r.exit_code == 0,
    ensures
        given(args, "pattern"@, pattern) ==> (GlobTool::planned(args) matches Ok(c) && c.argv.last() == pattern
            && c.stdin is None),
        GlobTool::answered(Ok(r)) matches Ok(a) && {
            let found = lines(r.stdout@).filter(|l: Seq<char>| l.len() > 0);
            &&& a.at_key("files"@) matches JsonV::Array(files) && files.len() == found.len() && forall|i: int|
                0 <= i < files.len() ==> #[trigger] files[i] == JsonV::Text(found[i])
            &&& a.at_key("count"@) == JsonV::Number(number_of_u64(found.len() as u64))
        },
{
    lemma_given(args, "pattern"@);
    lemma_answer_fields();
    lemma_filled(lines(r.stdout@));
}

/// The answer to a background task names the task.
pub proof fn law_started_tasks_are_named(id: Seq<char>)
    ensures
        BashBackgroundTool::answered(id).at_key("task_id"@) == JsonV::Text(id),
        BashBackgroundTool::answered(id).at_key("started"@) == JsonV::Bool(true),
{
    lemma_answer_fields();
}

/// A command that is run in a directory changes to it first and is kept whole.
pub proof fn law_scoped_commands_are_whole(root: Seq<char>, command: Seq<char>)
    ensures
        scoped(root, command) == seq!['c', 'd', ' ', '\''] + root + seq!['\'', ' ', '&', '&', ' '] + command,
{
    reveal_strlit("cd '");
    reveal_strlit("' && ");
    assert("cd '"@ =~= seq!['c', 'd', ' ', '\'']);
    assert("' && "@ =~= seq!['\'', ' ', '&', '&', ' ']);
}

/// The answer to an opened terminal holds its id and what was asked for; one
/// that could not be opened is an error that says why.
pub proof fn law_opened_terminals_are_reported(request: TerminalRequest, id: String, why: String)
    ensures
        SpawnTerminalTool::answered(request, Ok(id)) matches Ok(a) && {
            &&& a.at_key("terminal_id"@) == JsonV::Text(id@)
            &&& a.at_key("command"@) == JsonV::Text(request.command@)
            &&& a.at_key("rows"@) == JsonV::Number(number_of_u64(request.rows as u64))
            &&& a.at_key("cols"@) == JsonV::Number(number_of_u64(request.cols as u64))
        },
        SpawnTerminalTool::answered(request, Err(why)) == Err::<JsonV, ToolErrorV>(
            ToolErrorV::ExecutionFailed { tool: "spawn_terminal"@, reason: why@ },
        ),
{
    lemma_answer_fields();
}

/// A size that is given, and small enough to be one, is the size; a missing one
/// is the default.
pub proof fn law_terminal_sizes_are_as_given(args: JsonV, key: Seq<char>, default: u64)
    ensures
        arg_number(args, key) matches Some(n) ==> n < 65536 ==> size_arg(args, key, default) == n,
        !(args.at_key(key) is Number) && default < 65536 ==> size_arg(args, key, default) == default,
{
}

/// The list of terminals has one entry for each, in order, with its id, its
/// command and whether it is alive.
pub proof fn law_listed_terminals(terminals: Seq<TerminalV>)
    ensures
        ListTerminalsTool::answered(terminals).at_key("terminals"@) matches JsonV::Array(list) && {
            &&& list.len() == terminals.len()
            &&& forall|i: int|
                0 <= i < list.len() ==> {
                    &&& (#[trigger] list[i]).at_key("terminal_id"@) == JsonV::Text(terminals[i].id)
                    &&& list[i].at_key("command"@) == JsonV::Text(terminals[i].command)
                    &&& list[i].at_key("alive"@) == JsonV::Bool(terminals[i].alive)
                }
        },
        ListTerminalsTool::answered(terminals).at_key("count"@) == JsonV::Number(
            number_of_u64(terminals.len() as u64),
        ),
{
    lemma_answer_fields();
    let a = ListTerminalsTool::answered(terminals);
    if let JsonV::Array(list) = a.at_key("terminals"@) {
        assert forall|i: int| 0 <= i < list.len() implies {
            &&& (#[trigger] list[i]).at_key("terminal_id"@) == JsonV::Text(terminals[i].id)
            &&& list[i].at_key("command"@) == JsonV::Text(terminals[i].command)
            &&& list[i].at_key("alive"@) == JsonV::Bool(terminals[i].alive)
        } by {
            assert(list[i] == terminal_entry(terminals[i]));
        }
    }
}

proof fn lemma_terminal_at(v: Seq<TerminalV>, id: Seq<char>, i: int)
    requires
        0 <= i,
    ensures
        match terminal_from(v, id, i) {
            Some(k) => i <= k < v.len() && v[k].id == id,
            None => forall|k: int| i <= k < v.len() ==> (#[trigger] v[k]).id != id,
        },
    decreases v.len() - i,
{
    if i < v.len() && v[i].id != id {
        lemma_terminal_at(v, id, i + 1);
    }
}

/// Reading a terminal gives its id, whether it is alive, and the end of what it
/// has shown: the last lines where a number of them is asked for, else all of
/// it. Without a terminal of that id it fails.
pub proof fn law_terminals_show_their_end(terminals: Seq<TerminalV>, args: JsonV, shown: Seq<u8>, id: Seq<char>)
    requires
        given(args, "terminal_id"@, id),
    ensures
        ReadTerminalTool::answered(terminals, args, shown) is Ok <==> exists|i: int|
            0 <= i < terminals.len() && (#[trigger] terminals[i]).id == id,
        ReadTerminalTool::answered(terminals, args, shown) matches Ok(a) ==> {
            &&& a.at_key("terminal_id"@) == JsonV::Text(id)
            &&& exists|i: int|
                0 <= i < terminals.len() && (#[trigger] terminals[i]).id == id && a.at_key("alive"@) == JsonV::Bool(
                    terminals[i].alive,
                )
            &&& a.at_key("output"@) matches JsonV::Text(text) && {
                let asked = arg_number(args, "tail_lines"@);
                let all = lines(lossy(shown));
                &&& asked is None || asked == Some(0u64) ==> text == lossy(shown)
                &&& asked matches Some(n) ==> n > 0 ==> exists|from: int|
                    {
                        &&& 0 <= from <= all.len()
                        &&& text == join(#[trigger] all.skip(from), "\n"@)
                        &&& all.len() - from <= n
                        &&& from > 0 ==> all.len() - from == n
                    }
            }
        },
{
    lemma_given(args, "terminal_id"@);
    lemma_answer_fields();
    lemma_terminal_at(terminals, id, 0);
    let all = lines(lossy(shown));
    if let Some(n) = arg_number(args, "tail_lines"@) {
        if n > 0 {
            let from = if n >= all.len() {
                0
            } else {
                all.len() - n
            };
            assert(tail_of(lossy(shown), Some(n)) == join(all.skip(from), "\n"@));
        }
    }
}

// ---------------------------------------------------------------------------
// Paths
// ---------------------------------------------------------------------------

/// A path is put behind a directory with one slash between them; an absolute path
/// stands for itself, and so does any below no directory.
pub proof fn law_paths_are_put_behind_directories(dir: Seq<char>, rel: Seq<char>)
    ensures
        dir.len() > 0 && dir.last() != '/' && (rel.len() == 0 || rel[0] != '/') ==> joined(dir, rel) == dir + seq!['/'] + rel,
        dir.len() > 0 && dir.last() == '/' && (rel.len() == 0 || rel[0] != '/') ==> joined(dir, rel) == dir + rel,
        rel.len() > 0 && rel[0] == '/' ==> joined(dir, rel) == rel,
        dir.len() == 0 ==> joined(dir, rel) == rel,
{
    reveal_strlit("/");
    assert("/"@ =~= seq!['/']);
}

/// Following a path goes into each of its names and out of the last for two dots; a
/// dot or an empty name stays. The path of an absolute one begins at the root.
pub proof fn law_paths_are_followed(comps: Seq<Seq<char>>, name: Seq<char>, before: Seq<Seq<char>>)
    ensures
        name.len() > 0 && name != "."@ && name != ".."@ ==> follow_all(comps, before.push(name)) == follow_all(
            comps,
            before,
        ).push(name),
        name.len() == 0 || name == "."@ ==> follow_all(comps, before.push(name)) == follow_all(comps, before),
        name.len() > 0 && name != "."@ && name != ".."@ && name != "/"@ ==> follow_all(
            comps,
            before.push(name).push(".."@),
        ) == follow_all(comps, before),
{
    reveal_strlit("..");
    reveal_strlit(".");
    assert(".."@.len() == 2 && "."@.len() == 1);
    assert(before.push(name).drop_last() =~= before);
    assert(before.push(name).push(".."@).drop_last() =~= before.push(name));
    let f = follow_all(comps, before);
    assert(f.push(name).drop_last() =~= f);
    if name.len() > 0 && name != "."@ && name != ".."@ {
        assert(follow_all(comps, before.push(name)) == f.push(name));
        let up = before.push(name).push(".."@);
        assert(up.last() == ".."@);
        assert(follow_all(comps, up) == follow(f.push(name), ".."@));
        assert(".."@ != "."@);
    }
}

/// The text of a resolved path names its parts in order, with slashes between them,
/// from the root on where it begins there.
pub proof fn law_paths_are_written_out(comps: Seq<Seq<char>>)
    requires
        comps.len() > 0,
    ensures
        comps[0] == seq!['/'] ==> path_text(comps) == seq!['/'] + join(comps.drop_first(), seq!['/']),
        comps[0] != seq!['/'] ==> path_text(comps) == join(comps, seq!['/']),
        path_text(start_of(seq!['/'])) == seq!['/'],
{
    reveal_strlit("/");
    assert("/"@ =~= seq!['/']);
    assert(comps.skip(1) =~= comps.drop_first());
    let s = start_of(seq!['/']);
    assert(s.skip(1) =~= Seq::<Seq<char>>::empty());
    assert(seq!['/'] + Seq::<char>::empty() =~= seq!['/']);
}

} // verus!
