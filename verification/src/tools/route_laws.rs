//! What models are told of tools, and where calls go.
use vstd::prelude::*;

use crate::json::JsonV;
use crate::llm::wire::text_values;
use crate::text::contains;
use crate::text_laws::law_parts_are_found;
use crate::tools::error::ToolErrorV;
use crate::tools::executor::{BackendV, BuiltinTool, DefinitionV, all_offered, offered, route_error};
use crate::tools::fs_tools::{BashBackgroundTool, BashTool, EditFileTool, GlobTool, GrepTool, KillTerminalTool,
    ListDirTool, ReadFileTool, ReadTerminalTool, SessionTool, SpawnTerminalTool, WriteFileTool, session_tool_names};

verus! {

/// The names of the members of parameters are different.
proof fn lemma_parameter_keys()
    ensures
        "type"@ != "description"@,
        "type"@ != "properties"@,
        "type"@ != "required"@,
        "type"@ != "minimum"@,
        "description"@ != "properties"@,
        "description"@ != "required"@,
        "description"@ != "minimum"@,
        "properties"@ != "required"@,
        "properties"@ != "minimum"@,
        "required"@ != "minimum"@,
{
    reveal_strlit("type");
    reveal_strlit("description");
    reveal_strlit("properties");
    reveal_strlit("required");
    reveal_strlit("minimum");
    assert("type"@.len() != "description"@.len());
    assert("type"@.len() != "properties"@.len());
    assert("type"@.len() != "required"@.len());
    assert("type"@.len() != "minimum"@.len());
    assert("description"@.len() != "properties"@.len());
    assert("description"@.len() != "required"@.len());
    assert("description"@.len() != "minimum"@.len());
    assert("properties"@.len() != "required"@.len());
    assert("properties"@.len() != "minimum"@.len());
    assert("required"@.len() != "minimum"@.len());
}

/// The names of the parameters are different.
proof fn lemma_parameter_names()
    ensures
        "path"@ != "content"@,
        "path"@ != "old"@,
        "path"@ != "new"@,
        "path"@ != "pattern"@,
        "path"@ != "command"@,
        "path"@ != "rows"@,
        "path"@ != "cols"@,
        "path"@ != "terminal_id"@,
        "path"@ != "tail_lines"@,
        "content"@ != "old"@,
        "content"@ != "new"@,
        "content"@ != "pattern"@,
        "content"@ != "command"@,
        "content"@ != "rows"@,
        "content"@ != "cols"@,
        "content"@ != "terminal_id"@,
        "content"@ != "tail_lines"@,
        "old"@ != "new"@,
        "old"@ != "pattern"@,
        "old"@ != "command"@,
        "old"@ != "rows"@,
        "old"@ != "cols"@,
        "old"@ != "terminal_id"@,
        "old"@ != "tail_lines"@,
        "new"@ != "pattern"@,
        "new"@ != "command"@,
        "new"@ != "rows"@,
        "new"@ != "cols"@,
        "new"@ != "terminal_id"@,
        "new"@ != "tail_lines"@,
        "pattern"@ != "command"@,
        "pattern"@ != "rows"@,
        "pattern"@ != "cols"@,
        "pattern"@ != "terminal_id"@,
        "pattern"@ != "tail_lines"@,
        "command"@ != "rows"@,
        "command"@ != "cols"@,
        "command"@ != "terminal_id"@,
        "command"@ != "tail_lines"@,
        "rows"@ != "cols"@,
        "rows"@ != "terminal_id"@,
        "rows"@ != "tail_lines"@,
        "cols"@ != "terminal_id"@,
        "cols"@ != "tail_lines"@,
        "terminal_id"@ != "tail_lines"@,
{
    reveal_strlit("path");
    reveal_strlit("content");
    reveal_strlit("old");
    reveal_strlit("new");
    reveal_strlit("pattern");
    reveal_strlit("command");
    reveal_strlit("rows");
    reveal_strlit("cols");
    reveal_strlit("terminal_id");
    reveal_strlit("tail_lines");
    assert("path"@.len() != "content"@.len());
    assert("path"@.len() != "old"@.len());
    assert("path"@.len() != "new"@.len());
    assert("path"@.len() != "pattern"@.len());
    assert("path"@.len() != "command"@.len());
    assert("path"@[0] != "rows"@[0]);
    assert("path"@[0] != "cols"@[0]);
    assert("path"@.len() != "terminal_id"@.len());
    assert("path"@.len() != "tail_lines"@.len());
    assert("content"@.len() != "old"@.len());
    assert("content"@.len() != "new"@.len());
    assert("content"@[0] != "pattern"@[0]);
    assert("content"@[2] != "command"@[2]);
    assert("content"@.len() != "rows"@.len());
    assert("content"@.len() != "cols"@.len());
    assert("content"@.len() != "terminal_id"@.len());
    assert("content"@.len() != "tail_lines"@.len());
    assert("old"@[0] != "new"@[0]);
    assert("old"@.len() != "pattern"@.len());
    assert("old"@.len() != "command"@.len());
    assert("old"@.len() != "rows"@.len());
    assert("old"@.len() != "cols"@.len());
    assert("old"@.len() != "terminal_id"@.len());
    assert("old"@.len() != "tail_lines"@.len());
    assert("new"@.len() != "pattern"@.len());
    assert("new"@.len() != "command"@.len());
    assert("new"@.len() != "rows"@.len());
    assert("new"@.len() != "cols"@.len());
    assert("new"@.len() != "terminal_id"@.len());
    assert("new"@.len() != "tail_lines"@.len());
    assert("pattern"@[0] != "command"@[0]);
    assert("pattern"@.len() != "rows"@.len());
    assert("pattern"@.len() != "cols"@.len());
    assert("pattern"@.len() != "terminal_id"@.len());
    assert("pattern"@.len() != "tail_lines"@.len());
    assert("command"@.len() != "rows"@.len());
    assert("command"@.len() != "cols"@.len());
    assert("command"@.len() != "terminal_id"@.len());
    assert("command"@.len() != "tail_lines"@.len());
    assert("rows"@[0] != "cols"@[0]);
    assert("rows"@.len() != "terminal_id"@.len());
    assert("rows"@.len() != "tail_lines"@.len());
    assert("cols"@.len() != "terminal_id"@.len());
    assert("cols"@.len() != "tail_lines"@.len());
    assert("terminal_id"@.len() != "tail_lines"@.len());
}

/// A model is told of a tool of the program under its name, with what it is for
/// and what it takes; of one of a server what the server says; of a WASM tool
/// nothing.
pub proof fn law_tools_are_told_as_they_are<B: BuiltinTool>(
    name: Seq<char>,
    b: B,
    server: Seq<char>,
    definition: DefinitionV,
    module: Seq<char>,
)
    ensures
        offered(name, BackendV::Builtin(b)) matches Some(d) && d.name == name && d.description == b.about() && d.parameters
            == b.schema(),
        offered::<B>(name, BackendV::Mcp { server_name: server, definition }) == Some(definition),
        offered::<B>(name, BackendV::Wasm { module_name: module }) is None,
{
}

/// The tool can be told of.
pub open spec fn is_told<B: BuiltinTool>(name: Seq<char>, tools: Map<Seq<char>, BackendV<B>>) -> bool {
    !(tools[name] is Wasm)
}

/// A model is told of all tools that can be told of, in order.
pub proof fn law_all_tools_are_told<B: BuiltinTool>(names: Seq<Seq<char>>, tools: Map<Seq<char>, BackendV<B>>)
    ensures
        all_offered(names, tools).len() == names.filter(|n: Seq<char>| is_told(n, tools)).len(),
        forall|i: int|
            0 <= i < all_offered(names, tools).len() ==> ({
                let n = names.filter(|n: Seq<char>| is_told(n, tools))[i];
                Some(#[trigger] all_offered(names, tools)[i]) == offered(n, tools[n])
            }),
    decreases names.len(),
{
    reveal(Seq::filter);
    if names.len() > 0 {
        law_all_tools_are_told(names.drop_last(), tools);
        let f = |n: Seq<char>| is_told(n, tools);
        let rest = names.drop_last().filter(f);
        let all = names.filter(f);
        let t = all_offered(names, tools);
        assert forall|i: int| 0 <= i < t.len() implies Some(#[trigger] t[i]) == offered(all[i], tools[all[i]]) by {
            if i < rest.len() {
                assert(all[i] == rest[i]);
                assert(t[i] == all_offered(names.drop_last(), tools)[i]);
            }
        }
    }
}

/// A call goes nowhere exactly where the tool is unknown, needs a registry that is
/// not there, or is a WASM tool; the error names the tool.
pub proof fn law_calls_are_routed<B>(tool: Seq<char>, backend: Option<BackendV<B>>, has_registry: bool)
    ensures
        backend is None ==> route_error(tool, backend, has_registry) == Some(ToolErrorV::NotFound(tool)),
        backend matches Some(BackendV::Builtin(_)) ==> route_error(tool, backend, has_registry) is None,
        backend matches Some(BackendV::Mcp { .. }) ==> (route_error(tool, backend, has_registry) is None <==> has_registry),
        backend matches Some(BackendV::Mcp { .. }) ==> !has_registry ==> (route_error(tool, backend, has_registry) matches Some(
            ToolErrorV::ExecutionFailed { tool: t, .. },
        ) && t == tool),
        backend matches Some(BackendV::Wasm { module_name }) ==> (route_error(tool, backend, has_registry) matches Some(
            ToolErrorV::ExecutionFailed { tool: t, reason },
        ) && t == tool && contains(reason, module_name)),
{
    if let Some(BackendV::Wasm { module_name }) = backend {
        law_parts_are_found(
            "WASM module '"@,
            module_name,
            "' is not runnable on the default tool path; WASM isolation is an experimental opt-in tier"@,
        );
    }
}

/// The parameters have a property of a name and a kind.
pub open spec fn takes(schema: JsonV, name: Seq<char>, kind: Seq<char>) -> bool {
    schema.at_key("type"@) == JsonV::Text("object"@) && schema.at_key("properties"@).at_key(name).at_key("type"@)
        == JsonV::Text(kind)
}

/// The parameters that must be given are these, in order.
pub open spec fn needs(schema: JsonV, names: Seq<Seq<char>>) -> bool {
    schema.at_key("required"@) matches JsonV::Array(list) && list.len() == names.len() && forall|i: int|
        0 <= i < names.len() ==> list[i] == JsonV::Text(#[trigger] names[i])
}

proof fn lemma_needs(names: Seq<Seq<char>>)
    ensures
        text_values(names).len() == names.len(),
        forall|i: int| 0 <= i < names.len() ==> text_values(names)[i] == JsonV::Text(#[trigger] names[i]),
{
}

/// What the file tools take.
pub proof fn law_file_tools_take_paths(
    read: ReadFileTool,
    write: WriteFileTool,
    edit: EditFileTool,
    list: ListDirTool,
    grep: GrepTool,
    glob: GlobTool,
)
    ensures
        takes(read.schema(), "path"@, "string"@) && needs(read.schema(), seq!["path"@]),
        takes(write.schema(), "path"@, "string"@) && takes(write.schema(), "content"@, "string"@) && needs(
            write.schema(),
            seq!["path"@, "content"@],
        ),
        takes(edit.schema(), "path"@, "string"@) && takes(edit.schema(), "old"@, "string"@) && takes(
            edit.schema(),
            "new"@,
            "string"@,
        ) && needs(edit.schema(), seq!["path"@, "old"@, "new"@]),
        takes(list.schema(), "path"@, "string"@),
        takes(grep.schema(), "pattern"@, "string"@) && takes(grep.schema(), "path"@, "string"@) && needs(
            grep.schema(),
            seq!["pattern"@],
        ),
        takes(glob.schema(), "pattern"@, "string"@) && needs(glob.schema(), seq!["pattern"@]),
{
    lemma_parameter_keys();
    lemma_parameter_names();
    lemma_needs(seq!["path"@]);
    lemma_needs(seq!["path"@, "content"@]);
    lemma_needs(seq!["path"@, "old"@, "new"@]);
    lemma_needs(seq!["pattern"@]);
}

/// What the shell tools take.
pub proof fn law_shell_tools_take_commands(
    bash: BashTool,
    background: BashBackgroundTool,
    spawn: SpawnTerminalTool,
    read: ReadTerminalTool,
    kill: KillTerminalTool,
)
    ensures
        takes(bash.schema(), "command"@, "string"@) && needs(bash.schema(), seq!["command"@]),
        takes(background.schema(), "command"@, "string"@) && needs(background.schema(), seq!["command"@]),
        takes(spawn.schema(), "command"@, "string"@) && takes(spawn.schema(), "rows"@, "integer"@) && takes(
            spawn.schema(),
            "cols"@,
            "integer"@,
        ) && needs(spawn.schema(), seq!["command"@]),
        takes(read.schema(), "terminal_id"@, "string"@) && takes(read.schema(), "tail_lines"@, "integer"@) && needs(
            read.schema(),
            seq!["terminal_id"@],
        ),
        takes(kill.schema(), "terminal_id"@, "string"@) && needs(kill.schema(), seq!["terminal_id"@]),
{
    lemma_parameter_keys();
    lemma_parameter_names();
    lemma_needs(seq!["command"@]);
    lemma_needs(seq!["terminal_id"@]);
}

/// Every tool of a session is offered under its own name.
pub proof fn law_session_tools_are_known(t: SessionTool)
    ensures
        session_tool_names().contains(t.called()),
        session_tool_names().len() == 12,
{
    let names = session_tool_names();
    assert(names[0] == "read_file"@ && names[1] == "write_file"@ && names[2] == "edit_file"@ && names[3] == "list_dir"@);
    assert(names[4] == "grep"@ && names[5] == "glob"@ && names[6] == "bash"@ && names[7] == "bash_background"@);
    assert(names[8] == "spawn_terminal"@ && names[9] == "list_terminals"@);
    assert(names[10] == "read_terminal"@ && names[11] == "kill_terminal"@);
}

} // verus!
