use axocoatl::isolation::session_sandbox::{ExecResult, SessionSandbox};
use axocoatl::json::{parse, Json};
use axocoatl::llm::provider::{ConcurrencyPolicy, ToolDefinition};
use axocoatl::tools::error::ToolError;
use axocoatl::tools::executor::{BuiltinTool, Route, ToolExecutor};
use axocoatl::tools::fs_tools::{
    register_session_tools, tail_text, BashBackgroundTool, BashTool, EditFileTool, GlobTool, GrepTool,
    KillTerminalTool, ListDirTool, ListTerminalsTool, ReadFileTool, ReadTerminalTool, SessionTool, SpawnTerminalTool,
    WriteFileTool,
};
use axocoatl::tools::paths::{confine, joined_path, lexical_normalize};

fn args(text: &str) -> Json {
    parse(text).unwrap()
}

fn ran(exit_code: i32, stdout: &str, stderr: &str) -> ExecResult {
    ExecResult { exit_code, stdout: stdout.into(), stderr: stderr.into() }
}

// --- Paths ---------------------------------------------------------------------

#[test]
fn lexical_normalize_collapses_dot_segments() {
    assert_eq!(lexical_normalize("/proj/./src/../lib/x.rs"), "/proj/lib/x.rs");
}

#[test]
fn confine_allows_paths_inside_root() {
    let root = "/home/u/proj";
    assert!(confine(root, "src/main.rs", "read_file").is_ok());
    assert!(confine(root, ".", "list_dir").is_ok());
    assert!(confine(root, "a/b/../c.txt", "read_file").is_ok());
    assert!(confine(root, "/home/u/proj/src/main.rs", "read_file").is_ok());
}

#[test]
fn confine_rejects_escapes() {
    let root = "/home/u/proj";
    assert!(confine(root, "/etc/passwd", "read_file").is_err());
    assert!(confine(root, "../other/secret", "read_file").is_err());
    assert!(confine(root, "../../../../etc/shadow", "read_file").is_err());
    assert!(confine(root, "src/../../proj-evil/x", "write_file").is_err());
    assert!(confine(root, "/home/u/proj-evil/x", "read_file").is_err());
}

#[test]
fn confine_returns_the_original_path() {
    assert_eq!(confine("/home/u/proj", "src/main.rs", "read_file").unwrap(), "src/main.rs");
}

#[test]
fn resolving_twice_is_resolving_once() {
    let once = lexical_normalize("/a/../../b/./c");
    assert_eq!(once, lexical_normalize(&once));
    assert_eq!(joined_path("/w", "x"), "/w/x");
    assert_eq!(joined_path("/w", "/x"), "/x");
}

// --- The executor ----------------------------------------------------------------

fn executor() -> ToolExecutor<SessionTool> {
    ToolExecutor::new()
}

fn mcp_def(name: &str) -> ToolDefinition {
    ToolDefinition {
        name: name.to_string(),
        description: "does a thing".to_string(),
        parameters: Json::object(),
        concurrency: ConcurrencyPolicy::Safe,
    }
}

#[test]
fn register_and_execute_builtin() {
    let mut executor = executor();
    executor.register_builtin("glob", SessionTool::Glob(GlobTool));
    match executor.execute("glob") {
        Ok(Route::Builtin(SessionTool::Glob(t))) => {
            let c = t.plan(&args("{\"pattern\":\"*.rs\"}")).unwrap();
            assert!(c.argv.iter().any(|a| a == "*.rs"));
        }
        _ => panic!("expected the builtin"),
    }
}

#[test]
fn unknown_tool_returns_error() {
    let executor = executor();
    assert!(matches!(executor.execute("nonexistent"), Err(ToolError::NotFound(_))));
}

#[test]
fn as_llm_tools_includes_builtins() {
    let mut executor = executor();
    executor.register_builtin("echo", SessionTool::Glob(GlobTool));
    executor.register_builtin("json_keys", SessionTool::ListTerminals(ListTerminalsTool));
    assert_eq!(executor.as_llm_tools().len(), 2);
}

#[test]
fn as_llm_tools_advertises_mcp_tools() {
    let mut executor = executor();
    executor.register_builtin("echo", SessionTool::Glob(GlobTool));
    executor.register_mcp("mcp__srv__do", "srv", mcp_def("mcp__srv__do"));
    let tools = executor.as_llm_tools();
    assert_eq!(tools.len(), 2);
    assert!(tools.iter().any(|t| t.name == "mcp__srv__do"));
    assert!(tools.iter().all(|t| t.concurrency == ConcurrencyPolicy::Safe));
}

#[test]
fn mcp_without_registry_reports_unconfigured() {
    let mut executor = executor();
    executor.register_mcp("mcp__srv__do", "srv", mcp_def("mcp__srv__do"));
    match executor.execute("mcp__srv__do") {
        Err(ToolError::ExecutionFailed { reason, .. }) => {
            assert!(reason.contains("registry not configured"), "got: {reason}")
        }
        _ => panic!("expected a failure"),
    }
    let executor = executor.with_mcp_registry();
    assert!(matches!(executor.execute("mcp__srv__do"), Ok(Route::Mcp { server_name: "srv" })));
}

#[test]
fn wasm_tools_are_known_but_not_offered() {
    let mut executor = executor();
    executor.register_wasm("w", "mod");
    assert!(executor.execute("w").is_err());
    assert!(executor.as_llm_tools().is_empty());
    assert_eq!(executor.tool_names(), vec!["w"]);
    assert!(executor.get_concurrency_policy("w").is_some());
    assert!(executor.get_concurrency_policy("x").is_none());
    assert_eq!(ToolExecutor::<SessionTool>::bare_name(None, "mcp__srv__do"), "mcp__srv__do");
    assert_eq!(ToolExecutor::<SessionTool>::bare_name(Some("do"), "mcp__srv__do"), "do");
}

#[test]
fn session_tools_are_registered_together() {
    let mut executor = executor();
    register_session_tools(&mut executor, "/w");
    assert_eq!(executor.tool_names().len(), 12);
    for t in executor.as_llm_tools() {
        assert!(executor.execute(&t.name).is_ok());
        assert!(!t.description.is_empty());
        assert_eq!(t.parameters.at_key("type").as_str(), Some("object"));
    }
}

// --- The tools ---------------------------------------------------------------------

#[test]
fn files_are_read_inside_the_root_only() {
    let t = ReadFileTool { root: "/w".into() };
    let c = t.plan(&args("{\"path\":\"a.txt\"}")).unwrap();
    assert_eq!(c.argv, vec!["cat", "a.txt"]);
    assert!(matches!(t.plan(&args("{\"path\":\"/etc/passwd\"}")), Err(ToolError::InvalidArgs { .. })));
    match t.plan(&args("{}")) {
        Err(ToolError::InvalidArgs { tool, reason }) => {
            assert_eq!((tool.as_str(), reason.as_str()), ("read_file", "expected string field 'path'"))
        }
        _ => panic!("expected a refusal"),
    }
    let r = t.answer(Ok(ran(0, "text", ""))).unwrap();
    assert_eq!(r.at_key("content").as_str(), Some("text"));
    match t.answer(Ok(ran(-1, "", " "))) {
        Err(ToolError::ExecutionFailed { reason, .. }) => assert_eq!(reason, "exit code -1"),
        _ => panic!("expected a failure"),
    }
    match t.answer(Err("gone".into())) {
        Err(ToolError::ExecutionFailed { reason, .. }) => assert_eq!(reason, "gone"),
        _ => panic!("expected a failure"),
    }
}

#[test]
fn files_are_written_through_standard_input() {
    let t = WriteFileTool { root: "/w".into() };
    let a = args("{\"path\":\"b.txt\",\"content\":\"$(rm -rf /)\"}");
    let c = t.plan(&a).unwrap();
    assert_eq!(c.argv[..4], ["sh", "-c", c.argv[2].as_str(), "sh"]);
    assert_eq!(c.argv[4], "b.txt");
    assert_eq!(c.stdin.as_deref(), Some("$(rm -rf /)"));
    assert!(t.answer(&a, Ok(ran(0, "", ""))).is_ok());
}

#[test]
fn edits_need_the_old_text() {
    let t = EditFileTool { root: "/w".into() };
    let (edit, read) = t.plan(&args("{\"path\":\"a\",\"old\":\"x\",\"new\":\"yy\"}")).unwrap();
    assert_eq!(read.argv, vec!["cat", "a"]);
    let (write, n) = edit.after_read(Ok(ran(0, "axbx", ""))).unwrap();
    assert_eq!(n, 2);
    assert_eq!(write.stdin.as_deref(), Some("ayybyy"));
    let r = edit.answer(n, Ok(ran(0, "", ""))).unwrap();
    assert_eq!(r.at_key("replacements").as_u64(), Some(2));
    assert!(edit.after_read(Ok(ran(0, "nothing", ""))).is_err());
}

#[test]
fn listings_and_searches_are_planned() {
    let t = ListDirTool { root: "/w".into() };
    assert!(t.plan(&args("{}")).unwrap().argv.contains(&".".to_string()));
    assert!(t.plan(&args("{\"path\":\"..\"}")).is_err());
    assert!(t.answer(Ok(ran(0, "a\nb\n", ""))).is_ok());
    let g = GrepTool { root: "/w".into() };
    assert!(g.plan(&args("{\"pattern\":\"-x\"}")).unwrap().argv.contains(&"-x".to_string()));
    assert!(g.answer(Ok(ran(1, "", ""))).is_ok());
    assert!(g.answer(Ok(ran(2, "", "bad pattern"))).is_err());
    assert!(GlobTool.answer(Ok(ran(0, "", ""))).is_ok());
    let b = BashTool { root: "/w".into() };
    let c = b.plan(&args("{\"command\":\"ls\"}")).unwrap();
    assert_eq!(c.secs, 180);
    assert_eq!(b.answer(Ok(ran(3, "o", "e"))).unwrap().at_key("exit_code").as_u64(), Some(3));
}

#[test]
fn background_commands_and_terminals_are_kept() {
    let mut sb = SessionSandbox::attach("c", "/w");
    let (id, r) = BashBackgroundTool.execute(&mut sb, &args("{\"command\":\"npm start\"}")).unwrap();
    assert_eq!(r.at_key("task_id").as_str(), Some(id.as_str()));
    assert_eq!(sb.list_tasks().len(), 1);
    let q = SpawnTerminalTool.plan(&args("{\"command\":\"top\"}")).unwrap();
    assert_eq!(q.command, "top");
    assert!(SpawnTerminalTool.answer(&q, Err("no".into())).is_err());
    sb.spawn_pty("pty-9", "top", Ok(())).unwrap();
    assert!(SpawnTerminalTool.answer(&q, Ok("pty-9".into())).is_ok());
    let l = ListTerminalsTool.execute(&sb);
    assert!(axocoatl::json::render(&l).contains("pty-9"));
    let shown = b"one\ntwo\nthree";
    let r = ReadTerminalTool.execute(&sb, &args("{\"terminal_id\":\"pty-9\",\"tail_lines\":2}"), shown).unwrap();
    assert!(axocoatl::json::render(&r).contains("two\\nthree"));
    assert!(!axocoatl::json::render(&r).contains("one"));
    assert!(ReadTerminalTool.execute(&sb, &args("{\"terminal_id\":\"none\"}"), shown).is_err());
    assert_eq!(tail_text("a\nb\nc".into(), Some(1)), "c");
    assert_eq!(tail_text("a\nb\nc".into(), None), "a\nb\nc");
    let k = KillTerminalTool.execute(&mut sb, &args("{\"terminal_id\":\"pty-9\"}")).unwrap();
    assert!(matches!(k.at_key("ok"), Json::Bool(true)));
    let k = KillTerminalTool.execute(&mut sb, &args("{\"terminal_id\":\"pty-9\"}")).unwrap();
    assert!(matches!(k.at_key("ok"), Json::Bool(false)));
    assert!(GlobTool.description().len() > 10);
}
