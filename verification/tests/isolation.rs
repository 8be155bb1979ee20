use axocoatl::isolation::error::IsolationError;
use axocoatl::isolation::firecracker::{FirecrackerConfig, FirecrackerPool};
use axocoatl::isolation::session_sandbox::{
    choose_image, container_name, dev_essentials_script, dropped_caps, grow_log, scripts_to_run, start_failure_text,
    ExecResult, SandboxNetwork, SandboxPolicy, SessionSandbox, Startup, TaskEnd, DEFAULT_IMAGE, LOG_BYTES,
};
use axocoatl::isolation::wasmtime_sandbox::{RunEnd, WasmtimeSandbox};
use axocoatl::json::{parse, Json};

fn policy() -> SandboxPolicy {
    SandboxPolicy::default()
}

// --- MicroVMs ----------------------------------------------------------------

#[test]
fn default_config() {
    let config = FirecrackerConfig::default();
    assert_eq!(config.vcpu_count, 1);
    assert_eq!(config.mem_size_mib, 128);
    assert_eq!(config.warm_pool_size, 5);
}

#[test]
fn machines_get_ids_of_their_own() {
    let mut config = FirecrackerConfig::default();
    config.kernel_image = "/k".into();
    config.rootfs_image = "/r".into();
    let pool = FirecrackerPool::new(config);
    let c = pool.acquire_as("vm-1");
    assert_eq!(c.vm_id, "vm-1");
    assert_eq!(c.storage.len(), 1);
    assert!(c.kernel.is_some());
    let (c, h) = pool.acquire();
    assert_eq!(c.vm_id, h.vm_id());
    assert_eq!(h.vm_id().len(), 36);
    let (_, g) = pool.acquire();
    assert_ne!(g.vm_id(), h.vm_id());
    match h.execute_tool("t", Json::Null, 5) {
        Err(IsolationError::ExecutionFailed(m)) => assert_eq!(
            m,
            "Firecracker in-VM execution is an experimental tier; tool 't' cannot run on it"
        ),
        _ => panic!("expected a failure"),
    }
    assert!(matches!(FirecrackerPool::failure("x".into()), IsolationError::VmStartFailed(m) if m == "x"));
}

// --- Containers ----------------------------------------------------------------

#[test]
fn port_conflict_detection_covers_proxy_already_running() {
    assert!(SessionSandbox::is_port_conflict(
        "Error: something went wrong with the request: \"proxy already running\\n\""
    ));
    assert!(SessionSandbox::is_port_conflict("rootlessport listen tcp 0.0.0.0:3000: bind: address already in use"));
    assert!(SessionSandbox::is_port_conflict("port is already allocated"));
    assert!(!SessionSandbox::is_port_conflict("no such image"));
    assert_eq!(SessionSandbox::extract_conflicting_port("proxy already running"), None);
}

#[test]
fn exec_result_ok() {
    let r = ExecResult { stdout: String::new(), stderr: String::new(), exit_code: 0 };
    assert!(r.ok());
    let r = ExecResult { exit_code: 1, ..r };
    assert!(!r.ok());
}

#[test]
fn commands_run_in_the_container() {
    let sb = SessionSandbox::attach("axo-ses-x", "/w");
    let argv: Vec<String> = vec!["ls".into(), "-a".into()];
    assert_eq!(sb.exec(&argv), vec!["exec", "axo-ses-x", "ls", "-a"]);
    assert_eq!(sb.exec_stdin(&argv), vec!["exec", "-i", "axo-ses-x", "ls", "-a"]);
    assert_eq!(sb.stop(), vec!["rm", "-f", "axo-ses-x"]);
    let r = ExecResult::of_output(b"a\xff", b"", None);
    assert_eq!((r.stdout.as_str(), r.stderr.as_str(), r.exit_code), ("a\u{fffd}", "", -1));
}

#[test]
fn default_policy_is_secure() {
    let p = SandboxPolicy::default();
    assert!(!p.allow_post_create, "post-create must be off by default");
    assert!(!p.allow_untrusted_image, "untrusted images must be off by default");
    assert_eq!(p.network, SandboxNetwork::Bridge);
    assert!(!p.require_resource_limits);
}

#[test]
fn run_args_always_apply_hardening() {
    let args =
        SessionSandbox::build_run_args("axo-ses-x", "/w:/w:rw", "/w", DEFAULT_IMAGE, true, &vec![3000], &policy());
    assert!(args.iter().any(|a| a == "--security-opt=no-new-privileges"));
    for cap in dropped_caps() {
        assert!(args.windows(2).any(|w| w[0] == "--cap-drop" && w[1] == cap), "missing --cap-drop {cap}");
    }
    assert!(args.windows(2).any(|w| w[0] == "--pids-limit"));
    assert!(args.iter().any(|a| a == "--memory"));
    assert!(args.windows(2).any(|w| w[0] == "-p" && w[1] == "3000:3000"));
    assert!(!args.windows(2).any(|w| w[0] == "--network" && w[1] == "none"));
}

#[test]
fn run_args_network_none_cuts_off_publishing() {
    let policy = SandboxPolicy { network: SandboxNetwork::Isolated, ..SandboxPolicy::default() };
    let args =
        SessionSandbox::build_run_args("axo-ses-x", "/w:/w:rw", "/w", DEFAULT_IMAGE, false, &vec![3000, 5173], &policy);
    assert!(args.windows(2).any(|w| w[0] == "--network" && w[1] == "none"));
    assert!(!args.iter().any(|a| a == "-p"));
    assert!(!args.iter().any(|a| a == "--pids-limit"));
}

#[test]
fn starting_gives_way_step_by_step() {
    let s = Startup::first("s1", "/w", None, &vec![3000, 5173], &policy());
    assert_eq!(s.container, "axo-ses-s1");
    assert_eq!(container_name("s1"), "axo-ses-s1");
    assert!(s.with_limits);
    let s = s.after("cgroup controllers missing").unwrap();
    assert!(!s.with_limits);
    let s = s.after("listen tcp 0.0.0.0:3000: bind: address already in use").unwrap();
    assert_eq!(s.publish, vec![5173]);
    let s = s.after("proxy already running").unwrap();
    assert!(s.publish.is_empty());
    assert!(!s.args().iter().any(|a| a == "-p"));
    match s.after("proxy already running") {
        Err(IsolationError::OciContainerFailed(m)) => assert_eq!(m, "proxy already running"),
        _ => panic!("expected a failure"),
    }
    let strict = SandboxPolicy { require_resource_limits: true, ..policy() };
    let s = Startup::first("s1", "/w", None, &vec![], &strict);
    assert!(s.after("cgroup").is_err());
    let sb = Startup::first("s1", "/w", None, &vec![], &policy()).finish();
    assert_eq!((sb.container(), sb.root()), ("axo-ses-s1", "/w"));
    assert_eq!(start_failure_text(" boom \n"), "starting session container: boom");
}

#[test]
fn images_and_scripts_need_to_be_allowed() {
    assert_eq!(choose_image(None, &policy()), DEFAULT_IMAGE);
    assert_eq!(choose_image(Some("evil:1"), &policy()), DEFAULT_IMAGE);
    let open = SandboxPolicy { allow_untrusted_image: true, allow_post_create: true, ..policy() };
    assert_eq!(choose_image(Some("mine:1"), &open), "mine:1");
    let scripts: Vec<String> = vec!["npm i".into()];
    assert!(scripts_to_run(&scripts, &policy()).is_empty());
    assert_eq!(scripts_to_run(&scripts, &open), vec!["npm i"]);
    assert!(dev_essentials_script().contains("apk"));
}

#[test]
fn orphans_are_reaped_and_known_sessions_spared() {
    let known: Vec<String> = vec!["a".into()];
    let dead = SessionSandbox::reap_orphans("axo-ses-a\naxo-ses-b\nother\n", &known);
    assert_eq!(dead, vec!["axo-ses-b"]);
}

#[test]
fn background_tasks_keep_a_bounded_log() {
    let mut sb = SessionSandbox::attach("c", "/w");
    sb.spawn_background_as("t1", "npm start");
    assert!(sb.log_output("t1", "hello\n"));
    assert!(!sb.log_output("none", "x"));
    let t = sb.list_tasks();
    assert_eq!((t[0].command.as_str(), t[0].log.as_str()), ("npm start", "hello\n"));
    sb.end_task("t1", TaskEnd::Exited(-9));
    assert_eq!(sb.list_tasks()[0].status, "exited (-9)");
    sb.end_task("t1", TaskEnd::NotStarted("no podman".into()));
    assert_eq!(sb.list_tasks()[0].status, "failed: no podman");
    assert_eq!(SessionSandbox::background_script("npm start"), "npm start 2>&1");
    let id = sb.spawn_background("sleep 1");
    assert_eq!(sb.list_tasks().len(), 2);
    assert!(sb.list_tasks().iter().any(|t| t.id == id));
    let big = "a".repeat(LOG_BYTES);
    let grown = grow_log(&big, "xyz").unwrap();
    assert_eq!(grown.len(), LOG_BYTES);
    assert!(grown.ends_with("axyz"));
}

#[test]
fn terminals_come_and_go() {
    let mut sb = SessionSandbox::attach("c", "/w");
    assert_eq!(sb.spawn_pty("pty-1", "top", Ok(())), Ok("pty-1".to_string()));
    assert_eq!(sb.spawn_pty("pty-2", "top", Err("no tty".into())), Err("no tty".to_string()));
    assert_eq!(sb.list_terminals(), vec![("pty-1".to_string(), "top".to_string(), true)]);
    assert!(sb.get_terminal("pty-1").is_some());
    assert!(sb.kill_terminal("pty-1"));
    assert!(!sb.kill_terminal("pty-1"));
    assert!(sb.get_terminal("pty-1").is_none());
    assert!(SessionSandbox::terminal_id().len() > 5);
}

// --- WebAssembly -----------------------------------------------------------------

#[test]
fn create_sandbox() {
    let sandbox = WasmtimeSandbox::new().unwrap();
    assert!(sandbox.tool_names().is_empty());
}

#[test]
fn precompile_invalid_wasm() {
    let mut sandbox = WasmtimeSandbox::new().unwrap();
    let result = sandbox.precompile_tool("bad", b"not valid wasm");
    assert!(result.is_err());
}

#[test]
fn has_tool_and_list() {
    let mut sandbox = WasmtimeSandbox::new().unwrap();
    assert!(!sandbox.has_tool("test"));
    sandbox.precompile_tool("test", b"\0asm\x01\0\0\0").unwrap();
    assert!(sandbox.has_tool("test"));
    assert_eq!(sandbox.tool_names(), vec!["test"]);
}

#[test]
fn compiled_tools_use_up_the_fuel_of_their_sandbox() {
    let endless = b"\0asm\x01\0\0\0\x01\x04\x01\x60\0\0\x03\x02\x01\0\x07\x0a\x01\x06_start\0\0\x0a\x09\x01\x07\0\x03\x40\x0c\0\x0b\x0b";
    let mut sandbox = WasmtimeSandbox::new().unwrap();
    sandbox.precompile_tool("endless", endless).unwrap();
    let module = sandbox.module_of("endless").unwrap();
    assert!(wasmtime::Engine::same(module.engine(), sandbox.engine()));
    let mut store = wasmtime::Store::new(sandbox.engine(), ());
    store.set_fuel(1000).unwrap();
    let instance = wasmtime::Instance::new(&mut store, module, &[]).unwrap();
    let start = instance.get_typed_func::<(), ()>(&mut store, "_start").unwrap();
    assert!(start.call(&mut store, ()).is_err());
    assert_eq!(store.get_fuel().unwrap(), 0);
}

#[test]
fn execute_nonexistent_tool() {
    let sandbox = WasmtimeSandbox::new().unwrap();
    assert!(matches!(sandbox.module_of("ghost"), Err(IsolationError::ToolNotFound(_))));
}

#[test]
fn runs_end_as_they_ended() {
    let input = parse("{\"a\":1}").unwrap();
    assert_eq!(WasmtimeSandbox::input_text(&input), "{\"a\":1}");
    assert!(matches!(WasmtimeSandbox::execute("t", RunEnd::FuelRefused("f".into())), Err(IsolationError::FuelError(_))));
    assert!(matches!(
        WasmtimeSandbox::execute("t", RunEnd::NoEntry),
        Err(IsolationError::MissingExport { tool, .. }) if tool == "t"
    ));
    assert!(matches!(
        WasmtimeSandbox::execute("t", RunEnd::NotInstantiated("n".into())),
        Err(IsolationError::InstantiationFailed(_))
    ));
    assert!(WasmtimeSandbox::execute("t", RunEnd::Stopped("all fuel consumed by WebAssembly".into())).is_err());
    assert!(WasmtimeSandbox::execute("t", RunEnd::Finished).is_ok());
}
