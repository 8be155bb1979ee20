use axocoatl::daemon::automation::{
    Automation, AutomationEdge, AutomationNode, AutomationNodeKind, AutomationTrigger, BranchExpr, ConditionalBranch,
    NodeInput, ResumeStrategy,
};
use axocoatl::daemon::automation_executor::DaemonError;
use axocoatl::daemon::config::{
    AgentRole, AgentSettings, AxocoatlConfig, KeyedProvider, McpServer, OllamaSettings, ProviderSettings,
    SandboxSettings, WorkflowSettings,
};
use axocoatl::daemon::consolidation::{Consolidation, ConsolidationClock};
use axocoatl::daemon::execution::{
    read_tool_args, tool_reply, unknown_agent, unknown_subgraph, AgentOutput, Ask, Effect, Execution, Reply, WorkflowOutput,
};
use axocoatl::daemon::frames::{stream_agent_run, StreamChunk, StreamFrame};
use axocoatl::daemon::sessions::{
    build_session_executor, execute_session, execute_session_streaming, no_session, rewind_session, scoped_agent, session_agent,
    session_messages, session_tasks, SessionTurn, TurnPlan,
};
use axocoatl::daemon::startup::{
    bootstrap, check_chat_agent, data_paths, dead_agents, demo_session, lattice_params, log_event, restart_agent,
    sandbox_policy, server_transport, session_provider, setup_providers, Behavior, Decay, ProviderChoice, Threshold,
    Transport, DEMO_SESSION, EVENT_LOG_LEN,
};
use axocoatl::daemon::topology::topo_order;
use axocoatl::daemon::variants::{execute_session_variants, primary_session_agent, variant_ended};
use axocoatl::daemon::webhook::{
    active_sinks, backoff, backoff_at, decide, decide_at, host_of, is_retryable_status, make_delivery, new_delivery, recipients,
    retry_after, sign, EventNotification, NextMove, Outcome, Sink, WebhookConfig, MAX_ATTEMPTS,
};
use axocoatl::daemon::workflows::{execute_workflow, workflow_timed_out, WORKFLOW_SECS};
use axocoatl::isolation::session_sandbox::{SandboxNetwork, SessionSandbox};
use axocoatl::json::{parse, render, Json};
use axocoatl::llm::provider::TokenUsageStats;
use axocoatl::session::{Session, SessionMode, SessionStatus};

fn names(v: &[&str]) -> Vec<String> {
    v.iter().map(|s| s.to_string()).collect()
}

fn agent(id: &str, provider: &str, needs: &[&str]) -> AgentSettings {
    AgentSettings {
        id: id.into(),
        name: id.to_uppercase(),
        provider: provider.into(),
        model: String::new(),
        role: AgentRole::Solo,
        depends_on: names(needs),
        system_prompt: None,
        tools: vec![],
        token_budget: None,
        activation_threshold: None,
        activation_decay: None,
    }
}

fn providers() -> ProviderSettings {
    ProviderSettings {
        openai: Some(KeyedProvider { api_key: "k".into(), fallback: None }),
        openrouter: None,
        anthropic: None,
        anthropic_model: "sonnet".into(),
        gemini: None,
        mistral: None,
        ollama: None,
    }
}

fn config(agents: Vec<AgentSettings>) -> AxocoatlConfig {
    let ids = agents.iter().map(|a| a.id.clone()).collect();
    AxocoatlConfig {
        agents,
        workflows: vec![WorkflowSettings { id: "wf".into(), agents: ids, entry_point: None, htn_methods_file: None }],
        providers: providers(),
        mcp_servers: vec![],
        sandbox: SandboxSettings {
            allow_post_create_command: false,
            allow_untrusted_images: false,
            network: "none".into(),
            require_resource_limits: true,
        },
        skills: names(&["lint"]),
        web_search: false,
    }
}

fn session(mode: SessionMode) -> Session {
    Session {
        id: "s1".into(),
        name: "s".into(),
        working_dir: "/w".into(),
        mode,
        status: SessionStatus::Active,
        enabled_skills: names(&["lint", "unknown"]),
        exposed_ports: vec![],
        image: None,
        post_create_commands: vec![],
        created_at: 1,
        last_active: 1,
    }
}

fn output(content: &str) -> AgentOutput {
    AgentOutput { content: content.into(), token_usage: TokenUsageStats::new(3, 4), total_tokens: 7 }
}

// --- Runs of automations -----------------------------------------------------------

fn node(id: &str, kind: AutomationNodeKind) -> AutomationNode {
    AutomationNode { id: id.into(), kind }
}

fn automation(nodes: Vec<AutomationNode>, edges: &[(&str, &str, Option<&str>)]) -> Automation {
    Automation {
        id: "auto".into(),
        name: "auto".into(),
        description: None,
        nodes,
        edges: edges
            .iter()
            .map(|e| AutomationEdge { from: e.0.into(), to: e.1.into(), label: e.2.map(|l| l.to_string()) })
            .collect(),
        trigger: AutomationTrigger::Manual,
        enabled: true,
        folder: None,
    }
}

/// Runs an automation with agents that answer in capitals, and gives what was
/// asked for, the kinds of checkpoints and the result.
fn run(a: &Automation, order: &[&str], trigger: &str) -> (Vec<String>, usize, WorkflowOutput) {
    let mut x = Execution::start(a, names(order), trigger, vec![], 0).unwrap();
    let mut asked = Vec::new();
    let mut checkpoints = 0;
    for _ in 0..200 {
        let step = x.step(1);
        let mut effects = step.effects;
        match step.ask {
            Ask::Finished => break,
            Ask::GoOn => {}
            Ask::Waiting => panic!("an answer is owed"),
            Ask::Agent { agent_id, input, .. } => {
                asked.push(format!("{agent_id}<{input}"));
                let answer = if agent_id == "broken" {
                    Err(DaemonError::WorkflowExecution("boom".into()))
                } else {
                    Ok(output(&input.to_uppercase()))
                };
                effects.extend(x.reply(Reply::Agent(answer), 1).unwrap());
            }
            Ask::Tool { tool_id, args } => {
                asked.push(format!("tool {tool_id}<{}", render(&args)));
                effects.extend(x.reply(Reply::Text(Ok("done".into())), 1).unwrap());
            }
            Ask::Subgraph { automation_id, input, depth } => {
                asked.push(format!("sub {automation_id}@{depth}<{input}"));
                effects.extend(x.reply(Reply::Text(Ok("inner".into())), 1).unwrap());
            }
            Ask::Operator { message, .. } => {
                asked.push(format!("operator<{message}"));
                effects.extend(x.reply(Reply::Resume("approved".into()), 1).unwrap());
            }
        }
        checkpoints += effects.iter().filter(|e| matches!(e, Effect::Checkpoint(_))).count();
    }
    (asked, checkpoints, x.finish())
}

fn agent_node(id: &str, input: NodeInput) -> AutomationNode {
    node(id, AutomationNodeKind::Agent { agent_id: id.into(), input })
}

#[test]
fn agents_run_one_after_another() {
    let a = automation(
        vec![
            agent_node("plan", NodeInput::FromTrigger),
            agent_node("code", NodeInput::FromUpstream { nodes: names(&["plan"]) }),
        ],
        &[("plan", "code", None)],
    );
    let (asked, checkpoints, out) = run(&a, &["plan", "code"], "go");
    assert_eq!(asked, vec!["plan<go", "code<GO"]);
    assert_eq!(checkpoints, 2);
    assert_eq!(out.final_content, "GO");
    assert_eq!(out.completed_agents, vec!["plan", "code"]);
    assert_eq!(out.total_token_usage.input_tokens, 6);
    assert!(out.failed_agents.is_empty());
}

#[test]
fn branches_open_only_their_label() {
    let a = automation(
        vec![
            node(
                "if",
                AutomationNodeKind::Conditional {
                    input: NodeInput::FromTrigger,
                    branches: vec![ConditionalBranch {
                        name: "yes".into(),
                        when: BranchExpr::Contains { value: "go".into() },
                    }],
                    default: Some("no".into()),
                },
            ),
            agent_node("a", NodeInput::FromTrigger),
            agent_node("b", NodeInput::FromTrigger),
        ],
        &[("if", "a", Some("yes")), ("if", "b", Some("no"))],
    );
    assert_eq!(run(&a, &["if", "a", "b"], "go on").0, vec!["a<go on"]);
    assert_eq!(run(&a, &["if", "a", "b"], "stop").0, vec!["b<stop"]);
}

#[test]
fn failures_are_recorded_and_the_run_goes_on() {
    let a = automation(
        vec![agent_node("broken", NodeInput::FromTrigger), agent_node("next", NodeInput::FromTrigger)],
        &[("broken", "next", None)],
    );
    let (asked, _, out) = run(&a, &["broken", "next"], "x");
    assert_eq!(asked, vec!["broken<x", "next<x"]);
    assert_eq!(out.failed_agents.len(), 1);
    assert_eq!(out.failed_agents[0].0, "broken");
    assert_eq!(out.completed_agents, vec!["next"]);
}

#[test]
fn maps_tools_subgraphs_and_operators_take_part() {
    let a = automation(
        vec![
            node("each", AutomationNodeKind::Mapping { input: NodeInput::FromTrigger, body_node: "body".into() }),
            agent_node("body", NodeInput::FromMapItem),
            node("t", AutomationNodeKind::Tool { tool_id: "grep".into(), input: NodeInput::Literal { value: "{\"a\":1}".into() } }),
            node("s", AutomationNodeKind::Subgraph { automation_id: "other".into(), input: NodeInput::FromTrigger }),
            node("h", AutomationNodeKind::Interrupt { input: NodeInput::Literal { value: "ok?".into() }, resume_strategy: ResumeStrategy::Replace }),
        ],
        &[],
    );
    let (asked, _, out) = run(&a, &["each", "body", "t", "s", "h"], "one\ntwo");
    assert_eq!(
        asked,
        vec!["body<one", "body<two", "tool grep<{\"a\":1}", "sub other@1<one\ntwo", "operator<ok?"]
    );
    assert!(out.completed_agents.contains(&"map:each (2 items)".to_string()));
    assert!(out.completed_agents.contains(&"tool:grep".to_string()));
    assert!(out.completed_agents.contains(&"subgraph:other".to_string()));
    assert!(out.completed_agents.contains(&"interrupt:h".to_string()));
}

#[test]
fn inputs_of_a_run_override_their_defaults() {
    let a = automation(
        vec![
            node("in", AutomationNodeKind::TextInput { default_value: Some("dflt".into()) }),
            agent_node("a", NodeInput::FromUpstream { nodes: names(&["in"]) }),
        ],
        &[("in", "a", None)],
    );
    assert_eq!(run(&a, &["in", "a"], "t").0, vec!["a<dflt"]);
    let given = vec![("in".to_string(), "given".to_string())];
    let mut x = Execution::start(&a, names(&["in", "a"]), "t", given, 0).unwrap();
    loop {
        match x.step(1).ask {
            Ask::Agent { input, .. } => {
                assert_eq!(input, "given");
                break;
            }
            Ask::GoOn => {}
            _ => panic!("expected the agent"),
        }
    }
    assert!(x.reply(Reply::Cancel, 1).is_none());
}

#[test]
fn runs_do_not_nest_without_end() {
    let a = automation(vec![], &[]);
    assert!(Execution::start(&a, vec![], "t", vec![], 8).is_ok());
    match Execution::start(&a, vec![], "t", vec![], 9) {
        Err(DaemonError::WorkflowExecution(m)) => assert!(m.contains("exceeded max subgraph depth (8)")),
        _ => panic!("expected a refusal"),
    }
    assert_eq!(render(&read_tool_args("{\"a\":1}")), "{\"a\":1}");
    assert_eq!(render(&read_tool_args("plain")), "{\"input\":\"plain\"}");
    assert!(tool_reply("t", Err("x".into())).is_err());
    assert_eq!(tool_reply("t", Ok(Json::text("s"))).unwrap(), "\"s\"");
    assert!(matches!(unknown_agent("auto", "x"), DaemonError::AgentSpawn(m)
        if m == "automation 'auto' references unknown agent 'x'"));
    assert!(matches!(unknown_subgraph("x"), DaemonError::WorkflowExecution(m)
        if m == "subgraph references unknown automation 'x'"));
}

// --- Starting ------------------------------------------------------------------------

#[test]
fn bootstrap_fails_with_missing_provider() {
    let c = config(vec![agent("a", "anthropic", &[])]);
    assert!(matches!(bootstrap(&c, 1000), Err(DaemonError::Provider(_)) | Err(DaemonError::AgentSpawn(_))));
}

#[test]
fn bootstrap_plans_every_agent() {
    let mut c = config(vec![agent("lead", "openai", &[]), agent("w", "openai", &["lead"])]);
    c.agents[0].role = AgentRole::Coordinator;
    c.agents[1].role = AgentRole::Worker;
    c.workflows[0].entry_point = Some("lead".into());
    c.mcp_servers = vec![
        McpServer {
            name: "m".into(),
            transport: "stdio".into(),
            command: Some("srv".into()),
            args: names(&["-x"]),
            url: None,
            headers: vec![],
        },
    ];
    let plan = bootstrap(&c, 1000).unwrap();
    assert_eq!(plan.tools, vec!["echo", "json_keys", "text_split"]);
    assert_eq!(plan.providers.len(), 1);
    assert_eq!(plan.providers[0].id, "openai");
    assert_eq!(plan.servers.len(), 1);
    assert!(matches!(&plan.servers[0].1, Transport::Stdio { command, .. } if command == "srv"));
    let lead = plan.agents.iter().find(|p| p.agent_id == "lead").unwrap();
    assert!(matches!(&lead.provider, ProviderChoice::Registered(id) if id == "openai"));
    match &lead.behavior {
        Behavior::Coordinator { workers, .. } => {
            assert_eq!(workers.len(), 1);
            assert_eq!(workers[0].id, "w");
            assert_eq!(workers[0].token_budget, 1000);
        }
        _ => panic!("expected a coordinator"),
    }
    assert!(restart_agent("nobody", &c, &names(&["openai"]), 1000).is_err());
    assert_eq!(restart_agent("lead", &c, &names(&["openai"]), 1000).unwrap().agent_id, "lead");
}

#[test]
fn providers_are_registered_with_default_models() {
    let mut p = providers();
    p.anthropic = Some(KeyedProvider { api_key: "a".into(), fallback: None });
    p.gemini = Some(KeyedProvider { api_key: "g".into(), fallback: None });
    let r = setup_providers(&p);
    let got: Vec<(&str, &str)> = r.iter().map(|x| (x.id.as_str(), x.model.as_str())).collect();
    assert_eq!(got, vec![("openai", "gpt-4o"), ("anthropic", "sonnet"), ("gemini", "gemini-2.5-flash")]);
    p.ollama = Some(OllamaSettings { base_url: "http://o".into(), model: None });
    match session_provider(&agent("a", "ollama", &[]), &p, &vec![]) {
        Ok(ProviderChoice::Ollama { base_url, model }) => assert_eq!((base_url.as_str(), model.as_str()), ("http://o", "llama3.2")),
        _ => panic!("expected the local provider"),
    }
    assert!(session_provider(&agent("a", "mistral", &[]), &p, &vec![]).is_err());
}

#[test]
fn small_rules_of_the_daemon() {
    let agents = vec![agent("a", "openai", &[]), agent("b", "openai", &[])];
    assert_eq!(dead_agents(&agents, &names(&["a"])), vec!["b"]);
    assert!(check_chat_agent(&agents, "a").is_ok());
    assert!(check_chat_agent(&agents, "z").is_err());
    let mode = demo_session(&vec![]).unwrap();
    assert!(matches!(mode, SessionMode::SingleAgent { agent_id } if agent_id == "coder"));
    assert!(demo_session(&names(&[DEMO_SESSION])).is_none());
    let p = sandbox_policy(&config(vec![]).sandbox);
    assert_eq!(p.network, SandboxNetwork::Isolated);
    assert!(p.require_resource_limits);
    let needy = agent("n", "openai", &["a", "b", "c"]);
    assert_eq!(lattice_params(&needy), (Threshold::Halves(3), Decay::Hundredth));
    assert_eq!(lattice_params(&agents[0]), (Threshold::Halves(2), Decay::Never));
    let own = AgentSettings { activation_threshold: Some(7), activation_decay: Some(8), ..needy };
    assert_eq!(lattice_params(&own), (Threshold::Given(7), Decay::Given(8)));
    let paths = data_paths("/d");
    assert_eq!((paths.chats.as_str(), paths.automations.as_str()), ("/d/chats", "/d/automations.json"));
    assert_eq!(paths.semantic, "/d/memory/semantic");
    let mut log: Vec<usize> = Vec::new();
    for i in 0..EVENT_LOG_LEN + 5 {
        log_event(&mut log, i);
    }
    assert_eq!(log.len(), EVENT_LOG_LEN);
    assert_eq!(log[0], 5);
    let web = McpServer {
        name: "w".into(),
        transport: "carrier-pigeon".into(),
        command: None,
        args: vec![],
        url: None,
        headers: vec![],
    };
    assert!(server_transport(&web).is_none());
}

#[test]
fn dependencies_run_first() {
    let settings = vec![agent("c", "p", &["b"]), agent("b", "p", &["a"]), agent("a", "p", &[])];
    assert_eq!(topo_order(&names(&["c", "b", "a"]), &settings), vec!["a", "b", "c"]);
    let circle = vec![agent("x", "p", &["y"]), agent("y", "p", &["x"])];
    assert_eq!(topo_order(&names(&["x", "y"]), &circle), vec!["x", "y"]);
    assert_eq!(topo_order(&names(&["q", "r"]), &vec![]), vec!["q", "r"]);
    let twice = vec![agent("m", "p", &["n", "n"]), agent("n", "p", &[])];
    assert_eq!(topo_order(&names(&["m", "n"]), &twice), vec!["n", "m"]);
}

#[test]
fn workflows_begin_with_who_depends_on_nobody() {
    let c = config(vec![agent("a", "openai", &[]), agent("b", "openai", &["a"])]);
    let plan = execute_workflow(&c, "wf", "go").unwrap();
    assert_eq!(plan.expected, vec!["a", "b"]);
    assert_eq!(plan.activated, vec!["a"]);
    assert_eq!(plan.depends_on.len(), 2);
    assert_eq!(plan.depends_on.get("a").map(|d| d.len()), Some(0));
    assert_eq!(plan.depends_on.get("b").map(|d| d.to_vec()), Some(vec!["a".to_string()]));
    assert!(matches!(execute_workflow(&c, "none", "go"), Err(DaemonError::WorkflowNotFound(_))));
    assert!(matches!(workflow_timed_out(), DaemonError::WorkflowTimeout(s) if s == WORKFLOW_SECS));
}

// --- Sessions ------------------------------------------------------------------------

#[test]
fn turns_pass_what_was_said_on() {
    let c = config(vec![agent("b", "openai", &["a"]), agent("a", "openai", &[])]);
    let s = session(SessionMode::Lattice { workflow_id: Some("wf".into()) });
    let order = match execute_session_streaming(&c, &s, None).unwrap() {
        TurnPlan::Many(v) => v,
        _ => panic!("expected many"),
    };
    assert_eq!(order, vec!["a", "b"]);
    let mut turn = SessionTurn::start("s1", "do it", order);
    let (who, said, _) = turn.next().unwrap();
    assert_eq!((who.as_str(), said.as_str()), ("a", "do it"));
    turn.done(output("first"));
    let (who, said, _) = turn.next().unwrap();
    assert_eq!(who, "b");
    assert!(said.contains("do it") && said.contains("first"));
    turn.done(output("second"));
    assert!(turn.next().is_none());
    assert_eq!(turn.finish().unwrap().content, "second");
}

#[test]
fn modes_decide_who_works() {
    let c = config(vec![agent("a", "openai", &[])]);
    let single = session(SessionMode::SingleAgent { agent_id: "a".into() });
    assert!(matches!(execute_session_streaming(&c, &single, None), Ok(TurnPlan::Single(a)) if a == "a"));
    assert_eq!(execute_session(&single).unwrap(), "a");
    assert!(rewind_session(&single).is_ok());
    assert!(session_messages(&single).is_some());
    let nobody = session(SessionMode::Custom { agents: vec![] });
    match execute_session_streaming(&c, &nobody, None) {
        Err(DaemonError::Session(m)) => assert_eq!(m, "Custom mode has no agents selected"),
        _ => panic!("expected a refusal"),
    }
    assert!(rewind_session(&nobody).is_err());
    assert!(session_messages(&nobody).is_none());
    assert_eq!(scoped_agent("s1", "a"), "s1:a");
    assert!(session_agent(&c.agents, "a").is_ok());
    match session_agent(&c.agents, "z") {
        Err(DaemonError::Session(m)) => assert_eq!(m, "agent 'z' is not in the config"),
        _ => panic!("expected a refusal"),
    }
    let (skills, web) = build_session_executor(&c, &single);
    assert_eq!((skills, web), (names(&["lint"]), false));
}

#[test]
fn variants_run_the_entry_agent() {
    let c = config(vec![agent("a", "openai", &[])]);
    let s = session(SessionMode::Lattice { workflow_id: None });
    assert_eq!(primary_session_agent(&c, &s).unwrap(), "a");
    let plan = execute_session_variants(&c, &s, 2).unwrap();
    assert_eq!(plan.agent, "a");
    assert_eq!(plan.lanes[1], ("s1#1:a".to_string(), "s1#1".to_string()));
    match execute_session_variants(&c, &s, 0) {
        Err(DaemonError::Session(m)) => assert_eq!(m, "variant count must be between 1 and 100"),
        _ => panic!("expected a refusal"),
    }
    let nobody = session(SessionMode::Custom { agents: vec![] });
    assert!(execute_session_variants(&c, &nobody, 1).is_err());
    let mut chain = config(vec![agent("late", "openai", &["early"]), agent("early", "openai", &[])]);
    assert_eq!(primary_session_agent(&chain, &s).unwrap(), "early");
    let picked = session(SessionMode::Custom { agents: names(&["late", "early"]) });
    assert_eq!(primary_session_agent(&chain, &picked).unwrap(), "early");
    chain.workflows[0].entry_point = Some("late".into());
    assert_eq!(primary_session_agent(&chain, &s).unwrap(), "late");
    chain.workflows[0].agents.clear();
    assert!(primary_session_agent(&chain, &s).is_err());
    assert!(matches!(variant_ended("s1#0", Ok((3, 4))), StreamFrame::SessionDone { input_tokens: 3, output_tokens: 4, .. }));
    assert!(matches!(variant_ended("s1#0", Err("x".into())), StreamFrame::SessionError { error, .. } if error == "x"));
    assert!(matches!(no_session("q"), DaemonError::Session(m) if m == "session 'q' not found"));
}

#[test]
fn tasks_and_frames_are_told() {
    let mut sb = SessionSandbox::attach("c", "/w");
    sb.spawn_background_as("t1", "npm start");
    sb.spawn_pty("pty-1", "top", Ok(())).unwrap();
    let j = render(&session_tasks(Some(&sb)));
    assert!(j.contains("npm start") && j.contains("pty-1"));
    assert_eq!(render(&session_tasks(None)), "[]");
    match stream_agent_run(StreamChunk::Text("hi".into()), "run", "agent") {
        StreamFrame::Token { workflow, agent, delta } => {
            assert_eq!((workflow.as_str(), agent.as_str(), delta.as_str()), ("run", "agent", "hi"))
        }
        _ => panic!("expected a token"),
    }
}

#[test]
fn agents_are_tidied_once_per_interval() {
    let mut clock = ConsolidationClock::new(10);
    assert!(clock.is_due("a", 0));
    clock.record("a", Consolidation::Skipped, 0);
    assert!(clock.is_due("a", 0));
    clock.record("a", Consolidation::Ran, 0);
    assert!(!clock.is_due("a", 9_999_999_999));
    assert!(clock.is_due("a", 10_000_000_000));
    assert!(clock.is_due("b", 0));
}

// --- Webhooks ------------------------------------------------------------------------

fn hook(events: &[&str], secret: Option<&str>) -> WebhookConfig {
    WebhookConfig {
        name: "test".into(),
        url: "https://example.org/hook".into(),
        events: names(events),
        secret: secret.map(String::from),
        headers: vec![("x-own".into(), "1".into())],
        enabled: true,
    }
}

fn notice(name: &str) -> EventNotification {
    EventNotification {
        event_id: "evt-1".into(),
        event_name: name.into(),
        produced_by: "agent-x".into(),
        timestamp: 1_700_000_000,
        payload: parse("{\"status\":\"done\"}").unwrap(),
    }
}

fn header<'a>(headers: &'a [(String, String)], name: &str) -> Option<&'a str> {
    headers.iter().find(|h| h.0 == name).map(|h| h.1.as_str())
}

#[test]
fn sign_is_deterministic_hmac() {
    let a = sign("topsecret", b"{\"x\":1}");
    let b = sign("topsecret", b"{\"x\":1}");
    assert_eq!(a, b, "signing must be deterministic");
    assert_ne!(a, sign("other", b"{\"x\":1}"), "key changes the signature");
    assert_eq!(a.len(), 64, "SHA-256 hex is 64 chars");
    assert_eq!(
        sign("key", b"The quick brown fox jumps over the lazy dog"),
        "f7bc83f430538424b13298e6aa6fb143ef4d59a14946175997479dbc2d1a3cd8"
    );
}

#[test]
fn retryable_status_classification() {
    assert!(is_retryable_status(500));
    assert!(is_retryable_status(502));
    assert!(is_retryable_status(429));
    assert!(!is_retryable_status(400));
    assert!(!is_retryable_status(404));
}

#[test]
fn delivers_signed_payload_with_stable_schema() {
    let sinks = active_sinks(vec![hook(&["TaskCompleted"], Some("topsecret"))]);
    let n = notice("TaskCompleted");
    assert_eq!(recipients(&sinks, &n.event_name, false), vec![0]);
    let d = new_delivery(&sinks[0], &n);
    let body = parse(&d.body).unwrap();
    assert_eq!(body.at_key("event_type").as_str(), Some("TaskCompleted"));
    assert_eq!(body.at_key("event_id").as_str(), Some("evt-1"));
    assert_eq!(body.at_key("produced_by").as_str(), Some("agent-x"));
    assert_eq!(body.at_key("timestamp").as_u64(), Some(1_700_000_000));
    assert!(body.at_key("delivery_id").as_str().unwrap().len() > 10);
    assert_eq!(body.at_key("payload").at_key("status").as_str(), Some("done"));
    let signed = format!("sha256={}", sign("topsecret", d.body.as_bytes()));
    assert_eq!(header(&d.headers, "x-axocoatl-signature"), Some(signed.as_str()));
    assert_eq!(header(&d.headers, "x-axocoatl-event"), Some("TaskCompleted"));
    assert_eq!(header(&d.headers, "x-own"), Some("1"));
    let plain = make_delivery(&Sink::from_config(hook(&[], None)), &n, "id", 9);
    assert_eq!(header(&plain.headers, "x-axocoatl-signature"), None);
    assert_eq!(header(&plain.headers, "x-axocoatl-timestamp"), Some("9"));
}

#[test]
fn empty_filter_excludes_telemetry() {
    let sinks = active_sinks(vec![hook(&[], None)]);
    assert!(recipients(&sinks, "AgentActivated", true).is_empty());
    assert_eq!(recipients(&sinks, "TaskCompleted", false), vec![0]);
    let mut off = hook(&[], None);
    off.enabled = false;
    assert!(active_sinks(vec![off]).is_empty());
}

#[test]
fn custom_event_filters_by_its_own_name() {
    let sinks = active_sinks(vec![hook(&["CodeReady"], None)]);
    assert!(recipients(&sinks, "Unrelated", false).is_empty());
    assert_eq!(recipients(&sinks, "CodeReady", false), vec![0]);
}

#[test]
fn retries_on_server_error() {
    assert!(matches!(decide_at(1, Outcome::Status(500, None), 0), NextMove::RetryIn(_)));
    assert!(matches!(decide_at(1, Outcome::NoAnswer, 0), NextMove::RetryIn(_)));
    assert!(matches!(decide_at(MAX_ATTEMPTS, Outcome::Status(500, None), 0), NextMove::GiveUp));
    assert!(matches!(decide_at(1, Outcome::Status(200, None), 0), NextMove::Delivered));
    assert_eq!(retry_after(Some(" 7 ")), Some(7));
    assert_eq!(retry_after(Some("soon")), None);
    assert!(backoff_at(2, 0) > backoff_at(1, 0));
    let pause = backoff(1);
    assert!(pause >= 375 && pause <= 625);
    assert!(matches!(decide(1, Outcome::Status(503, Some(9))), NextMove::RetryIn(_)));
}

#[test]
fn does_not_retry_client_error() {
    assert!(matches!(decide_at(1, Outcome::Status(400, None), 0), NextMove::Rejected));
    assert_eq!(host_of("https://example.org/hook"), "example.org");
    assert_eq!(host_of("https://example.com?token=abc"), "example.com");
    assert_eq!(host_of("https://example.com:8080#part"), "example.com:8080");
    assert_eq!(host_of("example.com?token=abc"), "example.com");
    assert_eq!(host_of("localhost"), "localhost");
}
