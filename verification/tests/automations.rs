use axocoatl::daemon::automation::{
    Automation, AutomationEdge, AutomationNode, AutomationNodeKind, AutomationTrigger, BranchExpr, ConditionalBranch,
    NodeInput,
};
use axocoatl::daemon::automation_executor::{
    parse_list, pick_branch, resolve_node_input, resolve_node_input_with_item, write_list,
};
use axocoatl::daemon::automation_runs::{
    final_status, run_path, sanitize, AutomationRunStore, Checkpoint, CheckpointEvent, ForkSource, RunStatus,
};
use axocoatl::daemon::automation_store::{is_under, validate_folder_path, AutomationFolder, AutomationStore, StoreError};
use axocoatl::daemon::interrupt::PendingInterrupt;

fn agent(id: &str, input: NodeInput) -> AutomationNode {
    AutomationNode { id: id.into(), kind: AutomationNodeKind::Agent { agent_id: id.into(), input } }
}

fn pairs(v: &[(&str, &str)]) -> Vec<(String, String)> {
    v.iter().map(|p| (p.0.to_string(), p.1.to_string())).collect()
}

fn auto(id: &str) -> Automation {
    Automation {
        id: id.into(),
        name: id.into(),
        description: None,
        nodes: vec![AutomationNode {
            id: "n1".into(),
            kind: AutomationNodeKind::Agent { agent_id: "coder".into(), input: NodeInput::FromTrigger },
        }],
        edges: vec![],
        trigger: AutomationTrigger::Manual,
        enabled: true,
        folder: None,
    }
}

fn empty() -> AutomationStore {
    AutomationStore::from_lists(vec![], vec![])
}

/// A store that is made from what another one lists.
fn reopened(s: &AutomationStore) -> AutomationStore {
    let automations = s
        .list()
        .into_iter()
        .map(|a| {
            let mut b = auto(&a.id);
            b.name = a.name.clone();
            b.folder = a.folder.clone();
            b
        })
        .collect();
    let folders = s.list_folders().into_iter().map(|f| f.copy()).collect();
    AutomationStore::from_lists(automations, folders)
}

#[test]
fn from_trigger_returns_the_trigger() {
    let n = agent("a", NodeInput::FromTrigger);
    assert_eq!(resolve_node_input(&n, "hi", &vec![]), "hi");
}

#[test]
fn literal_ignores_trigger() {
    let n = agent("a", NodeInput::Literal { value: "always this".into() });
    assert_eq!(resolve_node_input(&n, "ignored", &vec![]), "always this");
}

#[test]
fn from_upstream_joins_named_outputs() {
    let n = agent("a", NodeInput::FromUpstream { nodes: vec!["b".into(), "c".into()] });
    let map = pairs(&[("b", "first"), ("c", "second"), ("ignored", "nope")]);
    assert_eq!(resolve_node_input(&n, "x", &map), "first\n\nsecond");
}

#[test]
fn template_substitutes_trigger_and_nodes() {
    let n = agent("a", NodeInput::Template { template: "trigger: {{trigger}}\nb said: {{node:b}}".into() });
    let map = pairs(&[("b", "hello")]);
    assert_eq!(resolve_node_input(&n, "do thing", &map), "trigger: do thing\nb said: hello");
}

#[test]
fn map_bodies_see_their_item() {
    let n = agent("a", NodeInput::FromMapItem);
    let item = "one".to_string();
    assert_eq!(resolve_node_input_with_item(&n, "t", &vec![], Some(&item)), "one");
}

#[test]
fn pick_branch_first_match_wins() {
    let branches = vec![
        ConditionalBranch { name: "ok".into(), when: BranchExpr::Contains { value: "good".into() } },
        ConditionalBranch { name: "err".into(), when: BranchExpr::Contains { value: "error".into() } },
    ];
    assert_eq!(pick_branch("all good", &branches, None).as_deref(), Some("ok"));
    assert_eq!(pick_branch("got error", &branches, None).as_deref(), Some("err"));
    assert_eq!(pick_branch("nothing", &branches, None), None);
    assert_eq!(pick_branch("nothing", &branches, Some("default")).as_deref(), Some("default"));
}

#[test]
fn lists_are_read_from_json_or_lines() {
    assert_eq!(parse_list("[\"a\", \"b\"]"), vec!["a", "b"]);
    assert_eq!(parse_list("one\n\n  two  \n"), vec!["one", "two"]);
    assert!(parse_list("").is_empty());
}

#[test]
fn interrupts_are_found_by_automation_run_and_node() {
    let p = PendingInterrupt::at("auto", "run", "node", "what now?", 7);
    assert_eq!(p.key(), "auto:run:node");
    assert_eq!(p.created_at_unix, 7);
    assert_eq!(p.message, "what now?");
    let p = PendingInterrupt::park("auto", "run", "node", "what now?");
    assert!(p.created_at_unix > 1_600_000_000);
}

// --- Runs ------------------------------------------------------------------

#[test]
fn start_checkpoint_finish_roundtrip() {
    let mut store = AutomationRunStore::new();
    store.start("auto1", "run-a", "hello", None);
    let run = store.load("auto1", "run-a").unwrap();
    assert_eq!(run.status, RunStatus::Running);
    assert_eq!(run.checkpoints.len(), 0);

    store
        .checkpoint(
            "auto1",
            "run-a",
            Checkpoint {
                step_idx: 0,
                node_id: "n1".into(),
                event: CheckpointEvent::NodeCompleted,
                outputs: pairs(&[("n1", "step output")]),
                active_edges: vec![],
                at_unix: 0,
            },
        )
        .unwrap();
    store.finish("auto1", "run-a", RunStatus::Completed).unwrap();

    let runs = store.list("auto1");
    assert_eq!(runs.len(), 1);
    assert_eq!(runs[0].status, RunStatus::Completed);
    assert_eq!(runs[0].checkpoints.len(), 1);
    assert_eq!(runs[0].checkpoints[0].outputs[0], ("n1".to_string(), "step output".to_string()));
    assert!(runs[0].finished_at_unix.is_some());
    assert!(runs[0].started_at_unix > 1_600_000_000);
}

#[test]
fn fork_records_source() {
    let mut store = AutomationRunStore::new();
    store.start("a", "run-1", "x", None);
    store.start("a", "run-2", "x", Some(ForkSource { source_run_id: "run-1".into(), from_step: 2 }));
    let r2 = store.load("a", "run-2").unwrap();
    assert!(r2.forked_from.is_some());
    assert_eq!(r2.forked_from.as_ref().unwrap().source_run_id, "run-1");
}

#[test]
fn runs_are_listed_newest_first_and_missing_ones_are_named() {
    let mut store = AutomationRunStore::new();
    store.start_at("a", "old", "x", None, 10);
    store.start_at("a", "new", "x", None, 20);
    store.start_at("b", "other", "x", None, 30);
    let ids: Vec<&str> = store.list("a").into_iter().map(|r| r.run_id.as_str()).collect();
    assert_eq!(ids, vec!["new", "old"]);

    store.mark_interrupted("a", "old").unwrap();
    assert_eq!(store.load("a", "old").unwrap().status, RunStatus::Interrupted);
    store.mark_running("a", "old").unwrap();
    assert_eq!(store.load("a", "old").unwrap().status, RunStatus::Running);
    store.finish_at("a", "old", RunStatus::Failed, 99).unwrap();
    assert_eq!(store.load("a", "old").unwrap().finished_at_unix, Some(99));

    let e = store.mark_running("a", "none").unwrap_err();
    assert_eq!(e.message(), "run 'none' not found");
    assert!(store.list("nobody").is_empty());
    assert_eq!(final_status(true), RunStatus::Completed);
    assert_eq!(final_status(false), RunStatus::Failed);
}

#[test]
fn ids_become_file_names() {
    assert_eq!(sanitize("a/b\\c d"), "a_b_c_d");
    assert_eq!(sanitize("run-1_x.y:z"), "run-1_x.y:z");
    assert_eq!(sanitize("."), "_");
    assert_eq!(sanitize(".."), "__");
    assert_eq!(sanitize("..."), "...");
    assert_eq!(run_path("..", "r"), "__/r.json");
    assert_eq!(run_path("../evil", "r 1"), ".._evil/r_1.json");
}

// --- The store of automations ------------------------------------------------

#[test]
fn open_empty_then_create_then_reload() {
    let mut s = empty();
    assert!(s.is_empty());
    s.create(auto("hello")).unwrap();
    assert_eq!(s.len(), 1);
    let s2 = reopened(&s);
    assert_eq!(s2.len(), 1);
    assert_eq!(s2.get("hello").unwrap().name, "hello");
}

#[test]
fn create_rejects_duplicate() {
    let mut s = empty();
    s.create(auto("x")).unwrap();
    assert!(matches!(s.create(auto("x")), Err(StoreError::Conflict(_))));
}

#[test]
fn upsert_replaces_existing() {
    let mut s = empty();
    s.create(auto("x")).unwrap();
    let mut updated = auto("x");
    updated.name = "renamed".into();
    s.upsert(updated);
    assert_eq!(s.get("x").unwrap().name, "renamed");
}

#[test]
fn delete_actually_persists() {
    let mut s = empty();
    s.create(auto("a")).unwrap();
    s.create(auto("b")).unwrap();
    s.delete("a").unwrap();
    let s2 = reopened(&s);
    assert_eq!(s2.len(), 1);
    assert!(s2.get("a").is_none());
    assert!(s2.get("b").is_some());
}

#[test]
fn folders_create_and_auto_create_ancestors() {
    let mut s = empty();
    s.create_folder("client/spec-reviews/v2", None).unwrap();
    let paths: Vec<String> = s.list_folders().into_iter().map(|f| f.path.clone()).collect();
    assert!(paths.contains(&"client".to_string()));
    assert!(paths.contains(&"client/spec-reviews".to_string()));
    assert!(paths.contains(&"client/spec-reviews/v2".to_string()));
    assert_eq!(paths.len(), 3);
}

#[test]
fn folders_survive_reopen() {
    let mut s = empty();
    s.create_folder("empty/scaffold", None).unwrap();
    let reopen = reopened(&s);
    assert_eq!(reopen.list_folders().len(), 2);
}

#[test]
fn rename_folder_migrates_automations_and_subfolders() {
    let mut s = empty();
    s.create_folder("client/v1", None).unwrap();
    let mut a = auto("rev-1");
    a.folder = Some("client/v1".into());
    s.create(a).unwrap();
    s.rename_folder("client", "customer", None).unwrap();
    assert!(s.list_folders().iter().any(|f| f.path == "customer"));
    assert!(s.list_folders().iter().any(|f| f.path == "customer/v1"));
    assert_eq!(s.get("rev-1").unwrap().folder.as_deref(), Some("customer/v1"));
}

#[test]
fn delete_folder_keep_contents_reparents() {
    let mut s = empty();
    s.create_folder("a/b", None).unwrap();
    let mut au = auto("x");
    au.folder = Some("a/b".into());
    s.create(au).unwrap();
    s.delete_folder("a/b", true).unwrap();
    assert!(!s.list_folders().iter().any(|f| f.path == "a/b"));
    assert_eq!(s.get("x").unwrap().folder.as_deref(), Some("a"));
}

#[test]
fn delete_folder_recursive_removes_everything() {
    let mut s = empty();
    s.create_folder("doomed/sub", None).unwrap();
    let mut au = auto("y");
    au.folder = Some("doomed/sub".into());
    s.create(au).unwrap();
    let count = s.delete_folder("doomed", false).unwrap();
    assert_eq!(count, 1);
    assert!(s.get("y").is_none());
    assert_eq!(s.list_folders().len(), 0);
}

#[test]
fn renaming_back_restores_the_folders() {
    let mut s = empty();
    s.create_folder("a/b/c", None).unwrap();
    let mut au = auto("x");
    au.folder = Some("a/b/c".into());
    s.create(au).unwrap();
    s.rename_folder("a/b", "z", None).unwrap();
    assert_eq!(s.get("x").unwrap().folder.as_deref(), Some("z/c"));
    s.rename_folder("z", "a/b", None).unwrap();
    assert_eq!(s.get("x").unwrap().folder.as_deref(), Some("a/b/c"));
}

#[test]
fn each_refusal_of_the_store_is_named() {
    let mut s = empty();
    assert_eq!(s.delete("x").unwrap_err().message(), "automation 'x' not found");
    s.create(auto("x")).unwrap();
    assert_eq!(s.create(auto("x")).unwrap_err().message(), "automation 'x' already exists");
    assert_eq!(s.delete_folder("f", true).unwrap_err().message(), "folder 'f' not found");
    s.create_folder("f", None).unwrap();
    s.create_folder("g", None).unwrap();
    assert_eq!(s.rename_folder("f", "g", None).unwrap_err().message(), "folder 'g' already exists");
    assert_eq!(
        s.create_folder("/f", None).unwrap_err().message(),
        "invalid folder path: leading or trailing slash: '/f'"
    );
    assert!(validate_folder_path("a//b").is_err());
    assert!(validate_folder_path("a/../b").is_err());
    assert!(validate_folder_path("a\\b").is_err());
    assert!(validate_folder_path("a/b").is_ok());
    assert!(is_under("a/b", "a"));
    assert!(!is_under("ab", "a"));
}

#[test]
fn automations_are_filed_in_new_folders() {
    let mut s = empty();
    s.create(auto("x")).unwrap();
    s.set_automation_folder("x", Some("new/place".into())).unwrap();
    assert_eq!(s.get("x").unwrap().folder.as_deref(), Some("new/place"));
    assert_eq!(s.list_folders().len(), 2);
    s.set_automation_folder("x", None).unwrap();
    assert_eq!(s.get("x").unwrap().folder, None);
    assert!(s.set_automation_folder("nobody", None).is_err());
    assert!(s.set_automation_folder("x", Some("a//b".into())).is_err());
    assert_eq!(s.get("x").unwrap().folder, None);
}

#[test]
fn seeding_fills_an_empty_store_only() {
    let mut s = empty();
    assert!(s.seed_if_empty(vec![auto("a"), auto("b")]));
    assert!(!s.seed_if_empty(vec![auto("c")]));
    assert_eq!(s.len(), 2);
    let names: Vec<&str> = s.list().into_iter().map(|a| a.id.as_str()).collect();
    assert_eq!(names, vec!["a", "b"]);
}

#[test]
fn folder_names_are_kept() {
    let f = AutomationFolder { path: "a".into(), name: Some("Shown".into()) };
    let s = AutomationStore::from_lists(vec![], vec![f]);
    assert_eq!(s.list_folders()[0].name.as_deref(), Some("Shown"));
}

#[test]
fn map_bodies_are_told_apart() {
    let mut a = auto("m");
    a.nodes.push(AutomationNode {
        id: "each".into(),
        kind: AutomationNodeKind::Mapping { input: NodeInput::FromTrigger, body_node: "n1".into() },
    });
    a.edges.push(AutomationEdge { from: "n1".into(), to: "each".into(), label: None });
    assert!(a.is_map_body("n1"));
    assert!(!a.is_map_body("each"));
    assert!(a.node("each").is_some());
    assert!(a.node("none").is_none());
}

#[test]
fn written_lists_are_read_back() {
    let items: Vec<String> = vec!["one".into(), "two\nlines".into(), " \"quoted\" ".into(), "".into()];
    assert_eq!(write_list(&items), "[\"one\",\"two\\nlines\",\" \\\"quoted\\\" \",\"\"]");
    assert_eq!(parse_list(&write_list(&items)), items);
    assert!(parse_list(&write_list(&Vec::new())).is_empty());
}
