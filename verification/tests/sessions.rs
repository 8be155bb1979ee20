use axocoatl::session::{
    default_exposed_ports, merge_ports, DevContainer, Place, SessionError, SessionMode, SessionStatus, SessionStore,
};

#[test]
fn create_list_and_persistence_roundtrip() {
    let mut store = SessionStore::new();
    let s = store
        .create(
            "build the CLI",
            "work",
            Place::Directory("/abs/work".into()),
            SessionMode::SingleAgent { agent_id: "coder".into() },
            Vec::new(),
            Vec::new(),
            None,
            None,
        )
        .unwrap();
    assert_eq!(store.len(), 1);
    assert!(s.working_dir.starts_with('/'));
    let mut again = SessionStore::new();
    for x in store.list() {
        again.load(x.copy());
    }
    assert_eq!(again.len(), 1);
    let reloaded = again.get(&s.id).unwrap();
    assert_eq!(reloaded.name, "build the CLI");
    assert_eq!(reloaded.status, SessionStatus::Active);
}

#[test]
fn rejects_nonexistent_working_dir() {
    let mut store = SessionStore::new();
    let err = store.create(
        "bad",
        "/no/such/axocoatl/dir",
        Place::Missing,
        SessionMode::Lattice { workflow_id: None },
        Vec::new(),
        Vec::new(),
        None,
        None,
    );
    assert!(matches!(err, Err(SessionError::BadWorkingDir(_))));
    let err = store.create(
        "bad",
        "/etc/hosts",
        Place::NotADirectory("/etc/hosts".into()),
        SessionMode::Lattice { workflow_id: None },
        Vec::new(),
        Vec::new(),
        None,
        None,
    );
    assert!(matches!(err, Err(SessionError::BadWorkingDir(_))));
    assert!(store.is_empty());
}

#[test]
fn close_and_remove() {
    let mut store = SessionStore::new();
    let s = store
        .create(
            "x",
            "/w",
            Place::Directory("/w".into()),
            SessionMode::Lattice { workflow_id: None },
            Vec::new(),
            Vec::new(),
            None,
            None,
        )
        .unwrap();
    store.close(&s.id).unwrap();
    assert_eq!(store.get(&s.id).unwrap().status, SessionStatus::Closed);
    store.remove(&s.id).unwrap();
    assert!(store.is_empty());
    assert!(matches!(store.remove(&s.id), Err(SessionError::NotFound(_))));
}

#[test]
fn sessions_take_what_their_container_asks_for() {
    let mut store = SessionStore::new();
    let s = store
        .create_at(
            "id1".into(),
            50,
            "x",
            "/w",
            Place::Directory("/w".into()),
            SessionMode::Custom { agents: vec!["a".into()] },
            vec!["skill".into()],
            vec![4000],
            None,
            Some(DevContainer {
                image: Some("node:20".into()),
                forwarded_ports: vec![4000, 4001],
                post_create_scripts: vec!["npm i".into()],
            }),
        )
        .unwrap();
    assert_eq!(s.id, "id1");
    assert_eq!(s.exposed_ports, vec![4000, 4001]);
    assert_eq!(s.image.as_deref(), Some("node:20"));
    assert_eq!(s.post_create_commands, vec!["npm i"]);
    store.touch_at("id1", 99).unwrap();
    assert_eq!(store.get("id1").unwrap().last_active, 99);
    assert_eq!(store.rename("id1", " new ").unwrap().name, "new");
    assert!(store.touch("none").is_err());
    assert_eq!(SessionError::NotFound("n".into()).message(), "session not found: n");
}

#[test]
fn ports_are_merged_once() {
    assert_eq!(merge_ports(vec![1, 2], &vec![2, 3, 3]), vec![1, 2, 3]);
    assert!(!default_exposed_ports().is_empty());
}
