use axocoatl::json::{parse, Json};
use axocoatl::llm::provider::{MessageRole, TokenUsageStats};
use axocoatl::memory::chat::{ChatError, ChatStore};
use axocoatl::memory::checkpoint::{version_of, AgentCheckpoint, CheckpointPolicy, CheckpointStore};
use axocoatl::memory::core_memory::{
    build_store, core_store_path, render_blocks, shared_blocks_dir, CoreMemoryStore, MemoryBlock, SharedBlockRegistry,
};
use axocoatl::memory::daily_log::DailyLogMemory;
use axocoatl::memory::error::MemoryError;
use axocoatl::memory::files::{extension, shard_dir, sidecar_name, FileStore};
use axocoatl::memory::long_term::{
    consolidate_facts_prompt, extract_facts_prompt, parse_extracted_facts, LongTermMemory, MemoryCategory, MAX_ENTRIES,
};
use axocoatl::memory::messages::StoredMessage;
use axocoatl::memory::perms::{restrict_dir, restrict_file};
use axocoatl::memory::semantic::{
    best, embed_hashed, fnv1a, reopen, store_file, Reopening, SemanticMemory, EMBED_DIM, HASHED_ID,
};
use axocoatl::memory::transcript::{
    list_sessions, read_transcript, transcript_file, TranscriptEntry, TranscriptEntryType,
};

fn msg(role: MessageRole, content: &str) -> StoredMessage {
    StoredMessage::plain(role, content, 7, content.split_whitespace().count())
}

fn names(v: &[&str]) -> Vec<String> {
    v.iter().map(|s| s.to_string()).collect()
}

// --- Chats -----------------------------------------------------------------------

#[test]
fn create_append_list_persistence_roundtrip() {
    let mut store = ChatStore::new();
    let c = store.create("secretary", "First chat");
    store.append_message(&c.id, msg(MessageRole::User, "hello")).unwrap();
    store.append_message(&c.id, msg(MessageRole::Assistant, "hi back")).unwrap();
    assert_eq!(store.get(&c.id).unwrap().messages.len(), 2);

    let mut reopened = ChatStore::new();
    for chat in store.list() {
        reopened.load(chat.copy());
    }
    assert_eq!(reopened.get(&c.id).unwrap().messages.len(), 2);
}

#[test]
fn fork_preserves_prefix_and_independence() {
    let mut store = ChatStore::new();
    let parent = store.create("secretary", "Parent");
    for i in 0..4 {
        store.append_message(&parent.id, msg(MessageRole::User, &format!("u{i}"))).unwrap();
    }
    let child = store.fork(&parent.id, 2, Some(msg(MessageRole::User, "edited"))).unwrap();
    assert_eq!(child.messages.len(), 3);
    assert_eq!(child.messages[0].content, "u0");
    assert_eq!(child.messages[1].content, "u1");
    assert_eq!(child.messages[2].content, "edited");
    assert_eq!(child.parent_id.as_deref(), Some(parent.id.as_str()));
    assert_eq!(child.forked_at_message, Some(2));
    assert_eq!(store.get(&parent.id).unwrap().messages.len(), 4);
}

#[test]
fn fork_out_of_range_errors() {
    let mut store = ChatStore::new();
    let p = store.create("secretary", "P");
    store.append_message(&p.id, msg(MessageRole::User, "x")).unwrap();
    let err = store.fork(&p.id, 99, None).unwrap_err();
    assert!(matches!(err, ChatError::BadIndex { .. }));
}

#[test]
fn search_matches_name_and_content() {
    let mut store = ChatStore::new();
    let a = store.create("secretary", "Q4 planning");
    let b = store.create("secretary", "Random");
    store.append_message(&b.id, msg(MessageRole::User, "we discussed Q4 ideas here")).unwrap();
    let hits = store.search("q4");
    let ids: Vec<&str> = hits.iter().map(|c| c.id.as_str()).collect();
    assert!(ids.contains(&a.id.as_str()));
    assert!(ids.contains(&b.id.as_str()));
}

#[test]
fn starred_chats_sort_to_top() {
    let mut store = ChatStore::new();
    let a = store.create_at("a".into(), 100, "secretary", "old");
    let b = store.create_at("b".into(), 101, "secretary", "newer");
    assert_eq!(store.list()[0].id, b.id);
    store.star(&a.id, true).unwrap();
    assert_eq!(store.list()[0].id, a.id);
}

#[test]
fn pop_last_returns_and_persists() {
    let mut store = ChatStore::new();
    let c = store.create("secretary", "x");
    store.append_message(&c.id, msg(MessageRole::User, "a")).unwrap();
    store.append_message(&c.id, msg(MessageRole::Assistant, "b")).unwrap();
    let popped = store.pop_last(&c.id).unwrap().unwrap();
    assert_eq!(popped.content, "b");
    assert_eq!(store.get(&c.id).unwrap().messages.len(), 1);
}

#[test]
fn chats_refuse_what_they_cannot_do() {
    let mut store = ChatStore::new();
    assert!(matches!(store.rename("none", "x"), Err(ChatError::NotFound(_))));
    let c = store.create("secretary", "x");
    assert!(matches!(store.rename(&c.id, "  "), Err(ChatError::Invalid(_))));
    assert_eq!(store.rename(&c.id, " y ").unwrap().name, "y");
    let o = store.set_overrides(&c.id, Some("be brief".into()), None).unwrap();
    assert_eq!(o.system_override.as_deref(), Some("be brief"));
    assert_eq!(store.len(), 1);
    store.remove(&c.id).unwrap();
    assert!(store.is_empty());
    assert!(store.remove(&c.id).is_err());
    let e = ChatError::BadIndex { idx: 9, len: 2 };
    assert!(e.message().contains('9'));
}

#[test]
fn attachments_last_a_turn_unless_they_are_pinned() {
    let mut store = ChatStore::new();
    let c = store.create("secretary", "x");
    store.add_attachment(&c.id, "f1").unwrap();
    store.add_attachment(&c.id, "f1").unwrap();
    store.add_attachment(&c.id, "f2").unwrap();
    assert_eq!(store.get(&c.id).unwrap().attachments.len(), 2);
    assert!(store.set_attachment_pinned(&c.id, "f2", true).unwrap());
    assert!(!store.set_attachment_pinned(&c.id, "none", true).unwrap());
    let used = store.consume_attachments_for_turn(&c.id).unwrap();
    assert_eq!(used.len(), 2);
    let left = &store.get(&c.id).unwrap().attachments;
    assert_eq!(left.len(), 1);
    assert_eq!(left[0].file_id, "f2");
    assert!(store.remove_attachment(&c.id, "f2").unwrap());
    assert!(!store.remove_attachment(&c.id, "f2").unwrap());
}

// --- Core memory -------------------------------------------------------------------

#[test]
fn append_set_replace_and_limits() {
    let mut b = MemoryBlock::new("human", 20);
    b.append("name: Alice").unwrap();
    assert_eq!(b.value, "name: Alice");
    b.append("rust").unwrap();
    assert!(b.value.contains("rust"));
    assert!(matches!(b.append("way too much text here"), Err(MemoryError::BlockOverLimit { .. })));
    b.replace("Alice", "Bob").unwrap();
    assert!(b.value.contains("Bob"));
    assert!(b.replace("Zzz", "x").is_err());
    assert!(b.set("short").is_ok());
    assert!(matches!(b.set(&"x".repeat(21)), Err(MemoryError::BlockOverLimit { .. })));
    let mut u = MemoryBlock::new("notes", 0);
    u.set(&"x".repeat(10_000)).unwrap();
}

#[test]
fn renders_in_order_with_header() {
    let mut s = CoreMemoryStore::new("a", "/tmp/unused.json");
    s.ensure_block(MemoryBlock::new("persona", 0));
    let mut human = MemoryBlock::new("human", 0);
    human.set("name: Alice").unwrap();
    s.ensure_block(human);
    let out = s.as_context_string();
    assert!(out.starts_with("## Core Memory"));
    let p = out.find("### persona").unwrap();
    let h = out.find("### human").unwrap();
    assert!(p < h);
    assert!(out.contains("name: Alice"));
    assert_eq!(CoreMemoryStore::new("a", "/x.json").as_context_string(), "");
}

#[test]
fn store_round_trips_and_ensure_block_no_clobber() {
    let mut s = CoreMemoryStore::new("a", "/d/agent_a.json");
    let mut human = MemoryBlock::new("human", 0);
    human.set("name: Alice").unwrap();
    s.ensure_block(human);
    let mut reloaded = CoreMemoryStore::new("a", "/d/agent_a.json");
    reloaded.load(s.blocks().iter().map(|b| b.copy()).collect());
    assert_eq!(reloaded.block("human").unwrap().value, "name: Alice");
    reloaded.ensure_block(MemoryBlock::new("human", 0));
    assert_eq!(reloaded.block("human").unwrap().value, "name: Alice");
    reloaded.block_mut("human").unwrap().set("name: Bob").unwrap();
    assert_eq!(reloaded.block("human").unwrap().value, "name: Bob");
    assert!(reloaded.block("none").is_none());
}

#[test]
fn shared_block_clones_share_state() {
    let mut reg = SharedBlockRegistry::new("/d/shared");
    reg.ensure(MemoryBlock::new("team", 0), None);
    reg.ensure(MemoryBlock::new("team", 0), None);
    let mut b = reg.get("team").unwrap().copy();
    b.append("shared fact").unwrap();
    reg.put("team", b.copy());
    assert_eq!(reg.get("team").unwrap().value, "shared fact");
    assert_eq!(reg.block_path("team"), "/d/shared/team.json");

    let mut reg2 = SharedBlockRegistry::new("/d/shared");
    reg2.ensure(MemoryBlock::new("team", 0), Some(b));
    assert_eq!(reg2.get("team").unwrap().value, "shared fact");
}

#[test]
fn blocks_are_seeded_and_rendered() {
    let specs = vec![MemoryBlock::new("persona", 10)];
    let s = build_store("a", "/p", None, &specs);
    assert_eq!(s.blocks().len(), 1);
    assert_eq!((s.agent_id(), s.path()), ("a", "/p"));
    assert_eq!(render_blocks(&vec![]), "");
    assert!(specs[0].render().contains("(empty)"));
    assert_eq!(core_store_path("/d", "a"), "/d/memory/core/agent_a.json");
    assert_eq!(shared_blocks_dir("/d/"), "/d/memory/core/shared");
    let e = MemoryError::BlockOverLimit { label: "l".into(), limit: 3, attempted: 9 };
    assert!(e.message().contains('9'));
}

// --- Files -------------------------------------------------------------------------

#[test]
fn store_dedups_identical_bytes() {
    let mut s = FileStore::new();
    let a = s.store_with(b"hello", "a.txt", "text/plain", |_, _| (None, None));
    let b = s.store_with(b"hello", "b.txt", "text/plain", |_, _| (None, None));
    assert_eq!(a.id, b.id);
    assert_eq!(s.len(), 1);
    assert_eq!(b.name, "a.txt");
    assert_eq!(a.id, "2cf24dba5fb0a30e26e83b2ac5b9e29e1b161e5c1fa7425e73043362938b9824");
}

#[test]
fn extractor_runs_on_first_store_only() {
    let mut s = FileStore::new();
    let calls = std::cell::Cell::new(0);
    s.store_with(b"x", "f.txt", "text/plain", |_, _| {
        calls.set(calls.get() + 1);
        (Some("extracted".into()), None)
    });
    s.store_with(b"x", "f.txt", "text/plain", |_, _| {
        calls.set(calls.get() + 1);
        (Some("would re-extract".into()), None)
    });
    assert_eq!(calls.get(), 1);
    let e = s.list().pop().unwrap();
    assert_eq!(e.extracted_text.as_deref(), Some("extracted"));
}

#[test]
fn load_all_roundtrips() {
    let mut s = FileStore::new();
    let entry = s.store_with(b"persistent", "doc.txt", "text/plain", |_, _| (Some("hi".into()), None));
    let mut reopen = FileStore::new();
    for e in s.list() {
        reopen.load(e.copy());
    }
    assert_eq!(reopen.len(), 1);
    let loaded = reopen.get(&entry.id).unwrap();
    assert_eq!(loaded.name, "doc.txt");
    assert_eq!(loaded.extracted_text.as_deref(), Some("hi"));
}

#[test]
fn search_finds_in_extracted_text() {
    let mut s = FileStore::new();
    s.store_with(b"unique", "a.txt", "text/plain", |_, _| {
        (Some("axocoatl is a feathered serpent".into()), None)
    });
    assert_eq!(s.search("feathered").len(), 1);
    assert_eq!(s.search("FEATHERED").len(), 1);
    assert_eq!(s.search("scaled").len(), 0);
    assert_eq!(s.search("  ").len(), 1);
}

#[test]
fn remove_clears_disk_and_index() {
    let mut s = FileStore::new();
    let e = s.store_with(b"goodbye", "g.txt", "text/plain", |_, _| (None, None));
    assert!(s.path_of(&e.id).is_some());
    s.remove(&e.id).unwrap();
    assert!(s.path_of(&e.id).is_none());
    assert_eq!(s.len(), 0);
    assert!(s.remove(&e.id).is_err());
}

#[test]
fn files_have_a_place_and_a_kind() {
    let mut s = FileStore::new();
    let e = s.store_with_at(b"png", "Pic.PNG", "image/png", |_, _| (None, Some("seen".into())), 5);
    assert!(e.is_image());
    assert_eq!(e.inline_text(), Some("seen"));
    assert_eq!(e.uploaded_at, 5);
    assert_eq!(e.ext, "png");
    let (dir, file) = s.path_of(&e.id).unwrap();
    assert_eq!(dir, e.id[..2]);
    assert!(file.starts_with(&e.id));
    assert_eq!(s.read_bytes(&e.id).unwrap(), (dir, file));
    assert!(s.read_bytes("none").is_err());
    assert_eq!(shard_dir("abcd").as_deref(), Some("ab"));
    assert_eq!(sidecar_name("abcd"), "abcd.meta.json");
    assert_eq!(extension("a.tar.gz").as_deref(), Some("gz"));
    assert_eq!(extension("none"), None);
    assert_eq!(s.rename(&e.id, " n.png ").unwrap().name, "n.png");
    assert_eq!(s.set_tags(&e.id, names(&["t"])).unwrap().tags, vec!["t"]);
    assert!(s.rename(&e.id, " ").is_err());
}

// --- Facts ---------------------------------------------------------------------------

#[test]
fn set_and_get() {
    let mut mem = LongTermMemory::new("/tmp/memory.bin");
    mem.set("user_name", "Alice", MemoryCategory::UserPreference);
    mem.set("project", "Axocoatl", MemoryCategory::ProjectContext);
    assert_eq!(mem.len(), 2);
    let entry = mem.get("user_name").unwrap();
    assert_eq!(entry.value, "Alice");
    assert_eq!(entry.access_count, 1);
}

#[test]
fn save_and_load() {
    let mut mem = LongTermMemory::new("/tmp/memory.bin");
    mem.set("key1", "value1", MemoryCategory::Fact);
    mem.set("key2", "value2", MemoryCategory::Decision);
    let mut again = LongTermMemory::new("/tmp/memory.bin");
    for e in mem.entries() {
        again.load(e);
    }
    assert_eq!(again.len(), 2);
    assert_eq!(again.get("key1").unwrap().value, "value1");
}

#[test]
fn remove_entry() {
    let mut mem = LongTermMemory::new("/tmp/unused.bin");
    mem.set("temp", "data", MemoryCategory::Fact);
    assert_eq!(mem.len(), 1);
    mem.remove("temp");
    assert!(mem.is_empty());
}

#[test]
fn as_context_string() {
    let mut mem = LongTermMemory::new("/tmp/unused.bin");
    mem.set("name", "Alice", MemoryCategory::UserPreference);
    let ctx = mem.as_context_string();
    assert!(ctx.contains("## Agent Memory"));
    assert!(ctx.contains("Alice"));
}

#[test]
fn empty_context_string() {
    let mem = LongTermMemory::new("/tmp/unused.bin");
    assert!(mem.as_context_string().is_empty());
}

#[test]
fn prune_bounds_memory_and_keeps_high_value_entries() {
    let mut mem = LongTermMemory::new("/tmp/unused.bin");
    for i in 0..MAX_ENTRIES {
        mem.set(&format!("k{i}"), &format!("v{i}"), MemoryCategory::Fact);
    }
    assert_eq!(mem.len(), MAX_ENTRIES);
    for _ in 0..10 {
        assert!(mem.get("k100").is_some());
    }
    for i in MAX_ENTRIES..(MAX_ENTRIES + 50) {
        mem.set(&format!("k{i}"), &format!("v{i}"), MemoryCategory::Fact);
    }
    assert_eq!(mem.len(), MAX_ENTRIES, "memory stays bounded");
    assert!(mem.needs_consolidation());
    assert!(!LongTermMemory::new("/tmp/unused.bin").needs_consolidation());
    assert!(mem.get("k100").is_some(), "hot entry must survive pruning");
}

#[test]
fn replaced_facts_fill_the_memory() {
    let fact = |i: usize, key: usize| (MemoryCategory::Fact, format!("k{key}"), format!("v{i}"));
    let mut mem = LongTermMemory::new("/tmp/x");
    mem.replace_all_at(&(0..300).map(|i| fact(i, i % 3)).collect(), 7);
    assert_eq!(mem.len(), 3);
    let mut values: Vec<String> = mem.entries().into_iter().map(|e| e.value).collect();
    values.sort();
    assert_eq!(values, vec!["v297", "v298", "v299"]);
    mem.replace_all_at(&(0..300).map(|i| fact(i, i)).collect(), 7);
    assert_eq!(mem.len(), 200);
    assert!(mem.entries().iter().all(|e| e.key[1..] == e.value[1..]));
}

#[test]
fn consolidation_prompt_and_replace_all() {
    let mut mem = LongTermMemory::new("/tmp/unused.bin");
    mem.set("name", "Alice", MemoryCategory::UserPreference);
    mem.set("lang", "Rust", MemoryCategory::UserPreference);
    let (system, user) = consolidate_facts_prompt(&mem.entries());
    assert!(system.contains("consolidation"));
    assert!(user.contains("Alice") && user.contains("Rust"));
    mem.replace_all(&vec![(MemoryCategory::Fact, "merged".into(), "one fact".into())]);
    assert_eq!(mem.len(), 1);
    assert_eq!(mem.get("merged").unwrap().value, "one fact");
}

#[test]
fn facts_are_read_line_by_line() {
    let facts = parse_extracted_facts("Fact: user_name = Alice\nNONE\nnonsense\nSkill: rust = yes = really\n");
    assert_eq!(facts.len(), 2);
    assert_eq!((facts[0].1.as_str(), facts[0].2.as_str()), ("user_name", "Alice"));
    assert_eq!((facts[1].1.as_str(), facts[1].2.as_str()), ("rust", "yes = really"));
    let (system, user) = extract_facts_prompt(&names(&["hello there"]));
    assert!(system.contains("memory extraction"));
    assert!(user.contains("hello there"));
}

// --- Snapshots -------------------------------------------------------------------------

#[test]
fn load_latest_picks_highest_version() {
    let files: Vec<String> = [1, 3, 2].iter().map(|v| CheckpointStore::checkpoint_path(*v)).collect();
    assert_eq!(CheckpointStore::load_latest(&files, &vec![true, true, true]), Some(1));
    assert_eq!(CheckpointStore::load_latest(&files, &vec![true, false, true]), Some(2));
    assert_eq!(CheckpointStore::load_latest(&files, &vec![false, false, false]), None);
}

#[test]
fn load_nonexistent_returns_none() {
    assert_eq!(CheckpointStore::load_latest(&vec![], &vec![]), None);
    assert_eq!(CheckpointStore::load_latest(&names(&["notes.txt"]), &vec![true]), None);
}

#[test]
fn prune_keeps_last_n() {
    let files: Vec<String> = (1..=5).map(CheckpointStore::checkpoint_path).collect();
    let gone = CheckpointStore::prune_old(&files, 3);
    assert_eq!(gone.len(), 2);
    let left: Vec<&String> = (0..5).filter(|i| !gone.contains(i)).map(|i| &files[i]).collect();
    assert_eq!(left.len(), 3);
    assert_eq!(version_of(left[0]), Some(3));
}

#[test]
fn should_checkpoint_honors_policy() {
    let every = CheckpointStore::new("/d", CheckpointPolicy::EveryLlmCall);
    assert!(every.should_checkpoint(1));
    assert!(every.should_checkpoint(7));
    let every_3 = CheckpointStore::new("/d", CheckpointPolicy::EveryNMessages(3));
    assert!(!every_3.should_checkpoint(1));
    assert!(every_3.should_checkpoint(3));
    assert!(every_3.should_checkpoint(6));
    let manual = CheckpointStore::new("/d", CheckpointPolicy::Manual);
    assert!(!manual.should_checkpoint(3));
    let none = CheckpointStore::new("/d", CheckpointPolicy::Never);
    assert!(!none.should_checkpoint(3));
}

#[test]
fn snapshots_go_back() {
    let mut c = AgentCheckpoint {
        version: 4,
        agent_id: "a".into(),
        checkpoint_time: 1,
        session_messages: vec![msg(MessageRole::User, "a"), msg(MessageRole::Assistant, "b")],
        cumulative_token_usage: TokenUsageStats::new(1, 2),
        behavior_state: None,
    };
    assert!(c.rewind_at(1, 9));
    assert_eq!((c.session_messages.len(), c.version, c.checkpoint_time), (1, 5, 9));
    assert!(!c.rewind_at(1, 10));
    assert_eq!(c.version, 5);
}

// --- Logs and transcripts -----------------------------------------------------------------

#[test]
fn log_files_are_named_by_day() {
    let log = DailyLogMemory::new("test-agent", "/logs");
    let day = log.log_path(0).unwrap();
    let next = log.log_path(1).unwrap();
    assert_ne!(day, next);
    assert!(day.contains("test-agent"));
    assert_eq!(DailyLogMemory::read_range(3, 5), vec![3, 4, 5]);
    assert!(DailyLogMemory::read_range(5, 3).is_empty());
    assert!(log.log_path(i32::MAX).is_none());
}

#[test]
fn write_and_read_transcript() {
    let entries = vec![
        TranscriptEntry::message("s", MessageRole::User, "hello", 2, 1),
        TranscriptEntry::message("s", MessageRole::Assistant, "hi there", 3, 1),
        TranscriptEntry::tool_call("s", "echo", parse("{\"text\":\"test\"}").unwrap(), 1),
        TranscriptEntry::tool_result("s", "echo", parse("{\"text\":\"test\"}").unwrap(), 5, 1),
    ];
    assert!(matches!(entries[0].entry_type, TranscriptEntryType::Message { .. }));
    let lines = read_transcript("{\"a\":1}\n\n{\"b\":2}\n{\"c\":3}\n{\"d\":4}\n");
    assert_eq!(lines.len(), entries.len());
    assert_eq!(transcript_file("test-session"), "test-session.jsonl");
}

#[test]
fn list_sessions_finds_files() {
    let sessions = list_sessions(&names(&["session-1.jsonl", "session-2.jsonl", "other.txt"]));
    assert_eq!(sessions.len(), 2);
    assert_eq!(sessions[0], "session-1");
}

#[test]
fn restrict_file_sets_0600() {
    let c = restrict_file("/d/f");
    assert_eq!((c.path.as_str(), c.mode & 0o777), ("/d/f", 0o600));
}

#[test]
fn restrict_dir_sets_0700() {
    let c = restrict_dir("/d");
    assert_eq!((c.path.as_str(), c.mode & 0o777), ("/d", 0o700));
}

// --- Memories by similarity ---------------------------------------------------------------

/// The length and angle of hashed features, as floating-point numbers.
fn vector(text: &str) -> Vec<f32> {
    let mut v = vec![0.0f32; EMBED_DIM];
    for (i, positive) in embed_hashed(text) {
        v[i] += if positive { 1.0 } else { -1.0 };
    }
    let norm: f32 = v.iter().map(|x| x * x).sum::<f32>().sqrt();
    if norm > 0.0 {
        for x in &mut v {
            *x /= norm;
        }
    }
    v
}

fn cosine(a: &[f32], b: &[f32]) -> f32 {
    a.iter().zip(b).map(|(x, y)| x * y).sum()
}

/// A number that grows with the similarity.
fn rank(score: f32) -> u32 {
    ((score + 1.0) * 1_000_000.0) as u32
}

#[test]
fn hashed_embedding_is_normalised_and_lexically_sensible() {
    let a = vector("the user prefers dark mode in the editor");
    let norm: f32 = a.iter().map(|x| x * x).sum::<f32>().sqrt();
    assert!((norm - 1.0).abs() < 1e-4, "embedding must be L2-normalised");
    let related = cosine(&a, &vector("user likes a dark editor theme"));
    let unrelated = cosine(&a, &vector("schedule a flight to Tokyo"));
    assert!(related > unrelated, "lexically-related text must score higher");
}

#[test]
fn store_search_and_persistence_roundtrip() {
    let mut mem = SemanticMemory::with_embedder(HASHED_ID, vec![]);
    assert!(mem.is_empty());
    let texts = ["the deploy script lives in scripts/release.sh", "the user's name is Ada"];
    for t in texts {
        let bits = vector(t).iter().map(|x| x.to_bits()).collect();
        let id = mem.store(t, bits, Json::object());
        assert!(id.starts_with("mem-"));
    }
    let q = vector("where is the deploy script");
    let ranks: Vec<u32> = mem
        .records
        .iter()
        .map(|r| {
            let v: Vec<f32> = r.vector.iter().map(|b| f32::from_bits(*b)).collect();
            rank(cosine(&q, &v))
        })
        .collect();
    let hits = mem.search(&ranks, 1);
    assert_eq!(hits.len(), 1);
    assert!(hits[0].text.contains("release.sh"));
    assert_eq!(mem.len(), 2);
    assert_eq!(mem.search(&ranks, 0).len(), 0);
    mem.reembed("other", vec![vec![1], vec![2]]);
    assert_eq!((mem.embedder.as_str(), mem.records[1].vector[0]), ("other", 2));
    assert_eq!(mem.records[1].text, texts[1]);
}

#[test]
fn the_most_similar_come_first_and_older_ones_before_newer() {
    assert_eq!(best(&vec![5, 9, 5, 7], 3), vec![1, 3, 0]);
    assert_eq!(best(&vec![5, 9, 5, 7], 9), vec![1, 3, 0, 2]);
    assert!(best(&vec![], 4).is_empty());
}

#[test]
fn words_and_trigrams_are_hashed() {
    assert_eq!(fnv1a(b""), 0xcbf29ce484222325);
    assert_eq!(fnv1a(b"a"), 0xaf63dc4c8601ec8c);
    assert_eq!(embed_hashed("ab").len(), 1);
    assert_eq!(embed_hashed("Abcd, e!").len(), 4);
    assert!(embed_hashed("...").is_empty());
    assert!(embed_hashed("hello world").iter().all(|f| f.0 < EMBED_DIM));
    assert_eq!(reopen(None, HASHED_ID), Reopening::Fresh);
    assert_eq!(reopen(Some("other"), HASHED_ID), Reopening::Reembedded);
    assert_eq!(reopen(Some(HASHED_ID), HASHED_ID), Reopening::Kept);
    assert_eq!(store_file("a1"), "agent_a1_semantic.json");
}
