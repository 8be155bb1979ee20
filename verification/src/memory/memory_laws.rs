//! What the stores of an agent's memory keep.
use vstd::prelude::*;

use crate::memory::chat::{AttachmentV, Chat, ChatErrorV, ChatV, answers, attached, attachment_from, became, detached, forked,
    mentions, name_or_default, new_chat, pinned_only, unknown, with_file};
use crate::memory::checkpoint::{CheckpointPolicy, file_of, goes_back, is_due, later, law_versions_are_read_back, later_count, outdated, padded,
    valid_version, version_in};
use crate::memory::core_memory::{BlockV, block_from, rendered_blocks, seeded_all};
use crate::memory::daily_log::days_between;
use crate::memory::error::MemoryErrorV;
use crate::memory::files;
use crate::memory::files::{FileEntry, FileV, dot_before, extension_in, extension_of, found, kept_extension, missing, new_file,
    place_of, shard_of};
use crate::memory::long_term::{EntryV, FULL_CONFIDENCE, MemoryCategory, category_of, fact_line, fact_of, facts_map,
    facts_of, new_entry, shown, weaker};
use crate::memory::messages::StoredV;
use crate::memory::semantic::{Reopening, feature, features, features_from, fnv, is_alphanumeric, reopened, trigrams, word_end,
    word_features};
use crate::memory::transcript::{entry_lines, session_in, sessions_in};
use crate::outside::{hex_text, sha256};
use crate::table::{Ranked, has_value, sorted};
use crate::text::{at, byte_cut, contains, decimal, find_from, is_space, join, lemma_decimal, lemma_find_from, lemma_next_char,
    lowercase, lemma_utf8_bytes_first, next_char, split, trim, utf8_width};
use crate::text_laws::{free_of, law_parts_are_found, law_trimming_leaves_the_text};

verus! {


// ---------------------------------------------------------------------------
// Core memory
// ---------------------------------------------------------------------------

/// An edit that fits puts the value in and keeps all else of the block; one that
/// does not fit is refused with the label, the limit and the size.
pub proof fn law_edits_change_the_value_only(b: BlockV, value: Seq<char>)
    ensures
        b.with_value(value) is Ok <==> b.limit == 0 || value.len() <= b.limit,
        b.with_value(value) matches Ok(after) ==> {
            &&& after.value == value
            &&& after.label == b.label
            &&& after.limit == b.limit
            &&& after.description == b.description
            &&& after.shared == b.shared
        },
        b.with_value(value) matches Err(e) ==> {
            &&& e matches MemoryErrorV::BlockOverLimit { label, limit, attempted }
            &&& label == b.label
            &&& limit == b.limit
            &&& attempted == value.len() as usize
        },
{
}

/// What is appended stands behind the value, on a line of its own; an empty
/// block holds it alone.
pub proof fn law_appending_adds_a_line(b: BlockV, text: Seq<char>)
    ensures
        b.value.len() == 0 ==> b.appended(text) == text,
        b.value.len() > 0 ==> b.appended(text) == b.value.push('\n') + text,
{
    reveal_strlit("\n");
    assert("\n"@ =~= seq!['\n']);
    if b.value.len() > 0 {
        assert(b.appended(text) =~= b.value.push('\n') + text);
    }
}

/// A replacement puts the new text in the first place of the old one and keeps
/// what stands before and behind it.
pub proof fn law_replacing_in_a_block(b: BlockV, before: Seq<char>, old_text: Seq<char>, after: Seq<char>, new_text: Seq<char>)
    requires
        b.value == before + old_text + after,
        forall|j: int| 0 <= j < before.len() ==> !#[trigger] at(b.value, old_text, j),
    ensures
        b.replaced(old_text, new_text) == Ok::<Seq<char>, MemoryErrorV>(before + new_text + after),
{
    lemma_find_from(b.value, old_text, 0);
    let k = before.len() as int;
    assert(b.value.subrange(k, k + old_text.len()) =~= old_text);
    assert(at(b.value, old_text, k));
    assert(find_from(b.value, old_text, 0) is Some);
    let f = find_from(b.value, old_text, 0)->0;
    assert(at(b.value, old_text, f));
    assert(f == k);
    assert(b.value.subrange(0, k) =~= before);
    assert(b.value.subrange(k + old_text.len(), b.value.len() as int) =~= after);
}

/// A text that does not stand in a block cannot be replaced there; the refusal
/// names the block.
pub proof fn law_missing_texts_are_not_replaced(b: BlockV, old_text: Seq<char>, new_text: Seq<char>)
    requires
        !contains(b.value, old_text),
    ensures
        b.replaced(old_text, new_text) matches Err(MemoryErrorV::Invalid(m)) && contains(m, b.label),
{
    lemma_find_from(b.value, old_text, 0);
    law_parts_are_found("text to replace was not found in block '"@, b.label, "'"@);
}

/// A section of a prompt begins with the label and shows the value; where that
/// is blank, it says so and what the block is for.
pub proof fn law_sections_show_the_blocks(b: BlockV)
    ensures
        ({
            let head = seq!['#', '#', '#', ' '] + b.label + seq!['\n'];
            &&& trim(b.value).len() > 0 ==> b.rendered() == head + b.value
            &&& trim(b.value).len() == 0 && b.description is None ==> b.rendered() == head + "(empty)"@
            &&& trim(b.value).len() == 0 ==> (b.description matches Some(d) ==> b.rendered() == head + ("(empty — "@ + d
                + ")"@))
        }),
{
    reveal_strlit("### ");
    reveal_strlit("\n");
    assert("### "@ =~= seq!['#', '#', '#', ' ']);
    assert("\n"@ =~= seq!['\n']);
}

/// The blocks in a prompt are all of them, in order, with an empty line between
/// neighbours; without blocks there is nothing.
pub proof fn law_prompts_show_all_blocks(blocks: Seq<BlockV>) -> (sections: Seq<Seq<char>>)
    ensures
        blocks.len() == 0 ==> rendered_blocks(blocks).len() == 0,
        blocks.len() > 0 ==> rendered_blocks(blocks) == "## Core Memory\n"@ + join(sections, seq!['\n', '\n']),
        sections.len() == blocks.len(),
        forall|i: int| 0 <= i < blocks.len() ==> #[trigger] sections[i] == blocks[i].rendered(),
{
    reveal_strlit("\n\n");
    assert("\n\n"@ =~= seq!['\n', '\n']);
    blocks.map_values(|b: BlockV| b.rendered())
}

/// The block that is found under a label has it, and none before it does.
pub proof fn law_blocks_are_found_by_label(v: Seq<BlockV>, label: Seq<char>, i: int)
    requires
        0 <= i,
    ensures
        match block_from(v, label, i) {
            Some(k) => i <= k < v.len() && v[k].label == label && forall|j: int|
                i <= j < k ==> (#[trigger] v[j]).label != label,
            None => forall|j: int| i <= j < v.len() ==> (#[trigger] v[j]).label != label,
        },
    decreases v.len() - i,
{
    if i < v.len() && v[i].label != label {
        law_blocks_are_found_by_label(v, label, i + 1);
    }
}

/// A store that is seeded keeps all that it held, in its place, and gets each of
/// the given blocks that is not shared and whose label was not there; nothing
/// else comes in.
pub proof fn law_seeding_adds_what_is_missing(v: Seq<BlockV>, blocks: Seq<BlockV>)
    ensures
        seeded_all(v, blocks).len() >= v.len(),
        seeded_all(v, blocks).take(v.len() as int) == v,
        forall|i: int|
            0 <= i < blocks.len() && !(#[trigger] blocks[i]).shared ==> block_from(
                seeded_all(v, blocks),
                blocks[i].label,
                0,
            ) is Some,
        forall|i: int|
            v.len() <= i < seeded_all(v, blocks).len() ==> blocks.contains(#[trigger] seeded_all(v, blocks)[i])
                && !seeded_all(v, blocks)[i].shared && block_from(v, seeded_all(v, blocks)[i].label, 0) is None,
    decreases blocks.len(),
{
    if blocks.len() == 0 {
        assert(v.take(v.len() as int) =~= v);
    } else {
        let less = blocks.drop_last();
        let b = blocks.last();
        law_seeding_adds_what_is_missing(v, less);
        let was = seeded_all(v, less);
        let now = seeded_all(v, blocks);
        law_blocks_are_found_by_label(was, b.label, 0);
        assert(now.take(v.len() as int) =~= v) by {
            assert(was.take(v.len() as int) =~= v);
            assert forall|j: int| 0 <= j < v.len() implies #[trigger] now[j] == v[j] by {
                assert(was.take(v.len() as int)[j] == was[j]);
            }
        }
        assert forall|i: int| 0 <= i < blocks.len() && !(#[trigger] blocks[i]).shared implies block_from(
            now,
            blocks[i].label,
            0,
        ) is Some by {
            law_blocks_are_found_by_label(now, blocks[i].label, 0);
            if i < less.len() {
                assert(less[i] == blocks[i]);
                law_blocks_are_found_by_label(was, less[i].label, 0);
                let k = block_from(was, less[i].label, 0)->0;
                assert(now[k] == was[k]);
            } else if now.len() > was.len() {
                assert(now[now.len() - 1].label == b.label);
            }
        }
        assert forall|i: int| v.len() <= i < now.len() implies blocks.contains(#[trigger] now[i]) && !now[i].shared
            && block_from(v, now[i].label, 0) is None by {
            if i < was.len() {
                assert(now[i] == was[i]);
                let k = choose|k: int| 0 <= k < less.len() && less[k] == was[i];
                assert(blocks[k] == was[i]);
            } else {
                assert(blocks[blocks.len() - 1] == now[i]);
                law_blocks_are_found_by_label(v, b.label, 0);
                if let Some(k) = block_from(v, b.label, 0) {
                    assert(was.take(v.len() as int)[k] == was[k]);
                    assert(was[k].label == b.label);
                }
            }
        }
    }
}

/// The errors of memory stores name what they are about.
pub proof fn law_memory_errors_say_why(m: Seq<char>, label: Seq<char>, limit: usize, attempted: usize)
    ensures
        MemoryErrorV::Serialization(m).text() == "Serialization failed: "@ + m,
        MemoryErrorV::Deserialization(m).text() == "Deserialization failed: "@ + m,
        MemoryErrorV::VectorDb(m).text() == "Vector database error: "@ + m,
        MemoryErrorV::Embedding(m).text() == "Embedding generation failed: "@ + m,
        MemoryErrorV::NotFound(m).text() == "not found: "@ + m,
        MemoryErrorV::Invalid(m).text() == "invalid: "@ + m,
        MemoryErrorV::ConsolidationLlmFailed(m).text() == "Consolidation LLM call failed: "@ + m,
        contains(MemoryErrorV::BlockOverLimit { label, limit, attempted }.text(), label),
        contains(MemoryErrorV::BlockOverLimit { label, limit, attempted }.text(), decimal(attempted as nat) + " > "@),
        contains(MemoryErrorV::BlockOverLimit { label, limit, attempted }.text(), " > "@ + decimal(limit as nat)),
{
    let t = MemoryErrorV::BlockOverLimit { label, limit, attempted }.text();
    let a = "core-memory block '"@;
    let b = "' over limit ("@;
    let n = decimal(attempted as nat);
    let g = " > "@;
    let l = decimal(limit as nat);
    let z = " chars)"@;
    assert(t =~= a + label + (b + n + g + l + z));
    law_parts_are_found(a, label, b + n + g + l + z);
    assert(t =~= (a + label + b) + (n + g) + (l + z));
    law_parts_are_found(a + label + b, n + g, l + z);
    assert(t =~= (a + label + b + n) + (g + l) + z);
    law_parts_are_found(a + label + b + n, g + l, z);
}

// ---------------------------------------------------------------------------
// Logs and transcripts
// ---------------------------------------------------------------------------

/// The days of a range are all from its first to its last, each once and in
/// order.
pub proof fn law_ranges_hold_every_day(from: i32, to: i32, day: i32)
    ensures
        days_between(from, to).contains(day) <==> from <= day <= to,
        forall|i: int, j: int|
            0 <= i < j < days_between(from, to).len() ==> #[trigger] days_between(from, to)[i] < #[trigger] days_between(
                from,
                to,
            )[j],
{
    let days = days_between(from, to);
    if from <= day <= to {
        assert(days[day - from] == day);
    }
}

/// The line is not blank.
pub open spec fn written(line: Seq<char>) -> bool {
    trim(line).len() > 0
}

/// The lines of a transcript that may hold an entry are those that are not
/// blank, as they stand and in order.
pub proof fn law_entries_are_the_written_lines(ls: Seq<Seq<char>>)
    ensures
        entry_lines(ls) == ls.filter(|l: Seq<char>| written(l)),
    decreases ls.len(),
{
    reveal(Seq::filter);
    if ls.len() > 0 {
        law_entries_are_the_written_lines(ls.drop_last());
    }
}

// ---------------------------------------------------------------------------
// Chats
// ---------------------------------------------------------------------------

/// A new chat is with its agent, under its id and name, and empty.
pub proof fn law_new_chats_are_empty(id: Seq<char>, agent: Seq<char>, name: Seq<char>, now: u64)
    ensures
        ({
            let c = new_chat(id, agent, name, now);
            &&& c.id == id
            &&& c.agent_id == agent
            &&& c.name == name
            &&& c.messages.len() == 0
            &&& c.attachments.len() == 0
            &&& c.system_override is None
            &&& c.model_override is None
            &&& c.parent_id is None
            &&& c.forked_at_message is None
            &&& !c.starred
            &&& c.created_at == now
            &&& c.last_active == now
        }),
        trim(name).len() > 0 ==> name_or_default(name) == trim(name),
        trim(name).len() == 0 ==> name_or_default(name) == "New chat"@,
{
}

/// A fork holds the parent's first messages and then the replacement, stands
/// under its own id, says where it came from, and begins unstarred and without
/// attachments.
pub proof fn law_forks_hold_what_came_before(parent: ChatV, id: Seq<char>, at: usize, replacement: Option<StoredV>, now: u64)
    requires
        at <= parent.messages.len(),
    ensures
        ({
            let c = forked(parent, id, at, replacement, now);
            &&& c.id == id
            &&& c.agent_id == parent.agent_id
            &&& c.name == parent.name + seq![' ', '(', 'f', 'o', 'r', 'k', ')']
            &&& c.parent_id == Some(parent.id)
            &&& c.forked_at_message == Some(at)
            &&& c.system_override == parent.system_override
            &&& c.model_override == parent.model_override
            &&& forall|i: int| 0 <= i < at ==> #[trigger] c.messages[i] == parent.messages[i]
            &&& replacement matches Some(m) ==> c.messages.len() == at + 1 && c.messages[at as int] == m
            &&& replacement is None ==> c.messages.len() == at
            &&& c.attachments.len() == 0
            &&& !c.starred
            &&& c.created_at == now
            &&& c.last_active == now
        }),
{
    reveal_strlit(" (fork)");
    assert(" (fork)"@ =~= seq![' ', '(', 'f', 'o', 'r', 'k', ')']);
}

/// A chat is found by a text that its name or one of its messages contains,
/// whatever the case; a blank text finds every chat.
pub proof fn law_chats_are_found_by_what_they_say(c: ChatV, query: Seq<char>)
    ensures
        trim(query).len() == 0 ==> answers(c, query),
        trim(query).len() > 0 ==> (answers(c, query) <==> {
            ||| contains(lowercase(c.name), lowercase(trim(query)))
            ||| exists|i: int|
                0 <= i < c.messages.len() && contains(
                    lowercase((#[trigger] c.messages[i]).content),
                    lowercase(trim(query)),
                )
        }),
{
}

/// Attaching a file adds it once, unpinned and at its time, and keeps all else.
pub proof fn law_attached_files_are_added(c: ChatV, file_id: Seq<char>, now: u64)
    ensures
        ({
            let after = with_file(c, file_id, now);
            &&& attached(after.attachments, file_id)
            &&& attached(c.attachments, file_id) ==> after == c
            &&& !attached(c.attachments, file_id) ==> {
                let a = after.attachments.last();
                &&& after.attachments.len() == c.attachments.len() + 1
                &&& after.attachments.drop_last() == c.attachments
                &&& a.file_id == file_id
                &&& !a.pinned
                &&& a.added_at == now
                &&& after.last_active == now
            }
            &&& after.id == c.id && after.name == c.name && after.agent_id == c.agent_id
            &&& after.messages == c.messages
            &&& after.starred == c.starred
            &&& after.created_at == c.created_at
        }),
{
    let after = with_file(c, file_id, now);
    if !attached(c.attachments, file_id) {
        assert(after.attachments[c.attachments.len() as int].file_id == file_id);
        assert(after.attachments.drop_last() =~= c.attachments);
    }
}

/// Detaching a file leaves all others, in order; after a turn the pinned
/// attachments are left, in order.
pub proof fn law_other_attachments_stay(v: Seq<AttachmentV>, file_id: Seq<char>)
    ensures
        detached(v, file_id) == v.filter(|a: AttachmentV| a.file_id != file_id),
        pinned_only(v) == v.filter(|a: AttachmentV| a.pinned),
    decreases v.len(),
{
    reveal(Seq::filter);
    if v.len() > 0 {
        law_other_attachments_stay(v.drop_last(), file_id);
    }
}

/// The attachment that is found is the first of its file.
pub proof fn law_attachments_are_found(v: Seq<AttachmentV>, file_id: Seq<char>, i: int)
    requires
        0 <= i,
    ensures
        match attachment_from(v, file_id, i) {
            Some(k) => i <= k < v.len() && v[k].file_id == file_id && forall|j: int|
                i <= j < k ==> (#[trigger] v[j]).file_id != file_id,
            None => forall|j: int| i <= j < v.len() ==> (#[trigger] v[j]).file_id != file_id,
        },
    decreases v.len() - i,
{
    if i < v.len() && v[i].file_id != file_id {
        law_attachments_are_found(v, file_id, i + 1);
    }
}

/// The errors of the chat store name what they are about.
pub proof fn law_chat_errors_say_why(m: Seq<char>, idx: usize, len: usize)
    ensures
        ChatErrorV::NotFound(m).text() == "chat not found: "@ + m,
        ChatErrorV::Invalid(m).text() == "invalid: "@ + m,
        contains(ChatErrorV::BadIndex { idx, len }.text(), "index "@ + decimal(idx as nat)),
        contains(ChatErrorV::BadIndex { idx, len }.text(), "with "@ + decimal(len as nat)),
{
    let t = ChatErrorV::BadIndex { idx, len }.text();
    let n = decimal(idx as nat);
    let l = decimal(len as nat);
    reveal_strlit("invalid index ");
    reveal_strlit("index ");
    reveal_strlit("invalid ");
    reveal_strlit(" into chat with ");
    reveal_strlit(" into chat ");
    reveal_strlit("with ");
    assert("invalid index "@ =~= "invalid "@ + "index "@);
    assert(" into chat with "@ =~= " into chat "@ + "with "@);
    let z = " messages"@;
    assert(t =~= "invalid "@ + ("index "@ + n) + (" into chat with "@ + l + z));
    law_parts_are_found("invalid "@, "index "@ + n, " into chat with "@ + l + z);
    assert(t =~= ("invalid "@ + "index "@ + n + " into chat "@) + ("with "@ + l) + z);
    law_parts_are_found("invalid "@ + "index "@ + n + " into chat "@, "with "@ + l, z);
}

// ---------------------------------------------------------------------------
// Files
// ---------------------------------------------------------------------------

proof fn lemma_last_dot(s: Seq<char>, i: int)
    requires
        0 <= i <= s.len(),
    ensures
        match dot_before(s, i) {
            Some(d) => 0 <= d < i && s[d] == '.' && forall|j: int| d < j < i ==> s[j] != '.',
            None => forall|j: int| 0 <= j < i ==> s[j] != '.',
        },
    decreases i,
{
    if i > 0 && s[i - 1] != '.' {
        lemma_last_dot(s, i - 1);
    }
}

/// The extension of a name is what stands behind its last dot; a name that
/// begins with its only dot, or has none, has no extension.
pub proof fn law_extensions_stand_behind_the_last_dot(stem: Seq<char>, ext: Seq<char>)
    requires
        free_of(ext, '.'),
    ensures
        stem.len() > 0 ==> extension_in(stem + seq!['.'] + ext) == Some(ext),
        extension_in(seq!['.'] + ext) is None,
        extension_in(ext) is None,
{
    let name = stem + seq!['.'] + ext;
    lemma_last_dot(name, name.len() as int);
    assert(name[stem.len() as int] == '.');
    if let Some(d) = dot_before(name, name.len() as int) {
        if d > stem.len() {
            assert(name[d] == ext[d - stem.len() - 1]);
        }
        assert(d == stem.len());
        assert(name.subrange(d + 1, name.len() as int) =~= ext);
    }
    let hidden = seq!['.'] + ext;
    lemma_last_dot(hidden, hidden.len() as int);
    if let Some(d) = dot_before(hidden, hidden.len() as int) {
        if d > 0 {
            assert(hidden[d] == ext[d - 1]);
        }
    }
    lemma_last_dot(ext, ext.len() as int);
}

/// The extension of a path is that of its last name.
pub proof fn law_paths_have_the_extension_of_their_name(path: Seq<char>, segments: Seq<Seq<char>>, name: Seq<char>)
    requires
        split(path, '/') == segments.push(name),
        name.len() > 0,
        name != "."@,
        name != ".."@,
    ensures
        extension_of(path) == extension_in(name),
{
    assert(segments.push(name).last() == name);
}

/// A file is kept with its extension in lower case, or as "bin" where it has
/// none.
pub proof fn law_kept_extensions(name: Seq<char>)
    ensures
        extension_of(name) matches Some(e) ==> kept_extension(name) == lowercase(e),
        extension_of(name) is None ==> kept_extension(name) == lowercase(seq!['b', 'i', 'n']),
{
    reveal_strlit("bin");
    assert("bin"@ =~= seq!['b', 'i', 'n']);
}

/// A new file stands under the digest of its bytes and holds what it was kept
/// with.
pub proof fn law_new_files_hold_what_was_kept(
    bytes: Seq<u8>,
    name: Seq<char>,
    mime: Seq<char>,
    texts: (Option<String>, Option<String>),
    now: u64,
)
    ensures
        ({
            let f = new_file(bytes, name, mime, texts, now);
            &&& f.id == hex_text(sha256(bytes))
            &&& f.name == name
            &&& f.mime == mime
            &&& f.ext == kept_extension(name)
            &&& f.size == bytes.len() as u64
            &&& f.uploaded_at == now
            &&& texts.0 matches Some(t) ==> f.extracted_text == Some(t@)
            &&& texts.0 is None ==> f.extracted_text is None
            &&& texts.1 matches Some(t) ==> f.ocr_text == Some(t@)
            &&& texts.1 is None ==> f.ocr_text is None
            &&& f.tags.len() == 0
        }),
{
}

/// A file lies under its id and its extension, in the directory of the id.
pub proof fn law_files_lie_under_their_id(f: FileV)
    ensures
        place_of(f) matches Some(p) ==> p.1 == f.id + seq!['.'] + f.ext && shard_of(f.id) == Some(p.0),
{
    reveal_strlit(".");
    assert("."@ =~= seq!['.']);
}

/// A file is found by a text that its name, one of its tags or one of its texts
/// contains, whatever the case.
pub proof fn law_files_are_found_by_what_they_hold(f: FileV, q: Seq<char>)
    ensures
        crate::memory::files::mentions(f, q) <==> {
            ||| contains(lowercase(f.name), q)
            ||| exists|i: int| 0 <= i < f.tags.len() && contains(lowercase(#[trigger] f.tags[i]), q)
            ||| (f.extracted_text matches Some(t) && contains(lowercase(t), q))
            ||| (f.ocr_text matches Some(t) && contains(lowercase(t), q))
        },
        missing(q) matches MemoryErrorV::NotFound(m) && contains(m, q),
{
    law_parts_are_found("file "@, q, " not found"@);
}

// ---------------------------------------------------------------------------
// Checkpoints
// ---------------------------------------------------------------------------

/// Snapshots are due after every answer, at every multiple of a number of
/// messages, or never.
pub proof fn law_snapshots_are_due(n: usize, k: nat, count: usize)
    requires
        n > 0,
    ensures
        is_due(CheckpointPolicy::EveryLlmCall, count),
        !is_due(CheckpointPolicy::Manual, count),
        !is_due(CheckpointPolicy::Never, count),
        !is_due(CheckpointPolicy::EveryNMessages(0), count),
        count == k * n ==> is_due(CheckpointPolicy::EveryNMessages(n), count),
        is_due(CheckpointPolicy::EveryNMessages(n), count) ==> count == n * (count / n),
{
    if count == k * n {
        assert((k * n) % (n as int) == 0) by (nonlinear_arith)
            requires
                n > 0,
        ;
    }
    assert(count == n * (count / n) + count % n) by (nonlinear_arith)
        requires
            n > 0,
    ;
}

/// The file of a version has at least sixteen digits and the suffix of
/// snapshots.
pub proof fn law_snapshot_files_are_numbered(v: u64)
    ensures
        padded(v).len() >= 16,
        forall|i: int| 0 <= i < padded(v).len() ==> '0' <= #[trigger] padded(v)[i] <= '9',
        file_of(v) == padded(v) + seq!['.', 'c', 'k', 'p', 't'],
{
    reveal_strlit(".ckpt");
    assert(".ckpt"@ =~= seq!['.', 'c', 'k', 'p', 't']);
    lemma_decimal(v as nat);
    let d = decimal(v as nat);
    assert forall|i: int| 0 <= i < padded(v).len() implies '0' <= #[trigger] padded(v)[i] <= '9' by {
        if d.len() >= 16 {
            assert(crate::text::is_digit(d[i]));
        } else if i >= 16 - d.len() {
            assert(padded(v)[i] == d[i - (16 - d.len())]);
            assert(crate::text::is_digit(d[i - (16 - d.len())]));
        }
    }
}

proof fn lemma_later_count(names: Seq<Seq<char>>, i: int, n: int)
    requires
        0 <= n,
    ensures
        later_count(names, i, n) == Seq::new(n as nat, |j: int| j).filter(|j: int| later(names, j, i)).len(),
    decreases n,
{
    reveal(Seq::filter);
    let all = Seq::new(n as nat, |j: int| j);
    if n > 0 {
        lemma_later_count(names, i, n - 1);
        assert(all.drop_last() =~= Seq::new((n - 1) as nat, |j: int| j));
        assert(all.last() == n - 1);
    }
}

/// A snapshot is removed exactly where at least so many later ones are kept;
/// of two snapshots one is later, and none is later than itself.
pub proof fn law_old_snapshots_are_removed(names: Seq<Seq<char>>, i: int, j: int, keep: usize)
    requires
        0 <= i < names.len(),
        0 <= j < names.len(),
    ensures
        outdated(names, i, keep) <==> version_in(names[i]) is Some && Seq::new(names.len(), |j: int| j).filter(
            |j: int| later(names, j, i),
        ).len() >= keep,
        !later(names, i, i),
        version_in(names[i]) is Some && version_in(names[j]) is Some && i != j ==> later(names, i, j) || later(names, j, i),
        later(names, i, j) ==> !later(names, j, i),
        later(names, i, j) ==> (version_in(names[i]) matches Some(a) && version_in(names[j]) matches Some(b) && a >= b),
{
    lemma_later_count(names, i, names.len() as int);
}

/// Going back leaves the first messages, as they were, under the next version.
pub proof fn law_going_back_keeps_the_beginning(version: u64, messages: Seq<StoredV>, keep: usize)
    requires
        version < u64::MAX,
    ensures
        goes_back(version, messages, keep) is None <==> keep >= messages.len(),
        goes_back(version, messages, keep) matches Some(p) ==> p.0 == version + 1 && p.1.len() == keep && forall|i: int|
            0 <= i < keep ==> #[trigger] p.1[i] == messages[i],
{
}

// ---------------------------------------------------------------------------
// Features
// ---------------------------------------------------------------------------

/// The hash takes one byte after another.
pub proof fn law_hashes_take_every_byte(bytes: Seq<u8>, b: u8)
    ensures
        fnv(Seq::<u8>::empty()) == 14695981039346656037,
        fnv(bytes.push(b)) == (fnv(bytes) ^ (b as u64)).wrapping_mul(1099511628211),
{
    assert(bytes.push(b).drop_last() =~= bytes);
}

/// A feature is a dimension below 512, the remainder of the hash of the token's
/// bytes, and counts up where the hash's highest bit is set.
pub proof fn law_features_follow_the_hash(token: Seq<char>)
    ensures
        feature(token).0 < 512,
        feature(token).0 as int == fnv(vstd::utf8::encode_utf8(token)) as int % 512,
        feature(token).1 <==> fnv(vstd::utf8::encode_utf8(token)) as int >= 9223372036854775808,
{
}

proof fn lemma_trigrams(word: Seq<char>, n: int)
    requires
        2 <= n <= word.len(),
    ensures
        trigrams(word, n).len() == n - 2,
        forall|i: int| 0 <= i < n - 2 ==> #[trigger] trigrams(word, n)[i] == feature(word.subrange(i, i + 3)),
    decreases n,
{
    if n > 2 {
        lemma_trigrams(word, n - 1);
        let rest = trigrams(word, n - 1);
        let all = trigrams(word, n);
        assert forall|i: int| 0 <= i < n - 2 implies #[trigger] all[i] == feature(word.subrange(i, i + 3)) by {
            if i < n - 3 {
                assert(all[i] == rest[i]);
            }
        }
    }
}

/// The features of a word are its own and that of each three characters in a
/// row.
pub proof fn law_words_have_trigrams(word: Seq<char>)
    ensures
        word_features(word).len() == if word.len() >= 3 {
            word.len() - 1
        } else {
            1
        },
        word_features(word)[0] == feature(word),
        forall|i: int|
            0 <= i <= word.len() - 3 ==> word_features(word)[i + 1] == feature(#[trigger] word.subrange(i, i + 3)),
{
    if word.len() >= 2 {
        lemma_trigrams(word, word.len() as int);
        assert forall|i: int| 0 <= i <= word.len() - 3 implies word_features(word)[i + 1] == feature(
            #[trigger] word.subrange(i, i + 3),
        ) by {
            assert(word_features(word)[i + 1] == trigrams(word, word.len() as int)[i]);
        }
    }
}

proof fn lemma_word_reaches(s: Seq<char>, i: int, e: int)
    requires
        0 <= i <= e <= s.len(),
        forall|j: int| i <= j < e ==> is_alphanumeric(#[trigger] s[j]),
        e < s.len() ==> !is_alphanumeric(s[e]),
    ensures
        word_end(s, i) == e,
    decreases e - i,
{
    if i < e {
        lemma_word_reaches(s, i + 1, e);
    }
}

/// A text that is one word has the features of the word; a text of two parts
/// with a character between them that is neither letter nor number has the
/// features of the first and then those of the second.
pub proof fn law_texts_have_the_features_of_their_words(word: Seq<char>, a: Seq<char>, c: char, b: Seq<char>)
    ensures
        word.len() > 0 && (forall|j: int| 0 <= j < word.len() ==> is_alphanumeric(#[trigger] word[j])) ==> features_from(
            word,
            0,
        ) == word_features(word),
        !is_alphanumeric(c) ==> features_from(a.push(c) + b, 0) == features_from(a, 0) + features_from(b, 0),
{
    if word.len() > 0 && (forall|j: int| 0 <= j < word.len() ==> is_alphanumeric(#[trigger] word[j])) {
        lemma_word_reaches(word, 0, word.len() as int);
        assert(word.subrange(0, word.len() as int) =~= word);
        assert(features_from(word, word.len() as int) =~= Seq::<(usize, bool)>::empty());
        assert(features_from(word, 0) =~= word_features(word));
    }
    if !is_alphanumeric(c) {
        lemma_features_split(a, c, b, 0);
    }
}

proof fn lemma_word_end_bound(s: Seq<char>, i: int)
    requires
        0 <= i <= s.len(),
    ensures
        i <= word_end(s, i) <= s.len(),
        forall|j: int| i <= j < word_end(s, i) ==> is_alphanumeric(#[trigger] s[j]),
        word_end(s, i) < s.len() ==> !is_alphanumeric(s[word_end(s, i)]),
    decreases s.len() - i,
{
    if i < s.len() && is_alphanumeric(s[i]) {
        lemma_word_end_bound(s, i + 1);
    }
}

proof fn lemma_features_shift(x: Seq<char>, b: Seq<char>, i: int)
    requires
        0 <= i <= b.len(),
    ensures
        features_from(x + b, x.len() + i) == features_from(b, i),
    decreases b.len() - i,
{
    if i < b.len() {
        let s = x + b;
        lemma_word_end_bound(b, i);
        let e = word_end(b, i);
        assert forall|j: int| x.len() + i <= j < x.len() + e implies is_alphanumeric(#[trigger] s[j]) by {
            assert(s[j] == b[j - x.len()]);
        }
        lemma_word_reaches(s, x.len() + i, x.len() + e);
        if i < e {
            lemma_features_shift(x, b, e);
            assert(s.subrange(x.len() + i, x.len() + e) =~= b.subrange(i, e));
        } else {
            lemma_features_shift(x, b, i + 1);
        }
    }
}

proof fn lemma_features_split(a: Seq<char>, c: char, b: Seq<char>, i: int)
    requires
        !is_alphanumeric(c),
        0 <= i <= a.len(),
    ensures
        features_from(a.push(c) + b, i) == features_from(a, i) + features_from(b, 0),
    decreases a.len() - i,
{
    let x = a.push(c);
    let s = x + b;
    if i == a.len() {
        assert(s[i] == c);
        lemma_word_reaches(s, i, i);
        lemma_features_shift(x, b, 0);
        assert(features_from(s, i) == features_from(s, i + 1));
        assert(features_from(a, i) + features_from(b, 0) =~= features_from(b, 0));
    } else {
        lemma_word_end_bound(a, i);
        let e = word_end(a, i);
        assert forall|j: int| i <= j < e implies is_alphanumeric(#[trigger] s[j]) by {
            assert(s[j] == a[j]);
        }
        if e < a.len() {
            assert(s[e] == a[e]);
        } else {
            assert(s[e] == c);
        }
        lemma_word_reaches(s, i, e);
        if i < e {
            lemma_features_split(a, c, b, e);
            assert(s.subrange(i, e) =~= a.subrange(i, e));
            let w = word_features(a.subrange(i, e));
            assert(w + (features_from(a, e) + features_from(b, 0)) =~= w + features_from(a, e) + features_from(b, 0));
        } else {
            lemma_features_split(a, c, b, i + 1);
        }
    }
}

/// A store whose memories were made in the same way is kept, one that was made
/// in another way is made anew, and an unreadable one begins empty.
pub proof fn law_stores_are_reopened(found: Seq<char>, current: Seq<char>)
    ensures
        reopened(None, current) == Reopening::Fresh,
        reopened(Some(current), current) == Reopening::Kept,
        found != current ==> reopened(Some(found), current) == Reopening::Reembedded,
{
}

// ---------------------------------------------------------------------------
// Facts
// ---------------------------------------------------------------------------

/// The names of the categories are different.
proof fn lemma_category_names()
    ensures
        forall|a: MemoryCategory, b: MemoryCategory| #[trigger] a.named() == #[trigger] b.named() ==> a == b,
        forall|a: MemoryCategory| free_of(#[trigger] a.named(), ':') && a.named().len() > 0 && !is_space(a.named()[0])
            && !is_space(a.named().last()),
{
    reveal_strlit("UserPreference");
    reveal_strlit("ProjectContext");
    reveal_strlit("Decision");
    reveal_strlit("Fact");
    reveal_strlit("Relationship");
    reveal_strlit("Skill");
    assert forall|a: MemoryCategory, b: MemoryCategory| #[trigger] a.named() == #[trigger] b.named() implies a == b by {
        let x = a.named();
        let y = b.named();
        assert(x.len() == y.len() && x[0] == y[0]);
    }
}

/// A category is known by its name; every other name is that of a plain fact.
pub proof fn law_categories_are_read_back(c: MemoryCategory, name: Seq<char>)
    ensures
        category_of(c.named()) == c,
        category_of(name) != MemoryCategory::Fact ==> category_of(name).named() == name,
        c.named() == "Fact"@ <==> c == MemoryCategory::Fact,
{
    lemma_category_names();
    assert(MemoryCategory::Fact.named() == "Fact"@);
    assert(MemoryCategory::UserPreference.named() == "UserPreference"@);
    assert(MemoryCategory::ProjectContext.named() == "ProjectContext"@);
    assert(MemoryCategory::Decision.named() == "Decision"@);
    assert(MemoryCategory::Relationship.named() == "Relationship"@);
    assert(MemoryCategory::Skill.named() == "Skill"@);
}

/// The text neither begins nor ends with whitespace, and is not empty.
pub open spec fn tidy(s: Seq<char>) -> bool {
    s.len() > 0 && !is_space(s[0]) && !is_space(s.last())
}

/// The line that writes a fact is read back as the fact: its category, its key
/// and its value.
pub proof fn law_written_facts_are_read_back(e: EntryV)
    requires
        tidy(e.key),
        free_of(e.key, '='),
        tidy(e.value),
    ensures
        fact_of(fact_line(e)) == Some((e.category, e.key, e.value)),
{
    lemma_category_names();
    law_categories_are_read_back(e.category, e.category.named());
    reveal_strlit(": ");
    reveal_strlit(" = ");
    reveal_strlit("NONE");
    let c = e.category.named();
    let line = fact_line(e);
    let none = Seq::<char>::empty();
    assert(line =~= none + line + none);
    assert(line[0] == c[0]);
    assert(line.last() == e.value.last());
    law_trimming_leaves_the_text(none, line, none);
    let k = c.len() as int;
    assert(line[k] == ':');
    lemma_next_char(line, ':', 0);
    let at = next_char(line, ':', 0);
    if at < k {
        assert(c[at] == ':');
    }
    assert(at == k);
    let q = k + 2 + e.key.len() + 1;
    assert(line[q] == '=');
    lemma_next_char(line, '=', k + 1);
    let eq = next_char(line, '=', k + 1);
    if eq < q {
        if k + 2 <= eq < k + 2 + e.key.len() {
            assert(e.key[eq - k - 2] == '=');
        }
    }
    assert(eq == q);
    assert(line.subrange(0, k) =~= none + c + none);
    law_trimming_leaves_the_text(none, c, none);
    assert(none + c + none =~= c);
    assert(line.subrange(k + 1, q) =~= seq![' '] + e.key + seq![' ']);
    law_trimming_leaves_the_text(seq![' '], e.key, seq![' ']);
    assert(line.subrange(q + 1, line.len() as int) =~= seq![' '] + e.value + none);
    law_trimming_leaves_the_text(seq![' '], e.value, none);
    if line == "NONE"@ {
        assert("NONE"@[k] != ':');
    }
}

/// The line writes a fact.
pub open spec fn writes_fact(line: Seq<char>) -> bool {
    fact_of(line) is Some
}

/// The facts of an answer are those of its lines, all of them and in order.
pub proof fn law_facts_are_read_line_by_line(ls: Seq<Seq<char>>)
    ensures
        facts_of(ls).len() == ls.filter(|l: Seq<char>| writes_fact(l)).len(),
        forall|i: int|
            0 <= i < facts_of(ls).len() ==> Some(#[trigger] facts_of(ls)[i]) == fact_of(
                ls.filter(|l: Seq<char>| writes_fact(l))[i],
            ),
    decreases ls.len(),
{
    reveal(Seq::filter);
    if ls.len() > 0 {
        law_facts_are_read_line_by_line(ls.drop_last());
        let f = |l: Seq<char>| writes_fact(l);
        let rest = ls.drop_last().filter(f);
        let all = ls.filter(f);
        let t = facts_of(ls);
        assert forall|i: int| 0 <= i < t.len() implies Some(#[trigger] t[i]) == fact_of(all[i]) by {
            if i < rest.len() {
                assert(all[i] == rest[i]);
                assert(t[i] == facts_of(ls.drop_last())[i]);
            }
        }
    }
}

/// A line without a colon, or without an equals sign behind it, writes no fact.
pub proof fn law_other_lines_are_no_facts(line: Seq<char>)
    ensures
        free_of(trim(line), ':') ==> fact_of(line) is None,
        free_of(trim(line), '=') ==> fact_of(line) is None,
        trim(line).len() == 0 ==> fact_of(line) is None,
{
    let t = trim(line);
    lemma_next_char(t, ':', 0);
    let c = next_char(t, ':', 0);
    if c < t.len() {
        lemma_next_char(t, '=', c + 1);
        let e = next_char(t, '=', c + 1);
        if e < t.len() {
            assert(t[e] == '=');
            assert(t[c] == ':');
        }
    }
}

/// A fact that is set holds its key, its value and its category with full
/// confidence, made and used at its time and never read.
pub proof fn law_set_facts_are_new(key: Seq<char>, value: Seq<char>, category: MemoryCategory, now: u64)
    ensures
        ({
            let e = new_entry(key, value, category, now);
            &&& e.key == key
            &&& e.value == value
            &&& e.category == category
            &&& e.confidence_bits == FULL_CONFIDENCE
            &&& FULL_CONFIDENCE == 1065353216
            &&& e.created_at == now
            &&& e.last_accessed == now
            &&& e.access_count == 0
        }),
{
}

/// Of two facts the one that was used less often is weaker, or that which was
/// used longer ago; a fact is not weaker than itself.
pub proof fn law_rarely_used_facts_are_weaker(a: EntryV, b: EntryV)
    ensures
        a.access_count < b.access_count ==> weaker(a, b) && !weaker(b, a),
        a.access_count == b.access_count && a.last_accessed < b.last_accessed ==> weaker(a, b) && !weaker(b, a),
        a.access_count == b.access_count && a.last_accessed == b.last_accessed ==> !weaker(a, b),
{
}

/// Of the facts that are put in, each key holds the last that was given for it,
/// and there is nothing else.
pub proof fn law_the_last_fact_of_a_key_counts(
    facts: Seq<(MemoryCategory, String, String)>,
    now: u64,
    i: int,
    key: Seq<char>,
)
    ensures
        0 <= i < facts.len() && (forall|j: int| i < j < facts.len() ==> (#[trigger] facts[j]).1@ != facts[i].1@) ==> {
            &&& facts_map(facts, now).dom().contains(facts[i].1@)
            &&& facts_map(facts, now)[facts[i].1@].value == facts[i].2@
            &&& facts_map(facts, now)[facts[i].1@].category == facts[i].0
            &&& facts_map(facts, now)[facts[i].1@].created_at == now
        },
        facts_map(facts, now).dom().contains(key) <==> exists|j: int| 0 <= j < facts.len() && (#[trigger] facts[j]).1@ == key,
    decreases facts.len(),
{
    if facts.len() > 0 {
        let less = facts.drop_last();
        law_the_last_fact_of_a_key_counts(less, now, i, key);
        let m = facts_map(facts, now);
        if 0 <= i < facts.len() && (forall|j: int| i < j < facts.len() ==> (#[trigger] facts[j]).1@ != facts[i].1@) {
            if i < less.len() {
                assert(facts[facts.len() - 1].1@ != facts[i].1@);
                assert(less[i] == facts[i]);
                assert forall|j: int| i < j < less.len() implies (#[trigger] less[j]).1@ != less[i].1@ by {
                    assert(less[j] == facts[j]);
                }
            }
        }
        if m.dom().contains(key) {
            if key == facts.last().1@ {
                assert(facts[facts.len() - 1].1@ == key);
            } else {
                let j = choose|j: int| 0 <= j < less.len() && (#[trigger] less[j]).1@ == key;
                assert(facts[j].1@ == key);
            }
        }
        if exists|j: int| 0 <= j < facts.len() && (#[trigger] facts[j]).1@ == key {
            let j = choose|j: int| 0 <= j < facts.len() && (#[trigger] facts[j]).1@ == key;
            if j < less.len() {
                assert(less[j].1@ == key);
            }
        }
    }
}

/// The line of a fact in a prompt shows its category, its key and its value.
pub proof fn law_facts_are_shown_in_order(order: Seq<Seq<char>>, m: Map<Seq<char>, EntryV>, i: int)
    requires
        0 <= i < order.len(),
    ensures
        shown(order, m).len() == order.len(),
        shown(order, m)[i] == seq!['['] + m[order[i]].category.named() + seq![']', ' '] + m[order[i]].key + seq![
            ':',
            ' ',
        ] + m[order[i]].value,
{
    reveal_strlit("[");
    reveal_strlit("] ");
    reveal_strlit(": ");
    assert("["@ =~= seq!['[']);
    assert("] "@ =~= seq![']', ' ']);
    assert(": "@ =~= seq![':', ' ']);
}

// ---------------------------------------------------------------------------
// Lists and changes
// ---------------------------------------------------------------------------

/// Texts that differ in case alone have the same features.
pub proof fn law_features_ignore_case(a: Seq<char>, b: Seq<char>)
    requires
        lowercase(a) == lowercase(b),
    ensures
        features(a) == features(b),
{
}

/// The name is that of a transcript.
pub open spec fn is_transcript(name: Seq<char>) -> bool {
    session_in(name) is Some
}

/// The sessions with a transcript are those whose file is there, all of them and in
/// the order of the files.
pub proof fn law_sessions_are_those_of_the_transcripts(names: Seq<Seq<char>>)
    ensures
        sessions_in(names).len() == names.filter(|n: Seq<char>| is_transcript(n)).len(),
        forall|i: int|
            0 <= i < sessions_in(names).len() ==> session_in(names.filter(|n: Seq<char>| is_transcript(n))[i]) == Some(
                #[trigger] sessions_in(names)[i],
            ),
    decreases names.len(),
{
    reveal(Seq::filter);
    if names.len() > 0 {
        law_sessions_are_those_of_the_transcripts(names.drop_last());
        let f = |n: Seq<char>| is_transcript(n);
        let rest = names.drop_last().filter(f);
        let all = names.filter(f);
        let t = sessions_in(names);
        assert forall|i: int| 0 <= i < t.len() implies session_in(all[i]) == Some(#[trigger] t[i]) by {
            if i < rest.len() {
                assert(all[i] == rest[i]);
                assert(t[i] == sessions_in(names.drop_last())[i]);
            }
        }
    }
}

/// A snapshot counts with the version in the name of its file, if it can be read.
pub proof fn law_readable_snapshots_count(names: Seq<Seq<char>>, decodes: Seq<bool>, i: int, v: u64)
    requires
        0 <= i < names.len(),
        decodes.len() == names.len(),
        names[i] == file_of(v),
    ensures
        decodes[i] ==> valid_version(names, decodes, i) == Some(v),
        !decodes[i] ==> valid_version(names, decodes, i) is None,
{
    law_versions_are_read_back(v);
}

/// A change of a chat makes it what it became and leaves all others as they were; a
/// chat that is not there is named, and nothing changes.
pub proof fn law_other_chats_stay(
    before: Map<Seq<char>, ChatV>,
    after: Map<Seq<char>, ChatV>,
    id: Seq<char>,
    chat: ChatV,
    e: ChatErrorV,
    other: Seq<char>,
)
    ensures
        became(before, after, id, chat) ==> after[id] == chat && before.dom().contains(id) && after.dom() == before.dom(),
        became(before, after, id, chat) && other != id && before.dom().contains(other) ==> after[other] == before[other],
        became(before, after, id, chat) ==> !unknown(before, after, id, e),
        unknown(before, after, id, e) ==> after == before && e == ChatErrorV::NotFound(id) && !before.dom().contains(
            id,
        ),
{
    if became(before, after, id, chat) {
        assert(after.dom() =~= before.dom());
    }
}

/// Starred chats are listed first; among the starred, and among the others, those
/// that were used last come first. Files are listed newest first.
pub proof fn law_lists_are_in_order<'a>(chats: Seq<&'a Chat>, files: Seq<&'a FileEntry>, i: int, j: int)
    requires
        sorted(chats),
        sorted(files),
        0 <= i < j,
    ensures
        j < chats.len() && chats[j].starred ==> chats[i].starred,
        j < chats.len() && chats[i].starred == chats[j].starred ==> chats[i].last_active >= chats[j].last_active,
        j < files.len() ==> files[i].uploaded_at >= files[j].uploaded_at,
{
    if j < chats.len() {
        assert(!<&'a Chat>::comes_before(chats[j], chats[i]));
    }
    if j < files.len() {
        assert(!<&'a FileEntry>::comes_before(files[j], files[i]));
    }
}

/// The files of an id lie in the directory of its first two characters.
pub proof fn law_files_are_sorted_by_their_beginning(id: Seq<char>)
    requires
        id.len() >= 2,
        utf8_width(id[0]) == 1,
        utf8_width(id[1]) == 1,
    ensures
        shard_of(id) == Some(id.take(2)),
{
    lemma_utf8_bytes_first(id);
    lemma_utf8_bytes_first(id.skip(1));
    let rest = id.skip(1).skip(1);
    if rest.len() > 0 {
        lemma_utf8_bytes_first(rest);
        assert(byte_cut(id, 0, 2) == Some(2int));
        assert(byte_cut(id, 1, 1) == Some(2int));
        assert(byte_cut(id, 2, 0) == Some(2int));
        assert(id.subrange(0, 2) =~= id.take(2));
    } else {
        assert(id.take(2) =~= id);
    }
}

/// The files that are found hold what was looked for, all that do are found, and the
/// newest come first.
pub proof fn law_searched_files_are_found(r: Seq<&FileEntry>, m: Map<Seq<char>, FileEntry>, q: Seq<char>, k: Seq<char>, i: int, j: int)
    requires
        found(r, m, q),
    ensures
        0 <= i < r.len() ==> files::mentions(r[i]@, q) && exists|id: Seq<char>| #[trigger]
            m.dom().contains(id) && m[id] == *r[i],
        m.dom().contains(k) && files::mentions(m[k]@, q) ==> exists|n: int| 0 <= n < r.len() && *(#[trigger] r[n]) == m[k],
        0 <= i < j < r.len() ==> r[i].uploaded_at >= r[j].uploaded_at && r[i].id@ != r[j].id@,
{
    if 0 <= i < r.len() {
        assert(has_value(m, *r[i]));
    }
    if 0 <= i < j < r.len() {
        assert(!<&FileEntry>::comes_before(r[j], r[i]));
        assert(r[i].id@ != r[j].id@);
    }
}

} // verus!
