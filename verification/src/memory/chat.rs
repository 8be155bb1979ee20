//! Chats: an agent, a history and attached files, without a directory.
use vstd::prelude::*;

use crate::llm::provider::opt_view;
use crate::memory::messages::{StoredMessage, StoredV, copy_first, stored_views};
use crate::outside::{now_unix, random_id};
use crate::session::copy_opt;
use crate::table::{Ranked, Table, has_value, lemma_permuted, lists, listing, sort, sorted};
use crate::text::{concat, contains, decimal, decimal_text, has, lowercase, same, to_lower, trim, trimmed};

verus! {

// ---------------------------------------------------------------------------
// Values
// ---------------------------------------------------------------------------

/// Why the store refused something.
#[derive(Debug)]
pub enum ChatError {
    NotFound(String),
    BadIndex { idx: usize, len: usize },
    Invalid(String),
}

pub enum ChatErrorV {
    NotFound(Seq<char>),
    BadIndex { idx: usize, len: usize },
    Invalid(Seq<char>),
}

impl View for ChatError {
    type V = ChatErrorV;

    open spec fn view(&self) -> ChatErrorV {
        match *self {
            ChatError::NotFound(m) => ChatErrorV::NotFound(m@),
            ChatError::BadIndex { idx, len } => ChatErrorV::BadIndex { idx, len },
            ChatError::Invalid(m) => ChatErrorV::Invalid(m@),
        }
    }
}

impl ChatErrorV {
    /// The error in words.
    pub open spec fn text(self) -> Seq<char> {
        match self {
            ChatErrorV::NotFound(m) => "chat not found: "@ + m,
            ChatErrorV::BadIndex { idx, len } => "invalid index "@ + decimal(idx as nat) + " into chat with "@
                + decimal(len as nat) + " messages"@,
            ChatErrorV::Invalid(m) => "invalid: "@ + m,
        }
    }
}

impl ChatError {
    /// The error in words.
    pub fn message(&self) -> (r: String)
        ensures
            r@ == self@.text(),
    {
        match self {
            ChatError::NotFound(m) => concat("chat not found: ", m.as_str()),
            ChatError::BadIndex { idx, len } => {
                let a = concat("invalid index ", decimal_text(*idx as u64).as_str());
                let b = concat(a.as_str(), " into chat with ");
                let c = concat(b.as_str(), decimal_text(*len as u64).as_str());
                concat(c.as_str(), " messages")
            },
            ChatError::Invalid(m) => concat("invalid: ", m.as_str()),
        }
    }
}

/// A file that a chat refers to.
#[derive(Debug)]
pub struct ChatAttachment {
    /// The id of the file.
    pub file_id: String,
    /// A pinned file is sent with every turn until it is removed.
    pub pinned: bool,
    pub added_at: u64,
}

pub struct AttachmentV {
    pub file_id: Seq<char>,
    pub pinned: bool,
    pub added_at: u64,
}

impl View for ChatAttachment {
    type V = AttachmentV;

    open spec fn view(&self) -> AttachmentV {
        AttachmentV { file_id: self.file_id@, pinned: self.pinned, added_at: self.added_at }
    }
}

impl ChatAttachment {
    /// A copy.
    pub fn copy(&self) -> (r: ChatAttachment)
        ensures
            r@ == self@,
    {
        ChatAttachment { file_id: self.file_id.clone(), pinned: self.pinned, added_at: self.added_at }
    }
}

pub open spec fn attachment_views(v: Seq<ChatAttachment>) -> Seq<AttachmentV> {
    v.map_values(|a: ChatAttachment| a@)
}

fn copy_attachments(v: &Vec<ChatAttachment>) -> (r: Vec<ChatAttachment>)
    ensures
        attachment_views(r@) == attachment_views(v@),
{
    let mut out: Vec<ChatAttachment> = Vec::new();
    let mut i: usize = 0;
    while i < v.len()
        invariant
            i <= v@.len(),
            out@.len() == i,
            forall|k: int| 0 <= k < i ==> (#[trigger] out@[k])@ == v@[k]@,
        decreases v@.len() - i,
    {
        out.push(v[i].copy());
        i += 1;
    }
    proof {
        assert(attachment_views(out@) =~= attachment_views(v@));
    }
    out
}

/// A conversation with one agent.
#[derive(Debug)]
pub struct Chat {
    pub id: String,
    pub name: String,
    pub agent_id: String,
    /// The system prompt of this chat, where it is not the agent's.
    pub system_override: Option<String>,
    /// The model of this chat, where it is not the agent's.
    pub model_override: Option<String>,
    pub starred: bool,
    /// The chat that this one was forked from.
    pub parent_id: Option<String>,
    /// Where in the parent this chat begins to differ.
    pub forked_at_message: Option<usize>,
    pub messages: Vec<StoredMessage>,
    pub attachments: Vec<ChatAttachment>,
    pub created_at: u64,
    pub last_active: u64,
}

pub struct ChatV {
    pub id: Seq<char>,
    pub name: Seq<char>,
    pub agent_id: Seq<char>,
    pub system_override: Option<Seq<char>>,
    pub model_override: Option<Seq<char>>,
    pub starred: bool,
    pub parent_id: Option<Seq<char>>,
    pub forked_at_message: Option<usize>,
    pub messages: Seq<StoredV>,
    pub attachments: Seq<AttachmentV>,
    pub created_at: u64,
    pub last_active: u64,
}

impl View for Chat {
    type V = ChatV;

    open spec fn view(&self) -> ChatV {
        ChatV {
            id: self.id@,
            name: self.name@,
            agent_id: self.agent_id@,
            system_override: opt_view(self.system_override),
            model_override: opt_view(self.model_override),
            starred: self.starred,
            parent_id: opt_view(self.parent_id),
            forked_at_message: self.forked_at_message,
            messages: stored_views(self.messages@),
            attachments: attachment_views(self.attachments@),
            created_at: self.created_at,
            last_active: self.last_active,
        }
    }
}

/// A chat without messages.
pub open spec fn new_chat(id: Seq<char>, agent_id: Seq<char>, name: Seq<char>, now: u64) -> ChatV {
    ChatV {
        id,
        name,
        agent_id,
        system_override: None,
        model_override: None,
        starred: false,
        parent_id: None,
        forked_at_message: None,
        messages: Seq::empty(),
        attachments: Seq::empty(),
        created_at: now,
        last_active: now,
    }
}

/// The name of a new chat: the one asked for, or a default one where it is
/// blank.
pub open spec fn name_or_default(name: Seq<char>) -> Seq<char> {
    if trim(name).len() == 0 {
        "New chat"@
    } else {
        trim(name)
    }
}

/// A chat that continues another one behind its first messages, with a message
/// in place of the next one.
pub open spec fn forked(parent: ChatV, id: Seq<char>, at: usize, replacement: Option<StoredV>, now: u64) -> ChatV {
    ChatV {
        name: parent.name + " (fork)"@,
        system_override: parent.system_override,
        model_override: parent.model_override,
        parent_id: Some(parent.id),
        forked_at_message: Some(at),
        messages: match replacement {
            Some(m) => parent.messages.take(at as int).push(m),
            None => parent.messages.take(at as int),
        },
        ..new_chat(id, parent.agent_id, parent.name, now)
    }
}

/// The text occurs in the name or in a message, whatever the case.
pub open spec fn mentions(c: ChatV, q: Seq<char>) -> bool {
    contains(lowercase(c.name), q) || exists|i: int|
        0 <= i < c.messages.len() && contains(lowercase((#[trigger] c.messages[i]).content), q)
}

/// The file is attached.
pub open spec fn attached(v: Seq<AttachmentV>, file_id: Seq<char>) -> bool {
    exists|i: int| 0 <= i < v.len() && (#[trigger] v[i]).file_id == file_id
}

/// No file is listed twice.
pub open spec fn listed_once(v: Seq<AttachmentV>) -> bool {
    forall|i: int, j: int| 0 <= i < j < v.len() ==> (#[trigger] v[i]).file_id != (#[trigger] v[j]).file_id
}

/// The chat with a file attached at a time, unless it is attached already.
pub open spec fn with_file(c: ChatV, file_id: Seq<char>, now: u64) -> ChatV {
    if attached(c.attachments, file_id) {
        c
    } else {
        ChatV {
            attachments: c.attachments.push(AttachmentV { file_id, pinned: false, added_at: now }),
            last_active: now,
            ..c
        }
    }
}

/// The attachments but for those of a file.
pub open spec fn detached(v: Seq<AttachmentV>, file_id: Seq<char>) -> Seq<AttachmentV>
    decreases v.len(),
{
    if v.len() == 0 {
        v
    } else if v.last().file_id == file_id {
        detached(v.drop_last(), file_id)
    } else {
        detached(v.drop_last(), file_id).push(v.last())
    }
}

/// The position of the first attachment of a file, from `i` on.
pub open spec fn attachment_from(v: Seq<AttachmentV>, file_id: Seq<char>, i: int) -> Option<int>
    decreases v.len() - i,
{
    if i < 0 || i >= v.len() {
        None
    } else if v[i].file_id == file_id {
        Some(i)
    } else {
        attachment_from(v, file_id, i + 1)
    }
}

/// The attachments that stay after a turn.
pub open spec fn pinned_only(v: Seq<AttachmentV>) -> Seq<AttachmentV>
    decreases v.len(),
{
    if v.len() == 0 {
        v
    } else if v.last().pinned {
        pinned_only(v.drop_last()).push(v.last())
    } else {
        pinned_only(v.drop_last())
    }
}

impl Chat {
    /// A copy.
    pub fn copy(&self) -> (r: Chat)
        ensures
            r@ == self@,
    {
        let messages = copy_first(&self.messages, self.messages.len());
        proof {
            assert(stored_views(self.messages@).take(self.messages@.len() as int) =~= stored_views(self.messages@));
        }
        Chat {
            id: self.id.clone(),
            name: self.name.clone(),
            agent_id: self.agent_id.clone(),
            system_override: copy_opt(&self.system_override),
            model_override: copy_opt(&self.model_override),
            starred: self.starred,
            parent_id: copy_opt(&self.parent_id),
            forked_at_message: self.forked_at_message,
            messages,
            attachments: copy_attachments(&self.attachments),
            created_at: self.created_at,
            last_active: self.last_active,
        }
    }

    fn fresh(id: String, agent_id: &str, name: String, now: u64) -> (r: Chat)
        ensures
            r@ == new_chat(id@, agent_id@, name@, now),
    {
        let messages: Vec<StoredMessage> = Vec::new();
        let attachments: Vec<ChatAttachment> = Vec::new();
        proof {
            assert(stored_views(messages@) =~= Seq::<StoredV>::empty());
            assert(attachment_views(attachments@) =~= Seq::<AttachmentV>::empty());
        }
        Chat {
            id,
            name,
            agent_id: agent_id.to_owned(),
            system_override: None,
            model_override: None,
            starred: false,
            parent_id: None,
            forked_at_message: None,
            messages,
            attachments,
            created_at: now,
            last_active: now,
        }
    }

    fn mentions(&self, q: &str) -> (r: bool)
        ensures
            r == mentions(self@, q@),
    {
        if has(to_lower(self.name.as_str()).as_str(), q) {
            return true;
        }
        let mut i: usize = 0;
        while i < self.messages.len()
            invariant
                i <= self.messages@.len(),
                forall|k: int| 0 <= k < i ==> !contains(lowercase((#[trigger] self@.messages[k]).content), q@),
            decreases self.messages@.len() - i,
        {
            proof {
                assert(self@.messages[i as int] == self.messages@[i as int]@);
            }
            if has(to_lower(self.messages[i].content.as_str()).as_str(), q) {
                return true;
            }
            i += 1;
        }
        false
    }

    fn attachment_at(&self, file_id: &str) -> (r: Option<usize>)
        ensures
            match r {
                Some(i) => attachment_from(self@.attachments, file_id@, 0) == Some(i as int) && i
                    < self.attachments@.len() && attached(self@.attachments, file_id@),
                None => attachment_from(self@.attachments, file_id@, 0) is None && !attached(
                    self@.attachments,
                    file_id@,
                ),
            },
    {
        let mut i: usize = 0;
        while i < self.attachments.len()
            invariant
                i <= self.attachments@.len(),
                attachment_from(self@.attachments, file_id@, 0) == attachment_from(
                    self@.attachments,
                    file_id@,
                    i as int,
                ),
                forall|k: int| 0 <= k < i ==> (#[trigger] self@.attachments[k]).file_id != file_id@,
            decreases self.attachments@.len() - i,
        {
            proof {
                assert(self@.attachments[i as int] == self.attachments@[i as int]@);
            }
            if same(self.attachments[i].file_id.as_str(), file_id) {
                return Some(i);
            }
            i += 1;
        }
        None
    }
}

// ---------------------------------------------------------------------------
// Orders
// ---------------------------------------------------------------------------

impl<'a> Ranked for &'a Chat {
    /// Starred chats come first, and then those that were used later.
    open spec fn comes_before(a: &'a Chat, b: &'a Chat) -> bool {
        (a.starred && !b.starred) || (a.starred == b.starred && a.last_active > b.last_active)
    }

    proof fn order_is_strict(a: &'a Chat, b: &'a Chat, c: &'a Chat) {
    }

    fn ranks_before(&self, other: &&'a Chat) -> (r: bool) {
        (self.starred && !other.starred) || (self.starred == other.starred && self.last_active > other.last_active)
    }
}

/// A chat in the order in which chats were used.
struct Recent<'a> {
    chat: &'a Chat,
}

impl<'a> Ranked for Recent<'a> {
    closed spec fn comes_before(a: Recent<'a>, b: Recent<'a>) -> bool {
        a.chat.last_active > b.chat.last_active
    }

    proof fn order_is_strict(a: Recent<'a>, b: Recent<'a>, c: Recent<'a>) {
    }

    fn ranks_before(&self, other: &Recent<'a>) -> (r: bool) {
        self.chat.last_active > other.chat.last_active
    }
}

/// The chat mentions what is searched for; all do where that is blank.
pub open spec fn answers(c: ChatV, query: Seq<char>) -> bool {
    trim(query).len() == 0 || mentions(c, lowercase(trim(query)))
}

/// The list holds the chats that mention what is searched for, each once, the
/// latest first.
pub open spec fn found(r: Seq<&Chat>, m: Map<Seq<char>, Chat>, query: Seq<char>) -> bool {
    &&& forall|i: int| 0 <= i < r.len() ==> has_value(m, *(#[trigger] r[i])) && answers(r[i]@, query)
    &&& forall|k: Seq<char>|
        #[trigger] m.dom().contains(k) && answers(m[k]@, query) ==> exists|i: int| 0 <= i < r.len() && *(#[trigger] r[i])
            == m[k]
    &&& forall|i: int, j: int| 0 <= i < j < r.len() ==> (#[trigger] r[i]).id@ != (#[trigger] r[j]).id@
    &&& forall|i: int, j: int| 0 <= i < j < r.len() ==> (#[trigger] r[i]).last_active >= (#[trigger] r[j]).last_active
}

// ---------------------------------------------------------------------------
// The store
// ---------------------------------------------------------------------------

/// All chats.
pub struct ChatStore {
    by_id: Table<Chat>,
}

/// Nothing changed but one chat, which became another.
pub open spec fn became(before: Map<Seq<char>, ChatV>, after: Map<Seq<char>, ChatV>, id: Seq<char>, chat: ChatV) -> bool {
    before.dom().contains(id) && after == before.insert(id, chat)
}

/// There is no such chat, and nothing changed.
pub open spec fn unknown(
    before: Map<Seq<char>, ChatV>,
    after: Map<Seq<char>, ChatV>,
    id: Seq<char>,
    e: ChatErrorV,
) -> bool {
    !before.dom().contains(id) && e == ChatErrorV::NotFound(id) && after == before
}

impl ChatStore {
    /// The chats by their ids.
    pub closed spec fn chats(&self) -> Map<Seq<char>, Chat> {
        self.by_id@
    }

    /// The chats by their ids, each by its view.
    pub open spec fn view(&self) -> Map<Seq<char>, ChatV> {
        self.chats().map_values(|c: Chat| c@)
    }

    /// Each chat stands under its own id.
    pub open spec fn wf(&self) -> bool {
        forall|k: Seq<char>| #[trigger] self@.dom().contains(k) ==> self@[k].id == k
    }

    /// A store without chats.
    pub fn new() -> (r: ChatStore)
        ensures
            r.wf(),
            r@ == Map::<Seq<char>, ChatV>::empty(),
    {
        let r = ChatStore { by_id: Table::new() };
        proof {
            assert(r@ =~= Map::<Seq<char>, ChatV>::empty());
        }
        r
    }

    /// Takes a stored chat in.
    pub fn load(&mut self, chat: Chat)
        requires
            old(self).wf(),
        ensures
            final(self).wf(),
            final(self)@ == old(self)@.insert(chat@.id, chat@),
    {
        let ghost before = self@;
        let id = chat.id.clone();
        self.by_id.insert(id, chat);
        proof {
            assert(self@ =~= before.insert(chat@.id, chat@));
        }
    }

    fn take(&mut self, id: &str) -> (r: Result<Chat, ChatError>)
        requires
            old(self).wf(),
        ensures
            final(self).wf(),
            final(self)@ == old(self)@.remove(id@),
            match r {
                Ok(c) => old(self)@.dom().contains(id@) && c@ == old(self)@[id@] && c@.id == id@ && forall|chat: ChatV|
                    #[trigger] old(self)@.remove(id@).insert(id@, chat) == old(self)@.insert(id@, chat),
                Err(e) => unknown(old(self)@, final(self)@, id@, e@),
            },
    {
        let ghost before = self@;
        let taken = self.by_id.remove(id);
        proof {
            assert(self@ =~= before.remove(id@));
        }
        match taken {
            Some(c) => {
                proof {
                    assert(before.dom().contains(id@));
                    assert(c@ == before[id@]);
                    assert forall|chat: ChatV| #[trigger] before.remove(id@).insert(id@, chat) == before.insert(
                        id@,
                        chat,
                    ) by {
                        assert(before.remove(id@).insert(id@, chat) =~= before.insert(id@, chat));
                    }
                }
                Ok(c)
            },
            None => {
                proof {
                    assert(before.remove(id@) =~= before);
                }
                Err(ChatError::NotFound(id.to_owned()))
            },
        }
    }

    /// Makes a chat under the given id at the given time.
    pub fn create_at(&mut self, id: String, now: u64, agent_id: &str, name: &str) -> (r: Chat)
        requires
            old(self).wf(),
        ensures
            final(self).wf(),
            r@ == new_chat(id@, agent_id@, name_or_default(name@), now),
            final(self)@ == old(self)@.insert(id@, r@),
    {
        let wanted = trimmed(name);
        let given = if wanted.as_str().unicode_len() == 0 {
            "New chat".to_owned()
        } else {
            wanted
        };
        let chat = Chat::fresh(id, agent_id, given, now);
        let copy = chat.copy();
        self.load(chat);
        copy
    }

    /// Makes a chat under a new id now.
    pub fn create(&mut self, agent_id: &str, name: &str) -> (r: Chat)
        requires
            old(self).wf(),
        ensures
            final(self).wf(),
            r@ == new_chat(r@.id, agent_id@, name_or_default(name@), r@.created_at),
            r@.id.len() == 41 && r@.id.take(5) == "chat-"@,
            final(self)@ == old(self)@.insert(r@.id, r@),
    {
        let drawn = random_id();
        let id = concat("chat-", drawn.as_str());
        proof {
            reveal_strlit("chat-");
            assert(id@.take(5) =~= "chat-"@);
        }
        self.create_at(id, now_unix(), agent_id, name)
    }

    /// The chat with an id.
    pub fn get(&self, id: &str) -> (r: Option<&Chat>)
        ensures
            match r {
                Some(c) => self@.dom().contains(id@) && c@ == self@[id@],
                None => !self@.dom().contains(id@),
            },
    {
        self.by_id.get(id)
    }

    /// All chats, starred ones first, then those that were used later.
    pub fn list(&self) -> (r: Vec<&Chat>)
        ensures
            sorted(r@),
            lists(r@, self.chats()),
    {
        listing(&self.by_id)
    }

    /// Adds a message at a time.
    pub fn append_message_at(&mut self, id: &str, msg: StoredMessage, now: u64) -> (r: Result<(), ChatError>)
        requires
            old(self).wf(),
        ensures
            final(self).wf(),
            match r {
                Ok(_) => became(
                    old(self)@,
                    final(self)@,
                    id@,
                    (ChatV {
                        messages: old(self)@[id@].messages.push(msg@),
                        last_active: now,
                        ..old(self)@[id@]
                    }),
                ),
                Err(e) => unknown(old(self)@, final(self)@, id@, e@),
            },
    {
        let mut c = match self.take(id) {
            Ok(c) => c,
            Err(e) => {
                return Err(e);
            },
        };
        let ghost was = c@;
        c.messages.push(msg);
        c.last_active = now;
        proof {
            assert(c@.messages =~= was.messages.push(msg@));
        }
        self.load(c);
        Ok(())
    }

    /// Adds a message now.
    pub fn append_message(&mut self, id: &str, msg: StoredMessage) -> (r: Result<(), ChatError>)
        requires
            old(self).wf(),
        ensures
            final(self).wf(),
            match r {
                Ok(_) => became(
                    old(self)@,
                    final(self)@,
                    id@,
                    (ChatV {
                        messages: old(self)@[id@].messages.push(msg@),
                        last_active: final(self)@[id@].last_active,
                        ..old(self)@[id@]
                    }),
                ),
                Err(e) => unknown(old(self)@, final(self)@, id@, e@),
            },
    {
        self.append_message_at(id, msg, now_unix())
    }

    /// Attaches a file at a time; one that is attached already stays as it is.
    pub fn add_attachment_at(&mut self, chat_id: &str, file_id: &str, now: u64) -> (r: Result<(), ChatError>)
        requires
            old(self).wf(),
        ensures
            final(self).wf(),
            match r {
                Ok(_) => became(old(self)@, final(self)@, chat_id@, with_file(old(self)@[chat_id@], file_id@, now)),
                Err(e) => unknown(old(self)@, final(self)@, chat_id@, e@),
            },
    {
        let mut c = match self.take(chat_id) {
            Ok(c) => c,
            Err(e) => {
                return Err(e);
            },
        };
        let ghost was = c@;
        if c.attachment_at(file_id).is_none() {
            let a = ChatAttachment { file_id: file_id.to_owned(), pinned: false, added_at: now };
            c.attachments.push(a);
            c.last_active = now;
            proof {
                assert(c@.attachments =~= was.attachments.push(a@));
            }
        }
        self.load(c);
        Ok(())
    }

    /// Attaches a file now.
    pub fn add_attachment(&mut self, chat_id: &str, file_id: &str) -> (r: Result<(), ChatError>)
        requires
            old(self).wf(),
        ensures
            final(self).wf(),
            match r {
                Ok(_) => exists|now: u64|
                    became(
                        old(self)@,
                        final(self)@,
                        chat_id@,
                        #[trigger] with_file(old(self)@[chat_id@], file_id@, now),
                    ),
                Err(e) => unknown(old(self)@, final(self)@, chat_id@, e@),
            },
    {
        self.add_attachment_at(chat_id, file_id, now_unix())
    }

    /// Detaches a file. Whether it was attached.
    pub fn remove_attachment(&mut self, chat_id: &str, file_id: &str) -> (r: Result<bool, ChatError>)
        requires
            old(self).wf(),
        ensures
            final(self).wf(),
            match r {
                Ok(gone) => {
                    &&& became(
                        old(self)@,
                        final(self)@,
                        chat_id@,
                        (ChatV {
                            attachments: detached(old(self)@[chat_id@].attachments, file_id@),
                            ..old(self)@[chat_id@]
                        }),
                    )
                    &&& gone == (detached(old(self)@[chat_id@].attachments, file_id@).len() < old(
                        self,
                    )@[chat_id@].attachments.len())
                },
                Err(e) => unknown(old(self)@, final(self)@, chat_id@, e@),
            },
    {
        let mut c = match self.take(chat_id) {
            Ok(c) => c,
            Err(e) => {
                return Err(e);
            },
        };
        let ghost all = c@.attachments;
        let n: usize = c.attachments.len();
        let mut kept: Vec<ChatAttachment> = Vec::new();
        let mut i: usize = 0;
        proof {
            assert(attachment_views(kept@) =~= all.take(0));
        }
        while i < c.attachments.len()
            invariant
                i <= c.attachments@.len(),
                all == attachment_views(c.attachments@),
                attachment_views(kept@) == detached(all.take(i as int), file_id@),
            decreases c.attachments@.len() - i,
        {
            let ghost was = kept@;
            proof {
                assert(all.take(i + 1).drop_last() =~= all.take(i as int));
                assert(all.take(i + 1).last() == c.attachments@[i as int]@);
            }
            if !same(c.attachments[i].file_id.as_str(), file_id) {
                let a = c.attachments[i].copy();
                kept.push(a);
                proof {
                    assert(attachment_views(kept@) =~= attachment_views(was).push(a@));
                }
            }
            i += 1;
        }
        proof {
            assert(all.take(all.len() as int) =~= all);
            assert(attachment_views(kept@).len() == kept@.len());
        }
        let gone = kept.len() < n;
        c.attachments = kept;
        self.load(c);
        Ok(gone)
    }

    /// Pins the first attachment of a file, or unpins it. Whether the file is
    /// attached.
    pub fn set_attachment_pinned(&mut self, chat_id: &str, file_id: &str, pinned: bool) -> (r: Result<bool, ChatError>)
        requires
            old(self).wf(),
        ensures
            final(self).wf(),
            match r {
                Ok(there) => {
                    let all = old(self)@[chat_id@].attachments;
                    match attachment_from(all, file_id@, 0) {
                        Some(i) => there && became(
                            old(self)@,
                            final(self)@,
                            chat_id@,
                            (ChatV {
                                attachments: all.update(i, (AttachmentV { pinned, ..all[i] })),
                                ..old(self)@[chat_id@]
                            }),
                        ),
                        None => !there && became(old(self)@, final(self)@, chat_id@, old(self)@[chat_id@]),
                    }
                },
                Err(e) => unknown(old(self)@, final(self)@, chat_id@, e@),
            },
    {
        let mut c = match self.take(chat_id) {
            Ok(c) => c,
            Err(e) => {
                return Err(e);
            },
        };
        let ghost all = c@.attachments;
        match c.attachment_at(file_id) {
            Some(i) => {
                let a = ChatAttachment {
                    file_id: c.attachments[i].file_id.clone(),
                    pinned,
                    added_at: c.attachments[i].added_at,
                };
                proof {
                    assert(all[i as int] == c.attachments@[i as int]@);
                }
                c.attachments.set(i, a);
                proof {
                    assert(c@.attachments =~= all.update(i as int, a@));
                }
                self.load(c);
                Ok(true)
            },
            None => {
                self.load(c);
                Ok(false)
            },
        }
    }

    /// The attachments that a turn sends, in order; those that are not pinned
    /// leave the chat.
    pub fn consume_attachments_for_turn(&mut self, chat_id: &str) -> (r: Result<Vec<ChatAttachment>, ChatError>)
        requires
            old(self).wf(),
        ensures
            final(self).wf(),
            match r {
                Ok(sent) => {
                    &&& attachment_views(sent@) == old(self)@[chat_id@].attachments
                    &&& became(
                        old(self)@,
                        final(self)@,
                        chat_id@,
                        (ChatV {
                            attachments: pinned_only(old(self)@[chat_id@].attachments),
                            ..old(self)@[chat_id@]
                        }),
                    )
                },
                Err(e) => unknown(old(self)@, final(self)@, chat_id@, e@),
            },
    {
        let mut c = match self.take(chat_id) {
            Ok(c) => c,
            Err(e) => {
                return Err(e);
            },
        };
        let ghost all = c@.attachments;
        let mut sent: Vec<ChatAttachment> = Vec::new();
        std::mem::swap(&mut sent, &mut c.attachments);
        let mut kept: Vec<ChatAttachment> = Vec::new();
        let mut i: usize = 0;
        proof {
            assert(attachment_views(kept@) =~= all.take(0));
        }
        while i < sent.len()
            invariant
                i <= sent@.len(),
                all == attachment_views(sent@),
                attachment_views(kept@) == pinned_only(all.take(i as int)),
            decreases sent@.len() - i,
        {
            let ghost was = kept@;
            proof {
                assert(all.take(i + 1).drop_last() =~= all.take(i as int));
                assert(all.take(i + 1).last() == sent@[i as int]@);
            }
            if sent[i].pinned {
                let a = sent[i].copy();
                kept.push(a);
                proof {
                    assert(attachment_views(kept@) =~= attachment_views(was).push(a@));
                }
            }
            i += 1;
        }
        proof {
            assert(all.take(all.len() as int) =~= all);
        }
        c.attachments = kept;
        self.load(c);
        Ok(sent)
    }

    /// Takes the last message out at a time.
    pub fn pop_last_at(&mut self, id: &str, now: u64) -> (r: Result<Option<StoredMessage>, ChatError>)
        requires
            old(self).wf(),
        ensures
            final(self).wf(),
            match r {
                Ok(Some(m)) => {
                    let all = old(self)@[id@].messages;
                    &&& all.len() > 0
                    &&& m@ == all.last()
                    &&& became(
                        old(self)@,
                        final(self)@,
                        id@,
                        (ChatV { messages: all.drop_last(), last_active: now, ..old(self)@[id@] }),
                    )
                },
                Ok(None) => old(self)@[id@].messages.len() == 0 && became(
                    old(self)@,
                    final(self)@,
                    id@,
                    old(self)@[id@],
                ),
                Err(e) => unknown(old(self)@, final(self)@, id@, e@),
            },
    {
        let mut c = match self.take(id) {
            Ok(c) => c,
            Err(e) => {
                return Err(e);
            },
        };
        let ghost was = c@;
        let ghost msgs = c.messages@;
        match c.messages.pop() {
            Some(m) => {
                c.last_active = now;
                proof {
                    assert(was.messages.last() == msgs.last()@);
                    assert(c@.messages =~= was.messages.drop_last());
                }
                self.load(c);
                Ok(Some(m))
            },
            None => {
                self.load(c);
                Ok(None)
            },
        }
    }

    /// Takes the last message out now.
    pub fn pop_last(&mut self, id: &str) -> (r: Result<Option<StoredMessage>, ChatError>)
        requires
            old(self).wf(),
        ensures
            final(self).wf(),
            match r {
                Ok(Some(m)) => {
                    let all = old(self)@[id@].messages;
                    &&& all.len() > 0
                    &&& m@ == all.last()
                    &&& became(
                        old(self)@,
                        final(self)@,
                        id@,
                        (ChatV {
                            messages: all.drop_last(),
                            last_active: final(self)@[id@].last_active,
                            ..old(self)@[id@]
                        }),
                    )
                },
                Ok(None) => old(self)@[id@].messages.len() == 0 && became(
                    old(self)@,
                    final(self)@,
                    id@,
                    old(self)@[id@],
                ),
                Err(e) => unknown(old(self)@, final(self)@, id@, e@),
            },
    {
        self.pop_last_at(id, now_unix())
    }

    /// Gives a chat another name.
    pub fn rename(&mut self, id: &str, new_name: &str) -> (r: Result<Chat, ChatError>)
        requires
            old(self).wf(),
        ensures
            final(self).wf(),
            match r {
                Ok(c) => trim(new_name@).len() > 0 && c@ == (ChatV { name: trim(new_name@), ..old(self)@[id@] })
                    && became(old(self)@, final(self)@, id@, c@),
                Err(e) => if trim(new_name@).len() == 0 {
                    e@ == ChatErrorV::Invalid("name is empty"@) && final(self)@ == old(self)@
                } else {
                    unknown(old(self)@, final(self)@, id@, e@)
                },
            },
    {
        let name = trimmed(new_name);
        if name.as_str().unicode_len() == 0 {
            return Err(ChatError::Invalid("name is empty".to_owned()));
        }
        let mut c = match self.take(id) {
            Ok(c) => c,
            Err(e) => {
                return Err(e);
            },
        };
        c.name = name;
        let copy = c.copy();
        self.load(c);
        Ok(copy)
    }

    /// Stars a chat, or takes the star away.
    pub fn star(&mut self, id: &str, starred: bool) -> (r: Result<Chat, ChatError>)
        requires
            old(self).wf(),
        ensures
            final(self).wf(),
            match r {
                Ok(c) => c@ == (ChatV { starred, ..old(self)@[id@] }) && became(old(self)@, final(self)@, id@, c@),
                Err(e) => unknown(old(self)@, final(self)@, id@, e@),
            },
    {
        let mut c = match self.take(id) {
            Ok(c) => c,
            Err(e) => {
                return Err(e);
            },
        };
        c.starred = starred;
        let copy = c.copy();
        self.load(c);
        Ok(copy)
    }

    /// Sets the system prompt and the model of a chat, or clears them.
    pub fn set_overrides(&mut self, id: &str, system_override: Option<String>, model_override: Option<String>) -> (r:
        Result<Chat, ChatError>)
        requires
            old(self).wf(),
        ensures
            final(self).wf(),
            match r {
                Ok(c) => c@ == (ChatV {
                    system_override: opt_view(system_override),
                    model_override: opt_view(model_override),
                    ..old(self)@[id@]
                }) && became(old(self)@, final(self)@, id@, c@),
                Err(e) => unknown(old(self)@, final(self)@, id@, e@),
            },
    {
        let mut c = match self.take(id) {
            Ok(c) => c,
            Err(e) => {
                return Err(e);
            },
        };
        c.system_override = system_override;
        c.model_override = model_override;
        let copy = c.copy();
        self.load(c);
        Ok(copy)
    }

    /// Forks a chat under the given id at the given time.
    pub fn fork_at(
        &mut self,
        child_id: String,
        now: u64,
        parent_id: &str,
        truncate_at: usize,
        replacement: Option<StoredMessage>,
    ) -> (r: Result<Chat, ChatError>)
        requires
            old(self).wf(),
        ensures
            final(self).wf(),
            match r {
                Ok(c) => {
                    &&& old(self)@.dom().contains(parent_id@)
                    &&& truncate_at <= old(self)@[parent_id@].messages.len()
                    &&& c@ == forked(
                        old(self)@[parent_id@],
                        child_id@,
                        truncate_at,
                        match replacement {
                            Some(m) => Some(m@),
                            None => None,
                        },
                        now,
                    )
                    &&& final(self)@ == old(self)@.insert(child_id@, c@)
                },
                Err(e) => {
                    &&& final(self)@ == old(self)@
                    &&& if old(self)@.dom().contains(parent_id@) {
                        truncate_at > old(self)@[parent_id@].messages.len() && e@ == (ChatErrorV::BadIndex {
                            idx: truncate_at,
                            len: old(self)@[parent_id@].messages.len() as usize,
                        })
                    } else {
                        e@ == ChatErrorV::NotFound(parent_id@)
                    }
                },
            },
    {
        let child = match self.by_id.get(parent_id) {
            None => {
                return Err(ChatError::NotFound(parent_id.to_owned()));
            },
            Some(parent) => {
                proof {
                    assert(parent@ == self@[parent_id@]);
                }
                if truncate_at > parent.messages.len() {
                    return Err(ChatError::BadIndex { idx: truncate_at, len: parent.messages.len() });
                }
                let mut child = Chat::fresh(
                    child_id,
                    parent.agent_id.as_str(),
                    concat(parent.name.as_str(), " (fork)"),
                    now,
                );
                child.system_override = copy_opt(&parent.system_override);
                child.model_override = copy_opt(&parent.model_override);
                child.parent_id = Some(parent.id.clone());
                child.forked_at_message = Some(truncate_at);
                child.messages = copy_first(&parent.messages, truncate_at);
                match replacement {
                    Some(m) => {
                        let ghost was = child.messages@;
                        child.messages.push(m);
                        proof {
                            assert(stored_views(child.messages@) =~= stored_views(was).push(m@));
                        }
                    },
                    None => {},
                }
                child
            },
        };
        let copy = child.copy();
        self.load(child);
        Ok(copy)
    }

    /// Forks a chat under a new id now.
    pub fn fork(&mut self, parent_id: &str, truncate_at: usize, replacement: Option<StoredMessage>) -> (r: Result<
        Chat,
        ChatError,
    >)
        requires
            old(self).wf(),
        ensures
            final(self).wf(),
            match r {
                Ok(c) => {
                    &&& old(self)@.dom().contains(parent_id@)
                    &&& truncate_at <= old(self)@[parent_id@].messages.len()
                    &&& c@ == forked(
                        old(self)@[parent_id@],
                        c@.id,
                        truncate_at,
                        match replacement {
                            Some(m) => Some(m@),
                            None => None,
                        },
                        c@.created_at,
                    )
                    &&& c@.id.len() == 41 && c@.id.take(5) == "chat-"@
                    &&& final(self)@ == old(self)@.insert(c@.id, c@)
                },
                Err(e) => {
                    &&& final(self)@ == old(self)@
                    &&& if old(self)@.dom().contains(parent_id@) {
                        truncate_at > old(self)@[parent_id@].messages.len() && e@ == (ChatErrorV::BadIndex {
                            idx: truncate_at,
                            len: old(self)@[parent_id@].messages.len() as usize,
                        })
                    } else {
                        e@ == ChatErrorV::NotFound(parent_id@)
                    }
                },
            },
    {
        let drawn = random_id();
        let id = concat("chat-", drawn.as_str());
        proof {
            reveal_strlit("chat-");
            assert(id@.take(5) =~= "chat-"@);
        }
        self.fork_at(id, now_unix(), parent_id, truncate_at, replacement)
    }

    /// Removes a chat.
    pub fn remove(&mut self, id: &str) -> (r: Result<(), ChatError>)
        requires
            old(self).wf(),
        ensures
            final(self).wf(),
            final(self)@ == old(self)@.remove(id@),
            match r {
                Ok(_) => old(self)@.dom().contains(id@),
                Err(e) => unknown(old(self)@, final(self)@, id@, e@),
            },
    {
        match self.take(id) {
            Ok(_) => Ok(()),
            Err(e) => Err(e),
        }
    }

    /// The chats that mention a text, the latest first; all chats where the
    /// text is blank.
    pub fn search(&self, query: &str) -> (r: Vec<&Chat>)
        requires
            self.wf(),
        ensures
            found(r@, self.chats(), query@),
    {
        let text = trimmed(query);
        let blank = text.as_str().unicode_len() == 0;
        let q = to_lower(text.as_str());
        let all = self.by_id.refs();
        let ghost order = self.by_id.order();
        let ghost m = self.by_id@;
        let mut hits: Vec<Recent> = Vec::new();
        let ghost mut from: Seq<int> = Seq::empty();
        let mut i: usize = 0;
        while i < all.len()
            invariant
                i <= all@.len(),
                all@.len() == order.len(),
                order.no_duplicates(),
                m == self.by_id@,
                blank == (trim(query@).len() == 0),
                q@ == lowercase(trim(query@)),
                m.dom() == order.to_set(),
                forall|k: int| 0 <= k < all@.len() ==> *(#[trigger] all@[k]) == m[order[k]],
                from.len() == hits@.len(),
                forall|k: int|
                    0 <= k < from.len() ==> 0 <= #[trigger] from[k] < i && hits@[k].chat == all@[from[k]] && answers(
                        all@[from[k]]@,
                        query@,
                    ),
                forall|a: int, b: int| 0 <= a < b < from.len() ==> #[trigger] from[a] < #[trigger] from[b],
                forall|k: int| 0 <= k < i && answers((#[trigger] all@[k])@, query@) ==> from.contains(k),
            decreases all@.len() - i,
        {
            let c: &Chat = all[i];
            let ghost was = from;
            if blank || c.mentions(q.as_str()) {
                hits.push(Recent { chat: c });
                proof {
                    from = from.push(i as int);
                    assert(from[from.len() - 1] == i);
                }
            }
            proof {
                assert forall|k: int| 0 <= k < i + 1 && answers((#[trigger] all@[k])@, query@) implies from.contains(
                    k,
                ) by {
                    if k < i {
                        assert(was.contains(k));
                        let j = choose|j: int| 0 <= j < was.len() && was[j] == k;
                        assert(from[j] == k);
                    }
                }
            }
            i += 1;
        }
        proof {
            assert forall|a: int, b: int| 0 <= a < hits@.len() && 0 <= b < hits@.len() && a != b implies hits@[a]
                != hits@[b] by {
                let ka = from[a];
                let kb = from[b];
                assert(order[ka] != order[kb]);
                assert(order.to_set().contains(order[ka]) && order.to_set().contains(order[kb]));
                assert(self@.dom().contains(order[ka]) && self@.dom().contains(order[kb]));
                assert(self@[order[ka]].id == order[ka] && self@[order[kb]].id == order[kb]);
            }
        }
        let ghost u = hits@;
        let ranked = sort(hits);
        proof {
            lemma_permuted(u, ranked@);
        }
        let mut out: Vec<&Chat> = Vec::new();
        let mut j: usize = 0;
        while j < ranked.len()
            invariant
                j <= ranked@.len(),
                out@.len() == j,
                forall|k: int| 0 <= k < j ==> #[trigger] out@[k] == ranked@[k].chat,
            decreases ranked@.len() - j,
        {
            out.push(ranked[j].chat);
            j += 1;
        }
        proof {
            assert forall|k: int| 0 <= k < out@.len() implies has_value(m, *(#[trigger] out@[k])) && answers(
                out@[k]@,
                query@,
            ) by {
                assert(ranked@.contains(ranked@[k]));
                assert(u.contains(ranked@[k]));
                let a = choose|a: int| 0 <= a < u.len() && u[a] == ranked@[k];
                assert(order.to_set().contains(order[from[a]]));
                assert(m.dom().contains(order[from[a]]));
            }
            assert forall|k: Seq<char>| #[trigger] m.dom().contains(k) && answers(m[k]@, query@) implies exists|x: int|
                0 <= x < out@.len() && *(#[trigger] out@[x]) == m[k] by {
                let p = choose|p: int| 0 <= p < order.len() && order[p] == k;
                assert(answers(all@[p]@, query@));
                assert(from.contains(p));
                let a = choose|a: int| 0 <= a < from.len() && from[a] == p;
                assert(u.contains(u[a]));
                assert(ranked@.contains(u[a]));
                let x = choose|x: int| 0 <= x < ranked@.len() && ranked@[x] == u[a];
                assert(*out@[x] == m[k]);
            }
            assert forall|a: int, b: int| 0 <= a < b < out@.len() implies (#[trigger] out@[a]).id@ != (
            #[trigger] out@[b]).id@ by {
                assert(ranked@[a] != ranked@[b]);
                assert(has_value(m, *out@[a]) && has_value(m, *out@[b]));
                let ka = choose|k: Seq<char>| #[trigger] m.dom().contains(k) && *out@[a] == m[k];
                let kb = choose|k: Seq<char>| #[trigger] m.dom().contains(k) && *out@[b] == m[k];
                assert(self@.dom().contains(ka) && self@.dom().contains(kb));
                assert(self@[ka].id == ka && self@[kb].id == kb);
            }
            assert forall|a: int, b: int| 0 <= a < b < out@.len() implies (#[trigger] out@[a]).last_active >= (
            #[trigger] out@[b]).last_active by {
                assert(!Recent::comes_before(ranked@[b], ranked@[a]));
            }
        }
        out
    }

    /// The number of chats.
    pub fn len(&self) -> (r: usize)
        ensures
            r == self@.dom().len(),
    {
        let n: usize = self.by_id.len();
        proof {
            assert(self@.dom() =~= self.by_id@.dom());
        }
        n
    }

    /// Whether there is no chat.
    pub fn is_empty(&self) -> (r: bool)
        ensures
            r == (self@.dom().len() == 0),
    {
        self.len() == 0
    }
}

// ---------------------------------------------------------------------------
// Laws
// ---------------------------------------------------------------------------

/// A fork begins with the parent's first messages, keeps its agent and its
/// overrides, and leaves it as it is.
pub proof fn law_fork_keeps_prefix(
    chats: Map<Seq<char>, ChatV>,
    parent: Seq<char>,
    id: Seq<char>,
    at: usize,
    replacement: Option<StoredV>,
    now: u64,
)
    requires
        chats.dom().contains(parent),
        chats[parent].id == parent,
        id != parent,
        at <= chats[parent].messages.len(),
    ensures
        ({
            let child = forked(chats[parent], id, at, replacement, now);
            let after = chats.insert(id, child);
            &&& after[parent] == chats[parent]
            &&& child.messages.take(at as int) == chats[parent].messages.take(at as int)
            &&& child.messages.len() == at + if replacement is Some {
                1int
            } else {
                0
            }
            &&& child.agent_id == chats[parent].agent_id
            &&& child.system_override == chats[parent].system_override
            &&& child.model_override == chats[parent].model_override
            &&& child.parent_id == Some(parent)
        }),
{
    let child = forked(chats[parent], id, at, replacement, now);
    assert(child.messages.take(at as int) =~= chats[parent].messages.take(at as int));
}

/// Taking the last message out undoes adding one.
pub proof fn law_pop_undoes_append(c: ChatV, m: StoredV)
    ensures
        c.messages.push(m).last() == m,
        c.messages.push(m).drop_last() == c.messages,
{
    assert(c.messages.push(m).drop_last() =~= c.messages);
}

/// After a turn exactly the pinned attachments are left, in their order, and
/// another turn changes nothing.
pub proof fn law_pinned_attachments_stay(v: Seq<AttachmentV>)
    ensures
        forall|i: int| 0 <= i < pinned_only(v).len() ==> (#[trigger] pinned_only(v)[i]).pinned,
        forall|a: AttachmentV| a.pinned ==> (pinned_only(v).contains(a) <==> #[trigger] v.contains(a)),
        pinned_only(pinned_only(v)) == pinned_only(v),
    decreases v.len(),
{
    let r = pinned_only(v);
    if v.len() > 0 {
        let rest = v.drop_last();
        let less = pinned_only(rest);
        law_pinned_attachments_stay(rest);
        assert forall|a: AttachmentV| a.pinned implies (r.contains(a) <==> #[trigger] v.contains(a)) by {
            if v.contains(a) {
                let i = choose|i: int| 0 <= i < v.len() && v[i] == a;
                if i < rest.len() {
                    assert(rest[i] == a);
                    assert(rest.contains(a));
                    let j = choose|j: int| 0 <= j < less.len() && less[j] == a;
                    assert(r[j] == a);
                } else {
                    assert(r[less.len() as int] == a);
                }
            }
            if r.contains(a) {
                let j = choose|j: int| 0 <= j < r.len() && r[j] == a;
                if v.last().pinned && j == less.len() {
                    assert(v[v.len() - 1] == a);
                } else {
                    assert(less[j] == a);
                    assert(less.contains(a));
                    assert(rest.contains(a));
                    let i = choose|i: int| 0 <= i < rest.len() && rest[i] == a;
                    assert(v[i] == a);
                }
            }
        }
        if v.last().pinned {
            assert(r.drop_last() =~= less);
            assert(pinned_only(r) =~= r);
        }
    }
}

/// Attaching a file a second time changes nothing.
pub proof fn law_attaching_twice_is_attaching_once(c: ChatV, file_id: Seq<char>, first: u64, second: u64)
    ensures
        with_file(with_file(c, file_id, first), file_id, second) == with_file(c, file_id, first),
{
    let once = with_file(c, file_id, first);
    if !attached(c.attachments, file_id) {
        assert(once.attachments[c.attachments.len() as int].file_id == file_id);
        assert(attached(once.attachments, file_id));
    }
}

/// A detached file is gone, and detaching says whether it was there.
pub proof fn law_detached_files_are_gone(v: Seq<AttachmentV>, file_id: Seq<char>)
    ensures
        !attached(detached(v, file_id), file_id),
        detached(v, file_id).len() < v.len() <==> attached(v, file_id),
    decreases v.len(),
{
    let r = detached(v, file_id);
    if v.len() > 0 {
        let rest = v.drop_last();
        let less = detached(rest, file_id);
        law_detached_files_are_gone(rest, file_id);
        if attached(r, file_id) {
            let i = choose|i: int| 0 <= i < r.len() && (#[trigger] r[i]).file_id == file_id;
            if v.last().file_id != file_id {
                assert(i < less.len());
                assert(less[i].file_id == file_id);
            }
        }
        if v.last().file_id == file_id {
            assert(v[v.len() - 1].file_id == file_id);
            lemma_detached_len(rest, file_id);
        } else {
            if attached(v, file_id) {
                let i = choose|i: int| 0 <= i < v.len() && (#[trigger] v[i]).file_id == file_id;
                assert(rest[i].file_id == file_id);
            }
            if attached(rest, file_id) {
                let i = choose|i: int| 0 <= i < rest.len() && (#[trigger] rest[i]).file_id == file_id;
                assert(v[i].file_id == file_id);
            }
        }
    }
}

proof fn lemma_detached_len(v: Seq<AttachmentV>, file_id: Seq<char>)
    ensures
        detached(v, file_id).len() <= v.len(),
    decreases v.len(),
{
    if v.len() > 0 {
        lemma_detached_len(v.drop_last(), file_id);
    }
}

proof fn lemma_attached_rest(v: Seq<AttachmentV>, file_id: Seq<char>)
    requires
        v.len() > 0,
        listed_once(v),
    ensures
        listed_once(v.drop_last()),
        !attached(v.drop_last(), v.last().file_id),
        attached(v.drop_last(), file_id) ==> attached(v, file_id),
{
    let rest = v.drop_last();
    assert forall|i: int, j: int| 0 <= i < j < rest.len() implies (#[trigger] rest[i]).file_id != (
    #[trigger] rest[j]).file_id by {
        assert(v[i].file_id != v[j].file_id);
    }
    if attached(rest, v.last().file_id) {
        let i = choose|i: int| 0 <= i < rest.len() && (#[trigger] rest[i]).file_id == v.last().file_id;
        assert(v[i].file_id != v[v.len() - 1].file_id);
    }
    if attached(rest, file_id) {
        let i = choose|i: int| 0 <= i < rest.len() && (#[trigger] rest[i]).file_id == file_id;
        assert(v[i].file_id == file_id);
    }
}

proof fn lemma_push_listed(v: Seq<AttachmentV>, a: AttachmentV, file_id: Seq<char>)
    requires
        listed_once(v),
        !attached(v, a.file_id),
    ensures
        listed_once(v.push(a)),
        attached(v.push(a), file_id) <==> attached(v, file_id) || file_id == a.file_id,
{
    let w = v.push(a);
    assert forall|i: int, j: int| 0 <= i < j < w.len() implies (#[trigger] w[i]).file_id != (#[trigger] w[j]).file_id by {
        assert(w[i] == v[i]);
        if j < v.len() {
            assert(w[j] == v[j]);
        }
    }
    if attached(w, file_id) {
        let i = choose|i: int| 0 <= i < w.len() && (#[trigger] w[i]).file_id == file_id;
        if i < v.len() {
            assert(v[i].file_id == file_id);
        }
    }
    if attached(v, file_id) {
        let i = choose|i: int| 0 <= i < v.len() && (#[trigger] v[i]).file_id == file_id;
        assert(w[i].file_id == file_id);
    }
    if file_id == a.file_id {
        assert(w[v.len() as int].file_id == file_id);
    }
}

proof fn lemma_detached_listed(v: Seq<AttachmentV>, file_id: Seq<char>, other: Seq<char>)
    requires
        listed_once(v),
    ensures
        listed_once(detached(v, file_id)),
        attached(detached(v, file_id), other) ==> attached(v, other),
    decreases v.len(),
{
    if v.len() > 0 {
        let rest = v.drop_last();
        lemma_attached_rest(v, other);
        lemma_detached_listed(rest, file_id, other);
        lemma_detached_listed(rest, file_id, v.last().file_id);
        if v.last().file_id != file_id {
            lemma_push_listed(detached(rest, file_id), v.last(), other);
            assert(v[v.len() - 1] == v.last());
        }
    }
}

proof fn lemma_pinned_listed(v: Seq<AttachmentV>, other: Seq<char>)
    requires
        listed_once(v),
    ensures
        listed_once(pinned_only(v)),
        attached(pinned_only(v), other) ==> attached(v, other),
    decreases v.len(),
{
    if v.len() > 0 {
        let rest = v.drop_last();
        lemma_attached_rest(v, other);
        lemma_pinned_listed(rest, other);
        lemma_pinned_listed(rest, v.last().file_id);
        if v.last().pinned {
            lemma_push_listed(pinned_only(rest), v.last(), other);
            assert(v[v.len() - 1] == v.last());
        }
    }
}

proof fn lemma_attachment_from(v: Seq<AttachmentV>, file_id: Seq<char>, i: int)
    ensures
        match attachment_from(v, file_id, i) {
            Some(k) => i <= k < v.len() && 0 <= k,
            None => true,
        },
    decreases v.len() - i,
{
    if 0 <= i < v.len() && v[i].file_id != file_id {
        lemma_attachment_from(v, file_id, i + 1);
    }
}

/// A chat lists a file once: a new chat lists none, and attaching, detaching,
/// pinning, a turn and a fork keep it so.
pub proof fn law_files_are_listed_once(c: ChatV, file_id: Seq<char>, pinned: bool, now: u64)
    requires
        listed_once(c.attachments),
    ensures
        forall|id: Seq<char>, agent_id: Seq<char>, name: Seq<char>|
            listed_once((#[trigger] new_chat(id, agent_id, name, now)).attachments),
        listed_once(with_file(c, file_id, now).attachments),
        listed_once(detached(c.attachments, file_id)),
        match attachment_from(c.attachments, file_id, 0) {
            Some(i) => listed_once(c.attachments.update(i, (AttachmentV { pinned, ..c.attachments[i] }))),
            None => true,
        },
        listed_once(pinned_only(c.attachments)),
        forall|id: Seq<char>, at: usize, replacement: Option<StoredV>|
            listed_once((#[trigger] forked(c, id, at, replacement, now)).attachments),
{
    let v = c.attachments;
    if !attached(v, file_id) {
        lemma_push_listed(v, (AttachmentV { file_id, pinned: false, added_at: now }), file_id);
    }
    lemma_detached_listed(v, file_id, file_id);
    lemma_pinned_listed(v, file_id);
    lemma_attachment_from(v, file_id, 0);
    if let Some(k) = attachment_from(v, file_id, 0) {
        let w = v.update(k, (AttachmentV { pinned, ..v[k] }));
        assert forall|i: int, j: int| 0 <= i < j < w.len() implies (#[trigger] w[i]).file_id != (
        #[trigger] w[j]).file_id by {
            assert(v[i].file_id != v[j].file_id);
        }
    }
}

/// Of a chat that lists each file once, a turn drains every file that is not
/// pinned.
pub proof fn law_drained_files_leave(v: Seq<AttachmentV>, i: int)
    requires
        listed_once(v),
        0 <= i < v.len(),
        !v[i].pinned,
    ensures
        !attached(pinned_only(v), v[i].file_id),
    decreases v.len(),
{
    let rest = v.drop_last();
    let f = v[i].file_id;
    lemma_attached_rest(v, f);
    if i < rest.len() {
        assert(rest[i] == v[i]);
        law_drained_files_leave(rest, i);
        lemma_pinned_listed(rest, v.last().file_id);
        if v.last().pinned {
            lemma_push_listed(pinned_only(rest), v.last(), f);
            assert(v[i].file_id != v[v.len() - 1].file_id);
        }
    } else {
        lemma_pinned_listed(rest, f);
    }
}

} // verus!
