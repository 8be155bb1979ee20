//! Working sessions: a directory, who works in it, and how its sandbox is made.
use vstd::prelude::*;

use crate::llm::provider::opt_view;
use crate::outside::{now_unix, random_id};
use crate::table::{Ranked, Table, lists, listing, sorted};
use crate::text::{concat, trim, trimmed, views};

verus! {

// ---------------------------------------------------------------------------
// Values
// ---------------------------------------------------------------------------

/// Why the store refused something.
#[derive(Debug)]
pub enum SessionError {
    NotFound(String),
    BadWorkingDir(String),
}

pub enum SessionErrorV {
    NotFound(Seq<char>),
    BadWorkingDir(Seq<char>),
}

impl View for SessionError {
    type V = SessionErrorV;

    open spec fn view(&self) -> SessionErrorV {
        match *self {
            SessionError::NotFound(m) => SessionErrorV::NotFound(m@),
            SessionError::BadWorkingDir(m) => SessionErrorV::BadWorkingDir(m@),
        }
    }
}

impl SessionErrorV {
    /// The error in words.
    pub open spec fn text(self) -> Seq<char> {
        match self {
            SessionErrorV::NotFound(m) => "session not found: "@ + m,
            SessionErrorV::BadWorkingDir(m) => "working directory does not exist or is not a directory: "@ + m,
        }
    }
}

impl SessionError {
    /// The error in words.
    pub fn message(&self) -> (r: String)
        ensures
            r@ == self@.text(),
    {
        match self {
            SessionError::NotFound(m) => concat("session not found: ", m.as_str()),
            SessionError::BadWorkingDir(m) => concat(
                "working directory does not exist or is not a directory: ",
                m.as_str(),
            ),
        }
    }
}

/// Who works in a session.
#[derive(Debug, PartialEq)]
pub enum SessionMode {
    /// One agent.
    SingleAgent { agent_id: String },
    /// The agents of a workflow; `None` means the first one that is configured.
    Lattice { workflow_id: Option<String> },
    /// These agents, in the order of their dependencies.
    Custom { agents: Vec<String> },
}

pub enum ModeV {
    SingleAgent { agent_id: Seq<char> },
    Lattice { workflow_id: Option<Seq<char>> },
    Custom { agents: Seq<Seq<char>> },
}

impl View for SessionMode {
    type V = ModeV;

    open spec fn view(&self) -> ModeV {
        match *self {
            SessionMode::SingleAgent { agent_id } => ModeV::SingleAgent { agent_id: agent_id@ },
            SessionMode::Lattice { workflow_id } => ModeV::Lattice { workflow_id: opt_view(workflow_id) },
            SessionMode::Custom { agents } => ModeV::Custom { agents: views(agents@) },
        }
    }
}

/// Where a session stands.
#[derive(Debug, Clone, Copy, PartialEq, Eq, Structural)]
pub enum SessionStatus {
    /// Open and recently used.
    Active,
    /// Open but not recently used.
    Idle,
    /// Closed by the user.
    Closed,
}

/// A session that is bound to a directory.
#[derive(Debug)]
pub struct Session {
    pub id: String,
    pub name: String,
    /// The absolute path of the directory.
    pub working_dir: String,
    pub mode: SessionMode,
    pub status: SessionStatus,
    /// The skills that the agents may use as tools.
    pub enabled_skills: Vec<String>,
    /// The ports of the sandbox that are published on the host.
    pub exposed_ports: Vec<u16>,
    /// The image of the sandbox; `None` means the default one.
    pub image: Option<String>,
    /// What is run once when the sandbox first boots.
    pub post_create_commands: Vec<String>,
    pub created_at: u64,
    pub last_active: u64,
}

pub struct SessionV {
    pub id: Seq<char>,
    pub name: Seq<char>,
    pub working_dir: Seq<char>,
    pub mode: ModeV,
    pub status: SessionStatus,
    pub enabled_skills: Seq<Seq<char>>,
    pub exposed_ports: Seq<u16>,
    pub image: Option<Seq<char>>,
    pub post_create_commands: Seq<Seq<char>>,
    pub created_at: u64,
    pub last_active: u64,
}

impl View for Session {
    type V = SessionV;

    open spec fn view(&self) -> SessionV {
        SessionV {
            id: self.id@,
            name: self.name@,
            working_dir: self.working_dir@,
            mode: self.mode@,
            status: self.status,
            enabled_skills: views(self.enabled_skills@),
            exposed_ports: self.exposed_ports@,
            image: opt_view(self.image),
            post_create_commands: views(self.post_create_commands@),
            created_at: self.created_at,
            last_active: self.last_active,
        }
    }
}

/// A copy of some texts.
pub fn copy_texts(v: &Vec<String>) -> (r: Vec<String>)
    ensures
        views(r@) == views(v@),
{
    let mut out: Vec<String> = Vec::new();
    let mut i: usize = 0;
    while i < v.len()
        invariant
            i <= v@.len(),
            out@.len() == i,
            forall|k: int| 0 <= k < i ==> (#[trigger] out@[k])@ == v@[k]@,
        decreases v@.len() - i,
    {
        out.push(v[i].clone());
        i += 1;
    }
    proof {
        assert(views(out@) =~= views(v@));
    }
    out
}

/// A copy of an optional text.
pub fn copy_opt(v: &Option<String>) -> (r: Option<String>)
    ensures
        opt_view(r) == opt_view(*v),
{
    match v {
        Some(t) => Some(t.clone()),
        None => None,
    }
}

fn copy_ports(v: &Vec<u16>) -> (r: Vec<u16>)
    ensures
        r@ == v@,
{
    let mut out: Vec<u16> = Vec::new();
    let mut i: usize = 0;
    while i < v.len()
        invariant
            i <= v@.len(),
            out@ == v@.take(i as int),
        decreases v@.len() - i,
    {
        out.push(v[i]);
        i += 1;
        proof {
            assert(v@.take(i as int) =~= v@.take(i - 1).push(v@[i - 1]));
        }
    }
    proof {
        assert(v@.take(v@.len() as int) =~= v@);
    }
    out
}

impl SessionMode {
    /// A copy.
    pub fn copy(&self) -> (r: SessionMode)
        ensures
            r@ == self@,
    {
        match self {
            SessionMode::SingleAgent { agent_id } => SessionMode::SingleAgent { agent_id: agent_id.clone() },
            SessionMode::Lattice { workflow_id } => SessionMode::Lattice { workflow_id: copy_opt(workflow_id) },
            SessionMode::Custom { agents } => SessionMode::Custom { agents: copy_texts(agents) },
        }
    }
}

impl Session {
    /// A copy.
    pub fn copy(&self) -> (r: Session)
        ensures
            r@ == self@,
    {
        Session {
            id: self.id.clone(),
            name: self.name.clone(),
            working_dir: self.working_dir.clone(),
            mode: self.mode.copy(),
            status: self.status,
            enabled_skills: copy_texts(&self.enabled_skills),
            exposed_ports: copy_ports(&self.exposed_ports),
            image: copy_opt(&self.image),
            post_create_commands: copy_texts(&self.post_create_commands),
            created_at: self.created_at,
            last_active: self.last_active,
        }
    }
}

// ---------------------------------------------------------------------------
// Making a session
// ---------------------------------------------------------------------------

/// The ports that are published where none are asked for: those of the common
/// development servers.
pub open spec fn default_ports() -> Seq<u16> {
    seq![3000u16, 5000, 5173, 8000, 8765, 8888]
}

/// The ports that are published where none are asked for.
pub fn default_exposed_ports() -> (r: Vec<u16>)
    ensures
        r@ == default_ports(),
{
    let mut v: Vec<u16> = Vec::new();
    v.push(3000);
    v.push(5000);
    v.push(5173);
    v.push(8000);
    v.push(8765);
    v.push(8888);
    proof {
        assert(v@ =~= default_ports());
    }
    v
}

/// The ports, or the default ones where there are none.
pub open spec fn or_default(ports: Seq<u16>) -> Seq<u16> {
    if ports.len() == 0 {
        default_ports()
    } else {
        ports
    }
}

fn filled_ports(ports: Vec<u16>) -> (r: Vec<u16>)
    ensures
        r@ == or_default(ports@),
{
    if ports.len() == 0 {
        default_exposed_ports()
    } else {
        ports
    }
}

/// What a project's container description asks for.
#[derive(Debug)]
pub struct DevContainer {
    pub image: Option<String>,
    pub forwarded_ports: Vec<u16>,
    pub post_create_scripts: Vec<String>,
}

/// The ports with each further one that is not among them, in order.
pub open spec fn merged(ports: Seq<u16>, more: Seq<u16>) -> Seq<u16>
    decreases more.len(),
{
    if more.len() == 0 {
        ports
    } else {
        let earlier = merged(ports, more.drop_last());
        if earlier.contains(more.last()) {
            earlier
        } else {
            earlier.push(more.last())
        }
    }
}

fn has_port(ports: &Vec<u16>, p: u16) -> (r: bool)
    ensures
        r == ports@.contains(p),
{
    let mut i: usize = 0;
    while i < ports.len()
        invariant
            i <= ports@.len(),
            forall|k: int| 0 <= k < i ==> ports@[k] != p,
        decreases ports@.len() - i,
    {
        if ports[i] == p {
            return true;
        }
        i += 1;
    }
    false
}

/// Adds the ports that are not there yet.
pub fn merge_ports(ports: Vec<u16>, more: &Vec<u16>) -> (r: Vec<u16>)
    ensures
        r@ == merged(ports@, more@),
{
    let ghost start = ports@;
    let mut out = ports;
    let mut i: usize = 0;
    while i < more.len()
        invariant
            i <= more@.len(),
            out@ == merged(start, more@.take(i as int)),
        decreases more@.len() - i,
    {
        let p: u16 = more[i];
        proof {
            assert(more@.take(i + 1).drop_last() =~= more@.take(i as int));
        }
        if !has_port(&out, p) {
            out.push(p);
        }
        i += 1;
    }
    proof {
        assert(more@.take(more@.len() as int) =~= more@);
    }
    out
}

/// Merging drops no port and brings each of the further ones in.
pub proof fn law_merged_ports(ports: Seq<u16>, more: Seq<u16>)
    ensures
        ports.len() <= merged(ports, more).len(),
        merged(ports, more).take(ports.len() as int) == ports,
        forall|p: u16| #[trigger] more.contains(p) ==> merged(ports, more).contains(p),
        forall|p: u16| #[trigger] merged(ports, more).contains(p) ==> ports.contains(p) || more.contains(p),
        ports.no_duplicates() ==> merged(ports, more).no_duplicates(),
    decreases more.len(),
{
    let r = merged(ports, more);
    if more.len() == 0 {
        assert(r.take(ports.len() as int) =~= ports);
    } else {
        let rest = more.drop_last();
        let earlier = merged(ports, rest);
        law_merged_ports(ports, rest);
        assert(r.take(ports.len() as int) =~= earlier.take(ports.len() as int));
        assert forall|p: u16| #[trigger] more.contains(p) implies r.contains(p) by {
            let i = choose|i: int| 0 <= i < more.len() && more[i] == p;
            if i < rest.len() {
                assert(rest[i] == p);
                assert(rest.contains(p));
                let j = choose|j: int| 0 <= j < earlier.len() && earlier[j] == p;
                assert(r[j] == p);
            } else if !earlier.contains(p) {
                assert(r[earlier.len() as int] == p);
            }
        }
        assert forall|p: u16| #[trigger] r.contains(p) implies ports.contains(p) || more.contains(p) by {
            let i = choose|i: int| 0 <= i < r.len() && r[i] == p;
            if i < earlier.len() {
                assert(earlier[i] == p);
                assert(earlier.contains(p));
                if rest.contains(p) {
                    let j = choose|j: int| 0 <= j < rest.len() && rest[j] == p;
                    assert(more[j] == p);
                }
            } else {
                assert(more[more.len() - 1] == p);
            }
        }
    }
}

/// The place where a session is to work, as it was looked up.
#[derive(Debug)]
pub enum Place {
    /// There is nothing under the path.
    Missing,
    /// What stands there, by its absolute path, is no directory.
    NotADirectory(String),
    /// A directory, by its absolute path.
    Directory(String),
}

/// Why no session can be made there.
pub open spec fn place_error(asked: Seq<char>, place: Place) -> Option<SessionErrorV> {
    match place {
        Place::Missing => Some(SessionErrorV::BadWorkingDir(asked)),
        Place::NotADirectory(p) => Some(SessionErrorV::BadWorkingDir(p@)),
        Place::Directory(_) => None,
    }
}

/// The session that is made in a directory.
pub open spec fn new_session(
    id: Seq<char>,
    name: Seq<char>,
    dir: Seq<char>,
    mode: ModeV,
    skills: Seq<Seq<char>>,
    ports: Seq<u16>,
    image: Option<Seq<char>>,
    dev: Option<DevContainer>,
    now: u64,
) -> SessionV {
    SessionV {
        id,
        name,
        working_dir: dir,
        mode,
        status: SessionStatus::Active,
        enabled_skills: skills,
        exposed_ports: or_default(
            match dev {
                Some(d) => merged(ports, d.forwarded_ports@),
                None => ports,
            },
        ),
        image: match (image, dev) {
            (None, Some(d)) => opt_view(d.image),
            _ => image,
        },
        post_create_commands: match dev {
            Some(d) => views(d.post_create_scripts@),
            None => Seq::empty(),
        },
        created_at: now,
        last_active: now,
    }
}

// ---------------------------------------------------------------------------
// The store
// ---------------------------------------------------------------------------

impl<'a> Ranked for &'a Session {
    open spec fn comes_before(a: &'a Session, b: &'a Session) -> bool {
        a.created_at > b.created_at
    }

    proof fn order_is_strict(a: &'a Session, b: &'a Session, c: &'a Session) {
    }

    fn ranks_before(&self, other: &&'a Session) -> (r: bool) {
        self.created_at > other.created_at
    }
}

/// The sessions of a daemon.
pub struct SessionStore {
    by_id: Table<Session>,
}

/// The sessions by their ids, each by its view.
pub open spec fn session_views(m: Map<Seq<char>, Session>) -> Map<Seq<char>, SessionV> {
    m.map_values(|s: Session| s@)
}

impl SessionStore {
    /// The sessions by their ids.
    pub closed spec fn sessions(&self) -> Map<Seq<char>, Session> {
        self.by_id@
    }

    /// The sessions by their ids, each by its view.
    pub open spec fn view(&self) -> Map<Seq<char>, SessionV> {
        session_views(self.sessions())
    }

    /// Each session stands under its own id.
    pub open spec fn wf(&self) -> bool {
        forall|k: Seq<char>| #[trigger] self@.dom().contains(k) ==> self@[k].id == k
    }

    /// A store without sessions.
    pub fn new() -> (r: SessionStore)
        ensures
            r.wf(),
            r@ == Map::<Seq<char>, SessionV>::empty(),
    {
        let r = SessionStore { by_id: Table::new() };
        proof {
            assert(r@ =~= Map::<Seq<char>, SessionV>::empty());
        }
        r
    }

    fn put(&mut self, session: Session)
        requires
            old(self).wf(),
        ensures
            final(self).wf(),
            final(self)@ == old(self)@.insert(session@.id, session@),
    {
        let ghost before = self@;
        let id = session.id.clone();
        self.by_id.insert(id, session);
        proof {
            assert(self@ =~= before.insert(session@.id, session@));
        }
    }

    /// Takes a stored session in; one without ports gets the default ones.
    pub fn load(&mut self, session: Session)
        requires
            old(self).wf(),
        ensures
            final(self).wf(),
            final(self)@ == old(self)@.insert(
                session@.id,
                (SessionV { exposed_ports: or_default(session@.exposed_ports), ..session@ }),
            ),
    {
        let mut s = session;
        s.exposed_ports = filled_ports(s.exposed_ports);
        self.put(s);
    }

    /// Makes a session under the given id at the given time.
    pub fn create_at(
        &mut self,
        id: String,
        now: u64,
        name: &str,
        working_dir: &str,
        place: Place,
        mode: SessionMode,
        enabled_skills: Vec<String>,
        exposed_ports: Vec<u16>,
        image: Option<String>,
        dev: Option<DevContainer>,
    ) -> (r: Result<Session, SessionError>)
        requires
            old(self).wf(),
        ensures
            final(self).wf(),
            match r {
                Ok(s) => {
                    &&& place_error(working_dir@, place) is None
                    &&& place matches Place::Directory(dir) && s@ == new_session(
                        id@,
                        name@,
                        dir@,
                        mode@,
                        views(enabled_skills@),
                        exposed_ports@,
                        opt_view(image),
                        dev,
                        now,
                    )
                    &&& final(self)@ == old(self)@.insert(s@.id, s@)
                },
                Err(e) => place_error(working_dir@, place) == Some(e@) && final(self)@ == old(self)@,
            },
    {
        let dir = match place {
            Place::Missing => {
                return Err(SessionError::BadWorkingDir(working_dir.to_owned()));
            },
            Place::NotADirectory(p) => {
                return Err(SessionError::BadWorkingDir(p));
            },
            Place::Directory(p) => p,
        };
        let mut final_image = image;
        let mut final_ports = exposed_ports;
        let mut post_create: Vec<String> = Vec::new();
        proof {
            assert(views(post_create@) =~= Seq::<Seq<char>>::empty());
        }
        match dev {
            Some(d) => {
                let DevContainer { image: dev_image, forwarded_ports, post_create_scripts } = d;
                if final_image.is_none() {
                    final_image = dev_image;
                }
                final_ports = merge_ports(final_ports, &forwarded_ports);
                post_create = post_create_scripts;
            },
            None => {},
        }
        let session = Session {
            id,
            name: name.to_owned(),
            working_dir: dir,
            mode,
            status: SessionStatus::Active,
            enabled_skills,
            exposed_ports: filled_ports(final_ports),
            image: final_image,
            post_create_commands: post_create,
            created_at: now,
            last_active: now,
        };
        let copy = session.copy();
        self.put(session);
        Ok(copy)
    }

    /// Makes a session under a new id now.
    pub fn create(
        &mut self,
        name: &str,
        working_dir: &str,
        place: Place,
        mode: SessionMode,
        enabled_skills: Vec<String>,
        exposed_ports: Vec<u16>,
        image: Option<String>,
        dev: Option<DevContainer>,
    ) -> (r: Result<Session, SessionError>)
        requires
            old(self).wf(),
        ensures
            final(self).wf(),
            match r {
                Ok(s) => {
                    &&& place_error(working_dir@, place) is None
                    &&& place matches Place::Directory(dir) && s@ == new_session(
                        s@.id,
                        name@,
                        dir@,
                        mode@,
                        views(enabled_skills@),
                        exposed_ports@,
                        opt_view(image),
                        dev,
                        s@.created_at,
                    )
                    &&& s@.id.len() == 40 && s@.id.take(4) == "ses-"@
                    &&& final(self)@ == old(self)@.insert(s@.id, s@)
                },
                Err(e) => place_error(working_dir@, place) == Some(e@) && final(self)@ == old(self)@,
            },
    {
        let drawn = random_id();
        let id = concat("ses-", drawn.as_str());
        proof {
            reveal_strlit("ses-");
            assert(id@.take(4) =~= "ses-"@);
        }
        self.create_at(
            id,
            now_unix(),
            name,
            working_dir,
            place,
            mode,
            enabled_skills,
            exposed_ports,
            image,
            dev,
        )
    }

    /// The session with an id.
    pub fn get(&self, id: &str) -> (r: Option<&Session>)
        ensures
            match r {
                Some(s) => self@.dom().contains(id@) && s@ == self@[id@],
                None => !self@.dom().contains(id@),
            },
    {
        self.by_id.get(id)
    }

    /// All sessions, newest first. How two of one age stand is left open.
    pub fn list(&self) -> (r: Vec<&Session>)
        ensures
            sorted(r@),
            lists(r@, self.sessions()),
    {
        listing(&self.by_id)
    }

    /// Marks a session as used at a time.
    pub fn touch_at(&mut self, id: &str, now: u64) -> (r: Result<(), SessionError>)
        requires
            old(self).wf(),
        ensures
            final(self).wf(),
            match r {
                Ok(_) => old(self)@.dom().contains(id@) && final(self)@ == old(self)@.insert(
                    id@,
                    (SessionV { last_active: now, status: SessionStatus::Active, ..old(self)@[id@] }),
                ),
                Err(e) => !old(self)@.dom().contains(id@) && e@ == SessionErrorV::NotFound(id@) && final(self)@
                    == old(self)@,
            },
    {
        let ghost before = self@;
        match self.by_id.remove(id) {
            None => {
                proof {
                    assert(self@ =~= before);
                }
                Err(SessionError::NotFound(id.to_owned()))
            },
            Some(s) => {
                let mut s = s;
                proof {
                    assert(before.dom().contains(id@));
                    assert(s@ == before[id@]);
                    assert(self@ =~= before.remove(id@));
                }
                s.last_active = now;
                s.status = SessionStatus::Active;
                self.put(s);
                proof {
                    assert(self@ =~= before.insert(id@, s@));
                }
                Ok(())
            },
        }
    }

    /// Marks a session as used now.
    pub fn touch(&mut self, id: &str) -> (r: Result<(), SessionError>)
        requires
            old(self).wf(),
        ensures
            final(self).wf(),
            match r {
                Ok(_) => old(self)@.dom().contains(id@) && final(self)@ == old(self)@.insert(
                    id@,
                    (SessionV {
                        last_active: final(self)@[id@].last_active,
                        status: SessionStatus::Active,
                        ..old(self)@[id@]
                    }),
                ),
                Err(e) => !old(self)@.dom().contains(id@) && e@ == SessionErrorV::NotFound(id@) && final(self)@
                    == old(self)@,
            },
    {
        self.touch_at(id, now_unix())
    }

    /// Marks a session as closed; it is kept.
    pub fn close(&mut self, id: &str) -> (r: Result<(), SessionError>)
        requires
            old(self).wf(),
        ensures
            final(self).wf(),
            match r {
                Ok(_) => old(self)@.dom().contains(id@) && final(self)@ == old(self)@.insert(
                    id@,
                    (SessionV { status: SessionStatus::Closed, ..old(self)@[id@] }),
                ),
                Err(e) => !old(self)@.dom().contains(id@) && e@ == SessionErrorV::NotFound(id@) && final(self)@
                    == old(self)@,
            },
    {
        let ghost before = self@;
        match self.by_id.remove(id) {
            None => {
                proof {
                    assert(self@ =~= before);
                }
                Err(SessionError::NotFound(id.to_owned()))
            },
            Some(s) => {
                let mut s = s;
                proof {
                    assert(before.dom().contains(id@));
                    assert(s@ == before[id@]);
                    assert(self@ =~= before.remove(id@));
                }
                s.status = SessionStatus::Closed;
                self.put(s);
                proof {
                    assert(self@ =~= before.insert(id@, s@));
                }
                Ok(())
            },
        }
    }

    /// Gives a session another name.
    pub fn rename(&mut self, id: &str, new_name: &str) -> (r: Result<Session, SessionError>)
        requires
            old(self).wf(),
        ensures
            final(self).wf(),
            match r {
                Ok(s) => {
                    &&& trim(new_name@).len() > 0
                    &&& old(self)@.dom().contains(id@)
                    &&& s@ == (SessionV { name: trim(new_name@), ..old(self)@[id@] })
                    &&& final(self)@ == old(self)@.insert(id@, s@)
                },
                Err(e) => {
                    &&& final(self)@ == old(self)@
                    &&& if trim(new_name@).len() == 0 {
                        e@ == SessionErrorV::BadWorkingDir("name is empty"@)
                    } else {
                        !old(self)@.dom().contains(id@) && e@ == SessionErrorV::NotFound(id@)
                    }
                },
            },
    {
        let ghost before = self@;
        let name = trimmed(new_name);
        if name.as_str().unicode_len() == 0 {
            return Err(SessionError::BadWorkingDir("name is empty".to_owned()));
        }
        match self.by_id.remove(id) {
            None => {
                proof {
                    assert(self@ =~= before);
                }
                Err(SessionError::NotFound(id.to_owned()))
            },
            Some(s) => {
                let mut s = s;
                proof {
                    assert(before.dom().contains(id@));
                    assert(s@ == before[id@]);
                    assert(self@ =~= before.remove(id@));
                }
                s.name = name;
                let copy = s.copy();
                self.put(s);
                proof {
                    assert(self@ =~= before.insert(id@, s@));
                }
                Ok(copy)
            },
        }
    }

    /// Removes a session.
    pub fn remove(&mut self, id: &str) -> (r: Result<(), SessionError>)
        requires
            old(self).wf(),
        ensures
            final(self).wf(),
            final(self)@ == old(self)@.remove(id@),
            match r {
                Ok(_) => old(self)@.dom().contains(id@),
                Err(e) => !old(self)@.dom().contains(id@) && e@ == SessionErrorV::NotFound(id@),
            },
    {
        let ghost before = self@;
        let gone = self.by_id.remove(id);
        proof {
            assert(self@ =~= before.remove(id@));
        }
        match gone {
            None => Err(SessionError::NotFound(id.to_owned())),
            Some(_) => Ok(()),
        }
    }

    /// The number of sessions.
    pub fn len(&self) -> (r: usize)
        ensures
            r == self@.dom().len(),
    {
        let n: usize = self.by_id.len();
        proof {
            assert(self@.dom() =~= self.by_id@.dom());
        }
        n
    }

    /// Whether there is no session.
    pub fn is_empty(&self) -> (r: bool)
        ensures
            r == (self@.dom().len() == 0),
    {
        self.len() == 0
    }
}

/// A session that is loaded again gets the ports that it was stored with: those
/// that a made session has are never empty.
pub proof fn law_stored_sessions_load_unchanged(ports: Seq<u16>)
    ensures
        or_default(or_default(ports)) == or_default(ports),
        or_default(ports).len() > 0,
{
    assert(default_ports().len() == 6);
}

} // verus!
