//! The automations of a daemon, and the folders that they are filed in.
//!
//! Folders are paths in a name space of their own: creating one creates those
//! above it, and renaming or deleting one carries what stands under it along.
use vstd::prelude::*;

use crate::daemon::automation::Automation;
use crate::daemon::automation_executor::{DaemonError, DaemonErrorV};
use crate::llm::provider::opt_view;
use crate::table::{Ranked, Table, entries_of, has_value, lists, listing, sorted};
use crate::text::{before, begins, chars_of, concat, contains, is_before, lemma_before_total, lemma_before_transitive,
    lemma_next_char, same, seek_char, split, split_text, starts_with, text_between, trim, trimmed, views};

verus! {

/// A folder.
#[derive(Debug)]
pub struct AutomationFolder {
    pub path: String,
    /// The name to show, where it is not the last part of the path.
    pub name: Option<String>,
}

impl AutomationFolder {
    /// A copy of the folder.
    pub fn copy(&self) -> (r: AutomationFolder)
        ensures
            r == *self,
    {
        AutomationFolder {
            path: self.path.clone(),
            name: match &self.name {
                Some(n) => Some(n.clone()),
                None => None,
            },
        }
    }
}

/// Why the store refused something.
#[derive(Debug)]
pub enum StoreError {
    NotFound(String),
    Conflict(String),
    FolderNotFound(String),
    FolderConflict(String),
    InvalidFolderPath(String),
}

pub enum StoreErrorV {
    NotFound(Seq<char>),
    Conflict(Seq<char>),
    FolderNotFound(Seq<char>),
    FolderConflict(Seq<char>),
    InvalidFolderPath(Seq<char>),
}

impl View for StoreError {
    type V = StoreErrorV;

    open spec fn view(&self) -> StoreErrorV {
        match *self {
            StoreError::NotFound(s) => StoreErrorV::NotFound(s@),
            StoreError::Conflict(s) => StoreErrorV::Conflict(s@),
            StoreError::FolderNotFound(s) => StoreErrorV::FolderNotFound(s@),
            StoreError::FolderConflict(s) => StoreErrorV::FolderConflict(s@),
            StoreError::InvalidFolderPath(s) => StoreErrorV::InvalidFolderPath(s@),
        }
    }
}

impl StoreErrorV {
    /// What the error says.
    pub open spec fn message(self) -> Seq<char> {
        match self {
            StoreErrorV::NotFound(s) => "automation '"@ + s + "' not found"@,
            StoreErrorV::Conflict(s) => "automation '"@ + s + "' already exists"@,
            StoreErrorV::FolderNotFound(s) => "folder '"@ + s + "' not found"@,
            StoreErrorV::FolderConflict(s) => "folder '"@ + s + "' already exists"@,
            StoreErrorV::InvalidFolderPath(s) => "invalid folder path: "@ + s,
        }
    }
}

impl StoreError {
    /// What the error says.
    pub fn message(&self) -> (r: String)
        ensures
            r@ == self@.message(),
    {
        match self {
            StoreError::NotFound(s) => quoted("automation '", s.as_str(), "' not found"),
            StoreError::Conflict(s) => quoted("automation '", s.as_str(), "' already exists"),
            StoreError::FolderNotFound(s) => quoted("folder '", s.as_str(), "' not found"),
            StoreError::FolderConflict(s) => quoted("folder '", s.as_str(), "' already exists"),
            StoreError::InvalidFolderPath(s) => concat("invalid folder path: ", s.as_str()),
        }
    }
}

fn quoted(a: &str, b: &str, c: &str) -> (r: String)
    ensures
        r@ == a@ + b@ + c@,
{
    let mut r = concat(a, b);
    r.append(c);
    r
}

// ---------------------------------------------------------------------------
// Paths
// ---------------------------------------------------------------------------

/// What is wrong with the parts of a path from the `i`-th on.
pub open spec fn part_error(path: Seq<char>, parts: Seq<Seq<char>>, i: int) -> Option<Seq<char>>
    decreases parts.len() - i,
{
    if i < 0 || i >= parts.len() {
        None
    } else if parts[i].len() == 0 || parts[i] == "."@ || parts[i] == ".."@ {
        Some("bad segment in '"@ + path + "'"@)
    } else if parts[i].contains('\\') {
        Some("backslash in '"@ + path + "'"@)
    } else {
        part_error(path, parts, i + 1)
    }
}

/// What is wrong with a path; the empty path is the root.
pub open spec fn path_error(path: Seq<char>) -> Option<Seq<char>> {
    if path.len() == 0 {
        None
    } else if path[0] == '/' || path.last() == '/' {
        Some("leading or trailing slash: '"@ + path + "'"@)
    } else {
        part_error(path, split(path, '/'), 0)
    }
}

fn has_backslash(s: &str) -> (r: bool)
    ensures
        r == s@.contains('\\'),
{
    let v = chars_of(s);
    let k: usize = seek_char(&v, '\\', 0);
    proof {
        lemma_next_char(v@, '\\', 0);
    }
    if k < v.len() {
        proof {
            assert(s@[k as int] == '\\');
        }
        true
    } else {
        false
    }
}

/// Whether a path is one that a folder may have.
pub fn validate_folder_path(path: &str) -> (r: Result<(), StoreError>)
    ensures
        match r {
            Ok(_) => path_error(path@) is None,
            Err(e) => path_error(path@) is Some && e@ == StoreErrorV::InvalidFolderPath(path_error(path@)->0),
        },
{
    if path.is_empty() {
        return Ok(());
    }
    let v = chars_of(path);
    if v[0] == '/' || v[v.len() - 1] == '/' {
        return Err(StoreError::InvalidFolderPath(quoted("leading or trailing slash: '", path, "'")));
    }
    let parts = split_text(path, '/');
    let ghost all = split(path@, '/');
    let mut i: usize = 0;
    proof {
        assert(views(parts@).len() == parts@.len());
    }
    while i < parts.len()
        invariant
            i <= parts@.len(),
            all == views(parts@),
            part_error(path@, all, 0) == part_error(path@, all, i as int),
            path_error(path@) == part_error(path@, all, 0),
        decreases parts@.len() - i,
    {
        let seg = parts[i].as_str();
        proof {
            assert(all[i as int] == seg@);
        }
        if seg.is_empty() || same(seg, ".") || same(seg, "..") {
            return Err(StoreError::InvalidFolderPath(quoted("bad segment in '", path, "'")));
        }
        if has_backslash(seg) {
            return Err(StoreError::InvalidFolderPath(quoted("backslash in '", path, "'")));
        }
        i += 1;
    }
    Ok(())
}

/// The path is the folder or stands under it.
pub open spec fn under(path: Seq<char>, folder: Seq<char>) -> bool {
    path == folder || starts_with(path, folder.push('/'))
}

/// The path after the folder `from` was renamed to `to`.
pub open spec fn repath(path: Seq<char>, from: Seq<char>, to: Seq<char>) -> Seq<char> {
    if under(path, from) {
        to + path.subrange(from.len() as int, path.len() as int)
    } else {
        path
    }
}

pub open spec fn repath_opt(path: Option<Seq<char>>, from: Seq<char>, to: Seq<char>) -> Option<Seq<char>> {
    match path {
        Some(p) => Some(repath(p, from, to)),
        None => None,
    }
}

/// Whether a path is a folder or stands under it.
pub fn is_under(path: &str, folder: &str) -> (r: bool)
    ensures
        r == under(path@, folder@),
{
    if same(path, folder) {
        return true;
    }
    let mut prefix = folder.to_owned();
    prefix.push('/');
    begins(path, prefix.as_str())
}

fn moved(path: &str, from: &str, to: &str) -> (r: String)
    ensures
        r@ == repath(path@, from@, to@),
{
    if !is_under(path, from) {
        return path.to_owned();
    }
    let v = chars_of(path);
    let n: usize = from.unicode_len();
    proof {
        if path@ != from@ {
            assert(from@.push('/').len() == from@.len() + 1);
        }
    }
    concat(to, text_between(&v, n, v.len()).as_str())
}

/// The position of the last slash before `i`.
pub open spec fn slash_before(path: Seq<char>, i: int) -> Option<int>
    decreases i,
{
    if i <= 0 {
        None
    } else if path[i - 1] == '/' {
        Some(i - 1)
    } else {
        slash_before(path, i - 1)
    }
}

/// The folder that a folder stands in; none where that is the root.
pub open spec fn parent_of(path: Seq<char>) -> Option<Seq<char>> {
    match slash_before(path, path.len() as int) {
        Some(k) => Some(path.subrange(0, k)),
        None => None,
    }
}

fn parent_path(path: &str) -> (r: Option<String>)
    ensures
        opt_view(r) == parent_of(path@),
{
    let v = chars_of(path);
    let mut i: usize = v.len();
    while i > 0
        invariant
            i <= v@.len(),
            v@ == path@,
            slash_before(path@, path@.len() as int) == slash_before(path@, i as int),
        decreases i,
    {
        if v[i - 1] == '/' {
            return Some(text_between(&v, 0, i - 1));
        }
        i -= 1;
    }
    None
}

/// The path stands above another: it ends where a slash follows.
pub open spec fn above(a: Seq<char>, path: Seq<char>) -> bool {
    a.len() < path.len() && path[a.len() as int] == '/' && path.subrange(0, a.len() as int) == a
}

// ---------------------------------------------------------------------------
// The store
// ---------------------------------------------------------------------------

impl<'a> Ranked for &'a Automation {
    open spec fn comes_before(a: &'a Automation, b: &'a Automation) -> bool {
        before(a.id@, b.id@)
    }

    proof fn order_is_strict(a: &'a Automation, b: &'a Automation, c: &'a Automation) {
        lemma_before_total(a.id@, b.id@);
        if before(a.id@, b.id@) && before(b.id@, c.id@) {
            lemma_before_transitive(a.id@, b.id@, c.id@);
        }
    }

    fn ranks_before(&self, other: &&'a Automation) -> (r: bool) {
        is_before(self.id.as_str(), other.id.as_str())
    }
}

impl<'a> Ranked for &'a AutomationFolder {
    open spec fn comes_before(a: &'a AutomationFolder, b: &'a AutomationFolder) -> bool {
        before(a.path@, b.path@)
    }

    proof fn order_is_strict(a: &'a AutomationFolder, b: &'a AutomationFolder, c: &'a AutomationFolder) {
        lemma_before_total(a.path@, b.path@);
        if before(a.path@, b.path@) && before(b.path@, c.path@) {
            lemma_before_transitive(a.path@, b.path@, c.path@);
        }
    }

    fn ranks_before(&self, other: &&'a AutomationFolder) -> (r: bool) {
        is_before(self.path.as_str(), other.path.as_str())
    }
}

/// The automations by id and the folders by path.
pub struct AutomationStore {
    by_id: Table<Automation>,
    folders_by_path: Table<AutomationFolder>,
}

/// The names of folders by their paths.
pub open spec fn folder_names(m: Map<Seq<char>, AutomationFolder>) -> Map<Seq<char>, Option<Seq<char>>> {
    m.map_values(|f: AutomationFolder| opt_view(f.name))
}

/// Two automations that differ in their folders at most.
pub open spec fn same_but_folder(a: Automation, b: Automation) -> bool {
    b == Automation { folder: b.folder, ..a }
}

/// The automations of a list by id, the later one where an id repeats.
pub open spec fn by_ids(list: Seq<Automation>) -> Map<Seq<char>, Automation>
    decreases list.len(),
{
    if list.len() == 0 {
        Map::empty()
    } else {
        by_ids(list.drop_last()).insert(list.last().id@, list.last())
    }
}

/// The folders of a list by path, the later one where a path repeats.
pub open spec fn by_paths(list: Seq<AutomationFolder>) -> Map<Seq<char>, AutomationFolder>
    decreases list.len(),
{
    if list.len() == 0 {
        Map::empty()
    } else {
        by_paths(list.drop_last()).insert(list.last().path@, list.last())
    }
}

/// The names by path after the folder `from` was renamed to `to`: each folder
/// of the list, in turn, stands at its new path.
spec fn renamed(
    order: Seq<Seq<char>>,
    names: Map<Seq<char>, Option<Seq<char>>>,
    from: Seq<char>,
    to: Seq<char>,
) -> Map<Seq<char>, Option<Seq<char>>>
    decreases order.len(),
{
    if order.len() == 0 {
        Map::empty()
    } else {
        renamed(order.drop_last(), names, from, to).insert(repath(order.last(), from, to), names[order.last()])
    }
}

/// The automation stands under the folder.
pub open spec fn is_filed(a: Automation, path: Seq<char>) -> bool {
    match a.folder {
        Some(f) => under(f@, path),
        None => false,
    }
}

/// The automations that stand under a folder.
pub open spec fn filed_under(m: Map<Seq<char>, Automation>, path: Seq<char>) -> Set<Seq<char>> {
    m.dom().filter(|id: Seq<char>| is_filed(m[id], path))
}

impl AutomationStore {
    /// The automations by id.
    pub closed spec fn automations(self) -> Map<Seq<char>, Automation> {
        self.by_id@
    }

    /// The names of the folders by path.
    pub closed spec fn folders(self) -> Map<Seq<char>, Option<Seq<char>>> {
        folder_names(self.folders_by_path@)
    }

    /// Each automation stands under its id and each folder under its path.
    pub closed spec fn wf(self) -> bool {
        &&& forall|k: Seq<char>| #[trigger] self.by_id@.dom().contains(k) ==> self.by_id@[k].id@ == k
        &&& forall|k: Seq<char>| #[trigger]
            self.folders_by_path@.dom().contains(k) ==> self.folders_by_path@[k].path@ == k
    }

    /// The store that two lists describe.
    pub fn from_lists(automations: Vec<Automation>, folders: Vec<AutomationFolder>) -> (r: AutomationStore)
        ensures
            r.wf(),
            r.automations() == by_ids(automations@),
            r.folders() == folder_names(by_paths(folders@)),
    {
        let mut store = AutomationStore { by_id: Table::new(), folders_by_path: Table::new() };
        let ghost all = automations@;
        let ghost all_folders = folders@;
        let mut rest = automations;
        let ghost mut i: int = 0;
        proof {
            assert(all.take(0) =~= Seq::empty());
            assert(rest@ =~= all.skip(0));
        }
        while rest.len() > 0
            invariant
                store.wf(),
                0 <= i <= all.len(),
                rest@ == all.skip(i),
                store.by_id@ == by_ids(all.take(i)),
                store.folders_by_path@ == Map::<Seq<char>, AutomationFolder>::empty(),
            decreases rest@.len(),
        {
            let a = rest.remove(0);
            proof {
                assert(a == all[i]);
                assert(all.take(i + 1).drop_last() =~= all.take(i));
                assert(rest@ =~= all.skip(i + 1));
            }
            store.by_id.insert(a.id.clone(), a);
            proof {
                i = i + 1;
            }
        }
        proof {
            assert(all.take(i) =~= all);
        }
        let mut more = folders;
        let ghost mut j: int = 0;
        proof {
            assert(all_folders.take(0) =~= Seq::empty());
            assert(more@ =~= all_folders.skip(0));
        }
        while more.len() > 0
            invariant
                store.wf(),
                0 <= j <= all_folders.len(),
                more@ == all_folders.skip(j),
                store.by_id@ == by_ids(all),
                store.folders_by_path@ == by_paths(all_folders.take(j)),
            decreases more@.len(),
        {
            let f = more.remove(0);
            proof {
                assert(f == all_folders[j]);
                assert(all_folders.take(j + 1).drop_last() =~= all_folders.take(j));
                assert(more@ =~= all_folders.skip(j + 1));
            }
            store.folders_by_path.insert(f.path.clone(), f);
            proof {
                j = j + 1;
            }
        }
        proof {
            assert(all_folders.take(j) =~= all_folders);
        }
        store
    }

    /// Fills an empty store; one that holds an automation stays as it is.
    pub fn seed_if_empty(&mut self, automations: Vec<Automation>) -> (r: bool)
        requires
            old(self).wf(),
        ensures
            final(self).wf(),
            final(self).folders() == old(self).folders(),
            r == (old(self).automations().dom().len() == 0),
            final(self).automations() == if r {
                by_ids(automations@)
            } else {
                old(self).automations()
            },
    {
        if self.by_id.len() > 0 {
            return false;
        }
        let ghost before = *self;
        proof {
            assert(self.by_id@ =~= Map::<Seq<char>, Automation>::empty()) by {
                assert(self.by_id.order().to_set() =~= Set::empty());
            }
        }
        let ghost all = automations@;
        let mut rest = automations;
        let ghost mut i: int = 0;
        proof {
            assert(all.take(0) =~= Seq::empty());
            assert(rest@ =~= all.skip(0));
        }
        while rest.len() > 0
            invariant
                self.wf(),
                0 <= i <= all.len(),
                rest@ == all.skip(i),
                self.by_id@ == by_ids(all.take(i)),
                self.folders_by_path == before.folders_by_path,
            decreases rest@.len(),
        {
            let a = rest.remove(0);
            proof {
                assert(a == all[i]);
                assert(all.take(i + 1).drop_last() =~= all.take(i));
                assert(rest@ =~= all.skip(i + 1));
            }
            self.by_id.insert(a.id.clone(), a);
            proof {
                i = i + 1;
            }
        }
        proof {
            assert(all.take(i) =~= all);
        }
        true
    }

    /// All folders, by path.
    pub fn list_folders(&self) -> (r: Vec<&AutomationFolder>)
        requires
            self.wf(),
        ensures
            sorted(r@),
            r@.len() == self.folders().dom().len(),
            forall|i: int|
                0 <= i < r@.len() ==> self.folders().dom().contains((#[trigger] r@[i]).path@) && self.folders()[r@[i].path@]
                    == opt_view(r@[i].name),
            forall|k: Seq<char>|
                self.folders().dom().contains(k) ==> exists|i: int| 0 <= i < r@.len() && (#[trigger] r@[i]).path@ == k,
    {
        let r = listing(&self.folders_by_path);
        proof {
            assert(self.folders().dom() =~= self.folders_by_path@.dom());
            assert forall|i: int| 0 <= i < r@.len() implies self.folders().dom().contains((#[trigger] r@[i]).path@)
                && self.folders()[r@[i].path@] == opt_view(r@[i].name) by {
                assert(has_value(self.folders_by_path@, *r@[i]));
            }
            assert forall|k: Seq<char>| self.folders().dom().contains(k) implies exists|i: int|
                0 <= i < r@.len() && (#[trigger] r@[i]).path@ == k by {
                assert(self.folders_by_path@.dom().contains(k));
                let i = choose|i: int| 0 <= i < r@.len() && *(#[trigger] r@[i]) == self.folders_by_path@[k];
                assert(r@[i].path@ == k);
            }
        }
        r
    }

    /// All automations, by id.
    pub fn list(&self) -> (r: Vec<&Automation>)
        requires
            self.wf(),
        ensures
            sorted(r@),
            lists(r@, self.automations()),
            forall|i: int|
                0 <= i < r@.len() ==> self.automations().dom().contains((#[trigger] r@[i]).id@) && *r@[i]
                    == self.automations()[r@[i].id@],
    {
        let r = listing(&self.by_id);
        proof {
            assert forall|i: int| 0 <= i < r@.len() implies self.automations().dom().contains((#[trigger] r@[i]).id@)
                && *r@[i] == self.automations()[r@[i].id@] by {
                assert(has_value(self.by_id@, *r@[i]));
            }
        }
        r
    }

    /// The automation with an id.
    pub fn get(&self, id: &str) -> (r: Option<&Automation>)
        ensures
            match r {
                Some(a) => self.automations().dom().contains(id@) && *a == self.automations()[id@],
                None => !self.automations().dom().contains(id@),
            },
    {
        self.by_id.get(id)
    }

    /// Stores an automation under its id.
    pub fn upsert(&mut self, a: Automation)
        requires
            old(self).wf(),
        ensures
            final(self).wf(),
            final(self).automations() == old(self).automations().insert(a.id@, a),
            final(self).folders() == old(self).folders(),
    {
        self.by_id.insert(a.id.clone(), a);
    }

    /// Stores an automation whose id is new.
    pub fn create(&mut self, a: Automation) -> (r: Result<(), StoreError>)
        requires
            old(self).wf(),
        ensures
            final(self).wf(),
            final(self).folders() == old(self).folders(),
            match r {
                Ok(_) => !old(self).automations().dom().contains(a.id@) && final(self).automations() == old(
                    self,
                ).automations().insert(a.id@, a),
                Err(e) => old(self).automations().dom().contains(a.id@) && e@ == StoreErrorV::Conflict(a.id@)
                    && final(self).automations() == old(self).automations(),
            },
    {
        if self.by_id.has(a.id.as_str()) {
            return Err(StoreError::Conflict(a.id));
        }
        self.upsert(a);
        Ok(())
    }

    /// Removes an automation.
    pub fn delete(&mut self, id: &str) -> (r: Result<(), StoreError>)
        requires
            old(self).wf(),
        ensures
            final(self).wf(),
            final(self).folders() == old(self).folders(),
            final(self).automations() == old(self).automations().remove(id@),
            match r {
                Ok(_) => old(self).automations().dom().contains(id@),
                Err(e) => !old(self).automations().dom().contains(id@) && e@ == StoreErrorV::NotFound(id@),
            },
    {
        match self.by_id.remove(id) {
            Some(_) => Ok(()),
            None => Err(StoreError::NotFound(id.to_owned())),
        }
    }

    /// The number of automations.
    pub fn len(&self) -> (r: usize)
        ensures
            r == self.automations().dom().len(),
    {
        self.by_id.len()
    }

    /// Whether there is no automation.
    pub fn is_empty(&self) -> (r: bool)
        ensures
            r == (self.automations().dom().len() == 0),
    {
        self.by_id.len() == 0
    }
}

// ---------------------------------------------------------------------------
// Folders
// ---------------------------------------------------------------------------

/// The folders with those that stand above `path` before position `n` of it.
pub open spec fn with_ancestors(
    folders: Map<Seq<char>, Option<Seq<char>>>,
    path: Seq<char>,
    n: int,
) -> Map<Seq<char>, Option<Seq<char>>> {
    Map::new(
        |k: Seq<char>| folders.dom().contains(k) || (above(k, path) && k.len() < n),
        |k: Seq<char>|
            if folders.dom().contains(k) {
                folders[k]
            } else {
                None
            },
    )
}

/// The folders with `path` and all that stand above it.
pub open spec fn with_folder(
    folders: Map<Seq<char>, Option<Seq<char>>>,
    path: Seq<char>,
    name: Option<Seq<char>>,
) -> Map<Seq<char>, Option<Seq<char>>> {
    with_ancestors(folders, path, path.len() as int).insert(path, name)
}

/// Why a folder is not created.
pub open spec fn create_error(path: Seq<char>) -> Option<StoreErrorV> {
    match path_error(path) {
        Some(m) => Some(StoreErrorV::InvalidFolderPath(m)),
        None => if path.len() == 0 {
            Some(StoreErrorV::InvalidFolderPath("cannot create root"@))
        } else {
            None
        },
    }
}

/// Why a folder is not renamed.
pub open spec fn rename_error(
    folders: Map<Seq<char>, Option<Seq<char>>>,
    from: Seq<char>,
    to: Seq<char>,
) -> Option<StoreErrorV> {
    match path_error(to) {
        Some(m) => Some(StoreErrorV::InvalidFolderPath(m)),
        None => if to.len() == 0 {
            Some(StoreErrorV::InvalidFolderPath("cannot rename to root"@))
        } else if !folders.dom().contains(from) {
            Some(StoreErrorV::FolderNotFound(from))
        } else if from != to && folders.dom().contains(to) {
            Some(StoreErrorV::FolderConflict(to))
        } else {
            None
        },
    }
}

/// The folders after `from` was renamed to `to`, where it shows a name: each
/// folder stands at its new path with its name, and no other is there. Where two
/// would stand at one path, one of them does.
pub open spec fn relocated(
    before: Map<Seq<char>, Option<Seq<char>>>,
    after: Map<Seq<char>, Option<Seq<char>>>,
    from: Seq<char>,
    to: Seq<char>,
    name: Option<Seq<char>>,
) -> bool {
    &&& forall|p: Seq<char>| #[trigger] before.dom().contains(p) ==> after.dom().contains(repath(p, from, to))
    &&& forall|q: Seq<char>| #[trigger]
        after.dom().contains(q) ==> exists|p: Seq<char>| #[trigger]
            before.dom().contains(p) && repath(p, from, to) == q && after[q] == if q == to {
                name
            } else {
                before[p]
            }
}

/// The name after a rename: a new one replaces the old, a blank one clears it.
pub open spec fn name_after(new_name: Option<Seq<char>>, name: Option<Seq<char>>) -> Option<Seq<char>> {
    match new_name {
        Some(n) => if trim(n).len() == 0 {
            None
        } else {
            Some(n)
        },
        None => name,
    }
}

/// The automations after a rename: those filed under `from` are filed under
/// `to`.
pub open spec fn refiled(
    a: Map<Seq<char>, Automation>,
    b: Map<Seq<char>, Automation>,
    from: Seq<char>,
    to: Seq<char>,
) -> bool {
    &&& b.dom() == a.dom()
    &&& forall|id: Seq<char>| #[trigger]
        a.dom().contains(id) ==> same_but_folder(a[id], b[id]) && opt_view(b[id].folder) == repath_opt(
            opt_view(a[id].folder),
            from,
            to,
        )
}

/// The automations after a folder was deleted and its contents kept: those
/// under it are filed in the folder above.
pub open spec fn lifted(a: Map<Seq<char>, Automation>, b: Map<Seq<char>, Automation>, path: Seq<char>) -> bool {
    &&& b.dom() == a.dom()
    &&& forall|id: Seq<char>| #[trigger]
        a.dom().contains(id) ==> if is_filed(a[id], path) {
            same_but_folder(a[id], b[id]) && opt_view(b[id].folder) == parent_of(path)
        } else {
            b[id] == a[id]
        }
}

/// The folders but those under a path.
pub open spec fn pruned(folders: Map<Seq<char>, Option<Seq<char>>>, path: Seq<char>) -> Map<
    Seq<char>,
    Option<Seq<char>>,
> {
    Map::new(|k: Seq<char>| folders.dom().contains(k) && !under(k, path), |k: Seq<char>| folders[k])
}

/// The automations but those under a path.
pub open spec fn unfiled(a: Map<Seq<char>, Automation>, path: Seq<char>) -> Map<Seq<char>, Automation> {
    Map::new(|id: Seq<char>| a.dom().contains(id) && !is_filed(a[id], path), |id: Seq<char>| a[id])
}

proof fn lemma_repath_self(path: Seq<char>, p: Seq<char>)
    ensures
        repath(path, p, p) == path,
{
    if under(path, p) {
        if path != p {
            let q = p.push('/');
            assert(path.subrange(0, q.len() as int) =~= q);
            assert(path.subrange(0, p.len() as int) =~= p) by {
                assert forall|i: int| 0 <= i < p.len() implies path[i] == p[i] by {
                    assert(path.subrange(0, q.len() as int)[i] == q[i]);
                }
            }
        }
        assert(p + path.subrange(p.len() as int, path.len() as int) =~= path);
    }
}

/// How many of the listed automations stand under a folder.
spec fn filed_among(order: Seq<Seq<char>>, m: Map<Seq<char>, Automation>, path: Seq<char>) -> nat
    decreases order.len(),
{
    if order.len() == 0 {
        0
    } else {
        filed_among(order.drop_last(), m, path) + (if is_filed(m[order.last()], path) {
            1nat
        } else {
            0nat
        })
    }
}

proof fn lemma_filed(order: Seq<Seq<char>>, m: Map<Seq<char>, Automation>, path: Seq<char>)
    requires
        order.no_duplicates(),
    ensures
        order.to_set().filter(|id: Seq<char>| is_filed(m[id], path)).finite(),
        filed_among(order, m, path) == order.to_set().filter(|id: Seq<char>| is_filed(m[id], path)).len(),
    decreases order.len(),
{
    let filed = |id: Seq<char>| is_filed(m[id], path);
    let all = order.to_set().filter(filed);
    if order.len() == 0 {
        assert(all =~= Set::<Seq<char>>::empty());
    } else {
        let rest = order.drop_last();
        let last = order.last();
        lemma_filed(rest, m, path);
        let earlier = rest.to_set().filter(filed);
        assert(order =~= rest.push(last));
        assert(order.to_set() =~= rest.to_set().insert(last)) by {
            assert forall|x: Seq<char>| order.contains(x) <==> (rest.contains(x) || x == last) by {
                if rest.contains(x) {
                    let k = choose|k: int| 0 <= k < rest.len() && rest[k] == x;
                    assert(order[k] == x);
                }
                if x == last {
                    assert(order[order.len() - 1] == x);
                }
            }
        }
        assert(!rest.contains(last)) by {
            if rest.contains(last) {
                let k = choose|k: int| 0 <= k < rest.len() && rest[k] == last;
                assert(order[k] == order[order.len() - 1]);
            }
        }
        if is_filed(m[last], path) {
            assert(all =~= earlier.insert(last));
        } else {
            assert(all =~= earlier);
        }
    }
}

/// Each folder of the list stands at its new path, and no other does.
proof fn lemma_renamed(
    order: Seq<Seq<char>>,
    names: Map<Seq<char>, Option<Seq<char>>>,
    from: Seq<char>,
    to: Seq<char>,
)
    ensures
        forall|i: int|
            0 <= i < order.len() ==> renamed(order, names, from, to).dom().contains(
                repath(#[trigger] order[i], from, to),
            ),
        forall|q: Seq<char>| #[trigger]
            renamed(order, names, from, to).dom().contains(q) ==> exists|i: int|
                0 <= i < order.len() && repath(#[trigger] order[i], from, to) == q && renamed(order, names, from, to)[q]
                    == names[order[i]],
    decreases order.len(),
{
    if order.len() > 0 {
        let rest = order.drop_last();
        let all = renamed(order, names, from, to);
        let earlier = renamed(rest, names, from, to);
        lemma_renamed(rest, names, from, to);
        assert forall|i: int| 0 <= i < order.len() implies all.dom().contains(repath(#[trigger] order[i], from, to)) by {
            if i < rest.len() {
                assert(rest[i] == order[i]);
            }
        }
        assert forall|q: Seq<char>| #[trigger] all.dom().contains(q) implies exists|i: int|
            0 <= i < order.len() && repath(#[trigger] order[i], from, to) == q && all[q] == names[order[i]] by {
            if q == repath(order.last(), from, to) {
                assert(order[order.len() - 1] == order.last());
            } else {
                assert(earlier.dom().contains(q));
                let i = choose|i: int|
                    0 <= i < rest.len() && repath(#[trigger] rest[i], from, to) == q && earlier[q] == names[rest[i]];
                assert(order[i] == rest[i]);
            }
        }
    }
}

/// Only the renamed folder comes to stand at the new path, where none stood.
proof fn lemma_moves_alone(p: Seq<char>, from: Seq<char>, to: Seq<char>)
    requires
        repath(p, from, to) == to,
        p != to,
    ensures
        p == from,
{
    assert(under(p, from));
    lemma_under_prefix(p, from);
    assert((to + p.subrange(from.len() as int, p.len() as int)).len() == to.len() + p.len() - from.len());
    assert(p.subrange(0, from.len() as int) =~= p);
}

impl AutomationStore {
    /// Creates a folder and those above it that are missing; one that is there
    /// stays as it is.
    pub fn create_folder(&mut self, path: &str, name: Option<String>) -> (r: Result<AutomationFolder, StoreError>)
        requires
            old(self).wf(),
        ensures
            final(self).wf(),
            final(self).automations() == old(self).automations(),
            match r {
                Ok(f) => {
                    &&& create_error(path@) is None
                    &&& f.path@ == path@
                    &&& if old(self).folders().dom().contains(path@) {
                        final(self).folders() == old(self).folders() && opt_view(f.name) == old(self).folders()[path@]
                    } else {
                        final(self).folders() == with_folder(old(self).folders(), path@, opt_view(name)) && f.name
                            == name
                    }
                },
                Err(e) => create_error(path@) == Some(e@) && final(self).folders() == old(self).folders(),
            },
    {
        match validate_folder_path(path) {
            Ok(_) => {},
            Err(e) => {
                return Err(e);
            },
        }
        if path.is_empty() {
            return Err(StoreError::InvalidFolderPath("cannot create root".to_owned()));
        }
        if let Some(f) = self.folders_by_path.get(path) {
            return Ok(f.copy());
        }
        let ghost start = self.folders();
        let ghost kept = self.by_id;
        let v = chars_of(path);
        let mut i: usize = 0;
        proof {
            assert(with_ancestors(start, path@, 0) =~= start);
        }
        while i < v.len()
            invariant
                i <= v@.len(),
                v@ == path@,
                self.by_id == kept,
                self.wf(),
                self.folders() == with_ancestors(start, path@, i as int),
            decreases v@.len() - i,
        {
            let ghost before = self.folders();
            if v[i] == '/' {
                let ancestor = text_between(&v, 0, i);
                proof {
                    assert(above(ancestor@, path@)) by {
                        assert(path@.subrange(0, ancestor@.len() as int) =~= ancestor@);
                    }
                }
                proof {
                    assert(self.folders().dom() =~= self.folders_by_path@.dom());
                }
                if !self.folders_by_path.has(ancestor.as_str()) {
                    let f = AutomationFolder { path: ancestor.clone(), name: None };
                    let ghost t = self.folders_by_path@;
                    self.folders_by_path.insert(ancestor, f);
                    proof {
                        assert(self.folders() =~= before.insert(ancestor@, None));
                    }
                }
            }
            proof {
                assert forall|k: Seq<char>| above(k, path@) && k.len() == i implies v@[i as int] == '/' && k
                    == path@.subrange(0, i as int) by {
                }
                let want = with_ancestors(start, path@, i + 1);
                let p = path@.subrange(0, i as int);
                assert(v@[i as int] == '/' ==> self.folders().dom().contains(p));
                assert forall|k: Seq<char>| self.folders().dom().contains(k) == want.dom().contains(k) by {
                    if above(k, path@) && k.len() == i {
                        assert(k == p);
                    }
                }
                assert(self.folders() =~= want);
            }
            i += 1;
        }
        let f = AutomationFolder { path: path.to_owned(), name };
        let copy = f.copy();
        let ghost before = self.folders();
        self.folders_by_path.insert(path.to_owned(), f);
        proof {
            assert(self.folders() =~= before.insert(path@, opt_view(name)));
        }
        Ok(copy)
    }

    /// Files the automations under `from` under `to`.
    fn refile(&mut self, from: &str, to: &str)
        requires
            old(self).wf(),
        ensures
            final(self).wf(),
            final(self).folders_by_path == old(self).folders_by_path,
            refiled(old(self).by_id@, final(self).by_id@, from@, to@),
    {
        let ghost a = self.by_id@;
        let ghost order = self.by_id.order();
        let ghost folders = self.folders_by_path;
        let entries = self.by_id.take_entries();
        let ghost all = entries@;
        let mut rest = entries;
        let ghost mut i: int = 0;
        proof {
            assert(rest@ =~= all.skip(0));
        }
        while rest.len() > 0
            invariant
                entries_of(all, order, a),
                0 <= i <= all.len(),
                rest@ == all.skip(i),
                self.folders_by_path == folders,
                forall|k: Seq<char>| #[trigger] a.dom().contains(k) ==> a[k].id@ == k,
                forall|k: Seq<char>| #[trigger] folders@.dom().contains(k) ==> folders@[k].path@ == k,
                forall|k: Seq<char>| #[trigger]
                    self.by_id@.dom().contains(k) <==> exists|j: int| 0 <= j < i && #[trigger] order[j] == k,
                forall|k: Seq<char>| #[trigger]
                    self.by_id@.dom().contains(k) ==> same_but_folder(a[k], self.by_id@[k]) && opt_view(
                        self.by_id@[k].folder,
                    ) == repath_opt(opt_view(a[k].folder), from@, to@),
            decreases rest@.len(),
        {
            let (key, mut au) = rest.remove(0);
            let ghost was = au;
            let ghost t = self.by_id@;
            proof {
                assert((key, au) == all[i]);
                assert(rest@ =~= all.skip(i + 1));
            }
            let folder = match &au.folder {
                Some(f) => Some(moved(f.as_str(), from, to)),
                None => None,
            };
            au.folder = folder;
            self.by_id.insert(key, au);
            proof {
                assert forall|k: Seq<char>| #[trigger] self.by_id@.dom().contains(k) <==> exists|j: int|
                    0 <= j < i + 1 && #[trigger] order[j] == k by {
                    if k == order[i] {
                        assert(order[i] == k);
                    } else if self.by_id@.dom().contains(k) {
                        assert(t.dom().contains(k));
                        let j = choose|j: int| 0 <= j < i && #[trigger] order[j] == k;
                        assert(order[j] == k);
                    } else if exists|j: int| 0 <= j < i + 1 && #[trigger] order[j] == k {
                        let j = choose|j: int| 0 <= j < i + 1 && #[trigger] order[j] == k;
                        assert(order[j] == k);
                        assert(t.dom().contains(k));
                    }
                }
                i = i + 1;
            }
        }
        proof {
            assert forall|k: Seq<char>| self.by_id@.dom().contains(k) == a.dom().contains(k) by {
                if a.dom().contains(k) {
                    assert(order.to_set().contains(k));
                    let j = choose|j: int| 0 <= j < order.len() && order[j] == k;
                    assert(order[j] == k);
                }
                if self.by_id@.dom().contains(k) {
                    let j = choose|j: int| 0 <= j < i && #[trigger] order[j] == k;
                    assert(all[j].0@ == order[j]);
                }
            }
            assert(self.by_id@.dom() =~= a.dom());
            assert forall|k: Seq<char>| #[trigger] self.by_id@.dom().contains(k) implies self.by_id@[k].id@ == k by {
                assert(a.dom().contains(k));
            }
        }
    }

    /// Moves the folder `from`, and those under it, to `to`.
    fn move_folders(&mut self, from: &str, to: &str)
        requires
            old(self).wf(),
        ensures
            final(self).wf(),
            final(self).by_id == old(self).by_id,
            folder_names(final(self).folders_by_path@) == renamed(
                old(self).folders_by_path.order(),
                folder_names(old(self).folders_by_path@),
                from@,
                to@,
            ),
    {
        let ghost m = self.folders_by_path@;
        let ghost names = folder_names(m);
        let ghost order = self.folders_by_path.order();
        let ghost kept = self.by_id;
        let entries = self.folders_by_path.take_entries();
        let ghost all = entries@;
        let mut rest = entries;
        let ghost mut i: int = 0;
        proof {
            assert(rest@ =~= all.skip(0));
            assert(order.take(0) =~= Seq::empty());
            assert(folder_names(self.folders_by_path@) =~= Map::empty());
        }
        while rest.len() > 0
            invariant
                entries_of(all, order, m),
                names == folder_names(m),
                0 <= i <= all.len(),
                rest@ == all.skip(i),
                self.by_id == kept,
                forall|k: Seq<char>| #[trigger] kept@.dom().contains(k) ==> kept@[k].id@ == k,
                forall|k: Seq<char>| #[trigger] m.dom().contains(k) ==> m[k].path@ == k,
                self.wf(),
                folder_names(self.folders_by_path@) == renamed(order.take(i), names, from@, to@),
            decreases rest@.len(),
        {
            let (key, mut f) = rest.remove(0);
            let ghost was = folder_names(self.folders_by_path@);
            proof {
                assert((key, f) == all[i]);
                assert(rest@ =~= all.skip(i + 1));
                assert(order.take(i + 1).drop_last() =~= order.take(i));
                assert(order.take(i + 1).last() == order[i]);
                assert(names[order[i]] == opt_view(f.name));
            }
            let path = moved(key.as_str(), from, to);
            f.path = path.clone();
            self.folders_by_path.insert(path, f);
            proof {
                assert(folder_names(self.folders_by_path@) =~= was.insert(path@, opt_view(f.name)));
                i = i + 1;
            }
        }
        proof {
            assert(order.take(i) =~= order);
        }
    }

    /// Renames a folder and everything under it, and perhaps gives it another
    /// name to show.
    pub fn rename_folder(&mut self, old_path: &str, new_path: &str, new_name: Option<String>) -> (r: Result<
        AutomationFolder,
        StoreError,
    >)
        requires
            old(self).wf(),
        ensures
            final(self).wf(),
            match r {
                Ok(f) => {
                    let name = name_after(opt_view(new_name), old(self).folders()[old_path@]);
                    &&& rename_error(old(self).folders(), old_path@, new_path@) is None
                    &&& refiled(old(self).automations(), final(self).automations(), old_path@, new_path@)
                    &&& relocated(old(self).folders(), final(self).folders(), old_path@, new_path@, name)
                    &&& f.path@ == new_path@
                    &&& opt_view(f.name) == name
                },
                Err(e) => {
                    &&& rename_error(old(self).folders(), old_path@, new_path@) == Some(e@)
                    &&& final(self).folders() == old(self).folders()
                    &&& final(self).automations() == old(self).automations()
                },
            },
    {
        match validate_folder_path(new_path) {
            Ok(_) => {},
            Err(e) => {
                return Err(e);
            },
        }
        if new_path.is_empty() {
            return Err(StoreError::InvalidFolderPath("cannot rename to root".to_owned()));
        }
        if !self.folders_by_path.has(old_path) {
            return Err(StoreError::FolderNotFound(old_path.to_owned()));
        }
        let moves = !same(old_path, new_path);
        if moves && self.folders_by_path.has(new_path) {
            return Err(StoreError::FolderConflict(new_path.to_owned()));
        }
        let ghost order = self.folders_by_path.order();
        let ghost names = self.folders();
        let ghost autos = self.by_id@;
        let n: usize = self.folders_by_path.len();
        if moves {
            self.move_folders(old_path, new_path);
            self.refile(old_path, new_path);
            proof {
                assert(order.to_set().contains(old_path@));
                let i = choose|i: int| 0 <= i < order.len() && order[i] == old_path@;
                lemma_renamed(order, names, old_path@, new_path@);
                assert(repath(order[i], old_path@, new_path@) =~= new_path@);
                let moved = self.folders();
                assert(moved == renamed(order, names, old_path@, new_path@));
                assert forall|p: Seq<char>| #[trigger] names.dom().contains(p) implies moved.dom().contains(
                    repath(p, old_path@, new_path@),
                ) by {
                    assert(order.to_set().contains(p));
                    let k = choose|k: int| 0 <= k < order.len() && order[k] == p;
                    assert(moved.dom().contains(repath(order[k], old_path@, new_path@)));
                }
                assert forall|q: Seq<char>| #[trigger] moved.dom().contains(q) implies exists|p: Seq<char>| #[trigger]
                    names.dom().contains(p) && repath(p, old_path@, new_path@) == q && moved[q] == names[p] by {
                    let k = choose|k: int|
                        0 <= k < order.len() && repath(#[trigger] order[k], old_path@, new_path@) == q && moved[q]
                            == names[order[k]];
                    assert(order.to_set().contains(order[k]));
                    assert(names.dom().contains(order[k]));
                }
                let p = choose|p: Seq<char>| #[trigger]
                    names.dom().contains(p) && repath(p, old_path@, new_path@) == new_path@ && moved[new_path@]
                        == names[p];
                lemma_moves_alone(p, old_path@, new_path@);
            }
        } else {
            proof {
                assert forall|p: Seq<char>| #[trigger] names.dom().contains(p) implies repath(p, old_path@, new_path@)
                    == p by {
                    lemma_repath_self(p, old_path@);
                }
                assert forall|id: Seq<char>| #[trigger] autos.dom().contains(id) implies repath_opt(
                    opt_view(autos[id].folder),
                    old_path@,
                    new_path@,
                ) == opt_view(autos[id].folder) by {
                    if let Some(f) = autos[id].folder {
                        lemma_repath_self(f@, old_path@);
                    }
                }
            }
        }
        let ghost moved = self.folders();
        proof {
            assert(moved.dom().contains(new_path@));
            assert(moved[new_path@] == names[old_path@]);
            assert(self.folders_by_path@.dom().contains(new_path@));
        }
        let name = match new_name {
            Some(n) => if trimmed(n.as_str()).as_str().is_empty() {
                None
            } else {
                Some(n)
            },
            None => match self.folders_by_path.get(new_path) {
                Some(f) => f.copy().name,
                None => None,
            },
        };
        let f = AutomationFolder { path: new_path.to_owned(), name };
        let copy = f.copy();
        self.folders_by_path.insert(new_path.to_owned(), f);
        proof {
            let after = self.folders();
            assert(after =~= moved.insert(new_path@, opt_view(name)));
            assert forall|q: Seq<char>| #[trigger] after.dom().contains(q) implies exists|p: Seq<char>| #[trigger]
                names.dom().contains(p) && repath(p, old_path@, new_path@) == q && after[q] == if q == new_path@ {
                    opt_view(name)
                } else {
                    names[p]
                } by {
                assert(moved.dom().contains(q));
                let p = choose|p: Seq<char>| #[trigger]
                    names.dom().contains(p) && repath(p, old_path@, new_path@) == q && moved[q] == names[p];
                assert(names.dom().contains(p));
            }
        }
        Ok(copy)
    }

    /// Removes the folders under a path.
    fn prune(&mut self, path: &str)
        requires
            old(self).wf(),
        ensures
            final(self).wf(),
            final(self).by_id == old(self).by_id,
            final(self).folders() == pruned(old(self).folders(), path@),
    {
        let ghost m = self.folders_by_path@;
        let ghost order = self.folders_by_path.order();
        let ghost kept = self.by_id;
        let entries = self.folders_by_path.take_entries();
        let ghost all = entries@;
        let mut rest = entries;
        let ghost mut i: int = 0;
        proof {
            assert(rest@ =~= all.skip(0));
        }
        while rest.len() > 0
            invariant
                entries_of(all, order, m),
                0 <= i <= all.len(),
                rest@ == all.skip(i),
                self.by_id == kept,
                forall|k: Seq<char>| #[trigger] kept@.dom().contains(k) ==> kept@[k].id@ == k,
                forall|k: Seq<char>| #[trigger] m.dom().contains(k) ==> m[k].path@ == k,
                self.wf(),
                forall|k: Seq<char>| #[trigger]
                    self.folders_by_path@.dom().contains(k) <==> !under(k, path@) && exists|j: int|
                        0 <= j < i && #[trigger] order[j] == k,
                forall|k: Seq<char>| #[trigger]
                    self.folders_by_path@.dom().contains(k) ==> m.dom().contains(k) && self.folders_by_path@[k] == m[k],
            decreases rest@.len(),
        {
            let (key, f) = rest.remove(0);
            let ghost t = self.folders_by_path@;
            proof {
                assert((key, f) == all[i]);
                assert(rest@ =~= all.skip(i + 1));
            }
            if !is_under(key.as_str(), path) {
                self.folders_by_path.insert(key, f);
            }
            proof {
                assert forall|k: Seq<char>| #[trigger] self.folders_by_path@.dom().contains(k) <==> !under(k, path@)
                    && exists|j: int| 0 <= j < i + 1 && #[trigger] order[j] == k by {
                    if k == order[i] {
                        assert(order[i] == k);
                        if t.dom().contains(k) {
                            let j = choose|j: int| 0 <= j < i && #[trigger] order[j] == k;
                            assert(order[j] == order[i]);
                        }
                    } else if self.folders_by_path@.dom().contains(k) {
                        assert(t.dom().contains(k));
                        let j = choose|j: int| 0 <= j < i && #[trigger] order[j] == k;
                        assert(order[j] == k);
                    } else if !under(k, path@) && exists|j: int| 0 <= j < i + 1 && #[trigger] order[j] == k {
                        let j = choose|j: int| 0 <= j < i + 1 && #[trigger] order[j] == k;
                        assert(order[j] == k);
                        assert(t.dom().contains(k));
                    }
                }
                i = i + 1;
            }
        }
        proof {
            let names = folder_names(m);
            assert forall|k: Seq<char>| self.folders().dom().contains(k) == pruned(names, path@).dom().contains(k) by {
                if m.dom().contains(k) {
                    assert(order.to_set().contains(k));
                    let j = choose|j: int| 0 <= j < order.len() && order[j] == k;
                    assert(order[j] == k);
                    assert(self.folders_by_path@.dom().contains(k) <==> !under(k, path@));
                } else if self.folders_by_path@.dom().contains(k) {
                    assert(m.dom().contains(k));
                }
            }
            assert(self.folders() =~= pruned(names, path@));
        }
    }

    /// Deletes a folder and the folders under it. The automations there are
    /// filed in the folder above, or deleted as well. Says how many there were.
    pub fn delete_folder(&mut self, path: &str, keep_contents: bool) -> (r: Result<usize, StoreError>)
        requires
            old(self).wf(),
        ensures
            final(self).wf(),
            match r {
                Ok(n) => {
                    &&& old(self).folders().dom().contains(path@)
                    &&& n == filed_under(old(self).automations(), path@).len()
                    &&& final(self).folders() == pruned(old(self).folders(), path@)
                    &&& if keep_contents {
                        lifted(old(self).automations(), final(self).automations(), path@)
                    } else {
                        final(self).automations() == unfiled(old(self).automations(), path@)
                    }
                },
                Err(e) => {
                    &&& !old(self).folders().dom().contains(path@)
                    &&& e@ == StoreErrorV::FolderNotFound(path@)
                    &&& final(self).folders() == old(self).folders()
                    &&& final(self).automations() == old(self).automations()
                },
            },
    {
        if !self.folders_by_path.has(path) {
            return Err(StoreError::FolderNotFound(path.to_owned()));
        }
        let parent = parent_path(path);
        let ghost a = self.by_id@;
        let ghost order = self.by_id.order();
        let ghost names = self.folders();
        let ghost folders = self.folders_by_path;
        let entries = self.by_id.take_entries();
        let ghost all = entries@;
        let total: usize = entries.len();
        let mut rest = entries;
        let mut count: usize = 0;
        let ghost mut i: int = 0;
        proof {
            assert(rest@ =~= all.skip(0));
            assert(order.take(0) =~= Seq::empty());
        }
        while rest.len() > 0
            invariant
                entries_of(all, order, a),
                total == all.len(),
                0 <= i <= all.len(),
                rest@ == all.skip(i),
                count <= i,
                opt_view(parent) == parent_of(path@),
                count == filed_among(order.take(i), a, path@),
                self.folders_by_path == folders,
                forall|k: Seq<char>| #[trigger] a.dom().contains(k) ==> a[k].id@ == k,
                forall|k: Seq<char>| #[trigger]
                    self.by_id@.dom().contains(k) <==> (keep_contents || !is_filed(a[k], path@)) && exists|j: int|
                        0 <= j < i && #[trigger] order[j] == k,
                forall|k: Seq<char>| #[trigger]
                    self.by_id@.dom().contains(k) ==> a.dom().contains(k) && if is_filed(a[k], path@) {
                        same_but_folder(a[k], self.by_id@[k]) && opt_view(self.by_id@[k].folder) == parent_of(path@)
                    } else {
                        self.by_id@[k] == a[k]
                    },
            decreases rest@.len(),
        {
            let (key, mut au) = rest.remove(0);
            let ghost t = self.by_id@;
            proof {
                assert((key, au) == all[i]);
                assert(rest@ =~= all.skip(i + 1));
                assert(order.take(i + 1).drop_last() =~= order.take(i));
                assert(order.take(i + 1).last() == order[i]);
            }
            let filed = match &au.folder {
                Some(f) => is_under(f.as_str(), path),
                None => false,
            };
            if filed {
                count += 1;
                if keep_contents {
                    au.folder = match &parent {
                        Some(p) => Some(p.clone()),
                        None => None,
                    };
                    self.by_id.insert(key, au);
                }
            } else {
                self.by_id.insert(key, au);
            }
            proof {
                assert forall|k: Seq<char>| #[trigger] self.by_id@.dom().contains(k) <==> (keep_contents || !is_filed(
                    a[k],
                    path@,
                )) && exists|j: int| 0 <= j < i + 1 && #[trigger] order[j] == k by {
                    if k == order[i] {
                        assert(order[i] == k);
                        if t.dom().contains(k) {
                            let j = choose|j: int| 0 <= j < i && #[trigger] order[j] == k;
                            assert(order[j] == order[i]);
                        }
                    } else if self.by_id@.dom().contains(k) {
                        assert(t.dom().contains(k));
                        let j = choose|j: int| 0 <= j < i && #[trigger] order[j] == k;
                        assert(order[j] == k);
                    } else if (keep_contents || !is_filed(a[k], path@)) && exists|j: int|
                        0 <= j < i + 1 && #[trigger] order[j] == k {
                        let j = choose|j: int| 0 <= j < i + 1 && #[trigger] order[j] == k;
                        assert(order[j] == k);
                        assert(t.dom().contains(k));
                    }
                }
                assert forall|k: Seq<char>| #[trigger] self.by_id@.dom().contains(k) implies a.dom().contains(k) && if is_filed(
                    a[k],
                    path@,
                ) {
                    same_but_folder(a[k], self.by_id@[k]) && opt_view(self.by_id@[k].folder) == parent_of(path@)
                } else {
                    self.by_id@[k] == a[k]
                } by {
                    if k != order[i] {
                        assert(t.dom().contains(k));
                    }
                }
                i = i + 1;
            }
        }
        proof {
            assert(order.take(i) =~= order);
            lemma_filed(order, a, path@);
            assert(filed_under(a, path@) =~= order.to_set().filter(|id: Seq<char>| is_filed(a[id], path@)));
            assert forall|k: Seq<char>| a.dom().contains(k) implies exists|j: int| 0 <= j < i && #[trigger] order[j] == k by {
                assert(order.to_set().contains(k));
                let j = choose|j: int| 0 <= j < order.len() && order[j] == k;
                assert(order[j] == k);
            }
            if keep_contents {
                assert(self.by_id@.dom() =~= a.dom());
            } else {
                assert(self.by_id@ =~= unfiled(a, path@));
            }
        }
        self.prune(path);
        Ok(count)
    }
}

// ---------------------------------------------------------------------------
// Laws
// ---------------------------------------------------------------------------

proof fn lemma_under_prefix(path: Seq<char>, folder: Seq<char>)
    requires
        under(path, folder),
    ensures
        folder.len() <= path.len(),
        path.subrange(0, folder.len() as int) == folder,
        path.len() > folder.len() ==> path[folder.len() as int] == '/',
{
    if path != folder {
        let q = folder.push('/');
        assert(path.subrange(0, q.len() as int) =~= q);
        assert forall|i: int| 0 <= i < folder.len() implies path[i] == folder[i] by {
            assert(path.subrange(0, q.len() as int)[i] == q[i]);
        }
        assert(path.subrange(0, q.len() as int)[folder.len() as int] == q[folder.len() as int]);
    }
    assert(path.subrange(0, folder.len() as int) =~= folder);
}

proof fn lemma_under_build(folder: Seq<char>, rest: Seq<char>)
    requires
        rest.len() == 0 || rest[0] == '/',
    ensures
        under(folder + rest, folder),
{
    if rest.len() == 0 {
        assert(folder + rest =~= folder);
    } else {
        let q = folder.push('/');
        assert((folder + rest).subrange(0, q.len() as int) =~= q);
    }
}

/// Renaming a folder carries everything under it along: what stood under the
/// old path stands at the same place under the new one.
pub proof fn law_rename_carries_contents(path: Seq<char>, from: Seq<char>, to: Seq<char>)
    ensures
        under(path, from) ==> under(repath(path, from, to), to),
        !under(path, from) ==> repath(path, from, to) == path,
        under(path, from) && !under(to, from) ==> !under(repath(path, from, to), from) || under(from, to),
{
    if under(path, from) {
        lemma_under_prefix(path, from);
        let rest = path.subrange(from.len() as int, path.len() as int);
        lemma_under_build(to, rest);
        let new = to + rest;
        if !under(to, from) && under(new, from) {
            lemma_under_prefix(new, from);
            assert(new.subrange(0, from.len() as int) == from);
            if from.len() <= to.len() {
                assert(to.subrange(0, from.len() as int) =~= new.subrange(0, from.len() as int));
                if from.len() < to.len() {
                    assert(new[from.len() as int] == to[from.len() as int]);
                    let q = from.push('/');
                    assert(to.subrange(0, q.len() as int) =~= q) by {
                        assert forall|i: int| 0 <= i < q.len() implies to[i] == q[i] by {
                            if i < from.len() {
                                assert(to.subrange(0, from.len() as int)[i] == from[i]);
                            }
                        }
                    }
                } else {
                    assert(to =~= from);
                }
            } else {
                assert(from.subrange(0, to.len() as int) =~= to) by {
                    assert forall|i: int| 0 <= i < to.len() implies from[i] == to[i] by {
                        assert(new.subrange(0, from.len() as int)[i] == new[i]);
                    }
                }
                assert(from[to.len() as int] == new[to.len() as int]) by {
                    assert(new.subrange(0, from.len() as int)[to.len() as int] == new[to.len() as int]);
                }
                assert(rest.len() > 0);
                assert(from =~= to + from.subrange(to.len() as int, from.len() as int));
                lemma_under_build(to, from.subrange(to.len() as int, from.len() as int));
            }
        }
    }
}

/// Renaming a folder back restores every path that did not stand under the new
/// name.
pub proof fn law_rename_back_restores(path: Seq<char>, from: Seq<char>, to: Seq<char>)
    requires
        !under(path, to) || under(path, from),
    ensures
        repath(repath(path, from, to), to, from) == path,
{
    if under(path, from) {
        lemma_under_prefix(path, from);
        let rest = path.subrange(from.len() as int, path.len() as int);
        lemma_under_build(to, rest);
        let new = to + rest;
        assert(new.subrange(to.len() as int, new.len() as int) =~= rest);
        assert(from + rest =~= path);
    }
}

/// Every folder above a created one exists.
pub proof fn law_created_folder_has_ancestors(
    folders: Map<Seq<char>, Option<Seq<char>>>,
    path: Seq<char>,
    name: Option<Seq<char>>,
    a: Seq<char>,
)
    requires
        above(a, path),
    ensures
        with_folder(folders, path, name).dom().contains(a),
        with_folder(folders, path, name).dom().contains(path),
        with_folder(folders, path, name)[path] == name,
{
}

/// Deleting a folder but keeping its contents loses no automation and leaves
/// none under it, unless the folder above is under it, which cannot be.
pub proof fn law_kept_contents_survive(
    a: Map<Seq<char>, Automation>,
    b: Map<Seq<char>, Automation>,
    path: Seq<char>,
    id: Seq<char>,
)
    requires
        lifted(a, b, path),
        a.dom().contains(id),
    ensures
        b.dom().contains(id),
        !is_filed(b[id], path),
{
    if is_filed(a[id], path) {
        if let Some(p) = parent_of(path) {
            lemma_slash_before(path, path.len() as int);
            if under(p, path) {
                lemma_under_prefix(p, path);
            }
        }
    }
}

// ---------------------------------------------------------------------------
// Filing one automation
// ---------------------------------------------------------------------------

/// The folders after an automation was filed in one, which is created where it
/// is missing; the root needs no folder.
pub open spec fn folders_for(folders: Map<Seq<char>, Option<Seq<char>>>, folder: Option<Seq<char>>) -> Map<
    Seq<char>,
    Option<Seq<char>>,
> {
    match folder {
        Some(f) => if f.len() == 0 || folders.dom().contains(f) {
            folders
        } else {
            with_folder(folders, f, None)
        },
        None => folders,
    }
}

/// Why an automation cannot be filed in a folder.
pub open spec fn filing_error(known: bool, id: Seq<char>, folder: Option<Seq<char>>) -> Option<Seq<char>> {
    if !known {
        Some("automation "@ + id + " not found"@)
    } else {
        match folder {
            Some(f) => if f.len() == 0 {
                None
            } else {
                match create_error(f) {
                    Some(e) => Some(e.message()),
                    None => None,
                }
            },
            None => None,
        }
    }
}

impl AutomationStore {
    /// Files an automation in a folder, or at the root.
    pub fn set_automation_folder(&mut self, id: &str, folder: Option<String>) -> (r: Result<(), DaemonError>)
        requires
            old(self).wf(),
        ensures
            final(self).wf(),
            match r {
                Ok(_) => {
                    let a = old(self).automations();
                    &&& filing_error(a.dom().contains(id@), id@, opt_view(folder)) is None
                    &&& final(self).folders() == folders_for(old(self).folders(), opt_view(folder))
                    &&& final(self).automations() == a.insert(id@, (Automation { folder, ..a[id@] }))
                },
                Err(e) => {
                    &&& filing_error(old(self).automations().dom().contains(id@), id@, opt_view(folder)) matches Some(m)
                    &&& e@ == DaemonErrorV::Session(m)
                    &&& final(self).folders() == old(self).folders()
                    &&& final(self).automations() == old(self).automations()
                },
            },
    {
        if !self.by_id.has(id) {
            return Err(DaemonError::Session(quoted("automation ", id, " not found")));
        }
        match &folder {
            Some(f) => {
                if !f.as_str().is_empty() {
                    match self.create_folder(f.as_str(), None) {
                        Ok(_) => {},
                        Err(e) => {
                            return Err(DaemonError::Session(e.message()));
                        },
                    }
                }
            },
            None => {},
        }
        let ghost before = self.by_id@;
        match self.by_id.remove(id) {
            Some(found) => {
                let mut a = found;
                a.folder = folder;
                self.upsert(a);
                proof {
                    assert(self.by_id@ =~= before.insert(id@, (Automation { folder, ..before[id@] })));
                }
            },
            None => {},
        }
        Ok(())
    }
}

/// An automation that was filed in a folder stands under it, and the folder and
/// those above it exist.
pub proof fn law_filed_automations_have_a_folder(
    folders: Map<Seq<char>, Option<Seq<char>>>,
    a: Automation,
    f: String,
    above_it: Seq<char>,
)
    requires
        f@.len() > 0,
        above(above_it, f@),
    ensures
        is_filed(Automation { folder: Some(f), ..a }, f@),
        folders_for(folders, Some(f@)).dom().contains(f@),
        !folders.dom().contains(f@) ==> folders_for(folders, Some(f@)).dom().contains(above_it),
{
}

proof fn lemma_slash_before(path: Seq<char>, i: int)
    requires
        0 <= i <= path.len(),
    ensures
        match slash_before(path, i) {
            Some(k) => 0 <= k < i && path[k] == '/',
            None => true,
        },
    decreases i,
{
    if i > 0 && path[i - 1] != '/' {
        lemma_slash_before(path, i - 1);
    }
}

/// Deleting a folder with its contents leaves no folder and no automation under
/// it, and touches nothing else.
pub proof fn law_recursive_delete_leaves_nothing(
    folders: Map<Seq<char>, Option<Seq<char>>>,
    a: Map<Seq<char>, Automation>,
    path: Seq<char>,
    k: Seq<char>,
)
    ensures
        pruned(folders, path).dom().contains(k) <==> folders.dom().contains(k) && !under(k, path),
        unfiled(a, path).dom().contains(k) <==> a.dom().contains(k) && !is_filed(a[k], path),
        unfiled(a, path).dom().contains(k) ==> unfiled(a, path)[k] == a[k],
{
}

} // verus!
