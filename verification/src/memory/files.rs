//! Files that are kept under the digest of their bytes.
//!
//! The same bytes are one file, whatever they were called: its id is the
//! SHA-256 digest in hexadecimal, and it lies in the directory that is named by
//! the id's first two characters.
use vstd::prelude::*;

use crate::llm::provider::opt_view;
use crate::memory::error::{MemoryError, MemoryErrorV};
use crate::outside::{hex_text, now_unix, sha256, sha256_hex};
use crate::session::{copy_opt, copy_texts};
use crate::table::{Ranked, Table, has_value, lemma_permuted, lists, listing, sort, sorted};
use crate::text::{begins, byte_cut, chars_of, concat, contains, cut_at_byte, has, has_bytes, lowercase, same, split,
    split_text, starts_with, text_between, to_lower, trim, trimmed, utf8_bytes, views};

verus! {

// ---------------------------------------------------------------------------
// Values
// ---------------------------------------------------------------------------

/// A kept file.
#[derive(Debug)]
pub struct FileEntry {
    /// The digest of its bytes.
    pub id: String,
    /// The name that users see.
    pub name: String,
    pub mime: String,
    /// The extension, without the dot.
    pub ext: String,
    pub size: u64,
    pub uploaded_at: u64,
    /// The text that was read out of it.
    pub extracted_text: Option<String>,
    /// The text that was recognised in it.
    pub ocr_text: Option<String>,
    pub tags: Vec<String>,
}

pub struct FileV {
    pub id: Seq<char>,
    pub name: Seq<char>,
    pub mime: Seq<char>,
    pub ext: Seq<char>,
    pub size: u64,
    pub uploaded_at: u64,
    pub extracted_text: Option<Seq<char>>,
    pub ocr_text: Option<Seq<char>>,
    pub tags: Seq<Seq<char>>,
}

impl View for FileEntry {
    type V = FileV;

    open spec fn view(&self) -> FileV {
        FileV {
            id: self.id@,
            name: self.name@,
            mime: self.mime@,
            ext: self.ext@,
            size: self.size,
            uploaded_at: self.uploaded_at,
            extracted_text: opt_view(self.extracted_text),
            ocr_text: opt_view(self.ocr_text),
            tags: views(self.tags@),
        }
    }
}

/// Some text is there and contains `q`, whatever the case.
pub open spec fn text_mentions(t: Option<Seq<char>>, q: Seq<char>) -> bool {
    match t {
        Some(s) => contains(lowercase(s), q),
        None => false,
    }
}

/// The name, a tag or a text of the file contains `q`, whatever the case.
pub open spec fn mentions(f: FileV, q: Seq<char>) -> bool {
    ||| contains(lowercase(f.name), q)
    ||| exists|i: int| 0 <= i < f.tags.len() && contains(lowercase(#[trigger] f.tags[i]), q)
    ||| text_mentions(f.extracted_text, q)
    ||| text_mentions(f.ocr_text, q)
}

impl FileEntry {
    /// A copy.
    pub fn copy(&self) -> (r: FileEntry)
        ensures
            r@ == self@,
    {
        FileEntry {
            id: self.id.clone(),
            name: self.name.clone(),
            mime: self.mime.clone(),
            ext: self.ext.clone(),
            size: self.size,
            uploaded_at: self.uploaded_at,
            extracted_text: copy_opt(&self.extracted_text),
            ocr_text: copy_opt(&self.ocr_text),
            tags: copy_texts(&self.tags),
        }
    }

    /// Whether the file is an image.
    pub fn is_image(&self) -> (r: bool)
        ensures
            r == starts_with(self.mime@, "image/"@),
    {
        begins(self.mime.as_str(), "image/")
    }

    /// The text to show a model: the one that was read out of the file, else
    /// the one that was recognised in it.
    pub fn inline_text(&self) -> (r: Option<&str>)
        ensures
            match r {
                Some(s) => Some(s@) == (match self@.extracted_text {
                    Some(t) => Some(t),
                    None => self@.ocr_text,
                }),
                None => self@.extracted_text is None && self@.ocr_text is None,
            },
    {
        match &self.extracted_text {
            Some(t) => Some(t.as_str()),
            None => match &self.ocr_text {
                Some(t) => Some(t.as_str()),
                None => None,
            },
        }
    }

    fn mentions(&self, q: &str) -> (r: bool)
        ensures
            r == mentions(self@, q@),
    {
        if has(to_lower(self.name.as_str()).as_str(), q) {
            return true;
        }
        let mut i: usize = 0;
        while i < self.tags.len()
            invariant
                i <= self.tags@.len(),
                forall|k: int| 0 <= k < i ==> !contains(lowercase(#[trigger] self@.tags[k]), q@),
            decreases self.tags@.len() - i,
        {
            proof {
                assert(self@.tags[i as int] == self.tags@[i as int]@);
            }
            if has(to_lower(self.tags[i].as_str()).as_str(), q) {
                return true;
            }
            i += 1;
        }
        opt_mentions(&self.extracted_text, q) || opt_mentions(&self.ocr_text, q)
    }
}

fn opt_mentions(t: &Option<String>, q: &str) -> (r: bool)
    ensures
        r == text_mentions(opt_view(*t), q@),
{
    match t {
        Some(s) => has(to_lower(s.as_str()).as_str(), q),
        None => false,
    }
}

// ---------------------------------------------------------------------------
// Names of files
// ---------------------------------------------------------------------------

/// The last segment of a path that names something: neither empty nor `.`.
pub open spec fn last_name(segments: Seq<Seq<char>>) -> Option<Seq<char>>
    decreases segments.len(),
{
    if segments.len() == 0 {
        None
    } else if segments.last().len() == 0 || segments.last() == "."@ {
        last_name(segments.drop_last())
    } else if segments.last() == ".."@ {
        None
    } else {
        Some(segments.last())
    }
}

/// The position of the last dot before `i`.
pub open spec fn dot_before(s: Seq<char>, i: int) -> Option<int>
    decreases i,
{
    if i <= 0 || i > s.len() {
        None
    } else if s[i - 1] == '.' {
        Some(i - 1)
    } else {
        dot_before(s, i - 1)
    }
}

/// What stands behind the last dot of a name, unless the name begins there.
pub open spec fn extension_in(name: Seq<char>) -> Option<Seq<char>> {
    match dot_before(name, name.len() as int) {
        Some(d) => if d > 0 {
            Some(name.subrange(d + 1, name.len() as int))
        } else {
            None
        },
        None => None,
    }
}

/// The extension of a path.
pub open spec fn extension_of(path: Seq<char>) -> Option<Seq<char>> {
    match last_name(split(path, '/')) {
        Some(name) => extension_in(name),
        None => None,
    }
}

/// The extension that a file is kept with.
pub open spec fn kept_extension(name: Seq<char>) -> Seq<char> {
    lowercase(
        match extension_of(name) {
            Some(e) => e,
            None => "bin"@,
        },
    )
}

/// The extension of a path.
pub fn extension(path: &str) -> (r: Option<String>)
    ensures
        match r {
            Some(e) => extension_of(path@) == Some(e@),
            None => extension_of(path@) is None,
        },
{
    let segments = split_text(path, '/');
    let ghost all = split(path@, '/');
    let mut n: usize = segments.len();
    proof {
        assert(all.take(n as int) =~= all);
    }
    while n > 0
        invariant
            n <= segments@.len(),
            all == views(segments@),
            all == split(path@, '/'),
            last_name(all) == last_name(all.take(n as int)),
        decreases n,
    {
        let s = segments[n - 1].as_str();
        proof {
            assert(all.take(n as int).last() == s@);
            assert(all.take(n as int).drop_last() =~= all.take(n - 1));
        }
        if s.unicode_len() == 0 || same(s, ".") {
            n = n - 1;
        } else if same(s, "..") {
            return None;
        } else {
            return extension_in_name(s);
        }
    }
    None
}

fn extension_in_name(name: &str) -> (r: Option<String>)
    ensures
        match r {
            Some(e) => extension_in(name@) == Some(e@),
            None => extension_in(name@) is None,
        },
{
    let v = chars_of(name);
    let mut i: usize = v.len();
    while i > 0
        invariant
            i <= v@.len(),
            v@ == name@,
            dot_before(name@, name@.len() as int) == dot_before(name@, i as int),
        decreases i,
    {
        if v[i - 1] == '.' {
            if i > 1 {
                return Some(text_between(&v, i, v.len()));
            }
            return None;
        }
        i = i - 1;
    }
    None
}

/// The directory of an id: its first two bytes, or all of a shorter one. `None`
/// where a character would be cut.
pub open spec fn shard_of(id: Seq<char>) -> Option<Seq<char>> {
    if utf8_bytes(id) <= 2 {
        Some(id)
    } else {
        match byte_cut(id, 2, 0) {
            Some(i) => Some(id.subrange(0, i)),
            None => None,
        }
    }
}

/// The directory of an id.
pub fn shard_dir(id: &str) -> (r: Option<String>)
    ensures
        match r {
            Some(s) => shard_of(id@) == Some(s@),
            None => shard_of(id@) is None,
        },
{
    let v = chars_of(id);
    if !has_bytes(&v, 3) {
        return Some(id.to_owned());
    }
    match cut_at_byte(&v, 2) {
        Some(i) => Some(text_between(&v, 0, i)),
        None => None,
    }
}

/// Where a file lies: its directory and its name there.
pub open spec fn place_of(f: FileV) -> Option<(Seq<char>, Seq<char>)> {
    match shard_of(f.id) {
        Some(dir) => Some((dir, f.id + "."@ + f.ext)),
        None => None,
    }
}

/// The name of what is kept about a file.
pub fn sidecar_name(id: &str) -> (r: String)
    ensures
        r@ == id@ + ".meta.json"@,
{
    concat(id, ".meta.json")
}

// ---------------------------------------------------------------------------
// The store
// ---------------------------------------------------------------------------

impl<'a> Ranked for &'a FileEntry {
    open spec fn comes_before(a: &'a FileEntry, b: &'a FileEntry) -> bool {
        a.uploaded_at > b.uploaded_at
    }

    proof fn order_is_strict(a: &'a FileEntry, b: &'a FileEntry, c: &'a FileEntry) {
    }

    fn ranks_before(&self, other: &&'a FileEntry) -> (r: bool) {
        self.uploaded_at > other.uploaded_at
    }
}

/// The list holds the files that mention a text, each once, newest first.
pub open spec fn found(r: Seq<&FileEntry>, m: Map<Seq<char>, FileEntry>, q: Seq<char>) -> bool {
    &&& forall|i: int| 0 <= i < r.len() ==> has_value(m, *(#[trigger] r[i])) && mentions(r[i]@, q)
    &&& forall|k: Seq<char>|
        #[trigger] m.dom().contains(k) && mentions(m[k]@, q) ==> exists|i: int| 0 <= i < r.len() && *(#[trigger] r[i])
            == m[k]
    &&& forall|i: int, j: int| 0 <= i < j < r.len() ==> (#[trigger] r[i]).id@ != (#[trigger] r[j]).id@
    &&& sorted(r)
}

/// A file that is new to the store.
pub open spec fn new_file(
    bytes: Seq<u8>,
    name: Seq<char>,
    mime: Seq<char>,
    texts: (Option<String>, Option<String>),
    now: u64,
) -> FileV {
    FileV {
        id: hex_text(sha256(bytes)),
        name,
        mime,
        ext: kept_extension(name),
        size: bytes.len() as u64,
        uploaded_at: now,
        extracted_text: opt_view(texts.0),
        ocr_text: opt_view(texts.1),
        tags: Seq::empty(),
    }
}

/// There is no such file, and nothing changed.
pub open spec fn unknown(
    before: Map<Seq<char>, FileV>,
    after: Map<Seq<char>, FileV>,
    id: Seq<char>,
    e: MemoryErrorV,
) -> bool {
    !before.dom().contains(id) && e == missing(id) && after == before
}

/// The error for an id that is not in the store.
pub open spec fn missing(id: Seq<char>) -> MemoryErrorV {
    MemoryErrorV::NotFound("file "@ + id + " not found"@)
}

fn missing_error(id: &str) -> (r: MemoryError)
    ensures
        r@ == missing(id@),
{
    let head = concat("file ", id);
    MemoryError::NotFound(concat(head.as_str(), " not found"))
}

/// All files.
pub struct FileStore {
    by_id: Table<FileEntry>,
}

impl FileStore {
    /// The files by their ids.
    pub closed spec fn files(&self) -> Map<Seq<char>, FileEntry> {
        self.by_id@
    }

    /// The files by their ids, each by its view.
    pub open spec fn view(&self) -> Map<Seq<char>, FileV> {
        self.files().map_values(|f: FileEntry| f@)
    }

    /// Each file stands under its own id.
    pub open spec fn wf(&self) -> bool {
        forall|k: Seq<char>| #[trigger] self@.dom().contains(k) ==> self@[k].id == k
    }

    /// A store without files.
    pub fn new() -> (r: FileStore)
        ensures
            r.wf(),
            r@ == Map::<Seq<char>, FileV>::empty(),
    {
        let r = FileStore { by_id: Table::new() };
        proof {
            assert(r@ =~= Map::<Seq<char>, FileV>::empty());
        }
        r
    }

    /// Takes a stored file in.
    pub fn load(&mut self, entry: FileEntry)
        requires
            old(self).wf(),
        ensures
            final(self).wf(),
            final(self)@ == old(self)@.insert(entry@.id, entry@),
    {
        let ghost before = self@;
        let id = entry.id.clone();
        self.by_id.insert(id, entry);
        proof {
            assert(self@ =~= before.insert(entry@.id, entry@));
        }
    }

    fn take(&mut self, id: &str) -> (r: Result<FileEntry, MemoryError>)
        requires
            old(self).wf(),
        ensures
            final(self).wf(),
            final(self)@ == old(self)@.remove(id@),
            match r {
                Ok(f) => old(self)@.dom().contains(id@) && f@ == old(self)@[id@] && f@.id == id@ && forall|file: FileV|
                    #[trigger] old(self)@.remove(id@).insert(id@, file) == old(self)@.insert(id@, file),
                Err(e) => unknown(old(self)@, final(self)@, id@, e@),
            },
    {
        let ghost before = self@;
        let taken = self.by_id.remove(id);
        proof {
            assert(self@ =~= before.remove(id@));
        }
        match taken {
            Some(f) => {
                proof {
                    assert(before.dom().contains(id@));
                    assert(f@ == before[id@]);
                    assert forall|file: FileV| #[trigger] before.remove(id@).insert(id@, file) == before.insert(
                        id@,
                        file,
                    ) by {
                        assert(before.remove(id@).insert(id@, file) =~= before.insert(id@, file));
                    }
                }
                Ok(f)
            },
            None => {
                proof {
                    assert(before.remove(id@) =~= before);
                }
                Err(missing_error(id))
            },
        }
    }

    /// Keeps bytes at a time. Bytes that are kept already stay as they are, and
    /// nothing is read out of them again.
    pub fn store_with_at<F: FnOnce(&[u8], &str) -> (Option<String>, Option<String>)>(
        &mut self,
        bytes: &[u8],
        original_name: &str,
        mime: &str,
        extractor: F,
        now: u64,
    ) -> (r: FileEntry)
        requires
            old(self).wf(),
            extractor.requires((bytes, mime)),
        ensures
            final(self).wf(),
            ({
                let id = hex_text(sha256(bytes@));
                if old(self)@.dom().contains(id) {
                    r@ == old(self)@[id] && final(self)@ == old(self)@
                } else {
                    &&& exists|texts: (Option<String>, Option<String>)|
                        extractor.ensures((bytes, mime), texts) && r@ == #[trigger] new_file(
                            bytes@,
                            original_name@,
                            mime@,
                            texts,
                            now,
                        )
                    &&& final(self)@ == old(self)@.insert(id, r@)
                }
            }),
    {
        let id = sha256_hex(bytes);
        match self.by_id.get(id.as_str()) {
            Some(f) => {
                proof {
                    assert(self@[id@] == f@);
                }
                return f.copy();
            },
            None => {},
        }
        let ext = match extension(original_name) {
            Some(e) => to_lower(e.as_str()),
            None => to_lower("bin"),
        };
        let texts = extractor(bytes, mime);
        let ghost given = texts;
        let tags: Vec<String> = Vec::new();
        proof {
            assert(views(tags@) =~= Seq::<Seq<char>>::empty());
        }
        let entry = FileEntry {
            id,
            name: original_name.to_owned(),
            mime: mime.to_owned(),
            ext,
            size: bytes.len() as u64,
            uploaded_at: now,
            extracted_text: texts.0,
            ocr_text: texts.1,
            tags,
        };
        proof {
            assert(entry@ == new_file(bytes@, original_name@, mime@, given, now));
        }
        let copy = entry.copy();
        self.load(entry);
        copy
    }

    /// Keeps bytes now.
    pub fn store_with<F: FnOnce(&[u8], &str) -> (Option<String>, Option<String>)>(
        &mut self,
        bytes: &[u8],
        original_name: &str,
        mime: &str,
        extractor: F,
    ) -> (r: FileEntry)
        requires
            old(self).wf(),
            extractor.requires((bytes, mime)),
        ensures
            final(self).wf(),
            ({
                let id = hex_text(sha256(bytes@));
                if old(self)@.dom().contains(id) {
                    r@ == old(self)@[id] && final(self)@ == old(self)@
                } else {
                    &&& exists|texts: (Option<String>, Option<String>)|
                        extractor.ensures((bytes, mime), texts) && r@ == #[trigger] new_file(
                            bytes@,
                            original_name@,
                            mime@,
                            texts,
                            r@.uploaded_at,
                        )
                    &&& final(self)@ == old(self)@.insert(id, r@)
                }
            }),
    {
        let now: u64 = now_unix();
        let r = self.store_with_at(bytes, original_name, mime, extractor, now);
        proof {
            if !old(self)@.dom().contains(hex_text(sha256(bytes@))) {
                let texts = choose|texts: (Option<String>, Option<String>)|
                    extractor.ensures((bytes, mime), texts) && r@ == #[trigger] new_file(
                        bytes@,
                        original_name@,
                        mime@,
                        texts,
                        now,
                    );
                assert(r@ == new_file(bytes@, original_name@, mime@, texts, r@.uploaded_at));
            }
        }
        r
    }

    /// The file with an id.
    pub fn get(&self, id: &str) -> (r: Option<&FileEntry>)
        ensures
            match r {
                Some(f) => self@.dom().contains(id@) && f@ == self@[id@],
                None => !self@.dom().contains(id@),
            },
    {
        self.by_id.get(id)
    }

    /// Where a file lies: its directory and its name there.
    pub fn path_of(&self, id: &str) -> (r: Option<(String, String)>)
        requires
            self.wf(),
            self@.dom().contains(id@) ==> shard_of(id@) is Some,
        ensures
            match r {
                Some(p) => self@.dom().contains(id@) && place_of(self@[id@]) == Some((p.0@, p.1@)),
                None => !self@.dom().contains(id@),
            },
    {
        match self.by_id.get(id) {
            None => None,
            Some(f) => {
                proof {
                    assert(self@.dom().contains(id@));
                    assert(self@[id@] == f@);
                }
                match shard_dir(id) {
                    Some(dir) => {
                        let half = concat(id, ".");
                        Some((dir, concat(half.as_str(), f.ext.as_str())))
                    },
                    None => None,
                }
            },
        }
    }

    /// Where the bytes of a file are read from.
    pub fn read_bytes(&self, id: &str) -> (r: Result<(String, String), MemoryError>)
        requires
            self.wf(),
            self@.dom().contains(id@) ==> shard_of(id@) is Some,
        ensures
            match r {
                Ok(p) => self@.dom().contains(id@) && place_of(self@[id@]) == Some((p.0@, p.1@)),
                Err(e) => !self@.dom().contains(id@) && e@ == missing(id@),
            },
    {
        match self.path_of(id) {
            Some(p) => Ok(p),
            None => Err(missing_error(id)),
        }
    }

    /// All files, newest first.
    pub fn list(&self) -> (r: Vec<&FileEntry>)
        ensures
            sorted(r@),
            lists(r@, self.files()),
    {
        listing(&self.by_id)
    }

    /// The files that mention a text, newest first; all files where the text is
    /// blank.
    pub fn search(&self, query: &str) -> (r: Vec<&FileEntry>)
        requires
            self.wf(),
        ensures
            if trim(query@).len() == 0 {
                sorted(r@) && lists(r@, self.files())
            } else {
                found(r@, self.files(), lowercase(trim(query@)))
            },
    {
        let text = trimmed(query);
        if text.as_str().unicode_len() == 0 {
            return self.list();
        }
        let q = to_lower(text.as_str());
        let all = self.by_id.refs();
        let ghost order = self.by_id.order();
        let ghost m = self.by_id@;
        let mut hits: Vec<&FileEntry> = Vec::new();
        let ghost mut from: Seq<int> = Seq::empty();
        let mut i: usize = 0;
        while i < all.len()
            invariant
                i <= all@.len(),
                all@.len() == order.len(),
                order.no_duplicates(),
                m == self.by_id@,
                m.dom() == order.to_set(),
                forall|k: int| 0 <= k < all@.len() ==> *(#[trigger] all@[k]) == m[order[k]],
                from.len() == hits@.len(),
                forall|k: int|
                    0 <= k < from.len() ==> 0 <= #[trigger] from[k] < i && hits@[k] == all@[from[k]] && mentions(
                        all@[from[k]]@,
                        q@,
                    ),
                forall|a: int, b: int| 0 <= a < b < from.len() ==> #[trigger] from[a] < #[trigger] from[b],
                forall|k: int| 0 <= k < i && mentions((#[trigger] all@[k])@, q@) ==> from.contains(k),
            decreases all@.len() - i,
        {
            let f: &FileEntry = all[i];
            let ghost was = from;
            if f.mentions(q.as_str()) {
                hits.push(f);
                proof {
                    from = from.push(i as int);
                    assert(from[from.len() - 1] == i);
                }
            }
            proof {
                assert forall|k: int| 0 <= k < i + 1 && mentions((#[trigger] all@[k])@, q@) implies from.contains(
                    k,
                ) by {
                    if k < i {
                        assert(was.contains(k));
                        let j = choose|j: int| 0 <= j < was.len() && was[j] == k;
                        assert(from[j] == k);
                    }
                }
            }
            i += 1;
        }
        proof {
            assert forall|a: int, b: int| 0 <= a < hits@.len() && 0 <= b < hits@.len() && a != b implies hits@[a]
                != hits@[b] by {
                let ka = from[a];
                let kb = from[b];
                assert(order[ka] != order[kb]);
                assert(order.to_set().contains(order[ka]) && order.to_set().contains(order[kb]));
                assert(self@.dom().contains(order[ka]) && self@.dom().contains(order[kb]));
                assert(self@[order[ka]].id == order[ka] && self@[order[kb]].id == order[kb]);
            }
        }
        let ghost u = hits@;
        let out = sort(hits);
        proof {
            lemma_permuted(u, out@);
            assert forall|k: int| 0 <= k < out@.len() implies has_value(m, *(#[trigger] out@[k])) && mentions(
                out@[k]@,
                q@,
            ) by {
                assert(out@.contains(out@[k]));
                assert(u.contains(out@[k]));
                let a = choose|a: int| 0 <= a < u.len() && u[a] == out@[k];
                assert(order.to_set().contains(order[from[a]]));
                assert(m.dom().contains(order[from[a]]));
            }
            assert forall|k: Seq<char>| #[trigger] m.dom().contains(k) && mentions(m[k]@, q@) implies exists|x: int|
                0 <= x < out@.len() && *(#[trigger] out@[x]) == m[k] by {
                let p = choose|p: int| 0 <= p < order.len() && order[p] == k;
                assert(mentions(all@[p]@, q@));
                assert(from.contains(p));
                let a = choose|a: int| 0 <= a < from.len() && from[a] == p;
                assert(u.contains(u[a]));
                assert(out@.contains(u[a]));
                let x = choose|x: int| 0 <= x < out@.len() && out@[x] == u[a];
                assert(*out@[x] == m[k]);
            }
            assert forall|a: int, b: int| 0 <= a < b < out@.len() implies (#[trigger] out@[a]).id@ != (
            #[trigger] out@[b]).id@ by {
                assert(out@[a] != out@[b]);
                assert(has_value(m, *out@[a]) && has_value(m, *out@[b]));
                let ka = choose|k: Seq<char>| #[trigger] m.dom().contains(k) && *out@[a] == m[k];
                let kb = choose|k: Seq<char>| #[trigger] m.dom().contains(k) && *out@[b] == m[k];
                assert(self@.dom().contains(ka) && self@.dom().contains(kb));
                assert(self@[ka].id == ka && self@[kb].id == kb);
            }
        }
        out
    }

    /// Gives a file another name to show; its id stays.
    pub fn rename(&mut self, id: &str, new_name: &str) -> (r: Result<FileEntry, MemoryError>)
        requires
            old(self).wf(),
        ensures
            final(self).wf(),
            match r {
                Ok(f) => {
                    &&& trim(new_name@).len() > 0
                    &&& old(self)@.dom().contains(id@)
                    &&& f@ == (FileV { name: trim(new_name@), ..old(self)@[id@] })
                    &&& final(self)@ == old(self)@.insert(id@, f@)
                },
                Err(e) => if trim(new_name@).len() == 0 {
                    e@ == MemoryErrorV::Invalid("name is empty"@) && final(self)@ == old(self)@
                } else {
                    unknown(old(self)@, final(self)@, id@, e@)
                },
            },
    {
        let name = trimmed(new_name);
        if name.as_str().unicode_len() == 0 {
            return Err(MemoryError::Invalid("name is empty".to_owned()));
        }
        let mut f = match self.take(id) {
            Ok(f) => f,
            Err(e) => {
                return Err(e);
            },
        };
        f.name = name;
        let copy = f.copy();
        self.load(f);
        Ok(copy)
    }

    /// Gives a file other tags.
    pub fn set_tags(&mut self, id: &str, tags: Vec<String>) -> (r: Result<FileEntry, MemoryError>)
        requires
            old(self).wf(),
        ensures
            final(self).wf(),
            match r {
                Ok(f) => {
                    &&& old(self)@.dom().contains(id@)
                    &&& f@ == (FileV { tags: views(tags@), ..old(self)@[id@] })
                    &&& final(self)@ == old(self)@.insert(id@, f@)
                },
                Err(e) => unknown(old(self)@, final(self)@, id@, e@),
            },
    {
        let mut f = match self.take(id) {
            Ok(f) => f,
            Err(e) => {
                return Err(e);
            },
        };
        f.tags = tags;
        let copy = f.copy();
        self.load(f);
        Ok(copy)
    }

    /// Removes a file and gives back what was kept about it.
    pub fn remove(&mut self, id: &str) -> (r: Result<FileEntry, MemoryError>)
        requires
            old(self).wf(),
        ensures
            final(self).wf(),
            final(self)@ == old(self)@.remove(id@),
            match r {
                Ok(f) => old(self)@.dom().contains(id@) && f@ == old(self)@[id@],
                Err(e) => unknown(old(self)@, final(self)@, id@, e@),
            },
    {
        self.take(id)
    }

    /// The number of files.
    pub fn len(&self) -> (r: usize)
        ensures
            r == self@.dom().len(),
    {
        let n: usize = self.by_id.len();
        proof {
            assert(self@.dom() =~= self.by_id@.dom());
        }
        n
    }

    /// Whether there is no file.
    pub fn is_empty(&self) -> (r: bool)
        ensures
            r == (self@.dom().len() == 0),
    {
        self.len() == 0
    }
}

// ---------------------------------------------------------------------------
// Laws
// ---------------------------------------------------------------------------

/// Keeping the same bytes twice keeps one file: the second time its id is known
/// and the first name stays.
pub proof fn law_same_bytes_are_one_file(
    files: Map<Seq<char>, FileV>,
    bytes: Seq<u8>,
    name: Seq<char>,
    mime: Seq<char>,
    texts: (Option<String>, Option<String>),
    now: u64,
)
    requires
        files.dom().finite(),
    ensures
        ({
            let id = hex_text(sha256(bytes));
            let after = files.insert(id, new_file(bytes, name, mime, texts, now));
            !files.dom().contains(id) ==> after.dom().contains(id) && after[id].name == name && after.dom().len()
                == files.dom().len() + 1
        }),
{
}

/// The directory of a file that was kept by its digest has two characters and
/// is never missing.
pub proof fn law_digests_have_a_shard(digest: Seq<u8>)
    requires
        digest.len() == 32,
    ensures
        shard_of(hex_text(digest)) == Some(hex_text(digest).take(2)),
{
    let id = hex_text(digest);
    assert(id.len() == 64);
    assert forall|i: int| 0 <= i < id.len() implies crate::text::utf8_width(#[trigger] id[i]) == 1 by {
        let d = if i % 2 == 0 {
            digest[i / 2] as int / 16
        } else {
            digest[i / 2] as int % 16
        };
        assert(0 <= d < 16);
        assert(id[i] == crate::outside::hex_digit(d));
    }
    lemma_narrow(id);
    assert(byte_cut(id, 0, 2) == Some(2int));
    assert(byte_cut(id, 1, 1) == byte_cut(id, 0, 2));
    assert(byte_cut(id, 2, 0) == byte_cut(id, 1, 1));
    assert(id.subrange(0, 2) =~= id.take(2));
}

proof fn lemma_narrow(s: Seq<char>)
    requires
        forall|i: int| 0 <= i < s.len() ==> crate::text::utf8_width(#[trigger] s[i]) == 1,
    ensures
        utf8_bytes(s) == s.len(),
    decreases s.len(),
{
    if s.len() > 0 {
        assert forall|i: int| 0 <= i < s.drop_last().len() implies crate::text::utf8_width(
            #[trigger] s.drop_last()[i],
        ) == 1 by {
            assert(s.drop_last()[i] == s[i]);
        }
        lemma_narrow(s.drop_last());
        assert(s.last() == s[s.len() - 1]);
    }
}

} // verus!
