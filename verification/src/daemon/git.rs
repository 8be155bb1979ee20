//! Reading git's output for the sessions of a daemon.
use vstd::prelude::*;

use crate::daemon::automation_executor::{DaemonError, DaemonErrorV, full_lines, non_empty_lines};
use crate::text::{byte_cut, byte_len, char_is_space, chars_of, contains, cut_at_byte, drop_prefixes, find_chars, find_from, has, has_bytes,
    is_space, lines, lines_of, parse_number, read_number, same, strip, stripped, text_between, text_until, trim, trim_start,
    trimmed, until, utf8_bytes, views, without_prefixes};

verus! {

/// One changed path in the working tree.
#[derive(Debug, PartialEq)]
pub struct GitFile {
    pub path: String,
    /// `added`, `modified`, `deleted`, `renamed` or `untracked`.
    pub state: String,
}

/// The branch and the changed files of a working tree.
#[derive(Debug, PartialEq)]
pub struct GitStatus {
    pub branch: String,
    pub files: Vec<GitFile>,
    pub clean: bool,
}

/// A file before and after. Of a binary or a large file both sides are blank.
#[derive(Debug)]
pub struct GitDiff {
    pub path: String,
    pub old: String,
    pub new: String,
    pub binary: bool,
    pub too_large: bool,
}

/// The most bytes of either side that a diff carries.
pub const DIFF_MAX_BYTES: usize = 524_288;

/// The branches, and the current one.
#[derive(Debug, PartialEq)]
pub struct GitBranches {
    pub current: String,
    pub branches: Vec<String>,
}

/// A worktree on a branch of its own in which a variant agent runs.
#[derive(Debug, PartialEq)]
pub struct Variant {
    pub index: usize,
    pub branch: String,
    pub worktree: String,
}

/// A variant and the status of its worktree.
#[derive(Debug)]
pub struct VariantStatus {
    pub index: usize,
    pub branch: String,
    pub worktree: String,
    pub status: GitStatus,
}

/// A NUL byte stands among the first 8192 bytes.
pub open spec fn is_binary(s: Seq<char>) -> bool {
    let bytes = vstd::utf8::encode_utf8(s);
    exists|i: int| 0 <= i < bytes.len() && i < 8192 && #[trigger] bytes[i] == 0
}

/// Whether a text looks like binary data: git decides the same way.
pub fn looks_binary(s: &str) -> (r: bool)
    ensures
        r == is_binary(s@),
{
    let b = s.as_bytes();
    let mut i: usize = 0;
    while i < b.len() && i < 8192
        invariant
            i <= b@.len(),
            i <= 8192,
            b@ == vstd::utf8::encode_utf8(s@),
            forall|j: int| 0 <= j < i ==> #[trigger] b@[j] != 0,
        decreases b@.len() - i,
    {
        if b[i] == 0 {
            return true;
        }
        i += 1;
    }
    false
}

// ---------------------------------------------------------------------------
// Status
// ---------------------------------------------------------------------------

/// A changed path and its state.
pub struct FileV {
    pub path: Seq<char>,
    pub state: Seq<char>,
}

pub open spec fn file_views(v: Seq<GitFile>) -> Seq<FileV> {
    v.map_values(|f: GitFile| FileV { path: f.path@, state: f.state@ })
}

/// The branch that a header line names: what follows "## ", up to the upstream
/// branch or the counts, without the words for an empty repository.
pub open spec fn branch_name(rest: Seq<char>) -> Seq<char> {
    trim(drop_prefixes(until(until(rest, "..."@), " ["@), "No commits yet on "@))
}

/// The state that the two letters of a line tell.
pub open spec fn state_of(xy: Seq<char>) -> Seq<char> {
    if xy == "??"@ {
        "untracked"@
    } else {
        let t = trim(xy);
        if t.len() > 0 && t[0] == 'A' {
            "added"@
        } else if t.len() > 0 && t[0] == 'D' {
            "deleted"@
        } else if t.len() > 0 && t[0] == 'R' {
            "renamed"@
        } else {
            "modified"@
        }
    }
}

/// The path of a line; of a rename, the new one.
pub open spec fn path_of(state: Seq<char>, rest: Seq<char>) -> Seq<char> {
    if state == "renamed"@ {
        match find_from(rest, " -> "@, 0) {
            Some(k) => rest.subrange(k + 4, rest.len() as int),
            None => rest,
        }
    } else {
        rest
    }
}

/// The line can be read: the letters and the blank behind them are whole
/// characters.
pub open spec fn is_entry(line: Seq<char>) -> bool {
    byte_cut(line, 2, 0) is Some && byte_cut(line, 3, 0) is Some
}

/// The changed path of a line.
pub open spec fn entry(line: Seq<char>) -> FileV {
    let state = state_of(line.subrange(0, byte_cut(line, 2, 0)->0));
    FileV { path: path_of(state, line.subrange(byte_cut(line, 3, 0)->0, line.len() as int)), state }
}

/// The line tells the branch.
pub open spec fn is_header(line: Seq<char>) -> bool {
    strip(line, "## "@) is Some
}

/// The branch that the lines tell: the last header's.
pub open spec fn branch_of(ls: Seq<Seq<char>>) -> Seq<char>
    decreases ls.len(),
{
    if ls.len() == 0 {
        Seq::empty()
    } else {
        match strip(ls.last(), "## "@) {
            Some(rest) => branch_name(rest),
            None => branch_of(ls.drop_last()),
        }
    }
}

/// The changed paths that the lines tell; a line of less than four bytes tells
/// none.
pub open spec fn files_of(ls: Seq<Seq<char>>) -> Seq<FileV>
    decreases ls.len(),
{
    if ls.len() == 0 {
        Seq::empty()
    } else {
        let rest = files_of(ls.drop_last());
        if is_header(ls.last()) || utf8_bytes(ls.last()) < 4 {
            rest
        } else {
            rest.push(entry(ls.last()))
        }
    }
}

/// Every line that tells a path can be read.
pub open spec fn readable(ls: Seq<Seq<char>>) -> bool {
    forall|i: int|
        0 <= i < ls.len() && !is_header(#[trigger] ls[i]) && utf8_bytes(ls[i]) >= 4 ==> is_entry(ls[i])
}

/// Whether the output of `git status` can be read.
pub fn is_readable(stdout: &str) -> (r: bool)
    ensures
        r == readable(lines(stdout@)),
{
    let ls = lines_of(stdout);
    let ghost all = lines(stdout@);
    let mut i: usize = 0;
    proof {
        assert(views(ls@).len() == ls@.len());
    }
    while i < ls.len()
        invariant
            i <= ls@.len(),
            all == views(ls@),
            all == lines(stdout@),
            forall|j: int| 0 <= j < i && !is_header(#[trigger] all[j]) && utf8_bytes(all[j]) >= 4 ==> is_entry(all[j]),
        decreases ls@.len() - i,
    {
        let line = ls[i].as_str();
        proof {
            assert(all[i as int] == line@);
        }
        let v = chars_of(line);
        if stripped(line, "## ").is_none() && has_bytes(&v, 4) {
            if cut_at_byte(&v, 2).is_none() || cut_at_byte(&v, 3).is_none() {
                proof {
                    assert(!is_header(all[i as int]) && utf8_bytes(all[i as int]) >= 4 && !is_entry(all[i as int]));
                }
                return false;
            }
        }
        i += 1;
    }
    true
}

fn read_entry(v: &Vec<char>) -> (r: GitFile)
    requires
        is_entry(v@),
    ensures
        (FileV { path: r.path@, state: r.state@ }) == entry(v@),
{
    let a: usize = cut_at_byte(v, 2).unwrap();
    let b: usize = cut_at_byte(v, 3).unwrap();
    let xy = text_between(v, 0, a);
    let state = if same(xy.as_str(), "??") {
        "untracked"
    } else {
        let t = chars_of(trimmed(xy.as_str()).as_str());
        if t.len() > 0 && t[0] == 'A' {
            "added"
        } else if t.len() > 0 && t[0] == 'D' {
            "deleted"
        } else if t.len() > 0 && t[0] == 'R' {
            "renamed"
        } else {
            "modified"
        }
    };
    let rest = text_between(v, b, v.len());
    let path = if same(state, "renamed") {
        let r = chars_of(rest.as_str());
        proof {
            reveal_strlit(" -> ");
        }
        match find_chars(&r, &chars_of(" -> "), 0) {
            Some(k) => text_between(&r, k + 4, r.len()),
            None => rest,
        }
    } else {
        rest
    };
    GitFile { path, state: state.to_owned() }
}

/// Reads the output of `git status --porcelain=v1 -b --untracked-files=all`.
pub fn parse_status(stdout: &str) -> (r: GitStatus)
    requires
        readable(lines(stdout@)),
    ensures
        r.branch@ == branch_of(lines(stdout@)),
        file_views(r.files@) == files_of(lines(stdout@)),
        r.clean == (r.files@.len() == 0),
{
    let ls = lines_of(stdout);
    let ghost all = lines(stdout@);
    let mut branch = String::new();
    let mut files: Vec<GitFile> = Vec::new();
    let mut i: usize = 0;
    proof {
        assert(views(ls@).len() == ls@.len());
        assert(file_views(files@) =~= Seq::<FileV>::empty());
        reveal_strlit("No commits yet on ");
    }
    while i < ls.len()
        invariant
            i <= ls@.len(),
            all == views(ls@),
            readable(all),
            "No commits yet on "@.len() > 0,
            branch@ == branch_of(all.take(i as int)),
            file_views(files@) == files_of(all.take(i as int)),
        decreases ls@.len() - i,
    {
        let line = ls[i].as_str();
        let ghost before = files@;
        proof {
            assert(all[i as int] == line@);
            assert(all.take(i + 1).drop_last() =~= all.take(i as int));
            assert(all.take(i + 1).last() == line@);
        }
        match stripped(line, "## ") {
            Some(rest) => {
                let b = text_until(text_until(rest.as_str(), "...").as_str(), " [");
                let c = chars_of(b.as_str());
                proof {
                    assert(c@.subrange(0, c@.len() as int) =~= c@);
                }
                let d = without_prefixes(&c, c.len(), &chars_of("No commits yet on "));
                branch = trimmed(d.as_str());
            },
            None => {
                let v = chars_of(line);
                if has_bytes(&v, 4) {
                    let f = read_entry(&v);
                    files.push(f);
                    proof {
                        assert(file_views(files@) =~= file_views(before).push(entry(line@)));
                    }
                }
            },
        }
        i += 1;
    }
    proof {
        assert(all.take(i as int) =~= all);
    }
    let clean = files.len() == 0;
    GitStatus { branch, files, clean }
}

/// Reads the list of branches and the current one.
pub fn parse_branches(current: &str, list: &str) -> (r: GitBranches)
    ensures
        r.current@ == trim(current@),
        views(r.branches@) == full_lines(lines(list@)),
{
    GitBranches { current: trimmed(current), branches: non_empty_lines(list) }
}

// ---------------------------------------------------------------------------
// Diffs
// ---------------------------------------------------------------------------

/// The first word of a text.
pub open spec fn first_word(s: Seq<char>) -> Seq<char> {
    word_of(trim_start(s), 0)
}

/// The characters up to the first whitespace at or behind `i`.
pub open spec fn word_of(s: Seq<char>, i: int) -> Seq<char>
    decreases s.len() - i,
{
    if i < 0 || i >= s.len() {
        s
    } else if is_space(s[i]) {
        s.subrange(0, i)
    } else {
        word_of(s, i + 1)
    }
}

proof fn lemma_trim_start(v: Seq<char>, i: int)
    requires
        0 <= i <= v.len(),
        forall|j: int| 0 <= j < i ==> is_space(#[trigger] v[j]),
        i < v.len() ==> !is_space(v[i]),
    ensures
        trim_start(v) == v.subrange(i, v.len() as int),
    decreases i,
{
    if i > 0 {
        let w = v.subrange(1, v.len() as int);
        assert forall|j: int| 0 <= j < i - 1 implies is_space(#[trigger] w[j]) by {
            assert(w[j] == v[j + 1]);
        }
        lemma_trim_start(w, i - 1);
        assert(w.subrange(i - 1, w.len() as int) =~= v.subrange(i, v.len() as int));
    } else {
        assert(v.subrange(0, v.len() as int) =~= v);
    }
}

/// The first word of a text.
pub fn read_word(s: &str) -> (r: String)
    ensures
        r@ == first_word(s@),
{
    let v = chars_of(s);
    let mut i: usize = 0;
    while i < v.len() && char_is_space(v[i])
        invariant
            i <= v@.len(),
            forall|j: int| 0 <= j < i ==> is_space(#[trigger] v@[j]),
        decreases v@.len() - i,
    {
        i += 1;
    }
    proof {
        lemma_trim_start(v@, i as int);
    }
    let ghost t = v@.subrange(i as int, v@.len() as int);
    let mut k: usize = i;
    while k < v.len() && !char_is_space(v[k])
        invariant
            i <= k <= v@.len(),
            t == v@.subrange(i as int, v@.len() as int),
            word_of(t, 0) == word_of(t, k - i),
        decreases v@.len() - k,
    {
        k += 1;
    }
    proof {
        assert(v@.subrange(i as int, k as int) =~= t.subrange(0, k - i));
        if k == v@.len() {
            assert(t.subrange(0, k - i) =~= t);
        }
    }
    text_between(&v, i, k)
}

/// The size that `wc -c` printed; what it did not print counts 0.
pub open spec fn printed_size(stdout: Option<Seq<char>>) -> usize {
    match stdout {
        Some(s) => match parse_number(first_word(s), usize::MAX as u64) {
            Some(n) => n as usize,
            None => 0,
        },
        None => 0,
    }
}

/// Reads the size that `wc -c` printed, where it succeeded.
pub fn read_size(stdout: Option<&str>) -> (r: usize)
    ensures
        r == printed_size(
            match stdout {
                Some(s) => Some(s@),
                None => None,
            },
        ),
{
    match stdout {
        Some(s) => match read_number(read_word(s).as_str(), usize::MAX as u64) {
            Some(n) => n as usize,
            None => 0,
        },
        None => 0,
    }
}

/// Whether a diff may be asked for: a path with two dots is refused.
pub fn check_diff_path(path: &str) -> (r: Result<(), DaemonError>)
    ensures
        match r {
            Ok(_) => !contains(path@, ".."@),
            Err(e) => contains(path@, ".."@) && e@ == DaemonErrorV::Session("invalid path"@),
        },
{
    if has(path, "..") {
        Err(DaemonError::Session("invalid path".to_owned()))
    } else {
        Ok(())
    }
}

/// One of the sides is larger than a diff carries.
pub open spec fn exceeds(old: Seq<char>, new_size: usize) -> bool {
    byte_len(old) > DIFF_MAX_BYTES || new_size > DIFF_MAX_BYTES
}

/// Whether the file is too large to be read.
pub fn diff_too_large(old: &str, new_size: usize) -> (r: bool)
    ensures
        r == exceeds(old@, new_size),
{
    old.len() > DIFF_MAX_BYTES || new_size > DIFF_MAX_BYTES
}

/// Makes the diff of a file: one that is too large or binary is not shown.
pub fn git_diff(path: &str, old: String, new: String, new_size: usize) -> (r: GitDiff)
    ensures
        r.path@ == path@,
        r.too_large == exceeds(old@, new_size),
        r.binary == (!r.too_large && (is_binary(old@) || is_binary(new@))),
        r.too_large || r.binary ==> r.old@.len() == 0 && r.new@.len() == 0,
        !(r.too_large || r.binary) ==> r.old@ == old@ && r.new@ == new@,
{
    let too_large = diff_too_large(old.as_str(), new_size);
    let binary = !too_large && (looks_binary(old.as_str()) || looks_binary(new.as_str()));
    if too_large || binary {
        GitDiff { path: path.to_owned(), old: String::new(), new: String::new(), binary, too_large }
    } else {
        GitDiff { path: path.to_owned(), old, new, binary, too_large }
    }
}

} // verus!
