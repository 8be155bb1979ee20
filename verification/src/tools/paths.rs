//! Paths as Unix reads them, resolved without looking at the file system.
//!
//! A path is the list of its components: the root, written `/`, where the path
//! is absolute, and then the names. Empty and `.` segments do not count.
use vstd::prelude::*;

use crate::text::{concat, join, join_texts, lemma_next_char, next_char, push_text, same, split, split_from, split_text,
    views};
use crate::tools::error::{ToolError, ToolErrorV};

verus! {

/// The components once a segment has been followed. `..` goes up by one name;
/// at the root, and where nothing is left, it stays.
pub open spec fn follow(comps: Seq<Seq<char>>, segment: Seq<char>) -> Seq<Seq<char>> {
    if segment.len() == 0 || segment == "."@ {
        comps
    } else if segment == ".."@ {
        if comps.len() == 0 || comps.last() == "/"@ {
            comps
        } else {
            comps.drop_last()
        }
    } else {
        comps.push(segment)
    }
}

/// The components once all segments have been followed in order.
pub open spec fn follow_all(comps: Seq<Seq<char>>, segments: Seq<Seq<char>>) -> Seq<Seq<char>>
    decreases segments.len(),
{
    if segments.len() == 0 {
        comps
    } else {
        follow(follow_all(comps, segments.drop_last()), segments.last())
    }
}

pub open spec fn is_absolute(path: Seq<char>) -> bool {
    path.len() > 0 && path[0] == '/'
}

/// Where a path starts: at the root or nowhere.
pub open spec fn start_of(path: Seq<char>) -> Seq<Seq<char>> {
    if is_absolute(path) {
        seq!["/"@]
    } else {
        Seq::empty()
    }
}

/// The components of a path, with `.` and `..` resolved.
pub open spec fn resolved(path: Seq<char>) -> Seq<Seq<char>> {
    follow_all(start_of(path), split(path, '/'))
}

/// The components of a path as seen from a directory.
pub open spec fn resolved_in(root: Seq<char>, path: Seq<char>) -> Seq<Seq<char>> {
    if is_absolute(path) {
        resolved(path)
    } else {
        follow_all(resolved(root), split(path, '/'))
    }
}

/// The text that writes components.
pub open spec fn path_text(comps: Seq<Seq<char>>) -> Seq<char> {
    if comps.len() > 0 && comps[0] == "/"@ {
        "/"@ + join(comps.skip(1), "/"@)
    } else {
        join(comps, "/"@)
    }
}

/// The path stays in the directory.
pub open spec fn inside(root: Seq<char>, path: Seq<char>) -> bool {
    let r = resolved(root);
    let p = resolved_in(root, path);
    r.len() <= p.len() && p.take(r.len() as int) == r
}

/// What is said of a path that leaves the directory.
pub open spec fn escape_text(path: Seq<char>) -> Seq<char> {
    "path '"@ + path
        + "' escapes the session directory; file tools are confined to the project root. Use the bash tool for paths outside it."@
}

/// A path as seen from a directory: an absolute one stays as it is.
pub open spec fn joined(dir: Seq<char>, rel: Seq<char>) -> Seq<char> {
    if dir.len() == 0 || (rel.len() > 0 && rel[0] == '/') {
        rel
    } else if dir.last() == '/' {
        dir + rel
    } else {
        dir + "/"@ + rel
    }
}

/// A path as seen from a directory: an absolute one stays as it is.
pub fn joined_path(dir: &str, rel: &str) -> (r: String)
    ensures
        r@ == joined(dir@, rel@),
{
    let n: usize = dir.unicode_len();
    if n == 0 || (rel.unicode_len() > 0 && rel.get_char(0) == '/') {
        rel.to_owned()
    } else if dir.get_char(n - 1) == '/' {
        concat(dir, rel)
    } else {
        concat(concat(dir, "/").as_str(), rel)
    }
}

// ---------------------------------------------------------------------------
// Laws
// ---------------------------------------------------------------------------

/// Names stand alone: no root behind the first place, no dots.
pub open spec fn clean(comps: Seq<Seq<char>>) -> bool {
    forall|i: int|
        0 <= i < comps.len() ==> (#[trigger] comps[i]).len() > 0 && comps[i] != "."@ && comps[i] != ".."@ && (i > 0
            ==> !comps[i].contains('/'))
}

proof fn lemma_follow_clean(comps: Seq<Seq<char>>, segments: Seq<Seq<char>>)
    requires
        clean(comps),
        forall|i: int| 0 <= i < segments.len() ==> !(#[trigger] segments[i]).contains('/'),
    ensures
        clean(follow_all(comps, segments)),
    decreases segments.len(),
{
    if segments.len() > 0 {
        let rest = segments.drop_last();
        assert forall|i: int| 0 <= i < rest.len() implies !(#[trigger] rest[i]).contains('/') by {
            assert(rest[i] == segments[i]);
        }
        lemma_follow_clean(comps, rest);
        assert(segments.last() == segments[segments.len() - 1]);
    }
}

proof fn lemma_split_holds_no_separator(s: Seq<char>, i: int, k: int)
    requires
        0 <= i <= s.len(),
        0 <= k < split_from(s, '/', i).len(),
    ensures
        !split_from(s, '/', i)[k].contains('/'),
    decreases s.len() - i,
{
    lemma_next_char(s, '/', i);
    let e = next_char(s, '/', i);
    let head = s.subrange(i, e);
    assert(!head.contains('/')) by {
        if head.contains('/') {
            let j = choose|j: int| 0 <= j < head.len() && head[j] == '/';
            assert(s[i + j] == '/');
        }
    }
    if e < s.len() {
        if k > 0 {
            lemma_split_holds_no_separator(s, e + 1, k - 1);
        }
    }
}

/// A resolved path holds no `.` and no `..`, and no name holds a separator.
pub proof fn law_resolved_paths_are_clean(path: Seq<char>)
    ensures
        clean(resolved(path)),
{
    let segments = split(path, '/');
    assert forall|k: int| 0 <= k < segments.len() implies !(#[trigger] segments[k]).contains('/') by {
        lemma_split_holds_no_separator(path, 0, k);
    }
    reveal_strlit("/");
    reveal_strlit(".");
    reveal_strlit("..");
    assert(clean(start_of(path))) by {
        assert("/"@.len() == 1);
        if is_absolute(path) {
            assert(start_of(path)[0] == "/"@);
            assert("/"@[0] != "."@[0]);
        }
    }
    lemma_follow_clean(start_of(path), segments);
}

proof fn lemma_follow_down(comps: Seq<Seq<char>>, segments: Seq<Seq<char>>)
    requires
        forall|i: int| 0 <= i < segments.len() ==> #[trigger] segments[i] != ".."@,
    ensures
        comps.len() <= follow_all(comps, segments).len(),
        follow_all(comps, segments).take(comps.len() as int) == comps,
    decreases segments.len(),
{
    if segments.len() == 0 {
        assert(comps.take(comps.len() as int) =~= comps);
    } else {
        let rest = segments.drop_last();
        assert forall|i: int| 0 <= i < rest.len() implies #[trigger] rest[i] != ".."@ by {
            assert(rest[i] == segments[i]);
        }
        lemma_follow_down(comps, rest);
        assert(segments.last() == segments[segments.len() - 1]);
        let before = follow_all(comps, rest);
        assert(follow(before, segments.last()).take(comps.len() as int) =~= before.take(comps.len() as int));
    }
}

/// A relative path that never goes up stays in every directory.
pub proof fn law_downward_paths_stay(root: Seq<char>, path: Seq<char>)
    requires
        !is_absolute(path),
        forall|i: int| 0 <= i < split(path, '/').len() ==> #[trigger] split(path, '/')[i] != ".."@,
    ensures
        inside(root, path),
{
    lemma_follow_down(resolved(root), split(path, '/'));
}

proof fn lemma_next_is(s: Seq<char>, c: char, i: int, k: int)
    requires
        0 <= i <= k <= s.len(),
        forall|j: int| i <= j < k ==> s[j] != c,
        k < s.len() ==> s[k] == c,
    ensures
        next_char(s, c, i) == k,
    decreases k - i,
{
    if i < k {
        lemma_next_is(s, c, i + 1, k);
    }
}

proof fn lemma_split_append(s: Seq<char>, t: Seq<char>, i: int)
    requires
        0 <= i <= s.len(),
        !t.contains('/'),
    ensures
        split_from(s + seq!['/'] + t, '/', i) == split_from(s, '/', i).push(t),
    decreases s.len() - i,
{
    let w = s + seq!['/'] + t;
    let k = next_char(s, '/', i);
    lemma_next_char(s, '/', i);
    assert forall|j: int| i <= j < k implies w[j] != '/' by {
        assert(w[j] == s[j]);
    }
    if k < s.len() {
        assert(w[k] == s[k]);
        lemma_next_is(w, '/', i, k);
        assert(w.subrange(i, k) =~= s.subrange(i, k));
        lemma_split_append(s, t, k + 1);
        assert(split_from(w, '/', i) =~= split_from(s, '/', i).push(t));
    } else {
        assert(w[s.len() as int] == '/');
        lemma_next_is(w, '/', i, s.len() as int);
        let from = s.len() as int + 1;
        assert forall|j: int| from <= j < w.len() implies w[j] != '/' by {
            assert(w[j] == t[j - from]);
            assert(t.contains(t[j - from]));
        }
        lemma_next_is(w, '/', from, w.len() as int);
        assert(w.subrange(i, s.len() as int) =~= s.subrange(i, s.len() as int));
        assert(w.subrange(from, w.len() as int) =~= t);
        assert(split_from(w, '/', from) =~= seq![t]);
        assert(split_from(w, '/', i) =~= split_from(s, '/', i).push(t));
    }
}

proof fn lemma_split_join(names: Seq<Seq<char>>)
    requires
        names.len() > 0,
        forall|i: int| 0 <= i < names.len() ==> !(#[trigger] names[i]).contains('/'),
    ensures
        split(join(names, "/"@), '/') == names,
    decreases names.len(),
{
    reveal_strlit("/");
    assert("/"@ =~= seq!['/']);
    if names.len() == 1 {
        let s = names[0];
        assert forall|j: int| 0 <= j < s.len() implies s[j] != '/' by {
            assert(s.contains(s[j]));
        }
        lemma_next_is(s, '/', 0, s.len() as int);
        assert(s.subrange(0, s.len() as int) =~= s);
        assert(split(s, '/') =~= names);
    } else {
        let rest = names.drop_last();
        assert forall|i: int| 0 <= i < rest.len() implies !(#[trigger] rest[i]).contains('/') by {
            assert(rest[i] == names[i]);
        }
        lemma_split_join(rest);
        assert(!names[names.len() - 1].contains('/'));
        lemma_split_append(join(rest, "/"@), names.last(), 0);
        assert(rest.push(names.last()) =~= names);
    }
}

proof fn lemma_split_shift(x: Seq<char>, i: int)
    requires
        0 <= i <= x.len(),
    ensures
        split_from(seq!['/'] + x, '/', i + 1) == split_from(x, '/', i),
    decreases x.len() - i,
{
    let w = seq!['/'] + x;
    let k = next_char(x, '/', i);
    lemma_next_char(x, '/', i);
    assert forall|j: int| i + 1 <= j < k + 1 implies w[j] != '/' by {
        assert(w[j] == x[j - 1]);
    }
    if k < x.len() {
        assert(w[k + 1] == x[k]);
        lemma_next_is(w, '/', i + 1, k + 1);
        assert(w.subrange(i + 1, k + 1) =~= x.subrange(i, k));
        lemma_split_shift(x, k + 1);
    } else {
        lemma_next_is(w, '/', i + 1, w.len() as int);
        assert(w.subrange(i + 1, w.len() as int) =~= x.subrange(i, x.len() as int));
    }
}

proof fn lemma_follow_names(comps: Seq<Seq<char>>, names: Seq<Seq<char>>)
    requires
        forall|i: int|
            0 <= i < names.len() ==> (#[trigger] names[i]).len() > 0 && names[i] != "."@ && names[i] != ".."@,
    ensures
        follow_all(comps, names) == comps + names,
    decreases names.len(),
{
    if names.len() == 0 {
        assert(comps + names =~= comps);
    } else {
        let rest = names.drop_last();
        assert forall|i: int| 0 <= i < rest.len() implies (#[trigger] rest[i]).len() > 0 && rest[i] != "."@ && rest[i]
            != ".."@ by {
            assert(rest[i] == names[i]);
        }
        lemma_follow_names(comps, rest);
        assert(names.last() == names[names.len() - 1]);
        assert((comps + rest).push(names.last()) =~= comps + names);
    }
}

proof fn lemma_root_stays(path: Seq<char>, segments: Seq<Seq<char>>)
    requires
        forall|i: int| 0 <= i < segments.len() ==> !(#[trigger] segments[i]).contains('/'),
    ensures
        ({
            let comps = follow_all(start_of(path), segments);
            if is_absolute(path) {
                comps.len() > 0 && comps[0] == "/"@
            } else {
                forall|i: int| 0 <= i < comps.len() ==> !(#[trigger] comps[i]).contains('/')
            }
        }),
    decreases segments.len(),
{
    if segments.len() > 0 {
        let rest = segments.drop_last();
        assert forall|i: int| 0 <= i < rest.len() implies !(#[trigger] rest[i]).contains('/') by {
            assert(rest[i] == segments[i]);
        }
        lemma_root_stays(path, rest);
        assert(segments.last() == segments[segments.len() - 1]);
        let before = follow_all(start_of(path), rest);
        let comps = follow(before, segments.last());
        if is_absolute(path) {
            if before.len() == 1 {
                assert(before.last() == before[0]);
            }
        } else {
            assert forall|i: int| 0 <= i < comps.len() implies !(#[trigger] comps[i]).contains('/') by {
                if i < before.len() {
                    assert(comps[i] == before[i]);
                }
            }
        }
    }
}

/// Resolving a path that is resolved already changes nothing.
pub proof fn law_resolving_is_idempotent(path: Seq<char>)
    ensures
        resolved(path_text(resolved(path))) == resolved(path),
{
    let comps = resolved(path);
    let segments = split(path, '/');
    assert forall|k: int| 0 <= k < segments.len() implies !(#[trigger] segments[k]).contains('/') by {
        lemma_split_holds_no_separator(path, 0, k);
    }
    law_resolved_paths_are_clean(path);
    lemma_root_stays(path, segments);
    reveal_strlit("/");
    assert("/"@ =~= seq!['/']);
    let t = path_text(comps);
    if is_absolute(path) {
        let names = comps.skip(1);
        let x = join(names, "/"@);
        assert forall|i: int| 0 <= i < names.len() implies (#[trigger] names[i]).len() > 0 && names[i] != "."@
            && names[i] != ".."@ && !names[i].contains('/') by {
            assert(names[i] == comps[i + 1]);
        }
        assert(t == seq!['/'] + x);
        assert(t[0] == '/');
        lemma_next_is(t, '/', 0, 0);
        lemma_split_shift(x, 0);
        assert(t.subrange(0, 0) =~= Seq::<char>::empty());
        let head = seq![Seq::<char>::empty()];
        assert(split(t, '/') == head + split(x, '/'));
        if names.len() == 0 {
            assert(x =~= Seq::<char>::empty());
            assert(x.subrange(0, 0) =~= Seq::<char>::empty());
            assert(split(x, '/') =~= seq![Seq::<char>::empty()]);
            let all = split(t, '/');
            assert(all.drop_last() =~= head);
            assert(head.drop_last() =~= Seq::<Seq<char>>::empty());
            assert(follow_all(seq!["/"@], head.drop_last()) == seq!["/"@]);
            assert(follow_all(seq!["/"@], head) == seq!["/"@]);
            assert(follow_all(seq!["/"@], all) == seq!["/"@]);
            assert(comps =~= seq!["/"@]);
        } else {
            lemma_split_join(names);
            lemma_follow_blank(seq!["/"@], names);
            lemma_follow_names(seq!["/"@], names);
            assert(comps =~= seq!["/"@] + names);
        }
    } else if comps.len() == 0 {
        assert(t =~= Seq::<char>::empty());
        let all = split(t, '/');
        assert(t.subrange(0, 0) =~= Seq::<char>::empty());
        assert(all =~= seq![Seq::<char>::empty()]);
        assert(all.drop_last() =~= Seq::<Seq<char>>::empty());
        assert(follow_all(Seq::empty(), all.drop_last()) == Seq::<Seq<char>>::empty());
        assert(resolved(t) =~= comps);
    } else {
        assert(!comps[0].contains('/'));
        assert(seq!['/'].contains('/')) by {
            assert(seq!['/'][0] == '/');
        }
        assert(comps[0] != "/"@);
        lemma_split_join(comps);
        lemma_join_first(comps);
        lemma_follow_names(Seq::empty(), comps);
        assert(t[0] == comps[0][0]);
        assert(comps[0].contains(comps[0][0]));
        assert(!is_absolute(t));
        assert(Seq::<Seq<char>>::empty() + comps =~= comps);
    }
}

proof fn lemma_follow_blank(comps: Seq<Seq<char>>, names: Seq<Seq<char>>)
    ensures
        follow_all(comps, seq![Seq::<char>::empty()] + names) == follow_all(comps, names),
    decreases names.len(),
{
    let head = seq![Seq::<char>::empty()];
    let all = head + names;
    if names.len() == 0 {
        assert(all =~= head);
        assert(head.drop_last() =~= Seq::<Seq<char>>::empty());
        assert(follow_all(comps, head.drop_last()) == comps);
    } else {
        lemma_follow_blank(comps, names.drop_last());
        assert(all.drop_last() =~= head + names.drop_last());
    }
}

proof fn lemma_join_first(names: Seq<Seq<char>>)
    requires
        names.len() > 0,
        names[0].len() > 0,
    ensures
        join(names, "/"@).len() > 0,
        join(names, "/"@)[0] == names[0][0],
    decreases names.len(),
{
    if names.len() > 1 {
        lemma_join_first(names.drop_last());
    }
}

/// A directory whose name only begins like the root's is outside.
pub proof fn law_siblings_are_outside(root: Seq<char>, path: Seq<char>)
    requires
        is_absolute(path),
        resolved(root).len() > 0,
        resolved(path).len() >= resolved(root).len(),
        resolved(path)[resolved(root).len() - 1] != resolved(root).last(),
    ensures
        !inside(root, path),
{
    let r = resolved(root);
    let p = resolved(path);
    if p.take(r.len() as int) == r {
        assert(p.take(r.len() as int)[r.len() - 1] == r.last());
    }
}

// ---------------------------------------------------------------------------
// Resolving
// ---------------------------------------------------------------------------

fn starts_at_root(path: &str) -> (r: bool)
    ensures
        r == is_absolute(path@),
{
    path.unicode_len() > 0 && path.get_char(0) == '/'
}

fn follow_path(comps: Vec<String>, path: &str) -> (r: Vec<String>)
    ensures
        views(r@) == follow_all(views(comps@), split(path@, '/')),
{
    let ghost start = views(comps@);
    let segments = split_text(path, '/');
    let ghost all = split(path@, '/');
    let mut out = comps;
    let mut i: usize = 0;
    proof {
        assert(all.take(0).len() == 0);
    }
    while i < segments.len()
        invariant
            i <= segments@.len(),
            all == views(segments@),
            views(out@) == follow_all(start, all.take(i as int)),
        decreases segments@.len() - i,
    {
        let s = segments[i].as_str();
        let ghost before = out@;
        proof {
            assert(all.take(i + 1).drop_last() =~= all.take(i as int));
            assert(all.take(i + 1).last() == s@);
        }
        if s.unicode_len() == 0 || same(s, ".") {
        } else if same(s, "..") {
            let n: usize = out.len();
            if n > 0 {
                proof {
                    assert(views(before).last() == before[n - 1]@);
                }
                if !same(out[n - 1].as_str(), "/") {
                    let _ = out.pop();
                    proof {
                        assert(views(out@) =~= views(before).drop_last());
                    }
                }
            }
        } else {
            push_text(&mut out, s);
        }
        i += 1;
    }
    proof {
        assert(all.take(all.len() as int) =~= all);
    }
    out
}

fn resolve(path: &str) -> (r: Vec<String>)
    ensures
        views(r@) == resolved(path@),
{
    let mut start: Vec<String> = Vec::new();
    proof {
        assert(views(start@) =~= Seq::<Seq<char>>::empty());
    }
    if starts_at_root(path) {
        push_text(&mut start, "/");
        proof {
            assert(views(start@) =~= seq!["/"@]);
        }
    }
    follow_path(start, path)
}

/// The path with `.` and `..` resolved.
pub fn lexical_normalize(path: &str) -> (r: String)
    ensures
        r@ == path_text(resolved(path@)),
{
    let mut comps = resolve(path);
    let ghost all = views(comps@);
    if comps.len() > 0 {
        proof {
            assert(all[0] == comps@[0]@);
        }
        if same(comps[0].as_str(), "/") {
            let _ = comps.remove(0);
            proof {
                assert(views(comps@) =~= all.skip(1));
            }
            return concat("/", join_texts(&comps, "/").as_str());
        }
    }
    join_texts(&comps, "/")
}

/// Gives a path back that stays in the root, and refuses any other.
pub fn confine<'a>(root: &str, path: &'a str, tool: &str) -> (r: Result<&'a str, ToolError>)
    ensures
        match r {
            Ok(p) => inside(root@, path@) && p@ == path@,
            Err(e) => !inside(root@, path@) && e@ == (ToolErrorV::InvalidArgs {
                tool: tool@,
                reason: escape_text(path@),
            }),
        },
{
    let base = resolve(root);
    let ghost b = views(base@);
    let place = if starts_at_root(path) {
        resolve(path)
    } else {
        follow_path(resolve(root), path)
    };
    let ghost p = views(place@);
    let mut ok = base.len() <= place.len();
    let mut i: usize = 0;
    while ok && i < base.len()
        invariant
            i <= base@.len(),
            b == views(base@),
            p == views(place@),
            ok ==> base@.len() <= place@.len(),
            ok ==> forall|k: int| 0 <= k < i ==> #[trigger] b[k] == p[k],
            !ok ==> !(b.len() <= p.len() && p.take(b.len() as int) == b),
        decreases base@.len() - i,
    {
        proof {
            assert(b[i as int] == base@[i as int]@);
            assert(p[i as int] == place@[i as int]@);
        }
        if !same(base[i].as_str(), place[i].as_str()) {
            ok = false;
            proof {
                if p.take(b.len() as int) == b {
                    assert(p.take(b.len() as int)[i as int] == b[i as int]);
                }
            }
        }
        i += 1;
    }
    if ok {
        proof {
            assert(p.take(b.len() as int) =~= b);
        }
        Ok(path)
    } else {
        let head = concat("path '", path);
        Err(
            ToolError::InvalidArgs {
                tool: tool.to_owned(),
                reason: concat(
                    head.as_str(),
                    "' escapes the session directory; file tools are confined to the project root. Use the bash tool for paths outside it.",
                ),
            },
        )
    }
}

} // verus!
