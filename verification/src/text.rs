//! Text over characters: searching, trimming, splitting, joining and decimal
//! numbers, each stated over the sequence of characters of a string.
use vstd::prelude::*;

use crate::outside::hex_digit;

verus! {

// ---------------------------------------------------------------------------
// Characters and texts of std
// ---------------------------------------------------------------------------

/// Whether a character has the Unicode property White_Space.
pub open spec fn is_space(c: char) -> bool {
    let n = c as u32;
    ||| 0x9 <= n <= 0xD
    ||| n == 0x20
    ||| n == 0x85
    ||| n == 0xA0
    ||| n == 0x1680
    ||| 0x2000 <= n <= 0x200A
    ||| n == 0x2028
    ||| n == 0x2029
    ||| n == 0x202F
    ||| n == 0x205F
    ||| n == 0x3000
}

/// Whether a character has the property White_Space.
pub fn char_is_space(c: char) -> (r: bool)
    ensures
        r == is_space(c),
{
    let n: u32 = c as u32;
    (0x9 <= n && n <= 0xD) || n == 0x20 || n == 0x85 || n == 0xA0 || n == 0x1680 || (0x2000 <= n && n <= 0x200A) || n
        == 0x2028 || n == 0x2029 || n == 0x202F || n == 0x205F || n == 0x3000
}

/// The lowercase form of a text.
pub uninterp spec fn lowercase(s: Seq<char>) -> Seq<char>;

/// `str::to_lowercase` depends on the text alone, and adds nothing to an empty one.
#[verifier::external_body]
pub(crate) fn to_lower(s: &str) -> (r: String)
    ensures
        r@ == lowercase(s@),
        s@.len() == 0 ==> r@.len() == 0,
{
    s.to_lowercase()
}

/// The text of bytes, with U+FFFD for what is not UTF-8.
pub uninterp spec fn lossy(bytes: Seq<u8>) -> Seq<char>;

/// `String::from_utf8_lossy` depends on the bytes alone.
#[verifier::external_body]
pub(crate) fn lossy_text(bytes: &[u8]) -> (r: String)
    ensures
        r@ == lossy(bytes@),
{
    String::from_utf8_lossy(bytes).into_owned()
}

/// `String::push` appends one character.
pub assume_specification[ String::push ](s: &mut String, c: char)
    ensures
        final(s)@ == old(s)@.push(c),
;

// ---------------------------------------------------------------------------
// Conversions
// ---------------------------------------------------------------------------

/// The characters of a text.
pub fn chars_of(s: &str) -> (r: Vec<char>)
    ensures
        r@ == s@,
{
    let mut r: Vec<char> = Vec::new();
    for c in it: s.chars()
        invariant
            it.seq() == s@,
            r@ == s@.take(it.index()),
    {
        proof {
            assert(s@.take(it.index() + 1) =~= s@.take(it.index()).push(s@[it.index()]));
        }
        r.push(c);
    }
    proof {
        assert(s@.take(s@.len() as int) =~= s@);
    }
    r
}

/// The text of the characters from `from` up to `to`.
pub fn text_between(v: &Vec<char>, from: usize, to: usize) -> (r: String)
    requires
        from <= to <= v@.len(),
    ensures
        r@ == v@.subrange(from as int, to as int),
{
    let mut r = String::new();
    let mut i: usize = from;
    while i < to
        invariant
            from <= i <= to <= v@.len(),
            r@ == v@.subrange(from as int, i as int),
        decreases to - i,
    {
        r.push(v[i]);
        i += 1;
        proof {
            assert(v@.subrange(from as int, i as int) =~= v@.subrange(from as int, i - 1).push(v@[i - 1]));
        }
    }
    r
}

/// The text of a sequence of characters.
pub fn text_of(v: &Vec<char>) -> (r: String)
    ensures
        r@ == v@,
{
    proof {
        assert(v@.subrange(0, v@.len() as int) =~= v@);
    }
    text_between(v, 0, v.len())
}

/// The characters from `from` up to `to`.
pub fn chars_between(v: &Vec<char>, from: usize, to: usize) -> (r: Vec<char>)
    requires
        from <= to <= v@.len(),
    ensures
        r@ == v@.subrange(from as int, to as int),
{
    let mut r: Vec<char> = Vec::new();
    let mut i: usize = from;
    while i < to
        invariant
            from <= i <= to <= v@.len(),
            r@ == v@.subrange(from as int, i as int),
        decreases to - i,
    {
        r.push(v[i]);
        i += 1;
        proof {
            assert(v@.subrange(from as int, i as int) =~= v@.subrange(from as int, i - 1).push(v@[i - 1]));
        }
    }
    r
}

/// Two texts, one after the other.
pub fn concat(a: &str, b: &str) -> (r: String)
    ensures
        r@ == a@ + b@,
{
    let mut r = a.to_owned();
    r.append(b);
    r
}

/// Whether two texts are the same.
pub fn same(a: &str, b: &str) -> (r: bool)
    ensures
        r == (a@ == b@),
{
    a.to_owned() == b.to_owned()
}

/// The length of a text in bytes of UTF-8.
pub open spec fn byte_len(s: Seq<char>) -> usize {
    vstd::utf8::encode_utf8(s).len() as usize
}

/// The bytes of a character in UTF-8.
pub open spec fn utf8_width(c: char) -> nat {
    if c as u32 <= 0x7f {
        1
    } else if c as u32 <= 0x7ff {
        2
    } else if c as u32 <= 0xffff {
        3
    } else {
        4
    }
}

/// The bytes of a text in UTF-8.
pub open spec fn utf8_bytes(s: Seq<char>) -> nat
    decreases s.len(),
{
    if s.len() == 0 {
        0
    } else {
        utf8_bytes(s.drop_last()) + utf8_width(s.last())
    }
}

pub proof fn lemma_utf8_bytes_split(s: Seq<char>, k: int)
    requires
        0 <= k <= s.len(),
    ensures
        utf8_bytes(s) == utf8_bytes(s.take(k)) + utf8_bytes(s.skip(k)),
    decreases s.len() - k,
{
    if k < s.len() {
        lemma_utf8_bytes_split(s, k + 1);
        assert(s.take(k + 1).drop_last() =~= s.take(k));
        lemma_utf8_bytes_first(s.skip(k));
        assert(s.skip(k).skip(1) =~= s.skip(k + 1));
    } else {
        assert(s.take(k) =~= s);
        assert(s.skip(k) =~= Seq::<char>::empty());
    }
}

pub proof fn lemma_utf8_bytes_first(s: Seq<char>)
    requires
        s.len() > 0,
    ensures
        utf8_bytes(s) == utf8_width(s[0]) + utf8_bytes(s.skip(1)),
    decreases s.len(),
{
    if s.len() == 1 {
        assert(s.drop_last() =~= Seq::<char>::empty());
        assert(s.skip(1) =~= Seq::<char>::empty());
    } else {
        lemma_utf8_bytes_first(s.drop_last());
        assert(s.drop_last().skip(1) =~= s.skip(1).drop_last());
    }
}

/// The bytes of a character in UTF-8.
pub fn char_width(c: char) -> (r: usize)
    ensures
        r == utf8_width(c),
{
    let n: u32 = c as u32;
    if n <= 0x7f {
        1
    } else if n <= 0x7ff {
        2
    } else if n <= 0xffff {
        3
    } else {
        4
    }
}

// ---------------------------------------------------------------------------
// Searching
// ---------------------------------------------------------------------------

/// `p` stands in `s` at position `i`.
pub open spec fn at(s: Seq<char>, p: Seq<char>, i: int) -> bool {
    0 <= i && i + p.len() <= s.len() && s.subrange(i, i + p.len()) =~= p
}

/// The first position, from `i` on, at which `p` stands in `s`.
pub open spec fn find_from(s: Seq<char>, p: Seq<char>, i: int) -> Option<int>
    decreases s.len() - i,
{
    if i < 0 || i + p.len() > s.len() {
        None
    } else if at(s, p, i) {
        Some(i)
    } else {
        find_from(s, p, i + 1)
    }
}

/// `p` stands somewhere in `s`.
pub open spec fn contains(s: Seq<char>, p: Seq<char>) -> bool {
    exists|i: int| #[trigger] at(s, p, i)
}

pub open spec fn starts_with(s: Seq<char>, p: Seq<char>) -> bool {
    at(s, p, 0)
}

pub open spec fn ends_with(s: Seq<char>, p: Seq<char>) -> bool {
    at(s, p, s.len() - p.len())
}

/// What `find_from` finds is the least position at which the pattern stands.
pub proof fn lemma_find_from(s: Seq<char>, p: Seq<char>, i: int)
    requires
        0 <= i,
    ensures
        match find_from(s, p, i) {
            Some(k) => i <= k && at(s, p, k) && k + p.len() <= s.len() && forall|j: int|
                i <= j < k ==> !#[trigger] at(s, p, j),
            None => forall|j: int| i <= j ==> !#[trigger] at(s, p, j),
        },
    decreases s.len() - i,
{
    if i + p.len() <= s.len() && !at(s, p, i) {
        lemma_find_from(s, p, i + 1);
    }
}

/// Whether `p` stands in `s` at position `i`.
pub fn stands_at(s: &Vec<char>, p: &Vec<char>, i: usize) -> (r: bool)
    ensures
        r == at(s@, p@, i as int),
{
    if p.len() > s.len() || i > s.len() - p.len() {
        return false;
    }
    let n: usize = s.len();
    let mut k: usize = 0;
    while k < p.len()
        invariant
            i + p@.len() <= s@.len(),
            n == s@.len(),
            k <= p@.len(),
            forall|j: int| 0 <= j < k ==> s@[i + j] == p@[j],
        decreases p@.len() - k,
    {
        if s[i + k] != p[k] {
            proof {
                assert(s@.subrange(i as int, i + p@.len())[k as int] == s@[i + k]);
            }
            return false;
        }
        k += 1;
    }
    proof {
        assert(s@.subrange(i as int, i + p@.len()) =~= p@);
    }
    true
}

/// The first position of `p` in `s` from `from` on.
pub fn find_chars(s: &Vec<char>, p: &Vec<char>, from: usize) -> (r: Option<usize>)
    requires
        from <= s@.len(),
    ensures
        match r {
            Some(k) => find_from(s@, p@, from as int) == Some(k as int) && from <= k && k + p@.len() <= s@.len() <= usize::MAX,
            None => find_from(s@, p@, from as int) is None,
        },
{
    if p.len() > s.len() {
        return None;
    }
    let mut i: usize = from;
    while i <= s.len() - p.len()
        invariant
            from <= i <= s@.len(),
            p@.len() <= s@.len(),
            find_from(s@, p@, from as int) == find_from(s@, p@, i as int),
        decreases s@.len() - i,
    {
        if stands_at(s, p, i) {
            return Some(i);
        }
        if i == s.len() {
            return None;
        }
        i += 1;
    }
    None
}

/// Whether `p` stands somewhere in `s`.
pub fn has(s: &str, p: &str) -> (r: bool)
    ensures
        r == contains(s@, p@),
{
    let sc = chars_of(s);
    let pc = chars_of(p);
    proof {
        lemma_find_from(s@, p@, 0);
    }
    find_chars(&sc, &pc, 0).is_some()
}

/// Whether `s` begins with `p`.
pub fn begins(s: &str, p: &str) -> (r: bool)
    ensures
        r == starts_with(s@, p@),
{
    stands_at(&chars_of(s), &chars_of(p), 0)
}

// ---------------------------------------------------------------------------
// Trimming
// ---------------------------------------------------------------------------

/// `s` without its leading whitespace.
pub open spec fn trim_start(s: Seq<char>) -> Seq<char>
    decreases s.len(),
{
    if s.len() > 0 && is_space(s[0]) {
        trim_start(s.subrange(1, s.len() as int))
    } else {
        s
    }
}

/// `s` without its trailing whitespace.
pub open spec fn trim_end(s: Seq<char>) -> Seq<char>
    decreases s.len(),
{
    if s.len() > 0 && is_space(s.last()) {
        trim_end(s.drop_last())
    } else {
        s
    }
}

/// `s` without leading and trailing whitespace.
pub open spec fn trim(s: Seq<char>) -> Seq<char> {
    trim_end(trim_start(s))
}

/// Drops the whitespace at both ends.
pub fn trimmed(s: &str) -> (r: String)
    ensures
        r@ == trim(s@),
{
    let v = chars_of(s);
    proof {
        assert(v@.subrange(0, v@.len() as int) =~= s@);
    }
    trimmed_between(&v, 0, v.len())
}

/// `s` without the run of `c` at its end.
pub open spec fn trim_end_char(s: Seq<char>, c: char) -> Seq<char>
    decreases s.len(),
{
    if s.len() > 0 && s.last() == c {
        trim_end_char(s.drop_last(), c)
    } else {
        s
    }
}

/// Drops the run of `c` at the end.
pub fn trimmed_end_char(s: &str, c: char) -> (r: String)
    ensures
        r@ == trim_end_char(s@, c),
{
    let v = chars_of(s);
    let mut j: usize = v.len();
    proof {
        assert(s@.take(s@.len() as int) =~= s@);
    }
    while j > 0 && v[j - 1] == c
        invariant
            j <= v@.len(),
            v@ == s@,
            trim_end_char(s@, c) == trim_end_char(s@.take(j as int), c),
        decreases j,
    {
        proof {
            assert(s@.take(j as int).drop_last() =~= s@.take(j - 1));
        }
        j -= 1;
    }
    proof {
        assert(s@.take(j as int) =~= s@.subrange(0, j as int));
    }
    text_between(&v, 0, j)
}

/// Drops the whitespace at both ends of the characters from `from` to `to`.
pub fn trimmed_between(v: &Vec<char>, from: usize, to: usize) -> (r: String)
    requires
        from <= to <= v@.len(),
    ensures
        r@ == trim(v@.subrange(from as int, to as int)),
{
    let ghost whole = v@.subrange(from as int, to as int);
    let mut i: usize = from;
    while i < to && char_is_space(v[i])
        invariant
            from <= i <= to <= v@.len(),
            trim_start(v@.subrange(from as int, to as int)) == trim_start(v@.subrange(i as int, to as int)),
        decreases to - i,
    {
        proof {
            let s = v@.subrange(i as int, to as int);
            assert(s.subrange(1, s.len() as int) =~= v@.subrange(i + 1, to as int));
        }
        i += 1;
    }
    proof {
        assert(trim_start(whole) == v@.subrange(i as int, to as int));
    }
    let mut j: usize = to;
    while j > i && char_is_space(v[j - 1])
        invariant
            i <= j <= to <= v@.len(),
            trim_end(v@.subrange(i as int, to as int)) == trim_end(v@.subrange(i as int, j as int)),
        decreases j,
    {
        proof {
            let s = v@.subrange(i as int, j as int);
            assert(s.drop_last() =~= v@.subrange(i as int, j - 1));
            assert(s.last() == v@[j - 1]);
        }
        j -= 1;
    }
    proof {
        let s = v@.subrange(i as int, j as int);
        assert(s.len() > 0 ==> s.last() == v@[j - 1]);
    }
    text_between(v, i, j)
}

/// `s` without the run of `p` at its beginning.
pub open spec fn drop_prefixes(s: Seq<char>, p: Seq<char>) -> Seq<char>
    decreases s.len(),
{
    if p.len() > 0 && starts_with(s, p) {
        drop_prefixes(s.subrange(p.len() as int, s.len() as int), p)
    } else {
        s
    }
}

/// Drops the run of `p` at the beginning of the characters up to `to`.
pub fn without_prefixes(v: &Vec<char>, to: usize, p: &Vec<char>) -> (r: String)
    requires
        to <= v@.len(),
        p@.len() > 0,
    ensures
        r@ == drop_prefixes(v@.subrange(0, to as int), p@),
{
    let s = chars_between(v, 0, to);
    let mut i: usize = 0;
    proof {
        assert(s@.subrange(0, s@.len() as int) =~= s@);
    }
    while stands_at(&s, p, i)
        invariant
            i <= s@.len(),
            p@.len() > 0,
            drop_prefixes(s@, p@) == drop_prefixes(s@.subrange(i as int, s@.len() as int), p@),
        decreases s@.len() - i,
    {
        let n: usize = s.len();
        proof {
            let t = s@.subrange(i as int, n as int);
            assert(t.subrange(0, p@.len() as int) =~= s@.subrange(i as int, i + p@.len()));
            assert(t.subrange(p@.len() as int, t.len() as int) =~= s@.subrange(i + p@.len(), n as int));
        }
        i = i + p.len();
    }
    proof {
        let t = s@.subrange(i as int, s@.len() as int);
        if starts_with(t, p@) {
            assert(s@.subrange(i as int, i + p@.len()) =~= t.subrange(0, p@.len() as int));
            assert(at(s@, p@, i as int));
        }
    }
    text_between(&s, i, s.len())
}

// ---------------------------------------------------------------------------
// Splitting and joining
// ---------------------------------------------------------------------------

/// The position of the first `c` in `s` from `i` on, or the length of `s`.
pub open spec fn next_char(s: Seq<char>, c: char, i: int) -> int
    decreases s.len() - i,
{
    if i < 0 || i >= s.len() {
        s.len() as int
    } else if s[i] == c {
        i
    } else {
        next_char(s, c, i + 1)
    }
}

pub proof fn lemma_next_char(s: Seq<char>, c: char, i: int)
    requires
        0 <= i <= s.len(),
    ensures
        i <= next_char(s, c, i) <= s.len(),
        forall|j: int| i <= j < next_char(s, c, i) ==> s[j] != c,
        next_char(s, c, i) < s.len() ==> s[next_char(s, c, i)] == c,
    decreases s.len() - i,
{
    if i < s.len() && s[i] != c {
        lemma_next_char(s, c, i + 1);
    }
}

/// The position of the first `c` from `from` on, or the end.
pub fn seek_char(v: &Vec<char>, c: char, from: usize) -> (r: usize)
    requires
        from <= v@.len(),
    ensures
        r == next_char(v@, c, from as int),
        from <= r <= v@.len(),
{
    let mut i: usize = from;
    while i < v.len() && v[i] != c
        invariant
            from <= i <= v@.len(),
            next_char(v@, c, from as int) == next_char(v@, c, i as int),
        decreases v@.len() - i,
    {
        i += 1;
    }
    i
}

/// The pieces of `s`, from `i` on, between the occurrences of `c`.
pub open spec fn split_from(s: Seq<char>, c: char, i: int) -> Seq<Seq<char>>
    decreases s.len() - i,
{
    if i < 0 || i > s.len() {
        Seq::empty()
    } else {
        let k = next_char(s, c, i);
        if i <= k && k < s.len() {
            seq![s.subrange(i, k)] + split_from(s, c, k + 1)
        } else {
            seq![s.subrange(i, s.len() as int)]
        }
    }
}

/// The pieces of `s` between the occurrences of `c`: one more than `c` occurs.
pub open spec fn split(s: Seq<char>, c: char) -> Seq<Seq<char>> {
    split_from(s, c, 0)
}

/// The texts as sequences of characters.
pub open spec fn views(v: Seq<String>) -> Seq<Seq<char>> {
    v.map_values(|s: String| s@)
}

/// The pieces of a text between the occurrences of a character.
pub fn split_text(s: &str, c: char) -> (r: Vec<String>)
    ensures
        views(r@) == split(s@, c),
{
    let v = chars_of(s);
    let mut r: Vec<String> = Vec::new();
    let mut i: usize = 0;
    loop
        invariant
            i <= v@.len(),
            v@ == s@,
            views(r@) + split_from(s@, c, i as int) == split(s@, c),
        decreases v@.len() - i,
    {
        let k: usize = seek_char(&v, c, i);
        let piece = text_between(&v, i, k);
        let ghost before = r@;
        r.push(piece);
        proof {
            assert(views(r@) =~= views(before).push(piece@));
            assert(split_from(s@, c, i as int) =~= if k < s@.len() {
                seq![s@.subrange(i as int, k as int)] + split_from(s@, c, k + 1)
            } else {
                seq![s@.subrange(i as int, k as int)]
            });
        }
        if k == v.len() {
            proof {
                assert(views(r@) =~= split(s@, c));
            }
            return r;
        }
        proof {
            assert(views(r@) + split_from(s@, c, k + 1) =~= split(s@, c));
        }
        i = k + 1;
    }
}

/// A line without the carriage return before its line feed.
pub open spec fn chomp_cr(line: Seq<char>) -> Seq<char> {
    if line.len() > 0 && line.last() == '\r' {
        line.drop_last()
    } else {
        line
    }
}

/// The lines of `s` from `i` on: each ends at a line feed, a carriage return
/// before the line feed is dropped, and nothing follows a final line feed.
pub open spec fn lines_from(s: Seq<char>, i: int) -> Seq<Seq<char>>
    decreases s.len() - i,
{
    if i < 0 || i >= s.len() {
        Seq::empty()
    } else {
        let k = next_char(s, '\n', i);
        if i <= k && k < s.len() {
            seq![chomp_cr(s.subrange(i, k))] + lines_from(s, k + 1)
        } else {
            seq![s.subrange(i, s.len() as int)]
        }
    }
}

pub open spec fn lines(s: Seq<char>) -> Seq<Seq<char>> {
    lines_from(s, 0)
}

/// The lines of a text.
pub fn lines_of(s: &str) -> (r: Vec<String>)
    ensures
        views(r@) == lines(s@),
{
    let v = chars_of(s);
    let mut r: Vec<String> = Vec::new();
    let mut i: usize = 0;
    while i < v.len()
        invariant
            i <= v@.len(),
            v@ == s@,
            views(r@) + lines_from(s@, i as int) == lines(s@),
        decreases v@.len() - i,
    {
        let k: usize = seek_char(&v, '\n', i);
        proof {
            lemma_next_char(v@, '\n', i as int);
        }
        let ghost before = r@;
        if k < v.len() {
            let end: usize = if k > i && v[k - 1] == '\r' {
                k - 1
            } else {
                k
            };
            let piece = text_between(&v, i, end);
            proof {
                let line = s@.subrange(i as int, k as int);
                assert(piece@ =~= chomp_cr(line)) by {
                    if k > i {
                        assert(line.last() == v@[k - 1]);
                    }
                }
            }
            r.push(piece);
            proof {
                assert(views(r@) =~= views(before).push(piece@));
                assert(views(before) + lines_from(s@, i as int) =~= views(r@) + lines_from(s@, k + 1));
            }
            i = k + 1;
        } else {
            let piece = text_between(&v, i, k);
            r.push(piece);
            proof {
                assert(views(r@) =~= views(before).push(piece@));
                assert(lines_from(s@, i as int) =~= seq![piece@]);
                assert(lines_from(s@, k as int) =~= Seq::<Seq<char>>::empty());
                assert(views(before) + lines_from(s@, i as int) =~= views(r@) + lines_from(s@, k as int));
            }
            i = k;
        }
    }
    proof {
        assert(lines_from(s@, i as int) =~= Seq::<Seq<char>>::empty());
        assert(views(r@) =~= lines(s@));
    }
    r
}

/// The parts one after another with `sep` between neighbours.
pub open spec fn join(parts: Seq<Seq<char>>, sep: Seq<char>) -> Seq<char>
    decreases parts.len(),
{
    if parts.len() == 0 {
        Seq::empty()
    } else if parts.len() == 1 {
        parts[0]
    } else {
        join(parts.drop_last(), sep) + sep + parts.last()
    }
}

/// Joins the parts with a separator between neighbours.
pub fn join_texts(parts: &Vec<String>, sep: &str) -> (r: String)
    ensures
        r@ == join(views(parts@), sep@),
{
    let mut r = String::new();
    let mut i: usize = 0;
    while i < parts.len()
        invariant
            i <= parts@.len(),
            r@ == join(views(parts@.take(i as int)), sep@),
        decreases parts@.len() - i,
    {
        if i > 0 {
            r.append(sep);
        }
        r.append(parts[i].as_str());
        proof {
            let all = views(parts@.take(i + 1));
            assert(all.drop_last() =~= views(parts@.take(i as int)));
            assert(all.last() == parts@[i as int]@);
            if i == 0 {
                assert(r@ =~= all[0]);
            }
        }
        i += 1;
    }
    proof {
        assert(parts@.take(i as int) =~= parts@);
    }
    r
}

// ---------------------------------------------------------------------------
// Replacing
// ---------------------------------------------------------------------------

/// `s` from `i` on with each occurrence of `p`, from left to right and without
/// overlap, replaced by `by`.
pub open spec fn replace_from(s: Seq<char>, p: Seq<char>, by: Seq<char>, i: int) -> Seq<char>
    decreases s.len() - i,
{
    if i < 0 || i >= s.len() || p.len() == 0 {
        Seq::empty()
    } else if at(s, p, i) {
        by + replace_from(s, p, by, i + p.len())
    } else {
        seq![s[i]] + replace_from(s, p, by, i + 1)
    }
}

/// `s` with each occurrence of the non-empty text `p` replaced by `by`.
pub open spec fn replace(s: Seq<char>, p: Seq<char>, by: Seq<char>) -> Seq<char> {
    replace_from(s, p, by, 0)
}

/// How often `p` occurs in `s` from `i` on, counted without overlap.
pub open spec fn count_from(s: Seq<char>, p: Seq<char>, i: int) -> nat
    decreases s.len() - i,
{
    if i < 0 || i >= s.len() || p.len() == 0 {
        0
    } else if at(s, p, i) {
        1 + count_from(s, p, i + p.len())
    } else {
        count_from(s, p, i + 1)
    }
}

/// Replaces each occurrence of `p`; also says how many there were.
pub fn replaced(s: &str, p: &str, by: &str) -> (r: (String, usize))
    requires
        p@.len() > 0,
    ensures
        r.0@ == replace(s@, p@, by@),
        r.1 == count_from(s@, p@, 0),
{
    let sv = chars_of(s);
    let pv = chars_of(p);
    let mut out = String::new();
    let mut n: usize = 0;
    let mut i: usize = 0;
    while i < sv.len()
        invariant
            i <= sv@.len(),
            sv@ == s@,
            pv@ == p@,
            p@.len() > 0,
            n <= i,
            out@ + replace_from(s@, p@, by@, i as int) == replace(s@, p@, by@),
            n + count_from(s@, p@, i as int) == count_from(s@, p@, 0),
        decreases sv@.len() - i,
    {
        let ghost before = out@;
        if stands_at(&sv, &pv, i) {
            out.append(by);
            proof {
                assert(before + replace_from(s@, p@, by@, i as int) =~= out@ + replace_from(
                    s@,
                    p@,
                    by@,
                    i + p@.len(),
                ));
            }
            n += 1;
            i += pv.len();
        } else {
            out.push(sv[i]);
            proof {
                assert(before + replace_from(s@, p@, by@, i as int) =~= out@ + replace_from(s@, p@, by@, i + 1));
            }
            i += 1;
        }
    }
    proof {
        assert(replace_from(s@, p@, by@, i as int) =~= Seq::<char>::empty());
        assert(out@ =~= replace(s@, p@, by@));
    }
    (out, n)
}

// ---------------------------------------------------------------------------
// Order
// ---------------------------------------------------------------------------

/// `a` comes before `b` in the order of their characters.
pub open spec fn before(a: Seq<char>, b: Seq<char>) -> bool
    decreases a.len(),
{
    if b.len() == 0 {
        false
    } else if a.len() == 0 {
        true
    } else if a[0] == b[0] {
        before(a.subrange(1, a.len() as int), b.subrange(1, b.len() as int))
    } else {
        a[0] < b[0]
    }
}

pub proof fn lemma_before_irreflexive(a: Seq<char>)
    ensures
        !before(a, a),
    decreases a.len(),
{
    if a.len() > 0 {
        lemma_before_irreflexive(a.subrange(1, a.len() as int));
    }
}

pub proof fn lemma_before_total(a: Seq<char>, b: Seq<char>)
    ensures
        before(a, b) || before(b, a) || a == b,
        !(before(a, b) && before(b, a)),
    decreases a.len(),
{
    if a.len() > 0 && b.len() > 0 && a[0] == b[0] {
        let ta = a.subrange(1, a.len() as int);
        let tb = b.subrange(1, b.len() as int);
        lemma_before_total(ta, tb);
        if ta == tb {
            assert(a =~= seq![a[0]] + ta);
            assert(b =~= seq![b[0]] + tb);
        }
    } else if a.len() == 0 && b.len() == 0 {
        assert(a =~= b);
    }
}

pub proof fn lemma_before_transitive(a: Seq<char>, b: Seq<char>, c: Seq<char>)
    requires
        before(a, b),
        before(b, c),
    ensures
        before(a, c),
    decreases a.len(),
{
    if a.len() > 0 && b.len() > 0 && c.len() > 0 && a[0] == b[0] && b[0] == c[0] {
        lemma_before_transitive(
            a.subrange(1, a.len() as int),
            b.subrange(1, b.len() as int),
            c.subrange(1, c.len() as int),
        );
    }
}

/// Whether `a` comes before `b` in the order of their characters.
pub fn is_before(a: &str, b: &str) -> (r: bool)
    ensures
        r == before(a@, b@),
{
    let av = chars_of(a);
    let bv = chars_of(b);
    let mut i: usize = 0;
    proof {
        assert(a@.subrange(0, a@.len() as int) =~= a@);
        assert(b@.subrange(0, b@.len() as int) =~= b@);
    }
    loop
        invariant
            av@ == a@,
            bv@ == b@,
            i <= a@.len(),
            i <= b@.len(),
            before(a@, b@) == before(a@.subrange(i as int, a@.len() as int), b@.subrange(i as int, b@.len() as int)),
        decreases a@.len() - i,
    {
        let ghost ta = a@.subrange(i as int, a@.len() as int);
        let ghost tb = b@.subrange(i as int, b@.len() as int);
        if i == bv.len() {
            return false;
        }
        if i == av.len() {
            return true;
        }
        if av[i] != bv[i] {
            return av[i] < bv[i];
        }
        proof {
            assert(ta.subrange(1, ta.len() as int) =~= a@.subrange(i + 1, a@.len() as int));
            assert(tb.subrange(1, tb.len() as int) =~= b@.subrange(i + 1, b@.len() as int));
        }
        i += 1;
    }
}

// ---------------------------------------------------------------------------
// Decimal numbers
// ---------------------------------------------------------------------------

/// The digit character of a number below ten.
pub open spec fn digit(d: nat) -> char {
    (48 + d) as char
}

/// The decimal digits of a number, without leading zeros.
pub open spec fn decimal(n: nat) -> Seq<char>
    decreases n,
{
    if n < 10 {
        seq![digit(n)]
    } else {
        decimal(n / 10).push(digit(n % 10))
    }
}

pub open spec fn is_digit(c: char) -> bool {
    '0' <= c <= '9'
}

pub open spec fn all_digits(s: Seq<char>) -> bool {
    forall|i: int| 0 <= i < s.len() ==> is_digit(#[trigger] s[i])
}

/// The number that a sequence of digits writes.
pub open spec fn number_of(s: Seq<char>) -> nat
    decreases s.len(),
{
    if s.len() == 0 {
        0
    } else {
        number_of(s.drop_last()) * 10 + (s.last() as nat - 48) as nat
    }
}

/// A number's decimal digits write that number.
pub proof fn lemma_decimal(n: nat)
    ensures
        all_digits(decimal(n)),
        decimal(n).len() > 0,
        number_of(decimal(n)) == n,
    decreases n,
{
    if n < 10 {
        let s = decimal(n);
        assert(s.drop_last() =~= Seq::<char>::empty());
        assert(number_of(s.drop_last()) == 0);
    } else {
        lemma_decimal(n / 10);
        let s = decimal(n);
        assert(s.drop_last() =~= decimal(n / 10));
        assert(s.last() == digit(n % 10));
    }
}

/// Different numbers have different decimal digits.
pub proof fn lemma_decimal_injective(a: nat, b: nat)
    requires
        decimal(a) == decimal(b),
    ensures
        a == b,
{
    lemma_decimal(a);
    lemma_decimal(b);
}

/// The character of a digit.
fn digit_char(d: u8) -> (c: char)
    requires
        d < 10,
    ensures
        c == digit(d as nat),
{
    (48 + d) as char
}

/// Writes a number in decimal digits.
pub fn decimal_text(n: u64) -> (r: String)
    ensures
        r@ == decimal(n as nat),
    decreases n,
{
    let d: u8 = (n % 10) as u8;
    if n < 10 {
        let mut r = String::new();
        r.push(digit_char(d));
        proof {
            assert(r@ =~= seq![digit(n as nat)]);
        }
        r
    } else {
        let mut r = decimal_text(n / 10);
        r.push(digit_char(d));
        r
    }
}

pub proof fn lemma_number_monotone(s: Seq<char>, i: int)
    requires
        0 <= i <= s.len(),
    ensures
        number_of(s.take(i)) <= number_of(s),
    decreases s.len(),
{
    if i < s.len() {
        assert(s.drop_last().take(i) =~= s.take(i));
        lemma_number_monotone(s.drop_last(), i);
    } else {
        assert(s.take(i) =~= s);
    }
}

/// Reads the digits from `from` to `to` as a number, unless one of them is no
/// digit, there are none, or the number exceeds `max`.
pub fn number_between(v: &Vec<char>, from: usize, to: usize, max: u64) -> (r: Option<u64>)
    requires
        from <= to <= v@.len(),
    ensures
        ({
            let s = v@.subrange(from as int, to as int);
            match r {
                Some(n) => s.len() > 0 && all_digits(s) && n == number_of(s) && n <= max,
                None => s.len() == 0 || !all_digits(s) || number_of(s) > max,
            }
        }),
{
    let ghost s = v@.subrange(from as int, to as int);
    if from == to {
        return None;
    }
    let mut n: u64 = 0;
    let mut i: usize = from;
    while i < to
        invariant
            from <= i <= to <= v@.len(),
            s == v@.subrange(from as int, to as int),
            all_digits(s.take(i - from)),
            n == number_of(s.take(i - from)),
            n <= max,
        decreases to - i,
    {
        let c = v[i];
        proof {
            let k = i - from;
            assert(s.take(k + 1).drop_last() =~= s.take(k));
            assert(s.take(k + 1).last() == c);
            assert(s[k] == c);
        }
        if c < '0' || c > '9' {
            proof {
                assert(!is_digit(s[i - from]));
            }
            return None;
        }
        let d: u64 = (c as u64) - 48;
        proof {
            lemma_number_monotone(s, i + 1 - from);
            assert(number_of(s.take(i + 1 - from)) == n * 10 + d);
        }
        if n > max / 10 {
            return None;
        }
        let m: u64 = n * 10;
        if d > max - m {
            return None;
        }
        proof {
            assert forall|j: int| 0 <= j < i + 1 - from implies is_digit(#[trigger] s.take(i + 1 - from)[j]) by {
                if j < i - from {
                    assert(s.take(i - from)[j] == s[j]);
                }
            }
        }
        n = m + d;
        i += 1;
    }
    proof {
        assert(s.take(to - from) =~= s);
    }
    Some(n)
}

/// The digits of a number text: a plus sign before them is dropped.
pub open spec fn unsigned(s: Seq<char>) -> Seq<char> {
    if s.len() > 0 && s[0] == '+' {
        s.subrange(1, s.len() as int)
    } else {
        s
    }
}

/// The number up to `max` that a text writes: digits, with perhaps a plus sign
/// before them.
pub open spec fn parse_number(s: Seq<char>, max: u64) -> Option<u64> {
    let d = unsigned(s);
    if d.len() > 0 && all_digits(d) && number_of(d) <= max {
        Some(number_of(d) as u64)
    } else {
        None
    }
}

/// Reads a number up to `max`.
pub fn read_number(s: &str, max: u64) -> (r: Option<u64>)
    ensures
        r == parse_number(s@, max),
{
    let v = chars_of(s);
    let from: usize = if v.len() > 0 && v[0] == '+' {
        1
    } else {
        0
    };
    proof {
        assert(v@.subrange(from as int, v@.len() as int) =~= unsigned(s@));
    }
    number_between(&v, from, v.len(), max)
}

/// What stands before the first `p`, or all of `s`.
pub open spec fn until(s: Seq<char>, p: Seq<char>) -> Seq<char> {
    match find_from(s, p, 0) {
        Some(k) => s.subrange(0, k),
        None => s,
    }
}

/// What stands behind the first `p`.
pub open spec fn behind(s: Seq<char>, p: Seq<char>) -> Option<Seq<char>> {
    match find_from(s, p, 0) {
        Some(k) => Some(s.subrange(k + p.len(), s.len() as int)),
        None => None,
    }
}

/// The text before the first `p`.
pub fn text_until(s: &str, p: &str) -> (r: String)
    ensures
        r@ == until(s@, p@),
{
    let v = chars_of(s);
    match find_chars(&v, &chars_of(p), 0) {
        Some(k) => text_between(&v, 0, k),
        None => s.to_owned(),
    }
}

/// The text behind the first `p`.
pub fn text_behind(s: &str, p: &str) -> (r: Option<String>)
    ensures
        match r {
            Some(t) => behind(s@, p@) == Some(t@),
            None => behind(s@, p@) is None,
        },
{
    let v = chars_of(s);
    let q = chars_of(p);
    match find_chars(&v, &q, 0) {
        Some(k) => Some(text_between(&v, k + q.len(), v.len())),
        None => None,
    }
}

/// The text behind `p`, where `s` begins with it.
pub open spec fn strip(s: Seq<char>, p: Seq<char>) -> Option<Seq<char>> {
    if starts_with(s, p) {
        Some(s.subrange(p.len() as int, s.len() as int))
    } else {
        None
    }
}

/// Drops `p` from the beginning.
pub fn stripped(s: &str, p: &str) -> (r: Option<String>)
    ensures
        match r {
            Some(t) => strip(s@, p@) == Some(t@),
            None => strip(s@, p@) is None,
        },
{
    let v = chars_of(s);
    let q = chars_of(p);
    if stands_at(&v, &q, 0) {
        Some(text_between(&v, q.len(), v.len()))
    } else {
        None
    }
}

/// The position behind the first `n` bytes, where a character ends there.
pub open spec fn byte_cut(s: Seq<char>, n: int, i: int) -> Option<int>
    decreases s.len() - i,
{
    if n == 0 {
        Some(i)
    } else if n < 0 || i < 0 || i >= s.len() {
        None
    } else {
        byte_cut(s, n - utf8_width(s[i]), i + 1)
    }
}

/// The position behind the first `n` bytes.
pub fn cut_at_byte(v: &Vec<char>, n: usize) -> (r: Option<usize>)
    ensures
        match r {
            Some(k) => k <= v@.len() && byte_cut(v@, n as int, 0) == Some(k as int),
            None => byte_cut(v@, n as int, 0) is None,
        },
{
    let mut left: usize = n;
    let mut i: usize = 0;
    while left > 0
        invariant
            i <= v@.len(),
            byte_cut(v@, n as int, 0) == byte_cut(v@, left as int, i as int),
        decreases v@.len() - i,
    {
        if i == v.len() {
            return None;
        }
        let w: usize = char_width(v[i]);
        if w > left {
            proof {
                assert(byte_cut(v@, left - w, i + 1) is None);
            }
            return None;
        }
        left = left - w;
        i += 1;
    }
    Some(i)
}

/// Whether a text has at least `n` bytes.
pub fn has_bytes(v: &Vec<char>, n: usize) -> (r: bool)
    ensures
        r == (utf8_bytes(v@) >= n),
{
    let mut left: usize = n;
    let mut i: usize = 0;
    proof {
        assert(v@.skip(0) =~= v@);
    }
    while left > 0
        invariant
            i <= v@.len(),
            (utf8_bytes(v@) >= n) == (utf8_bytes(v@.skip(i as int)) >= left),
        decreases v@.len() - i,
    {
        if i == v.len() {
            proof {
                assert(v@.skip(i as int) =~= Seq::<char>::empty());
            }
            return false;
        }
        let w: usize = char_width(v[i]);
        proof {
            lemma_utf8_bytes_first(v@.skip(i as int));
            assert(v@.skip(i as int).skip(1) =~= v@.skip(i + 1));
        }
        if w >= left {
            return true;
        }
        left = left - w;
        i += 1;
    }
    true
}

// ---------------------------------------------------------------------------
// Lists of texts
// ---------------------------------------------------------------------------

/// Adds a text to a list.
pub fn push_text(v: &mut Vec<String>, s: &str)
    ensures
        views(final(v)@) == views(old(v)@).push(s@),
        final(v)@.len() == old(v)@.len() + 1,
{
    let ghost before = v@;
    v.push(s.to_owned());
    proof {
        assert(views(v@) =~= views(before).push(s@));
    }
}

/// Adds texts to a list.
pub fn push_texts(v: &mut Vec<String>, more: &Vec<String>)
    ensures
        views(final(v)@) == views(old(v)@) + views(more@),
{
    let ghost head = views(v@);
    let ghost all = views(more@);
    proof {
        assert(head + all.take(0) =~= head);
    }
    let mut i: usize = 0;
    while i < more.len()
        invariant
            i <= more@.len(),
            all == views(more@),
            views(v@) == head + all.take(i as int),
        decreases more@.len() - i,
    {
        push_text(v, more[i].as_str());
        proof {
            assert(head + all.take(i + 1) =~= (head + all.take(i as int)).push(all[i as int]));
        }
        i += 1;
    }
    proof {
        assert(all.take(all.len() as int) =~= all);
    }
}

/// Whether a text is in a list.
pub fn holds(v: &Vec<String>, s: &str) -> (r: bool)
    ensures
        r == views(v@).contains(s@),
{
    let mut i: usize = 0;
    while i < v.len()
        invariant
            i <= v@.len(),
            forall|k: int| 0 <= k < i ==> (#[trigger] v@[k])@ != s@,
        decreases v@.len() - i,
    {
        if same(v[i].as_str(), s) {
            proof {
                assert(views(v@)[i as int] == s@);
            }
            return true;
        }
        i += 1;
    }
    proof {
        if views(v@).contains(s@) {
            let k = choose|k: int| 0 <= k < views(v@).len() && views(v@)[k] == s@;
            assert(v@[k]@ == s@);
        }
    }
    false
}

/// An integer in decimal, with a sign where it is negative.
pub open spec fn signed(n: int) -> Seq<char> {
    if n < 0 {
        "-"@ + decimal((-n) as nat)
    } else {
        decimal(n as nat)
    }
}

/// Writes an integer in decimal.
pub fn signed_text(n: i32) -> (r: String)
    ensures
        r@ == signed(n as int),
{
    if n < 0 {
        let m: u64 = (-(n as i64)) as u64;
        concat("-", decimal_text(m).as_str())
    } else {
        decimal_text(n as u64)
    }
}

/// A number in lowercase hexadecimal, without leading zeros.
pub open spec fn hex_number(n: nat) -> Seq<char>
    decreases n,
{
    if n < 16 {
        seq![hex_digit(n as int)]
    } else {
        hex_number(n / 16).push(hex_digit((n % 16) as int))
    }
}

/// Writes a number in hexadecimal.
pub fn hex_number_text(n: u128) -> (r: String)
    ensures
        r@ == hex_number(n as nat),
    decreases n,
{
    let d: u8 = (n % 16) as u8;
    let c: char = if d < 10 {
        (48u8 + d) as char
    } else {
        (87u8 + d) as char
    };
    if n < 16 {
        let mut r = "".to_owned();
        proof {
            reveal_strlit("");
        }
        r.push(c);
        proof {
            assert(r@ =~= seq![hex_digit(n as int)]);
        }
        r
    } else {
        let mut r = hex_number_text(n / 16);
        r.push(c);
        r
    }
}

// ---------------------------------------------------------------------------
// Replacing any text
// ---------------------------------------------------------------------------

/// `by` before, between and behind the characters of `s`.
pub open spec fn spread(s: Seq<char>, by: Seq<char>) -> Seq<char>
    decreases s.len(),
{
    if s.len() == 0 {
        by
    } else {
        spread(s.drop_last(), by).push(s.last()) + by
    }
}

/// `s` with each occurrence of `p` replaced; the empty text occurs before,
/// between and behind the characters.
pub open spec fn replace_all(s: Seq<char>, p: Seq<char>, by: Seq<char>) -> Seq<char> {
    if p.len() == 0 {
        spread(s, by)
    } else {
        replace(s, p, by)
    }
}

/// How often `p` occurs in `s`.
pub open spec fn count_all(s: Seq<char>, p: Seq<char>) -> nat {
    if p.len() == 0 {
        s.len() + 1
    } else {
        count_from(s, p, 0)
    }
}

/// Replaces each occurrence; also says how many there were.
pub fn replaced_all(s: &str, p: &str, by: &str) -> (r: (String, usize))
    requires
        s@.len() < usize::MAX,
    ensures
        r.0@ == replace_all(s@, p@, by@),
        r.1 == count_all(s@, p@),
{
    if p.unicode_len() > 0 {
        return replaced(s, p, by);
    }
    let v = chars_of(s);
    let mut out = by.to_owned();
    let mut i: usize = 0;
    proof {
        assert(v@.take(0).len() == 0);
    }
    while i < v.len()
        invariant
            i <= v@.len(),
            out@ == spread(v@.take(i as int), by@),
        decreases v@.len() - i,
    {
        proof {
            assert(v@.take(i + 1).drop_last() =~= v@.take(i as int));
        }
        out.push(v[i]);
        out = concat(out.as_str(), by);
        i += 1;
    }
    proof {
        assert(v@.take(v@.len() as int) =~= v@);
    }
    (out, v.len() + 1)
}

/// Writes a long number in decimal digits.
pub fn long_decimal_text(n: u128) -> (r: String)
    ensures
        r@ == decimal(n as nat),
    decreases n,
{
    if n <= 0xffff_ffff_ffff_ffff {
        decimal_text(n as u64)
    } else {
        let mut r = long_decimal_text(n / 10);
        r.push(digit_char((n % 10) as u8));
        r
    }
}

} // verus!
