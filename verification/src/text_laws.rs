//! What the operations on texts keep and undo.
use vstd::prelude::*;

use crate::outside::{hex_digit, hex_text};
use crate::text::{at, chomp_cr, contains, count_all, count_from, decimal, ends_with, find_from, hex_number, is_space,
    join, lemma_decimal, lemma_find_from, lemma_next_char, lines, lines_from, next_char, number_of, parse_number,
    replace, replace_all, replace_from, signed, split, split_from, spread, starts_with, strip, trim, trim_end,
    trim_start, unsigned, until, behind, all_digits, is_digit};

verus! {

// ---------------------------------------------------------------------------
// Whitespace
// ---------------------------------------------------------------------------

/// Spaces, tabs and the ends of lines are whitespace; letters, digits and
/// punctuation are not.
pub proof fn law_whitespace_is_blank(c: char)
    ensures
        c == ' ' || c == '\t' || c == '\n' || c == '\r' ==> is_space(c),
        '!' <= c <= '~' ==> !is_space(c),
{
}

proof fn lemma_trim_start(s: Seq<char>) -> (k: int)
    ensures
        0 <= k <= s.len(),
        trim_start(s) == s.skip(k),
        forall|j: int| 0 <= j < k ==> is_space(#[trigger] s[j]),
        k < s.len() ==> !is_space(s[k]),
    decreases s.len(),
{
    if s.len() > 0 && is_space(s[0]) {
        let t = s.subrange(1, s.len() as int);
        let k = lemma_trim_start(t);
        assert(t.skip(k) =~= s.skip(k + 1));
        assert forall|j: int| 0 <= j < k + 1 implies is_space(#[trigger] s[j]) by {
            if j > 0 {
                assert(s[j] == t[j - 1]);
            }
        }
        if k + 1 < s.len() {
            assert(s[k + 1] == t[k]);
        }
        k + 1
    } else {
        assert(s.skip(0) =~= s);
        0
    }
}

proof fn lemma_trim_end(s: Seq<char>) -> (k: int)
    ensures
        0 <= k <= s.len(),
        trim_end(s) == s.take(k),
        forall|j: int| k <= j < s.len() ==> is_space(#[trigger] s[j]),
        k > 0 ==> !is_space(s[k - 1]),
    decreases s.len(),
{
    if s.len() > 0 && is_space(s.last()) {
        let t = s.drop_last();
        let k = lemma_trim_end(t);
        assert(t.take(k) =~= s.take(k));
        assert forall|j: int| k <= j < s.len() implies is_space(#[trigger] s[j]) by {
            if j < t.len() {
                assert(s[j] == t[j]);
            }
        }
        if k > 0 {
            assert(s[k - 1] == t[k - 1]);
        }
        k
    } else {
        assert(s.take(s.len() as int) =~= s);
        s.len() as int
    }
}

/// A trimmed text is the text between its first and its last character that is
/// no whitespace: what is dropped is whitespace, and what is left neither begins
/// nor ends with any.
pub proof fn law_trimming_drops_whitespace_only(s: Seq<char>)
    ensures
        exists|a: int, b: int|
            #![trigger s.subrange(a, b)]
            {
                &&& 0 <= a <= b <= s.len()
                &&& trim(s) == s.subrange(a, b)
                &&& forall|j: int| 0 <= j < s.len() && !(a <= j < b) ==> is_space(#[trigger] s[j])
            },
        trim(s).len() > 0 ==> !is_space(trim(s)[0]) && !is_space(trim(s).last()),
        trim(trim(s)) == trim(s),
{
    let a = lemma_trim_start(s);
    let t = s.skip(a);
    let n = lemma_trim_end(t);
    assert(trim(s) =~= s.subrange(a, a + n));
    assert forall|j: int| 0 <= j < s.len() && !(a <= j < a + n) implies is_space(#[trigger] s[j]) by {
        if j >= a {
            assert(s[j] == t[j - a]);
        }
    }
    let r = trim(s);
    if r.len() > 0 {
        assert(r[0] == s[a]);
        assert(r.last() == t[n - 1]);
    }
    let a2 = lemma_trim_start(r);
    let t2 = r.skip(a2);
    let n2 = lemma_trim_end(t2);
    if r.len() > 0 {
        if a2 > 0 {
            assert(is_space(r[0]));
        }
        assert(t2 =~= r);
        if n2 < t2.len() {
            assert(is_space(t2[t2.len() - 1]));
        }
        assert(t2.take(n2) =~= r);
    }
    assert(trim(r) =~= r);
}

/// A text between whitespace is what trimming leaves.
pub proof fn law_trimming_leaves_the_text(before: Seq<char>, s: Seq<char>, after: Seq<char>)
    requires
        s.len() > 0,
        !is_space(s[0]),
        !is_space(s.last()),
        forall|j: int| 0 <= j < before.len() ==> is_space(#[trigger] before[j]),
        forall|j: int| 0 <= j < after.len() ==> is_space(#[trigger] after[j]),
    ensures
        trim(before + s + after) == s,
{
    let w = before + s + after;
    let a = lemma_trim_start(w);
    assert(w[before.len() as int] == s[0]);
    if a < before.len() {
        assert(w[a] == before[a]);
    }
    if a > before.len() {
        assert(is_space(w[before.len() as int]));
    }
    assert(a == before.len());
    let t = w.skip(a);
    assert(t =~= s + after);
    let n = lemma_trim_end(t);
    assert(t[s.len() - 1] == s.last());
    if n < s.len() {
        assert(is_space(t[s.len() - 1]));
    }
    if n > s.len() {
        assert(t[n - 1] == after[n - 1 - s.len()]);
    }
    assert(t.take(n) =~= s);
}

// ---------------------------------------------------------------------------
// Pieces
// ---------------------------------------------------------------------------

proof fn lemma_join_front(x: Seq<char>, rest: Seq<Seq<char>>, sep: Seq<char>)
    requires
        rest.len() > 0,
    ensures
        join(seq![x] + rest, sep) == x + sep + join(rest, sep),
    decreases rest.len(),
{
    let all = seq![x] + rest;
    assert(all.drop_last() =~= seq![x] + rest.drop_last());
    assert(all.last() == rest.last());
    if rest.len() == 1 {
        assert(all.drop_last() =~= seq![x]);
        assert(join(all.drop_last(), sep) == x);
        assert(join(all, sep) =~= x + sep + rest[0]);
    } else {
        lemma_join_front(x, rest.drop_last(), sep);
        assert(join(all, sep) =~= x + sep + join(rest, sep));
    }
}

proof fn lemma_join_one(x: Seq<char>, sep: Seq<char>)
    ensures
        join(seq![x], sep) == x,
{
}

/// The character stands nowhere in the text.
pub open spec fn free_of(s: Seq<char>, c: char) -> bool {
    forall|j: int| 0 <= j < s.len() ==> #[trigger] s[j] != c
}

proof fn lemma_split_from(s: Seq<char>, c: char, i: int)
    requires
        0 <= i <= s.len(),
    ensures
        split_from(s, c, i).len() > 0,
        join(split_from(s, c, i), seq![c]) == s.skip(i),
        forall|k: int| 0 <= k < split_from(s, c, i).len() ==> free_of(#[trigger] split_from(s, c, i)[k], c),
    decreases s.len() - i,
{
    let k = next_char(s, c, i);
    lemma_next_char(s, c, i);
    let all = split_from(s, c, i);
    if k < s.len() {
        lemma_split_from(s, c, k + 1);
        let rest = split_from(s, c, k + 1);
        lemma_join_front(s.subrange(i, k), rest, seq![c]);
        assert(s.subrange(i, k) + seq![c] + s.skip(k + 1) =~= s.skip(i));
        assert forall|m: int| 0 <= m < all.len() implies free_of(#[trigger] all[m], c) by {
            if m > 0 {
                assert(all[m] == rest[m - 1]);
            }
        }
    } else {
        assert(s.subrange(i, s.len() as int) =~= s.skip(i));
        lemma_join_one(s.skip(i), seq![c]);
    }
}

/// The pieces of a split text hold the character nowhere, and put together with
/// the character between neighbours they are the text.
pub proof fn law_splitting_is_undone_by_joining(s: Seq<char>, c: char)
    ensures
        split(s, c).len() > 0,
        join(split(s, c), seq![c]) == s,
        forall|k: int| 0 <= k < split(s, c).len() ==> free_of(#[trigger] split(s, c)[k], c),
{
    lemma_split_from(s, c, 0);
    assert(s.skip(0) =~= s);
}

proof fn lemma_lines_from(s: Seq<char>, i: int)
    requires
        0 <= i <= s.len(),
    ensures
        ({
            let raw = split_from(s, '\n', i);
            let ls = lines_from(s, i);
            let n = raw.len();
            &&& n > 0
            &&& ls.len() == if raw[n - 1].len() == 0 {
                n - 1
            } else {
                n as int
            }
            &&& forall|k: int|
                0 <= k < ls.len() ==> #[trigger] ls[k] == if k < n - 1 {
                    chomp_cr(raw[k])
                } else {
                    raw[k]
                }
        }),
    decreases s.len() - i,
{
    let k = next_char(s, '\n', i);
    lemma_next_char(s, '\n', i);
    if k < s.len() {
        lemma_lines_from(s, k + 1);
        let raw = split_from(s, '\n', i);
        let ls = lines_from(s, i);
        let rest = split_from(s, '\n', k + 1);
        let more = lines_from(s, k + 1);
        assert(raw =~= seq![s.subrange(i, k)] + rest);
        assert(ls =~= seq![chomp_cr(s.subrange(i, k))] + more);
        assert(raw[raw.len() - 1] == rest[rest.len() - 1]);
        assert forall|m: int| 0 <= m < ls.len() implies #[trigger] ls[m] == if m < raw.len() - 1 {
            chomp_cr(raw[m])
        } else {
            raw[m]
        } by {
            if m > 0 {
                assert(ls[m] == more[m - 1]);
                assert(raw[m] == rest[m - 1]);
            }
        }
    }
}

/// The lines of a text are its pieces between line feeds, but for an empty one
/// at the end; each that ends at a line feed has lost the carriage return
/// before it, if there was one, and nothing else.
pub proof fn law_lines_are_the_pieces_between_line_feeds(s: Seq<char>, k: int)
    requires
        0 <= k < lines(s).len(),
    ensures
        ({
            let pieces = split(s, '\n');
            let line = lines(s)[k];
            &&& join(pieces, seq!['\n']) == s
            &&& lines(s).len() == pieces.len() || (lines(s).len() + 1 == pieces.len() && pieces.last().len() == 0)
            &&& line == pieces[k] || (k + 1 < pieces.len() && line.push('\r') == pieces[k])
            &&& free_of(line, '\n')
            &&& k + 1 < pieces.len() && pieces[k].len() > 0 && pieces[k].last() == '\r' ==> line.push('\r') == pieces[k]
        }),
{
    lemma_lines_from(s, 0);
    law_splitting_is_undone_by_joining(s, '\n');
    let pieces = split(s, '\n');
    let line = lines(s)[k];
    assert(free_of(pieces[k], '\n'));
    if line != pieces[k] {
        assert(line.push('\r') =~= pieces[k]);
    }
    assert forall|j: int| 0 <= j < line.len() implies #[trigger] line[j] != '\n' by {
        assert(line[j] == pieces[k][j]);
    }
}

// ---------------------------------------------------------------------------
// Replacing
// ---------------------------------------------------------------------------

/// The text `p` stands behind each piece but the last for the first time, and
/// nowhere in the last.
pub open spec fn leftmost(pieces: Seq<Seq<char>>, p: Seq<char>) -> bool {
    &&& pieces.len() > 0
    &&& !contains(pieces.last(), p)
    &&& forall|k: int, j: int|
        0 <= k < pieces.len() - 1 && 0 <= j < pieces[k].len() ==> !#[trigger] at(pieces[k] + p, p, j)
}

proof fn lemma_at_within(s: Seq<char>, p: Seq<char>, a: int, b: int, j: int)
    requires
        0 <= a <= b <= s.len(),
        at(s.subrange(a, b), p, j),
    ensures
        at(s, p, a + j),
{
    assert(s.subrange(a, b).subrange(j, j + p.len()) =~= s.subrange(a + j, a + j + p.len()));
}

proof fn lemma_last_piece(s: Seq<char>, p: Seq<char>, a: int)
    requires
        0 <= a <= s.len(),
        p.len() > 0,
        forall|j: int| a <= j < s.len() ==> !#[trigger] at(s, p, j),
    ensures
        leftmost(seq![s.skip(a)], p),
{
    let piece = s.skip(a);
    if contains(piece, p) {
        let j = choose|j: int| #[trigger] at(piece, p, j);
        assert(piece =~= s.subrange(a, s.len() as int));
        lemma_at_within(s, p, a, s.len() as int, j);
    }
}

proof fn lemma_not_earlier(s: Seq<char>, p: Seq<char>, a: int, i: int, j: int)
    requires
        0 <= a <= i,
        at(s, p, i),
        0 <= j < i - a,
        !at(s, p, a + j),
    ensures
        !at(s.subrange(a, i) + p, p, j),
{
    let b = i + p.len();
    assert(s.subrange(a, i) + p =~= s.subrange(a, b)) by {
        assert(s.subrange(i, b) =~= p);
        assert(s.subrange(a, i) + s.subrange(i, b) =~= s.subrange(a, b));
    }
    if at(s.subrange(a, b), p, j) {
        lemma_at_within(s, p, a, b, j);
    }
}

proof fn lemma_first_piece(s: Seq<char>, p: Seq<char>, a: int, i: int, rest: Seq<Seq<char>>)
    requires
        0 <= a <= i,
        at(s, p, i),
        forall|j: int| a <= j < i ==> !#[trigger] at(s, p, j),
        leftmost(rest, p),
    ensures
        leftmost(seq![s.subrange(a, i)] + rest, p),
{
    let piece = s.subrange(a, i);
    let pieces = seq![piece] + rest;
    assert(i <= s.len());
    assert(pieces.last() == rest.last());
    assert forall|k: int, j: int|
        0 <= k < pieces.len() - 1 && 0 <= j < pieces[k].len() implies !#[trigger] at(pieces[k] + p, p, j) by {
        if k > 0 {
            assert(pieces[k] == rest[k - 1]);
            assert(!at(rest[k - 1] + p, p, j));
        } else {
            assert(pieces[k] == piece);
            assert(!at(s, p, a + j));
            lemma_not_earlier(s, p, a, i, j);
        }
    }
}

proof fn lemma_replace_from(s: Seq<char>, p: Seq<char>, by: Seq<char>, a: int, i: int) -> (pieces: Seq<Seq<char>>)
    requires
        p.len() > 0,
        0 <= a <= i <= s.len(),
        forall|j: int| a <= j < i ==> !#[trigger] at(s, p, j),
    ensures
        leftmost(pieces, p),
        join(pieces, p) == s.skip(a),
        join(pieces, by) == s.subrange(a, i) + replace_from(s, p, by, i),
        pieces.len() == count_from(s, p, i) + 1,
    decreases s.len() - i,
{
    if i >= s.len() {
        let piece = s.skip(a);
        lemma_last_piece(s, p, a);
        lemma_join_one(piece, p);
        lemma_join_one(piece, by);
        assert(piece =~= s.subrange(a, i) + replace_from(s, p, by, i));
        seq![piece]
    } else if at(s, p, i) {
        let piece = s.subrange(a, i);
        let b = i + p.len();
        let rest = lemma_replace_from(s, p, by, b, b);
        lemma_first_piece(s, p, a, i, rest);
        lemma_join_front(piece, rest, p);
        lemma_join_front(piece, rest, by);
        assert(piece + p + s.skip(b) =~= s.skip(a)) by {
            assert(s.subrange(i, b) =~= p);
            assert(piece + s.subrange(i, b) + s.skip(b) =~= s.skip(a));
        }
        assert(s.subrange(b, b) + replace_from(s, p, by, b) =~= replace_from(s, p, by, b));
        assert(piece + by + replace_from(s, p, by, b) =~= piece + (by + replace_from(s, p, by, b)));
        seq![piece] + rest
    } else {
        let pieces = lemma_replace_from(s, p, by, a, i + 1);
        let tail = replace_from(s, p, by, i + 1);
        assert(s.subrange(a, i + 1) + tail =~= s.subrange(a, i) + (seq![s[i]] + tail));
        pieces
    }
}

/// Replacing cuts the text at the occurrences of `p`, found from the left
/// without overlap, and puts `by` in their place: the pieces between them
/// are kept, and there is one more of them than occurrences.
pub proof fn law_replacing_keeps_the_rest(s: Seq<char>, p: Seq<char>, by: Seq<char>) -> (pieces: Seq<Seq<char>>)
    ensures
        pieces.len() == count_all(s, p) + 1,
        join(pieces, p) == s,
        join(pieces, by) == replace_all(s, p, by),
        p.len() > 0 ==> leftmost(pieces, p),
        p.len() > 0 ==> replace(s, p, by) == replace_all(s, p, by),
        p.len() == 0 ==> pieces[0].len() == 0 && pieces.last().len() == 0 && forall|k: int|
            0 < k <= s.len() ==> #[trigger] pieces[k] == seq![s[k - 1]],
{
    if p.len() > 0 {
        let pieces = lemma_replace_from(s, p, by, 0, 0);
        assert(s.skip(0) =~= s);
        assert(s.subrange(0, 0) + replace(s, p, by) =~= replace(s, p, by));
        pieces
    } else {
        let head = lemma_spread(s, p, by);
        let pieces = head.push(Seq::empty());
        assert(pieces.drop_last() =~= head);
        assert(join(pieces, p) =~= s);
        assert(join(pieces, by) =~= spread(s, by));
        pieces
    }
}

proof fn lemma_spread(s: Seq<char>, p: Seq<char>, by: Seq<char>) -> (head: Seq<Seq<char>>)
    requires
        p.len() == 0,
    ensures
        head.len() == s.len() + 1,
        head[0].len() == 0,
        forall|k: int| 0 < k <= s.len() ==> #[trigger] head[k] == seq![s[k - 1]],
        join(head, p) == s,
        join(head, by) + by == spread(s, by),
    decreases s.len(),
{
    if s.len() == 0 {
        let head = seq![Seq::<char>::empty()];
        lemma_join_one(head[0], p);
        lemma_join_one(head[0], by);
        assert(join(head, p) =~= s);
        assert(join(head, by) + by =~= by);
        head
    } else {
        let less = lemma_spread(s.drop_last(), p, by);
        let head = less.push(seq![s.last()]);
        assert(head.drop_last() =~= less);
        assert(join(head, p) =~= s);
        assert(join(head, by) =~= join(less, by) + by + seq![s.last()]);
        assert(join(head, by) + by =~= spread(s.drop_last(), by).push(s.last()) + by);
        assert forall|k: int| 0 < k <= s.len() implies #[trigger] head[k] == seq![s[k - 1]] by {
            if k < s.len() {
                assert(head[k] == less[k]);
            }
        }
        head
    }
}

// ---------------------------------------------------------------------------
// Finding
// ---------------------------------------------------------------------------

/// What stands before and behind the first occurrence of a text, with the text
/// between them, is the whole; without an occurrence there is nothing behind
/// and everything before.
pub proof fn law_cutting_at_a_text(s: Seq<char>, p: Seq<char>)
    ensures
        behind(s, p) is Some <==> contains(s, p),
        behind(s, p) matches Some(t) ==> until(s, p) + p + t == s,
        behind(s, p) is Some ==> forall|j: int| 0 <= j < until(s, p).len() ==> !#[trigger] at(s, p, j),
        behind(s, p) is None ==> until(s, p) == s,
{
    lemma_find_from(s, p, 0);
    if contains(s, p) {
        let i = choose|i: int| #[trigger] at(s, p, i);
        assert(find_from(s, p, 0) is Some);
    }
    if let Some(k) = find_from(s, p, 0) {
        assert(s.subrange(k, k + p.len()) =~= p);
        assert(s.subrange(0, k) + p + s.subrange(k + p.len(), s.len() as int) =~= s);
    }
}

/// A text begins, ends and holds what it is put together from.
pub proof fn law_parts_are_found(a: Seq<char>, p: Seq<char>, b: Seq<char>)
    ensures
        starts_with(p + b, p),
        ends_with(a + p, p),
        contains(a + p + b, p),
        strip(p + b, p) == Some(b),
        !starts_with(b, p) ==> strip(b, p) is None,
{
    assert((p + b).subrange(0, p.len() as int) =~= p);
    assert((a + p).subrange(a.len() as int, (a + p).len() as int) =~= p);
    assert((a + p + b).subrange(a.len() as int, (a.len() + p.len()) as int) =~= p);
    assert(at(a + p + b, p, a.len() as int));
    assert((p + b).subrange(p.len() as int, (p + b).len() as int) =~= b);
}

// ---------------------------------------------------------------------------
// Numbers
// ---------------------------------------------------------------------------

/// The value of a digit in the sixteen-digit system.
pub open spec fn hex_value(c: char) -> int {
    if '0' <= c <= '9' {
        c as int - '0' as int
    } else if 'a' <= c <= 'f' {
        c as int - 'a' as int + 10
    } else {
        -1
    }
}

/// The number that hexadecimal digits write.
pub open spec fn hex_read(s: Seq<char>) -> int
    decreases s.len(),
{
    if s.len() == 0 {
        0
    } else {
        hex_read(s.drop_last()) * 16 + hex_value(s.last())
    }
}

/// A number written in decimal digits reads as the number, and has no leading
/// zero.
pub proof fn law_written_numbers_are_read_back(n: u64, max: u64)
    ensures
        n <= max ==> parse_number(decimal(n as nat), max) == Some(n),
        n > max ==> parse_number(decimal(n as nat), max) is None,
        decimal(n as nat).len() > 1 ==> decimal(n as nat)[0] != '0',
{
    lemma_decimal(n as nat);
    lemma_leading(n as nat);
    let d = decimal(n as nat);
    assert(is_digit(d[0]));
    assert(unsigned(d) == d);
}

proof fn lemma_leading(n: nat)
    ensures
        decimal(n).len() > 0,
        n > 0 ==> decimal(n)[0] != '0',
        n == 0 ==> decimal(n).len() == 1,
    decreases n,
{
    if n >= 10 {
        lemma_leading(n / 10);
        assert(decimal(n)[0] == decimal(n / 10)[0]);
    }
}

/// An integer below zero is written with a minus sign before its size.
pub proof fn law_signs_are_written(n: int)
    ensures
        n >= 0 ==> all_digits(signed(n)) && number_of(signed(n)) == n,
        n < 0 ==> signed(n).len() > 0 && signed(n)[0] == '-' && all_digits(signed(n).skip(1)) && number_of(
            signed(n).skip(1),
        ) == -n,
{
    reveal_strlit("-");
    if n >= 0 {
        lemma_decimal(n as nat);
    } else {
        lemma_decimal((-n) as nat);
        assert(signed(n).skip(1) =~= decimal((-n) as nat));
    }
}

proof fn lemma_hex_digit(n: int)
    requires
        0 <= n < 16,
    ensures
        hex_value(hex_digit(n)) == n,
{
}

/// A number written in hexadecimal digits reads as the number.
pub proof fn law_hexadecimal_is_read_back(n: nat)
    ensures
        hex_number(n).len() > 0,
        hex_read(hex_number(n)) == n,
    decreases n,
{
    lemma_hex_digit((n % 16) as int);
    let s = hex_number(n);
    if n < 16 {
        assert(s.drop_last() =~= Seq::<char>::empty());
        assert(hex_read(s.drop_last()) == 0);
    } else {
        law_hexadecimal_is_read_back(n / 16);
        assert(s.drop_last() =~= hex_number(n / 16));
    }
}

/// The hexadecimal text of bytes has two digits for each, which write it.
pub proof fn law_bytes_are_written_in_pairs(bytes: Seq<u8>, k: int)
    requires
        0 <= k < bytes.len(),
    ensures
        hex_text(bytes).len() == 2 * bytes.len(),
        hex_read(hex_text(bytes).subrange(2 * k, 2 * k + 2)) == bytes[k],
{
    let s = hex_text(bytes).subrange(2 * k, 2 * k + 2);
    let b = bytes[k] as int;
    assert(s[0] == hex_digit(b / 16));
    assert(s[1] == hex_digit(b % 16));
    lemma_hex_digit(b / 16);
    lemma_hex_digit(b % 16);
    assert(s.drop_last() =~= seq![hex_digit(b / 16)]);
    assert(s.drop_last().drop_last() =~= Seq::<char>::empty());
    assert(hex_read(s.drop_last().drop_last()) == 0);
    assert(hex_read(s.drop_last()) == b / 16);
}

} // verus!
