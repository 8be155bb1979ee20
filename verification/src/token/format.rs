//! Compact formats for JSON data: tables instead of repeated keys.
use vstd::prelude::*;

use crate::json::{Json, JsonV, lemma_views, members, render, rendered, views as json_views};
use crate::llm::provider::opt_view;
use crate::text::{before, concat, contains, is_before, join, join_texts, lemma_before_irreflexive, lemma_before_total,
    lemma_before_transitive, replace, replaced, same, views};

verus! {

/// The formats in which data is written.
#[derive(Debug, Clone, Copy, PartialEq, Eq, Structural)]
pub enum TokenFormat {
    /// JSON without spaces.
    JsonMinified,
    /// JSON for people to read.
    JsonPretty,
    /// A header line and a line for each object, tabs between the cells.
    Toon,
    /// A header line and a line for each object, commas between the cells.
    Csv,
}

/// What the data looks like.
#[derive(Debug, Clone, Copy, PartialEq, Eq, Structural)]
pub enum FormatHint {
    UniformArray,
    PureTabular,
    Nested,
    Unknown,
}

// ---------------------------------------------------------------------------
// Keys in their order
// ---------------------------------------------------------------------------

/// The texts stand in strictly increasing order.
pub open spec fn increasing(s: Seq<Seq<char>>) -> bool {
    forall|i: int, j: int| 0 <= i < j < s.len() ==> before(#[trigger] s[i], #[trigger] s[j])
}

/// The sequence lists the keys in increasing order.
pub open spec fn lists_keys(s: Seq<Seq<char>>, keys: Set<Seq<char>>) -> bool {
    increasing(s) && s.to_set() == keys
}

/// The keys in increasing order.
pub open spec fn key_list(keys: Set<Seq<char>>) -> Seq<Seq<char>> {
    choose|s: Seq<Seq<char>>| lists_keys(s, keys)
}

proof fn lemma_increasing_unique(a: Seq<Seq<char>>, b: Seq<Seq<char>>)
    requires
        increasing(a),
        increasing(b),
        a.to_set() == b.to_set(),
    ensures
        a == b,
    decreases a.len(),
{
    if a.len() == 0 {
        if b.len() > 0 {
            assert(b.to_set().contains(b[0]));
            assert(a.contains(b[0]));
        }
        assert(a =~= b);
    } else {
        assert(a.to_set().contains(a.last()));
        assert(b.contains(a.last()));
        let n = b.len() - 1;
        let k = choose|k: int| 0 <= k < b.len() && b[k] == a.last();
        assert(b.to_set().contains(b.last()));
        assert(a.contains(b.last()));
        let m = choose|m: int| 0 <= m < a.len() && a[m] == b.last();
        if k < n {
            assert(before(b[k], b[n]));
            if m < a.len() - 1 {
                assert(before(a[m], a[a.len() - 1]));
                lemma_before_total(b[n], b[k]);
            } else {
                lemma_before_irreflexive(b[n]);
            }
        }
        let a1 = a.drop_last();
        let b1 = b.drop_last();
        assert forall|x: Seq<char>| a1.to_set().contains(x) == b1.to_set().contains(x) by {
            if a1.contains(x) {
                let i = choose|i: int| 0 <= i < a1.len() && a1[i] == x;
                assert(before(a[i], a[a.len() - 1]));
                assert(a[i] == x);
                assert(a.to_set().contains(x));
                assert(b.contains(x));
                let j = choose|j: int| 0 <= j < b.len() && b[j] == x;
                if j == n {
                    lemma_before_irreflexive(x);
                }
                assert(b1[j] == x);
            }
            if b1.contains(x) {
                let i = choose|i: int| 0 <= i < b1.len() && b1[i] == x;
                assert(before(b[i], b[n]));
                assert(b[i] == x);
                assert(b.to_set().contains(x));
                assert(a.contains(x));
                let j = choose|j: int| 0 <= j < a.len() && a[j] == x;
                if j == a.len() - 1 {
                    lemma_before_irreflexive(x);
                }
                assert(a1[j] == x);
            }
        }
        assert(a1.to_set() =~= b1.to_set());
        lemma_increasing_unique(a1, b1);
        assert(a =~= a1.push(a.last()));
        assert(b =~= b1.push(b.last()));
    }
}

/// Adds a key at its place, unless it is there.
fn add_key(v: &mut Vec<String>, key: &str)
    requires
        increasing(views(old(v)@)),
    ensures
        increasing(views(final(v)@)),
        views(final(v)@).to_set() == views(old(v)@).to_set().insert(key@),
{
    let ghost was = views(v@);
    let mut i: usize = 0;
    while i < v.len() && is_before(v[i].as_str(), key)
        invariant
            i <= v@.len(),
            was == views(v@),
            forall|j: int| 0 <= j < i ==> before(#[trigger] was[j], key@),
        decreases v@.len() - i,
    {
        proof {
            assert(was[i as int] == v@[i as int]@);
        }
        i += 1;
    }
    if i < v.len() && same(v[i].as_str(), key) {
        proof {
            assert(was[i as int] == key@);
            assert(was.to_set().insert(key@) =~= was.to_set());
        }
        return;
    }
    v.insert(i, key.to_owned());
    proof {
        let now = views(v@);
        assert(now =~= was.insert(i as int, key@));
        if i < was.len() {
            lemma_before_total(was[i as int], key@);
        }
        assert forall|a: int, b: int| 0 <= a < b < now.len() implies before(#[trigger] now[a], #[trigger] now[b]) by {
            if b == i {
                assert(now[a] == was[a]);
            } else if a == i {
                assert(now[b] == was[b - 1]);
                if b - 1 > i {
                    assert(before(was[i as int], was[b - 1]));
                    lemma_before_transitive(key@, was[i as int], was[b - 1]);
                }
            } else {
                let a1 = if a < i { a } else { a - 1 };
                let b1 = if b < i { b } else { b - 1 };
                assert(now[a] == was[a1] && now[b] == was[b1]);
            }
        }
        assert forall|x: Seq<char>| now.to_set().contains(x) == was.to_set().insert(key@).contains(x) by {
            if now.contains(x) {
                let k = choose|k: int| 0 <= k < now.len() && now[k] == x;
                if k < i {
                    assert(was[k] == x);
                } else if k > i {
                    assert(was[k - 1] == x);
                }
            }
            if was.contains(x) {
                let k = choose|k: int| 0 <= k < was.len() && was[k] == x;
                if k < i {
                    assert(now[k] == x);
                } else {
                    assert(now[k + 1] == x);
                }
            }
            if x == key@ {
                assert(now[i as int] == x);
            }
        }
        assert(now.to_set() =~= was.to_set().insert(key@));
    }
}

/// The keys of an object in increasing order.
fn keys_of(m: &Vec<(String, Json)>) -> (r: Vec<String>)
    ensures
        views(r@) == key_list(members(m@).dom()),
        lists_keys(views(r@), members(m@).dom()),
{
    let mut out: Vec<String> = Vec::new();
    let mut i: usize = 0;
    proof {
        assert(views(out@) =~= Seq::<Seq<char>>::empty());
        assert(m@.take(0) =~= Seq::empty());
        assert(views(out@).to_set() =~= members(m@.take(0)).dom());
    }
    while i < m.len()
        invariant
            i <= m@.len(),
            increasing(views(out@)),
            views(out@).to_set() == members(m@.take(i as int)).dom(),
        decreases m@.len() - i,
    {
        proof {
            assert(m@.take(i + 1).drop_last() =~= m@.take(i as int));
            assert(m@.take(i + 1).last() == m@[i as int]);
        }
        add_key(&mut out, m[i].0.as_str());
        i += 1;
        proof {
            assert(views(out@).to_set() =~= members(m@.take(i as int)).dom());
        }
    }
    proof {
        assert(m@.take(i as int) =~= m@);
        let keys = members(m@).dom();
        assert(lists_keys(views(out@), keys));
        lemma_increasing_unique(views(out@), key_list(keys));
    }
    out
}

// ---------------------------------------------------------------------------
// Tables
// ---------------------------------------------------------------------------

/// A text as a cell of a comma-separated line: quoted where it holds a comma, a
/// quote or a line feed, its quotes doubled.
pub open spec fn csv_text(s: Seq<char>) -> Seq<char> {
    if s.contains(',') || s.contains('"') || s.contains('\n') {
        "\""@ + replace(s, "\""@, "\"\""@) + "\""@
    } else {
        s
    }
}

/// A value as a cell; an array or an object is none.
pub open spec fn cell(v: JsonV, csv: bool) -> Option<Seq<char>> {
    match v {
        JsonV::Text(s) => Some(
            if csv {
                csv_text(s)
            } else {
                s
            },
        ),
        JsonV::Number(_) => Some(rendered(v)),
        JsonV::Bool(b) => Some(
            if b {
                "true"@
            } else {
                "false"@
            },
        ),
        JsonV::Null => Some(
            if csv {
                ""@
            } else {
                "null"@
            },
        ),
        _ => None,
    }
}

/// The cells of an object under the first `n` keys.
pub open spec fn row_cells(obj: JsonV, keys: Seq<Seq<char>>, n: int, csv: bool) -> Option<Seq<Seq<char>>>
    decreases n,
{
    if n <= 0 {
        Some(Seq::empty())
    } else {
        match (row_cells(obj, keys, n - 1, csv), cell(obj.at_key(keys[n - 1]), csv)) {
            (Some(r), Some(c)) => Some(r.push(c)),
            _ => None,
        }
    }
}

pub open spec fn separator(csv: bool) -> Seq<char> {
    if csv {
        ","@
    } else {
        "\t"@
    }
}

/// The lines of the first `n` objects.
pub open spec fn row_lines(items: Seq<JsonV>, keys: Seq<Seq<char>>, n: int, csv: bool) -> Option<Seq<Seq<char>>>
    decreases n,
{
    if n <= 0 {
        Some(Seq::empty())
    } else {
        match (row_lines(items, keys, n - 1, csv), row_cells(items[n - 1], keys, keys.len() as int, csv)) {
            (Some(ls), Some(cells)) => Some(ls.push(join(cells, separator(csv)))),
            _ => None,
        }
    }
}

/// The values are objects with the same keys.
pub open spec fn uniform(items: Seq<JsonV>) -> bool {
    forall|i: int|
        0 <= i < items.len() ==> (#[trigger] items[i]) is Object && items[i]->Object_0.dom() == items[0]->Object_0.dom()
}

/// An array of objects with the same keys and plain values as a table.
pub open spec fn table_text(v: JsonV, csv: bool) -> Option<Seq<char>> {
    match v {
        JsonV::Array(items) => if items.len() == 0 || !uniform(items) || items[0]->Object_0.dom().len() == 0 {
            None
        } else {
            let keys = key_list(items[0]->Object_0.dom());
            match row_lines(items, keys, items.len() as int, csv) {
                Some(ls) => Some(join(seq![join(keys, separator(csv))] + ls, "\n"@)),
                None => None,
            }
        },
        _ => None,
    }
}

fn holds_char(s: &str, c: char) -> (r: bool)
    ensures
        r == s@.contains(c),
{
    let v = crate::text::chars_of(s);
    let k: usize = crate::text::seek_char(&v, c, 0);
    proof {
        crate::text::lemma_next_char(v@, c, 0);
    }
    if k < v.len() {
        proof {
            assert(s@[k as int] == c);
        }
        true
    } else {
        false
    }
}

fn write_cell(v: &Json, csv: bool) -> (r: Option<String>)
    ensures
        opt_view(r) == cell(v@, csv),
{
    match v {
        Json::Text(s) => {
            if csv && (holds_char(s.as_str(), ',') || holds_char(s.as_str(), '"') || holds_char(s.as_str(), '\n')) {
                proof {
                    reveal_strlit("\"");
                }
                let mut t = concat("\"", replaced(s.as_str(), "\"", "\"\"").0.as_str());
                t.append("\"");
                Some(t)
            } else {
                Some(s.clone())
            }
        },
        Json::Number(_) => Some(render(v)),
        Json::Bool(b) => Some(
            if *b {
                "true".to_owned()
            } else {
                "false".to_owned()
            },
        ),
        Json::Null => Some(
            if csv {
                "".to_owned()
            } else {
                "null".to_owned()
            },
        ),
        _ => None,
    }
}

proof fn lemma_row_cells_none(obj: JsonV, keys: Seq<Seq<char>>, i: int, n: int, csv: bool)
    requires
        row_cells(obj, keys, i, csv) is None,
        0 <= i <= n,
    ensures
        row_cells(obj, keys, n, csv) is None,
    decreases n,
{
    if i < n {
        lemma_row_cells_none(obj, keys, i, n - 1, csv);
    }
}

proof fn lemma_row_lines_none(items: Seq<JsonV>, keys: Seq<Seq<char>>, i: int, n: int, csv: bool)
    requires
        row_lines(items, keys, i, csv) is None,
        0 <= i <= n,
    ensures
        row_lines(items, keys, n, csv) is None,
    decreases n,
{
    if i < n {
        lemma_row_lines_none(items, keys, i, n - 1, csv);
    }
}

fn write_row(obj: &Json, keys: &Vec<String>, csv: bool) -> (r: Option<Vec<String>>)
    ensures
        match r {
            Some(v) => row_cells(obj@, views(keys@), keys@.len() as int, csv) == Some(views(v@)),
            None => row_cells(obj@, views(keys@), keys@.len() as int, csv) is None,
        },
{
    let ghost ks = views(keys@);
    let mut out: Vec<String> = Vec::new();
    let mut i: usize = 0;
    proof {
        assert(views(out@) =~= Seq::<Seq<char>>::empty());
    }
    while i < keys.len()
        invariant
            i <= keys@.len(),
            ks == views(keys@),
            row_cells(obj@, ks, i as int, csv) == Some(views(out@)),
        decreases keys@.len() - i,
    {
        let ghost was = out@;
        match write_cell(obj.at_key(keys[i].as_str()), csv) {
            Some(c) => {
                out.push(c);
                proof {
                    assert(views(out@) =~= views(was).push(c@));
                }
            },
            None => {
                proof {
                    assert(row_cells(obj@, ks, i + 1, csv) is None);
                    lemma_row_cells_none(obj@, ks, i + 1, keys@.len() as int, csv);
                }
                return None;
            },
        }
        i += 1;
    }
    Some(out)
}

fn is_uniform(items: &Vec<Json>) -> (r: bool)
    requires
        items@.len() > 0,
    ensures
        r == uniform(json_views(items@)),
{
    let ghost all = json_views(items@);
    proof {
        lemma_views(items@);
    }
    let keys = match &items[0] {
        Json::Object(m) => keys_of(m),
        _ => {
            proof {
                assert(!(all[0] is Object));
            }
            return false;
        },
    };
    let mut i: usize = 0;
    while i < items.len()
        invariant
            i <= items@.len(),
            items@.len() > 0,
            all == json_views(items@),
            all.len() == items@.len(),
            forall|k: int| 0 <= k < items@.len() ==> #[trigger] all[k] == items@[k]@,
            all[0] is Object,
            lists_keys(views(keys@), all[0]->Object_0.dom()),
            views(keys@) == key_list(all[0]->Object_0.dom()),
            forall|j: int|
                0 <= j < i ==> (#[trigger] all[j]) is Object && all[j]->Object_0.dom() == all[0]->Object_0.dom(),
        decreases items@.len() - i,
    {
        proof {
            assert(all[i as int] == items@[i as int]@);
        }
        match &items[i] {
            Json::Object(m) => {
                let own = keys_of(m);
                if !same_texts(&own, &keys) {
                    proof {
                        if all[i as int]->Object_0.dom() == all[0]->Object_0.dom() {
                            lemma_increasing_unique(views(own@), views(keys@));
                        }
                    }
                    return false;
                }
            },
            _ => {
                proof {
                    assert(!(all[i as int] is Object));
                }
                return false;
            },
        }
        i += 1;
    }
    true
}

fn same_texts(a: &Vec<String>, b: &Vec<String>) -> (r: bool)
    ensures
        r == (views(a@) == views(b@)),
{
    if a.len() != b.len() {
        proof {
            assert(views(a@).len() != views(b@).len());
        }
        return false;
    }
    let mut i: usize = 0;
    while i < a.len()
        invariant
            i <= a@.len(),
            a@.len() == b@.len(),
            forall|j: int| 0 <= j < i ==> views(a@)[j] == views(b@)[j],
        decreases a@.len() - i,
    {
        if !same(a[i].as_str(), b[i].as_str()) {
            proof {
                assert(views(a@)[i as int] != views(b@)[i as int]);
            }
            return false;
        }
        i += 1;
    }
    proof {
        assert(views(a@) =~= views(b@));
    }
    true
}

fn sep(csv: bool) -> (r: &'static str)
    ensures
        r@ == separator(csv),
{
    if csv {
        ","
    } else {
        "\t"
    }
}

fn write_table(value: &Json, csv: bool) -> (r: Option<String>)
    ensures
        opt_view(r) == table_text(value@, csv),
{
    let items = match value {
        Json::Array(items) => items,
        _ => {
            return None;
        },
    };
    let ghost all = json_views(items@);
    proof {
        lemma_views(items@);
    }
    if items.len() == 0 || !is_uniform(items) {
        return None;
    }
    let keys = match &items[0] {
        Json::Object(m) => keys_of(m),
        _ => {
            proof {
                assert(all[0] is Object);
            }
            return None;
        },
    };
    let ghost ks = views(keys@);
    proof {
        assert(all[0] == items@[0]@);
        assert(ks == key_list(all[0]->Object_0.dom()));
        lemma_increasing_count(ks);
        assert(ks.len() == all[0]->Object_0.dom().len());
    }
    if keys.len() == 0 {
        return None;
    }
    let mut lines: Vec<String> = Vec::new();
    lines.push(join_texts(&keys, sep(csv)));
    let ghost head = join(ks, separator(csv));
    let mut i: usize = 0;
    proof {
        assert(views(lines@) =~= seq![head] + Seq::<Seq<char>>::empty());
    }
    while i < items.len()
        invariant
            i <= items@.len(),
            ks == views(keys@),
            all == json_views(items@),
            all.len() == items@.len(),
            forall|k: int| 0 <= k < items@.len() ==> #[trigger] all[k] == items@[k]@,
            row_lines(all, ks, i as int, csv) is Some,
            views(lines@) == seq![head] + row_lines(all, ks, i as int, csv)->0,
            keys@.len() > 0,
            all.len() > 0,
            value@ == JsonV::Array(all),
            uniform(all),
            all[0]->Object_0.dom().len() == ks.len(),
            ks == key_list(all[0]->Object_0.dom()),
        decreases items@.len() - i,
    {
        let ghost was = lines@;
        proof {
            assert(all[i as int] == items@[i as int]@);
        }
        match write_row(&items[i], &keys, csv) {
            Some(cells) => {
                let line = join_texts(&cells, sep(csv));
                lines.push(line);
                proof {
                    let ls = row_lines(all, ks, i as int, csv)->0;
                    assert(views(lines@) =~= views(was).push(line@));
                    assert((seq![head] + ls).push(line@) =~= seq![head] + ls.push(line@));
                }
            },
            None => {
                proof {
                    assert(row_lines(all, ks, i + 1, csv) is None);
                    lemma_row_lines_none(all, ks, i + 1, all.len() as int, csv);
                }
                return None;
            },
        }
        i += 1;
    }
    Some(join_texts(&lines, "\n"))
}

proof fn lemma_increasing_count(s: Seq<Seq<char>>)
    requires
        increasing(s),
    ensures
        s.to_set().len() == s.len(),
{
    assert forall|i: int, j: int| 0 <= i < s.len() && 0 <= j < s.len() && i != j implies s[i] != s[j] by {
        if i < j {
            assert(before(s[i], s[j]));
            lemma_before_irreflexive(s[i]);
        } else {
            assert(before(s[j], s[i]));
            lemma_before_irreflexive(s[i]);
        }
    }
    s.unique_seq_to_set();
}

/// An array of objects with the same keys as tab-separated lines.
pub fn try_serialize_toon(value: &Json) -> (r: Option<String>)
    ensures
        opt_view(r) == table_text(value@, false),
{
    write_table(value, false)
}

/// An array of objects with the same keys as comma-separated lines.
pub fn try_serialize_csv(value: &Json) -> (r: Option<String>)
    ensures
        opt_view(r) == table_text(value@, true),
{
    write_table(value, true)
}

/// The text and the format that a value is written in.
pub open spec fn adapted(v: JsonV, hint: FormatHint) -> (Seq<char>, TokenFormat) {
    match (hint, table_text(v, hint == FormatHint::PureTabular)) {
        (FormatHint::UniformArray, Some(t)) => (t, TokenFormat::Toon),
        (FormatHint::PureTabular, Some(t)) => (t, TokenFormat::Csv),
        _ => (rendered(v), TokenFormat::JsonMinified),
    }
}

/// Writes a value in the most compact format for its shape.
pub fn adaptive_serialize(value: &Json, hint: FormatHint) -> (r: (String, TokenFormat))
    ensures
        (r.0@, r.1) == adapted(value@, hint),
{
    match hint {
        FormatHint::UniformArray => {
            if let Some(t) = try_serialize_toon(value) {
                return (t, TokenFormat::Toon);
            }
        },
        FormatHint::PureTabular => {
            if let Some(t) = try_serialize_csv(value) {
                return (t, TokenFormat::Csv);
            }
        },
        _ => {},
    }
    (render(value), TokenFormat::JsonMinified)
}

/// A table has a line for each object and one for the keys; data of any other
/// shape is written as JSON.
pub proof fn law_other_shapes_are_json(v: JsonV, hint: FormatHint)
    requires
        !(v is Array) || v->Array_0.len() == 0 || !uniform(v->Array_0) || hint == FormatHint::Nested || hint
            == FormatHint::Unknown,
    ensures
        adapted(v, hint) == (rendered(v), TokenFormat::JsonMinified),
{
}

} // verus!
