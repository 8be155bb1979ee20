//! What tables hold of the data that they are written from.
use vstd::prelude::*;

use crate::json::{JsonV, rendered};
use crate::text::{at, before, join, lemma_before_total, lemma_before_transitive, replace, replace_from};
use crate::token::format::{FormatHint, TokenFormat, adapted, cell, csv_text, increasing, key_list, lists_keys,
    row_cells, row_lines, separator, table_text, uniform};

verus! {

// ---------------------------------------------------------------------------
// Cells
// ---------------------------------------------------------------------------

/// The cell of a truth value is what JSON writes for it, so that the cells of
/// the two truth values differ, and neither is the cell of null.
pub proof fn law_truth_values_are_told_apart(csv: bool)
    ensures
        cell(JsonV::Bool(true), csv) == Some(seq!['t', 'r', 'u', 'e']),
        cell(JsonV::Bool(false), csv) == Some(seq!['f', 'a', 'l', 's', 'e']),
        cell(JsonV::Bool(true), csv) != cell(JsonV::Bool(false), csv),
        cell(JsonV::Null, csv) != cell(JsonV::Bool(true), csv),
        cell(JsonV::Null, csv) != cell(JsonV::Bool(false), csv),
        cell(JsonV::Null, false) == Some(seq!['n', 'u', 'l', 'l']),
        cell(JsonV::Null, true) == Some(Seq::<char>::empty()),
{
    reveal_strlit("true");
    reveal_strlit("false");
    reveal_strlit("null");
    reveal_strlit("");
    assert("true"@ =~= seq!['t', 'r', 'u', 'e']);
    assert("false"@ =~= seq!['f', 'a', 'l', 's', 'e']);
    assert("null"@ =~= seq!['n', 'u', 'l', 'l']);
    assert(""@ =~= Seq::<char>::empty());
    assert("true"@.len() != "false"@.len());
    assert("null"@[0] != "true"@[0]);
    assert("null"@.len() != "false"@.len());
    assert(""@.len() != "false"@.len());
    assert(""@.len() != "true"@.len());
}

/// Two truth values have the same cell only where they are the same.
pub proof fn law_cells_of_truth_values_are_distinct(a: bool, b: bool, csv: bool)
    requires
        cell(JsonV::Bool(a), csv) == cell(JsonV::Bool(b), csv),
    ensures
        a == b,
{
    law_truth_values_are_told_apart(csv);
}

/// A number stands in its cell as JSON writes it; lists and objects have none.
pub proof fn law_other_cells(v: JsonV, csv: bool)
    ensures
        v is Number ==> cell(v, csv) == Some(rendered(v)),
        cell(v, csv) is None <==> v is Array || v is Object,
{
}

/// A text with each doubled quote made one.
pub open spec fn undoubled(s: Seq<char>) -> Seq<char>
    decreases s.len(),
{
    if s.len() == 0 {
        s
    } else if s.len() > 1 && s[0] == '"' && s[1] == '"' {
        seq!['"'] + undoubled(s.skip(2))
    } else {
        seq![s[0]] + undoubled(s.skip(1))
    }
}

/// What a reader of comma-separated lines takes from a cell.
pub open spec fn csv_read(c: Seq<char>) -> Seq<char> {
    if c.len() > 1 && c[0] == '"' && c.last() == '"' {
        undoubled(c.subrange(1, c.len() - 1))
    } else {
        c
    }
}

proof fn lemma_undoubled(s: Seq<char>, i: int)
    requires
        0 <= i <= s.len(),
    ensures
        undoubled(replace_from(s, seq!['"'], seq!['"', '"'], i)) == s.skip(i),
        replace_from(s, seq!['"'], seq!['"', '"'], i).len() >= s.len() - i,
        i < s.len() && s[i] != '"' ==> replace_from(s, seq!['"'], seq!['"', '"'], i)[0] == s[i],
    decreases s.len() - i,
{
    let q = seq!['"'];
    let qq = seq!['"', '"'];
    let r = replace_from(s, q, qq, i);
    if i < s.len() {
        lemma_undoubled(s, i + 1);
        let rest = replace_from(s, q, qq, i + 1);
        assert(s.subrange(i, i + 1) =~= seq![s[i]]);
        assert(s.skip(i) =~= seq![s[i]] + s.skip(i + 1));
        if s[i] == '"' {
            assert(at(s, q, i));
            assert(r =~= qq + rest);
            assert(r.skip(2) =~= rest);
            assert(undoubled(r) =~= seq!['"'] + undoubled(rest));
        } else {
            if at(s, q, i) {
                assert(s.subrange(i, i + 1)[0] == q[0]);
            }
            assert(r =~= seq![s[i]] + rest);
            assert(r.skip(1) =~= rest);
            assert(undoubled(r) =~= seq![s[i]] + undoubled(rest));
        }
    } else {
        assert(r =~= Seq::<char>::empty());
        assert(s.skip(i) =~= Seq::<char>::empty());
    }
}

/// A text stands in a tab-separated cell as it is. In a comma-separated one it
/// is either as it is, without commas, quotes and line feeds, or between
/// quotes; a reader takes the same text from it.
pub proof fn law_texts_are_read_back_from_cells(s: Seq<char>)
    ensures
        cell(JsonV::Text(s), false) == Some(s),
        cell(JsonV::Text(s), true) matches Some(c) && {
            &&& csv_read(c) == s
            &&& c == s ==> !s.contains(',') && !s.contains('"') && !s.contains('\n')
            &&& c != s ==> c.len() >= s.len() + 2 && c[0] == '"' && c.last() == '"'
        },
{
    reveal_strlit("\"");
    reveal_strlit("\"\"");
    assert("\""@ =~= seq!['"']);
    assert("\"\""@ =~= seq!['"', '"']);
    lemma_undoubled(s, 0);
    assert(s.skip(0) =~= s);
    let c = csv_text(s);
    if s.contains(',') || s.contains('"') || s.contains('\n') {
        let body = replace(s, "\""@, "\"\""@);
        assert(c =~= seq!['"'] + body + seq!['"']);
        assert(c.subrange(1, c.len() - 1) =~= body);
    } else if c.len() > 0 && c[0] == '"' {
        assert(s.contains('"'));
    }
}

/// Texts are told apart by their cells.
pub proof fn law_cells_of_texts_are_distinct(a: Seq<char>, b: Seq<char>, csv: bool)
    requires
        cell(JsonV::Text(a), csv) == cell(JsonV::Text(b), csv),
    ensures
        a == b,
{
    law_texts_are_read_back_from_cells(a);
    law_texts_are_read_back_from_cells(b);
}

/// Cells are parted by a comma or by a tab.
pub proof fn law_separators()
    ensures
        separator(true) == seq![','],
        separator(false) == seq!['\t'],
{
    reveal_strlit(",");
    reveal_strlit("\t");
    assert(","@ =~= seq![',']);
    assert("\t"@ =~= seq!['\t']);
}

// ---------------------------------------------------------------------------
// Tables
// ---------------------------------------------------------------------------

proof fn lemma_insert_key(was: Seq<Seq<char>>, key: Seq<char>, i: int)
    requires
        increasing(was),
        !was.contains(key),
        0 <= i <= was.len(),
        forall|j: int| 0 <= j < i ==> before(#[trigger] was[j], key),
        i < was.len() ==> !before(was[i], key),
    ensures
        lists_keys(was.insert(i, key), was.to_set().insert(key)),
{
    let now = was.insert(i, key);
    if i < was.len() {
        assert(was[i] != key);
        lemma_before_total(was[i], key);
    }
    assert forall|a: int, b: int| 0 <= a < b < now.len() implies before(#[trigger] now[a], #[trigger] now[b]) by {
        if b == i {
            assert(now[a] == was[a]);
        } else if a == i {
            assert(now[b] == was[b - 1]);
            if b - 1 > i {
                assert(before(was[i], was[b - 1]));
                lemma_before_transitive(key, was[i], was[b - 1]);
            }
        } else {
            let a1 = if a < i {
                a
            } else {
                a - 1
            };
            let b1 = if b < i {
                b
            } else {
                b - 1
            };
            assert(now[a] == was[a1] && now[b] == was[b1]);
        }
    }
    assert forall|x: Seq<char>| now.to_set().contains(x) == was.to_set().insert(key).contains(x) by {
        if now.contains(x) {
            let k = choose|k: int| 0 <= k < now.len() && now[k] == x;
            if k < i {
                assert(was[k] == x);
            } else if k > i {
                assert(was[k - 1] == x);
            }
        }
        if was.contains(x) {
            let k = choose|k: int| 0 <= k < was.len() && was[k] == x;
            if k < i {
                assert(now[k] == x);
            } else {
                assert(now[k + 1] == x);
            }
        }
        if x == key {
            assert(now[i] == x);
        }
    }
    assert(now.to_set() =~= was.to_set().insert(key));
}

proof fn lemma_place(s: Seq<Seq<char>>, key: Seq<char>, n: int) -> (i: int)
    requires
        0 <= n <= s.len(),
        forall|j: int| 0 <= j < n ==> before(#[trigger] s[j], key),
    ensures
        0 <= i <= s.len(),
        forall|j: int| 0 <= j < i ==> before(#[trigger] s[j], key),
        i < s.len() ==> !before(s[i], key),
    decreases s.len() - n,
{
    if n < s.len() && before(s[n], key) {
        lemma_place(s, key, n + 1)
    } else {
        n
    }
}

proof fn lemma_keys_can_be_listed(keys: Set<Seq<char>>)
    requires
        keys.finite(),
    ensures
        lists_keys(key_list(keys), keys),
    decreases keys.len(),
{
    if keys.len() == 0 {
        let s = Seq::<Seq<char>>::empty();
        assert(s.to_set() =~= keys);
        assert(lists_keys(s, keys));
    } else {
        let x = keys.choose();
        let less = keys.remove(x);
        lemma_keys_can_be_listed(less);
        let s = key_list(less);
        if s.contains(x) {
            assert(s.to_set().contains(x));
        }
        let i = lemma_place(s, x, 0);
        lemma_insert_key(s, x, i);
        assert(less.insert(x) =~= keys);
        assert(lists_keys(s.insert(i, x), keys));
    }
}

proof fn lemma_row_cells(obj: JsonV, keys: Seq<Seq<char>>, n: int, csv: bool)
    requires
        0 <= n <= keys.len(),
    ensures
        match row_cells(obj, keys, n, csv) {
            Some(cells) => cells.len() == n && forall|k: int|
                0 <= k < n ==> Some(#[trigger] cells[k]) == cell(obj.at_key(keys[k]), csv),
            None => exists|k: int| 0 <= k < n && cell(obj.at_key(#[trigger] keys[k]), csv) is None,
        },
    decreases n,
{
    if n > 0 {
        lemma_row_cells(obj, keys, n - 1, csv);
        if let Some(r) = row_cells(obj, keys, n - 1, csv) {
            if let Some(c) = cell(obj.at_key(keys[n - 1]), csv) {
                let cells = r.push(c);
                assert forall|k: int| 0 <= k < n implies Some(#[trigger] cells[k]) == cell(obj.at_key(keys[k]), csv) by {
                    if k < n - 1 {
                        assert(cells[k] == r[k]);
                    }
                }
            } else {
                assert(cell(obj.at_key(keys[n - 1]), csv) is None);
            }
        }
    }
}

proof fn lemma_row_lines(items: Seq<JsonV>, keys: Seq<Seq<char>>, n: int, csv: bool)
    requires
        0 <= n <= items.len(),
    ensures
        match row_lines(items, keys, n, csv) {
            Some(ls) => ls.len() == n && forall|i: int|
                0 <= i < n ==> writes_row(#[trigger] ls[i], items[i], keys, csv),
            None => exists|i: int, k: int|
                0 <= i < n && 0 <= k < keys.len() && cell((#[trigger] items[i]).at_key(#[trigger] keys[k]), csv) is None,
        },
    decreases n,
{
    if n > 0 {
        lemma_row_lines(items, keys, n - 1, csv);
        lemma_row_cells(items[n - 1], keys, keys.len() as int, csv);
        if let Some(ls) = row_lines(items, keys, n - 1, csv) {
            if let Some(cells) = row_cells(items[n - 1], keys, keys.len() as int, csv) {
                let line = join(cells, separator(csv));
                let all = ls.push(line);
                assert(writes_row(line, items[n - 1], keys, csv));
                assert forall|i: int| 0 <= i < n implies writes_row(#[trigger] all[i], items[i], keys, csv) by {
                    if i < n - 1 {
                        assert(all[i] == ls[i]);
                    }
                }
            } else {
                let k = choose|k: int|
                    0 <= k < keys.len() && cell(items[n - 1].at_key(#[trigger] keys[k]), csv) is None;
                assert(cell(items[n - 1].at_key(keys[k]), csv) is None);
            }
        }
    }
}

/// The line holds the values that the object has under the keys, in the order
/// of the keys, with the separator between them.
pub open spec fn writes_row(line: Seq<char>, obj: JsonV, keys: Seq<Seq<char>>, csv: bool) -> bool {
    exists|cells: Seq<Seq<char>>|
        {
            &&& line == #[trigger] join(cells, separator(csv))
            &&& cells.len() == keys.len()
            &&& forall|k: int| 0 <= k < cells.len() ==> Some(#[trigger] cells[k]) == cell(obj.at_key(keys[k]), csv)
        }
}

/// Objects with the same keys and plain values are written as a table, and
/// nothing else is: a line of the keys in increasing order, and for each
/// object in turn a line of the values that it has under them.
pub proof fn law_tables_hold_every_value(items: Seq<JsonV>, csv: bool)
    requires
        items.len() > 0,
        uniform(items),
        items[0]->Object_0.dom().finite(),
        items[0]->Object_0.dom().len() > 0,
    ensures
        table_text(JsonV::Array(items), csv) matches Some(t) ==> exists|lines: Seq<Seq<char>>, keys: Seq<Seq<char>>|
            {
                &&& t == #[trigger] join(lines, seq!['\n'])
                &&& lines.len() == items.len() + 1
                &&& #[trigger] increasing(keys)
                &&& keys.to_set() == items[0]->Object_0.dom()
                &&& lines[0] == join(keys, separator(csv))
                &&& forall|i: int| 0 <= i < items.len() ==> writes_row(lines[i + 1], #[trigger] items[i], keys, csv)
            },
        table_text(JsonV::Array(items), csv) is None <==> exists|i: int, key: Seq<char>|
            0 <= i < items.len() && items[0]->Object_0.dom().contains(key) && cell(
                (#[trigger] items[i]).at_key(key),
                csv,
            ) is None && #[trigger] has_key(items[0], key),
{
    reveal_strlit("\n");
    assert("\n"@ =~= seq!['\n']);
    let dom = items[0]->Object_0.dom();
    let keys = key_list(dom);
    lemma_keys_can_be_listed(dom);
    lemma_row_lines(items, keys, items.len() as int, csv);
    if let Some(ls) = row_lines(items, keys, items.len() as int, csv) {
        let lines = seq![join(keys, separator(csv))] + ls;
        assert forall|i: int| 0 <= i < items.len() implies writes_row(lines[i + 1], #[trigger] items[i], keys, csv) by {
            assert(lines[i + 1] == ls[i]);
        }
        assert(join(lines, seq!['\n']) == table_text(JsonV::Array(items), csv)->0);
        assert(increasing(keys));
        assert forall|i: int, key: Seq<char>|
            0 <= i < items.len() && dom.contains(key) && #[trigger] has_key(items[0], key) implies cell(
            (#[trigger] items[i]).at_key(key),
            csv,
        ) is Some by {
            assert(keys.to_set().contains(key));
            let k = choose|k: int| 0 <= k < keys.len() && keys[k] == key;
            assert(writes_row(ls[i], items[i], keys, csv));
            let cells = choose|cells: Seq<Seq<char>>|
                {
                    &&& ls[i] == #[trigger] join(cells, separator(csv))
                    &&& cells.len() == keys.len()
                    &&& forall|k: int| 0 <= k < cells.len() ==> Some(#[trigger] cells[k]) == cell(
                        items[i].at_key(keys[k]),
                        csv,
                    )
                };
            assert(Some(cells[k]) == cell(items[i].at_key(keys[k]), csv));
        }
    } else {
        let (i, k) = choose|i: int, k: int|
            0 <= i < items.len() && 0 <= k < keys.len() && cell((#[trigger] items[i]).at_key(#[trigger] keys[k]), csv)
                is None;
        assert(keys.to_set().contains(keys[k]));
        assert(has_key(items[0], keys[k]));
        assert(cell(items[i].at_key(keys[k]), csv) is None);
    }
}

/// The object has a member under the key.
pub open spec fn has_key(v: JsonV, key: Seq<char>) -> bool {
    v.field(key) is Some
}

/// Data that is said to be uniform is written with tabs and data that is said
/// to be tabular with commas, where it can be; the format that is named is the
/// one that was used, and everything else is JSON.
pub proof fn law_formats_are_named_rightly(v: JsonV, hint: FormatHint)
    ensures
        adapted(v, hint).1 == TokenFormat::Toon <==> hint == FormatHint::UniformArray && table_text(v, false) is Some,
        adapted(v, hint).1 == TokenFormat::Csv <==> hint == FormatHint::PureTabular && table_text(v, true) is Some,
        adapted(v, hint).1 == TokenFormat::Toon ==> table_text(v, false) == Some(adapted(v, hint).0),
        adapted(v, hint).1 == TokenFormat::Csv ==> table_text(v, true) == Some(adapted(v, hint).0),
        adapted(v, hint).1 == TokenFormat::JsonMinified ==> adapted(v, hint).0 == rendered(v),
        adapted(v, hint).1 != TokenFormat::JsonPretty,
        !(v is Array) || v->Array_0.len() == 0 ==> adapted(v, hint).1 == TokenFormat::JsonMinified,
{
}

} // verus!
