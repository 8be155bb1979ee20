//! JSON values: the tree that requests, replies and tool arguments are made of.
use vstd::prelude::*;

use crate::text::{same, trim};

verus! {

// ---------------------------------------------------------------------------
// The mathematical value
// ---------------------------------------------------------------------------

/// A JSON value; an object is a finite map from its keys.
pub enum JsonV {
    Null,
    Bool(bool),
    Number(serde_json::Number),
    Text(Seq<char>),
    Array(Seq<JsonV>),
    Object(Map<Seq<char>, JsonV>),
}

impl JsonV {
    /// The member under `key`, where the value is an object that has it.
    pub open spec fn field(self, key: Seq<char>) -> Option<JsonV> {
        match self {
            JsonV::Object(m) => if m.dom().contains(key) {
                Some(m[key])
            } else {
                None
            },
            _ => None,
        }
    }

    /// The member under `key`, or null.
    pub open spec fn at_key(self, key: Seq<char>) -> JsonV {
        match self.field(key) {
            Some(v) => v,
            None => JsonV::Null,
        }
    }

    /// The element at position `i`, or null.
    pub open spec fn at_index(self, i: int) -> JsonV {
        match self {
            JsonV::Array(a) => if 0 <= i < a.len() {
                a[i]
            } else {
                JsonV::Null
            },
            _ => JsonV::Null,
        }
    }

    /// The characters of a string value.
    pub open spec fn as_text(self) -> Option<Seq<char>> {
        match self {
            JsonV::Text(s) => Some(s),
            _ => None,
        }
    }

    /// The characters of a string value, or `default`.
    pub open spec fn text_or(self, default: Seq<char>) -> Seq<char> {
        match self {
            JsonV::Text(s) => s,
            _ => default,
        }
    }

    /// The number, where it is an integer from 0 to `u64::MAX`.
    pub open spec fn as_u64(self) -> Option<u64> {
        match self {
            JsonV::Number(n) => number_as_u64(n),
            _ => None,
        }
    }

    /// The number as a count of tokens; what is no such number counts 0.
    pub open spec fn count(self) -> usize {
        match self.as_u64() {
            Some(n) => n as usize,
            None => 0,
        }
    }

    /// The elements of an array value.
    pub open spec fn as_array(self) -> Option<Seq<JsonV>> {
        match self {
            JsonV::Array(a) => Some(a),
            _ => None,
        }
    }

    /// The object with `key` bound to `value` as well.
    pub open spec fn with(self, key: Seq<char>, value: JsonV) -> JsonV {
        match self {
            JsonV::Object(m) => JsonV::Object(m.insert(key, value)),
            _ => self,
        }
    }
}

/// The object without members.
pub open spec fn empty_object() -> JsonV {
    JsonV::Object(Map::empty())
}

// ---------------------------------------------------------------------------
// The outside JSON library
// ---------------------------------------------------------------------------

#[verifier::external_type_specification]
#[verifier::external_body]
pub struct ExNumber(serde_json::Number);

#[verifier::external_type_specification]
#[verifier::external_body]
pub struct ExValue(serde_json::Value);

/// A number as an integer from 0 to `u64::MAX`, where it is one.
pub uninterp spec fn number_as_u64(n: serde_json::Number) -> Option<u64>;

/// The JSON number of an integer.
pub uninterp spec fn number_of_u64(n: u64) -> serde_json::Number;

/// What a parsed document holds.
pub uninterp spec fn content(v: serde_json::Value) -> JsonV;

/// The value that a text writes, where the text is one JSON document.
pub uninterp spec fn parsed(text: Seq<char>) -> Option<JsonV>;

/// What is wrong with a text that is not one JSON document.
pub uninterp spec fn parse_error(text: Seq<char>) -> Seq<char>;

/// The text, without spaces between its tokens, that writes a value.
pub uninterp spec fn rendered(v: JsonV) -> Seq<char>;

/// `serde_json::Number::as_u64` depends on the number alone.
#[verifier::external_body]
fn number_u64(n: &serde_json::Number) -> (r: Option<u64>)
    ensures
        r == number_as_u64(*n),
{
    n.as_u64()
}

/// `serde_json::Number::from` on a `u64` depends on it alone and gives the
/// number that reads back as it.
#[verifier::external_body]
fn number_from(n: u64) -> (r: serde_json::Number)
    ensures
        r == number_of_u64(n),
        number_as_u64(r) == Some(n),
{
    serde_json::Number::from(n)
}

/// The JSON number of a signed integer.
pub uninterp spec fn number_of_i64(n: i64) -> serde_json::Number;

/// `serde_json::Number::from` on an `i64` depends on it alone; of an integer
/// that is not negative it gives the same number as on a `u64`.
#[verifier::external_body]
fn number_from_signed(n: i64) -> (r: serde_json::Number)
    ensures
        r == number_of_i64(n),
        n >= 0 ==> r == number_of_u64(n as u64),
{
    serde_json::Number::from(n)
}

/// `Clone` of `serde_json::Number` gives the same number.
#[verifier::external_body]
fn number_clone(n: &serde_json::Number) -> (r: serde_json::Number)
    ensures
        r == *n,
{
    n.clone()
}

/// `serde_json::from_str` succeeds or fails, what it reads, and what its error
/// prints, by the text alone.
#[verifier::external_body]
fn parse_value(text: &str) -> (r: Result<serde_json::Value, String>)
    ensures
        match r {
            Ok(v) => parsed(text@) == Some(content(v)),
            Err(e) => parsed(text@) is None && e@ == parse_error(text@),
        },
{
    serde_json::from_str::<serde_json::Value>(text).map_err(|e| e.to_string())
}

/// A value that its text gives back: its numbers are integers and it is at most
/// `depth` deep.
pub open spec fn reads_back(v: JsonV, depth: nat) -> bool
    decreases depth,
{
    match v {
        JsonV::Number(n) => number_as_u64(n) is Some || exists|k: i64| n == #[trigger] number_of_i64(k),
        JsonV::Array(a) => depth > 0 && forall|i: int|
            0 <= i < a.len() ==> #[trigger] reads_back(a[i], (depth - 1) as nat),
        JsonV::Object(m) => depth > 0 && forall|k: Seq<char>|
            m.dom().contains(k) ==> #[trigger] reads_back(m[k], (depth - 1) as nat),
        _ => true,
    }
}

/// `serde_json::Value::to_string` writes a value by its content alone. The text
/// has no whitespace at its ends, and `serde_json::from_str` reads it back as the
/// value, where its numbers are integers and it is at most a hundred deep: a
/// number with a fraction may come back as its neighbour, and a value that is
/// deeper than 127 is refused.
#[verifier::external_body]
fn render_value(v: &serde_json::Value) -> (r: String)
    ensures
        r@ == rendered(content(*v)),
        r@.len() > 0 && trim(r@) == r@,
        reads_back(content(*v), 100) ==> parsed(r@) == Some(content(*v)),
{
    v.to_string()
}

/// The outermost layer of a parsed document.
pub enum Layer {
    Null,
    Bool(bool),
    Number(serde_json::Number),
    Text(String),
    Array(Vec<serde_json::Value>),
    Object(Vec<(String, serde_json::Value)>),
}

/// The map that a sequence of members binds, the later one where a key repeats.
pub open spec fn layer_members(m: Seq<(String, serde_json::Value)>) -> Map<Seq<char>, JsonV>
    decreases m.len(),
{
    if m.len() == 0 {
        Map::empty()
    } else {
        layer_members(m.drop_last()).insert(m.last().0@, content(m.last().1))
    }
}

pub open spec fn layer_elements(a: Seq<serde_json::Value>) -> Seq<JsonV> {
    a.map_values(|v: serde_json::Value| content(v))
}

impl Layer {
    /// What a document with this outermost layer holds.
    pub open spec fn value(self) -> JsonV {
        match self {
            Layer::Null => JsonV::Null,
            Layer::Bool(b) => JsonV::Bool(b),
            Layer::Number(n) => JsonV::Number(n),
            Layer::Text(s) => JsonV::Text(s@),
            Layer::Array(a) => JsonV::Array(layer_elements(a@)),
            Layer::Object(m) => JsonV::Object(layer_members(m@)),
        }
    }
}

/// The variants of `serde_json::Value`, each with its fields moved over. The
/// keys of its map are all different.
#[verifier::external_body]
pub(crate) fn open_value(v: serde_json::Value) -> (r: Layer)
    ensures
        r.value() == content(v),
        r is Object ==> forall|i: int, j: int|
            0 <= i < j < r->Object_0@.len() ==> (#[trigger] r->Object_0@[i]).0@ != (#[trigger] r->Object_0@[j]).0@,
{
    match v {
        serde_json::Value::Null => Layer::Null,
        serde_json::Value::Bool(b) => Layer::Bool(b),
        serde_json::Value::Number(n) => Layer::Number(n),
        serde_json::Value::String(s) => Layer::Text(s),
        serde_json::Value::Array(a) => Layer::Array(a),
        serde_json::Value::Object(m) => Layer::Object(m.into_iter().collect()),
    }
}

/// The variants of `serde_json::Value`, built from their fields; where a key is
/// bound twice, collecting into `serde_json::Map` keeps the later member.
#[verifier::external_body]
pub(crate) fn close_value(l: Layer) -> (r: serde_json::Value)
    ensures
        content(r) == l.value(),
{
    match l {
        Layer::Null => serde_json::Value::Null,
        Layer::Bool(b) => serde_json::Value::Bool(b),
        Layer::Number(n) => serde_json::Value::Number(n),
        Layer::Text(s) => serde_json::Value::String(s),
        Layer::Array(a) => serde_json::Value::Array(a),
        Layer::Object(m) => serde_json::Value::Object(m.into_iter().collect()),
    }
}

proof fn lemma_layer_member(m: Seq<(String, serde_json::Value)>, i: int)
    requires
        0 <= i < m.len(),
        forall|i: int, j: int| 0 <= i < j < m.len() ==> (#[trigger] m[i]).0@ != (#[trigger] m[j]).0@,
    ensures
        layer_members(m).dom().finite(),
        layer_members(m).dom().contains(m[i].0@),
        layer_members(m)[m[i].0@] == content(m[i].1),
    decreases m.len(),
{
    if m.len() > 1 {
        let k = if i < m.len() - 1 {
            i
        } else {
            0
        };
        lemma_layer_member(m.drop_last(), k);
        assert(m.drop_last()[k] == m[k]);
    } else {
        assert(m.drop_last() =~= Seq::empty());
        assert(layer_members(m.drop_last()) =~= Map::empty());
    }
}

/// Takes over a parsed document.
pub fn adopt(v: serde_json::Value) -> (r: Json)
    ensures
        r@ == content(v),
    decreases content(v),
{
    let ghost whole = content(v);
    match open_value(v) {
        Layer::Null => Json::Null,
        Layer::Bool(b) => Json::Bool(b),
        Layer::Number(n) => Json::Number(n),
        Layer::Text(s) => Json::Text(s),
        Layer::Array(a) => {
            let mut rest = a;
            let mut out: Vec<Json> = Vec::new();
            let ghost all = a@;
            proof {
                assert(rest@ =~= all.skip(0));
            }
            while rest.len() > 0
                invariant
                    whole == JsonV::Array(layer_elements(all)),
                    whole == content(v),
                    rest@ == all.skip(out@.len() as int),
                    out@.len() + rest@.len() == all.len(),
                    views(out@) == layer_elements(all).take(out@.len() as int),
                decreases rest@.len(),
            {
                let ghost i = out@.len() as int;
                let x = rest.remove(0);
                proof {
                    assert(x == all[i]);
                    assert(layer_elements(all)[i] == content(x));
                    assert(decreases_to!(whole => whole->Array_0));
                    assert(decreases_to!(whole->Array_0 => whole->Array_0[i]));
                }
                let j = adopt(x);
                proof {
                    lemma_views_push(out@, j);
                    assert(layer_elements(all).take(i + 1) =~= layer_elements(all).take(i).push(j@));
                    assert(rest@ =~= all.skip(i + 1));
                }
                out.push(j);
            }
            proof {
                assert(layer_elements(all).take(out@.len() as int) =~= layer_elements(all));
            }
            Json::Array(out)
        },
        Layer::Object(m) => {
            let mut rest = m;
            let mut out: Vec<(String, Json)> = Vec::new();
            let ghost all = m@;
            proof {
                assert(rest@ =~= all.skip(0));
                assert(all.take(0) =~= Seq::empty());
            }
            while rest.len() > 0
                invariant
                    whole == JsonV::Object(layer_members(all)),
                    whole == content(v),
                    forall|i: int, j: int| 0 <= i < j < all.len() ==> (#[trigger] all[i]).0@ != (#[trigger] all[j]).0@,
                    rest@ == all.skip(out@.len() as int),
                    out@.len() + rest@.len() == all.len(),
                    members(out@) == layer_members(all.take(out@.len() as int)),
                decreases rest@.len(),
            {
                let ghost i = out@.len() as int;
                let ghost before = out@;
                let (k, x) = rest.remove(0);
                proof {
                    assert((k, x) == all[i]);
                    lemma_layer_member(all, i);
                    assert(decreases_to!(whole => whole->Object_0));
                    assert(decreases_to!(whole->Object_0 => whole->Object_0[k@]));
                }
                let j = adopt(x);
                out.push((k, j));
                proof {
                    assert(out@.drop_last() =~= before);
                    assert(all.take(i + 1).drop_last() =~= all.take(i));
                    assert(rest@ =~= all.skip(i + 1));
                }
            }
            proof {
                assert(all.take(out@.len() as int) =~= all);
            }
            Json::Object(out)
        },
    }
}

/// Hands a value to the JSON library.
pub fn export(j: &Json) -> (r: serde_json::Value)
    ensures
        content(r) == j@,
    decreases j,
{
    match j {
        Json::Null => close_value(Layer::Null),
        Json::Bool(b) => close_value(Layer::Bool(*b)),
        Json::Number(n) => close_value(Layer::Number(number_clone(n))),
        Json::Text(s) => close_value(Layer::Text(s.clone())),
        Json::Array(a) => {
            let mut out: Vec<serde_json::Value> = Vec::new();
            let mut i: usize = 0;
            proof {
                lemma_views(a@);
            }
            while i < a.len()
                invariant
                    i <= a@.len(),
                    *j == Json::Array(*a),
                    views(a@).len() == a@.len(),
                    forall|k: int| 0 <= k < a@.len() ==> #[trigger] views(a@)[k] == a@[k]@,
                    layer_elements(out@) == views(a@).take(i as int),
                decreases a@.len() - i,
            {
                proof {
                    assert(decreases_to!(*j => j->Array_0));
                    assert(decreases_to!(*a => a@));
                    assert(decreases_to!(a@ => a@[i as int]));
                }
                let ghost before = out@;
                let x = export(&a[i]);
                out.push(x);
                proof {
                    assert(layer_elements(out@) =~= layer_elements(before).push(content(x)));
                    assert(views(a@).take(i + 1) =~= views(a@).take(i as int).push(views(a@)[i as int]));
                }
                i += 1;
            }
            proof {
                assert(views(a@).take(i as int) =~= views(a@));
            }
            close_value(Layer::Array(out))
        },
        Json::Object(m) => {
            let mut out: Vec<(String, serde_json::Value)> = Vec::new();
            let mut i: usize = 0;
            while i < m.len()
                invariant
                    i <= m@.len(),
                    *j == Json::Object(*m),
                    layer_members(out@) == members(m@.take(i as int)),
                decreases m@.len() - i,
            {
                proof {
                    assert(decreases_to!(*j => j->Object_0));
                    assert(decreases_to!(*m => m@));
                    assert(decreases_to!(m@ => m@[i as int]));
                    assert(decreases_to!(m@[i as int] => m@[i as int].1));
                    assert(m@.take(i + 1).drop_last() =~= m@.take(i as int));
                }
                let ghost before = out@;
                let x = export(&m[i].1);
                out.push((m[i].0.clone(), x));
                proof {
                    assert(out@.drop_last() =~= before);
                }
                i += 1;
            }
            proof {
                assert(m@.take(i as int) =~= m@);
            }
            close_value(Layer::Object(out))
        },
    }
}

/// Reads a JSON document; the error says what is wrong with the text.
pub fn read(text: &str) -> (r: Result<Json, String>)
    ensures
        match r {
            Ok(j) => parsed(text@) == Some(j@),
            Err(e) => parsed(text@) is None && e@ == parse_error(text@),
        },
{
    match parse_value(text) {
        Ok(v) => Ok(adopt(v)),
        Err(e) => Err(e),
    }
}

/// Reads a JSON document.
pub fn parse(text: &str) -> (r: Option<Json>)
    ensures
        match r {
            Some(j) => parsed(text@) == Some(j@),
            None => parsed(text@) is None,
        },
{
    match read(text) {
        Ok(j) => Some(j),
        Err(_) => None,
    }
}

/// Writes a JSON value; what is written reads back as the value.
pub fn render(j: &Json) -> (r: String)
    ensures
        r@ == rendered(j@),
        r@.len() > 0 && trim(r@) == r@,
        reads_back(j@, 100) ==> parsed(r@) == Some(j@),
{
    render_value(&export(j))
}

// ---------------------------------------------------------------------------
// The executable value
// ---------------------------------------------------------------------------

/// A JSON value; a later member of an object replaces an earlier one under the
/// same key.
#[derive(Debug)]
pub enum Json {
    Null,
    Bool(bool),
    Number(serde_json::Number),
    Text(String),
    Array(Vec<Json>),
    Object(Vec<(String, Json)>),
}

impl Json {
    /// The value that the tree holds.
    pub open spec fn value(self) -> JsonV
        decreases self,
    {
        match self {
            Json::Null => JsonV::Null,
            Json::Bool(b) => JsonV::Bool(b),
            Json::Number(n) => JsonV::Number(n),
            Json::Text(s) => JsonV::Text(s@),
            Json::Array(a) => JsonV::Array(views(a@)),
            Json::Object(m) => JsonV::Object(members(m@)),
        }
    }
}

/// The values of a sequence of trees.
pub open spec fn views(v: Seq<Json>) -> Seq<JsonV>
    decreases v,
{
    if v.len() == 0 {
        Seq::empty()
    } else {
        views(v.drop_last()).push(v.last().value())
    }
}

/// The map that a sequence of members binds, the later one where a key repeats.
pub open spec fn members(m: Seq<(String, Json)>) -> Map<Seq<char>, JsonV>
    decreases m,
{
    if m.len() == 0 {
        Map::empty()
    } else {
        members(m.drop_last()).insert(m.last().0@, m.last().1.value())
    }
}

pub proof fn lemma_views(v: Seq<Json>)
    ensures
        views(v).len() == v.len(),
        forall|i: int| 0 <= i < v.len() ==> #[trigger] views(v)[i] == v[i]@,
    decreases v.len(),
{
    if v.len() > 0 {
        lemma_views(v.drop_last());
        assert forall|i: int| 0 <= i < v.len() implies #[trigger] views(v)[i] == v[i]@ by {
            if i < v.len() - 1 {
                assert(v.drop_last()[i] == v[i]);
            }
        }
    }
}

pub proof fn lemma_views_push(v: Seq<Json>, j: Json)
    ensures
        views(v.push(j)) == views(v).push(j@),
{
    assert(v.push(j).drop_last() =~= v);
}

impl View for Json {
    type V = JsonV;

    open spec fn view(&self) -> JsonV {
        self.value()
    }
}

impl Json {
    /// The member under `key`, where the value is an object that has it.
    pub fn get(&self, key: &str) -> (r: Option<&Json>)
        ensures
            match r {
                Some(j) => self@.field(key@) == Some(j@),
                None => self@.field(key@) is None,
            },
    {
        match self {
            Json::Object(m) => {
                let mut i: usize = m.len();
                proof {
                    assert(m@.take(m@.len() as int) =~= m@);
                }
                while i > 0
                    invariant
                        i <= m@.len(),
                        *self == Json::Object(*m),
                        members(m@).dom().contains(key@) == members(m@.take(i as int)).dom().contains(key@),
                        members(m@).dom().contains(key@) ==> members(m@)[key@] == members(m@.take(i as int))[key@],
                    decreases i,
                {
                    i -= 1;
                    proof {
                        assert(m@.take(i + 1).drop_last() =~= m@.take(i as int));
                        assert(m@.take(i + 1).last() == m@[i as int]);
                    }
                    if same(m[i].0.as_str(), key) {
                        return Some(&m[i].1);
                    }
                }
                None
            },
            _ => None,
        }
    }

    /// The member under `key`, or null.
    pub fn at_key(&self, key: &str) -> (r: &Json)
        ensures
            r@ == self@.at_key(key@),
    {
        match self.get(key) {
            Some(j) => j,
            None => &Json::Null,
        }
    }

    /// The element at position `i`, or null.
    pub fn at_index(&self, i: usize) -> (r: &Json)
        ensures
            r@ == self@.at_index(i as int),
    {
        match self {
            Json::Array(a) => {
                proof {
                    lemma_views(a@);
                }
                if i < a.len() {
                    &a[i]
                } else {
                    &Json::Null
                }
            },
            _ => &Json::Null,
        }
    }

    /// The characters of a string value.
    pub fn as_str(&self) -> (r: Option<&str>)
        ensures
            match r {
                Some(s) => self@.as_text() == Some(s@),
                None => self@.as_text() is None,
            },
    {
        match self {
            Json::Text(s) => Some(s.as_str()),
            _ => None,
        }
    }

    /// The characters of a string value, or `default`.
    pub fn text_or(&self, default: &str) -> (r: String)
        ensures
            r@ == self@.text_or(default@),
    {
        match self {
            Json::Text(s) => s.clone(),
            _ => default.to_owned(),
        }
    }

    /// The number, where it is an integer from 0 to `u64::MAX`.
    pub fn as_u64(&self) -> (r: Option<u64>)
        ensures
            r == self@.as_u64(),
    {
        match self {
            Json::Number(n) => number_u64(n),
            _ => None,
        }
    }

    /// The number as a count of tokens; what is no such number counts 0.
    pub fn count(&self) -> (r: usize)
        ensures
            r == self@.count(),
    {
        match self.as_u64() {
            Some(n) => n as usize,
            None => 0,
        }
    }

    /// The elements of an array value.
    pub fn as_array(&self) -> (r: Option<&Vec<Json>>)
        ensures
            match r {
                Some(a) => self@.as_array() == Some(views(a@)),
                None => self@.as_array() is None,
            },
    {
        match self {
            Json::Array(a) => Some(a),
            _ => None,
        }
    }

    /// Whether the value is null.
    pub fn is_null(&self) -> (r: bool)
        ensures
            r == (self@ is Null),
    {
        matches!(self, Json::Null)
    }

    /// Whether the value is an object.
    pub fn is_object(&self) -> (r: bool)
        ensures
            r == (self@ is Object),
    {
        matches!(self, Json::Object(_))
    }

    /// A string value.
    pub fn text(s: &str) -> (r: Json)
        ensures
            r@ == JsonV::Text(s@),
    {
        Json::Text(s.to_owned())
    }

    /// An integer value.
    pub fn number(n: u64) -> (r: Json)
        ensures
            r@ == JsonV::Number(number_of_u64(n)),
            r@.as_u64() == Some(n),
    {
        Json::Number(number_from(n))
    }

    /// An object without members.
    pub fn object() -> (r: Json)
        ensures
            r@ == empty_object(),
    {
        Json::Object(Vec::new())
    }

    /// A signed integer value.
    pub fn signed(n: i64) -> (r: Json)
        ensures
            r@ == JsonV::Number(number_of_i64(n)),
            n >= 0 ==> r@ == JsonV::Number(number_of_u64(n as u64)),
    {
        Json::Number(number_from_signed(n))
    }

    /// The object with `key` bound to `value` as well; another value stays as
    /// it is.
    pub fn with(self, key: &str, value: Json) -> (r: Json)
        ensures
            r@ == self@.with(key@, value@),
    {
        match self {
            Json::Object(mut m) => {
                let ghost before = m@;
                m.push((key.to_owned(), value));
                proof {
                    assert(m@.drop_last() =~= before);
                }
                Json::Object(m)
            },
            other => other,
        }
    }

    /// A copy of the value.
    pub fn copy(&self) -> (r: Json)
        ensures
            r@ == self@,
        decreases self,
    {
        match self {
            Json::Null => Json::Null,
            Json::Bool(b) => Json::Bool(*b),
            Json::Number(n) => Json::Number(number_clone(n)),
            Json::Text(s) => Json::Text(s.clone()),
            Json::Array(a) => {
                let mut out: Vec<Json> = Vec::new();
                let mut i: usize = 0;
                while i < a.len()
                    invariant
                        i <= a@.len(),
                        self == Json::Array(*a),
                        views(out@) == views(a@.take(i as int)),
                    decreases a@.len() - i,
                {
                    proof {
                        assert(decreases_to!(*self => self->Array_0));
                        assert(decreases_to!(*a => a@));
                        assert(decreases_to!(a@ => a@[i as int]));
                        assert(a@.take(i + 1).drop_last() =~= a@.take(i as int));
                        lemma_views_push(out@, a@[i as int]);
                    }
                    let c = a[i].copy();
                    proof {
                        lemma_views_push(out@, c);
                    }
                    out.push(c);
                    i += 1;
                }
                proof {
                    assert(a@.take(i as int) =~= a@);
                }
                Json::Array(out)
            },
            Json::Object(m) => {
                let mut out: Vec<(String, Json)> = Vec::new();
                let mut i: usize = 0;
                while i < m.len()
                    invariant
                        i <= m@.len(),
                        self == Json::Object(*m),
                        members(out@) == members(m@.take(i as int)),
                    decreases m@.len() - i,
                {
                    proof {
                        assert(decreases_to!(*self => self->Object_0));
                        assert(decreases_to!(*m => m@));
                        assert(decreases_to!(m@ => m@[i as int]));
                        assert(decreases_to!(m@[i as int] => m@[i as int].1));
                        assert(m@.take(i + 1).drop_last() =~= m@.take(i as int));
                    }
                    let ghost before = out@;
                    let c = m[i].1.copy();
                    out.push((m[i].0.clone(), c));
                    proof {
                        assert(out@.drop_last() =~= before);
                    }
                    i += 1;
                }
                proof {
                    assert(m@.take(i as int) =~= m@);
                }
                Json::Object(out)
            },
        }
    }
}

} // verus!
