//! Running an automation.
//!
//! Every edge starts inactive. A node runs when it has no incoming edge or an
//! active one. When it is done, its outgoing edges become active; of a
//! conditional node only those with the label of the chosen branch. What a node
//! needs from outside (an agent, a tool, another automation, an operator) is
//! asked for, and the answer is handed back.
use vstd::prelude::*;

use crate::daemon::automation::{AutomationNode, AutomationNodeKind, ConditionalBranch, InputV, KindV, NodeInput};
use crate::json::{Json, JsonV, lemma_views, parse, parsed, reads_back, render, rendered, views as json_views};
use crate::llm::provider::opt_view;
use crate::llm::wire::{text_array, text_values};
use crate::text::{concat, join, join_texts, lines, lines_of, replace, replaced, same, trim, trimmed, views};

verus! {

/// The deepest nesting of automations; a cycle of automations that run each
/// other ends there.
pub const MAX_SUBGRAPH_DEPTH: usize = 8;

/// Why the daemon could not do something.
#[derive(Debug)]
pub enum DaemonError {
    AgentSpawn(String),
    Provider(String),
    Session(String),
    WorkflowExecution(String),
    WorkflowNotFound(String),
    WorkflowTimeout(u64),
}

pub enum DaemonErrorV {
    AgentSpawn(Seq<char>),
    Provider(Seq<char>),
    Session(Seq<char>),
    WorkflowExecution(Seq<char>),
    WorkflowNotFound(Seq<char>),
    WorkflowTimeout(u64),
}

impl View for DaemonError {
    type V = DaemonErrorV;

    open spec fn view(&self) -> DaemonErrorV {
        match *self {
            DaemonError::AgentSpawn(m) => DaemonErrorV::AgentSpawn(m@),
            DaemonError::Provider(m) => DaemonErrorV::Provider(m@),
            DaemonError::Session(m) => DaemonErrorV::Session(m@),
            DaemonError::WorkflowExecution(m) => DaemonErrorV::WorkflowExecution(m@),
            DaemonError::WorkflowNotFound(m) => DaemonErrorV::WorkflowNotFound(m@),
            DaemonError::WorkflowTimeout(secs) => DaemonErrorV::WorkflowTimeout(secs),
        }
    }
}

// ---------------------------------------------------------------------------
// Outputs by node
// ---------------------------------------------------------------------------

/// Pairs of texts as sequences of characters.
pub open spec fn pair_views(v: Seq<(String, String)>) -> Seq<(Seq<char>, Seq<char>)> {
    v.map_values(|p: (String, String)| (p.0@, p.1@))
}

/// The position of a key, from `i` on.
pub open spec fn key_from(m: Seq<(Seq<char>, Seq<char>)>, k: Seq<char>, i: int) -> Option<int>
    decreases m.len() - i,
{
    if i < 0 || i >= m.len() {
        None
    } else if m[i].0 == k {
        Some(i)
    } else {
        key_from(m, k, i + 1)
    }
}

/// The value under a key.
pub open spec fn value_of(m: Seq<(Seq<char>, Seq<char>)>, k: Seq<char>) -> Option<Seq<char>> {
    match key_from(m, k, 0) {
        Some(i) => Some(m[i].1),
        None => None,
    }
}

/// The pairs with `k` bound to `v`: in its old place, or at the end.
pub open spec fn put(m: Seq<(Seq<char>, Seq<char>)>, k: Seq<char>, v: Seq<char>) -> Seq<(Seq<char>, Seq<char>)> {
    match key_from(m, k, 0) {
        Some(i) => m.update(i, (k, v)),
        None => m.push((k, v)),
    }
}

pub proof fn lemma_key_from(m: Seq<(Seq<char>, Seq<char>)>, k: Seq<char>, i: int)
    requires
        0 <= i,
    ensures
        match key_from(m, k, i) {
            Some(p) => i <= p < m.len() && m[p].0 == k && forall|j: int| i <= j < p ==> (#[trigger] m[j]).0 != k,
            None => forall|j: int| i <= j < m.len() ==> (#[trigger] m[j]).0 != k,
        },
    decreases m.len() - i,
{
    if i < m.len() && m[i].0 != k {
        lemma_key_from(m, k, i + 1);
    }
}

/// What is put under a key is found there, and all other keys keep their values.
pub proof fn law_put_then_read(m: Seq<(Seq<char>, Seq<char>)>, k: Seq<char>, v: Seq<char>, other: Seq<char>)
    requires
        other != k,
    ensures
        value_of(put(m, k, v), k) == Some(v),
        value_of(put(m, k, v), other) == value_of(m, other),
{
    let p = put(m, k, v);
    lemma_key_from(m, k, 0);
    lemma_key_from(p, k, 0);
    lemma_key_from(m, other, 0);
    lemma_key_from(p, other, 0);
    match key_from(m, k, 0) {
        Some(i) => {
            assert(p[i] == (k, v));
        },
        None => {
            assert(p[m.len() as int] == (k, v));
        },
    }
    match key_from(m, other, 0) {
        Some(j) => {
            assert(p[j] == m[j]);
            let q = key_from(p, other, 0)->0;
            assert(p[q].0 == other);
            assert(m[q] == p[q]);
        },
        None => {
            if key_from(p, other, 0) is Some {
                let q = key_from(p, other, 0)->0;
                assert(p[q].0 == other);
                assert(m[q] == p[q]);
            }
        },
    }
}

fn find_key(m: &Vec<(String, String)>, k: &str) -> (r: Option<usize>)
    ensures
        match r {
            Some(i) => i < m@.len() && key_from(pair_views(m@), k@, 0) == Some(i as int),
            None => key_from(pair_views(m@), k@, 0) is None,
        },
{
    let mut i: usize = 0;
    while i < m.len()
        invariant
            i <= m@.len(),
            key_from(pair_views(m@), k@, 0) == key_from(pair_views(m@), k@, i as int),
        decreases m@.len() - i,
    {
        if same(m[i].0.as_str(), k) {
            return Some(i);
        }
        i += 1;
    }
    None
}

/// Binds a key to a value.
pub fn put_pair(m: &mut Vec<(String, String)>, k: &str, v: String)
    ensures
        pair_views(final(m)@) == put(pair_views(old(m)@), k@, v@),
{
    let ghost before = m@;
    match find_key(m, k) {
        Some(i) => {
            m.set(i, (k.to_owned(), v));
        },
        None => {
            m.push((k.to_owned(), v));
        },
    }
    proof {
        assert(pair_views(m@) =~= put(pair_views(before), k@, v@));
    }
}

/// The value under a key.
pub fn pair_value(m: &Vec<(String, String)>, k: &str) -> (r: Option<String>)
    ensures
        opt_view(r) == value_of(pair_views(m@), k@),
{
    match find_key(m, k) {
        Some(i) => Some(m[i].1.clone()),
        None => None,
    }
}

/// A copy of the pairs.
pub fn copy_pairs(m: &Vec<(String, String)>) -> (r: Vec<(String, String)>)
    ensures
        pair_views(r@) == pair_views(m@),
{
    let mut out: Vec<(String, String)> = Vec::new();
    let mut i: usize = 0;
    while i < m.len()
        invariant
            i <= m@.len(),
            pair_views(out@) == pair_views(m@).take(i as int),
        decreases m@.len() - i,
    {
        let ghost before = out@;
        out.push((m[i].0.clone(), m[i].1.clone()));
        proof {
            let all = pair_views(m@);
            assert(pair_views(out@) =~= pair_views(before).push(all[i as int]));
            assert(all.take(i + 1) =~= all.take(i as int).push(all[i as int]));
        }
        i += 1;
    }
    proof {
        assert(pair_views(m@).take(i as int) =~= pair_views(m@));
    }
    out
}

// ---------------------------------------------------------------------------
// Inputs
// ---------------------------------------------------------------------------

/// The outputs of the named nodes that have one, in the order of the names.
pub open spec fn named_outputs(nodes: Seq<Seq<char>>, upstream: Seq<(Seq<char>, Seq<char>)>) -> Seq<Seq<char>>
    decreases nodes.len(),
{
    if nodes.len() == 0 {
        Seq::empty()
    } else {
        let rest = named_outputs(nodes.drop_last(), upstream);
        match value_of(upstream, nodes.last()) {
            Some(v) => rest.push(v),
            None => rest,
        }
    }
}

/// The placeholder of a node's output.
pub open spec fn node_mark(id: Seq<char>) -> Seq<char> {
    "{{node:"@ + id + "}}"@
}

/// A text with the outputs of the first `n` nodes in place of their
/// placeholders, one node after the other.
pub open spec fn fill_nodes(t: Seq<char>, upstream: Seq<(Seq<char>, Seq<char>)>, n: int) -> Seq<char>
    decreases n,
{
    if n <= 0 {
        t
    } else {
        replace(fill_nodes(t, upstream, n - 1), node_mark(upstream[n - 1].0), upstream[n - 1].1)
    }
}

/// A template filled in.
pub open spec fn filled(
    template: Seq<char>,
    trigger: Seq<char>,
    upstream: Seq<(Seq<char>, Seq<char>)>,
    item: Option<Seq<char>>,
) -> Seq<char> {
    let t1 = replace(template, "{{trigger}}"@, trigger);
    let t2 = match item {
        Some(it) => replace(t1, "{{item}}"@, it),
        None => t1,
    };
    fill_nodes(t2, upstream, upstream.len() as int)
}

/// The text that a node gets as its input.
pub open spec fn input_text(
    input: InputV,
    trigger: Seq<char>,
    upstream: Seq<(Seq<char>, Seq<char>)>,
    item: Option<Seq<char>>,
) -> Seq<char> {
    match input {
        InputV::FromTrigger => trigger,
        InputV::Literal(v) => v,
        InputV::FromUpstream(nodes) => join(named_outputs(nodes, upstream), "\n\n"@),
        InputV::Template(t) => filled(t, trigger, upstream, item),
        InputV::FromMapItem => match item {
            Some(it) => it,
            None => Seq::empty(),
        },
    }
}

/// The text that a node of a kind gets; a text input has its default.
pub open spec fn resolved(
    kind: KindV,
    trigger: Seq<char>,
    upstream: Seq<(Seq<char>, Seq<char>)>,
    item: Option<Seq<char>>,
) -> Seq<char> {
    match kind {
        KindV::Agent(_, input) => input_text(input, trigger, upstream, item),
        KindV::Tool(_, input) => input_text(input, trigger, upstream, item),
        KindV::Conditional(input, _, _) => input_text(input, trigger, upstream, item),
        KindV::Mapping(input, _) => input_text(input, trigger, upstream, item),
        KindV::Subgraph(_, input) => input_text(input, trigger, upstream, item),
        KindV::Interrupt(input, _) => input_text(input, trigger, upstream, item),
        KindV::TextInput(default) => match default {
            Some(v) => v,
            None => Seq::empty(),
        },
    }
}

pub open spec fn item_view(item: Option<&String>) -> Option<Seq<char>> {
    match item {
        Some(it) => Some(it@),
        None => None,
    }
}

fn upstream_texts(nodes: &Vec<String>, upstream: &Vec<(String, String)>) -> (r: Vec<String>)
    ensures
        views(r@) == named_outputs(views(nodes@), pair_views(upstream@)),
{
    let mut out: Vec<String> = Vec::new();
    let mut i: usize = 0;
    proof {
        assert(views(out@) =~= Seq::<Seq<char>>::empty());
    }
    while i < nodes.len()
        invariant
            i <= nodes@.len(),
            views(out@) == named_outputs(views(nodes@).take(i as int), pair_views(upstream@)),
        decreases nodes@.len() - i,
    {
        let ghost before = out@;
        proof {
            let all = views(nodes@);
            assert(all.take(i + 1).drop_last() =~= all.take(i as int));
            assert(all.take(i + 1).last() == nodes@[i as int]@);
        }
        if let Some(v) = pair_value(upstream, nodes[i].as_str()) {
            out.push(v);
            proof {
                assert(views(out@) =~= views(before).push(v@));
            }
        }
        i += 1;
    }
    proof {
        assert(views(nodes@).take(i as int) =~= views(nodes@));
    }
    out
}

fn fill_template(template: &str, trigger: &str, upstream: &Vec<(String, String)>, item: Option<&String>) -> (r: String)
    ensures
        r@ == filled(template@, trigger@, pair_views(upstream@), item_view(item)),
{
    proof {
        reveal_strlit("{{trigger}}");
        reveal_strlit("{{item}}");
        reveal_strlit("{{node:");
    }
    let mut out = replaced(template, "{{trigger}}", trigger).0;
    if let Some(it) = item {
        out = replaced(out.as_str(), "{{item}}", it.as_str()).0;
    }
    let ghost start = out@;
    let mut i: usize = 0;
    while i < upstream.len()
        invariant
            i <= upstream@.len(),
            "{{node:"@.len() > 0,
            out@ == fill_nodes(start, pair_views(upstream@), i as int),
        decreases upstream@.len() - i,
    {
        let mut mark = concat("{{node:", upstream[i].0.as_str());
        mark.append("}}");
        out = replaced(out.as_str(), mark.as_str(), upstream[i].1.as_str()).0;
        i += 1;
    }
    out
}

fn resolve_input(input: &NodeInput, trigger_input: &str, upstream: &Vec<(String, String)>, item: Option<&String>) -> (r:
    String)
    ensures
        r@ == input_text(input@, trigger_input@, pair_views(upstream@), item_view(item)),
{
    match input {
        NodeInput::FromTrigger => trigger_input.to_owned(),
        NodeInput::Literal { value } => value.clone(),
        NodeInput::FromUpstream { nodes } => join_texts(&upstream_texts(nodes, upstream), "\n\n"),
        NodeInput::Template { template } => fill_template(template.as_str(), trigger_input, upstream, item),
        NodeInput::FromMapItem => match item {
            Some(it) => it.clone(),
            None => String::new(),
        },
    }
}

/// The input of a node, in a map with the current item.
pub fn resolve_node_input_with_item(
    node: &AutomationNode,
    trigger_input: &str,
    upstream: &Vec<(String, String)>,
    item: Option<&String>,
) -> (r: String)
    ensures
        r@ == resolved(node@.kind, trigger_input@, pair_views(upstream@), item_view(item)),
{
    match &node.kind {
        AutomationNodeKind::Agent { input, .. } => resolve_input(input, trigger_input, upstream, item),
        AutomationNodeKind::Tool { input, .. } => resolve_input(input, trigger_input, upstream, item),
        AutomationNodeKind::Conditional { input, .. } => resolve_input(input, trigger_input, upstream, item),
        AutomationNodeKind::Mapping { input, .. } => resolve_input(input, trigger_input, upstream, item),
        AutomationNodeKind::Subgraph { input, .. } => resolve_input(input, trigger_input, upstream, item),
        AutomationNodeKind::Interrupt { input, .. } => resolve_input(input, trigger_input, upstream, item),
        AutomationNodeKind::TextInput { default_value } => match default_value {
            Some(v) => v.clone(),
            None => String::new(),
        },
    }
}

/// The input of a node outside any map.
pub fn resolve_node_input(node: &AutomationNode, trigger_input: &str, upstream: &Vec<(String, String)>) -> (r: String)
    ensures
        r@ == resolved(node@.kind, trigger_input@, pair_views(upstream@), None),
{
    resolve_node_input_with_item(node, trigger_input, upstream, None)
}

// ---------------------------------------------------------------------------
// Lists and branches
// ---------------------------------------------------------------------------

/// An element of a list as a text: a string as it is, any other value as JSON.
pub open spec fn element_text(v: JsonV) -> Seq<char> {
    match v {
        JsonV::Text(s) => s,
        _ => rendered(v),
    }
}

/// The lines without surrounding whitespace, as far as they are not empty.
pub open spec fn full_lines(ls: Seq<Seq<char>>) -> Seq<Seq<char>>
    decreases ls.len(),
{
    if ls.len() == 0 {
        Seq::empty()
    } else if trim(ls.last()).len() == 0 {
        full_lines(ls.drop_last())
    } else {
        full_lines(ls.drop_last()).push(trim(ls.last()))
    }
}

/// The items of a text: the elements of a JSON array, else its lines where
/// there are several, else the text; an empty text has none.
pub open spec fn list_items(s: Seq<char>) -> Seq<Seq<char>> {
    let t = trim(s);
    if t.len() == 0 {
        Seq::empty()
    } else {
        match parsed(t) {
            Some(JsonV::Array(a)) => a.map_values(|v: JsonV| element_text(v)),
            _ => if full_lines(lines(t)).len() > 1 {
                full_lines(lines(t))
            } else {
                seq![t]
            },
        }
    }
}

fn array_texts(a: &Vec<Json>) -> (r: Vec<String>)
    ensures
        views(r@) == json_views(a@).map_values(|v: JsonV| element_text(v)),
{
    let mut out: Vec<String> = Vec::new();
    let ghost all = json_views(a@).map_values(|v: JsonV| element_text(v));
    let mut i: usize = 0;
    proof {
        lemma_views(a@);
    }
    while i < a.len()
        invariant
            i <= a@.len(),
            all == json_views(a@).map_values(|v: JsonV| element_text(v)),
            json_views(a@).len() == a@.len(),
            forall|k: int| 0 <= k < a@.len() ==> #[trigger] json_views(a@)[k] == a@[k]@,
            views(out@) == all.take(i as int),
        decreases a@.len() - i,
    {
        let ghost before = out@;
        let t = match &a[i] {
            Json::Text(s) => s.clone(),
            other => render(other),
        };
        out.push(t);
        proof {
            assert(all[i as int] == t@);
            assert(views(out@) =~= views(before).push(t@));
            assert(all.take(i + 1) =~= all.take(i as int).push(t@));
        }
        i += 1;
    }
    proof {
        assert(all.take(i as int) =~= all);
    }
    out
}

/// The lines of a text without surrounding whitespace, as far as they are not
/// empty.
pub fn non_empty_lines(s: &str) -> (r: Vec<String>)
    ensures
        views(r@) == full_lines(lines(s@)),
{
    let ls = lines_of(s);
    let ghost all = lines(s@);
    let mut out: Vec<String> = Vec::new();
    let mut i: usize = 0;
    proof {
        assert(views(ls@).len() == ls@.len());
        assert(views(out@) =~= Seq::<Seq<char>>::empty());
    }
    while i < ls.len()
        invariant
            i <= ls@.len(),
            all == views(ls@),
            views(out@) == full_lines(all.take(i as int)),
        decreases ls@.len() - i,
    {
        let ghost before = out@;
        proof {
            assert(all.take(i + 1).drop_last() =~= all.take(i as int));
            assert(all.take(i + 1).last() == ls@[i as int]@);
        }
        let t = trimmed(ls[i].as_str());
        if !t.as_str().is_empty() {
            out.push(t);
            proof {
                assert(views(out@) =~= views(before).push(t@));
            }
        }
        i += 1;
    }
    proof {
        assert(all.take(i as int) =~= all);
    }
    out
}

/// The items of a text that a map goes through.
pub fn parse_list(s: &str) -> (r: Vec<String>)
    ensures
        views(r@) == list_items(s@),
{
    let t = trimmed(s);
    let mut out: Vec<String> = Vec::new();
    if t.as_str().is_empty() {
        proof {
            assert(views(out@) =~= Seq::<Seq<char>>::empty());
        }
        return out;
    }
    if let Some(Json::Array(a)) = parse(t.as_str()) {
        return array_texts(&a);
    }
    let ls = non_empty_lines(t.as_str());
    proof {
        assert(views(ls@).len() == ls@.len());
    }
    if ls.len() > 1 {
        return ls;
    }
    out.push(t);
    proof {
        assert(views(out@) =~= seq![t@]);
    }
    out
}

/// Writes a list as a JSON array, which [`parse_list`] reads back item by item.
pub fn write_list(items: &Vec<String>) -> (r: String)
    ensures
        r@ == rendered(JsonV::Array(text_values(views(items@)))),
        list_items(r@) == views(items@),
{
    let all = text_array(items);
    let r = render(&all);
    proof {
        let texts = views(items@);
        reveal_with_fuel(reads_back, 2);
        assert(reads_back(all@, 100));
        assert(text_values(texts).map_values(|v: JsonV| element_text(v)) =~= texts);
    }
    r
}

/// The first branch, from `i` on, whose test the input passes.
pub open spec fn branch_from(input: Seq<char>, branches: Seq<ConditionalBranch>, i: int) -> Option<Seq<char>>
    decreases branches.len() - i,
{
    if i < 0 || i >= branches.len() {
        None
    } else if branches[i].when.accepts(input) {
        Some(branches[i].name@)
    } else {
        branch_from(input, branches, i + 1)
    }
}

/// The branch that an input chooses: the first whose test it passes, else the
/// default.
pub open spec fn chosen_branch(
    input: Seq<char>,
    branches: Seq<ConditionalBranch>,
    default: Option<Seq<char>>,
) -> Option<Seq<char>> {
    match branch_from(input, branches, 0) {
        Some(b) => Some(b),
        None => default,
    }
}

/// Chooses a branch.
pub fn pick_branch(input: &str, branches: &Vec<ConditionalBranch>, default: Option<&str>) -> (r: Option<String>)
    ensures
        opt_view(r) == chosen_branch(
            input@,
            branches@,
            match default {
                Some(d) => Some(d@),
                None => None,
            },
        ),
{
    let mut i: usize = 0;
    while i < branches.len()
        invariant
            i <= branches@.len(),
            branch_from(input@, branches@, 0) == branch_from(input@, branches@, i as int),
        decreases branches@.len() - i,
    {
        if branches[i].when.matches(input) {
            return Some(branches[i].name.clone());
        }
        i += 1;
    }
    match default {
        Some(d) => Some(d.to_owned()),
        None => None,
    }
}

} // verus!
