//! The order in which agents run that need each other's work.
//!
//! Agents without dependencies stand in line first, in the order in which they
//! were given. Those in line are taken one by one; each agent joins the line
//! when the last of its dependencies has been taken. Where some agent never
//! joins, the given order is kept.
use vstd::prelude::*;

use crate::daemon::config::{AgentSettings, agent_from, find_agent, lemma_agent_from};
use crate::text::{holds, push_text, views};

verus! {

// ---------------------------------------------------------------------------
// The line
// ---------------------------------------------------------------------------

/// How many of those taken are among some agents.
pub open spec fn hits(deps: Seq<Seq<char>>, taken: Seq<Seq<char>>) -> nat
    decreases taken.len(),
{
    if taken.len() == 0 {
        0
    } else {
        hits(deps, taken.drop_last()) + if deps.contains(taken.last()) {
            1nat
        } else {
            0nat
        }
    }
}

/// The agents, among the first `n`, that need nobody.
pub open spec fn free(agents: Seq<Seq<char>>, deps: Seq<Seq<Seq<char>>>, n: int) -> Seq<Seq<char>>
    decreases n,
{
    if n <= 0 {
        Seq::empty()
    } else if deps[n - 1].len() == 0 {
        free(agents, deps, n - 1).push(agents[n - 1])
    } else {
        free(agents, deps, n - 1)
    }
}

/// An agent joins the line when the last of those taken was its last
/// dependency.
pub open spec fn joins(deps: Seq<Seq<char>>, taken: Seq<Seq<char>>) -> bool {
    deps.contains(taken.last()) && hits(deps, taken) == deps.len()
}

/// The agents, among the first `n`, that join the line.
pub open spec fn joining(agents: Seq<Seq<char>>, deps: Seq<Seq<Seq<char>>>, taken: Seq<Seq<char>>, n: int) -> Seq<
    Seq<char>,
>
    decreases n,
{
    if n <= 0 {
        Seq::empty()
    } else if joins(deps[n - 1], taken) {
        joining(agents, deps, taken, n - 1).push(agents[n - 1])
    } else {
        joining(agents, deps, taken, n - 1)
    }
}

/// The line once `k` agents have been taken from it.
pub open spec fn line(agents: Seq<Seq<char>>, deps: Seq<Seq<Seq<char>>>, k: nat) -> Seq<Seq<char>>
    decreases k,
{
    if k == 0 {
        free(agents, deps, agents.len() as int)
    } else {
        let before = line(agents, deps, (k - 1) as nat);
        if k - 1 < before.len() {
            before + joining(agents, deps, before.take(k as int), agents.len() as int)
        } else {
            before
        }
    }
}

/// The order in which the agents run.
pub open spec fn run_order(agents: Seq<Seq<char>>, deps: Seq<Seq<Seq<char>>>) -> Seq<Seq<char>> {
    let l = line(agents, deps, agents.len());
    if l.len() == agents.len() {
        l
    } else {
        agents
    }
}

// ---------------------------------------------------------------------------
// Dependencies
// ---------------------------------------------------------------------------

/// Those of the names that are members.
pub open spec fn among(names: Seq<Seq<char>>, members: Seq<Seq<char>>) -> Seq<Seq<char>>
    decreases names.len(),
{
    if names.len() == 0 {
        names
    } else if members.contains(names.last()) {
        among(names.drop_last(), members).push(names.last())
    } else {
        among(names.drop_last(), members)
    }
}

/// The names, each once, in the order in which they first stand.
pub open spec fn once(names: Seq<Seq<char>>) -> Seq<Seq<char>>
    decreases names.len(),
{
    if names.len() == 0 {
        names
    } else {
        let earlier = once(names.drop_last());
        if earlier.contains(names.last()) {
            earlier
        } else {
            earlier.push(names.last())
        }
    }
}

/// The dependencies of an agent on members, each once; none of an unknown agent.
pub open spec fn needs(settings: Seq<AgentSettings>, id: Seq<char>, members: Seq<Seq<char>>) -> Seq<Seq<char>> {
    match agent_from(settings, id, 0) {
        Some(i) => once(among(views(settings[i].depends_on@), members)),
        None => Seq::empty(),
    }
}

/// The dependencies of each agent on the others.
pub open spec fn all_needs(settings: Seq<AgentSettings>, agents: Seq<Seq<char>>) -> Seq<Seq<Seq<char>>> {
    agents.map_values(|a: Seq<char>| needs(settings, a, agents))
}

pub open spec fn list_views(v: Seq<Vec<String>>) -> Seq<Seq<Seq<char>>> {
    v.map_values(|l: Vec<String>| views(l@))
}

/// Those of the names that are members.
pub fn members_of(names: &Vec<String>, members: &Vec<String>) -> (r: Vec<String>)
    ensures
        views(r@) == among(views(names@), views(members@)),
{
    let ghost all = views(names@);
    let mut out: Vec<String> = Vec::new();
    let mut i: usize = 0;
    proof {
        assert(views(out@) =~= all.take(0));
    }
    while i < names.len()
        invariant
            i <= names@.len(),
            all == views(names@),
            views(out@) == among(all.take(i as int), views(members@)),
        decreases names@.len() - i,
    {
        proof {
            assert(all.take(i + 1).drop_last() =~= all.take(i as int));
            assert(all.take(i + 1).last() == names@[i as int]@);
        }
        if holds(members, names[i].as_str()) {
            push_text(&mut out, names[i].as_str());
        }
        i += 1;
    }
    proof {
        assert(all.take(all.len() as int) =~= all);
    }
    out
}

fn each_once(names: &Vec<String>) -> (r: Vec<String>)
    ensures
        views(r@) == once(views(names@)),
{
    let ghost all = views(names@);
    let mut out: Vec<String> = Vec::new();
    let mut i: usize = 0;
    proof {
        assert(views(out@) =~= all.take(0));
    }
    while i < names.len()
        invariant
            i <= names@.len(),
            all == views(names@),
            views(out@) == once(all.take(i as int)),
        decreases names@.len() - i,
    {
        proof {
            assert(all.take(i + 1).drop_last() =~= all.take(i as int));
            assert(all.take(i + 1).last() == names@[i as int]@);
        }
        if !holds(&out, names[i].as_str()) {
            push_text(&mut out, names[i].as_str());
        }
        i += 1;
    }
    proof {
        assert(all.take(all.len() as int) =~= all);
    }
    out
}

fn collect_needs(settings: &Vec<AgentSettings>, agents: &Vec<String>) -> (r: Vec<Vec<String>>)
    ensures
        list_views(r@) == all_needs(settings@, views(agents@)),
{
    let mut out: Vec<Vec<String>> = Vec::new();
    let mut i: usize = 0;
    while i < agents.len()
        invariant
            i <= agents@.len(),
            out@.len() == i,
            forall|k: int| 0 <= k < i ==> views((#[trigger] out@[k])@) == needs(settings@, agents@[k]@, views(agents@)),
        decreases agents@.len() - i,
    {
        let d = match find_agent(settings, agents[i].as_str()) {
            Some(p) => each_once(&members_of(&settings[p].depends_on, agents)),
            None => Vec::new(),
        };
        proof {
            assert(views(d@) =~= needs(settings@, agents@[i as int]@, views(agents@)));
        }
        out.push(d);
        i += 1;
    }
    proof {
        assert(list_views(out@) =~= all_needs(settings@, views(agents@)));
    }
    out
}

// ---------------------------------------------------------------------------
// Forming the line
// ---------------------------------------------------------------------------

fn hit_count(deps: &Vec<String>, taken: &Vec<String>, n: usize) -> (r: usize)
    requires
        n <= taken@.len(),
    ensures
        r == hits(views(deps@), views(taken@).take(n as int)),
{
    let ghost all = views(taken@);
    let mut count: usize = 0;
    let mut i: usize = 0;
    proof {
        assert(all.take(0).len() == 0);
    }
    while i < n
        invariant
            i <= n <= taken@.len(),
            all == views(taken@),
            count <= i,
            count == hits(views(deps@), all.take(i as int)),
        decreases n - i,
    {
        proof {
            assert(all.take(i + 1).drop_last() =~= all.take(i as int));
            assert(all.take(i + 1).last() == taken@[i as int]@);
        }
        if holds(deps, taken[i].as_str()) {
            count += 1;
        }
        i += 1;
    }
    count
}

/// The agents in the order of their dependencies; the given order where that is
/// not possible.
pub fn topo_order(agents: &Vec<String>, settings: &Vec<AgentSettings>) -> (r: Vec<String>)
    ensures
        views(r@) == run_order(views(agents@), all_needs(settings@, views(agents@))),
{
    let needed = collect_needs(settings, agents);
    let ghost names = views(agents@);
    let ghost deps = all_needs(settings@, names);
    let n: usize = agents.len();
    let mut waiting: Vec<String> = Vec::new();
    let mut i: usize = 0;
    proof {
        assert(views(waiting@) =~= free(names, deps, 0));
        assert(deps.len() == n);
    }
    while i < n
        invariant
            i <= n,
            n == agents@.len(),
            n == needed@.len(),
            names == views(agents@),
            deps == list_views(needed@),
            views(waiting@) == free(names, deps, i as int),
        decreases n - i,
    {
        proof {
            assert(deps[i as int] == views(needed@[i as int]@));
            assert(names[i as int] == agents@[i as int]@);
            assert(views(needed@[i as int]@).len() == needed@[i as int]@.len());
        }
        if needed[i].len() == 0 {
            push_text(&mut waiting, agents[i].as_str());
        }
        i += 1;
    }
    let mut k: usize = 0;
    while k < n
        invariant
            k <= n,
            n == agents@.len(),
            n == needed@.len(),
            names == views(agents@),
            deps == list_views(needed@),
            views(waiting@) == line(names, deps, k as nat),
        decreases n - k,
    {
        let ghost before = views(waiting@);
        if k < waiting.len() {
            let ghost taken = before.take(k + 1);
            let mut j: usize = 0;
            proof {
                assert(before + joining(names, deps, taken, 0) =~= before);
                assert(taken.last() == waiting@[k as int]@);
            }
            while j < n
                invariant
                    j <= n,
                    k < n,
                    n == agents@.len(),
                    n == needed@.len(),
                    names == views(agents@),
                    deps == list_views(needed@),
                    k < before.len() <= waiting@.len(),
                    taken == before.take(k + 1),
                    views(waiting@) == before + joining(names, deps, taken, j as int),
                    before.len() <= views(waiting@).len(),
                decreases n - j,
            {
                proof {
                    assert(deps[j as int] == views(needed@[j as int]@));
                    assert(names[j as int] == agents@[j as int]@);
                    assert(views(waiting@)[k as int] == before[k as int]);
                    assert(waiting@[k as int]@ == before[k as int]);
                    assert(taken.last() == before[k as int]);
                    assert(views(waiting@).take(k + 1) =~= taken);
                    assert(views(needed@[j as int]@).len() == needed@[j as int]@.len());
                }
                let ghost so_far = views(waiting@);
                if holds(&needed[j], waiting[k].as_str()) && hit_count(&needed[j], &waiting, k + 1)
                    == needed[j].len() {
                    push_text(&mut waiting, agents[j].as_str());
                    proof {
                        assert(joining(names, deps, taken, j + 1) == joining(names, deps, taken, j as int).push(
                            names[j as int],
                        ));
                        assert(views(waiting@) =~= before + joining(names, deps, taken, j + 1));
                    }
                }
                j += 1;
            }
        }
        k += 1;
    }
    proof {
        assert(views(waiting@).len() == waiting@.len());
    }
    if waiting.len() == n {
        waiting
    } else {
        crate::session::copy_texts(agents)
    }
}

// ---------------------------------------------------------------------------
// Laws
// ---------------------------------------------------------------------------

/// Agents and dependencies as they are meant: no name occurs twice, and every
/// dependency is one of the agents.
pub open spec fn proper(agents: Seq<Seq<char>>, deps: Seq<Seq<Seq<char>>>) -> bool {
    &&& deps.len() == agents.len()
    &&& agents.no_duplicates()
    &&& forall|i: int| 0 <= i < deps.len() ==> (#[trigger] deps[i]).no_duplicates()
    &&& forall|i: int, x: Seq<char>| 0 <= i < deps.len() && #[trigger] deps[i].contains(x) ==> agents.contains(x)
}

proof fn lemma_hits_push(d: Seq<Seq<char>>, taken: Seq<Seq<char>>, x: Seq<char>)
    ensures
        hits(d, taken.push(x)) == hits(d, taken) + if d.contains(x) {
            1nat
        } else {
            0nat
        },
{
    assert(taken.push(x).drop_last() =~= taken);
}

/// The elements of `d` that were taken.
spec fn met(d: Seq<Seq<char>>, taken: Seq<Seq<char>>) -> Set<Seq<char>> {
    d.to_set().intersect(taken.to_set())
}

proof fn lemma_hits_met(d: Seq<Seq<char>>, taken: Seq<Seq<char>>)
    requires
        taken.no_duplicates(),
    ensures
        met(d, taken).finite(),
        hits(d, taken) == met(d, taken).len(),
    decreases taken.len(),
{
    vstd::seq_lib::seq_to_set_is_finite(d);
    if taken.len() == 0 {
        assert(met(d, taken) =~= Set::<Seq<char>>::empty());
    } else {
        let rest = taken.drop_last();
        let x = taken.last();
        assert forall|a: int, b: int| 0 <= a < rest.len() && 0 <= b < rest.len() && a != b implies rest[a] != rest[b] by {
            assert(taken[a] != taken[b]);
        }
        lemma_hits_met(d, rest);
        assert(!rest.contains(x)) by {
            if rest.contains(x) {
                let a = choose|a: int| 0 <= a < rest.len() && rest[a] == x;
                assert(taken[a] == taken[taken.len() - 1]);
            }
        }
        assert forall|q: Seq<char>| taken.contains(q) <==> (rest.contains(q) || q == x) by {
            if taken.contains(q) {
                let a = choose|a: int| 0 <= a < taken.len() && taken[a] == q;
                if a < rest.len() {
                    assert(rest[a] == q);
                }
            }
            if rest.contains(q) {
                let a = choose|a: int| 0 <= a < rest.len() && rest[a] == q;
                assert(taken[a] == q);
            }
            assert(taken[taken.len() - 1] == x);
        }
        if d.contains(x) {
            assert(met(d, taken) =~= met(d, rest).insert(x));
        } else {
            assert(met(d, taken) =~= met(d, rest));
        }
    }
}

/// All of `d` was taken exactly where as many were hit as there are.
proof fn lemma_hits_all(d: Seq<Seq<char>>, taken: Seq<Seq<char>>)
    requires
        taken.no_duplicates(),
        d.no_duplicates(),
    ensures
        hits(d, taken) <= d.len(),
        hits(d, taken) == d.len() <==> forall|x: Seq<char>| d.contains(x) ==> #[trigger] taken.contains(x),
{
    lemma_hits_met(d, taken);
    d.unique_seq_to_set();
    assert(met(d, taken).subset_of(d.to_set()));
    vstd::set_lib::lemma_len_subset(met(d, taken), d.to_set());
    if hits(d, taken) == d.len() {
        vstd::set_lib::lemma_subset_equality(met(d, taken), d.to_set());
        assert forall|x: Seq<char>| d.contains(x) implies #[trigger] taken.contains(x) by {
            assert(d.to_set().contains(x));
            assert(met(d, taken).contains(x));
        }
    }
    if forall|x: Seq<char>| d.contains(x) ==> #[trigger] taken.contains(x) {
        assert(met(d, taken) =~= d.to_set()) by {
            assert forall|x: Seq<char>| d.to_set().contains(x) implies met(d, taken).contains(x) by {
                assert(taken.contains(x));
            }
        }
    }
}

/// The first `k` of a line, or all of it.
pub open spec fn taken_by(l: Seq<Seq<char>>, k: nat) -> Seq<Seq<char>> {
    if k <= l.len() {
        l.take(k as int)
    } else {
        l
    }
}

/// What holds of the line once `k` were taken.
spec fn sound(agents: Seq<Seq<char>>, deps: Seq<Seq<Seq<char>>>, k: nat) -> bool {
    let l = line(agents, deps, k);
    let taken = taken_by(l, k);
    &&& l.no_duplicates()
    &&& forall|x: Seq<char>| #[trigger] l.contains(x) ==> agents.contains(x)
    &&& forall|i: int|
        0 <= i < agents.len() ==> (l.contains(#[trigger] agents[i]) <==> hits(deps[i], taken) == deps[i].len())
    &&& forall|i: int, p: int, x: Seq<char>|
        0 <= i < agents.len() && 0 <= p < l.len() && #[trigger] l[p] == #[trigger] agents[i] && #[trigger] deps[i].contains(x)
            ==> l.take(p).contains(x)
}

proof fn lemma_free(agents: Seq<Seq<char>>, deps: Seq<Seq<Seq<char>>>, n: int)
    requires
        proper(agents, deps),
        0 <= n <= agents.len(),
    ensures
        free(agents, deps, n).no_duplicates(),
        forall|x: Seq<char>| #[trigger]
            free(agents, deps, n).contains(x) <==> exists|i: int| 0 <= i < n && #[trigger] agents[i] == x && deps[i].len() == 0,
    decreases n,
{
    let f = free(agents, deps, n);
    if n > 0 {
        lemma_free(agents, deps, n - 1);
        let g = free(agents, deps, n - 1);
        if deps[n - 1].len() == 0 {
            assert(!g.contains(agents[n - 1])) by {
                if g.contains(agents[n - 1]) {
                    let i = choose|i: int| 0 <= i < n - 1 && #[trigger] agents[i] == agents[n - 1] && deps[i].len() == 0;
                    assert(agents[i] == agents[n - 1]);
                }
            }
            lemma_push_distinct(g, agents[n - 1]);
        }
        assert forall|x: Seq<char>| #[trigger] f.contains(x) <==> exists|i: int|
            0 <= i < n && #[trigger] agents[i] == x && deps[i].len() == 0 by {
            if deps[n - 1].len() == 0 {
                lemma_push_contains(g, agents[n - 1], x);
            }
            if exists|i: int| 0 <= i < n && #[trigger] agents[i] == x && deps[i].len() == 0 {
                let i = choose|i: int| 0 <= i < n && #[trigger] agents[i] == x && deps[i].len() == 0;
                if i < n - 1 {
                    assert(g.contains(x));
                }
            }
            if f.contains(x) {
                if g.contains(x) {
                    let i = choose|i: int| 0 <= i < n - 1 && #[trigger] agents[i] == x && deps[i].len() == 0;
                    assert(agents[i] == x);
                } else {
                    assert(agents[n - 1] == x);
                }
            }
        }
    }
}

proof fn lemma_push_contains(g: Seq<Seq<char>>, y: Seq<char>, x: Seq<char>)
    ensures
        g.push(y).contains(x) <==> g.contains(x) || x == y,
{
    let f = g.push(y);
    if g.contains(x) {
        let a = choose|a: int| 0 <= a < g.len() && g[a] == x;
        assert(f[a] == x);
    }
    if x == y {
        assert(f[g.len() as int] == x);
    }
    if f.contains(x) && x != y {
        let a = choose|a: int| 0 <= a < f.len() && f[a] == x;
        assert(g[a] == x);
    }
}

proof fn lemma_push_distinct(g: Seq<Seq<char>>, y: Seq<char>)
    requires
        g.no_duplicates(),
        !g.contains(y),
    ensures
        g.push(y).no_duplicates(),
{
    let f = g.push(y);
    assert forall|a: int, b: int| 0 <= a < f.len() && 0 <= b < f.len() && a != b implies f[a] != f[b] by {
        if a == g.len() {
            assert(g.contains(g[b]));
        } else if b == g.len() {
            assert(g.contains(g[a]));
        } else {
            assert(g[a] != g[b]);
        }
    }
}

proof fn lemma_joining(agents: Seq<Seq<char>>, deps: Seq<Seq<Seq<char>>>, taken: Seq<Seq<char>>, n: int)
    requires
        proper(agents, deps),
        0 <= n <= agents.len(),
    ensures
        joining(agents, deps, taken, n).no_duplicates(),
        forall|x: Seq<char>| #[trigger]
            joining(agents, deps, taken, n).contains(x) <==> exists|i: int|
                0 <= i < n && #[trigger] agents[i] == x && joins(deps[i], taken),
    decreases n,
{
    let f = joining(agents, deps, taken, n);
    if n > 0 {
        lemma_joining(agents, deps, taken, n - 1);
        let g = joining(agents, deps, taken, n - 1);
        if joins(deps[n - 1], taken) {
            assert(!g.contains(agents[n - 1])) by {
                if g.contains(agents[n - 1]) {
                    let i = choose|i: int|
                        0 <= i < n - 1 && #[trigger] agents[i] == agents[n - 1] && joins(deps[i], taken);
                    assert(agents[i] == agents[n - 1]);
                }
            }
            lemma_push_distinct(g, agents[n - 1]);
        }
        assert forall|x: Seq<char>| #[trigger] f.contains(x) <==> exists|i: int|
            0 <= i < n && #[trigger] agents[i] == x && joins(deps[i], taken) by {
            if joins(deps[n - 1], taken) {
                lemma_push_contains(g, agents[n - 1], x);
            }
            if exists|i: int| 0 <= i < n && #[trigger] agents[i] == x && joins(deps[i], taken) {
                let i = choose|i: int| 0 <= i < n && #[trigger] agents[i] == x && joins(deps[i], taken);
                if i < n - 1 {
                    assert(g.contains(x));
                }
            }
            if f.contains(x) {
                if g.contains(x) {
                    let i = choose|i: int| 0 <= i < n - 1 && #[trigger] agents[i] == x && joins(deps[i], taken);
                    assert(agents[i] == x);
                } else {
                    assert(agents[n - 1] == x);
                }
            }
        }
    }
}

proof fn lemma_prefix_distinct(l: Seq<Seq<char>>, k: int)
    requires
        l.no_duplicates(),
        0 <= k <= l.len(),
    ensures
        l.take(k).no_duplicates(),
{
    let t = l.take(k);
    assert forall|a: int, b: int| 0 <= a < t.len() && 0 <= b < t.len() && a != b implies t[a] != t[b] by {
        assert(l[a] != l[b]);
    }
}

proof fn lemma_sound(agents: Seq<Seq<char>>, deps: Seq<Seq<Seq<char>>>, k: nat)
    requires
        proper(agents, deps),
    ensures
        sound(agents, deps, k),
    decreases k,
{
    if k == 0 {
        lemma_sound_start(agents, deps);
    } else {
        lemma_sound(agents, deps, (k - 1) as nat);
        lemma_sound_step(agents, deps, (k - 1) as nat);
    }
}

proof fn lemma_sound_start(agents: Seq<Seq<char>>, deps: Seq<Seq<Seq<char>>>)
    requires
        proper(agents, deps),
    ensures
        sound(agents, deps, 0),
{
    let l = line(agents, deps, 0);
    let n = agents.len() as int;
    lemma_free(agents, deps, n);
    let taken = taken_by(l, 0);
    assert(taken =~= Seq::<Seq<char>>::empty());
    assert forall|x: Seq<char>| #[trigger] l.contains(x) implies agents.contains(x) by {
        let i = choose|i: int| 0 <= i < n && #[trigger] agents[i] == x && deps[i].len() == 0;
        assert(agents[i] == x);
    }
    assert forall|i: int| 0 <= i < agents.len() implies (l.contains(#[trigger] agents[i]) <==> hits(deps[i], taken)
        == deps[i].len()) by {
        if l.contains(agents[i]) {
            let j = choose|j: int| 0 <= j < n && #[trigger] agents[j] == agents[i] && deps[j].len() == 0;
            assert(j == i);
        }
    }
    assert forall|i: int, p: int, x: Seq<char>|
        0 <= i < agents.len() && 0 <= p < l.len() && #[trigger] l[p] == #[trigger] agents[i]
            && #[trigger] deps[i].contains(x) implies l.take(p).contains(x) by {
        assert(l.contains(l[p]));
        assert(l.contains(agents[i]));
        assert(deps[i].len() == 0);
    }
}

proof fn lemma_sound_step(agents: Seq<Seq<char>>, deps: Seq<Seq<Seq<char>>>, k: nat)
    requires
        proper(agents, deps),
        sound(agents, deps, k),
    ensures
        sound(agents, deps, k + 1),
{
    let l = line(agents, deps, k);
    let after = line(agents, deps, k + 1);
    if k >= l.len() {
        assert(after == l);
        assert(l.take(l.len() as int) =~= l);
        assert(taken_by(after, k + 1) == taken_by(l, k));
    } else {
        let n = agents.len() as int;
        let were = l.take(k as int);
        let taken = l.take(k as int + 1);
        let x0 = l[k as int];
        assert(taken =~= were.push(x0));
        let j = joining(agents, deps, taken, n);
        lemma_joining(agents, deps, taken, n);
        lemma_prefix_distinct(l, k as int);
        lemma_prefix_distinct(l, k as int + 1);
        assert(after == l + j);
        assert(taken_by(after, k + 1) =~= taken);
        assert forall|i: int| 0 <= i < agents.len() implies hits(deps[i], taken) == hits(#[trigger] deps[i], were)
            + (if deps[i].contains(x0) {
            1nat
        } else {
            0nat
        }) && hits(deps[i], taken) <= deps[i].len() by {
            lemma_hits_push(deps[i], were, x0);
            lemma_hits_all(deps[i], taken);
        }
        assert forall|i: int| 0 <= i < agents.len() implies (j.contains(#[trigger] agents[i]) <==> joins(
            deps[i],
            taken,
        )) by {
            if j.contains(agents[i]) {
                let q = choose|q: int| 0 <= q < n && #[trigger] agents[q] == agents[i] && joins(deps[q], taken);
                assert(q == i);
            }
        }
        assert forall|x: Seq<char>| #[trigger] j.contains(x) implies agents.contains(x) && !l.contains(x) by {
            let q = choose|q: int| 0 <= q < n && #[trigger] agents[q] == x && joins(deps[q], taken);
            assert(agents[q] == x);
            assert(taken.last() == x0);
            assert(hits(deps[q], taken) == hits(deps[q], were) + 1);
            assert(l.contains(agents[q]) <==> hits(deps[q], were) == deps[q].len());
        }
        assert forall|a: int, b: int| 0 <= a < after.len() && 0 <= b < after.len() && a != b implies after[a]
            != after[b] by {
            if a < l.len() && b < l.len() {
                assert(l[a] != l[b]);
            } else if a >= l.len() && b >= l.len() {
                assert(j[a - l.len()] != j[b - l.len()]);
            } else if a < l.len() {
                assert(l.contains(l[a]));
                assert(j.contains(j[b - l.len()]));
            } else {
                assert(l.contains(l[b]));
                assert(j.contains(j[a - l.len()]));
            }
        }
        assert forall|x: Seq<char>| #[trigger] after.contains(x) <==> l.contains(x) || j.contains(x) by {
            if after.contains(x) {
                let a = choose|a: int| 0 <= a < after.len() && after[a] == x;
                if a < l.len() {
                    assert(l[a] == x);
                } else {
                    assert(j[a - l.len()] == x);
                }
            }
            if l.contains(x) {
                let a = choose|a: int| 0 <= a < l.len() && l[a] == x;
                assert(after[a] == x);
            }
            if j.contains(x) {
                let a = choose|a: int| 0 <= a < j.len() && j[a] == x;
                assert(after[l.len() + a] == x);
            }
        }
        assert forall|i: int| 0 <= i < agents.len() implies (after.contains(#[trigger] agents[i]) <==> hits(
            deps[i],
            taken,
        ) == deps[i].len()) by {
            assert(taken.last() == x0);
            assert(hits(deps[i], taken) == hits(deps[i], were) + (if deps[i].contains(x0) {
                1nat
            } else {
                0nat
            }));
            assert(j.contains(agents[i]) <==> joins(deps[i], taken));
            assert(l.contains(agents[i]) <==> hits(deps[i], were) == deps[i].len());
        }
        assert forall|i: int, p: int, x: Seq<char>|
            0 <= i < agents.len() && 0 <= p < after.len() && #[trigger] after[p] == #[trigger] agents[i]
                && #[trigger] deps[i].contains(x) implies after.take(p).contains(x) by {
            if p < l.len() {
                assert(l[p] == agents[i]);
                assert(l.take(p).contains(x));
                assert(after.take(p) =~= l.take(p));
            } else {
                assert(j[p - l.len()] == agents[i]);
                assert(j.contains(agents[i]));
                lemma_hits_all(deps[i], taken);
                assert(taken.contains(x));
                let a = choose|a: int| 0 <= a < taken.len() && taken[a] == x;
                assert(after.take(p)[a] == x);
            }
        }
    }
}

proof fn lemma_line_fits(agents: Seq<Seq<char>>, l: Seq<Seq<char>>)
    requires
        agents.no_duplicates(),
        l.no_duplicates(),
        forall|x: Seq<char>| #[trigger] l.contains(x) ==> agents.contains(x),
    ensures
        l.len() <= agents.len(),
        l.len() == agents.len() ==> l.to_set() == agents.to_set(),
{
    agents.unique_seq_to_set();
    l.unique_seq_to_set();
    assert(l.to_set().subset_of(agents.to_set()));
    vstd::set_lib::lemma_len_subset(l.to_set(), agents.to_set());
    if l.len() == agents.len() {
        vstd::set_lib::lemma_subset_equality(l.to_set(), agents.to_set());
    }
}

/// Every agent stands behind all of its dependencies.
pub open spec fn respects(order: Seq<Seq<char>>, agents: Seq<Seq<char>>, deps: Seq<Seq<Seq<char>>>) -> bool {
    forall|i: int, p: int, x: Seq<char>|
        0 <= i < agents.len() && 0 <= p < order.len() && #[trigger] order[p] == #[trigger] agents[i]
            && #[trigger] deps[i].contains(x) ==> order.take(p).contains(x)
}

/// Each agent runs, and none runs twice.
pub proof fn law_every_agent_runs_once(agents: Seq<Seq<char>>, deps: Seq<Seq<Seq<char>>>)
    requires
        proper(agents, deps),
    ensures
        run_order(agents, deps).no_duplicates(),
        run_order(agents, deps).to_set() == agents.to_set(),
        run_order(agents, deps).len() == agents.len(),
{
    lemma_sound(agents, deps, agents.len());
    lemma_line_fits(agents, line(agents, deps, agents.len()));
}

/// In the order that is chosen every agent stands behind its dependencies,
/// unless it is the given order.
pub proof fn law_dependencies_first_or_given(agents: Seq<Seq<char>>, deps: Seq<Seq<Seq<char>>>)
    requires
        proper(agents, deps),
    ensures
        respects(run_order(agents, deps), agents, deps) || run_order(agents, deps) == agents,
{
    lemma_sound(agents, deps, agents.len());
}

/// Where the dependencies are free of cycles, so that agents can be ranked with
/// each above those it needs, every agent stands behind its dependencies.
pub proof fn law_acyclic_orders_are_found(
    agents: Seq<Seq<char>>,
    deps: Seq<Seq<Seq<char>>>,
    rank: spec_fn(Seq<char>) -> nat,
)
    requires
        proper(agents, deps),
        forall|i: int, x: Seq<char>|
            0 <= i < deps.len() && #[trigger] deps[i].contains(x) ==> rank(x) < rank(agents[i]),
    ensures
        respects(run_order(agents, deps), agents, deps),
{
    let n = agents.len();
    let l = line(agents, deps, n);
    lemma_sound(agents, deps, n);
    lemma_line_fits(agents, l);
    agents.unique_seq_to_set();
    l.unique_seq_to_set();
    assert(agents.to_set().subset_of(l.to_set())) by {
        assert forall|x: Seq<char>| agents.to_set().contains(x) implies l.to_set().contains(x) by {
            let i = choose|i: int| 0 <= i < agents.len() && agents[i] == x;
            lemma_joined(agents, deps, rank, i);
        }
    }
    vstd::set_lib::lemma_len_subset(agents.to_set(), l.to_set());
}

proof fn lemma_joined(agents: Seq<Seq<char>>, deps: Seq<Seq<Seq<char>>>, rank: spec_fn(Seq<char>) -> nat, i: int)
    requires
        proper(agents, deps),
        forall|i: int, x: Seq<char>|
            0 <= i < deps.len() && #[trigger] deps[i].contains(x) ==> rank(x) < rank(agents[i]),
        0 <= i < agents.len(),
    ensures
        line(agents, deps, agents.len()).contains(agents[i]),
    decreases rank(agents[i]),
{
    let n = agents.len();
    let l = line(agents, deps, n);
    lemma_sound(agents, deps, n);
    lemma_line_fits(agents, l);
    assert(l.take(l.len() as int) =~= l);
    assert(taken_by(l, n) == l);
    assert forall|x: Seq<char>| deps[i].contains(x) implies #[trigger] l.contains(x) by {
        assert(agents.contains(x));
        let q = choose|q: int| 0 <= q < agents.len() && agents[q] == x;
        lemma_joined(agents, deps, rank, q);
    }
    lemma_hits_all(deps[i], l);
}

/// Agents that need nobody run in the given order.
pub proof fn law_independent_agents_keep_their_order(agents: Seq<Seq<char>>, deps: Seq<Seq<Seq<char>>>)
    requires
        deps.len() == agents.len(),
        forall|i: int| 0 <= i < deps.len() ==> (#[trigger] deps[i]).len() == 0,
    ensures
        run_order(agents, deps) == agents,
{
    lemma_all_free(agents, deps, agents.len() as int);
    assert(agents.take(agents.len() as int) =~= agents);
    lemma_line_of_free(agents, deps, agents.len());
}

proof fn lemma_all_free(agents: Seq<Seq<char>>, deps: Seq<Seq<Seq<char>>>, n: int)
    requires
        deps.len() == agents.len(),
        0 <= n <= agents.len(),
        forall|i: int| 0 <= i < deps.len() ==> (#[trigger] deps[i]).len() == 0,
    ensures
        free(agents, deps, n) == agents.take(n),
    decreases n,
{
    if n > 0 {
        lemma_all_free(agents, deps, n - 1);
        assert(deps[n - 1].len() == 0);
        assert(agents.take(n) =~= agents.take(n - 1).push(agents[n - 1]));
    } else {
        assert(agents.take(0) =~= Seq::<Seq<char>>::empty());
    }
}

proof fn lemma_none_joins(agents: Seq<Seq<char>>, deps: Seq<Seq<Seq<char>>>, taken: Seq<Seq<char>>, n: int)
    requires
        deps.len() == agents.len(),
        0 <= n <= agents.len(),
        forall|i: int| 0 <= i < deps.len() ==> (#[trigger] deps[i]).len() == 0,
    ensures
        joining(agents, deps, taken, n) == Seq::<Seq<char>>::empty(),
    decreases n,
{
    if n > 0 {
        lemma_none_joins(agents, deps, taken, n - 1);
        assert(deps[n - 1].len() == 0);
    }
}

proof fn lemma_line_of_free(agents: Seq<Seq<char>>, deps: Seq<Seq<Seq<char>>>, k: nat)
    requires
        deps.len() == agents.len(),
        forall|i: int| 0 <= i < deps.len() ==> (#[trigger] deps[i]).len() == 0,
    ensures
        line(agents, deps, k) == free(agents, deps, agents.len() as int),
    decreases k,
{
    if k > 0 {
        lemma_line_of_free(agents, deps, (k - 1) as nat);
        let before = line(agents, deps, (k - 1) as nat);
        lemma_none_joins(agents, deps, before.take(k as int), agents.len() as int);
        assert(before + Seq::<Seq<char>>::empty() =~= before);
    }
}

proof fn lemma_among(names: Seq<Seq<char>>, members: Seq<Seq<char>>)
    ensures
        forall|x: Seq<char>| #[trigger] among(names, members).contains(x) <==> names.contains(x) && members.contains(x),
    decreases names.len(),
{
    let r = among(names, members);
    if names.len() > 0 {
        let rest = names.drop_last();
        let y = names.last();
        lemma_among(rest, members);
        assert(rest.push(y) =~= names);
        assert forall|x: Seq<char>| #[trigger] r.contains(x) <==> names.contains(x) && members.contains(x) by {
            lemma_push_contains(rest, y, x);
            lemma_push_contains(among(rest, members), y, x);
        }
    }
}

proof fn lemma_once(names: Seq<Seq<char>>)
    ensures
        once(names).no_duplicates(),
        forall|x: Seq<char>| #[trigger] once(names).contains(x) <==> names.contains(x),
    decreases names.len(),
{
    if names.len() > 0 {
        let rest = names.drop_last();
        let y = names.last();
        lemma_once(rest);
        assert(rest.push(y) =~= names);
        if !once(rest).contains(y) {
            lemma_push_distinct(once(rest), y);
        }
        assert forall|x: Seq<char>| #[trigger] once(names).contains(x) <==> names.contains(x) by {
            lemma_push_contains(rest, y, x);
            lemma_push_contains(once(rest), y, x);
        }
    }
}

/// Where no agent is listed twice, the dependencies that the settings give are as
/// they are meant.
pub proof fn law_settings_give_proper_needs(settings: Seq<AgentSettings>, agents: Seq<Seq<char>>)
    requires
        agents.no_duplicates(),
    ensures
        proper(agents, all_needs(settings, agents)),
{
    let deps = all_needs(settings, agents);
    assert forall|i: int| 0 <= i < deps.len() implies (#[trigger] deps[i]).no_duplicates() by {
        lemma_agent_from(settings, agents[i], 0);
        if let Some(p) = agent_from(settings, agents[i], 0) {
            lemma_once(among(views(settings[p].depends_on@), agents));
        }
    }
    assert forall|i: int, x: Seq<char>| 0 <= i < deps.len() && #[trigger] deps[i].contains(x) implies agents.contains(
        x,
    ) by {
        lemma_agent_from(settings, agents[i], 0);
        if let Some(p) = agent_from(settings, agents[i], 0) {
            let named = among(views(settings[p].depends_on@), agents);
            lemma_among(views(settings[p].depends_on@), agents);
            lemma_once(named);
            assert(once(named).contains(x));
            assert(named.contains(x));
        }
    }
}

} // verus!
