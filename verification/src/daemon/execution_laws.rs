//! What holds of every run of an automation.
use vstd::prelude::*;

use crate::daemon::automation::{EdgeV, KindV, NodeV, node_of};
use crate::daemon::automation_executor::{DaemonErrorV, chosen_branch, law_put_then_read, lemma_key_from, put, resolved,
    value_of};
use crate::daemon::execution::{AskV, EffectV, ExecV, PhaseV, PlanV, ReplyV, activated, answer, fresh, lemma_activated,
    node_step, should_run, step};

verus! {

/// The run after an accepted answer.
pub open spec fn after(plan: PlanV, st: ExecV, reply: ReplyV, now: u64) -> ExecV {
    match answer(plan, st, reply, now) {
        Some(p) => p.0,
        None => st,
    }
}

/// The node stands before position `n` of the order.
pub open spec fn visited(plan: PlanV, n: int, id: Seq<char>) -> bool {
    exists|k: int| 0 <= k < n && k < plan.order.len() && #[trigger] plan.order[k] == id
}

/// The pair is an edge of the automation.
pub open spec fn is_edge(plan: PlanV, p: (Seq<char>, Seq<char>)) -> bool {
    exists|i: int| 0 <= i < plan.edges.len() && p == ((#[trigger] plan.edges[i]).from, plan.edges[i].to)
}

/// Only edges of the automation that leave visited nodes are active, only
/// visited nodes have outputs, and no more steps count than nodes were visited.
pub open spec fn consistent(plan: PlanV, st: ExecV) -> bool {
    &&& 0 <= st.pos <= plan.order.len()
    &&& 0 <= st.step_idx <= st.pos
    &&& !(st.phase is Ready) ==> st.pos < plan.order.len()
    &&& forall|p: (Seq<char>, Seq<char>)| #[trigger]
        st.active.contains(p) ==> is_edge(plan, p) && visited(plan, st.pos, p.0)
    &&& forall|i: int| 0 <= i < st.outputs.len() ==> visited(plan, st.pos, (#[trigger] st.outputs[i]).0)
}

/// A run starts consistent.
pub proof fn law_fresh_run_is_consistent(plan: PlanV)
    ensures
        consistent(plan, fresh()),
{
}

proof fn lemma_visited_grows(plan: PlanV, n: int, m: int, id: Seq<char>)
    requires
        visited(plan, n, id),
        n <= m,
    ensures
        visited(plan, m, id),
{
    let k = choose|k: int| 0 <= k < n && k < plan.order.len() && #[trigger] plan.order[k] == id;
    assert(plan.order[k] == id);
}

proof fn lemma_activated_consistent(plan: PlanV, st: ExecV, label: Option<Seq<char>>)
    requires
        consistent(plan, st),
        st.pos < plan.order.len(),
    ensures
        ({
            let id = plan.order[st.pos];
            forall|p: (Seq<char>, Seq<char>)| #[trigger]
                activated(plan.edges, id, label, st.active).contains(p) ==> is_edge(plan, p) && visited(
                    plan,
                    st.pos + 1,
                    p.0,
                )
        }),
{
    let id = plan.order[st.pos];
    assert(visited(plan, st.pos + 1, id)) by {
        assert(plan.order[st.pos] == id);
    }
    assert forall|p: (Seq<char>, Seq<char>)| #[trigger]
        activated(plan.edges, id, label, st.active).contains(p) implies is_edge(plan, p) && visited(
        plan,
        st.pos + 1,
        p.0,
    ) by {
        lemma_activated(plan.edges, id, label, st.active, p);
        if st.active.contains(p) {
            lemma_visited_grows(plan, st.pos, st.pos + 1, p.0);
        }
    }
}

proof fn lemma_put_consistent(plan: PlanV, st: ExecV, v: Seq<char>)
    requires
        consistent(plan, st),
        st.pos < plan.order.len(),
    ensures
        ({
            let o = put(st.outputs, plan.order[st.pos], v);
            forall|i: int| 0 <= i < o.len() ==> visited(plan, st.pos + 1, (#[trigger] o[i]).0)
        }),
{
    let id = plan.order[st.pos];
    let o = put(st.outputs, id, v);
    assert(visited(plan, st.pos + 1, id)) by {
        assert(plan.order[st.pos] == id);
    }
    lemma_key_from(st.outputs, id, 0);
    assert forall|i: int| 0 <= i < o.len() implies visited(plan, st.pos + 1, (#[trigger] o[i]).0) by {
        if o[i].0 != id {
            assert(o[i] == st.outputs[i]);
            lemma_visited_grows(plan, st.pos, st.pos + 1, o[i].0);
        }
    }
}

proof fn lemma_outputs_grow(plan: PlanV, st: ExecV)
    requires
        consistent(plan, st),
    ensures
        forall|i: int| 0 <= i < st.outputs.len() ==> visited(plan, st.pos + 1, (#[trigger] st.outputs[i]).0),
        forall|p: (Seq<char>, Seq<char>)| #[trigger]
            st.active.contains(p) ==> is_edge(plan, p) && visited(plan, st.pos + 1, p.0),
{
    assert forall|i: int| 0 <= i < st.outputs.len() implies visited(plan, st.pos + 1, (#[trigger] st.outputs[i]).0) by {
        lemma_visited_grows(plan, st.pos, st.pos + 1, st.outputs[i].0);
    }
    assert forall|p: (Seq<char>, Seq<char>)| #[trigger] st.active.contains(p) implies is_edge(plan, p) && visited(
        plan,
        st.pos + 1,
        p.0,
    ) by {
        lemma_visited_grows(plan, st.pos, st.pos + 1, p.0);
    }
}

/// Every step keeps a run consistent.
pub proof fn law_step_keeps_consistent(plan: PlanV, st: ExecV, now: u64)
    requires
        consistent(plan, st),
    ensures
        consistent(plan, step(plan, st, now).0),
{
    if st.pos < plan.order.len() {
        let id = plan.order[st.pos];
        let next = step(plan, st, now).0;
        lemma_activated_consistent(plan, st, None);
        lemma_outputs_grow(plan, st);
        if next.outputs != st.outputs {
            let v = value_of(next.outputs, id)->0;
            match st.phase {
                PhaseV::Ready => {
                    let node = node_of(plan.nodes, id)->0;
                    let input = resolved(node.kind, plan.trigger, st.outputs, None);
                    match node.kind {
                        KindV::Conditional(_, branches, default) => {
                            match chosen_branch(input, branches, default) {
                                Some(b) => {
                                    lemma_put_consistent(plan, st, b);
                                    lemma_activated_consistent(plan, st, Some(b));
                                },
                                None => {
                                    lemma_put_consistent(plan, st, Seq::empty());
                                },
                            }
                        },
                        KindV::TextInput(default) => {
                            lemma_put_consistent(plan, st, crate::daemon::execution::entered(plan, id, default));
                        },
                        _ => {},
                    }
                },
                PhaseV::Mapping(body, items, collected, waiting) => {
                    lemma_put_consistent(
                        plan,
                        st,
                        crate::json::rendered(
                            crate::json::JsonV::Array(crate::llm::wire::text_values(collected)),
                        ),
                    );
                },
                _ => {},
            }
        } else {
            match st.phase {
                PhaseV::Ready => {
                    let node = node_of(plan.nodes, id)->0;
                    let input = resolved(node.kind, plan.trigger, st.outputs, None);
                    if let KindV::Conditional(_, branches, default) = node.kind {
                        if let Some(b) = chosen_branch(input, branches, default) {
                            lemma_activated_consistent(plan, st, Some(b));
                        }
                    }
                },
                _ => {},
            }
        }
    }
}

/// Every accepted answer keeps a run consistent.
pub proof fn law_answer_keeps_consistent(plan: PlanV, st: ExecV, reply: ReplyV, now: u64)
    requires
        consistent(plan, st),
        answer(plan, st, reply, now) is Some,
    ensures
        consistent(plan, after(plan, st, reply, now)),
{
    let id = plan.order[st.pos];
    lemma_activated_consistent(plan, st, None);
    match (st.phase, reply) {
        (PhaseV::Agent(a), ReplyV::Agent(Ok(o))) => {
            lemma_put_consistent(plan, st, o.content);
        },
        (_, ReplyV::Text(Ok(t))) => {
            lemma_put_consistent(plan, st, t);
        },
        (PhaseV::Operator(input, strategy), ReplyV::Resume(t)) => {
            lemma_put_consistent(plan, st, t);
            lemma_put_consistent(plan, st, input + "\n\n"@ + t);
        },
        _ => {
            lemma_put_consistent(plan, st, Seq::empty());
        },
    }
}

/// A node that runs is a root or has an active incoming edge: any other node is
/// passed over and leaves no trace.
pub proof fn law_unreached_nodes_are_skipped(plan: PlanV, st: ExecV, now: u64)
    requires
        st.phase is Ready,
        0 <= st.pos < plan.order.len(),
        !should_run(plan.nodes, plan.edges, st.active, plan.order[st.pos]),
    ensures
        step(plan, st, now) == (ExecV { pos: st.pos + 1, ..st }, Seq::<EffectV>::empty(), AskV::GoOn),
{
    assert(step(plan, st, now).0 == ExecV { pos: st.pos + 1, ..st });
}

/// A conditional node makes exactly those of its outgoing edges active that
/// carry the label of the branch it chose; without a branch, none.
pub proof fn law_branch_opens_only_its_label(plan: PlanV, st: ExecV, node: NodeV, now: u64, edge: EdgeV)
    requires
        node.kind is Conditional,
        0 <= st.pos < plan.order.len(),
        plan.edges.contains(edge),
        edge.from == plan.order[st.pos],
        !st.active.contains((edge.from, edge.to)),
        forall|i: int, j: int|
            0 <= i < plan.edges.len() && 0 <= j < plan.edges.len() && (#[trigger] plan.edges[i]).from == (
            #[trigger] plan.edges[j]).from && plan.edges[i].to == plan.edges[j].to ==> i == j,
    ensures
        ({
            let chosen = chosen_branch(
                resolved(node.kind, plan.trigger, st.outputs, None),
                node.kind->Conditional_1,
                node.kind->Conditional_2,
            );
            node_step(plan, st, node, now).0.active.contains((edge.from, edge.to)) <==> chosen is Some && edge.label
                == chosen
        }),
{
    let chosen = chosen_branch(
        resolved(node.kind, plan.trigger, st.outputs, None),
        node.kind->Conditional_1,
        node.kind->Conditional_2,
    );
    let k = choose|k: int| 0 <= k < plan.edges.len() && plan.edges[k] == edge;
    assert(plan.edges[k] == edge);
    if let Some(b) = chosen {
        lemma_activated(plan.edges, plan.order[st.pos], Some(b), st.active, (edge.from, edge.to));
    }
}

/// A node that failed still opens all its outgoing edges, so that a later node
/// can handle the failure.
pub proof fn law_failure_opens_all_edges(plan: PlanV, st: ExecV, e: DaemonErrorV, now: u64, edge: EdgeV)
    requires
        st.phase is Agent || st.phase is Tool || st.phase is Subgraph,
        plan.edges.contains(edge),
        edge.from == plan.order[st.pos],
    ensures
        ({
            let reply = if st.phase is Agent {
                ReplyV::Agent(Err(e))
            } else {
                ReplyV::Text(Err(e))
            };
            let next = after(plan, st, reply, now);
            &&& answer(plan, st, reply, now) is Some
            &&& next.active.contains((edge.from, edge.to))
            &&& value_of(next.outputs, edge.from) == Some(Seq::<char>::empty())
            &&& next.failed.len() == st.failed.len() + 1
            &&& next.failed.last().1 == e
        }),
{
    let k = choose|k: int| 0 <= k < plan.edges.len() && plan.edges[k] == edge;
    assert(plan.edges[k] == edge);
    lemma_activated(plan.edges, plan.order[st.pos], None, st.active, (edge.from, edge.to));
    law_put_then_read(st.outputs, edge.from, Seq::empty(), edge.from.push('x'));
}

/// An answered question gives the node the operator's text where it replaces
/// the message; a cancelled one gives it an empty output.
pub proof fn law_operator_decides_the_output(plan: PlanV, st: ExecV, t: Seq<char>, now: u64)
    requires
        st.phase is Operator,
    ensures
        ({
            let id = plan.order[st.pos];
            let resumed = answer(plan, st, ReplyV::Resume(t), now);
            let cancelled = answer(plan, st, ReplyV::Cancel, now);
            &&& resumed is Some
            &&& cancelled is Some
            &&& st.phase->Operator_1 == crate::daemon::automation::ResumeStrategy::Replace ==> value_of(
                after(plan, st, ReplyV::Resume(t), now).outputs,
                id,
            ) == Some(t)
            &&& st.phase->Operator_1 == crate::daemon::automation::ResumeStrategy::Append ==> value_of(
                after(plan, st, ReplyV::Resume(t), now).outputs,
                id,
            ) == Some(st.phase->Operator_0 + "\n\n"@ + t)
            &&& value_of(after(plan, st, ReplyV::Cancel, now).outputs, id) == Some(Seq::<char>::empty())
        }),
{
    let id = plan.order[st.pos];
    law_put_then_read(st.outputs, id, t, id.push('x'));
    law_put_then_read(st.outputs, id, st.phase->Operator_0 + "\n\n"@ + t, id.push('x'));
    law_put_then_read(st.outputs, id, Seq::empty(), id.push('x'));
}

/// Whether the phase is one that has not asked yet.
pub open spec fn readiness(st: ExecV) -> int {
    if st.phase is Ready {
        1
    } else {
        0
    }
}

/// How much of a map is left.
pub open spec fn map_left(st: ExecV) -> int {
    match st.phase {
        PhaseV::Mapping(_, items, collected, waiting) => 2 * (items.len() - collected.len()) + (if waiting {
            0int
        } else {
            1int
        }),
        _ => 0,
    }
}

/// Of two states of a run the second is further.
pub open spec fn further(a: ExecV, b: ExecV) -> bool {
    ||| a.pos < b.pos
    ||| a.pos == b.pos && readiness(b) < readiness(a)
    ||| a.pos == b.pos && readiness(b) == readiness(a) && map_left(b) < map_left(a)
}

/// A map has no more results than items.
pub open spec fn map_fits(st: ExecV) -> bool {
    match st.phase {
        PhaseV::Mapping(_, items, collected, waiting) => collected.len() <= items.len() && (waiting ==> collected.len()
            < items.len()),
        _ => true,
    }
}

/// Every step that is not the end or a wait, and every accepted answer, brings a
/// run further; so a run ends.
pub proof fn law_run_makes_progress(plan: PlanV, st: ExecV, reply: ReplyV, now: u64)
    requires
        consistent(plan, st),
        map_fits(st),
    ensures
        map_fits(step(plan, st, now).0),
        !(step(plan, st, now).2 is Finished || step(plan, st, now).2 is Waiting) ==> further(
            st,
            step(plan, st, now).0,
        ),
        answer(plan, st, reply, now) is Some ==> further(st, after(plan, st, reply, now)) && map_fits(
            after(plan, st, reply, now),
        ),
{
}

/// A run asks for another automation only one level deeper than itself.
pub proof fn law_nesting_grows_by_one(plan: PlanV, st: ExecV, now: u64)
    ensures
        step(plan, st, now).2 is Subgraph ==> step(plan, st, now).2->Subgraph_2 == plan.depth + 1,
{
}

} // verus!
