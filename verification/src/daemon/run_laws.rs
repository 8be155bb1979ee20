//! What the nodes of a run are asked with, and what becomes of the answers.
use vstd::prelude::*;

use crate::daemon::automation::{ConditionalBranch, EdgeV, InputV, KindV, NodeV, ResumeStrategy, is_body, node_of};
use crate::daemon::automation_executor::{DaemonErrorV, chosen_branch, branch_from, law_put_then_read, list_items, resolved,
    value_of};
use crate::daemon::automation_runs::CheckpointEvent;
use crate::daemon::execution::{AgentOutputV, AskV, EffectV, ExecV, PhaseV, PlanV, ReplyV, answer, excerpt,
    flat_edges, lemma_activated, outcome, should_run, step};
use crate::daemon::execution_laws::after;
use crate::json::{JsonV, parsed, rendered};

verus! {

// ---------------------------------------------------------------------------
// Maps
// ---------------------------------------------------------------------------

/// The text of an answer; that of a failure is empty.
pub open spec fn said(reply: ReplyV) -> Seq<char> {
    match reply {
        ReplyV::Agent(Ok(o)) => o.content,
        ReplyV::Text(Ok(t)) => t,
        ReplyV::Resume(t) => t,
        _ => Seq::empty(),
    }
}

/// The answer is of the sort that a node of this kind waits for.
pub open spec fn fits(kind: KindV, reply: ReplyV) -> bool {
    match kind {
        KindV::Agent(_, _) => reply is Agent,
        KindV::Tool(_, _) => reply is Text,
        KindV::Subgraph(_, _) => reply is Text,
        _ => false,
    }
}

/// The run after its next steps were each answered in turn.
pub open spec fn answered(plan: PlanV, st: ExecV, replies: Seq<ReplyV>, now: u64) -> ExecV
    decreases replies.len(),
{
    if replies.len() == 0 {
        st
    } else {
        let earlier = answered(plan, st, replies.drop_last(), now);
        after(plan, step(plan, earlier, now).0, replies.last(), now)
    }
}

proof fn lemma_map_collects(plan: PlanV, st: ExecV, body: Seq<char>, items: Seq<Seq<char>>, replies: Seq<ReplyV>, now: u64)
    requires
        st.phase == PhaseV::Mapping(body, items, Seq::empty(), false),
        replies.len() <= items.len(),
        node_of(plan.nodes, body) is Some,
        forall|i: int| 0 <= i < replies.len() ==> fits(node_of(plan.nodes, body)->0.kind, #[trigger] replies[i]),
    ensures
        ({
            let m = answered(plan, st, replies, now);
            &&& m.phase matches PhaseV::Mapping(b, all, got, waiting)
            &&& b == body && all == items && !waiting
            &&& got.len() == replies.len()
            &&& forall|i: int| 0 <= i < replies.len() ==> #[trigger] got[i] == said(replies[i])
            &&& m.pos == st.pos
            &&& m.outputs == st.outputs
            &&& m.active == st.active
            &&& m.step_idx == st.step_idx
            &&& m.agent_outputs == st.agent_outputs
        }),
    decreases replies.len(),
{
    if replies.len() > 0 {
        let before = replies.drop_last();
        assert forall|i: int| 0 <= i < before.len() implies fits(node_of(plan.nodes, body)->0.kind, #[trigger] before[i]) by {
            assert(before[i] == replies[i]);
        }
        lemma_map_collects(plan, st, body, items, before, now);
        let earlier = answered(plan, st, before, now);
        let got = earlier.phase->Mapping_2;
        let asked = step(plan, earlier, now).0;
        assert(fits(node_of(plan.nodes, body)->0.kind, replies[replies.len() - 1]));
        assert(asked.phase == PhaseV::Mapping(body, items, got, true));
        let m = answered(plan, st, replies, now);
        assert(m.phase->Mapping_2 =~= got.push(said(replies.last())));
        assert forall|i: int| 0 <= i < replies.len() implies #[trigger] m.phase->Mapping_2[i] == said(replies[i]) by {
            if i < before.len() {
                assert(before[i] == replies[i]);
                assert(got[i] == said(before[i]));
            }
        }
    }
}

/// A map asks its body once for each item, in order, with the item where the body
/// takes it as its input, and is over after as many answers as there are items. Its
/// output then writes a JSON list with one text for each item, which is the text
/// that the body answered for that item, or an empty one where the body failed.
pub proof fn law_map_output_is_what_its_body_answered(
    plan: PlanV,
    st: ExecV,
    input: InputV,
    body: Seq<char>,
    items: Seq<Seq<char>>,
    replies: Seq<ReplyV>,
    now: u64,
)
    requires
        st.phase is Ready,
        0 <= st.pos < plan.order.len(),
        should_run(plan.nodes, plan.edges, st.active, plan.order[st.pos]),
        node_of(plan.nodes, plan.order[st.pos])->0.kind == KindV::Mapping(input, body),
        items == list_items(resolved(KindV::Mapping(input, body), plan.trigger, st.outputs, None)),
        node_of(plan.nodes, body) is Some,
        replies.len() == items.len(),
        forall|i: int| 0 <= i < replies.len() ==> fits(node_of(plan.nodes, body)->0.kind, #[trigger] replies[i]),
    ensures
        ({
            let id = plan.order[st.pos];
            let begun = step(plan, st, now).0;
            let ended = step(plan, answered(plan, begun, replies, now), now).0;
            &&& forall|i: int|
                0 <= i < items.len() ==> match node_of(plan.nodes, body)->0.kind {
                    KindV::Agent(agent, InputV::FromMapItem) => {
                        let ask = step(plan, #[trigger] answered(plan, begun, replies.take(i), now), now).2;
                        ask is Agent && ask->Agent_0 == agent && ask->Agent_1 == items[i]
                    },
                    KindV::Subgraph(other, InputV::FromMapItem) => {
                        let ask = step(plan, answered(plan, begun, replies.take(i), now), now).2;
                        ask is Subgraph && ask->Subgraph_0 == other && ask->Subgraph_1 == items[i]
                    },
                    _ => true,
                }
            &&& ended.phase is Ready
            &&& ended.pos == st.pos + 1
            &&& exists|list: Seq<JsonV>|
                value_of(ended.outputs, id) == Some(#[trigger] rendered(JsonV::Array(list))) && list.len()
                    == items.len() && forall|i: int|
                    0 <= i < items.len() ==> (#[trigger] list[i]) == JsonV::Text(said(replies[i]))
            &&& forall|other: Seq<char>|
                other != id ==> #[trigger] value_of(ended.outputs, other) == value_of(st.outputs, other)
        }),
{
    let id = plan.order[st.pos];
    let begun = step(plan, st, now).0;
    assert(begun.phase == PhaseV::Mapping(body, items, Seq::empty(), false));
    assert forall|i: int| 0 <= i < items.len() implies match node_of(plan.nodes, body)->0.kind {
        KindV::Agent(agent, InputV::FromMapItem) => {
            let ask = step(plan, #[trigger] answered(plan, begun, replies.take(i), now), now).2;
            ask is Agent && ask->Agent_0 == agent && ask->Agent_1 == items[i]
        },
        KindV::Subgraph(other, InputV::FromMapItem) => {
            let ask = step(plan, answered(plan, begun, replies.take(i), now), now).2;
            ask is Subgraph && ask->Subgraph_0 == other && ask->Subgraph_1 == items[i]
        },
        _ => true,
    } by {
        let some = replies.take(i);
        assert forall|j: int| 0 <= j < some.len() implies fits(node_of(plan.nodes, body)->0.kind, #[trigger] some[j]) by {
            assert(some[j] == replies[j]);
        }
        lemma_map_collects(plan, begun, body, items, some, now);
    }
    lemma_map_collects(plan, begun, body, items, replies, now);
    let all = answered(plan, begun, replies, now);
    let got = all.phase->Mapping_2;
    let ended = step(plan, all, now).0;
    let list = Seq::new(items.len(), |i: int| JsonV::Text(said(replies[i])));
    assert(list =~= crate::llm::wire::text_values(got)) by {
        assert forall|i: int| 0 <= i < list.len() implies list[i] == crate::llm::wire::text_values(got)[i] by {
            assert(got[i] == said(replies[i]));
        }
    }
    law_put_then_read(st.outputs, id, rendered(JsonV::Array(list)), id.push('x'));
    assert(value_of(ended.outputs, id) == Some(rendered(JsonV::Array(list))));
    assert forall|other: Seq<char>| other != id implies #[trigger] value_of(ended.outputs, other) == value_of(
        st.outputs,
        other,
    ) by {
        law_put_then_read(st.outputs, id, rendered(JsonV::Array(list)), other);
    }
}

// ---------------------------------------------------------------------------
// Inputs and answers
// ---------------------------------------------------------------------------

/// An agent, another automation and an operator are asked with the run's input, a
/// fixed text, or what a node before them gave, as the node says; the agent and the
/// automation are those that the node names. A tool gets the same text, read as JSON
/// where it is JSON and as the member `input` where it is not.
pub proof fn law_nodes_are_asked_with_their_input(plan: PlanV, st: ExecV, input: InputV, before: Seq<char>, now: u64)
    requires
        st.phase is Ready,
        0 <= st.pos < plan.order.len(),
        should_run(plan.nodes, plan.edges, st.active, plan.order[st.pos]),
        value_of(st.outputs, before) is Some,
    ensures
        ({
            let node = node_of(plan.nodes, plan.order[st.pos])->0;
            let ask = step(plan, st, now).2;
            let text = match input {
                InputV::FromTrigger => Some(plan.trigger),
                InputV::Literal(t) => Some(t),
                InputV::FromUpstream(nodes) => if nodes == seq![before] {
                    value_of(st.outputs, before)
                } else {
                    None
                },
                _ => None,
            };
            text is Some ==> match node.kind {
                KindV::Agent(agent, i) => i == input ==> {
                    &&& ask is Agent
                    &&& ask->Agent_0 == agent
                    &&& ask->Agent_1 == text->0
                },
                KindV::Subgraph(other, i) => i == input ==> {
                    &&& ask is Subgraph
                    &&& ask->Subgraph_0 == other
                    &&& ask->Subgraph_1 == text->0
                },
                KindV::Interrupt(i, _) => i == input ==> {
                    &&& ask is Operator
                    &&& ask->Operator_0 == plan.order[st.pos]
                    &&& ask->Operator_1 == text->0
                },
                KindV::Tool(tool, i) => i == input ==> {
                    &&& ask is Tool
                    &&& ask->Tool_0 == tool
                    &&& match parsed(text->0) {
                        Some(v) => ask->Tool_1 == v,
                        None => ask->Tool_1.at_key("input"@) == JsonV::Text(text->0),
                    }
                },
                _ => true,
            }
        }),
{
    let one = seq![before];
    let v = value_of(st.outputs, before)->0;
    assert(one.drop_last() =~= Seq::<Seq<char>>::empty());
    let named = crate::daemon::automation_executor::named_outputs(one, st.outputs);
    assert(crate::daemon::automation_executor::named_outputs(one.drop_last(), st.outputs) =~= Seq::<Seq<char>>::empty());
    assert(named =~= seq![v]);
}

/// The nodes whose outputs a node takes are joined in the order in which it names
/// them, with a blank line between neighbours: naming one more adds its output
/// behind the others, and naming one without an output adds nothing.
pub proof fn law_upstream_outputs_are_joined(
    trigger: Seq<char>,
    upstream: Seq<(Seq<char>, Seq<char>)>,
    nodes: Seq<Seq<char>>,
    more: Seq<char>,
    item: Option<Seq<char>>,
    agent: Seq<char>,
)
    ensures
        ({
            let some = resolved(KindV::Agent(agent, InputV::FromUpstream(nodes)), trigger, upstream, item);
            let all = resolved(KindV::Agent(agent, InputV::FromUpstream(nodes.push(more))), trigger, upstream, item);
            match value_of(upstream, more) {
                None => all == some,
                Some(v) => if forall|i: int| 0 <= i < nodes.len() ==> value_of(upstream, #[trigger] nodes[i]) is None {
                    all == v
                } else {
                    all == some + seq!['\n', '\n'] + v
                },
            }
        }),
{
    let w = nodes.push(more);
    assert(w.drop_last() =~= nodes);
    let some = crate::daemon::automation_executor::named_outputs(nodes, upstream);
    lemma_named_outputs(nodes, upstream);
    reveal_strlit("\n\n");
    assert("\n\n"@ =~= seq!['\n', '\n']);
    if let Some(v) = value_of(upstream, more) {
        assert(some.push(v).drop_last() =~= some);
    }
}

proof fn lemma_named_outputs(nodes: Seq<Seq<char>>, upstream: Seq<(Seq<char>, Seq<char>)>)
    ensures
        crate::daemon::automation_executor::named_outputs(nodes, upstream).len() == 0 <==> forall|i: int|
            0 <= i < nodes.len() ==> value_of(upstream, #[trigger] nodes[i]) is None,
    decreases nodes.len(),
{
    if nodes.len() > 0 {
        let rest = nodes.drop_last();
        lemma_named_outputs(rest, upstream);
        if value_of(upstream, nodes.last()) is Some {
            assert(value_of(upstream, nodes[nodes.len() - 1]) is Some);
        } else if forall|i: int| 0 <= i < rest.len() ==> value_of(upstream, #[trigger] rest[i]) is None {
            assert forall|i: int| 0 <= i < nodes.len() implies value_of(upstream, #[trigger] nodes[i]) is None by {
                if i < rest.len() {
                    assert(value_of(upstream, rest[i]) is None);
                }
            }
        } else {
            let i = choose|i: int| 0 <= i < rest.len() && value_of(upstream, #[trigger] rest[i]) is Some;
            assert(value_of(upstream, nodes[i]) is Some);
        }
    }
}

/// The text that an agent, a tool or another automation answers is the output of the
/// node, a failure leaves it empty; either way the outputs of other nodes stay, the
/// edges behind the node open, and the run goes on with the next node. The snapshot
/// that is written holds all this.
pub proof fn law_answers_are_the_outputs(plan: PlanV, st: ExecV, reply: ReplyV, other: Seq<char>, now: u64)
    requires
        st.phase is Agent && reply is Agent || (st.phase is Tool || st.phase is Subgraph) && reply is Text,
        other != plan.order[st.pos],
    ensures
        ({
            let id = plan.order[st.pos];
            let next = after(plan, st, reply, now);
            &&& answer(plan, st, reply, now) is Some
            &&& value_of(next.outputs, id) == Some(said(reply))
            &&& value_of(next.outputs, other) == value_of(st.outputs, other)
            &&& next.phase is Ready
            &&& next.pos == st.pos + 1
            &&& forall|i: int|
                0 <= i < plan.edges.len() && (#[trigger] plan.edges[i]).from == id ==> next.active.contains(
                    (id, plan.edges[i].to),
                )
            &&& exists|c: int|
                0 <= c < told(plan, st, reply, now).len() && saved(
                    #[trigger] told(plan, st, reply, now)[c],
                    id,
                    CheckpointEvent::NodeCompleted,
                    st.step_idx,
                    next,
                    now,
                )
        }),
{
    let id = plan.order[st.pos];
    let next = after(plan, st, reply, now);
    law_put_then_read(st.outputs, id, said(reply), other);
    assert forall|i: int| 0 <= i < plan.edges.len() && (#[trigger] plan.edges[i]).from == id implies next.active.contains(
        (id, plan.edges[i].to),
    ) by {
        lemma_activated(plan.edges, id, None, st.active, (id, plan.edges[i].to));
    }
    let effects = told(plan, st, reply, now);
    assert(saved(effects[effects.len() - 1], id, CheckpointEvent::NodeCompleted, st.step_idx, next, now));
}

/// What is to be recorded of an answer.
pub open spec fn told(plan: PlanV, st: ExecV, reply: ReplyV, now: u64) -> Seq<EffectV> {
    match answer(plan, st, reply, now) {
        Some(p) => p.1,
        None => Seq::empty(),
    }
}

/// The effect writes a snapshot of the run after the node was done.
pub open spec fn saved(e: EffectV, id: Seq<char>, event: CheckpointEvent, step_idx: int, next: ExecV, now: u64) -> bool {
    &&& e is Checkpoint
    &&& e->Checkpoint_0.node_id == id
    &&& e->Checkpoint_0.event == event
    &&& e->Checkpoint_0.step_idx == step_idx
    &&& e->Checkpoint_0.outputs == next.outputs
    &&& e->Checkpoint_0.at_unix == now
}

/// The answers of agents are kept in order with what they used, and the totals grow
/// by what each used as far as a count can grow. No other answer counts.
pub proof fn law_agents_are_counted(plan: PlanV, st: ExecV, o: AgentOutputV, t: Seq<char>, now: u64)
    requires
        st.phase is Agent,
    ensures
        ({
            let agent = st.phase->Agent_0;
            let next = after(plan, st, ReplyV::Agent(Ok(o)), now);
            &&& next.agent_outputs == st.agent_outputs.push((agent, o))
            &&& next.completed.len() == st.completed.len() + 1 && next.completed.last() == agent
            &&& next.failed == st.failed
            &&& st.input_tokens + o.token_usage.input_tokens <= usize::MAX ==> next.input_tokens == st.input_tokens
                + o.token_usage.input_tokens
            &&& st.output_tokens + o.token_usage.output_tokens <= usize::MAX ==> next.output_tokens
                == st.output_tokens + o.token_usage.output_tokens
            &&& st.input_tokens + o.token_usage.input_tokens > usize::MAX ==> next.input_tokens == usize::MAX
            &&& st.output_tokens + o.token_usage.output_tokens > usize::MAX ==> next.output_tokens == usize::MAX
            &&& outcome(plan, next).final_content == o.content
            &&& outcome(plan, next).input_tokens == next.input_tokens
            &&& outcome(plan, next).output_tokens == next.output_tokens
            &&& outcome(plan, next).agent_outputs == next.agent_outputs
            &&& outcome(plan, next).completed == next.completed
            &&& outcome(plan, next).failed == next.failed
            &&& outcome(plan, next).workflow_id == plan.id
        }),
{
}

/// A run in which no agent answered ends with the output that was given last.
pub proof fn law_without_agents_the_last_output_counts(plan: PlanV, st: ExecV, reply: ReplyV, now: u64)
    requires
        (st.phase is Tool || st.phase is Subgraph) && reply is Text,
        st.agent_outputs.len() == 0,
        value_of(st.outputs, plan.order[st.pos]) is None,
    ensures
        outcome(plan, after(plan, st, reply, now)).final_content == said(reply),
{
    crate::daemon::automation_executor::lemma_key_from(st.outputs, plan.order[st.pos], 0);
}

/// A text input gives the operator's text, else its default, else nothing, and the
/// run goes on.
pub proof fn law_text_inputs_give_what_was_entered(plan: PlanV, st: ExecV, default: Option<Seq<char>>, now: u64)
    requires
        st.phase is Ready,
        0 <= st.pos < plan.order.len(),
        should_run(plan.nodes, plan.edges, st.active, plan.order[st.pos]),
        node_of(plan.nodes, plan.order[st.pos])->0.kind == KindV::TextInput(default),
    ensures
        ({
            let id = plan.order[st.pos];
            let next = step(plan, st, now).0;
            &&& next.pos == st.pos + 1
            &&& value_of(plan.text_inputs, id) is Some ==> value_of(next.outputs, id) == value_of(plan.text_inputs, id)
            &&& value_of(plan.text_inputs, id) is None && default is Some ==> value_of(next.outputs, id) == default
            &&& value_of(plan.text_inputs, id) is None && default is None ==> value_of(next.outputs, id) == Some(
                Seq::<char>::empty(),
            )
        }),
{
    let id = plan.order[st.pos];
    let v = crate::daemon::execution::entered(plan, id, default);
    law_put_then_read(st.outputs, id, v, id.push('x'));
}

/// A condition takes the first branch whose text stands in the input, and the
/// default where none does; the name of the branch is the output of the node.
pub proof fn law_first_matching_branch_is_taken(
    plan: PlanV,
    st: ExecV,
    input: Seq<char>,
    branches: Seq<ConditionalBranch>,
    default: Option<Seq<char>>,
    i: int,
    now: u64,
)
    requires
        st.phase is Ready,
        0 <= st.pos < plan.order.len(),
        should_run(plan.nodes, plan.edges, st.active, plan.order[st.pos]),
        node_of(plan.nodes, plan.order[st.pos])->0.kind == KindV::Conditional(InputV::Literal(input), branches, default),
        0 <= i <= branches.len(),
        forall|j: int| 0 <= j < i ==> !holds_text(input, (#[trigger] branches[j]).when->value@),
        i < branches.len() ==> holds_text(input, branches[i].when->value@),
    ensures
        ({
            let taken = if i < branches.len() {
                Some(branches[i].name@)
            } else {
                default
            };
            let next = step(plan, st, now).0;
            &&& chosen_branch(input, branches, default) == taken
            &&& value_of(next.outputs, plan.order[st.pos]) == match taken {
                Some(b) => Some(b),
                None => Some(Seq::<char>::empty()),
            }
        }),
{
    lemma_branch(input, branches, 0, i);
    let id = plan.order[st.pos];
    let taken = if i < branches.len() {
        Some(branches[i].name@)
    } else {
        default
    };
    let v = match taken {
        Some(b) => b,
        None => Seq::empty(),
    };
    law_put_then_read(st.outputs, id, v, id.push('x'));
}

/// The text `p` stands in `s`: what is before it, it, and what is behind it are `s`.
pub open spec fn holds_text(s: Seq<char>, p: Seq<char>) -> bool {
    exists|i: int| 0 <= i && i + p.len() <= s.len() && #[trigger] s.subrange(i, i + p.len()) == p
}

proof fn lemma_holds_text(s: Seq<char>, p: Seq<char>)
    ensures
        holds_text(s, p) == crate::text::contains(s, p),
{
    if holds_text(s, p) {
        let i = choose|i: int| 0 <= i && i + p.len() <= s.len() && #[trigger] s.subrange(i, i + p.len()) == p;
        assert(crate::text::at(s, p, i));
    }
    if crate::text::contains(s, p) {
        let i = choose|i: int| #[trigger] crate::text::at(s, p, i);
        assert(s.subrange(i, i + p.len()) == p);
    }
}

proof fn lemma_branch(input: Seq<char>, branches: Seq<ConditionalBranch>, k: int, i: int)
    requires
        0 <= k <= i <= branches.len(),
        forall|j: int| k <= j < i ==> !holds_text(input, (#[trigger] branches[j]).when->value@),
        i < branches.len() ==> holds_text(input, branches[i].when->value@),
    ensures
        branch_from(input, branches, k) == if i < branches.len() {
            Some(branches[i].name@)
        } else {
            None
        },
    decreases i - k,
{
    if k < branches.len() {
        lemma_holds_text(input, branches[k].when->value@);
        if k < i {
            lemma_branch(input, branches, k + 1, i);
        }
    }
}

/// What watchers see of an output is its beginning, whole where it is short enough.
pub proof fn law_excerpts_are_beginnings(s: Seq<char>)
    ensures
        excerpt(s).len() <= 200,
        s.len() <= 200 ==> excerpt(s) == s,
        s.len() > 200 ==> excerpt(s).len() == 200,
        forall|i: int| 0 <= i < excerpt(s).len() ==> excerpt(s)[i] == s[i],
{
}

/// The events of an agent's run name the automation, the agent and the node; the one
/// at its end holds the beginning of the answer and the tokens.
pub proof fn law_watchers_see_agents(plan: PlanV, st: ExecV, o: AgentOutputV, now: u64)
    requires
        st.phase is Agent,
    ensures
        ({
            let e = told(plan, st, ReplyV::Agent(Ok(o)), now)[0];
            &&& e is Event
            &&& e->Event_0.workflow == plan.id
            &&& e->Event_0.agent == Some(st.phase->Agent_0)
            &&& e->Event_0.task == plan.order[st.pos]
            &&& e->Event_0.tokens == Some(o.total_tokens)
            &&& o.content.len() <= 200 ==> e->Event_0.output == Some(o.content)
        }),
{
}

// ---------------------------------------------------------------------------
// Which nodes run, what fails and what is kept
// ---------------------------------------------------------------------------

/// A node that no edge leads to runs, and so does one that an active edge leads to;
/// one that only other edges lead to does not, nor one that a map runs, nor one
/// that is not there.
pub proof fn law_roots_and_reached_nodes_run(
    nodes: Seq<NodeV>,
    edges: Seq<EdgeV>,
    active: Seq<(Seq<char>, Seq<char>)>,
    id: Seq<char>,
    k: int,
)
    ensures
        node_of(nodes, id) is None ==> !should_run(nodes, edges, active, id),
        0 <= k < nodes.len() ==> (nodes[k].kind matches KindV::Mapping(_, body) ==> body == id ==> !should_run(
            nodes,
            edges,
            active,
            id,
        )),
        node_of(nodes, id) is Some && !is_body(nodes, id) && (forall|i: int|
            0 <= i < edges.len() ==> (#[trigger] edges[i]).to != id) ==> should_run(nodes, edges, active, id),
        node_of(nodes, id) is Some && !is_body(nodes, id) && 0 <= k < edges.len() && edges[k].to == id && active.contains(
            (edges[k].from, id),
        ) ==> should_run(nodes, edges, active, id),
        0 <= k < edges.len() && edges[k].to == id && (forall|from: Seq<char>| !#[trigger] active.contains((from, id)))
            ==> !should_run(nodes, edges, active, id),
{
}

/// A failure is noted last, under what failed and with its error; the node has an
/// empty output, and nothing is completed by it.
pub proof fn law_failures_are_noted(plan: PlanV, st: ExecV, name: Seq<char>, e: DaemonErrorV, now: u64)
    ensures
        st.phase == PhaseV::Agent(name) ==> (answer(plan, st, ReplyV::Agent(Err(e)), now) matches Some(r) && r.0.failed
            == st.failed.push((name, e)) && r.0.completed == st.completed && r.0.agent_outputs == st.agent_outputs),
        st.phase == PhaseV::Tool(name) ==> (answer(plan, st, ReplyV::Text(Err(e)), now) matches Some(r) && r.0.failed
            == st.failed.push(("tool:"@ + name, e)) && r.0.completed == st.completed),
        st.phase == PhaseV::Subgraph(name) ==> (answer(plan, st, ReplyV::Text(Err(e)), now) matches Some(r) && r.0.failed
            == st.failed.push(("subgraph:"@ + name, e)) && r.0.completed == st.completed),
{
}

/// What completes is noted last, under its kind and its name, and nothing fails by
/// it.
pub proof fn law_completions_are_noted(plan: PlanV, st: ExecV, name: Seq<char>, o: AgentOutputV, t: Seq<char>, now: u64)
    ensures
        st.phase == PhaseV::Agent(name) ==> (answer(plan, st, ReplyV::Agent(Ok(o)), now) matches Some(r) && r.0.completed
            == st.completed.push(name) && r.0.failed == st.failed),
        st.phase == PhaseV::Tool(name) ==> (answer(plan, st, ReplyV::Text(Ok(t)), now) matches Some(r) && r.0.completed
            == st.completed.push("tool:"@ + name) && r.0.failed == st.failed),
        st.phase == PhaseV::Subgraph(name) ==> (answer(plan, st, ReplyV::Text(Ok(t)), now) matches Some(r) && r.0.completed
            == st.completed.push("subgraph:"@ + name) && r.0.failed == st.failed),
        st.phase is Operator ==> (answer(plan, st, ReplyV::Resume(t), now) matches Some(r) && r.0.completed
            == st.completed.push("interrupt:"@ + plan.order[st.pos]) && r.0.failed == st.failed),
{
}

proof fn lemma_flat_edges(active: Seq<(Seq<char>, Seq<char>)>, k: int)
    requires
        0 <= k < active.len(),
    ensures
        flat_edges(active).contains(active[k].0 + seq!['→'] + active[k].1),
        flat_edges(active).len() <= active.len(),
    decreases active.len(),
{
    reveal_strlit("→");
    assert("→"@ =~= seq!['→']);
    let rest = flat_edges(active.drop_last());
    let all = flat_edges(active);
    let x = active[k].0 + seq!['→'] + active[k].1;
    if active.len() > 1 {
        lemma_flat_edges(active.drop_last(), 0);
    }
    if k < active.len() - 1 {
        lemma_flat_edges(active.drop_last(), k);
        let j = choose|j: int| 0 <= j < rest.len() && rest[j] == x;
        assert(all[j] == x);
    } else if !rest.contains(x) {
        assert(all[rest.len() as int] == x);
    }
}

proof fn lemma_flat_edge_is_active(active: Seq<(Seq<char>, Seq<char>)>, j: int)
    requires
        0 <= j < flat_edges(active).len(),
    ensures
        exists|k: int|
            0 <= k < active.len() && flat_edges(active)[j] == (#[trigger] active[k]).0 + seq!['→'] + active[k].1,
    decreases active.len(),
{
    reveal_strlit("→");
    assert("→"@ =~= seq!['→']);
    if active.len() > 0 {
        let less = active.drop_last();
        let rest = flat_edges(less);
        if j < rest.len() {
            lemma_flat_edge_is_active(less, j);
            let k = choose|k: int| 0 <= k < less.len() && rest[j] == (#[trigger] less[k]).0 + seq!['→'] + less[k].1;
            assert(active[k] == less[k]);
        } else {
            assert(active[active.len() - 1] == active.last());
        }
    }
}

/// A node that is done is kept in a snapshot: its place, its name, the time, all
/// outputs of the run with its own, and each active edge as its ends with an arrow
/// between them.
pub proof fn law_snapshots_keep_the_run(plan: PlanV, st: ExecV, reply: ReplyV, now: u64, k: int)
    requires
        st.phase is Agent || st.phase is Tool || st.phase is Subgraph || st.phase is Operator,
        answer(plan, st, reply, now) is Some,
    ensures
        ({
            let r = answer(plan, st, reply, now)->Some_0;
            &&& r.0.step_idx == st.step_idx + 1
            &&& r.0.pos == st.pos + 1
            &&& r.1.len() > 0
            &&& r.1.last() matches EffectV::Checkpoint(c) && {
                &&& c.step_idx == st.step_idx
                &&& c.node_id == plan.order[st.pos]
                &&& c.at_unix == now
                &&& c.outputs == r.0.outputs
                &&& st.phase is Operator ==> c.event == CheckpointEvent::InterruptResumed
                &&& !(st.phase is Operator) ==> c.event == CheckpointEvent::NodeCompleted
                &&& 0 <= k < r.0.active.len() ==> c.active_edges.contains(r.0.active[k].0 + seq!['→'] + r.0.active[k].1)
                &&& 0 <= k < c.active_edges.len() ==> exists|m: int|
                    0 <= m < r.0.active.len() && c.active_edges[k] == (#[trigger] r.0.active[m]).0 + seq!['→']
                        + r.0.active[m].1
            }
        }),
{
    let active = answer(plan, st, reply, now)->Some_0.0.active;
    if 0 <= k < active.len() {
        lemma_flat_edges(active, k);
    }
    if 0 <= k < flat_edges(active).len() {
        lemma_flat_edge_is_active(active, k);
    }
}

/// The operator's text takes the place of the input or is added to it, as the node
/// says; watchers see that the run goes on.
pub proof fn law_operators_are_heard(plan: PlanV, st: ExecV, input: Seq<char>, t: Seq<char>, now: u64)
    ensures
        st.phase == PhaseV::Operator(input, ResumeStrategy::Replace) ==> (answer(plan, st, ReplyV::Resume(t), now) matches Some(
            r,
        ) && value_of(r.0.outputs, plan.order[st.pos]) == Some(t)),
        st.phase == PhaseV::Operator(input, ResumeStrategy::Append) ==> (answer(plan, st, ReplyV::Resume(t), now) matches Some(
            r,
        ) && value_of(r.0.outputs, plan.order[st.pos]) == Some(input + "\n\n"@ + t)),
        st.phase is Operator ==> (answer(plan, st, ReplyV::Resume(t), now) matches Some(r) && r.1[0]
            == EffectV::MarkRunning && (r.1[1] matches EffectV::Event(ev) && ev.event_type == "Resumed"@)),
        st.phase is Operator ==> (answer(plan, st, ReplyV::Cancel, now) matches Some(r) && value_of(
            r.0.outputs,
            plan.order[st.pos],
        ) == Some(Seq::<char>::empty()) && r.1[0] == EffectV::MarkRunning && (r.1[1] matches EffectV::Event(ev)
            && ev.event_type == "Cancelled"@)),
{
    let id = plan.order[st.pos];
    let other = id.push('x');
    assert(other.len() != id.len());
    law_put_then_read(st.outputs, id, t, other);
    law_put_then_read(st.outputs, id, input + "\n\n"@ + t, other);
    law_put_then_read(st.outputs, id, Seq::empty(), other);
}

} // verus!
