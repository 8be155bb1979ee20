//! Automations: graphs of nodes that a run walks along their edges.
use vstd::prelude::*;

use crate::json::Json;
use crate::llm::provider::opt_view;
use crate::text::{contains, has, same, views};

verus! {

/// Where a node's input comes from.
#[derive(Debug)]
pub enum NodeInput {
    /// The input of the run.
    FromTrigger,
    Literal { value: String },
    /// The outputs of these nodes, as far as they have any.
    FromUpstream { nodes: Vec<String> },
    /// A text with placeholders for the run's input, the current item and the
    /// outputs of nodes.
    Template { template: String },
    /// The current item of the surrounding map.
    FromMapItem,
}

pub enum InputV {
    FromTrigger,
    Literal(Seq<char>),
    FromUpstream(Seq<Seq<char>>),
    Template(Seq<char>),
    FromMapItem,
}

impl View for NodeInput {
    type V = InputV;

    open spec fn view(&self) -> InputV {
        match *self {
            NodeInput::FromTrigger => InputV::FromTrigger,
            NodeInput::Literal { value } => InputV::Literal(value@),
            NodeInput::FromUpstream { nodes } => InputV::FromUpstream(views(nodes@)),
            NodeInput::Template { template } => InputV::Template(template@),
            NodeInput::FromMapItem => InputV::FromMapItem,
        }
    }
}

/// A test on a node's input.
#[derive(Debug)]
pub enum BranchExpr {
    /// The input holds this text.
    Contains { value: String },
}

impl BranchExpr {
    /// What the test says of an input.
    pub open spec fn accepts(self, input: Seq<char>) -> bool {
        match self {
            BranchExpr::Contains { value } => contains(input, value@),
        }
    }

    /// Whether the input passes the test.
    pub fn matches(&self, input: &str) -> (r: bool)
        ensures
            r == self.accepts(input@),
    {
        match self {
            BranchExpr::Contains { value } => has(input, value.as_str()),
        }
    }
}

/// A named branch and the test that chooses it.
#[derive(Debug)]
pub struct ConditionalBranch {
    pub name: String,
    pub when: BranchExpr,
}

/// What becomes of an operator's answer.
#[derive(Debug, Clone, Copy, PartialEq, Eq, Structural)]
pub enum ResumeStrategy {
    /// It is the node's output.
    Replace,
    /// It follows the message that was shown.
    Append,
}

/// What a node does.
#[derive(Debug)]
pub enum AutomationNodeKind {
    Agent { agent_id: String, input: NodeInput },
    Tool { tool_id: String, input: NodeInput },
    Conditional { input: NodeInput, branches: Vec<ConditionalBranch>, default: Option<String> },
    Mapping { input: NodeInput, body_node: String },
    Subgraph { automation_id: String, input: NodeInput },
    TextInput { default_value: Option<String> },
    Interrupt { input: NodeInput, resume_strategy: ResumeStrategy },
}

pub enum KindV {
    Agent(Seq<char>, InputV),
    Tool(Seq<char>, InputV),
    Conditional(InputV, Seq<ConditionalBranch>, Option<Seq<char>>),
    Mapping(InputV, Seq<char>),
    Subgraph(Seq<char>, InputV),
    TextInput(Option<Seq<char>>),
    Interrupt(InputV, ResumeStrategy),
}

impl View for AutomationNodeKind {
    type V = KindV;

    open spec fn view(&self) -> KindV {
        match *self {
            AutomationNodeKind::Agent { agent_id, input } => KindV::Agent(agent_id@, input@),
            AutomationNodeKind::Tool { tool_id, input } => KindV::Tool(tool_id@, input@),
            AutomationNodeKind::Conditional { input, branches, default } => KindV::Conditional(
                input@,
                branches@,
                opt_view(default),
            ),
            AutomationNodeKind::Mapping { input, body_node } => KindV::Mapping(input@, body_node@),
            AutomationNodeKind::Subgraph { automation_id, input } => KindV::Subgraph(automation_id@, input@),
            AutomationNodeKind::TextInput { default_value } => KindV::TextInput(opt_view(default_value)),
            AutomationNodeKind::Interrupt { input, resume_strategy } => KindV::Interrupt(input@, resume_strategy),
        }
    }
}

/// A node of an automation.
#[derive(Debug)]
pub struct AutomationNode {
    pub id: String,
    pub kind: AutomationNodeKind,
}

pub struct NodeV {
    pub id: Seq<char>,
    pub kind: KindV,
}

impl View for AutomationNode {
    type V = NodeV;

    open spec fn view(&self) -> NodeV {
        NodeV { id: self.id@, kind: self.kind@ }
    }
}

/// An edge between two nodes; a branch chooses the edges with its label.
#[derive(Debug)]
pub struct AutomationEdge {
    pub from: String,
    pub to: String,
    pub label: Option<String>,
}

pub struct EdgeV {
    pub from: Seq<char>,
    pub to: Seq<char>,
    pub label: Option<Seq<char>>,
}

impl View for AutomationEdge {
    type V = EdgeV;

    open spec fn view(&self) -> EdgeV {
        EdgeV { from: self.from@, to: self.to@, label: opt_view(self.label) }
    }
}

/// What starts an automation.
#[derive(Debug)]
pub enum AutomationTrigger {
    Manual,
    /// Any other trigger, as it is written.
    Other(Json),
}

/// An automation.
#[derive(Debug)]
pub struct Automation {
    pub id: String,
    pub name: String,
    pub description: Option<String>,
    pub nodes: Vec<AutomationNode>,
    pub edges: Vec<AutomationEdge>,
    pub trigger: AutomationTrigger,
    pub enabled: bool,
    pub folder: Option<String>,
}

/// The nodes as mathematical values.
pub open spec fn node_views(v: Seq<AutomationNode>) -> Seq<NodeV> {
    v.map_values(|n: AutomationNode| n@)
}

/// The edges as mathematical values.
pub open spec fn edge_views(v: Seq<AutomationEdge>) -> Seq<EdgeV> {
    v.map_values(|e: AutomationEdge| e@)
}

/// The first node with an id, from `i` on.
pub open spec fn node_from(nodes: Seq<NodeV>, id: Seq<char>, i: int) -> Option<NodeV>
    decreases nodes.len() - i,
{
    if i < 0 || i >= nodes.len() {
        None
    } else if nodes[i].id == id {
        Some(nodes[i])
    } else {
        node_from(nodes, id, i + 1)
    }
}

/// The node with an id.
pub open spec fn node_of(nodes: Seq<NodeV>, id: Seq<char>) -> Option<NodeV> {
    node_from(nodes, id, 0)
}

/// The node runs only inside a map.
pub open spec fn is_body(nodes: Seq<NodeV>, id: Seq<char>) -> bool {
    exists|i: int|
        0 <= i < nodes.len() && (#[trigger] nodes[i]).kind is Mapping && nodes[i].kind->Mapping_1 == id
}

impl Automation {
    /// The node with an id.
    pub fn node(&self, id: &str) -> (r: Option<&AutomationNode>)
        ensures
            match r {
                Some(n) => node_of(node_views(self.nodes@), id@) == Some(n@),
                None => node_of(node_views(self.nodes@), id@) is None,
            },
    {
        let mut i: usize = 0;
        while i < self.nodes.len()
            invariant
                i <= self.nodes@.len(),
                node_of(node_views(self.nodes@), id@) == node_from(node_views(self.nodes@), id@, i as int),
            decreases self.nodes@.len() - i,
        {
            if same(self.nodes[i].id.as_str(), id) {
                return Some(&self.nodes[i]);
            }
            i += 1;
        }
        None
    }

    /// Whether a node runs only inside a map.
    pub fn is_map_body(&self, id: &str) -> (r: bool)
        ensures
            r == is_body(node_views(self.nodes@), id@),
    {
        let ghost nodes = node_views(self.nodes@);
        let mut i: usize = 0;
        while i < self.nodes.len()
            invariant
                i <= self.nodes@.len(),
                nodes == node_views(self.nodes@),
                forall|j: int| 0 <= j < i ==> !((#[trigger] nodes[j]).kind is Mapping && nodes[j].kind->Mapping_1 == id@),
            decreases self.nodes@.len() - i,
        {
            proof {
                assert(nodes[i as int] == self.nodes@[i as int]@);
            }
            if let AutomationNodeKind::Mapping { body_node, .. } = &self.nodes[i].kind {
                if same(body_node.as_str(), id) {
                    return true;
                }
            }
            i += 1;
        }
        false
    }
}

} // verus!
