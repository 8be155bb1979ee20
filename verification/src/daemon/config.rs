//! The settings of a daemon, as far as its rules read them.
use vstd::prelude::*;

use crate::text::same;

verus! {

/// What an agent does.
#[derive(Debug, Clone, Copy, PartialEq, Eq, Structural)]
pub enum AgentRole {
    /// Works on its own.
    Solo,
    /// Hands work to workers.
    Coordinator,
    /// Is started by its coordinator alone.
    Worker,
}

/// An agent.
#[derive(Debug)]
pub struct AgentSettings {
    pub id: String,
    pub name: String,
    pub provider: String,
    /// The model; empty means the provider's.
    pub model: String,
    pub role: AgentRole,
    /// The agents whose work this one needs.
    pub depends_on: Vec<String>,
    pub system_prompt: Option<String>,
    pub tools: Vec<String>,
    /// The tokens that one run may use.
    pub token_budget: Option<usize>,
    /// The signal at which it is activated, as the bits of a number.
    pub activation_threshold: Option<u32>,
    /// How fast its signal fades, as the bits of a number.
    pub activation_decay: Option<u32>,
}

/// A workflow.
#[derive(Debug)]
pub struct WorkflowSettings {
    pub id: String,
    pub agents: Vec<String>,
    pub entry_point: Option<String>,
    pub htn_methods_file: Option<String>,
}

/// A provider that is reached with a key.
#[derive(Debug)]
pub struct KeyedProvider {
    pub api_key: String,
    /// The provider that is asked where this one is overloaded.
    pub fallback: Option<String>,
}

/// A local provider.
#[derive(Debug)]
pub struct OllamaSettings {
    pub base_url: String,
    pub model: Option<String>,
}

/// The providers.
#[derive(Debug)]
pub struct ProviderSettings {
    pub openai: Option<KeyedProvider>,
    pub openrouter: Option<KeyedProvider>,
    pub anthropic: Option<KeyedProvider>,
    /// The model that Anthropic is registered with, as configured: there is no
    /// default here. Agents name their own.
    pub anthropic_model: String,
    pub gemini: Option<KeyedProvider>,
    pub mistral: Option<KeyedProvider>,
    pub ollama: Option<OllamaSettings>,
}

/// A tool server.
#[derive(Debug)]
pub struct McpServer {
    pub name: String,
    pub transport: String,
    pub command: Option<String>,
    pub args: Vec<String>,
    pub url: Option<String>,
    pub headers: Vec<(String, String)>,
}

/// How sandboxes are started.
#[derive(Debug)]
pub struct SandboxSettings {
    pub allow_post_create_command: bool,
    pub allow_untrusted_images: bool,
    pub network: String,
    pub require_resource_limits: bool,
}

/// The settings of a daemon.
#[derive(Debug)]
pub struct AxocoatlConfig {
    pub agents: Vec<AgentSettings>,
    pub workflows: Vec<WorkflowSettings>,
    pub providers: ProviderSettings,
    pub mcp_servers: Vec<McpServer>,
    pub sandbox: SandboxSettings,
    /// The skills that sessions may use.
    pub skills: Vec<String>,
    /// Whether a provider of web searches is configured.
    pub web_search: bool,
}

/// The position of the first agent with an id, from `i` on.
pub open spec fn agent_from(agents: Seq<AgentSettings>, id: Seq<char>, i: int) -> Option<int>
    decreases agents.len() - i,
{
    if i < 0 || i >= agents.len() {
        None
    } else if agents[i].id@ == id {
        Some(i)
    } else {
        agent_from(agents, id, i + 1)
    }
}

/// The position of the first workflow with an id, from `i` on.
pub open spec fn workflow_from(workflows: Seq<WorkflowSettings>, id: Seq<char>, i: int) -> Option<int>
    decreases workflows.len() - i,
{
    if i < 0 || i >= workflows.len() {
        None
    } else if workflows[i].id@ == id {
        Some(i)
    } else {
        workflow_from(workflows, id, i + 1)
    }
}

pub proof fn lemma_agent_from(agents: Seq<AgentSettings>, id: Seq<char>, i: int)
    requires
        0 <= i,
    ensures
        match agent_from(agents, id, i) {
            Some(p) => i <= p < agents.len() && agents[p].id@ == id,
            None => forall|k: int| i <= k < agents.len() ==> (#[trigger] agents[k]).id@ != id,
        },
    decreases agents.len() - i,
{
    if i < agents.len() && agents[i].id@ != id {
        lemma_agent_from(agents, id, i + 1);
    }
}

/// The first agent with an id.
pub fn find_agent(agents: &Vec<AgentSettings>, id: &str) -> (r: Option<usize>)
    ensures
        match r {
            Some(i) => i < agents@.len() && agent_from(agents@, id@, 0) == Some(i as int),
            None => agent_from(agents@, id@, 0) is None,
        },
{
    let mut i: usize = 0;
    while i < agents.len()
        invariant
            i <= agents@.len(),
            agent_from(agents@, id@, 0) == agent_from(agents@, id@, i as int),
        decreases agents@.len() - i,
    {
        if same(agents[i].id.as_str(), id) {
            return Some(i);
        }
        i += 1;
    }
    None
}

/// The first workflow with an id.
pub fn find_workflow(workflows: &Vec<WorkflowSettings>, id: &str) -> (r: Option<usize>)
    ensures
        match r {
            Some(i) => i < workflows@.len() && workflow_from(workflows@, id@, 0) == Some(i as int),
            None => workflow_from(workflows@, id@, 0) is None,
        },
{
    let mut i: usize = 0;
    while i < workflows.len()
        invariant
            i <= workflows@.len(),
            workflow_from(workflows@, id@, 0) == workflow_from(workflows@, id@, i as int),
        decreases workflows@.len() - i,
    {
        if same(workflows[i].id.as_str(), id) {
            return Some(i);
        }
        i += 1;
    }
    None
}

} // verus!
