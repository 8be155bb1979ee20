//! What a daemon starts with, as its settings say: providers, tool servers and
//! agents.
use vstd::prelude::*;

use crate::daemon::automation_executor::{DaemonError, DaemonErrorV};
use crate::daemon::config::{AgentRole, AgentSettings, AxocoatlConfig, KeyedProvider, McpServer, ProviderSettings,
    SandboxSettings, WorkflowSettings, agent_from, find_agent};
use crate::isolation::session_sandbox::{SandboxNetwork, SandboxPolicy};
use crate::llm::provider::opt_view;
use crate::session::{ModeV, SessionMode, copy_opt, copy_texts};
use crate::text::{concat, holds, push_text, same, views};

verus! {

// ---------------------------------------------------------------------------
// Providers
// ---------------------------------------------------------------------------

/// The interface that a provider is spoken to with.
#[derive(Debug, Clone, Copy, PartialEq, Eq, Structural)]
pub enum ProviderKind {
    OpenAi,
    Anthropic,
    Gemini,
    Mistral,
}

/// A provider that is made at startup.
#[derive(Debug)]
pub struct Registration {
    pub kind: ProviderKind,
    /// The name that agents choose it by.
    pub id: String,
    pub api_key: String,
    /// The model where an agent names none.
    pub model: String,
    /// Where it is reached, if not at the usual place.
    pub base_url: Option<String>,
    pub fallback: Option<String>,
}

pub struct RegistrationV {
    pub kind: ProviderKind,
    pub id: Seq<char>,
    pub api_key: Seq<char>,
    pub model: Seq<char>,
    pub base_url: Option<Seq<char>>,
    pub fallback: Option<Seq<char>>,
}

impl View for Registration {
    type V = RegistrationV;

    open spec fn view(&self) -> RegistrationV {
        RegistrationV {
            kind: self.kind,
            id: self.id@,
            api_key: self.api_key@,
            model: self.model@,
            base_url: opt_view(self.base_url),
            fallback: opt_view(self.fallback),
        }
    }
}

pub open spec fn registration_views(v: Seq<Registration>) -> Seq<RegistrationV> {
    v.map_values(|r: Registration| r@)
}

/// The registration of a provider whose key is set; none of another.
pub open spec fn registered(
    p: Option<KeyedProvider>,
    kind: ProviderKind,
    id: Seq<char>,
    model: Seq<char>,
    base_url: Option<Seq<char>>,
    with_fallback: bool,
) -> Seq<RegistrationV> {
    match p {
        Some(k) => if k.api_key@.len() > 0 {
            seq![
                RegistrationV {
                    kind,
                    id,
                    api_key: k.api_key@,
                    model,
                    base_url,
                    fallback: if with_fallback {
                        opt_view(k.fallback)
                    } else {
                        None
                    },
                },
            ]
        } else {
            Seq::empty()
        },
        None => Seq::empty(),
    }
}

/// The providers that are made at startup. Of a local provider none is: each
/// agent gets its own.
pub open spec fn registrations(p: ProviderSettings) -> Seq<RegistrationV> {
    registered(p.openai, ProviderKind::OpenAi, "openai"@, "gpt-4o"@, None, true) + registered(
        p.openrouter,
        ProviderKind::OpenAi,
        "openrouter"@,
        "openai/gpt-4o-mini"@,
        Some("https://openrouter.ai/api/v1"@),
        true,
    ) + registered(p.anthropic, ProviderKind::Anthropic, "anthropic"@, p.anthropic_model@, None, false) + registered(
        p.gemini,
        ProviderKind::Gemini,
        "gemini"@,
        "gemini-2.5-flash"@,
        None,
        false,
    ) + registered(p.mistral, ProviderKind::Mistral, "mistral"@, "mistral-large-latest"@, None, false)
}

fn register(
    out: &mut Vec<Registration>,
    p: &Option<KeyedProvider>,
    kind: ProviderKind,
    id: &str,
    model: &str,
    base_url: Option<&str>,
    with_fallback: bool,
)
    ensures
        registration_views(final(out)@) == registration_views(old(out)@) + registered(
            *p,
            kind,
            id@,
            model@,
            match base_url {
                Some(u) => Some(u@),
                None => None,
            },
            with_fallback,
        ),
{
    let ghost before = registration_views(out@);
    match p {
        Some(k) => {
            if k.api_key.as_str().unicode_len() > 0 {
                let r = Registration {
                    kind,
                    id: id.to_owned(),
                    api_key: k.api_key.clone(),
                    model: model.to_owned(),
                    base_url: match base_url {
                        Some(u) => Some(u.to_owned()),
                        None => None,
                    },
                    fallback: if with_fallback {
                        copy_opt(&k.fallback)
                    } else {
                        None
                    },
                };
                out.push(r);
                proof {
                    assert(registration_views(out@) =~= before + seq![r@]);
                }
            } else {
                proof {
                    assert(before + Seq::<RegistrationV>::empty() =~= before);
                }
            }
        },
        None => {
            proof {
                assert(before + Seq::<RegistrationV>::empty() =~= before);
            }
        },
    }
}

/// The providers that are made at startup.
pub fn setup_providers(p: &ProviderSettings) -> (r: Vec<Registration>)
    ensures
        registration_views(r@) == registrations(*p),
{
    let mut out: Vec<Registration> = Vec::new();
    proof {
        assert(registration_views(out@) =~= Seq::<RegistrationV>::empty());
    }
    register(&mut out, &p.openai, ProviderKind::OpenAi, "openai", "gpt-4o", None, true);
    proof {
        assert(registration_views(out@) =~= registered(
            p.openai,
            ProviderKind::OpenAi,
            "openai"@,
            "gpt-4o"@,
            None,
            true,
        ));
    }
    register(
        &mut out,
        &p.openrouter,
        ProviderKind::OpenAi,
        "openrouter",
        "openai/gpt-4o-mini",
        Some("https://openrouter.ai/api/v1"),
        true,
    );
    register(&mut out, &p.anthropic, ProviderKind::Anthropic, "anthropic", p.anthropic_model.as_str(), None, false);
    register(&mut out, &p.gemini, ProviderKind::Gemini, "gemini", "gemini-2.5-flash", None, false);
    register(&mut out, &p.mistral, ProviderKind::Mistral, "mistral", "mistral-large-latest", None, false);
    out
}

/// The names that agents can choose a provider by.
pub open spec fn registered_ids(v: Seq<RegistrationV>) -> Seq<Seq<char>> {
    v.map_values(|r: RegistrationV| r.id)
}

fn ids_of(v: &Vec<Registration>) -> (r: Vec<String>)
    ensures
        views(r@) == registered_ids(registration_views(v@)),
{
    let mut out: Vec<String> = Vec::new();
    let mut i: usize = 0;
    while i < v.len()
        invariant
            i <= v@.len(),
            out@.len() == i,
            forall|k: int| 0 <= k < i ==> (#[trigger] out@[k])@ == v@[k].id@,
        decreases v@.len() - i,
    {
        out.push(v[i].id.clone());
        i += 1;
    }
    proof {
        assert(views(out@) =~= registered_ids(registration_views(v@)));
    }
    out
}

// ---------------------------------------------------------------------------
// The provider of an agent
// ---------------------------------------------------------------------------

/// The provider of an agent.
#[derive(Debug)]
pub enum ProviderChoice {
    /// One of its own, local, with its model.
    Ollama { base_url: String, model: String },
    /// A registered one.
    Registered(String),
}

pub enum ChoiceV {
    Ollama { base_url: Seq<char>, model: Seq<char> },
    Registered(Seq<char>),
}

impl View for ProviderChoice {
    type V = ChoiceV;

    open spec fn view(&self) -> ChoiceV {
        match *self {
            ProviderChoice::Ollama { base_url, model } => ChoiceV::Ollama { base_url: base_url@, model: model@ },
            ProviderChoice::Registered(id) => ChoiceV::Registered(id@),
        }
    }
}

/// The model of a local agent: its own, the provider's, or a default one.
pub open spec fn local_model(own: Seq<char>, shared: Option<Seq<char>>) -> Seq<char> {
    if own.len() > 0 {
        own
    } else {
        match shared {
            Some(m) => m,
            None => "llama3.2"@,
        }
    }
}

/// The provider of an agent, if it is configured.
pub open spec fn choice(agent: AgentSettings, p: ProviderSettings, ids: Seq<Seq<char>>) -> Option<ChoiceV> {
    if agent.provider@ == "ollama"@ {
        match p.ollama {
            Some(o) => Some(
                ChoiceV::Ollama { base_url: o.base_url@, model: local_model(agent.model@, opt_view(o.model)) },
            ),
            None => None,
        }
    } else if ids.contains(agent.provider@) {
        Some(ChoiceV::Registered(agent.provider@))
    } else {
        None
    }
}

/// The provider of an agent, if it is configured.
pub fn choose_provider(agent: &AgentSettings, p: &ProviderSettings, ids: &Vec<String>) -> (r: Option<ProviderChoice>)
    ensures
        match r {
            Some(c) => choice(*agent, *p, views(ids@)) == Some(c@),
            None => choice(*agent, *p, views(ids@)) is None,
        },
{
    if same(agent.provider.as_str(), "ollama") {
        match &p.ollama {
            Some(o) => {
                let model = if agent.model.as_str().unicode_len() > 0 {
                    agent.model.clone()
                } else {
                    match &o.model {
                        Some(m) => m.clone(),
                        None => "llama3.2".to_owned(),
                    }
                };
                Some(ProviderChoice::Ollama { base_url: o.base_url.clone(), model })
            },
            None => None,
        }
    } else if holds(ids, agent.provider.as_str()) {
        Some(ProviderChoice::Registered(agent.provider.clone()))
    } else {
        None
    }
}

/// The error for an agent whose provider is not configured.
pub open spec fn no_provider(agent: AgentSettings) -> DaemonErrorV {
    DaemonErrorV::Provider(
        if agent.provider@ == "ollama"@ {
            "Ollama provider not configured for agent '"@ + agent.id@ + "'"@
        } else {
            "Provider '"@ + agent.provider@ + "' not configured for agent '"@ + agent.id@ + "'"@
        },
    )
}

/// The same error where the agent works in a session.
pub open spec fn no_session_provider(agent: AgentSettings) -> DaemonErrorV {
    DaemonErrorV::Provider(
        if agent.provider@ == "ollama"@ {
            "Ollama provider not configured"@
        } else {
            "Provider '"@ + agent.provider@ + "' not configured"@
        },
    )
}

fn no_provider_error(agent: &AgentSettings) -> (r: DaemonError)
    ensures
        r@ == no_provider(*agent),
{
    let head = if same(agent.provider.as_str(), "ollama") {
        "Ollama provider not configured for agent '".to_owned()
    } else {
        let a = concat("Provider '", agent.provider.as_str());
        concat(a.as_str(), "' not configured for agent '")
    };
    let b = concat(head.as_str(), agent.id.as_str());
    DaemonError::Provider(concat(b.as_str(), "'"))
}

/// The provider of an agent that works in a session.
pub fn session_provider(agent: &AgentSettings, p: &ProviderSettings, ids: &Vec<String>) -> (r: Result<
    ProviderChoice,
    DaemonError,
>)
    ensures
        match r {
            Ok(c) => choice(*agent, *p, views(ids@)) == Some(c@),
            Err(e) => choice(*agent, *p, views(ids@)) is None && e@ == no_session_provider(*agent),
        },
{
    match choose_provider(agent, p, ids) {
        Some(c) => Ok(c),
        None => Err(
            DaemonError::Provider(
                if same(agent.provider.as_str(), "ollama") {
                    "Ollama provider not configured".to_owned()
                } else {
                    let a = concat("Provider '", agent.provider.as_str());
                    concat(a.as_str(), "' not configured")
                },
            ),
        ),
    }
}

// ---------------------------------------------------------------------------
// How an agent is started
// ---------------------------------------------------------------------------

/// A worker that a coordinator can start.
#[derive(Debug)]
pub struct WorkerPlan {
    pub id: String,
    pub name: String,
    pub system_prompt: String,
    pub tools: Vec<String>,
    pub token_budget: usize,
}

pub struct WorkerV {
    pub id: Seq<char>,
    pub name: Seq<char>,
    pub system_prompt: Seq<char>,
    pub tools: Seq<Seq<char>>,
    pub token_budget: usize,
}

impl View for WorkerPlan {
    type V = WorkerV;

    open spec fn view(&self) -> WorkerV {
        WorkerV {
            id: self.id@,
            name: self.name@,
            system_prompt: self.system_prompt@,
            tools: views(self.tools@),
            token_budget: self.token_budget,
        }
    }
}

pub open spec fn worker_views(v: Seq<WorkerPlan>) -> Seq<WorkerV> {
    v.map_values(|w: WorkerPlan| w@)
}

/// The workflow is led by the agent.
pub open spec fn led_by(w: WorkflowSettings, id: Seq<char>) -> bool {
    w.entry_point matches Some(e) && e@ == id
}

/// An agent takes part in a workflow, among the first `n`, that another leads.
pub open spec fn follows(workflows: Seq<WorkflowSettings>, leader: Seq<char>, id: Seq<char>, n: int) -> bool {
    exists|i: int|
        0 <= i < n && led_by(#[trigger] workflows[i], leader) && views(workflows[i].agents@).contains(id)
}

/// The worker that an agent is.
pub open spec fn worker_of(a: AgentSettings, default_budget: usize) -> WorkerV {
    WorkerV {
        id: a.id@,
        name: a.name@,
        system_prompt: match a.system_prompt {
            Some(s) => s@,
            None => Seq::empty(),
        },
        tools: views(a.tools@),
        token_budget: match a.token_budget {
            Some(b) => b,
            None => default_budget,
        },
    }
}

/// The workers of a coordinator among the agents, in order: those that take
/// part in a workflow that it leads.
pub open spec fn workers_of(
    agents: Seq<AgentSettings>,
    workflows: Seq<WorkflowSettings>,
    leader: Seq<char>,
    default_budget: usize,
) -> Seq<WorkerV>
    decreases agents.len(),
{
    if agents.len() == 0 {
        Seq::empty()
    } else {
        let earlier = workers_of(agents.drop_last(), workflows, leader, default_budget);
        let a = agents.last();
        if a.role == AgentRole::Worker && follows(workflows, leader, a.id@, workflows.len() as int) {
            earlier.push(worker_of(a, default_budget))
        } else {
            earlier
        }
    }
}

/// The methods file of the first workflow, from `i` on, that an agent leads.
pub open spec fn methods_from(workflows: Seq<WorkflowSettings>, leader: Seq<char>, i: int) -> Option<Seq<char>>
    decreases workflows.len() - i,
{
    if i < 0 || i >= workflows.len() {
        None
    } else if led_by(workflows[i], leader) {
        opt_view(workflows[i].htn_methods_file)
    } else {
        methods_from(workflows, leader, i + 1)
    }
}

/// How an agent behaves.
#[derive(Debug)]
pub enum Behavior {
    /// It works on its own.
    Solo,
    /// It hands work to workers.
    Coordinator { workers: Vec<WorkerPlan>, methods_file: Option<String> },
}

pub enum BehaviorV {
    Solo,
    Coordinator { workers: Seq<WorkerV>, methods_file: Option<Seq<char>> },
}

impl View for Behavior {
    type V = BehaviorV;

    open spec fn view(&self) -> BehaviorV {
        match *self {
            Behavior::Solo => BehaviorV::Solo,
            Behavior::Coordinator { workers, methods_file } => BehaviorV::Coordinator {
                workers: worker_views(workers@),
                methods_file: opt_view(methods_file),
            },
        }
    }
}

/// The signal at which an agent is activated.
#[derive(Debug, Clone, Copy, PartialEq, Eq, Structural)]
pub enum Threshold {
    /// The one that its settings give, as the bits of a number.
    Given(u32),
    /// So many halves.
    Halves(usize),
}

/// How fast an agent's signal fades.
#[derive(Debug, Clone, Copy, PartialEq, Eq, Structural)]
pub enum Decay {
    /// As its settings say, as the bits of a number.
    Given(u32),
    /// Not at all.
    Never,
    /// By a hundredth.
    Hundredth,
}

/// When an agent is activated: one that depends on nobody by a single user
/// input, which counts one whole; another by the completion of all that it
/// depends on, which count one half each.
pub open spec fn activation(agent: AgentSettings) -> (Threshold, Decay) {
    let n = agent.depends_on@.len();
    (
        match agent.activation_threshold {
            Some(t) => Threshold::Given(t),
            None => if n == 0 {
                Threshold::Halves(2)
            } else {
                Threshold::Halves(n as usize)
            },
        },
        match agent.activation_decay {
            Some(d) => Decay::Given(d),
            None => if n == 0 {
                Decay::Never
            } else {
                Decay::Hundredth
            },
        },
    )
}

/// When an agent is activated.
pub fn lattice_params(agent: &AgentSettings) -> (r: (Threshold, Decay))
    ensures
        r == activation(*agent),
{
    let n: usize = agent.depends_on.len();
    let threshold = match agent.activation_threshold {
        Some(t) => Threshold::Given(t),
        None => if n == 0 {
            Threshold::Halves(2)
        } else {
            Threshold::Halves(n)
        },
    };
    let decay = match agent.activation_decay {
        Some(d) => Decay::Given(d),
        None => if n == 0 {
            Decay::Never
        } else {
            Decay::Hundredth
        },
    };
    (threshold, decay)
}

/// How an agent is started, and when it is activated.
#[derive(Debug)]
pub struct SpawnPlan {
    pub agent_id: String,
    pub provider: ProviderChoice,
    pub behavior: Behavior,
    pub threshold: Threshold,
    pub decay: Decay,
}

pub struct SpawnV {
    pub agent_id: Seq<char>,
    pub provider: ChoiceV,
    pub behavior: BehaviorV,
    pub threshold: Threshold,
    pub decay: Decay,
}

impl View for SpawnPlan {
    type V = SpawnV;

    open spec fn view(&self) -> SpawnV {
        SpawnV {
            agent_id: self.agent_id@,
            provider: self.provider@,
            behavior: self.behavior@,
            threshold: self.threshold,
            decay: self.decay,
        }
    }
}

pub open spec fn spawn_views(v: Seq<SpawnPlan>) -> Seq<SpawnV> {
    v.map_values(|s: SpawnPlan| s@)
}

/// The behaviour of an agent.
pub open spec fn behavior_of(agent: AgentSettings, config: AxocoatlConfig, default_budget: usize) -> BehaviorV {
    if agent.role == AgentRole::Coordinator {
        BehaviorV::Coordinator {
            workers: workers_of(config.agents@, config.workflows@, agent.id@, default_budget),
            methods_file: methods_from(config.workflows@, agent.id@, 0),
        }
    } else {
        BehaviorV::Solo
    }
}

/// How an agent is started, or why it cannot be.
pub open spec fn spawn_of(
    agent: AgentSettings,
    config: AxocoatlConfig,
    ids: Seq<Seq<char>>,
    default_budget: usize,
) -> Result<SpawnV, DaemonErrorV> {
    match choice(agent, config.providers, ids) {
        Some(provider) => Ok(
            SpawnV {
                agent_id: agent.id@,
                provider,
                behavior: behavior_of(agent, config, default_budget),
                threshold: activation(agent).0,
                decay: activation(agent).1,
            },
        ),
        None => Err(no_provider(agent)),
    }
}

fn takes_part(workflows: &Vec<WorkflowSettings>, leader: &str, id: &str) -> (r: bool)
    ensures
        r == follows(workflows@, leader@, id@, workflows@.len() as int),
{
    let mut i: usize = 0;
    while i < workflows.len()
        invariant
            i <= workflows@.len(),
            !follows(workflows@, leader@, id@, i as int),
        decreases workflows@.len() - i,
    {
        let w = &workflows[i];
        let leads = match &w.entry_point {
            Some(e) => same(e.as_str(), leader),
            None => false,
        };
        if leads && holds(&w.agents, id) {
            proof {
                assert(led_by(workflows@[i as int], leader@));
            }
            return true;
        }
        i += 1;
    }
    false
}

fn workers_for(agents: &Vec<AgentSettings>, workflows: &Vec<WorkflowSettings>, leader: &str, default_budget: usize) -> (r:
    Vec<WorkerPlan>)
    ensures
        worker_views(r@) == workers_of(agents@, workflows@, leader@, default_budget),
{
    let mut out: Vec<WorkerPlan> = Vec::new();
    let mut i: usize = 0;
    proof {
        assert(worker_views(out@) =~= Seq::<WorkerV>::empty());
        assert(agents@.take(0).len() == 0);
    }
    while i < agents.len()
        invariant
            i <= agents@.len(),
            worker_views(out@) == workers_of(agents@.take(i as int), workflows@, leader@, default_budget),
        decreases agents@.len() - i,
    {
        let a = &agents[i];
        let ghost before = out@;
        proof {
            assert(agents@.take(i + 1).drop_last() =~= agents@.take(i as int));
            assert(agents@.take(i + 1).last() == *a);
        }
        if matches!(a.role, AgentRole::Worker) && takes_part(workflows, leader, a.id.as_str()) {
            let w = WorkerPlan {
                id: a.id.clone(),
                name: a.name.clone(),
                system_prompt: match &a.system_prompt {
                    Some(s) => s.clone(),
                    None => String::new(),
                },
                tools: copy_texts(&a.tools),
                token_budget: match a.token_budget {
                    Some(b) => b,
                    None => default_budget,
                },
            };
            out.push(w);
            proof {
                assert(worker_views(out@) =~= worker_views(before).push(w@));
            }
        }
        i += 1;
    }
    proof {
        assert(agents@.take(agents@.len() as int) =~= agents@);
    }
    out
}

fn methods_for(workflows: &Vec<WorkflowSettings>, leader: &str) -> (r: Option<String>)
    ensures
        opt_view(r) == methods_from(workflows@, leader@, 0),
{
    let mut i: usize = 0;
    while i < workflows.len()
        invariant
            i <= workflows@.len(),
            methods_from(workflows@, leader@, 0) == methods_from(workflows@, leader@, i as int),
        decreases workflows@.len() - i,
    {
        let w = &workflows[i];
        let leads = match &w.entry_point {
            Some(e) => same(e.as_str(), leader),
            None => false,
        };
        if leads {
            return copy_opt(&w.htn_methods_file);
        }
        i += 1;
    }
    None
}

/// How an agent is started.
pub fn spawn_agent(agent: &AgentSettings, config: &AxocoatlConfig, ids: &Vec<String>, default_budget: usize) -> (r:
    Result<SpawnPlan, DaemonError>)
    ensures
        match r {
            Ok(s) => spawn_of(*agent, *config, views(ids@), default_budget) == Ok::<SpawnV, DaemonErrorV>(s@),
            Err(e) => spawn_of(*agent, *config, views(ids@), default_budget) == Err::<SpawnV, DaemonErrorV>(e@),
        },
{
    match choose_provider(agent, &config.providers, ids) {
        None => Err(no_provider_error(agent)),
        Some(provider) => {
            let behavior = if matches!(agent.role, AgentRole::Coordinator) {
                Behavior::Coordinator {
                    workers: workers_for(&config.agents, &config.workflows, agent.id.as_str(), default_budget),
                    methods_file: methods_for(&config.workflows, agent.id.as_str()),
                }
            } else {
                Behavior::Solo
            };
            let (threshold, decay) = lattice_params(agent);
            Ok(SpawnPlan { agent_id: agent.id.clone(), provider, behavior, threshold, decay })
        },
    }
}

/// How an agent is started again.
pub fn restart_agent(agent_id: &str, config: &AxocoatlConfig, ids: &Vec<String>, default_budget: usize) -> (r: Result<
    SpawnPlan,
    DaemonError,
>)
    ensures
        match agent_from(config.agents@, agent_id@, 0) {
            Some(i) => match r {
                Ok(s) => spawn_of(config.agents@[i], *config, views(ids@), default_budget) == Ok::<
                    SpawnV,
                    DaemonErrorV,
                >(s@),
                Err(e) => spawn_of(config.agents@[i], *config, views(ids@), default_budget) == Err::<
                    SpawnV,
                    DaemonErrorV,
                >(e@),
            },
            None => r matches Err(e) && e@ == DaemonErrorV::AgentSpawn(
                "Agent '"@ + agent_id@ + "' is not in the config"@,
            ),
        },
{
    match find_agent(&config.agents, agent_id) {
        Some(i) => spawn_agent(&config.agents[i], config, ids, default_budget),
        None => {
            let head = concat("Agent '", agent_id);
            Err(DaemonError::AgentSpawn(concat(head.as_str(), "' is not in the config")))
        },
    }
}

// ---------------------------------------------------------------------------
// Tool servers
// ---------------------------------------------------------------------------

/// How a tool server is reached.
#[derive(Debug)]
pub enum Transport {
    Stdio { command: String, args: Vec<String> },
    StreamableHttp { url: String, headers: Vec<(String, String)> },
}

pub enum TransportV {
    Stdio { command: Seq<char>, args: Seq<Seq<char>> },
    StreamableHttp { url: Seq<char>, headers: Seq<(Seq<char>, Seq<char>)> },
}

impl View for Transport {
    type V = TransportV;

    open spec fn view(&self) -> TransportV {
        match *self {
            Transport::Stdio { command, args } => TransportV::Stdio { command: command@, args: views(args@) },
            Transport::StreamableHttp { url, headers } => TransportV::StreamableHttp {
                url: url@,
                headers: crate::daemon::automation_executor::pair_views(headers@),
            },
        }
    }
}

/// How a tool server is reached; not at all where its transport is unknown or
/// lacks what it needs.
pub open spec fn transport_of(s: McpServer) -> Option<TransportV> {
    if s.transport@ == "stdio"@ {
        match s.command {
            Some(c) => Some(TransportV::Stdio { command: c@, args: views(s.args@) }),
            None => None,
        }
    } else if s.transport@ == "streamable_http"@ || s.transport@ == "http"@ {
        match s.url {
            Some(u) => Some(
                TransportV::StreamableHttp {
                    url: u@,
                    headers: crate::daemon::automation_executor::pair_views(s.headers@),
                },
            ),
            None => None,
        }
    } else {
        None
    }
}

/// How a tool server is reached.
pub fn server_transport(s: &McpServer) -> (r: Option<Transport>)
    ensures
        match r {
            Some(t) => transport_of(*s) == Some(t@),
            None => transport_of(*s) is None,
        },
{
    let kind = s.transport.as_str();
    if same(kind, "stdio") {
        match &s.command {
            Some(c) => Some(Transport::Stdio { command: c.clone(), args: copy_texts(&s.args) }),
            None => None,
        }
    } else if same(kind, "streamable_http") || same(kind, "http") {
        match &s.url {
            Some(u) => Some(
                Transport::StreamableHttp {
                    url: u.clone(),
                    headers: crate::daemon::automation_executor::copy_pairs(&s.headers),
                },
            ),
            None => None,
        }
    } else {
        None
    }
}

pub open spec fn server_views(v: Seq<(String, Transport)>) -> Seq<(Seq<char>, TransportV)> {
    v.map_values(|p: (String, Transport)| (p.0@, p.1@))
}

/// The servers that are connected to, in order.
pub open spec fn reached(servers: Seq<McpServer>) -> Seq<(Seq<char>, TransportV)>
    decreases servers.len(),
{
    if servers.len() == 0 {
        Seq::empty()
    } else {
        match transport_of(servers.last()) {
            Some(t) => reached(servers.drop_last()).push((servers.last().name@, t)),
            None => reached(servers.drop_last()),
        }
    }
}

fn connections(servers: &Vec<McpServer>) -> (r: Vec<(String, Transport)>)
    ensures
        server_views(r@) == reached(servers@),
{
    let mut out: Vec<(String, Transport)> = Vec::new();
    let mut i: usize = 0;
    proof {
        assert(server_views(out@) =~= Seq::<(Seq<char>, TransportV)>::empty());
        assert(servers@.take(0).len() == 0);
    }
    while i < servers.len()
        invariant
            i <= servers@.len(),
            server_views(out@) == reached(servers@.take(i as int)),
        decreases servers@.len() - i,
    {
        let ghost before = out@;
        proof {
            assert(servers@.take(i + 1).drop_last() =~= servers@.take(i as int));
            assert(servers@.take(i + 1).last() == servers@[i as int]);
        }
        match server_transport(&servers[i]) {
            Some(t) => {
                let ghost tv = t@;
                out.push((servers[i].name.clone(), t));
                proof {
                    assert(server_views(out@) =~= server_views(before).push((servers@[i as int].name@, tv)));
                }
            },
            None => {},
        }
        i += 1;
    }
    proof {
        assert(servers@.take(servers@.len() as int) =~= servers@);
    }
    out
}

// ---------------------------------------------------------------------------
// Starting up
// ---------------------------------------------------------------------------

/// What is started.
#[derive(Debug)]
pub struct StartupPlan {
    pub providers: Vec<Registration>,
    /// The tools that every agent has.
    pub tools: Vec<String>,
    pub servers: Vec<(String, Transport)>,
    /// The agents, which are registered for activation as well.
    pub agents: Vec<SpawnPlan>,
}

/// The agents that are started: all but workers, each as it is started. The
/// first that cannot be is the error.
pub open spec fn spawns(
    agents: Seq<AgentSettings>,
    config: AxocoatlConfig,
    ids: Seq<Seq<char>>,
    default_budget: usize,
) -> Result<Seq<SpawnV>, DaemonErrorV>
    decreases agents.len(),
{
    if agents.len() == 0 {
        Ok(Seq::empty())
    } else {
        match spawns(agents.drop_last(), config, ids, default_budget) {
            Err(e) => Err(e),
            Ok(earlier) => if agents.last().role == AgentRole::Worker {
                Ok(earlier)
            } else {
                match spawn_of(agents.last(), config, ids, default_budget) {
                    Ok(s) => Ok(earlier.push(s)),
                    Err(e) => Err(e),
                }
            },
        }
    }
}

proof fn lemma_spawns_fail(
    agents: Seq<AgentSettings>,
    n: int,
    config: AxocoatlConfig,
    ids: Seq<Seq<char>>,
    default_budget: usize,
)
    requires
        0 <= n <= agents.len(),
        spawns(agents.take(n), config, ids, default_budget) is Err,
    ensures
        spawns(agents, config, ids, default_budget) == spawns(agents.take(n), config, ids, default_budget),
    decreases agents.len() - n,
{
    if n < agents.len() {
        assert(agents.take(n + 1).drop_last() =~= agents.take(n));
        lemma_spawns_fail(agents, n + 1, config, ids, default_budget);
    } else {
        assert(agents.take(n) =~= agents);
    }
}

/// What a daemon starts with these settings, or why it does not start.
pub fn bootstrap(config: &AxocoatlConfig, default_budget: usize) -> (r: Result<StartupPlan, DaemonError>)
    ensures
        ({
            let regs = registrations(config.providers);
            let want = spawns(config.agents@, *config, registered_ids(regs), default_budget);
            match r {
                Ok(p) => {
                    &&& want == Ok::<Seq<SpawnV>, DaemonErrorV>(spawn_views(p.agents@))
                    &&& registration_views(p.providers@) == regs
                    &&& views(p.tools@) == seq!["echo"@, "json_keys"@, "text_split"@]
                    &&& server_views(p.servers@) == reached(config.mcp_servers@)
                },
                Err(e) => want == Err::<Seq<SpawnV>, DaemonErrorV>(e@),
            }
        }),
{
    let providers = setup_providers(&config.providers);
    let ids = ids_of(&providers);
    let ghost idv = views(ids@);
    let servers = connections(&config.mcp_servers);
    let mut tools: Vec<String> = Vec::new();
    push_text(&mut tools, "echo");
    push_text(&mut tools, "json_keys");
    push_text(&mut tools, "text_split");
    proof {
        assert(views(tools@) =~= seq!["echo"@, "json_keys"@, "text_split"@]);
    }
    let mut agents: Vec<SpawnPlan> = Vec::new();
    let ghost all = config.agents@;
    let mut i: usize = 0;
    proof {
        assert(spawn_views(agents@) =~= Seq::<SpawnV>::empty());
        assert(all.take(0).len() == 0);
    }
    while i < config.agents.len()
        invariant
            i <= config.agents@.len(),
            all == config.agents@,
            idv == views(ids@),
            idv == registered_ids(registrations(config.providers)),
            spawns(all.take(i as int), *config, idv, default_budget) == Ok::<Seq<SpawnV>, DaemonErrorV>(
                spawn_views(agents@),
            ),
        decreases config.agents@.len() - i,
    {
        let ghost before = agents@;
        let a = &config.agents[i];
        proof {
            assert(all.take(i + 1).drop_last() =~= all.take(i as int));
            assert(all.take(i + 1).last() == *a);
        }
        if !matches!(a.role, AgentRole::Worker) {
            match spawn_agent(a, config, &ids, default_budget) {
                Ok(s) => {
                    let ghost sv = s@;
                    agents.push(s);
                    proof {
                        assert(spawn_views(agents@) =~= spawn_views(before).push(sv));
                    }
                },
                Err(e) => {
                    proof {
                        lemma_spawns_fail(all, i + 1, *config, idv, default_budget);
                    }
                    return Err(e);
                },
            }
        }
        i += 1;
    }
    proof {
        assert(all.take(all.len() as int) =~= all);
    }
    Ok(StartupPlan { providers, tools, servers, agents })
}

/// The configured agents that should run and do not: workers never should on
/// their own.
pub open spec fn dead(agents: Seq<AgentSettings>, alive: Seq<Seq<char>>) -> Seq<Seq<char>>
    decreases agents.len(),
{
    if agents.len() == 0 {
        Seq::empty()
    } else {
        let a = agents.last();
        if a.role == AgentRole::Worker || alive.contains(a.id@) {
            dead(agents.drop_last(), alive)
        } else {
            dead(agents.drop_last(), alive).push(a.id@)
        }
    }
}

/// The configured agents that should run and do not.
pub fn dead_agents(agents: &Vec<AgentSettings>, alive: &Vec<String>) -> (r: Vec<String>)
    ensures
        views(r@) == dead(agents@, views(alive@)),
{
    let mut out: Vec<String> = Vec::new();
    let mut i: usize = 0;
    proof {
        assert(views(out@) =~= Seq::<Seq<char>>::empty());
        assert(agents@.take(0).len() == 0);
    }
    while i < agents.len()
        invariant
            i <= agents@.len(),
            views(out@) == dead(agents@.take(i as int), views(alive@)),
        decreases agents@.len() - i,
    {
        let a = &agents[i];
        proof {
            assert(agents@.take(i + 1).drop_last() =~= agents@.take(i as int));
            assert(agents@.take(i + 1).last() == *a);
        }
        if !matches!(a.role, AgentRole::Worker) && !holds(alive, a.id.as_str()) {
            push_text(&mut out, a.id.as_str());
        }
        i += 1;
    }
    proof {
        assert(agents@.take(agents@.len() as int) =~= agents@);
    }
    out
}

/// How sandboxes are started.
pub fn sandbox_policy(s: &SandboxSettings) -> (r: SandboxPolicy)
    ensures
        r.allow_post_create == s.allow_post_create_command,
        r.allow_untrusted_image == s.allow_untrusted_images,
        r.require_resource_limits == s.require_resource_limits,
        r.network == if s.network@ == "none"@ {
            SandboxNetwork::Isolated
        } else {
            SandboxNetwork::Bridge
        },
{
    SandboxPolicy {
        allow_post_create: s.allow_post_create_command,
        allow_untrusted_image: s.allow_untrusted_images,
        network: if same(s.network.as_str(), "none") {
            SandboxNetwork::Isolated
        } else {
            SandboxNetwork::Bridge
        },
        require_resource_limits: s.require_resource_limits,
    }
}

/// Refuses a chat with an agent that is not configured.
pub fn check_chat_agent(agents: &Vec<AgentSettings>, agent_id: &str) -> (r: Result<(), DaemonError>)
    ensures
        match r {
            Ok(_) => agent_from(agents@, agent_id@, 0) is Some,
            Err(e) => agent_from(agents@, agent_id@, 0) is None && e@ == DaemonErrorV::AgentSpawn(
                "agent '"@ + agent_id@ + "' not found"@,
            ),
        },
{
    match find_agent(agents, agent_id) {
        Some(_) => Ok(()),
        None => {
            let head = concat("agent '", agent_id);
            Err(DaemonError::AgentSpawn(concat(head.as_str(), "' not found")))
        },
    }
}

/// The most events that are kept.
pub const EVENT_LOG_LEN: usize = 200;

/// The log with an event behind the others; the oldest leaves a full log.
pub open spec fn logged<T>(log: Seq<T>, event: T) -> Seq<T> {
    if log.len() >= EVENT_LOG_LEN {
        log.skip(1).push(event)
    } else {
        log.push(event)
    }
}

/// Adds an event to the log.
pub fn log_event<T>(log: &mut Vec<T>, event: T)
    ensures
        final(log)@ == logged(old(log)@, event),
{
    let ghost before = log@;
    if log.len() >= EVENT_LOG_LEN {
        let _ = log.remove(0);
        proof {
            assert(log@ =~= before.skip(1));
        }
    }
    log.push(event);
}

/// The name of the session that a fresh daemon shows.
pub const DEMO_SESSION: &'static str = "demo-counters";

/// The agent of that session.
pub const DEMO_AGENT: &'static str = "coder";

/// How the demonstration session works, where it is still to be made.
pub fn demo_session(session_names: &Vec<String>) -> (r: Option<SessionMode>)
    ensures
        match r {
            Some(mode) => !views(session_names@).contains(DEMO_SESSION@) && mode@ == (ModeV::SingleAgent {
                agent_id: DEMO_AGENT@,
            }),
            None => views(session_names@).contains(DEMO_SESSION@),
        },
{
    if holds(session_names, DEMO_SESSION) {
        None
    } else {
        Some(SessionMode::SingleAgent { agent_id: DEMO_AGENT.to_owned() })
    }
}

/// Where a daemon keeps its data.
#[derive(Debug)]
pub struct DataPaths {
    pub checkpoints: String,
    pub long_term: String,
    pub semantic: String,
    pub mcp_permissions: String,
    pub sessions: String,
    pub demo: String,
    pub chats: String,
    pub files: String,
    pub runs: String,
    pub automations: String,
}

/// Where a daemon keeps its data below a directory.
pub fn data_paths(data_dir: &str) -> (r: DataPaths)
    ensures
        r.checkpoints@ == data_dir@ + "/checkpoints"@,
        r.long_term@ == data_dir@ + "/memory/long_term.bin"@,
        r.semantic@ == data_dir@ + "/memory/semantic"@,
        r.mcp_permissions@ == data_dir@ + "/mcp-permissions.json"@,
        r.sessions@ == data_dir@ + "/sessions"@,
        r.demo@ == data_dir@ + "/demos/counters"@,
        r.chats@ == data_dir@ + "/chats"@,
        r.files@ == data_dir@ + "/files"@,
        r.runs@ == data_dir@ + "/runs"@,
        r.automations@ == data_dir@ + "/automations.json"@,
{
    DataPaths {
        checkpoints: concat(data_dir, "/checkpoints"),
        long_term: concat(data_dir, "/memory/long_term.bin"),
        semantic: concat(data_dir, "/memory/semantic"),
        mcp_permissions: concat(data_dir, "/mcp-permissions.json"),
        sessions: concat(data_dir, "/sessions"),
        demo: concat(data_dir, "/demos/counters"),
        chats: concat(data_dir, "/chats"),
        files: concat(data_dir, "/files"),
        runs: concat(data_dir, "/runs"),
        automations: concat(data_dir, "/automations.json"),
    }
}

// ---------------------------------------------------------------------------
// Laws
// ---------------------------------------------------------------------------

/// The completions, a half each, or user inputs, two halves each, reach a
/// threshold.
pub open spec fn reach(t: Threshold, halves: nat) -> bool {
    t matches Threshold::Halves(n) && halves >= n
}

/// An agent without settings of its own is activated by one user input where it
/// depends on nobody, and else once all that it depends on have completed, no
/// sooner.
pub proof fn law_agents_wait_for_all_they_need(agent: AgentSettings, completed: nat)
    requires
        agent.activation_threshold is None,
    ensures
        agent.depends_on@.len() == 0 ==> reach(activation(agent).0, 2) && !reach(activation(agent).0, 1),
        agent.depends_on@.len() > 0 ==> (reach(activation(agent).0, completed) <==> completed
            >= agent.depends_on@.len()),
{
    let n = agent.depends_on.len();
    assert(agent.depends_on@.len() == n);
}

/// A log never holds more than `EVENT_LOG_LEN` events, and the newest is last.
pub proof fn law_event_log_is_bounded<T>(log: Seq<T>, event: T)
    requires
        log.len() <= EVENT_LOG_LEN,
    ensures
        logged(log, event).len() <= EVENT_LOG_LEN,
        logged(log, event).last() == event,
        log.len() < EVENT_LOG_LEN ==> logged(log, event).take(log.len() as int) == log,
{
    if log.len() < EVENT_LOG_LEN {
        assert(logged(log, event).take(log.len() as int) =~= log);
    }
}

/// Every agent that is started can be reached: its provider is one that is
/// registered or a local one of its own. And no worker is started.
pub proof fn law_started_agents_have_providers(
    agents: Seq<AgentSettings>,
    config: AxocoatlConfig,
    ids: Seq<Seq<char>>,
    default_budget: usize,
)
    ensures
        spawns(agents, config, ids, default_budget) matches Ok(list) ==> forall|i: int|
            0 <= i < list.len() ==> match (#[trigger] list[i]).provider {
                ChoiceV::Registered(id) => ids.contains(id),
                ChoiceV::Ollama { .. } => config.providers.ollama is Some,
            } && exists|k: int|
                0 <= k < agents.len() && (#[trigger] agents[k]).id@ == list[i].agent_id && agents[k].role
                    != AgentRole::Worker,
    decreases agents.len(),
{
    if agents.len() > 0 {
        let rest = agents.drop_last();
        law_started_agents_have_providers(rest, config, ids, default_budget);
        if let Ok(list) = spawns(agents, config, ids, default_budget) {
            if let Ok(earlier) = spawns(rest, config, ids, default_budget) {
                assert forall|i: int| 0 <= i < list.len() implies match (#[trigger] list[i]).provider {
                    ChoiceV::Registered(id) => ids.contains(id),
                    ChoiceV::Ollama { .. } => config.providers.ollama is Some,
                } && exists|k: int|
                    0 <= k < agents.len() && (#[trigger] agents[k]).id@ == list[i].agent_id && agents[k].role
                        != AgentRole::Worker by {
                    if i < earlier.len() {
                        assert(list[i] == earlier[i]);
                        let k = choose|k: int|
                            0 <= k < rest.len() && (#[trigger] rest[k]).id@ == earlier[i].agent_id && rest[k].role
                                != AgentRole::Worker;
                        assert(agents[k] == rest[k]);
                    } else {
                        assert(agents[agents.len() - 1] == agents.last());
                    }
                }
            }
        }
    }
}

/// A worker is handed to a coordinator only where it takes part in a workflow
/// that the coordinator leads.
pub proof fn law_workers_belong_to_their_leader(
    agents: Seq<AgentSettings>,
    workflows: Seq<WorkflowSettings>,
    leader: Seq<char>,
    default_budget: usize,
)
    ensures
        forall|i: int|
            0 <= i < workers_of(agents, workflows, leader, default_budget).len() ==> follows(
                workflows,
                leader,
                (#[trigger] workers_of(agents, workflows, leader, default_budget)[i]).id,
                workflows.len() as int,
            ),
    decreases agents.len(),
{
    if agents.len() > 0 {
        let earlier = workers_of(agents.drop_last(), workflows, leader, default_budget);
        let all = workers_of(agents, workflows, leader, default_budget);
        law_workers_belong_to_their_leader(agents.drop_last(), workflows, leader, default_budget);
        assert forall|i: int| 0 <= i < all.len() implies follows(
            workflows,
            leader,
            (#[trigger] all[i]).id,
            workflows.len() as int,
        ) by {
            if i < earlier.len() {
                assert(all[i] == earlier[i]);
            }
        }
    }
}

} // verus!
