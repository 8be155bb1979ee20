//! Who works in sessions and workflows, with what, and what a daemon starts with.
use vstd::prelude::*;

use crate::daemon::automation_executor::{DaemonErrorV, pair_views};
use crate::daemon::config::{AgentRole, AgentSettings, AxocoatlConfig, KeyedProvider, McpServer, ProviderSettings,
    WorkflowSettings, agent_from, workflow_from};
use crate::daemon::execution::AgentOutputV;
use crate::daemon::frames::activated;
use crate::daemon::sessions::{TurnStateV, TurnV, baseline, composed, discarding, git_line, lattice_agents, only,
    scoped_id, sections, task_entry, task_list, terminal_task, turn_of, turn_order, usable_skills};
use crate::daemon::startup::{BehaviorV, ChoiceV, Decay, ProviderKind, RegistrationV, SpawnV, Threshold, TransportV,
    activation, behavior_of, choice, dead, follows, led_by, logged, methods_from, no_provider, no_session_provider,
    reached, registered, registrations, spawn_of, spawns, transport_of, worker_of, workers_of};
use crate::daemon::topology::{all_needs, among, needs, once, run_order};
use crate::daemon::variants::primary;
use crate::daemon::workflows::{beginners, dependencies, distinct, independent, kickoff, taking_part, workflow_error};
use crate::isolation::session_sandbox::{BgTaskV, TerminalV};
use crate::json::JsonV;
use crate::llm::provider::opt_view;
use crate::session::{DevContainer, ModeV, Place, Session, SessionErrorV, SessionStatus, default_ports, merged, new_session,
    place_error};
use crate::table::{Ranked, sorted};
use crate::text::{contains, join, views};
use crate::text_laws::law_parts_are_found;

verus! {

/// The names of the members of a task are different.
proof fn lemma_task_keys()
    ensures
        "id"@ != "kind"@,
        "id"@ != "command"@,
        "id"@ != "status"@,
        "id"@ != "log"@,
        "kind"@ != "command"@,
        "kind"@ != "status"@,
        "kind"@ != "log"@,
        "command"@ != "status"@,
        "command"@ != "log"@,
        "status"@ != "log"@,
{
    reveal_strlit("id");
    reveal_strlit("kind");
    reveal_strlit("command");
    reveal_strlit("status");
    reveal_strlit("log");
    assert("id"@.len() != "kind"@.len());
    assert("id"@.len() != "command"@.len());
    assert("id"@.len() != "status"@.len());
    assert("id"@.len() != "log"@.len());
    assert("kind"@.len() != "command"@.len());
    assert("kind"@.len() != "status"@.len());
    assert("kind"@.len() != "log"@.len());
    assert("command"@.len() != "status"@.len());
    assert("command"@.len() != "log"@.len());
    assert("status"@.len() != "log"@.len());
}

/// The names of transports and providers are different.
proof fn lemma_names()
    ensures
        "stdio"@ != "streamable_http"@,
        "stdio"@ != "http"@,
        "stdio"@ != "ollama"@,
        "stdio"@ != "input"@,
        "stdio"@ != "workflow_id"@,
        "streamable_http"@ != "http"@,
        "streamable_http"@ != "ollama"@,
        "streamable_http"@ != "input"@,
        "streamable_http"@ != "workflow_id"@,
        "http"@ != "ollama"@,
        "http"@ != "input"@,
        "http"@ != "workflow_id"@,
        "ollama"@ != "input"@,
        "ollama"@ != "workflow_id"@,
        "input"@ != "workflow_id"@,
{
    reveal_strlit("stdio");
    reveal_strlit("streamable_http");
    reveal_strlit("http");
    reveal_strlit("ollama");
    reveal_strlit("input");
    reveal_strlit("workflow_id");
    assert("stdio"@.len() != "streamable_http"@.len());
    assert("stdio"@.len() != "http"@.len());
    assert("stdio"@.len() != "ollama"@.len());
    assert("stdio"@[0] != "input"@[0]);
    assert("stdio"@.len() != "workflow_id"@.len());
    assert("streamable_http"@.len() != "http"@.len());
    assert("streamable_http"@.len() != "ollama"@.len());
    assert("streamable_http"@.len() != "input"@.len());
    assert("streamable_http"@.len() != "workflow_id"@.len());
    assert("http"@.len() != "ollama"@.len());
    assert("http"@.len() != "input"@.len());
    assert("http"@.len() != "workflow_id"@.len());
    assert("ollama"@.len() != "input"@.len());
    assert("ollama"@.len() != "workflow_id"@.len());
    assert("input"@.len() != "workflow_id"@.len());
}


// ---------------------------------------------------------------------------
// Names in order
// ---------------------------------------------------------------------------

proof fn lemma_among_filter(names: Seq<Seq<char>>, members: Seq<Seq<char>>)
    ensures
        among(names, members) == names.filter(|n: Seq<char>| members.contains(n)),
    decreases names.len(),
{
    reveal(Seq::filter);
    if names.len() > 0 {
        lemma_among_filter(names.drop_last(), members);
    }
}

/// Every name is listed once, in the order in which the names first stand.
pub open spec fn lists_once(list: Seq<Seq<char>>, names: Seq<Seq<char>>) -> bool {
    &&& list.no_duplicates()
    &&& forall|x: Seq<char>| #[trigger] list.contains(x) <==> names.contains(x)
}

proof fn lemma_lists_once(names: Seq<Seq<char>>)
    ensures
        lists_once(once(names), names),
        once(names) == distinct(names),
        names.len() > 0 ==> once(names).len() > 0 && once(names)[0] == names[0],
    decreases names.len(),
{
    if names.len() > 0 {
        let less = names.drop_last();
        lemma_lists_once(less);
        let was = once(less);
        let now = once(names);
        let x = names.last();
        assert forall|y: Seq<char>| #[trigger] now.contains(y) <==> names.contains(y) by {
            if now.contains(y) {
                let i = choose|i: int| 0 <= i < now.len() && now[i] == y;
                if i < was.len() {
                    assert(was[i] == y);
                    assert(was.contains(y));
                    let k = choose|k: int| 0 <= k < less.len() && less[k] == y;
                    assert(names[k] == y);
                } else {
                    assert(names[names.len() - 1] == y);
                }
            }
            if names.contains(y) {
                let k = choose|k: int| 0 <= k < names.len() && names[k] == y;
                if k < less.len() {
                    assert(less[k] == y);
                    assert(was.contains(y));
                    let i = choose|i: int| 0 <= i < was.len() && was[i] == y;
                    assert(now[i] == y);
                } else if was.contains(x) {
                    let i = choose|i: int| 0 <= i < was.len() && was[i] == x;
                    assert(now[i] == y);
                } else {
                    assert(now[was.len() as int] == y);
                }
            }
        }
        assert(now.no_duplicates()) by {
            if !was.contains(x) {
                assert forall|i: int, j: int| 0 <= i < now.len() && 0 <= j < now.len() && i != j implies now[i] != now[j] by {
                    if i == was.len() {
                        assert(was[j] == now[j]);
                    } else if j == was.len() {
                        assert(was[i] == now[i]);
                    } else {
                        assert(was[i] == now[i] && was[j] == now[j]);
                    }
                }
            }
        }
        if less.len() == 0 {
            assert(was.len() == 0);
            assert(now =~= seq![x]);
        } else {
            assert(now[0] == was[0]);
        }
    }
}

/// Of some names those that are members are kept, all of them and in order; the
/// agents that must finish are those of the workflow, each once.
pub proof fn law_members_are_kept_in_order(names: Seq<Seq<char>>, members: Seq<Seq<char>>)
    ensures
        among(names, members) == names.filter(|n: Seq<char>| members.contains(n)),
        taking_part(names, members) == names.filter(|n: Seq<char>| members.contains(n)),
        usable_skills(names, members) == names.filter(|n: Seq<char>| members.contains(n)),
        lists_once(distinct(names), names),
        names.len() > 0 ==> distinct(names)[0] == names[0],
{
    lemma_among_filter(names, members);
    lemma_lists_once(names);
}

/// An agent needs those of its configured dependencies that work beside it, each
/// once; one that is not configured needs nobody.
pub proof fn law_agents_need_those_beside_them(settings: Seq<AgentSettings>, id: Seq<char>, members: Seq<Seq<char>>, x: Seq<char>)
    ensures
        agent_from(settings, id, 0) is None ==> needs(settings, id, members).len() == 0,
        agent_from(settings, id, 0) matches Some(i) ==> needs(settings, id, members).no_duplicates() && (needs(
            settings,
            id,
            members,
        ).contains(x) <==> views(settings[i].depends_on@).contains(x) && members.contains(x)),
{
    if let Some(i) = agent_from(settings, id, 0) {
        let deps = views(settings[i].depends_on@);
        lemma_among_filter(deps, members);
        lemma_lists_once(among(deps, members));
        lemma_filter_contains(deps, members, x);
    }
}

proof fn lemma_filter_contains(names: Seq<Seq<char>>, members: Seq<Seq<char>>, x: Seq<char>)
    ensures
        among(names, members).contains(x) <==> names.contains(x) && members.contains(x),
    decreases names.len(),
{
    if names.len() > 0 {
        let less = names.drop_last();
        lemma_filter_contains(less, members, x);
        let was = among(less, members);
        let now = among(names, members);
        if now.contains(x) {
            let i = choose|i: int| 0 <= i < now.len() && now[i] == x;
            if i < was.len() {
                assert(was[i] == x);
                assert(was.contains(x));
                let k = choose|k: int| 0 <= k < less.len() && less[k] == x;
                assert(names[k] == x);
            } else {
                assert(names[names.len() - 1] == x);
            }
        }
        if names.contains(x) && members.contains(x) {
            let k = choose|k: int| 0 <= k < names.len() && names[k] == x;
            if k < less.len() {
                assert(less[k] == x);
                assert(was.contains(x));
                let i = choose|i: int| 0 <= i < was.len() && was[i] == x;
                assert(now[i] == x);
            } else {
                assert(now[was.len() as int] == x);
            }
        }
    }
}

// ---------------------------------------------------------------------------
// Sessions
// ---------------------------------------------------------------------------

/// The name of an agent in a session is the session's, a colon and its own.
pub proof fn law_agents_are_scoped(session: Seq<char>, agent: Seq<char>)
    ensures
        scoped_id(session, agent) == session + seq![':'] + agent,
{
    reveal_strlit(":");
    assert(":"@ =~= seq![':']);
}

proof fn lemma_only(names: Seq<Seq<char>>, name: Seq<char>)
    ensures
        only(names, name) == names.filter(|n: Seq<char>| n == name),
    decreases names.len(),
{
    reveal(Seq::filter);
    if names.len() > 0 {
        lemma_only(names.drop_last(), name);
    }
}

/// In a turn the agents work in the order of their dependencies; a turn that is for
/// one of them is for that one alone, and one for an agent that is not there is
/// refused by its name.
pub proof fn law_turns_run_in_order(settings: Seq<AgentSettings>, agents: Seq<Seq<char>>, t: Seq<char>)
    ensures
        ({
            let order = run_order(agents, all_needs(settings, agents));
            &&& turn_order(settings, agents, None) == Ok::<Seq<Seq<char>>, DaemonErrorV>(order)
            &&& order.contains(t) ==> turn_order(settings, agents, Some(t)) == Ok::<Seq<Seq<char>>, DaemonErrorV>(
                order.filter(|n: Seq<char>| n == t),
            )
            &&& !order.contains(t) ==> (turn_order(settings, agents, Some(t)) matches Err(DaemonErrorV::Session(m))
                && contains(m, t))
        }),
{
    let order = run_order(agents, all_needs(settings, agents));
    lemma_only(order, t);
    law_parts_are_found("target agent '"@, t, "' is not in this session"@);
}

/// In a session works its one agent, the agents of its workflow, or those that were
/// chosen; a session without any is refused.
pub proof fn law_sessions_choose_who_works(config: AxocoatlConfig, agent: Seq<char>, agents: Seq<Seq<char>>, target: Option<Seq<char>>, id: Seq<char>)
    ensures
        turn_of(config, ModeV::SingleAgent { agent_id: agent }, target) == Ok::<TurnV, DaemonErrorV>(TurnV::Single(agent)),
        agents.len() == 0 ==> turn_of(config, ModeV::Custom { agents }, target) is Err,
        agents.len() > 0 ==> (turn_order(config.agents@, agents, target) matches Ok(order) ==> turn_of(
            config,
            ModeV::Custom { agents },
            target,
        ) == Ok::<TurnV, DaemonErrorV>(TurnV::Many(order))),
        workflow_from(config.workflows@, id, 0) matches Some(i) ==> (config.workflows@[i].agents@.len() > 0
            ==> lattice_agents(config, Some(id)) == Ok::<Seq<Seq<char>>, DaemonErrorV>(views(config.workflows@[i].agents@))),
        workflow_from(config.workflows@, id, 0) is None ==> (lattice_agents(config, Some(id)) matches Err(
            DaemonErrorV::Session(m),
        ) && contains(m, id)),
        config.workflows@.len() > 0 && config.workflows@[0].agents@.len() > 0 ==> lattice_agents(config, None) == Ok::<
            Seq<Seq<char>>,
            DaemonErrorV,
        >(views(config.workflows@[0].agents@)),
        config.workflows@.len() == 0 ==> lattice_agents(config, None) is Err,
        lattice_agents(config, Some(id)) matches Ok(a) ==> (turn_order(config.agents@, a, target) matches Ok(order)
            ==> turn_of(config, ModeV::Lattice { workflow_id: Some(id) }, target) == Ok::<TurnV, DaemonErrorV>(
            TurnV::Many(order),
        )),
        lattice_agents(config, Some(id)) matches Err(e) ==> turn_of(config, ModeV::Lattice { workflow_id: Some(id) }, target)
            == Err::<TurnV, DaemonErrorV>(e),
{
    law_parts_are_found("workflow '"@, id, "' not found"@);
}

/// An agent is told the instruction and then the work of each before it, in order,
/// under its name.
pub proof fn law_agents_are_told_what_was_done(input: Seq<char>, prior: Seq<(Seq<char>, Seq<char>)>, i: int)
    ensures
        prior.len() > 0 ==> composed(input, prior) == input + "\n\n## Work already completed by other agents\n"@ + join(
            sections(prior),
            seq!['\n', '\n'],
        ),
        sections(prior).len() == prior.len(),
        0 <= i < prior.len() ==> sections(prior)[i] == seq!['#', '#', '#', ' '] + prior[i].0 + seq!['\n'] + prior[i].1,
{
    reveal_strlit("### ");
    reveal_strlit("\n");
    reveal_strlit("\n\n");
    assert("### "@ =~= seq!['#', '#', '#', ' ']);
    assert("\n"@ =~= seq!['\n']);
    assert("\n\n"@ =~= seq!['\n', '\n']);
}

/// The next agent of a turn is the first in order that has not answered; its answer
/// is kept under its name, and is the last answer.
pub proof fn law_turns_go_in_order(st: TurnStateV, out: AgentOutputV)
    requires
        st.wf(),
    ensures
        st.prior.len() < st.order.len() ==> (st.upcoming() matches Some(p) && p.0 == st.order[st.prior.len() as int] && p.1
            == composed(st.input, st.prior) && p.2 == activated(st.session_id, p.0)),
        st.prior.len() == st.order.len() ==> st.upcoming() is None,
        st.prior.len() < st.order.len() ==> {
            let next = st.after(out);
            &&& next.prior.len() == st.prior.len() + 1
            &&& next.prior.drop_last() == st.prior
            &&& next.prior.last().0 == st.order[st.prior.len() as int]
            &&& next.prior.last().1 == out.content
            &&& next.last == Some(out)
            &&& next.order == st.order && next.input == st.input && next.session_id == st.session_id
        },
{
    assert(st.after(out).prior.drop_last() =~= st.prior);
}

/// The list of tasks shows each task and then each terminal, in order, with what is
/// known of it.
pub proof fn law_tasks_are_listed(tasks: Seq<BgTaskV>, terminals: Seq<TerminalV>, i: int)
    ensures
        task_list(tasks, terminals).len() == tasks.len() + terminals.len(),
        0 <= i < tasks.len() ==> ({
            let v = task_list(tasks, terminals)[i];
            &&& v.at_key("id"@) == JsonV::Text(tasks[i].id)
            &&& v.at_key("kind"@) == JsonV::Text("task"@)
            &&& v.at_key("command"@) == JsonV::Text(tasks[i].command)
            &&& v.at_key("status"@) == JsonV::Text(tasks[i].status)
            &&& v.at_key("log"@) == JsonV::Text(tasks[i].log)
        }),
        0 <= i < terminals.len() ==> ({
            let v = task_list(tasks, terminals)[tasks.len() + i];
            &&& v.at_key("id"@) == JsonV::Text(terminals[i].id)
            &&& v.at_key("kind"@) == JsonV::Text("terminal"@)
            &&& v.at_key("command"@) == JsonV::Text(terminals[i].command)
            &&& terminals[i].alive ==> v.at_key("status"@) == JsonV::Text("running"@)
            &&& !terminals[i].alive ==> v.at_key("status"@) == JsonV::Text("exited"@)
        }),
{
    lemma_task_keys();
    if 0 <= i < tasks.len() {
        assert(task_list(tasks, terminals)[i] == task_entry(tasks[i]));
    }
    if 0 <= i < terminals.len() {
        assert(task_list(tasks, terminals)[tasks.len() + i] == terminal_task(terminals[i]));
    }
}

/// Git is run in the directory, with the arguments behind it.
pub proof fn law_git_runs_in_the_directory(cwd: Seq<char>, args: Seq<Seq<char>>)
    ensures
        git_line(cwd, args).len() == 5 + args.len(),
        git_line(cwd, args)[0] == "git"@,
        git_line(cwd, args)[3] == "-C"@,
        git_line(cwd, args)[4] == cwd,
        git_line(cwd, args).skip(5) == args,
        baseline()[0] == seq!["init"@, "-q"@],
        baseline()[3] == seq!["add"@, "-A"@],
        baseline()[4][0] == "commit"@,
{
    assert(git_line(cwd, args).skip(5) =~= args);
}

/// Discarding the changes of a path works on that path alone, and is refused where
/// the path goes up; without a path all changes are discarded.
pub proof fn law_changes_are_discarded(path: Seq<char>)
    ensures
        contains(path, ".."@) ==> discarding(Some(path)) == Err::<(Seq<Seq<char>>, Seq<Seq<char>>), DaemonErrorV>(
            DaemonErrorV::Session("invalid path"@),
        ),
        !contains(path, ".."@) ==> (discarding(Some(path)) matches Ok(c) && c.0 == seq!["checkout"@, "--"@, path] && c.1
            == seq!["clean"@, "-fd"@, "--"@, path]),
        discarding(None) matches Ok(c) && c.0 == seq!["checkout"@, "--"@, "."@] && c.1 == seq!["clean"@, "-fd"@],
{
}

/// A session is made in a directory that is there, with what was asked for; where a
/// project says how its container is made, its ports come in addition, its image
/// where none was asked for, and its scripts.
pub proof fn law_sessions_are_made_as_asked(
    id: Seq<char>,
    name: Seq<char>,
    dir: Seq<char>,
    mode: ModeV,
    skills: Seq<Seq<char>>,
    ports: Seq<u16>,
    image: Option<Seq<char>>,
    dev: Option<DevContainer>,
    now: u64,
)
    ensures
        ({
            let s = new_session(id, name, dir, mode, skills, ports, image, dev, now);
            &&& s.id == id
            &&& s.name == name
            &&& s.working_dir == dir
            &&& s.mode == mode
            &&& s.status == SessionStatus::Active
            &&& s.enabled_skills == skills
            &&& s.created_at == now
            &&& s.last_active == now
            &&& image matches Some(i) ==> s.image == Some(i)
            &&& image is None ==> (dev matches Some(d) ==> s.image == opt_view(d.image))
            &&& image is None && dev is None ==> s.image is None
            &&& dev matches Some(d) ==> s.post_create_commands == views(d.post_create_scripts@)
            &&& dev is None ==> s.post_create_commands.len() == 0
            &&& dev is None && ports.len() > 0 ==> s.exposed_ports == ports
            &&& dev is None && ports.len() == 0 ==> s.exposed_ports == default_ports()
            &&& dev matches Some(d) ==> (merged(ports, d.forwarded_ports@).len() > 0 ==> s.exposed_ports == merged(
                ports,
                d.forwarded_ports@,
            ))
        }),
        default_ports() == seq![3000u16, 5000u16, 5173u16, 8000u16, 8765u16, 8888u16],
{
}

/// A place that is missing or no directory is refused with its path; the words of a
/// refusal hold what it is about.
pub proof fn law_bad_places_are_refused(asked: Seq<char>, p: String, m: Seq<char>)
    ensures
        place_error(asked, Place::Missing) == Some(SessionErrorV::BadWorkingDir(asked)),
        place_error(asked, Place::NotADirectory(p)) == Some(SessionErrorV::BadWorkingDir(p@)),
        place_error(asked, Place::Directory(p)) is None,
        SessionErrorV::NotFound(m).text() == "session not found: "@ + m,
        SessionErrorV::BadWorkingDir(m).text() == "working directory does not exist or is not a directory: "@ + m,
{
}

// ---------------------------------------------------------------------------
// Workflows
// ---------------------------------------------------------------------------

/// The agent is configured and depends on nobody.
pub open spec fn can_begin(name: Seq<char>, agents: Seq<AgentSettings>) -> bool {
    agent_from(agents, name, 0) matches Some(i) && agents[i].depends_on@.len() == 0
}

proof fn lemma_independent(names: Seq<Seq<char>>, agents: Seq<AgentSettings>)
    ensures
        independent(names, agents) == names.filter(|n: Seq<char>| can_begin(n, agents)),
    decreases names.len(),
{
    reveal(Seq::filter);
    if names.len() > 0 {
        lemma_independent(names.drop_last(), agents);
    }
}

/// A workflow begins with its entry point, or else with all its agents that depend
/// on nobody, in order; it is started with its id and the input.
pub proof fn law_workflows_begin(w: WorkflowSettings, agents: Seq<AgentSettings>, id: Seq<char>, input: Seq<char>)
    ensures
        w.entry_point matches Some(e) ==> beginners(w, agents) == seq![e@],
        w.entry_point is None ==> beginners(w, agents) == views(w.agents@).filter(|n: Seq<char>| can_begin(n, agents)),
        kickoff(id, input).at_key("input"@) == JsonV::Text(input),
        kickoff(id, input).at_key("workflow_id"@) == JsonV::Text(id),
{
    lemma_names();
    lemma_independent(views(w.agents@), agents);
}

/// A workflow runs exactly where it is configured, has agents and has some that
/// begin.
pub proof fn law_workflows_are_refused(config: AxocoatlConfig, id: Seq<char>)
    ensures
        workflow_error(config, id) is None <==> (workflow_from(config.workflows@, id, 0) matches Some(i) && config.workflows@[i].agents@.len()
            > 0 && beginners(config.workflows@[i], config.agents@).len() > 0),
        workflow_from(config.workflows@, id, 0) is None ==> workflow_error(config, id) == Some(
            DaemonErrorV::WorkflowNotFound(id),
        ),
{
}

/// A variant is worked on by the session's agent: the only one, the entry point of
/// the workflow, or the first in the order of dependencies.
pub proof fn law_variants_are_worked_on_by_the_first(config: AxocoatlConfig, agent: Seq<char>, agents: Seq<Seq<char>>, id: Seq<char>)
    ensures
        primary(config, ModeV::SingleAgent { agent_id: agent }) == Ok::<Seq<char>, DaemonErrorV>(agent),
        agents.len() > 0 ==> primary(config, ModeV::Custom { agents }) == Ok::<Seq<char>, DaemonErrorV>(
            run_order(agents, all_needs(config.agents@, agents))[0],
        ),
        agents.len() == 0 ==> primary(config, ModeV::Custom { agents }) is Err,
        workflow_from(config.workflows@, id, 0) matches Some(i) ==> (config.workflows@[i].agents@.len() > 0
            ==> (config.workflows@[i].entry_point matches Some(e) ==> primary(
            config,
            ModeV::Lattice { workflow_id: Some(id) },
        ) == Ok::<Seq<char>, DaemonErrorV>(e@))),
        workflow_from(config.workflows@, id, 0) matches Some(i) ==> (config.workflows@[i].agents@.len() == 0 ==> primary(
            config,
            ModeV::Lattice { workflow_id: Some(id) },
        ) is Err),
        workflow_from(config.workflows@, id, 0) is None ==> primary(config, ModeV::Lattice { workflow_id: Some(id) }) is Err,
{
}

// ---------------------------------------------------------------------------
// Starting up
// ---------------------------------------------------------------------------

/// The provider is configured with a key.
pub open spec fn has_key(p: Option<KeyedProvider>) -> bool {
    p matches Some(k) && k.api_key@.len() > 0
}

/// A provider with a key is registered under its name, with its key, its model and
/// its address; one without is not.
pub proof fn law_keyed_providers_are_registered(
    p: Option<KeyedProvider>,
    kind: ProviderKind,
    id: Seq<char>,
    model: Seq<char>,
    base_url: Option<Seq<char>>,
    with_fallback: bool,
)
    ensures
        !has_key(p) ==> registered(p, kind, id, model, base_url, with_fallback).len() == 0,
        has_key(p) ==> {
            let list = registered(p, kind, id, model, base_url, with_fallback);
            &&& list.len() == 1
            &&& list[0].kind == kind
            &&& list[0].id == id
            &&& p matches Some(k) && list[0].api_key == k.api_key@
            &&& list[0].model == model
            &&& list[0].base_url == base_url
            &&& with_fallback ==> (p matches Some(k) && list[0].fallback == opt_view(k.fallback))
            &&& !with_fallback ==> list[0].fallback is None
        },
{
}

/// The registration holds the key of the provider, and nothing of another.
pub open spec fn registers(r: RegistrationV, p: Option<KeyedProvider>, kind: ProviderKind, id: Seq<char>) -> bool {
    p matches Some(k) && r.kind == kind && r.id == id && r.api_key == k.api_key@
}

/// Of the providers those with a key are registered, and only those: each under its
/// name, of its kind and with its own key.
pub proof fn law_all_keyed_providers_are_registered(p: ProviderSettings, i: int)
    ensures
        registrations(p).len() == (if has_key(p.openai) {
            1int
        } else {
            0
        }) + (if has_key(p.openrouter) {
            1int
        } else {
            0
        }) + (if has_key(p.anthropic) {
            1int
        } else {
            0
        }) + (if has_key(p.gemini) {
            1int
        } else {
            0
        }) + (if has_key(p.mistral) {
            1int
        } else {
            0
        }),
        0 <= i < registrations(p).len() ==> ({
            let r = registrations(p)[i];
            ||| registers(r, p.openai, ProviderKind::OpenAi, "openai"@) && r.base_url is None
            ||| registers(r, p.openrouter, ProviderKind::OpenAi, "openrouter"@) && r.base_url == Some(
                "https://openrouter.ai/api/v1"@,
            )
            ||| registers(r, p.anthropic, ProviderKind::Anthropic, "anthropic"@) && r.model == p.anthropic_model@
            ||| registers(r, p.gemini, ProviderKind::Gemini, "gemini"@)
            ||| registers(r, p.mistral, ProviderKind::Mistral, "mistral"@)
        }),
{
    let a = registered(p.openai, ProviderKind::OpenAi, "openai"@, "gpt-4o"@, None, true);
    let b = registered(
        p.openrouter,
        ProviderKind::OpenAi,
        "openrouter"@,
        "openai/gpt-4o-mini"@,
        Some("https://openrouter.ai/api/v1"@),
        true,
    );
    let c = registered(p.anthropic, ProviderKind::Anthropic, "anthropic"@, p.anthropic_model@, None, false);
    let d = registered(p.gemini, ProviderKind::Gemini, "gemini"@, "gemini-2.5-flash"@, None, false);
    let e = registered(p.mistral, ProviderKind::Mistral, "mistral"@, "mistral-large-latest"@, None, false);
    let all = registrations(p);
    assert(all == a + b + c + d + e);
    if 0 <= i < all.len() {
        let j = i - a.len();
        let k = j - b.len();
        let l = k - c.len();
        let m = l - d.len();
        if i < a.len() {
            assert(all[i] == a[i]);
        } else if j < b.len() {
            assert(all[i] == b[j]);
        } else if k < c.len() {
            assert(all[i] == c[k]);
        } else if l < d.len() {
            assert(all[i] == d[l]);
        } else {
            assert(all[i] == e[m]);
        }
    }
}

/// A local agent gets its own model, else the provider's, else the usual one; any
/// other agent gets the registered provider that it names. Without one the agent
/// and its provider are named in the refusal.
pub proof fn law_agents_get_their_provider(agent: AgentSettings, p: ProviderSettings, ids: Seq<Seq<char>>)
    ensures
        agent.provider@ == "ollama"@ ==> (p.ollama matches Some(o) ==> choice(agent, p, ids) == Some(
            ChoiceV::Ollama {
                base_url: o.base_url@,
                model: if agent.model@.len() > 0 {
                    agent.model@
                } else {
                    match o.model {
                        Some(m) => m@,
                        None => "llama3.2"@,
                    }
                },
            },
        )),
        agent.provider@ == "ollama"@ && p.ollama is None ==> choice(agent, p, ids) is None,
        agent.provider@ != "ollama"@ ==> (choice(agent, p, ids) is Some <==> ids.contains(agent.provider@)),
        agent.provider@ != "ollama"@ && ids.contains(agent.provider@) ==> choice(agent, p, ids) == Some(
            ChoiceV::Registered(agent.provider@),
        ),
        no_provider(agent) matches DaemonErrorV::Provider(m) && contains(m, agent.id@),
        agent.provider@ != "ollama"@ ==> (no_session_provider(agent) matches DaemonErrorV::Provider(m) && contains(
            m,
            agent.provider@,
        )),
{
    law_parts_are_found("Ollama provider not configured for agent '"@, agent.id@, "'"@);
    law_parts_are_found("Provider '"@ + agent.provider@ + "' not configured for agent '"@, agent.id@, "'"@);
    law_parts_are_found("Provider '"@, agent.provider@, "' not configured"@);
}

/// A worker keeps its id, its name, its prompt and its tools, and has its own budget
/// or the usual one.
pub proof fn law_workers_are_as_configured(a: AgentSettings, budget: usize)
    ensures
        ({
            let w = worker_of(a, budget);
            &&& w.id == a.id@
            &&& w.name == a.name@
            &&& a.system_prompt matches Some(s) ==> w.system_prompt == s@
            &&& a.system_prompt is None ==> w.system_prompt.len() == 0
            &&& w.tools == views(a.tools@)
            &&& a.token_budget matches Some(b) ==> w.token_budget == b
            &&& a.token_budget is None ==> w.token_budget == budget
        }),
{
}

/// The agent is a worker in a workflow that the leader leads.
pub open spec fn works_for(a: AgentSettings, workflows: Seq<WorkflowSettings>, leader: Seq<char>) -> bool {
    a.role == AgentRole::Worker && follows(workflows, leader, a.id@, workflows.len() as int)
}

proof fn lemma_workers(agents: Seq<AgentSettings>, workflows: Seq<WorkflowSettings>, leader: Seq<char>, budget: usize)
    ensures
        workers_of(agents, workflows, leader, budget).len() == agents.filter(
            |a: AgentSettings| works_for(a, workflows, leader),
        ).len(),
        forall|i: int|
            0 <= i < workers_of(agents, workflows, leader, budget).len() ==> #[trigger] workers_of(
                agents,
                workflows,
                leader,
                budget,
            )[i] == worker_of(agents.filter(|a: AgentSettings| works_for(a, workflows, leader))[i], budget),
    decreases agents.len(),
{
    reveal(Seq::filter);
    if agents.len() > 0 {
        lemma_workers(agents.drop_last(), workflows, leader, budget);
        let f = |a: AgentSettings| works_for(a, workflows, leader);
        let rest = agents.drop_last().filter(f);
        let all = agents.filter(f);
        let t = workers_of(agents, workflows, leader, budget);
        assert forall|i: int| 0 <= i < t.len() implies #[trigger] t[i] == worker_of(all[i], budget) by {
            if i < rest.len() {
                assert(all[i] == rest[i]);
                assert(t[i] == workers_of(agents.drop_last(), workflows, leader, budget)[i]);
            }
        }
    }
}

/// A coordinator has all workers of the workflows that it leads, in order, and the
/// methods of the first of these; every other agent works on its own.
pub proof fn law_coordinators_have_their_workers(agent: AgentSettings, config: AxocoatlConfig, budget: usize)
    ensures
        agent.role != AgentRole::Coordinator ==> behavior_of(agent, config, budget) == BehaviorV::Solo,
        agent.role == AgentRole::Coordinator ==> (behavior_of(agent, config, budget) matches BehaviorV::Coordinator {
            workers,
            methods_file,
        } && {
            let mine = config.agents@.filter(|a: AgentSettings| works_for(a, config.workflows@, agent.id@));
            &&& workers.len() == mine.len()
            &&& forall|i: int| 0 <= i < workers.len() ==> #[trigger] workers[i] == worker_of(mine[i], budget)
            &&& methods_file == methods_from(config.workflows@, agent.id@, 0)
        }),
{
    lemma_workers(config.agents@, config.workflows@, agent.id@, budget);
}

/// The methods of a coordinator are those of the first workflow that it leads.
pub proof fn law_methods_are_of_the_first_led(workflows: Seq<WorkflowSettings>, leader: Seq<char>, i: int, k: int)
    requires
        0 <= i,
    ensures
        i <= k < workflows.len() && led_by(workflows[k], leader) && (forall|j: int|
            i <= j < k ==> !led_by(#[trigger] workflows[j], leader)) ==> methods_from(workflows, leader, i) == opt_view(
            workflows[k].htn_methods_file,
        ),
        (forall|j: int| i <= j < workflows.len() ==> !led_by(#[trigger] workflows[j], leader)) ==> methods_from(
            workflows,
            leader,
            i,
        ) is None,
        i < workflows.len() ==> (led_by(workflows[i], leader) <==> (workflows[i].entry_point matches Some(e) && e@ == leader)),
    decreases workflows.len() - i,
{
    if i < workflows.len() && !led_by(workflows[i], leader) {
        law_methods_are_of_the_first_led(workflows, leader, i + 1, k);
    }
}

/// An agent is started under its id, with its provider, its behaviour and its
/// activation; one without a provider is the error.
pub proof fn law_agents_are_started_as_configured(agent: AgentSettings, config: AxocoatlConfig, ids: Seq<Seq<char>>, budget: usize)
    ensures
        choice(agent, config.providers, ids) matches Some(c) ==> (spawn_of(agent, config, ids, budget) matches Ok(s)
            && s.agent_id == agent.id@ && s.provider == c && s.behavior == behavior_of(agent, config, budget) && s.threshold
            == activation(agent).0 && s.decay == activation(agent).1),
        choice(agent, config.providers, ids) is None ==> spawn_of(agent, config, ids, budget) == Err::<SpawnV, DaemonErrorV>(
            no_provider(agent),
        ),
        agent.activation_threshold matches Some(t) ==> activation(agent).0 == Threshold::Given(t),
        agent.activation_decay matches Some(d) ==> activation(agent).1 == Decay::Given(d),
        agent.activation_decay is None && agent.depends_on@.len() == 0 ==> activation(agent).1 == Decay::Never,
        agent.activation_decay is None && agent.depends_on@.len() > 0 ==> activation(agent).1 == Decay::Hundredth,
{
}

/// The agent is started with the daemon.
pub open spec fn starts_itself(a: AgentSettings) -> bool {
    a.role != AgentRole::Worker
}

/// All agents but workers are started, in order, each as it is configured.
pub proof fn law_all_but_workers_are_started(agents: Seq<AgentSettings>, config: AxocoatlConfig, ids: Seq<Seq<char>>, budget: usize)
    ensures
        spawns(agents, config, ids, budget) matches Ok(list) ==> {
            let mine = agents.filter(|a: AgentSettings| starts_itself(a));
            &&& list.len() == mine.len()
            &&& forall|i: int|
                0 <= i < list.len() ==> spawn_of(mine[i], config, ids, budget) == Ok::<SpawnV, DaemonErrorV>(
                    #[trigger] list[i],
                )
        },
        spawns(agents, config, ids, budget) is Err <==> exists|i: int|
            0 <= i < agents.len() && starts_itself(#[trigger] agents[i]) && spawn_of(agents[i], config, ids, budget) is Err,
    decreases agents.len(),
{
    reveal(Seq::filter);
    if agents.len() > 0 {
        let less = agents.drop_last();
        law_all_but_workers_are_started(less, config, ids, budget);
        let f = |a: AgentSettings| starts_itself(a);
        let rest = less.filter(f);
        let all = agents.filter(f);
        if let Ok(t) = spawns(agents, config, ids, budget) {
            assert forall|i: int| 0 <= i < t.len() implies spawn_of(all[i], config, ids, budget) == Ok::<SpawnV, DaemonErrorV>(
                #[trigger] t[i],
            ) by {
                if i < rest.len() {
                    assert(all[i] == rest[i]);
                    assert(t[i] == (spawns(less, config, ids, budget)->Ok_0)[i]);
                }
            }
            assert forall|i: int| 0 <= i < agents.len() && starts_itself(#[trigger] agents[i]) implies !(spawn_of(
                agents[i],
                config,
                ids,
                budget,
            ) is Err) by {
                if i < less.len() {
                    assert(less[i] == agents[i]);
                }
            }
        } else {
            if spawns(less, config, ids, budget) is Err {
                let i = choose|i: int|
                    0 <= i < less.len() && starts_itself(#[trigger] less[i]) && spawn_of(less[i], config, ids, budget) is Err;
                assert(agents[i] == less[i]);
            } else {
                assert(agents[agents.len() - 1] == agents.last());
                assert(starts_itself(agents[agents.len() - 1]));
            }
        }
    }
}

/// A tool server is reached by its command or at its address, as its transport
/// says, with all that it is configured with; and else not at all.
pub proof fn law_tool_servers_are_reached(s: McpServer)
    ensures
        s.transport@ == "stdio"@ ==> (s.command matches Some(c) ==> transport_of(s) == Some(
            TransportV::Stdio { command: c@, args: views(s.args@) },
        )),
        s.transport@ == "stdio"@ && s.command is None ==> transport_of(s) is None,
        s.transport@ == "http"@ || s.transport@ == "streamable_http"@ ==> (s.url matches Some(u) ==> transport_of(s) == Some(
            TransportV::StreamableHttp { url: u@, headers: pair_views(s.headers@) },
        )),
        (s.transport@ == "http"@ || s.transport@ == "streamable_http"@) && s.url is None ==> transport_of(s) is None,
        s.transport@ != "stdio"@ && s.transport@ != "http"@ && s.transport@ != "streamable_http"@ ==> transport_of(s) is None,
{
    lemma_names();
}

/// The server can be reached.
pub open spec fn can_be_reached(s: McpServer) -> bool {
    transport_of(s) is Some
}

/// All servers that can be reached are connected to, in order and under their
/// names.
pub proof fn law_all_servers_are_connected(servers: Seq<McpServer>)
    ensures
        reached(servers).len() == servers.filter(|s: McpServer| can_be_reached(s)).len(),
        forall|i: int|
            0 <= i < reached(servers).len() ==> ({
                let s = servers.filter(|s: McpServer| can_be_reached(s))[i];
                (#[trigger] reached(servers)[i]).0 == s.name@ && Some(reached(servers)[i].1) == transport_of(s)
            }),
    decreases servers.len(),
{
    reveal(Seq::filter);
    if servers.len() > 0 {
        law_all_servers_are_connected(servers.drop_last());
        let f = |s: McpServer| can_be_reached(s);
        let rest = servers.drop_last().filter(f);
        let all = servers.filter(f);
        let t = reached(servers);
        assert forall|i: int| 0 <= i < t.len() implies (#[trigger] t[i]).0 == all[i].name@ && Some(t[i].1) == transport_of(
            all[i],
        ) by {
            if i < rest.len() {
                assert(all[i] == rest[i]);
                assert(t[i] == reached(servers.drop_last())[i]);
            }
        }
    }
}

/// The agent should run and does not.
pub open spec fn is_missing(a: AgentSettings, alive: Seq<Seq<char>>) -> bool {
    a.role != AgentRole::Worker && !alive.contains(a.id@)
}

/// The agents that should run and do not are listed, all of them and in order.
pub proof fn law_missing_agents_are_listed(agents: Seq<AgentSettings>, alive: Seq<Seq<char>>)
    ensures
        dead(agents, alive).len() == agents.filter(|a: AgentSettings| is_missing(a, alive)).len(),
        forall|i: int|
            0 <= i < dead(agents, alive).len() ==> #[trigger] dead(agents, alive)[i] == agents.filter(
                |a: AgentSettings| is_missing(a, alive),
            )[i].id@,
    decreases agents.len(),
{
    reveal(Seq::filter);
    if agents.len() > 0 {
        law_missing_agents_are_listed(agents.drop_last(), alive);
        let f = |a: AgentSettings| is_missing(a, alive);
        let rest = agents.drop_last().filter(f);
        let all = agents.filter(f);
        let t = dead(agents, alive);
        assert forall|i: int| 0 <= i < t.len() implies #[trigger] t[i] == all[i].id@ by {
            if i < rest.len() {
                assert(all[i] == rest[i]);
                assert(t[i] == dead(agents.drop_last(), alive)[i]);
            }
        }
    }
}

/// An event is added behind the others; of a full log of two hundred the oldest
/// leaves.
pub proof fn law_events_are_added_last<T>(log: Seq<T>, event: T)
    ensures
        log.len() < 200 ==> logged(log, event) == log.push(event),
        log.len() >= 200 ==> logged(log, event) == log.drop_first().push(event),
{
    if log.len() >= 200 {
        assert(log.skip(1) =~= log.drop_first());
    }
}

/// Sessions are listed newest first.
pub proof fn law_sessions_are_listed_newest_first<'a>(list: Seq<&'a Session>, i: int, j: int)
    requires
        sorted(list),
        0 <= i < j < list.len(),
    ensures
        list[i].created_at >= list[j].created_at,
{
    assert(!<&'a Session>::comes_before(list[j], list[i]));
}

/// A workflow knows of each of its configured agents whom it depends on, and of no
/// other.
pub proof fn law_workflows_know_the_dependencies(names: Seq<Seq<char>>, agents: Seq<AgentSettings>, name: Seq<char>)
    ensures
        dependencies(names, agents).dom().contains(name) <==> names.contains(name) && agent_from(agents, name, 0) is Some,
        names.contains(name) ==> (agent_from(agents, name, 0) matches Some(i) ==> dependencies(names, agents)[name] == views(
            agents[i].depends_on@,
        )),
    decreases names.len(),
{
    if names.len() > 0 {
        let less = names.drop_last();
        law_workflows_know_the_dependencies(less, agents, name);
        if names.contains(name) && name != names.last() {
            let k = choose|k: int| 0 <= k < names.len() && names[k] == name;
            assert(less[k] == name);
            assert(less.contains(name));
        }
        if less.contains(name) {
            let k = choose|k: int| 0 <= k < less.len() && less[k] == name;
            assert(names[k] == name);
        }
        assert(names[names.len() - 1] == names.last());
    }
}

} // verus!
