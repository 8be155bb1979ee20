//! Variants: one agent's work explored several times over, each time in a git
//! worktree on a branch of its own under `.axo-variants`.
//!
//! Making the worktrees and taking one variant over are sequences of commands.
//! `VariantSetup` and `Adoption` say which command is next and take its outcome.
use vstd::prelude::*;

use crate::daemon::automation_executor::{DaemonError, DaemonErrorV, full_lines, non_empty_lines};
use crate::daemon::config::{AxocoatlConfig, find_workflow, workflow_from};
use crate::daemon::frames::{FrameV, StreamFrame};
use crate::daemon::git;
use crate::daemon::git::{Variant, VariantStatus, file_views, files_of, parse_status, readable};
use crate::daemon::sessions::scoped_id;
use crate::daemon::topology::{all_needs, run_order, topo_order};
use crate::isolation::session_sandbox::ExecResult;
use crate::session::{ModeV, Session, SessionMode};
use crate::table::{Ranked, sort, sorted};
use crate::text::{concat, contains, decimal, decimal_text, has, lemma_decimal, lemma_decimal_injective, lines, lines_of, parse_number, push_text,
    read_number, strip, stripped, trim, trimmed, unsigned, views};

verus! {

// ---------------------------------------------------------------------------
// Names
// ---------------------------------------------------------------------------

/// The most variants of one run.
pub const MAX_VARIANTS: usize = 100;

/// The branch of a variant.
pub open spec fn branch_of(i: nat) -> Seq<char> {
    "axo/variant-"@ + decimal(i)
}

/// The directory of all variants of a session.
pub open spec fn variants_dir(dir: Seq<char>) -> Seq<char> {
    dir + "/.axo-variants"@
}

/// The worktree of a variant.
pub open spec fn worktree_of(dir: Seq<char>, i: nat) -> Seq<char> {
    dir + "/.axo-variants/"@ + decimal(i)
}

/// The name of an agent in a variant.
pub open spec fn variant_agent(session: Seq<char>, i: nat, agent: Seq<char>) -> Seq<char> {
    session + "#"@ + decimal(i) + ":"@ + agent
}

/// The name of the run of a variant.
pub open spec fn variant_run(session: Seq<char>, i: nat) -> Seq<char> {
    session + "#"@ + decimal(i)
}

fn branch_text(i: usize) -> (r: String)
    ensures
        r@ == branch_of(i as nat),
{
    concat("axo/variant-", decimal_text(i as u64).as_str())
}

fn variants_dir_text(dir: &str) -> (r: String)
    ensures
        r@ == variants_dir(dir@),
{
    concat(dir, "/.axo-variants")
}

/// The worktree of a variant.
pub fn worktree_text(dir: &str, i: usize) -> (r: String)
    ensures
        r@ == worktree_of(dir@, i as nat),
{
    let head = concat(dir, "/.axo-variants/");
    concat(head.as_str(), decimal_text(i as u64).as_str())
}

/// The name of the run of a variant.
pub fn variant_run_text(session_id: &str, i: usize) -> (r: String)
    ensures
        r@ == variant_run(session_id@, i as nat),
{
    let head = concat(session_id, "#");
    concat(head.as_str(), decimal_text(i as u64).as_str())
}

/// The name of an agent in a variant.
pub fn variant_actor(session_id: &str, i: usize, agent_id: &str) -> (r: String)
    ensures
        r@ == variant_agent(session_id@, i as nat, agent_id@),
{
    let head = concat(variant_run_text(session_id, i).as_str(), ":");
    concat(head.as_str(), agent_id)
}

/// The variant that a branch is, if it is one.
pub open spec fn variant_in(branch: Seq<char>) -> Option<usize> {
    match strip(branch, "axo/variant-"@) {
        Some(rest) => match parse_number(rest, usize::MAX as u64) {
            Some(n) => Some(n as usize),
            None => None,
        },
        None => None,
    }
}

/// The variant that a branch is, if it is one.
pub fn variant_index(branch: &str) -> (r: Option<usize>)
    ensures
        r == variant_in(branch@),
{
    match stripped(branch, "axo/variant-") {
        Some(rest) => match read_number(rest.as_str(), usize::MAX as u64) {
            Some(n) => Some(n as usize),
            None => None,
        },
        None => None,
    }
}

/// The branch of a variant is read back as that variant.
pub proof fn law_branches_are_read_back(i: usize)
    ensures
        variant_in(branch_of(i as nat)) == Some(i),
{
    let p = "axo/variant-"@;
    let b = branch_of(i as nat);
    let d = decimal(i as nat);
    lemma_decimal(i as nat);
    assert(b.subrange(0, p.len() as int) =~= p);
    assert(b.subrange(p.len() as int, b.len() as int) =~= d);
    assert(crate::text::is_digit(d[0]));
    assert(unsigned(d) == d);
}

// ---------------------------------------------------------------------------
// Who works in a variant
// ---------------------------------------------------------------------------

/// The agent with which some agents begin: the first of the order in which they
/// run.
pub open spec fn entry(config: AxocoatlConfig, agents: Seq<Seq<char>>) -> Seq<char> {
    run_order(agents, all_needs(config.agents@, agents))[0]
}

/// The agent that each variant runs: the only one, or the one that the session
/// begins with. A workflow may name that one itself.
pub open spec fn primary(config: AxocoatlConfig, mode: ModeV) -> Result<Seq<char>, DaemonErrorV> {
    match mode {
        ModeV::SingleAgent { agent_id } => Ok(agent_id),
        ModeV::Custom { agents } => if agents.len() > 0 {
            Ok(entry(config, agents))
        } else {
            Err(DaemonErrorV::Session("session has no agents"@))
        },
        ModeV::Lattice { workflow_id } => {
            let found: Option<int> = match workflow_id {
                Some(id) => workflow_from(config.workflows@, id, 0),
                None => if config.workflows@.len() > 0 {
                    Some(0)
                } else {
                    None
                },
            };
            match found {
                Some(i) => {
                    let w = config.workflows@[i];
                    if w.agents@.len() == 0 {
                        Err(DaemonErrorV::Session("no workflow agent for variants"@))
                    } else {
                        match w.entry_point {
                            Some(e) => Ok(e@),
                            None => Ok(entry(config, views(w.agents@))),
                        }
                    }
                },
                None => Err(DaemonErrorV::Session("no workflow agent for variants"@)),
            }
        },
    }
}

fn first_to_run(config: &AxocoatlConfig, agents: &Vec<String>) -> (r: String)
    requires
        agents@.len() > 0,
    ensures
        r@ == entry(*config, views(agents@)),
{
    let order = topo_order(agents, &config.agents);
    proof {
        assert(views(order@).len() == order@.len());
        assert(views(agents@).len() == agents@.len());
        assert(views(order@)[0] == order@[0]@);
    }
    order[0].clone()
}

/// The agent that each variant runs.
pub fn primary_session_agent(config: &AxocoatlConfig, session: &Session) -> (r: Result<String, DaemonError>)
    ensures
        match r {
            Ok(a) => primary(*config, session@.mode) == Ok::<Seq<char>, DaemonErrorV>(a@),
            Err(e) => primary(*config, session@.mode) == Err::<Seq<char>, DaemonErrorV>(e@),
        },
{
    match &session.mode {
        SessionMode::SingleAgent { agent_id } => Ok(agent_id.clone()),
        SessionMode::Custom { agents } => {
            proof {
                assert(views(agents@).len() == agents@.len());
            }
            if agents.len() > 0 {
                Ok(first_to_run(config, agents))
            } else {
                Err(DaemonError::Session("session has no agents".to_owned()))
            }
        },
        SessionMode::Lattice { workflow_id } => {
            let found: Option<usize> = match workflow_id {
                Some(id) => find_workflow(&config.workflows, id.as_str()),
                None => if config.workflows.len() > 0 {
                    Some(0)
                } else {
                    None
                },
            };
            match found {
                Some(i) => {
                    let w = &config.workflows[i];
                    if w.agents.len() > 0 {
                        return match &w.entry_point {
                            Some(e) => Ok(e.clone()),
                            None => Ok(first_to_run(config, &w.agents)),
                        };
                    }
                },
                None => {},
            }
            Err(DaemonError::Session("no workflow agent for variants".to_owned()))
        },
    }
}

/// Refuses a number of variants that is out of range.
pub fn check_variant_count(n: usize) -> (r: Result<(), DaemonError>)
    ensures
        match r {
            Ok(_) => 1 <= n <= MAX_VARIANTS,
            Err(e) => !(1 <= n <= MAX_VARIANTS) && e@ == DaemonErrorV::Session(
                "variant count must be between 1 and 100"@,
            ),
        },
{
    if 1 <= n && n <= MAX_VARIANTS {
        Ok(())
    } else {
        Err(DaemonError::Session("variant count must be between 1 and 100".to_owned()))
    }
}

/// The lanes of a run: the agent that works in each, the name of that agent and
/// the name of the run.
#[derive(Debug)]
pub struct VariantPlan {
    pub agent: String,
    pub lanes: Vec<(String, String)>,
}

/// The lane of the `i`-th variant.
pub open spec fn is_lane(lane: (String, String), session: Seq<char>, i: nat, agent: Seq<char>) -> bool {
    lane.0@ == variant_agent(session, i, agent) && lane.1@ == variant_run(session, i)
}

/// What a run of so many variants consists of. The number is looked at before
/// the agent.
pub fn execute_session_variants(config: &AxocoatlConfig, session: &Session, n: usize) -> (r: Result<
    VariantPlan,
    DaemonError,
>)
    ensures
        match r {
            Ok(plan) => {
                &&& 1 <= n <= MAX_VARIANTS
                &&& primary(*config, session@.mode) == Ok::<Seq<char>, DaemonErrorV>(plan.agent@)
                &&& plan.lanes@.len() == n
                &&& forall|i: int|
                    0 <= i < n ==> is_lane(#[trigger] plan.lanes@[i], session@.id, i as nat, plan.agent@)
            },
            Err(e) => if 1 <= n <= MAX_VARIANTS {
                primary(*config, session@.mode) == Err::<Seq<char>, DaemonErrorV>(e@)
            } else {
                e@ == DaemonErrorV::Session("variant count must be between 1 and 100"@)
            },
        },
{
    match check_variant_count(n) {
        Ok(_) => {},
        Err(e) => {
            return Err(e);
        },
    }
    let agent = match primary_session_agent(config, session) {
        Ok(a) => a,
        Err(e) => {
            return Err(e);
        },
    };
    let mut lanes: Vec<(String, String)> = Vec::new();
    let id = session.id.as_str();
    let mut i: usize = 0;
    while i < n
        invariant
            i <= n,
            lanes@.len() == i,
            id@ == session@.id,
            forall|k: int| 0 <= k < i ==> is_lane(#[trigger] lanes@[k], session@.id, k as nat, agent@),
        decreases n - i,
    {
        lanes.push((variant_actor(id, i, agent.as_str()), variant_run_text(id, i)));
        i += 1;
    }
    Ok(VariantPlan { agent, lanes })
}

/// The names of variants collide neither with each other nor with those of the
/// session itself: a name tells which variant it is of.
pub proof fn law_variants_do_not_collide(session: Seq<char>, i: nat, j: nat, a: Seq<char>, b: Seq<char>)
    ensures
        variant_agent(session, i, a) == variant_agent(session, j, b) ==> i == j && a == b,
        variant_run(session, i) == variant_run(session, j) ==> i == j,
        variant_agent(session, i, a) != scoped_id(session, b),
        variant_run(session, i) != session,
{
    reveal_strlit("#");
    reveal_strlit(":");
    lemma_decimal(i);
    lemma_decimal(j);
    let n = session.len() as int;
    let di = decimal(i);
    let dj = decimal(j);
    let x = variant_agent(session, i, a);
    let y = variant_agent(session, j, b);
    assert(x[n] == '#');
    assert(scoped_id(session, b)[n] == ':');
    if variant_run(session, i) == variant_run(session, j) {
        let u = variant_run(session, i);
        assert(u.subrange(n + 1, u.len() as int) =~= di);
        assert(variant_run(session, j).subrange(n + 1, u.len() as int) =~= dj);
        lemma_decimal_injective(i, j);
    }
    if x == y {
        assert(x[n + 1 + di.len()] == ':');
        assert(y[n + 1 + dj.len()] == ':');
        if di.len() < dj.len() {
            assert(y[n + 1 + di.len()] == dj[di.len() as int]);
        }
        if dj.len() < di.len() {
            assert(x[n + 1 + dj.len()] == di[dj.len() as int]);
        }
        assert(x.subrange(n + 1, n + 1 + di.len()) =~= di);
        assert(y.subrange(n + 1, n + 1 + dj.len()) =~= dj);
        lemma_decimal_injective(i, j);
        assert(x.subrange(n + 2 + di.len(), x.len() as int) =~= a);
        assert(y.subrange(n + 2 + dj.len(), y.len() as int) =~= b);
    }
}

/// What those who watch are told when a variant's run ends.
pub fn variant_ended(run: &str, result: Result<(usize, usize), String>) -> (r: StreamFrame)
    ensures
        r@ == match result {
            Ok(t) => (FrameV::SessionDone {
                session: run@,
                input_tokens: t.0 as u64,
                output_tokens: t.1 as u64,
            }),
            Err(e) => (FrameV::SessionError { session: run@, error: e@ }),
        },
{
    match result {
        Ok(t) => StreamFrame::SessionDone {
            session: run.to_owned(),
            input_tokens: t.0 as u64,
            output_tokens: t.1 as u64,
        },
        Err(error) => StreamFrame::SessionError { session: run.to_owned(), error },
    }
}

// ---------------------------------------------------------------------------
// Commands
// ---------------------------------------------------------------------------

/// What is to be done next.
#[derive(Debug)]
pub enum VariantAction {
    /// A command in the container.
    Exec { argv: Vec<String>, secs: u64 },
    /// A git command in a directory.
    Git { cwd: String, args: Vec<String> },
    /// The removal of all variants.
    Clear,
    /// Nothing more.
    Done,
}

pub enum ActionV {
    Exec { argv: Seq<Seq<char>>, secs: u64 },
    Git { cwd: Seq<char>, args: Seq<Seq<char>> },
    Clear,
    Done,
}

impl View for VariantAction {
    type V = ActionV;

    open spec fn view(&self) -> ActionV {
        match *self {
            VariantAction::Exec { argv, secs } => ActionV::Exec { argv: views(argv@), secs },
            VariantAction::Git { cwd, args } => ActionV::Git { cwd: cwd@, args: views(args@) },
            VariantAction::Clear => ActionV::Clear,
            VariantAction::Done => ActionV::Done,
        }
    }
}

pub open spec fn action_views(v: Seq<VariantAction>) -> Seq<ActionV> {
    v.map_values(|a: VariantAction| a@)
}

/// What came of a command.
pub type CommandResult = Result<ExecResult, DaemonError>;

/// The script that keeps the variants out of the repository's status.
pub open spec fn exclude_script(dir: Seq<char>) -> Seq<char> {
    let file = dir + "/.git/info/exclude"@;
    "grep -qxF '.axo-variants/' '"@ + file + "' 2>/dev/null || echo '.axo-variants/' >> '"@ + file + "'"@
}

fn exclude_script_text(dir: &str) -> (r: String)
    ensures
        r@ == exclude_script(dir@),
{
    let file = concat(dir, "/.git/info/exclude");
    let a = concat("grep -qxF '.axo-variants/' '", file.as_str());
    let b = concat(a.as_str(), "' 2>/dev/null || echo '.axo-variants/' >> '");
    let c = concat(b.as_str(), file.as_str());
    concat(c.as_str(), "'")
}

fn words(a: &str, b: &str, c: &str) -> (r: Vec<String>)
    ensures
        views(r@) == seq![a@, b@, c@],
{
    let mut v: Vec<String> = Vec::new();
    push_text(&mut v, a);
    push_text(&mut v, b);
    push_text(&mut v, c);
    proof {
        assert(views(v@) =~= seq![a@, b@, c@]);
    }
    v
}

// ---------------------------------------------------------------------------
// Making variants
// ---------------------------------------------------------------------------

/// Where the making of variants stands.
#[derive(Debug)]
pub enum SetupPhase {
    Exclude,
    ClearOld,
    MakeDir,
    DropBranch,
    AddWorktree,
    RollBack(DaemonError),
    Failed(DaemonError),
    Finished,
}

pub enum PhaseV {
    Exclude,
    ClearOld,
    MakeDir,
    DropBranch,
    AddWorktree,
    RollBack(DaemonErrorV),
    Failed(DaemonErrorV),
    Finished,
}

impl View for SetupPhase {
    type V = PhaseV;

    open spec fn view(&self) -> PhaseV {
        match *self {
            SetupPhase::Exclude => PhaseV::Exclude,
            SetupPhase::ClearOld => PhaseV::ClearOld,
            SetupPhase::MakeDir => PhaseV::MakeDir,
            SetupPhase::DropBranch => PhaseV::DropBranch,
            SetupPhase::AddWorktree => PhaseV::AddWorktree,
            SetupPhase::RollBack(e) => PhaseV::RollBack(e@),
            SetupPhase::Failed(e) => PhaseV::Failed(e@),
            SetupPhase::Finished => PhaseV::Finished,
        }
    }
}

/// The making of some variants.
#[derive(Debug)]
pub struct VariantSetup {
    dir: String,
    wanted: usize,
    made: usize,
    phase: SetupPhase,
}

pub struct SetupV {
    pub dir: Seq<char>,
    pub wanted: usize,
    pub made: usize,
    pub phase: PhaseV,
}

impl View for VariantSetup {
    type V = SetupV;

    closed spec fn view(&self) -> SetupV {
        SetupV { dir: self.dir@, wanted: self.wanted, made: self.made, phase: self.phase@ }
    }
}

/// The error where a worktree could not be added.
pub open spec fn not_added(made: usize, wanted: usize, stderr: Seq<char>) -> DaemonErrorV {
    DaemonErrorV::Session(
        "couldn't create variant "@ + decimal((made + 1) as nat) + " of "@ + decimal(wanted as nat) + " ("@ + trim(
            stderr,
        ) + "). Try fewer variants."@,
    )
}

impl SetupV {
    /// No more were made than are wanted, and one is left to be made.
    pub open spec fn wf(self) -> bool {
        &&& self.made <= self.wanted
        &&& self.phase is DropBranch || self.phase is AddWorktree ==> self.made < self.wanted
        &&& self.phase is Finished ==> self.made == self.wanted
    }

    /// What is next.
    pub open spec fn next(self) -> ActionV {
        match self.phase {
            PhaseV::Exclude => ActionV::Exec { argv: seq!["sh"@, "-c"@, exclude_script(self.dir)], secs: 10 },
            PhaseV::ClearOld => ActionV::Clear,
            PhaseV::MakeDir => ActionV::Exec { argv: seq!["mkdir"@, "-p"@, variants_dir(self.dir)], secs: 10 },
            PhaseV::DropBranch => ActionV::Git {
                cwd: self.dir,
                args: seq!["branch"@, "-D"@, branch_of(self.made as nat)],
            },
            PhaseV::AddWorktree => ActionV::Git {
                cwd: self.dir,
                args: seq![
                    "worktree"@,
                    "add"@,
                    "-q"@,
                    "-b"@,
                    branch_of(self.made as nat),
                    worktree_of(self.dir, self.made as nat),
                    "HEAD"@,
                ],
            },
            PhaseV::RollBack(_) => ActionV::Clear,
            PhaseV::Failed(_) => ActionV::Done,
            PhaseV::Finished => ActionV::Done,
        }
    }

    /// The phase in which the next variant is made, or the last one.
    pub open spec fn onward(made: usize, wanted: usize) -> PhaseV {
        if made < wanted {
            PhaseV::DropBranch
        } else {
            PhaseV::Finished
        }
    }

    /// What follows the outcome of what was next. Only the outcome of adding a
    /// worktree matters.
    pub open spec fn after(self, outcome: CommandResult) -> SetupV {
        match self.phase {
            PhaseV::Exclude => SetupV { phase: PhaseV::ClearOld, ..self },
            PhaseV::ClearOld => SetupV { phase: PhaseV::MakeDir, ..self },
            PhaseV::MakeDir => SetupV { phase: Self::onward(self.made, self.wanted), ..self },
            PhaseV::DropBranch => SetupV { phase: PhaseV::AddWorktree, ..self },
            PhaseV::AddWorktree => match outcome {
                Err(e) => SetupV { phase: PhaseV::RollBack(e@), ..self },
                Ok(r) => if r.exit_code != 0 {
                    SetupV { phase: PhaseV::RollBack(not_added(self.made, self.wanted, r.stderr@)), ..self }
                } else {
                    SetupV {
                        made: (self.made + 1) as usize,
                        phase: Self::onward((self.made + 1) as usize, self.wanted),
                        ..self
                    }
                },
            },
            PhaseV::RollBack(e) => SetupV { phase: PhaseV::Failed(e), ..self },
            PhaseV::Failed(_) => self,
            PhaseV::Finished => self,
        }
    }

    /// How many outcomes are still to come at most.
    pub open spec fn left(self) -> nat {
        let each = 2 * (self.wanted - self.made);
        match self.phase {
            PhaseV::Exclude => (each + 4) as nat,
            PhaseV::ClearOld => (each + 3) as nat,
            PhaseV::MakeDir => (each + 2) as nat,
            PhaseV::DropBranch => (each + 1) as nat,
            PhaseV::AddWorktree => each as nat,
            PhaseV::RollBack(_) => 1,
            PhaseV::Failed(_) => 0,
            PhaseV::Finished => 0,
        }
    }
}

/// The making of variants ends, and stays as it is meant to be throughout.
pub proof fn law_setup_ends(st: SetupV, outcome: CommandResult)
    requires
        st.wf(),
    ensures
        st.after(outcome).wf(),
        st.next() != ActionV::Done ==> st.after(outcome).left() < st.left(),
{
}

/// It fails only after all variants were removed again.
pub proof fn law_failed_setup_leaves_nothing(st: SetupV, outcome: CommandResult)
    requires
        !(st.phase is Failed),
        st.after(outcome).phase is Failed,
    ensures
        st.next() == ActionV::Clear,
{
}

/// The variants of a directory: the first `n`.
pub open spec fn is_variant(v: Variant, dir: Seq<char>, i: nat) -> bool {
    v.index == i && v.branch@ == branch_of(i) && v.worktree@ == worktree_of(dir, i)
}

impl VariantSetup {
    /// The making of so many variants.
    pub fn start(dir: &str, wanted: usize) -> (r: VariantSetup)
        ensures
            r@.wf(),
            r@ == (SetupV { dir: dir@, wanted, made: 0, phase: PhaseV::Exclude }),
    {
        VariantSetup { dir: dir.to_owned(), wanted, made: 0, phase: SetupPhase::Exclude }
    }

    /// What is next.
    pub fn next(&self) -> (r: VariantAction)
        ensures
            r@ == self@.next(),
    {
        let dir = self.dir.as_str();
        match &self.phase {
            SetupPhase::Exclude => VariantAction::Exec {
                argv: words("sh", "-c", exclude_script_text(dir).as_str()),
                secs: 10,
            },
            SetupPhase::ClearOld => VariantAction::Clear,
            SetupPhase::MakeDir => VariantAction::Exec {
                argv: words("mkdir", "-p", variants_dir_text(dir).as_str()),
                secs: 10,
            },
            SetupPhase::DropBranch => VariantAction::Git {
                cwd: self.dir.clone(),
                args: words("branch", "-D", branch_text(self.made).as_str()),
            },
            SetupPhase::AddWorktree => {
                let mut args = words("worktree", "add", "-q");
                let branch = branch_text(self.made);
                let worktree = worktree_text(dir, self.made);
                push_text(&mut args, "-b");
                push_text(&mut args, branch.as_str());
                push_text(&mut args, worktree.as_str());
                push_text(&mut args, "HEAD");
                proof {
                    assert(views(args@) =~= seq![
                        "worktree"@,
                        "add"@,
                        "-q"@,
                        "-b"@,
                        branch@,
                        worktree@,
                        "HEAD"@,
                    ]);
                }
                VariantAction::Git { cwd: self.dir.clone(), args }
            },
            SetupPhase::RollBack(_) => VariantAction::Clear,
            SetupPhase::Failed(_) => VariantAction::Done,
            SetupPhase::Finished => VariantAction::Done,
        }
    }

    fn onward(made: usize, wanted: usize) -> (r: SetupPhase)
        ensures
            r@ == SetupV::onward(made, wanted),
    {
        if made < wanted {
            SetupPhase::DropBranch
        } else {
            SetupPhase::Finished
        }
    }

    /// Takes the outcome of what was next.
    pub fn reply(self, outcome: CommandResult) -> (r: VariantSetup)
        requires
            self@.wf(),
        ensures
            r@ == self@.after(outcome),
            r@.wf(),
    {
        let VariantSetup { dir, wanted, made, phase } = self;
        match phase {
            SetupPhase::Exclude => VariantSetup { dir, wanted, made, phase: SetupPhase::ClearOld },
            SetupPhase::ClearOld => VariantSetup { dir, wanted, made, phase: SetupPhase::MakeDir },
            SetupPhase::MakeDir => VariantSetup { dir, wanted, made, phase: Self::onward(made, wanted) },
            SetupPhase::DropBranch => VariantSetup { dir, wanted, made, phase: SetupPhase::AddWorktree },
            SetupPhase::AddWorktree => match outcome {
                Err(e) => VariantSetup { dir, wanted, made, phase: SetupPhase::RollBack(e) },
                Ok(r) => if r.exit_code != 0 {
                    let a = concat("couldn't create variant ", decimal_text((made + 1) as u64).as_str());
                    let b = concat(a.as_str(), " of ");
                    let c = concat(b.as_str(), decimal_text(wanted as u64).as_str());
                    let d = concat(c.as_str(), " (");
                    let f = concat(d.as_str(), trimmed(r.stderr.as_str()).as_str());
                    let e = DaemonError::Session(concat(f.as_str(), "). Try fewer variants."));
                    VariantSetup { dir, wanted, made, phase: SetupPhase::RollBack(e) }
                } else {
                    VariantSetup { dir, wanted, made: made + 1, phase: Self::onward(made + 1, wanted) }
                },
            },
            SetupPhase::RollBack(e) => VariantSetup { dir, wanted, made, phase: SetupPhase::Failed(e) },
            SetupPhase::Failed(e) => VariantSetup { dir, wanted, made, phase: SetupPhase::Failed(e) },
            SetupPhase::Finished => VariantSetup { dir, wanted, made, phase: SetupPhase::Finished },
        }
    }

    /// The variants that were made, or why they were not; nothing while there is
    /// more to do.
    pub fn create_variant_worktrees(self) -> (r: Option<Result<Vec<Variant>, DaemonError>>)
        requires
            self@.wf(),
        ensures
            match self@.phase {
                PhaseV::Finished => r matches Some(Ok(v)) && v@.len() == self@.wanted && forall|i: int|
                    0 <= i < v@.len() ==> is_variant(#[trigger] v@[i], self@.dir, i as nat),
                PhaseV::Failed(e) => r matches Some(Err(f)) && f@ == e,
                _ => r is None,
            },
    {
        let VariantSetup { dir, wanted, made, phase } = self;
        match phase {
            SetupPhase::Finished => {
                let mut out: Vec<Variant> = Vec::new();
                let mut i: usize = 0;
                while i < wanted
                    invariant
                        i <= wanted,
                        out@.len() == i,
                        forall|k: int| 0 <= k < i ==> is_variant(#[trigger] out@[k], dir@, k as nat),
                    decreases wanted - i,
                {
                    out.push(
                        Variant { index: i, branch: branch_text(i), worktree: worktree_text(dir.as_str(), i) },
                    );
                    i += 1;
                }
                Some(Ok(out))
            },
            SetupPhase::Failed(e) => Some(Err(e)),
            _ => None,
        }
    }
}

// ---------------------------------------------------------------------------
// Removing variants
// ---------------------------------------------------------------------------

/// The worktrees of variants in git's listing.
pub open spec fn worktrees_in(ls: Seq<Seq<char>>) -> Seq<Seq<char>>
    decreases ls.len(),
{
    if ls.len() == 0 {
        ls
    } else {
        let earlier = worktrees_in(ls.drop_last());
        match strip(ls.last(), "worktree "@) {
            Some(p) => if contains(p, "/.axo-variants/"@) {
                earlier.push(p)
            } else {
                earlier
            },
            None => earlier,
        }
    }
}

/// The command that removes a worktree.
pub open spec fn removal(dir: Seq<char>, path: Seq<char>) -> ActionV {
    ActionV::Git { cwd: dir, args: seq!["worktree"@, "remove"@, "--force"@, path] }
}

/// The commands that remove all worktrees of variants.
pub open spec fn removals(dir: Seq<char>, listing: Option<Seq<char>>) -> Seq<ActionV> {
    (match listing {
        Some(l) => worktrees_in(lines(l)).map_values(|p: Seq<char>| removal(dir, p)),
        None => Seq::empty(),
    }).push(ActionV::Exec { argv: seq!["rm"@, "-rf"@, variants_dir(dir)], secs: 15 }).push(
        ActionV::Git { cwd: dir, args: seq!["worktree"@, "prune"@] },
    )
}

/// The commands that remove all worktrees of variants, where git's listing of
/// worktrees could be had.
pub fn remove_variant_worktrees(dir: &str, listing: Option<&str>) -> (r: Vec<VariantAction>)
    ensures
        action_views(r@) == removals(
            dir@,
            match listing {
                Some(l) => Some(l@),
                None => None,
            },
        ),
{
    let mut out: Vec<VariantAction> = Vec::new();
    proof {
        assert(action_views(out@) =~= Seq::<ActionV>::empty());
    }
    match listing {
        None => {},
        Some(l) => {
            let ls = lines_of(l);
            let ghost all = lines(l@);
            let mut i: usize = 0;
            proof {
                assert(all.take(0).len() == 0);
                assert(worktrees_in(all.take(0)).map_values(|p: Seq<char>| removal(dir@, p)) =~= Seq::<
                    ActionV,
                >::empty());
            }
            while i < ls.len()
                invariant
                    i <= ls@.len(),
                    all == views(ls@),
                    all == lines(l@),
                    action_views(out@) == worktrees_in(all.take(i as int)).map_values(
                        |p: Seq<char>| removal(dir@, p),
                    ),
                decreases ls@.len() - i,
            {
                let ghost before = out@;
                let ghost found = worktrees_in(all.take(i as int));
                proof {
                    assert(all.take(i + 1).drop_last() =~= all.take(i as int));
                    assert(all.take(i + 1).last() == ls@[i as int]@);
                }
                match stripped(ls[i].as_str(), "worktree ") {
                    Some(p) => {
                        if has(p.as_str(), "/.axo-variants/") {
                            let mut args = words("worktree", "remove", "--force");
                            push_text(&mut args, p.as_str());
                            proof {
                                assert(views(args@) =~= seq!["worktree"@, "remove"@, "--force"@, p@]);
                            }
                            let a = VariantAction::Git { cwd: dir.to_owned(), args };
                            let ghost av = a@;
                            out.push(a);
                            proof {
                                assert(action_views(out@) =~= action_views(before).push(av));
                                assert(found.push(p@).map_values(|p: Seq<char>| removal(dir@, p)) =~= found.map_values(
                                    |p: Seq<char>| removal(dir@, p),
                                ).push(removal(dir@, p@)));
                            }
                        }
                    },
                    None => {},
                }
                i += 1;
            }
            proof {
                assert(all.take(all.len() as int) =~= all);
            }
        },
    }
    let ghost first = action_views(out@);
    let rm = VariantAction::Exec { argv: words("rm", "-rf", variants_dir_text(dir).as_str()), secs: 15 };
    let ghost rmv = rm@;
    out.push(rm);
    let mut args: Vec<String> = Vec::new();
    push_text(&mut args, "worktree");
    push_text(&mut args, "prune");
    proof {
        assert(views(args@) =~= seq!["worktree"@, "prune"@]);
    }
    let prune = VariantAction::Git { cwd: dir.to_owned(), args };
    let ghost prunev = prune@;
    out.push(prune);
    proof {
        assert(action_views(out@) =~= first.push(rmv).push(prunev));
    }
    out
}

/// The branches of variants in git's listing.
pub fn variant_branches(listing: &str) -> (r: Vec<String>)
    ensures
        views(r@) == full_lines(lines(listing@)),
{
    non_empty_lines(listing)
}

// ---------------------------------------------------------------------------
// The status of variants
// ---------------------------------------------------------------------------

impl Ranked for usize {
    open spec fn comes_before(a: usize, b: usize) -> bool {
        a < b
    }

    proof fn order_is_strict(a: usize, b: usize, c: usize) {
    }

    fn ranks_before(&self, other: &usize) -> (r: bool) {
        *self < *other
    }
}

/// The variants that directory names stand for.
pub open spec fn indices_in(names: Seq<Seq<char>>) -> Seq<usize>
    decreases names.len(),
{
    if names.len() == 0 {
        Seq::empty()
    } else {
        match parse_number(names.last(), usize::MAX as u64) {
            Some(n) => indices_in(names.drop_last()).push(n as usize),
            None => indices_in(names.drop_last()),
        }
    }
}

/// The variants in a listing of their directory, in order.
pub fn variants_status(listing: &str) -> (r: Vec<usize>)
    ensures
        sorted(r@),
        r@.to_multiset() == indices_in(full_lines(lines(listing@))).to_multiset(),
{
    let names = non_empty_lines(listing);
    let ghost all = full_lines(lines(listing@));
    let mut found: Vec<usize> = Vec::new();
    let mut i: usize = 0;
    proof {
        assert(found@ =~= Seq::<usize>::empty());
        assert(all.take(0).len() == 0);
    }
    while i < names.len()
        invariant
            i <= names@.len(),
            all == views(names@),
            found@ == indices_in(all.take(i as int)),
        decreases names@.len() - i,
    {
        proof {
            assert(all.take(i + 1).drop_last() =~= all.take(i as int));
            assert(all.take(i + 1).last() == names@[i as int]@);
        }
        match read_number(names[i].as_str(), usize::MAX as u64) {
            Some(n) => {
                found.push(n as usize);
            },
            None => {},
        }
        i += 1;
    }
    proof {
        assert(all.take(all.len() as int) =~= all);
    }
    sort(found)
}

/// What git said of a worktree, or nothing where it could not be asked.
pub open spec fn said(stdout: Option<&str>) -> Seq<char> {
    match stdout {
        Some(s) => s@,
        None => ""@,
    }
}

/// A variant and the status of its worktree.
pub fn variant_status(dir: &str, index: usize, stdout: Option<&str>) -> (r: VariantStatus)
    requires
        readable(lines(said(stdout))),
    ensures
        r.index == index,
        r.branch@ == branch_of(index as nat),
        r.worktree@ == worktree_of(dir@, index as nat),
        r.status.branch@ == git::branch_of(lines(said(stdout))),
        file_views(r.status.files@) == files_of(lines(said(stdout))),
        r.status.clean == (r.status.files@.len() == 0),
{
    let status = match stdout {
        Some(s) => parse_status(s),
        None => parse_status(""),
    };
    VariantStatus { index, branch: branch_text(index), worktree: worktree_text(dir, index), status }
}

// ---------------------------------------------------------------------------
// Taking a variant over
// ---------------------------------------------------------------------------

/// Where the taking over of a variant stands.
#[derive(Debug)]
pub enum AdoptPhase {
    Stage,
    Look,
    Commit,
    Merge,
    ClearAll,
    Failed(DaemonError),
    Finished,
}

pub enum AdoptPhaseV {
    Stage,
    Look,
    Commit,
    Merge,
    ClearAll,
    Failed(DaemonErrorV),
    Finished,
}

impl View for AdoptPhase {
    type V = AdoptPhaseV;

    open spec fn view(&self) -> AdoptPhaseV {
        match *self {
            AdoptPhase::Stage => AdoptPhaseV::Stage,
            AdoptPhase::Look => AdoptPhaseV::Look,
            AdoptPhase::Commit => AdoptPhaseV::Commit,
            AdoptPhase::Merge => AdoptPhaseV::Merge,
            AdoptPhase::ClearAll => AdoptPhaseV::ClearAll,
            AdoptPhase::Failed(e) => AdoptPhaseV::Failed(e@),
            AdoptPhase::Finished => AdoptPhaseV::Finished,
        }
    }
}

/// The taking over of a variant.
#[derive(Debug)]
pub struct Adoption {
    dir: String,
    branch: String,
    index: usize,
    phase: AdoptPhase,
}

pub struct AdoptionV {
    pub dir: Seq<char>,
    pub branch: Seq<char>,
    pub index: usize,
    pub phase: AdoptPhaseV,
}

impl View for Adoption {
    type V = AdoptionV;

    closed spec fn view(&self) -> AdoptionV {
        AdoptionV { dir: self.dir@, branch: self.branch@, index: self.index, phase: self.phase@ }
    }
}

impl AdoptionV {
    /// What is next.
    pub open spec fn next(self) -> ActionV {
        let tree = worktree_of(self.dir, self.index as nat);
        match self.phase {
            AdoptPhaseV::Stage => ActionV::Git { cwd: tree, args: seq!["add"@, "-A"@] },
            AdoptPhaseV::Look => ActionV::Git { cwd: tree, args: seq!["status"@, "--porcelain"@] },
            AdoptPhaseV::Commit => ActionV::Git {
                cwd: tree,
                args: seq!["commit"@, "-q"@, "-m"@, "axocoatl: adopt "@ + self.branch],
            },
            AdoptPhaseV::Merge => ActionV::Git { cwd: self.dir, args: seq!["merge"@, "--no-edit"@, self.branch] },
            AdoptPhaseV::ClearAll => ActionV::Clear,
            AdoptPhaseV::Failed(_) => ActionV::Done,
            AdoptPhaseV::Finished => ActionV::Done,
        }
    }

    /// What follows the outcome of what was next: a commit only where something
    /// changed, and the removal of all variants only after a merge.
    pub open spec fn after(self, outcome: CommandResult) -> AdoptionV {
        let phase = match self.phase {
            AdoptPhaseV::Stage => AdoptPhaseV::Look,
            AdoptPhaseV::Look => match outcome {
                Ok(r) => if trim(r.stdout@).len() > 0 {
                    AdoptPhaseV::Commit
                } else {
                    AdoptPhaseV::Merge
                },
                Err(_) => AdoptPhaseV::Merge,
            },
            AdoptPhaseV::Commit => AdoptPhaseV::Merge,
            AdoptPhaseV::Merge => match outcome {
                Ok(r) => if r.exit_code == 0 {
                    AdoptPhaseV::ClearAll
                } else {
                    AdoptPhaseV::Failed(
                        DaemonErrorV::Session("adopt failed to merge "@ + self.branch + ": "@ + trim(r.stderr@)),
                    )
                },
                Err(e) => AdoptPhaseV::Failed(e@),
            },
            AdoptPhaseV::ClearAll => AdoptPhaseV::Finished,
            AdoptPhaseV::Failed(e) => AdoptPhaseV::Failed(e),
            AdoptPhaseV::Finished => AdoptPhaseV::Finished,
        };
        AdoptionV { phase, ..self }
    }

    /// How many outcomes are still to come at most.
    pub open spec fn left(self) -> nat {
        match self.phase {
            AdoptPhaseV::Stage => 5,
            AdoptPhaseV::Look => 4,
            AdoptPhaseV::Commit => 3,
            AdoptPhaseV::Merge => 2,
            AdoptPhaseV::ClearAll => 1,
            AdoptPhaseV::Failed(_) => 0,
            AdoptPhaseV::Finished => 0,
        }
    }
}

/// Taking a variant over ends, and the variants are removed only once the
/// branch was merged.
pub proof fn law_adoption_merges_before_clearing(st: AdoptionV, outcome: CommandResult)
    ensures
        st.next() != ActionV::Done ==> st.after(outcome).left() < st.left(),
        st.after(outcome).phase is ClearAll && !(st.phase is ClearAll) ==> st.phase is Merge && (outcome matches Ok(r)
            && r.exit_code == 0),
        st.after(outcome).phase is Finished ==> st.phase is ClearAll || st.phase is Finished,
{
}

impl Adoption {
    /// The taking over of a variant by its branch; any other branch is refused.
    pub fn start(dir: &str, branch: &str) -> (r: Result<Adoption, DaemonError>)
        ensures
            match r {
                Ok(a) => variant_in(branch@) == Some(a@.index) && a@ == (AdoptionV {
                    dir: dir@,
                    branch: branch@,
                    index: a@.index,
                    phase: AdoptPhaseV::Stage,
                }),
                Err(e) => variant_in(branch@) is None && e@ == DaemonErrorV::Session(
                    "not a variant branch: "@ + branch@,
                ),
            },
    {
        match variant_index(branch) {
            Some(index) => Ok(
                Adoption { dir: dir.to_owned(), branch: branch.to_owned(), index, phase: AdoptPhase::Stage },
            ),
            None => Err(DaemonError::Session(concat("not a variant branch: ", branch))),
        }
    }

    /// What is next.
    pub fn next(&self) -> (r: VariantAction)
        ensures
            r@ == self@.next(),
    {
        let tree = worktree_text(self.dir.as_str(), self.index);
        match &self.phase {
            AdoptPhase::Stage => {
                let mut args: Vec<String> = Vec::new();
                push_text(&mut args, "add");
                push_text(&mut args, "-A");
                proof {
                    assert(views(args@) =~= seq!["add"@, "-A"@]);
                }
                VariantAction::Git { cwd: tree, args }
            },
            AdoptPhase::Look => {
                let mut args: Vec<String> = Vec::new();
                push_text(&mut args, "status");
                push_text(&mut args, "--porcelain");
                proof {
                    assert(views(args@) =~= seq!["status"@, "--porcelain"@]);
                }
                VariantAction::Git { cwd: tree, args }
            },
            AdoptPhase::Commit => {
                let mut args = words("commit", "-q", "-m");
                let message = concat("axocoatl: adopt ", self.branch.as_str());
                push_text(&mut args, message.as_str());
                proof {
                    assert(views(args@) =~= seq!["commit"@, "-q"@, "-m"@, message@]);
                }
                VariantAction::Git { cwd: tree, args }
            },
            AdoptPhase::Merge => VariantAction::Git {
                cwd: self.dir.clone(),
                args: words("merge", "--no-edit", self.branch.as_str()),
            },
            AdoptPhase::ClearAll => VariantAction::Clear,
            AdoptPhase::Failed(_) => VariantAction::Done,
            AdoptPhase::Finished => VariantAction::Done,
        }
    }

    /// Takes the outcome of what was next.
    pub fn reply(self, outcome: CommandResult) -> (r: Adoption)
        ensures
            r@ == self@.after(outcome),
    {
        let Adoption { dir, branch, index, phase } = self;
        let phase = match phase {
            AdoptPhase::Stage => AdoptPhase::Look,
            AdoptPhase::Look => match outcome {
                Ok(r) => if trimmed(r.stdout.as_str()).as_str().unicode_len() > 0 {
                    AdoptPhase::Commit
                } else {
                    AdoptPhase::Merge
                },
                Err(_) => AdoptPhase::Merge,
            },
            AdoptPhase::Commit => AdoptPhase::Merge,
            AdoptPhase::Merge => match outcome {
                Ok(r) => if r.exit_code == 0 {
                    AdoptPhase::ClearAll
                } else {
                    let a = concat("adopt failed to merge ", branch.as_str());
                    let b = concat(a.as_str(), ": ");
                    AdoptPhase::Failed(
                        DaemonError::Session(concat(b.as_str(), trimmed(r.stderr.as_str()).as_str())),
                    )
                },
                Err(e) => AdoptPhase::Failed(e),
            },
            AdoptPhase::ClearAll => AdoptPhase::Finished,
            AdoptPhase::Failed(e) => AdoptPhase::Failed(e),
            AdoptPhase::Finished => AdoptPhase::Finished,
        };
        Adoption { dir, branch, index, phase }
    }

    /// Whether the variant was taken over, or why not; nothing while there is
    /// more to do.
    pub fn adopt_variant(self) -> (r: Option<Result<(), DaemonError>>)
        ensures
            match self@.phase {
                AdoptPhaseV::Finished => r matches Some(Ok(_)),
                AdoptPhaseV::Failed(e) => r matches Some(Err(f)) && f@ == e,
                _ => r is None,
            },
    {
        match self.phase {
            AdoptPhase::Finished => Some(Ok(())),
            AdoptPhase::Failed(e) => Some(Err(e)),
            _ => None,
        }
    }
}

} // verus!
