//! The container of a session.
//!
//! A session's directory is mounted in a container of its own. Starting it may
//! fail because the host cannot cap its resources or because a port is taken;
//! `Startup` says what to try next.
use vstd::prelude::*;

use crate::daemon::automation_executor::{full_lines, non_empty_lines};
use crate::isolation::error::{IsolationError, IsolationErrorV};
use crate::outside::unix_nanos;
use crate::text::{char_width, chars_of, concat, contains, decimal, decimal_text, has, has_bytes, hex_number,
    hex_number_text, holds, is_digit, lines, lossy, lossy_text, lowercase, number_between, number_of, push_text, push_texts, same, signed, signed_text, starts_with,
    strip, stripped, text_between, to_lower, trim, trimmed, utf8_bytes, utf8_width, views};

verus! {

// ---------------------------------------------------------------------------
// Values
// ---------------------------------------------------------------------------

/// The image of a container where none is asked for or trusted.
pub open spec fn default_image() -> Seq<char> {
    "docker.io/library/alpine:3.20"@
}

/// The image of a container where none is asked for or trusted.
pub const DEFAULT_IMAGE: &'static str = "docker.io/library/alpine:3.20";

/// What a container may reach.
#[derive(Debug, Clone, Copy, PartialEq, Eq, Structural)]
pub enum SandboxNetwork {
    /// The outside, and published ports.
    Bridge,
    /// Nothing.
    Isolated,
}

/// What is trusted. By default neither the setup scripts of a project nor
/// another image than the default one is.
#[derive(Debug, Clone, Copy, PartialEq, Eq, Structural)]
pub struct SandboxPolicy {
    /// Run a project's setup scripts.
    pub allow_post_create: bool,
    /// Use an image other than the default one.
    pub allow_untrusted_image: bool,
    pub network: SandboxNetwork,
    /// Do not start where the resource limits cannot be applied.
    pub require_resource_limits: bool,
}

impl Default for SandboxPolicy {
    fn default() -> (r: SandboxPolicy)
        ensures
            !r.allow_post_create,
            !r.allow_untrusted_image,
            r.network == SandboxNetwork::Bridge,
            !r.require_resource_limits,
    {
        SandboxPolicy {
            allow_post_create: false,
            allow_untrusted_image: false,
            network: SandboxNetwork::Bridge,
            require_resource_limits: false,
        }
    }
}

/// The outcome of a command in a container.
#[derive(Debug)]
pub struct ExecResult {
    pub stdout: String,
    pub stderr: String,
    pub exit_code: i32,
}

impl ExecResult {
    /// What a command printed and how it ended; one that a signal ended counts
    /// as -1.
    pub fn of_output(stdout: &[u8], stderr: &[u8], code: Option<i32>) -> (r: ExecResult)
        ensures
            r.stdout@ == lossy(stdout@),
            r.stderr@ == lossy(stderr@),
            r.exit_code == match code {
                Some(c) => c,
                None => -1i32,
            },
    {
        ExecResult {
            stdout: lossy_text(stdout),
            stderr: lossy_text(stderr),
            exit_code: match code {
                Some(c) => c,
                None => -1,
            },
        }
    }

    /// Whether the command succeeded.
    pub fn ok(&self) -> (r: bool)
        ensures
            r == (self.exit_code == 0),
    {
        self.exit_code == 0
    }
}

/// A command that runs in the background.
#[derive(Debug)]
pub struct BgTask {
    pub id: String,
    pub command: String,
    pub status: String,
    /// The last part of its output.
    pub log: String,
}

pub struct BgTaskV {
    pub id: Seq<char>,
    pub command: Seq<char>,
    pub status: Seq<char>,
    pub log: Seq<char>,
}

impl View for BgTask {
    type V = BgTaskV;

    open spec fn view(&self) -> BgTaskV {
        BgTaskV { id: self.id@, command: self.command@, status: self.status@, log: self.log@ }
    }
}

impl BgTask {
    /// A copy.
    pub fn copy(&self) -> (r: BgTask)
        ensures
            r@ == self@,
    {
        BgTask {
            id: self.id.clone(),
            command: self.command.clone(),
            status: self.status.clone(),
            log: self.log.clone(),
        }
    }
}

/// An interactive terminal in a container.
#[derive(Debug)]
pub struct Terminal {
    pub id: String,
    pub command: String,
    pub alive: bool,
}

pub struct TerminalV {
    pub id: Seq<char>,
    pub command: Seq<char>,
    pub alive: bool,
}

impl View for Terminal {
    type V = TerminalV;

    open spec fn view(&self) -> TerminalV {
        TerminalV { id: self.id@, command: self.command@, alive: self.alive }
    }
}

pub open spec fn task_views(v: Seq<BgTask>) -> Seq<BgTaskV> {
    v.map_values(|t: BgTask| t@)
}

pub open spec fn terminal_views(v: Seq<Terminal>) -> Seq<TerminalV> {
    v.map_values(|t: Terminal| t@)
}

// ---------------------------------------------------------------------------
// The arguments of a container
// ---------------------------------------------------------------------------

/// The capabilities that no container keeps: none of them is needed to build
/// software.
pub open spec fn caps() -> Seq<Seq<char>> {
    seq![
        "SYS_ADMIN"@,
        "SYS_PTRACE"@,
        "SYS_MODULE"@,
        "SYS_RAWIO"@,
        "SYS_BOOT"@,
        "SYS_TIME"@,
        "NET_ADMIN"@,
        "NET_RAW"@,
        "DAC_READ_SEARCH"@,
        "MKNOD"@,
        "AUDIT_WRITE"@,
    ]
}

/// The capabilities that no container keeps.
pub fn dropped_caps() -> (r: Vec<String>)
    ensures
        views(r@) == caps(),
{
    let mut v: Vec<String> = Vec::new();
    proof {
        assert(views(v@) =~= Seq::<Seq<char>>::empty());
    }
    push_text(&mut v, "SYS_ADMIN");
    push_text(&mut v, "SYS_PTRACE");
    push_text(&mut v, "SYS_MODULE");
    push_text(&mut v, "SYS_RAWIO");
    push_text(&mut v, "SYS_BOOT");
    push_text(&mut v, "SYS_TIME");
    push_text(&mut v, "NET_ADMIN");
    push_text(&mut v, "NET_RAW");
    push_text(&mut v, "DAC_READ_SEARCH");
    push_text(&mut v, "MKNOD");
    push_text(&mut v, "AUDIT_WRITE");
    v
}

/// A flag before each value.
pub open spec fn flagged(flag: Seq<char>, values: Seq<Seq<char>>) -> Seq<Seq<char>>
    decreases values.len(),
{
    if values.len() == 0 {
        Seq::empty()
    } else {
        flagged(flag, values.drop_last()).push(flag).push(values.last())
    }
}

/// Each port, published under its own number.
pub open spec fn port_maps(ports: Seq<u16>) -> Seq<Seq<char>> {
    ports.map_values(|p: u16| decimal(p as nat) + ":"@ + decimal(p as nat))
}

/// The ports that are published: none without a network.
pub open spec fn published(ports: Seq<u16>, network: SandboxNetwork) -> Seq<u16> {
    if network == SandboxNetwork::Isolated {
        Seq::empty()
    } else {
        ports
    }
}

/// The arguments that start a container.
pub open spec fn run_args(
    container: Seq<char>,
    mount: Seq<char>,
    dir: Seq<char>,
    image: Seq<char>,
    with_limits: bool,
    ports: Seq<u16>,
    policy: SandboxPolicy,
) -> Seq<Seq<char>> {
    seq!["run"@, "-d"@, "--name"@, container, "-v"@, mount, "-w"@, dir, "--security-opt=no-new-privileges"@]
        + flagged("--cap-drop"@, caps()) + (if policy.network == SandboxNetwork::Isolated {
        seq!["--network"@, "none"@]
    } else {
        Seq::empty()
    }) + (if with_limits {
        seq!["--memory"@, "2g"@, "--cpus"@, "2"@, "--pids-limit"@, "512"@]
    } else {
        Seq::empty()
    }) + flagged("-p"@, port_maps(published(ports, policy.network))) + seq![image, "sleep"@, "infinity"@]
}

/// Every value stands behind its flag.
proof fn lemma_flagged(flag: Seq<char>, values: Seq<Seq<char>>, i: int)
    requires
        0 <= i < values.len(),
    ensures
        flagged(flag, values).len() == 2 * values.len(),
        flagged(flag, values)[2 * i] == flag,
        flagged(flag, values)[2 * i + 1] == values[i],
    decreases values.len(),
{
    let r = flagged(flag, values);
    let before = flagged(flag, values.drop_last());
    if values.len() == 1 {
        assert(before.len() == 0);
    } else {
        lemma_flagged(flag, values.drop_last(), 0);
        if i < values.len() - 1 {
            lemma_flagged(flag, values.drop_last(), i);
            assert(r[2 * i] == before[2 * i]);
            assert(r[2 * i + 1] == before[2 * i + 1]);
        }
    }
}

/// Whatever the policy and the limits, a container starts without new
/// privileges and without any of the dropped capabilities.
pub proof fn law_hardening_always_applies(
    container: Seq<char>,
    mount: Seq<char>,
    dir: Seq<char>,
    image: Seq<char>,
    with_limits: bool,
    ports: Seq<u16>,
    policy: SandboxPolicy,
)
    ensures
        ({
            let args = run_args(container, mount, dir, image, with_limits, ports, policy);
            &&& args[8] == "--security-opt=no-new-privileges"@
            &&& forall|c: int|
                0 <= c < caps().len() ==> args.len() > 10 + 2 * c && args[9 + 2 * c] == "--cap-drop"@ && args[10 + 2
                    * c] == #[trigger] caps()[c]
        }),
{
    let args = run_args(container, mount, dir, image, with_limits, ports, policy);
    let head = seq![
        "run"@,
        "-d"@,
        "--name"@,
        container,
        "-v"@,
        mount,
        "-w"@,
        dir,
        "--security-opt=no-new-privileges"@,
    ];
    let drops = flagged("--cap-drop"@, caps());
    assert(head.len() == 9);
    assert forall|c: int| 0 <= c < caps().len() implies args.len() > 10 + 2 * c && args[9 + 2 * c] == "--cap-drop"@
        && args[10 + 2 * c] == #[trigger] caps()[c] by {
        lemma_flagged("--cap-drop"@, caps(), c);
        assert((head + drops)[9 + 2 * c] == drops[2 * c]);
        assert((head + drops)[10 + 2 * c] == drops[2 * c + 1]);
    }
}

/// Without a network no port is published, whatever ports are asked for.
pub proof fn law_isolation_publishes_nothing(
    container: Seq<char>,
    mount: Seq<char>,
    dir: Seq<char>,
    image: Seq<char>,
    with_limits: bool,
    ports: Seq<u16>,
    policy: SandboxPolicy,
)
    requires
        policy.network == SandboxNetwork::Isolated,
    ensures
        run_args(container, mount, dir, image, with_limits, ports, policy) == run_args(
            container,
            mount,
            dir,
            image,
            with_limits,
            Seq::empty(),
            policy,
        ),
        flagged("-p"@, port_maps(published(ports, policy.network))).len() == 0,
{
    assert(port_maps(Seq::<u16>::empty()) =~= Seq::<Seq<char>>::empty());
    assert(published(ports, policy.network) =~= Seq::<u16>::empty());
}

fn push_flagged(args: &mut Vec<String>, flag: &str, values: &Vec<String>)
    ensures
        views(final(args)@) == views(old(args)@) + flagged(flag@, views(values@)),
{
    let ghost start = views(args@);
    let ghost all = views(values@);
    let mut i: usize = 0;
    proof {
        assert(all.take(0).len() == 0);
        assert(start + flagged(flag@, all.take(0)) =~= start);
    }
    while i < values.len()
        invariant
            i <= values@.len(),
            all == views(values@),
            views(args@) == start + flagged(flag@, all.take(i as int)),
        decreases values@.len() - i,
    {
        push_text(args, flag);
        push_text(args, values[i].as_str());
        proof {
            let t = all.take(i + 1);
            assert(t.drop_last() =~= all.take(i as int));
            assert(t.last() == values@[i as int]@);
            assert(views(args@) =~= start + flagged(flag@, t));
        }
        i += 1;
    }
    proof {
        assert(all.take(all.len() as int) =~= all);
    }
}

fn port_texts(ports: &Vec<u16>, network: SandboxNetwork) -> (r: Vec<String>)
    ensures
        views(r@) == port_maps(published(ports@, network)),
{
    let mut out: Vec<String> = Vec::new();
    if matches!(network, SandboxNetwork::Isolated) {
        proof {
            assert(views(out@) =~= port_maps(published(ports@, network)));
        }
        return out;
    }
    let mut i: usize = 0;
    while i < ports.len()
        invariant
            i <= ports@.len(),
            out@.len() == i,
            forall|k: int|
                0 <= k < i ==> (#[trigger] out@[k])@ == decimal(ports@[k] as nat) + ":"@ + decimal(ports@[k] as nat),
        decreases ports@.len() - i,
    {
        let p = decimal_text(ports[i] as u64);
        let half = concat(p.as_str(), ":");
        out.push(concat(half.as_str(), p.as_str()));
        i += 1;
    }
    proof {
        assert(views(out@) =~= port_maps(published(ports@, network)));
    }
    out
}

// ---------------------------------------------------------------------------
// Starting a container
// ---------------------------------------------------------------------------

/// The name of a session's container.
pub open spec fn container_of(session_id: Seq<char>) -> Seq<char> {
    "axo-ses-"@ + session_id
}

/// The name of a session's container.
pub fn container_name(session_id: &str) -> (r: String)
    ensures
        r@ == container_of(session_id@),
{
    concat("axo-ses-", session_id)
}

/// The image that is used: the one asked for where it is the default one or
/// others are trusted, else the default one.
pub open spec fn image_used(asked: Option<Seq<char>>, policy: SandboxPolicy) -> Seq<char> {
    match asked {
        Some(img) => if img == default_image() || policy.allow_untrusted_image {
            img
        } else {
            default_image()
        },
        None => default_image(),
    }
}

/// The image that is used.
pub fn choose_image(asked: Option<&str>, policy: &SandboxPolicy) -> (r: String)
    ensures
        r@ == image_used(
            match asked {
                Some(i) => Some(i@),
                None => None,
            },
            *policy,
        ),
{
    match asked {
        Some(img) => if same(img, DEFAULT_IMAGE) || policy.allow_untrusted_image {
            img.to_owned()
        } else {
            DEFAULT_IMAGE.to_owned()
        },
        None => DEFAULT_IMAGE.to_owned(),
    }
}

/// An image is used that is not the default one only where such are trusted.
pub proof fn law_only_trusted_images(asked: Option<Seq<char>>, policy: SandboxPolicy)
    ensures
        !policy.allow_untrusted_image ==> image_used(asked, policy) == default_image(),
{
}

/// The message says that a port is taken.
pub open spec fn port_conflict(stderr: Seq<char>) -> bool {
    let lc = lowercase(stderr);
    ||| contains(lc, "port is already allocated"@)
    ||| contains(lc, "address already in use"@)
    ||| contains(lc, "bind: address"@)
    ||| contains(lc, "rootlessport"@)
    ||| contains(lc, "proxy already running"@)
}

/// The end of the digits from `i` on.
pub open spec fn digits_end(s: Seq<char>, i: int) -> int
    decreases s.len() - i,
{
    if 0 <= i < s.len() && is_digit(s[i]) {
        digits_end(s, i + 1)
    } else {
        i
    }
}

proof fn lemma_digits_end(s: Seq<char>, i: int)
    requires
        0 <= i <= s.len(),
    ensures
        i <= digits_end(s, i) <= s.len(),
        forall|k: int| i <= k < digits_end(s, i) ==> is_digit(#[trigger] s[k]),
    decreases s.len() - i,
{
    if i < s.len() && is_digit(s[i]) {
        lemma_digits_end(s, i + 1);
    }
}

/// The port that the digits write, if it is one that a session may publish:
/// one to five digits, and no number below 1024.
pub open spec fn port_of(digits: Seq<char>) -> Option<u16> {
    if 1 <= digits.len() <= 5 && 1024 <= number_of(digits) <= 65535 {
        Some(number_of(digits) as u16)
    } else {
        None
    }
}

/// The first port behind a colon, from `i` on.
pub open spec fn port_from(s: Seq<char>, i: int) -> Option<u16>
    decreases s.len() - i,
{
    if i < 0 || i >= s.len() {
        None
    } else if s[i] == ':' {
        let j = digits_end(s, i + 1);
        match port_of(s.subrange(i + 1, j)) {
            Some(p) => Some(p),
            None => if i < j <= s.len() {
                port_from(s, j)
            } else {
                None
            },
        }
    } else {
        port_from(s, i + 1)
    }
}

/// A container that is being started: what it is started with, less what the
/// host has refused so far.
#[derive(Debug)]
pub struct Startup {
    pub container: String,
    pub dir: String,
    pub image: String,
    pub with_limits: bool,
    pub publish: Vec<u16>,
    pub policy: SandboxPolicy,
}

pub struct StartupV {
    pub container: Seq<char>,
    pub dir: Seq<char>,
    pub image: Seq<char>,
    pub with_limits: bool,
    pub publish: Seq<u16>,
    pub policy: SandboxPolicy,
}

impl View for Startup {
    type V = StartupV;

    open spec fn view(&self) -> StartupV {
        StartupV {
            container: self.container@,
            dir: self.dir@,
            image: self.image@,
            with_limits: self.with_limits,
            publish: self.publish@,
            policy: self.policy,
        }
    }
}

/// The ports but for one.
pub open spec fn without_port(ports: Seq<u16>, bad: u16) -> Seq<u16>
    decreases ports.len(),
{
    if ports.len() == 0 {
        ports
    } else if ports.last() == bad {
        without_port(ports.drop_last(), bad)
    } else {
        without_port(ports.drop_last(), bad).push(ports.last())
    }
}

/// What stays published after a conflict: all but the port that the message
/// names, or nothing where it names none of them.
pub open spec fn left_after(publish: Seq<u16>, stderr: Seq<char>) -> Seq<u16> {
    match port_from(stderr, 0) {
        Some(bad) => if publish.contains(bad) {
            without_port(publish, bad)
        } else {
            Seq::empty()
        },
        None => Seq::empty(),
    }
}

impl StartupV {
    /// The first attempt.
    pub open spec fn first(
        session_id: Seq<char>,
        dir: Seq<char>,
        asked: Option<Seq<char>>,
        ports: Seq<u16>,
        policy: SandboxPolicy,
    ) -> StartupV {
        StartupV {
            container: container_of(session_id),
            dir,
            image: image_used(asked, policy),
            with_limits: true,
            publish: ports,
            policy,
        }
    }

    /// The arguments of this attempt.
    pub open spec fn args(self) -> Seq<Seq<char>> {
        run_args(
            self.container,
            self.dir + ":"@ + self.dir + ":rw"@,
            self.dir,
            self.image,
            self.with_limits,
            self.publish,
            self.policy,
        )
    }

    /// What follows when this attempt has failed with a message: another
    /// attempt with less, or an error.
    pub open spec fn after(self, e: Seq<char>) -> Result<StartupV, IsolationErrorV> {
        if contains(e, "cgroup"@) && self.with_limits {
            if self.policy.require_resource_limits {
                Err(
                    IsolationErrorV::OciContainerFailed(
                        "resource limits required but unavailable on this host (cgroup delegation missing): "@ + e
                            + ". Set sandbox.require_resource_limits = false to allow an uncapped sandbox."@,
                    ),
                )
            } else {
                Ok(StartupV { with_limits: false, ..self })
            }
        } else if port_conflict(e) && self.publish.len() > 0 {
            Ok(StartupV { publish: left_after(self.publish, e), ..self })
        } else {
            Err(IsolationErrorV::OciContainerFailed(e))
        }
    }

    /// How many attempts are left at most.
    pub open spec fn chances(self) -> nat {
        self.publish.len() + if self.with_limits {
            1nat
        } else {
            0nat
        }
    }
}

proof fn lemma_without_port(ports: Seq<u16>, bad: u16)
    ensures
        without_port(ports, bad).len() <= ports.len(),
        ports.contains(bad) ==> without_port(ports, bad).len() < ports.len(),
        !without_port(ports, bad).contains(bad),
        forall|p: u16| p != bad ==> (without_port(ports, bad).contains(p) <==> #[trigger] ports.contains(p)),
    decreases ports.len(),
{
    let r = without_port(ports, bad);
    if ports.len() > 0 {
        let rest = ports.drop_last();
        let less = without_port(rest, bad);
        lemma_without_port(rest, bad);
        if ports.contains(bad) && ports.last() != bad {
            let i = choose|i: int| 0 <= i < ports.len() && ports[i] == bad;
            assert(rest[i] == bad);
        }
        assert(!r.contains(bad)) by {
            if r.contains(bad) {
                let i = choose|i: int| 0 <= i < r.len() && r[i] == bad;
                if ports.last() != bad {
                    assert(i < less.len());
                    assert(less[i] == bad);
                }
            }
        }
        assert forall|p: u16| p != bad implies (r.contains(p) <==> #[trigger] ports.contains(p)) by {
            if ports.contains(p) {
                let i = choose|i: int| 0 <= i < ports.len() && ports[i] == p;
                if i < rest.len() {
                    assert(rest[i] == p);
                    assert(rest.contains(p));
                    assert(less.contains(p));
                    let j = choose|j: int| 0 <= j < less.len() && less[j] == p;
                    assert(r[j] == p);
                } else {
                    assert(r[less.len() as int] == p);
                }
            }
            if r.contains(p) {
                let j = choose|j: int| 0 <= j < r.len() && r[j] == p;
                if ports.last() != bad && j == less.len() {
                    assert(ports[ports.len() - 1] == p);
                } else {
                    assert(less[j] == p);
                    assert(rest.contains(p));
                    let i = choose|i: int| 0 <= i < rest.len() && rest[i] == p;
                    assert(ports[i] == p);
                }
            }
        }
    }
}

/// Every further attempt asks for less, so that there are only so many: one per
/// port, and one for the limits.
pub proof fn law_startup_ends(st: StartupV, e: Seq<char>)
    ensures
        st.after(e) matches Ok(next) ==> next.chances() < st.chances(),
{
    if let Some(bad) = port_from(e, 0) {
        lemma_without_port(st.publish, bad);
    }
}

/// Where limits are required, no attempt is ever made without them.
pub proof fn law_required_limits_stay(st: StartupV, e: Seq<char>)
    requires
        st.policy.require_resource_limits,
        st.with_limits,
    ensures
        st.after(e) matches Ok(next) ==> next.with_limits && next.policy == st.policy,
{
}

/// A conflict on one of the published ports costs that port alone.
pub proof fn law_conflict_costs_one_port(st: StartupV, e: Seq<char>)
    requires
        port_conflict(e),
        !contains(e, "cgroup"@),
        port_from(e, 0) matches Some(bad) && st.publish.contains(bad),
    ensures
        st.after(e) matches Ok(next) && !next.publish.contains(port_from(e, 0)->0) && next.with_limits
            == st.with_limits && forall|p: u16|
            p != port_from(e, 0)->0 ==> (next.publish.contains(p) <==> #[trigger] st.publish.contains(p)),
{
    lemma_without_port(st.publish, port_from(e, 0)->0);
    let i = choose|i: int| 0 <= i < st.publish.len() && st.publish[i] == port_from(e, 0)->0;
    assert(st.publish.len() > 0);
}

fn drop_port(ports: &Vec<u16>, bad: u16) -> (r: Vec<u16>)
    ensures
        r@ == without_port(ports@, bad),
{
    let mut out: Vec<u16> = Vec::new();
    let mut i: usize = 0;
    while i < ports.len()
        invariant
            i <= ports@.len(),
            out@ == without_port(ports@.take(i as int), bad),
        decreases ports@.len() - i,
    {
        proof {
            assert(ports@.take(i + 1).drop_last() =~= ports@.take(i as int));
        }
        if ports[i] != bad {
            out.push(ports[i]);
        }
        i += 1;
    }
    proof {
        assert(ports@.take(ports@.len() as int) =~= ports@);
    }
    out
}

fn has_port(ports: &Vec<u16>, p: u16) -> (r: bool)
    ensures
        r == ports@.contains(p),
{
    let mut i: usize = 0;
    while i < ports.len()
        invariant
            i <= ports@.len(),
            forall|k: int| 0 <= k < i ==> ports@[k] != p,
        decreases ports@.len() - i,
    {
        if ports[i] == p {
            return true;
        }
        i += 1;
    }
    false
}

impl Startup {
    /// The first attempt to start a session's container.
    pub fn first(session_id: &str, dir: &str, image: Option<&str>, ports: &Vec<u16>, policy: &SandboxPolicy) -> (r:
        Startup)
        ensures
            r@ == StartupV::first(
                session_id@,
                dir@,
                match image {
                    Some(i) => Some(i@),
                    None => None,
                },
                ports@,
                *policy,
            ),
    {
        let mut publish: Vec<u16> = Vec::new();
        let mut i: usize = 0;
        while i < ports.len()
            invariant
                i <= ports@.len(),
                publish@ == ports@.take(i as int),
            decreases ports@.len() - i,
        {
            publish.push(ports[i]);
            i += 1;
            proof {
                assert(ports@.take(i as int) =~= ports@.take(i - 1).push(ports@[i - 1]));
            }
        }
        proof {
            assert(ports@.take(ports@.len() as int) =~= ports@);
        }
        Startup {
            container: container_name(session_id),
            dir: dir.to_owned(),
            image: choose_image(image, policy),
            with_limits: true,
            publish,
            policy: *policy,
        }
    }

    /// The arguments of this attempt.
    pub fn args(&self) -> (r: Vec<String>)
        ensures
            views(r@) == self@.args(),
    {
        let half = concat(self.dir.as_str(), ":");
        let both = concat(half.as_str(), self.dir.as_str());
        let mount = concat(both.as_str(), ":rw");
        SessionSandbox::build_run_args(
            self.container.as_str(),
            mount.as_str(),
            self.dir.as_str(),
            self.image.as_str(),
            self.with_limits,
            &self.publish,
            &self.policy,
        )
    }

    /// What follows when this attempt has failed with a message.
    pub fn after(self, e: &str) -> (r: Result<Startup, IsolationError>)
        ensures
            match r {
                Ok(next) => self@.after(e@) == Ok::<StartupV, IsolationErrorV>(next@),
                Err(err) => self@.after(e@) == Err::<StartupV, IsolationErrorV>(err@),
            },
    {
        if has(e, "cgroup") && self.with_limits {
            if self.policy.require_resource_limits {
                let head = concat(
                    "resource limits required but unavailable on this host (cgroup delegation missing): ",
                    e,
                );
                return Err(
                    IsolationError::OciContainerFailed(
                        concat(
                            head.as_str(),
                            ". Set sandbox.require_resource_limits = false to allow an uncapped sandbox.",
                        ),
                    ),
                );
            }
            return Ok(Startup { with_limits: false, ..self });
        }
        if SessionSandbox::is_port_conflict(e) && self.publish.len() > 0 {
            let publish = match SessionSandbox::extract_conflicting_port(e) {
                Some(bad) => if has_port(&self.publish, bad) {
                    drop_port(&self.publish, bad)
                } else {
                    Vec::new()
                },
                None => Vec::new(),
            };
            proof {
                assert(publish@ =~= left_after(self.publish@, e@));
            }
            return Ok(Startup { publish, ..self });
        }
        Err(IsolationError::OciContainerFailed(e.to_owned()))
    }

    /// The sandbox of a container that has started.
    pub fn finish(self) -> (r: SessionSandbox)
        ensures
            r.name() == self@.container,
            r.root_dir() == self@.dir,
            r.tasks() == Seq::<BgTaskV>::empty(),
            r.terminals() == Seq::<TerminalV>::empty(),
    {
        SessionSandbox::attach(self.container.as_str(), self.dir.as_str())
    }
}

/// The message of a start that podman refused.
pub open spec fn start_failure(stderr: Seq<char>) -> Seq<char> {
    "starting session container: "@ + trim(stderr)
}

/// The message of a start that podman refused.
pub fn start_failure_text(stderr: &str) -> (r: String)
    ensures
        r@ == start_failure(stderr@),
{
    concat("starting session container: ", trimmed(stderr).as_str())
}

/// What is run in a new container to install common tools, where it can.
pub fn dev_essentials_script() -> (r: String)
    ensures
        r@
            == "command -v apk >/dev/null 2>&1 && apk add --no-cache bash vim nano less git curl wget python3 py3-pip nodejs npm coreutils >/dev/null 2>&1 || true"@,
{
    "command -v apk >/dev/null 2>&1 && apk add --no-cache bash vim nano less git curl wget python3 py3-pip nodejs npm coreutils >/dev/null 2>&1 || true".to_owned()
}

/// The setup scripts of a project that are run: none that is not trusted.
pub open spec fn scripts_run(scripts: Seq<Seq<char>>, policy: SandboxPolicy) -> Seq<Seq<char>> {
    if policy.allow_post_create {
        scripts
    } else {
        Seq::empty()
    }
}

/// The setup scripts of a project that are run.
pub fn scripts_to_run(scripts: &Vec<String>, policy: &SandboxPolicy) -> (r: Vec<String>)
    ensures
        views(r@) == scripts_run(views(scripts@), *policy),
{
    if policy.allow_post_create {
        crate::session::copy_texts(scripts)
    } else {
        let none: Vec<String> = Vec::new();
        proof {
            assert(views(none@) =~= Seq::<Seq<char>>::empty());
        }
        none
    }
}

// ---------------------------------------------------------------------------
// Orphans
// ---------------------------------------------------------------------------

/// A container that belongs to no known session.
pub open spec fn is_orphan(name: Seq<char>, known: Seq<Seq<char>>) -> bool {
    match strip(name, "axo-ses-"@) {
        Some(id) => !known.contains(id),
        None => false,
    }
}

/// The names of the orphans among some containers, in order.
pub open spec fn orphans_in(names: Seq<Seq<char>>, known: Seq<Seq<char>>) -> Seq<Seq<char>>
    decreases names.len(),
{
    if names.len() == 0 {
        names
    } else if is_orphan(names.last(), known) {
        orphans_in(names.drop_last(), known).push(names.last())
    } else {
        orphans_in(names.drop_last(), known)
    }
}

/// The container of a known session is no orphan.
pub proof fn law_known_sessions_are_spared(session_id: Seq<char>, known: Seq<Seq<char>>)
    requires
        known.contains(session_id),
    ensures
        !is_orphan(container_of(session_id), known),
{
    let name = container_of(session_id);
    let p = "axo-ses-"@;
    assert(name.subrange(0, p.len() as int) =~= p);
    assert(name.subrange(p.len() as int, name.len() as int) =~= session_id);
}

// ---------------------------------------------------------------------------
// Background output
// ---------------------------------------------------------------------------

/// The most bytes of output that are kept of a task.
pub const LOG_BYTES: usize = 65_536;

/// Where the last `n` bytes begin, if no character is cut there.
pub open spec fn tail_start(s: Seq<char>, n: int) -> Option<int>
    decreases s.len(),
{
    if n == 0 {
        Some(s.len() as int)
    } else if n < 0 || s.len() == 0 {
        None
    } else {
        tail_start(s.drop_last(), n - utf8_width(s.last()))
    }
}

/// What a log holds once a piece has come: its last 64 KiB. `None` where the
/// cut would fall inside a character.
pub open spec fn grown_log(log: Seq<char>, piece: Seq<char>) -> Option<Seq<char>> {
    let all = log + piece;
    if utf8_bytes(all) <= LOG_BYTES {
        Some(all)
    } else {
        match tail_start(all, LOG_BYTES as int) {
            Some(i) => Some(all.subrange(i, all.len() as int)),
            None => None,
        }
    }
}

/// The id of what was started at a time, in milliseconds.
pub open spec fn started_id(kind: Seq<char>, millis: u128) -> Seq<char> {
    kind + hex_number(millis as nat)
}

/// The id of what was started at a time, in milliseconds.
pub fn started_id_text(kind: &str, millis: u128) -> (r: String)
    ensures
        r@ == started_id(kind@, millis),
{
    concat(kind, hex_number_text(millis).as_str())
}

/// The status of a task that has ended.
pub open spec fn exit_status(code: i32) -> Seq<char> {
    "exited ("@ + signed(code as int) + ")"@
}

/// How a background command ended.
#[derive(Debug)]
pub enum TaskEnd {
    /// It could not be started.
    NotStarted(String),
    /// It ended with a code.
    Exited(i32),
    /// Waiting for it failed.
    Lost(String),
}

pub open spec fn end_status(end: TaskEnd) -> Seq<char> {
    match end {
        TaskEnd::NotStarted(e) => "failed: "@ + e@,
        TaskEnd::Exited(code) => exit_status(code),
        TaskEnd::Lost(e) => "failed: "@ + e@,
    }
}

/// A status that a task can have.
pub open spec fn is_status(s: Seq<char>) -> bool {
    ||| s == "running"@
    ||| exists|code: i32| s == #[trigger] exit_status(code)
    ||| starts_with(s, "failed: "@)
}

/// Every task runs, has exited or has failed.
pub open spec fn have_statuses(tasks: Seq<BgTaskV>) -> bool {
    forall|i: int| 0 <= i < tasks.len() ==> is_status((#[trigger] tasks[i]).status)
}

/// A task that is started, an addition to a log and the end of a task leave each
/// task running, exited or failed.
pub proof fn law_tasks_have_statuses(
    tasks: Seq<BgTaskV>,
    id: Seq<char>,
    command: Seq<char>,
    i: int,
    log: Seq<char>,
    end: TaskEnd,
)
    requires
        have_statuses(tasks),
        0 <= i < tasks.len(),
    ensures
        have_statuses(tasks.push((BgTaskV { id, command, status: "running"@, log: Seq::empty() }))),
        have_statuses(tasks.update(i, (BgTaskV { log, ..tasks[i] }))),
        have_statuses(tasks.update(i, (BgTaskV { status: end_status(end), ..tasks[i] }))),
{
    match end {
        TaskEnd::Exited(code) => {
            assert(end_status(end) == exit_status(code));
        },
        TaskEnd::NotStarted(e) => {
            assert(end_status(end).subrange(0, "failed: "@.len() as int) =~= "failed: "@);
        },
        TaskEnd::Lost(e) => {
            assert(end_status(end).subrange(0, "failed: "@.len() as int) =~= "failed: "@);
        },
    }
    assert(is_status(end_status(end)));
}

// ---------------------------------------------------------------------------
// A sandbox
// ---------------------------------------------------------------------------

/// A container that has started, with what runs in it.
#[derive(Debug)]
pub struct SessionSandbox {
    container: String,
    working_dir: String,
    tasks: Vec<BgTask>,
    terminals: Vec<Terminal>,
}

/// The terminals that do not have an id.
pub open spec fn others(v: Seq<TerminalV>, id: Seq<char>) -> Seq<TerminalV>
    decreases v.len(),
{
    if v.len() == 0 {
        v
    } else if v.last().id == id {
        others(v.drop_last(), id)
    } else {
        others(v.drop_last(), id).push(v.last())
    }
}

/// The position of the first terminal with an id, from `i` on.
pub open spec fn terminal_from(v: Seq<TerminalV>, id: Seq<char>, i: int) -> Option<int>
    decreases v.len() - i,
{
    if i < 0 || i >= v.len() {
        None
    } else if v[i].id == id {
        Some(i)
    } else {
        terminal_from(v, id, i + 1)
    }
}

/// The position of the first task with an id, from `i` on.
pub open spec fn task_from(v: Seq<BgTaskV>, id: Seq<char>, i: int) -> Option<int>
    decreases v.len() - i,
{
    if i < 0 || i >= v.len() {
        None
    } else if v[i].id == id {
        Some(i)
    } else {
        task_from(v, id, i + 1)
    }
}

/// A killed terminal is gone and all others stay.
pub proof fn law_killed_terminals_are_gone(v: Seq<TerminalV>, id: Seq<char>)
    ensures
        terminal_from(others(v, id), id, 0) is None,
        forall|t: TerminalV| t.id != id ==> (others(v, id).contains(t) <==> #[trigger] v.contains(t)),
        others(v, id).len() < v.len() <==> terminal_from(v, id, 0) is Some,
    decreases v.len(),
{
    let r = others(v, id);
    lemma_terminal_from(v, id, 0);
    lemma_terminal_from(r, id, 0);
    lemma_others(v, id);
}

proof fn lemma_terminal_from(v: Seq<TerminalV>, id: Seq<char>, i: int)
    requires
        0 <= i,
    ensures
        match terminal_from(v, id, i) {
            Some(p) => i <= p < v.len() && v[p].id == id,
            None => forall|k: int| i <= k < v.len() ==> (#[trigger] v[k]).id != id,
        },
    decreases v.len() - i,
{
    if i < v.len() && v[i].id != id {
        lemma_terminal_from(v, id, i + 1);
    }
}

proof fn lemma_others(v: Seq<TerminalV>, id: Seq<char>)
    ensures
        others(v, id).len() <= v.len(),
        forall|k: int| 0 <= k < others(v, id).len() ==> (#[trigger] others(v, id)[k]).id != id,
        forall|t: TerminalV| t.id != id ==> (others(v, id).contains(t) <==> #[trigger] v.contains(t)),
        others(v, id).len() < v.len() <==> exists|k: int| 0 <= k < v.len() && (#[trigger] v[k]).id == id,
    decreases v.len(),
{
    let r = others(v, id);
    if v.len() > 0 {
        let rest = v.drop_last();
        let less = others(rest, id);
        lemma_others(rest, id);
        assert forall|t: TerminalV| t.id != id implies (r.contains(t) <==> #[trigger] v.contains(t)) by {
            if v.contains(t) {
                let i = choose|i: int| 0 <= i < v.len() && v[i] == t;
                if i < rest.len() {
                    assert(rest[i] == t);
                    assert(rest.contains(t));
                    let j = choose|j: int| 0 <= j < less.len() && less[j] == t;
                    assert(r[j] == t);
                } else {
                    assert(r[less.len() as int] == t);
                }
            }
            if r.contains(t) {
                let j = choose|j: int| 0 <= j < r.len() && r[j] == t;
                if v.last().id != id && j == less.len() {
                    assert(v[v.len() - 1] == t);
                } else {
                    assert(less[j] == t);
                    assert(less.contains(t));
                    assert(rest.contains(t));
                    let i = choose|i: int| 0 <= i < rest.len() && rest[i] == t;
                    assert(v[i] == t);
                }
            }
        }
        if v.last().id == id {
            assert(v[v.len() - 1].id == id);
        } else {
            if less.len() < rest.len() {
                let k = choose|k: int| 0 <= k < rest.len() && (#[trigger] rest[k]).id == id;
                assert(v[k].id == id);
            }
            if exists|k: int| 0 <= k < v.len() && (#[trigger] v[k]).id == id {
                let k = choose|k: int| 0 <= k < v.len() && (#[trigger] v[k]).id == id;
                assert(rest[k].id == id);
            }
        }
    }
}

impl SessionSandbox {
    /// The name of the container.
    pub closed spec fn name(&self) -> Seq<char> {
        self.container@
    }

    /// The directory that tools are confined to.
    pub closed spec fn root_dir(&self) -> Seq<char> {
        self.working_dir@
    }

    /// The background tasks.
    pub closed spec fn tasks(&self) -> Seq<BgTaskV> {
        task_views(self.tasks@)
    }

    /// The terminals.
    pub closed spec fn terminals(&self) -> Seq<TerminalV> {
        terminal_views(self.terminals@)
    }

    /// A handle on a container that runs already, confined to a directory.
    pub fn attach(container: &str, working_dir: &str) -> (r: SessionSandbox)
        ensures
            r.name() == container@,
            r.root_dir() == working_dir@,
            r.tasks() == Seq::<BgTaskV>::empty(),
            r.terminals() == Seq::<TerminalV>::empty(),
    {
        let r = SessionSandbox {
            container: container.to_owned(),
            working_dir: working_dir.to_owned(),
            tasks: Vec::new(),
            terminals: Vec::new(),
        };
        proof {
            assert(r.tasks() =~= Seq::<BgTaskV>::empty());
            assert(r.terminals() =~= Seq::<TerminalV>::empty());
        }
        r
    }

    /// The directory that tools are confined to.
    pub fn root(&self) -> (r: &str)
        ensures
            r@ == self.root_dir(),
    {
        self.working_dir.as_str()
    }

    /// The name of the container.
    pub fn container(&self) -> (r: &str)
        ensures
            r@ == self.name(),
    {
        self.container.as_str()
    }

    /// What podman is called with to run a command in the container.
    pub fn exec(&self, argv: &Vec<String>) -> (r: Vec<String>)
        ensures
            views(r@) == seq!["exec"@, self.name()] + views(argv@),
    {
        let mut args: Vec<String> = Vec::new();
        push_text(&mut args, "exec");
        push_text(&mut args, self.container.as_str());
        proof {
            assert(views(args@) =~= seq!["exec"@, self.name()]);
        }
        push_texts(&mut args, argv);
        args
    }

    /// What podman is called with to run a command that is given input.
    pub fn exec_stdin(&self, argv: &Vec<String>) -> (r: Vec<String>)
        ensures
            views(r@) == seq!["exec"@, "-i"@, self.name()] + views(argv@),
    {
        let mut args: Vec<String> = Vec::new();
        push_text(&mut args, "exec");
        push_text(&mut args, "-i");
        push_text(&mut args, self.container.as_str());
        proof {
            assert(views(args@) =~= seq!["exec"@, "-i"@, self.name()]);
        }
        push_texts(&mut args, argv);
        args
    }

    /// What podman is called with to remove the container.
    pub fn stop(&self) -> (r: Vec<String>)
        ensures
            views(r@) == seq!["rm"@, "-f"@, self.name()],
    {
        let mut args: Vec<String> = Vec::new();
        push_text(&mut args, "rm");
        push_text(&mut args, "-f");
        push_text(&mut args, self.container.as_str());
        proof {
            assert(views(args@) =~= seq!["rm"@, "-f"@, self.name()]);
        }
        args
    }

    /// Whether a message says that a port is taken.
    pub fn is_port_conflict(stderr: &str) -> (r: bool)
        ensures
            r == port_conflict(stderr@),
    {
        let lc = to_lower(stderr);
        let s = lc.as_str();
        has(s, "port is already allocated") || has(s, "address already in use") || has(s, "bind: address") || has(
            s,
            "rootlessport",
        ) || has(s, "proxy already running")
    }

    /// The port that a message names: the first number of one to five digits
    /// behind a colon that is at least 1024.
    pub fn extract_conflicting_port(stderr: &str) -> (r: Option<u16>)
        ensures
            r == port_from(stderr@, 0),
    {
        let v = chars_of(stderr);
        let mut i: usize = 0;
        while i < v.len()
            invariant
                i <= v@.len(),
                v@ == stderr@,
                port_from(stderr@, 0) == port_from(stderr@, i as int),
            decreases v@.len() - i,
        {
            if v[i] == ':' {
                let mut j: usize = i + 1;
                proof {
                    lemma_digits_end(stderr@, i + 1);
                }
                while j < v.len() && '0' <= v[j] && v[j] <= '9'
                    invariant
                        i < j <= v@.len(),
                        v@ == stderr@,
                        digits_end(stderr@, i + 1) == digits_end(stderr@, j as int),
                        forall|k: int| i + 1 <= k < j ==> is_digit(#[trigger] v@[k]),
                    decreases v@.len() - j,
                {
                    j += 1;
                }
                if j - i - 1 >= 1 && j - i - 1 <= 5 {
                    match number_between(&v, i + 1, j, 65535) {
                        Some(n) => {
                            if n >= 1024 {
                                return Some(n as u16);
                            }
                        },
                        None => {},
                    }
                }
                i = j;
            } else {
                i += 1;
            }
        }
        None
    }

    /// The arguments that start a container.
    pub fn build_run_args(
        container: &str,
        mount: &str,
        dir: &str,
        image: &str,
        with_limits: bool,
        ports: &Vec<u16>,
        policy: &SandboxPolicy,
    ) -> (r: Vec<String>)
        ensures
            views(r@) == run_args(container@, mount@, dir@, image@, with_limits, ports@, *policy),
    {
        let mut args: Vec<String> = Vec::new();
        proof {
            assert(views(args@) =~= Seq::<Seq<char>>::empty());
        }
        push_text(&mut args, "run");
        push_text(&mut args, "-d");
        push_text(&mut args, "--name");
        push_text(&mut args, container);
        push_text(&mut args, "-v");
        push_text(&mut args, mount);
        push_text(&mut args, "-w");
        push_text(&mut args, dir);
        push_text(&mut args, "--security-opt=no-new-privileges");
        let drops = dropped_caps();
        push_flagged(&mut args, "--cap-drop", &drops);
        let ghost a = views(args@);
        if matches!(policy.network, SandboxNetwork::Isolated) {
            push_text(&mut args, "--network");
            push_text(&mut args, "none");
        }
        let ghost net = if policy.network == SandboxNetwork::Isolated {
            seq!["--network"@, "none"@]
        } else {
            Seq::<Seq<char>>::empty()
        };
        proof {
            assert(views(args@) =~= a + net);
        }
        if with_limits {
            push_text(&mut args, "--memory");
            push_text(&mut args, "2g");
            push_text(&mut args, "--cpus");
            push_text(&mut args, "2");
            push_text(&mut args, "--pids-limit");
            push_text(&mut args, "512");
        }
        let ghost lim = if with_limits {
            seq!["--memory"@, "2g"@, "--cpus"@, "2"@, "--pids-limit"@, "512"@]
        } else {
            Seq::<Seq<char>>::empty()
        };
        proof {
            assert(views(args@) =~= a + net + lim);
        }
        let maps = port_texts(ports, policy.network);
        push_flagged(&mut args, "-p", &maps);
        let ghost b = views(args@);
        push_text(&mut args, image);
        push_text(&mut args, "sleep");
        push_text(&mut args, "infinity");
        proof {
            assert(views(args@) =~= b + seq![image@, "sleep"@, "infinity"@]);
        }
        args
    }

    /// The containers in a listing that belong to no known session.
    pub fn reap_orphans(listing: &str, known_ids: &Vec<String>) -> (r: Vec<String>)
        ensures
            views(r@) == orphans_in(full_lines(lines(listing@)), views(known_ids@)),
    {
        let names = non_empty_lines(listing);
        let ghost all = full_lines(lines(listing@));
        let ghost known = views(known_ids@);
        let mut out: Vec<String> = Vec::new();
        proof {
            assert(views(out@) =~= Seq::<Seq<char>>::empty());
            assert(all.take(0).len() == 0);
        }
        let mut i: usize = 0;
        while i < names.len()
            invariant
                i <= names@.len(),
                all == views(names@),
                all == full_lines(lines(listing@)),
                known == views(known_ids@),
                views(out@) == orphans_in(all.take(i as int), known),
            decreases names@.len() - i,
        {
            proof {
                assert(all.take(i + 1).drop_last() =~= all.take(i as int));
                assert(all.take(i + 1).last() == names@[i as int]@);
            }
            match stripped(names[i].as_str(), "axo-ses-") {
                Some(id) => {
                    if !holds(known_ids, id.as_str()) {
                        push_text(&mut out, names[i].as_str());
                    }
                },
                None => {},
            }
            i += 1;
        }
        proof {
            assert(all.take(all.len() as int) =~= all);
        }
        out
    }

    /// Notes a background task under an id.
    pub fn spawn_background_as(&mut self, id: &str, command: &str)
        ensures
            final(self).tasks() == old(self).tasks().push(
                (BgTaskV { id: id@, command: command@, status: "running"@, log: Seq::empty() }),
            ),
            final(self).terminals() == old(self).terminals(),
            final(self).name() == old(self).name(),
            final(self).root_dir() == old(self).root_dir(),
    {
        let ghost before = self.tasks();
        let log = "".to_owned();
        proof {
            reveal_strlit("");
            assert(log@ =~= Seq::<char>::empty());
        }
        let t = BgTask { id: id.to_owned(), command: command.to_owned(), status: "running".to_owned(), log };
        self.tasks.push(t);
        proof {
            assert(self.tasks() =~= before.push(t@));
        }
    }

    /// Notes a background task under an id made of the time. The id is
    /// returned.
    pub fn spawn_background(&mut self, command: &str) -> (r: String)
        ensures
            exists|millis: u128| r@ == started_id("task-"@, millis),
            final(self).tasks() == old(self).tasks().push(
                (BgTaskV { id: r@, command: command@, status: "running"@, log: Seq::empty() }),
            ),
            final(self).terminals() == old(self).terminals(),
            final(self).name() == old(self).name(),
            final(self).root_dir() == old(self).root_dir(),
    {
        let millis: u128 = unix_nanos() / 1_000_000;
        let id = started_id_text("task-", millis);
        self.spawn_background_as(id.as_str(), command);
        id
    }

    /// What is run in the container for a background command.
    pub fn background_script(command: &str) -> (r: String)
        ensures
            r@ == command@ + " 2>&1"@,
    {
        concat(command, " 2>&1")
    }

    fn task_position(&self, id: &str) -> (r: Option<usize>)
        ensures
            match r {
                Some(i) => task_from(self.tasks(), id@, 0) == Some(i as int) && i < self.tasks@.len(),
                None => task_from(self.tasks(), id@, 0) is None,
            },
    {
        let mut i: usize = 0;
        while i < self.tasks.len()
            invariant
                i <= self.tasks@.len(),
                task_from(self.tasks(), id@, 0) == task_from(self.tasks(), id@, i as int),
            decreases self.tasks@.len() - i,
        {
            proof {
                assert(self.tasks()[i as int] == self.tasks@[i as int]@);
            }
            if same(self.tasks[i].id.as_str(), id) {
                return Some(i);
            }
            i += 1;
        }
        None
    }

    /// Adds output to a task. Whether it was added: nothing changes for an
    /// unknown task, nor where the log would be cut inside a character.
    pub fn log_output(&mut self, id: &str, piece: &str) -> (r: bool)
        ensures
            match task_from(old(self).tasks(), id@, 0) {
                Some(i) => match grown_log(old(self).tasks()[i].log, piece@) {
                    Some(log) => r && final(self).tasks() == old(self).tasks().update(
                        i,
                        (BgTaskV { log, ..old(self).tasks()[i] }),
                    ),
                    None => !r && final(self).tasks() == old(self).tasks(),
                },
                None => !r && final(self).tasks() == old(self).tasks(),
            },
            final(self).terminals() == old(self).terminals(),
            final(self).name() == old(self).name(),
            final(self).root_dir() == old(self).root_dir(),
    {
        let ghost before = self.tasks();
        match self.task_position(id) {
            None => false,
            Some(i) => {
                proof {
                    assert(before[i as int] == self.tasks@[i as int]@);
                }
                match grow_log(self.tasks[i].log.as_str(), piece) {
                    None => false,
                    Some(log) => {
                        let old_task = &self.tasks[i];
                        let t = BgTask {
                            id: old_task.id.clone(),
                            command: old_task.command.clone(),
                            status: old_task.status.clone(),
                            log,
                        };
                        self.tasks.set(i, t);
                        proof {
                            assert(self.tasks() =~= before.update(i as int, t@));
                        }
                        true
                    },
                }
            },
        }
    }

    /// Notes how a task ended; an unknown one is left alone.
    pub fn end_task(&mut self, id: &str, end: TaskEnd)
        ensures
            match task_from(old(self).tasks(), id@, 0) {
                Some(i) => final(self).tasks() == old(self).tasks().update(
                    i,
                    (BgTaskV { status: end_status(end), ..old(self).tasks()[i] }),
                ),
                None => final(self).tasks() == old(self).tasks(),
            },
            final(self).terminals() == old(self).terminals(),
            final(self).name() == old(self).name(),
            final(self).root_dir() == old(self).root_dir(),
    {
        let ghost before = self.tasks();
        match self.task_position(id) {
            None => {},
            Some(i) => {
                let status = match end {
                    TaskEnd::NotStarted(e) => concat("failed: ", e.as_str()),
                    TaskEnd::Exited(code) => {
                        let head = concat("exited (", signed_text(code).as_str());
                        concat(head.as_str(), ")")
                    },
                    TaskEnd::Lost(e) => concat("failed: ", e.as_str()),
                };
                let old_task = &self.tasks[i];
                let t = BgTask {
                    id: old_task.id.clone(),
                    command: old_task.command.clone(),
                    status,
                    log: old_task.log.clone(),
                };
                proof {
                    assert(before[i as int] == self.tasks@[i as int]@);
                }
                self.tasks.set(i, t);
                proof {
                    assert(self.tasks() =~= before.update(i as int, t@));
                }
            },
        }
    }

    /// Notes a terminal under an id, where it could be opened.
    pub fn spawn_pty(&mut self, id: &str, command: &str, opened: Result<(), String>) -> (r: Result<String, String>)
        ensures
            match opened {
                Ok(_) => r matches Ok(i) && i@ == id@ && final(self).terminals() == old(self).terminals().push(
                    (TerminalV { id: id@, command: command@, alive: true }),
                ),
                Err(e) => r matches Err(m) && m@ == e@ && final(self).terminals() == old(self).terminals(),
            },
            final(self).tasks() == old(self).tasks(),
            final(self).name() == old(self).name(),
            final(self).root_dir() == old(self).root_dir(),
    {
        let ghost before = self.terminals();
        match opened {
            Ok(_) => {
                let t = Terminal { id: id.to_owned(), command: command.to_owned(), alive: true };
                self.terminals.push(t);
                proof {
                    assert(self.terminals() =~= before.push(t@));
                }
                Ok(id.to_owned())
            },
            Err(e) => Err(e),
        }
    }

    /// An id for a terminal, made of the time.
    pub fn terminal_id() -> (r: String)
        ensures
            exists|millis: u128| r@ == started_id("term-"@, millis),
    {
        let millis: u128 = unix_nanos() / 1_000_000;
        started_id_text("term-", millis)
    }

    /// The first terminal with an id.
    pub fn get_terminal(&self, id: &str) -> (r: Option<&Terminal>)
        ensures
            match r {
                Some(t) => terminal_from(self.terminals(), id@, 0) matches Some(i) && t@ == self.terminals()[i],
                None => terminal_from(self.terminals(), id@, 0) is None,
            },
    {
        let mut i: usize = 0;
        while i < self.terminals.len()
            invariant
                i <= self.terminals@.len(),
                terminal_from(self.terminals(), id@, 0) == terminal_from(self.terminals(), id@, i as int),
            decreases self.terminals@.len() - i,
        {
            proof {
                assert(self.terminals()[i as int] == self.terminals@[i as int]@);
            }
            if same(self.terminals[i].id.as_str(), id) {
                return Some(&self.terminals[i]);
            }
            i += 1;
        }
        None
    }

    /// Forgets the terminals with an id. Whether there was one.
    pub fn kill_terminal(&mut self, id: &str) -> (r: bool)
        ensures
            final(self).terminals() == others(old(self).terminals(), id@),
            r == (final(self).terminals().len() < old(self).terminals().len()),
            final(self).tasks() == old(self).tasks(),
            final(self).name() == old(self).name(),
            final(self).root_dir() == old(self).root_dir(),
    {
        let ghost before = self.terminals();
        let mut rest: Vec<Terminal> = Vec::new();
        std::mem::swap(&mut rest, &mut self.terminals);
        let n: usize = rest.len();
        let mut kept: Vec<Terminal> = Vec::new();
        let ghost all = rest@;
        proof {
            assert(before == terminal_views(all));
            assert(terminal_views(kept@) =~= Seq::<TerminalV>::empty());
            assert(before.take(0).len() == 0);
            assert(all.skip(0) =~= all);
        }
        let ghost mut i: int = 0;
        while rest.len() > 0
            invariant
                0 <= i <= all.len(),
                rest@ == all.skip(i),
                before == terminal_views(all),
                terminal_views(kept@) == others(before.take(i), id@),
            decreases rest@.len(),
        {
            let t = rest.remove(0);
            let ghost was = kept@;
            proof {
                assert(t == all[i]);
                assert(rest@ =~= all.skip(i + 1));
                assert(before.take(i + 1).drop_last() =~= before.take(i));
                assert(before.take(i + 1).last() == t@);
            }
            if !same(t.id.as_str(), id) {
                kept.push(t);
                proof {
                    assert(terminal_views(kept@) =~= terminal_views(was).push(t@));
                }
            }
            proof {
                i = i + 1;
            }
        }
        proof {
            assert(before.take(before.len() as int) =~= before);
        }
        let gone = kept.len() < n;
        self.terminals = kept;
        gone
    }

    /// The id, the command and whether it is alive, of each terminal.
    pub fn list_terminals(&self) -> (r: Vec<(String, String, bool)>)
        ensures
            r@.len() == self.terminals().len(),
            forall|i: int|
                0 <= i < r@.len() ==> (#[trigger] r@[i]).0@ == self.terminals()[i].id && r@[i].1@
                    == self.terminals()[i].command && r@[i].2 == self.terminals()[i].alive,
    {
        let mut out: Vec<(String, String, bool)> = Vec::new();
        let mut i: usize = 0;
        while i < self.terminals.len()
            invariant
                i <= self.terminals@.len(),
                out@.len() == i,
                forall|k: int|
                    0 <= k < i ==> (#[trigger] out@[k]).0@ == self.terminals()[k].id && out@[k].1@
                        == self.terminals()[k].command && out@[k].2 == self.terminals()[k].alive,
            decreases self.terminals@.len() - i,
        {
            let t = &self.terminals[i];
            proof {
                assert(self.terminals()[i as int] == t@);
            }
            out.push((t.id.clone(), t.command.clone(), t.alive));
            i += 1;
        }
        out
    }

    /// Copies of the background tasks.
    pub fn list_tasks(&self) -> (r: Vec<BgTask>)
        ensures
            task_views(r@) == self.tasks(),
    {
        let mut out: Vec<BgTask> = Vec::new();
        let mut i: usize = 0;
        while i < self.tasks.len()
            invariant
                i <= self.tasks@.len(),
                out@.len() == i,
                forall|k: int| 0 <= k < i ==> (#[trigger] out@[k])@ == self.tasks@[k]@,
            decreases self.tasks@.len() - i,
        {
            out.push(self.tasks[i].copy());
            i += 1;
        }
        proof {
            assert(task_views(out@) =~= self.tasks());
        }
        out
    }
}

/// What a log holds once a piece has come.
pub fn grow_log(log: &str, piece: &str) -> (r: Option<String>)
    ensures
        match r {
            Some(l) => grown_log(log@, piece@) == Some(l@),
            None => grown_log(log@, piece@) is None,
        },
{
    let all = concat(log, piece);
    let v = chars_of(all.as_str());
    if !has_bytes(&v, LOG_BYTES + 1) {
        return Some(all);
    }
    let mut left: usize = LOG_BYTES;
    let mut i: usize = v.len();
    proof {
        assert(v@.take(v@.len() as int) =~= v@);
    }
    while left > 0
        invariant
            i <= v@.len(),
            v@ == log@ + piece@,
            utf8_bytes(v@) > LOG_BYTES,
            tail_start(v@, LOG_BYTES as int) == tail_start(v@.take(i as int), left as int),
        decreases i,
    {
        if i == 0 {
            return None;
        }
        let w: usize = char_width(v[i - 1]);
        proof {
            assert(v@.take(i as int).drop_last() =~= v@.take(i - 1));
        }
        if w > left {
            proof {
                assert(tail_start(v@.take(i - 1), left - w) is None);
            }
            return None;
        }
        left = left - w;
        i = i - 1;
    }
    Some(text_between(&v, i, v.len()))
}

} // verus!
