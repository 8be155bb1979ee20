//! What containers are started with, and what is kept of what runs in them.
use vstd::prelude::*;

use crate::isolation::error::IsolationErrorV;
use crate::isolation::session_sandbox::{BgTaskV, LOG_BYTES, SandboxNetwork, SandboxPolicy, StartupV, TaskEnd,
    TerminalV, caps, container_of, default_image, digits_end, end_status, flagged, grown_log, is_orphan, orphans_in,
    others, port_conflict, port_from, port_maps, port_of, published, run_args, scripts_run, start_failure, started_id,
    tail_start, task_from, without_port};
use crate::isolation::wasmtime_sandbox::{RunEnd, run_result};
use crate::json::JsonV;
use crate::text::{all_digits, contains, decimal, hex_number, is_digit, lowercase, number_of, signed, strip, trim,
    utf8_bytes, utf8_width};
use crate::text_laws::{free_of, hex_read, law_hexadecimal_is_read_back, law_parts_are_found};

verus! {

// ---------------------------------------------------------------------------
// Starting
// ---------------------------------------------------------------------------

/// The value stands behind the flag.
pub open spec fn sets(args: Seq<Seq<char>>, flag: Seq<char>, value: Seq<char>) -> bool {
    exists|i: int| 0 <= i && i + 1 < args.len() && #[trigger] args[i] == flag && args[i + 1] == value
}

proof fn lemma_flagged_at(flag: Seq<char>, values: Seq<Seq<char>>, i: int)
    ensures
        flagged(flag, values).len() == 2 * values.len(),
        0 <= i < values.len() ==> flagged(flag, values)[2 * i] == flag && flagged(flag, values)[2 * i + 1] == values[i],
    decreases values.len(),
{
    if values.len() > 0 {
        let less = values.drop_last();
        lemma_flagged_at(flag, less, i);
        let was = flagged(flag, less);
        assert(flagged(flag, values) == was.push(flag).push(values.last()));
    }
}

/// A container gets its name, its mount and its directory, runs the image until
/// it is stopped, is cut off where the policy says so, and has its memory, its
/// processors and its processes limited where the limits are asked for. Every
/// published port is reached under its own number.
pub proof fn law_containers_get_what_was_asked(
    container: Seq<char>,
    mount: Seq<char>,
    dir: Seq<char>,
    image: Seq<char>,
    with_limits: bool,
    ports: Seq<u16>,
    policy: SandboxPolicy,
    p: int,
)
    ensures
        ({
            let args = run_args(container, mount, dir, image, with_limits, ports, policy);
            let n = args.len() as int;
            &&& args[0] == "run"@
            &&& args[1] == "-d"@
            &&& sets(args, "--name"@, container)
            &&& sets(args, "-v"@, mount)
            &&& sets(args, "-w"@, dir)
            &&& policy.network == SandboxNetwork::Isolated ==> sets(args, "--network"@, "none"@)
            &&& with_limits ==> sets(args, "--memory"@, "2g"@) && sets(args, "--cpus"@, "2"@) && sets(
                args,
                "--pids-limit"@,
                "512"@,
            )
            &&& policy.network != SandboxNetwork::Isolated && 0 <= p < ports.len() ==> sets(
                args,
                "-p"@,
                decimal(ports[p] as nat) + seq![':'] + decimal(ports[p] as nat),
            )
            &&& args[n - 3] == image
            &&& args[n - 2] == "sleep"@
            &&& args[n - 1] == "infinity"@
            &&& n == 34 + (if policy.network == SandboxNetwork::Isolated {
                2
            } else {
                2 * ports.len()
            }) + (if with_limits {
                6int
            } else {
                0
            })
        }),
{
    reveal_strlit(":");
    assert(":"@ =~= seq![':']);
    let args = run_args(container, mount, dir, image, with_limits, ports, policy);
    let head = seq!["run"@, "-d"@, "--name"@, container, "-v"@, mount, "-w"@, dir, "--security-opt=no-new-privileges"@];
    let drops = flagged("--cap-drop"@, caps());
    lemma_flagged_at("--cap-drop"@, caps(), 0);
    let net = if policy.network == SandboxNetwork::Isolated {
        seq!["--network"@, "none"@]
    } else {
        Seq::empty()
    };
    let limits = if with_limits {
        seq!["--memory"@, "2g"@, "--cpus"@, "2"@, "--pids-limit"@, "512"@]
    } else {
        Seq::empty()
    };
    let maps = port_maps(published(ports, policy.network));
    let opened = flagged("-p"@, maps);
    lemma_flagged_at("-p"@, maps, p);
    assert(caps().len() == 11);
    assert(args[2] == "--name"@ && args[3] == container);
    assert(args[4] == "-v"@ && args[5] == mount);
    assert(args[6] == "-w"@ && args[7] == dir);
    let a = 31int;
    if policy.network == SandboxNetwork::Isolated {
        assert(args[a] == "--network"@ && args[a + 1] == "none"@);
    }
    let b = a + net.len();
    if with_limits {
        assert(args[b] == "--memory"@ && args[b + 1] == "2g"@);
        assert(args[b + 2] == "--cpus"@ && args[b + 3] == "2"@);
        assert(args[b + 4] == "--pids-limit"@ && args[b + 5] == "512"@);
    }
    let c = b + limits.len();
    if policy.network != SandboxNetwork::Isolated && 0 <= p < ports.len() {
        assert(maps[p] == decimal(ports[p] as nat) + ":"@ + decimal(ports[p] as nat));
        assert(args[c + 2 * p] == opened[2 * p]);
        assert(args[c + 2 * p + 1] == opened[2 * p + 1]);
    }
}

/// The first attempt to start a session's container mounts the session's
/// directory at its own place, for reading and writing, and asks for the limits
/// and all ports.
pub proof fn law_first_attempts_ask_for_everything(
    session_id: Seq<char>,
    dir: Seq<char>,
    asked: Option<Seq<char>>,
    ports: Seq<u16>,
    policy: SandboxPolicy,
)
    ensures
        ({
            let st = StartupV::first(session_id, dir, asked, ports, policy);
            &&& st.container == seq!['a', 'x', 'o', '-', 's', 'e', 's', '-'] + session_id
            &&& st.dir == dir
            &&& st.with_limits
            &&& st.publish == ports
            &&& st.policy == policy
            &&& sets(st.args(), "-v"@, dir + seq![':'] + dir + seq![':', 'r', 'w'])
            &&& sets(st.args(), "-w"@, dir)
            &&& sets(st.args(), "--name"@, st.container)
            &&& asked is None ==> st.image == default_image()
            &&& asked matches Some(i) ==> (policy.allow_untrusted_image ==> st.image == i)
            &&& asked matches Some(i) ==> (!policy.allow_untrusted_image ==> st.image == default_image())
        }),
{
    reveal_strlit("axo-ses-");
    reveal_strlit(":");
    reveal_strlit(":rw");
    assert("axo-ses-"@ =~= seq!['a', 'x', 'o', '-', 's', 'e', 's', '-']);
    assert(":"@ =~= seq![':']);
    assert(":rw"@ =~= seq![':', 'r', 'w']);
    let st = StartupV::first(session_id, dir, asked, ports, policy);
    law_containers_get_what_was_asked(
        st.container,
        st.dir + ":"@ + st.dir + ":rw"@,
        st.dir,
        st.image,
        st.with_limits,
        st.publish,
        st.policy,
        0,
    );
}

/// A failed attempt is followed by one that gives up the limits, where the host
/// cannot apply them and they are not required, or by one that gives up ports,
/// where one is taken; all else stays, and any other failure is final and says
/// what was said.
pub proof fn law_failed_attempts_give_up_one_thing(st: StartupV, e: Seq<char>)
    ensures
        contains(e, "cgroup"@) && st.with_limits && !st.policy.require_resource_limits ==> {
            &&& st.after(e) matches Ok(next) && !next.with_limits && next.publish == st.publish && next.container
                == st.container && next.dir == st.dir && next.image == st.image && next.policy == st.policy
        },
        contains(e, "cgroup"@) && st.with_limits && st.policy.require_resource_limits ==> {
            &&& st.after(e) matches Err(IsolationErrorV::OciContainerFailed(m)) && contains(m, e)
        },
        !(contains(e, "cgroup"@) && st.with_limits) && port_conflict(e) && st.publish.len() > 0 ==> {
            &&& st.after(e) matches Ok(next) && next.with_limits == st.with_limits && next.container == st.container
                && next.dir == st.dir && next.image == st.image && next.policy == st.policy && (port_from(e, 0) matches Some(
                bad,
            ) ==> st.publish.contains(bad) ==> next.publish == st.publish.filter(|p: u16| p != bad)) && (port_from(e, 0)
                is None ==> next.publish.len() == 0)
        },
        !(contains(e, "cgroup"@) && st.with_limits) && !(port_conflict(e) && st.publish.len() > 0) ==> st.after(e)
            == Err::<StartupV, IsolationErrorV>(IsolationErrorV::OciContainerFailed(e)),
{
    if let Some(bad) = port_from(e, 0) {
        lemma_without(st.publish, bad);
    }
    law_parts_are_found(
        "resource limits required but unavailable on this host (cgroup delegation missing): "@,
        e,
        ". Set sandbox.require_resource_limits = false to allow an uncapped sandbox."@,
    );
}

proof fn lemma_without(ports: Seq<u16>, bad: u16)
    ensures
        without_port(ports, bad) == ports.filter(|p: u16| p != bad),
    decreases ports.len(),
{
    reveal(Seq::filter);
    if ports.len() > 0 {
        lemma_without(ports.drop_last(), bad);
    }
}

/// A message says that a port is taken exactly where it holds one of the phrases
/// that podman has for it, whatever the case.
pub proof fn law_conflicts_are_recognised(stderr: Seq<char>)
    ensures
        port_conflict(stderr) <==> {
            ||| contains(lowercase(stderr), "port is already allocated"@)
            ||| contains(lowercase(stderr), "address already in use"@)
            ||| contains(lowercase(stderr), "bind: address"@)
            ||| contains(lowercase(stderr), "rootlessport"@)
            ||| contains(lowercase(stderr), "proxy already running"@)
        },
{
}

proof fn lemma_digits_reach(s: Seq<char>, i: int, e: int)
    requires
        0 <= i <= e <= s.len(),
        forall|j: int| i <= j < e ==> is_digit(#[trigger] s[j]),
        e < s.len() ==> !is_digit(s[e]),
    ensures
        digits_end(s, i) == e,
    decreases e - i,
{
    if i < e {
        lemma_digits_reach(s, i + 1, e);
    }
}

proof fn lemma_no_colon(s: Seq<char>, i: int, k: int)
    requires
        0 <= i <= k < s.len(),
        forall|j: int| i <= j < k ==> s[j] != ':',
    ensures
        port_from(s, i) == port_from(s, k),
    decreases k - i,
{
    if i < k {
        lemma_no_colon(s, i + 1, k);
    }
}

/// The port that a message names behind its first colon is found, where it is
/// one that a session may publish.
pub proof fn law_named_ports_are_found(before: Seq<char>, digits: Seq<char>, after: Seq<char>)
    requires
        free_of(before, ':'),
        1 <= digits.len() <= 5,
        all_digits(digits),
        1024 <= number_of(digits) <= 65535,
        after.len() == 0 || !is_digit(after[0]),
    ensures
        port_from(before + seq![':'] + digits + after, 0) == Some(number_of(digits) as u16),
        free_of(after, ':') ==> port_from(before + after, 0) is None,
{
    let s = before + seq![':'] + digits + after;
    let k = before.len() as int;
    lemma_no_colon(s, 0, k);
    let e = k + 1 + digits.len();
    assert forall|j: int| k + 1 <= j < e implies is_digit(#[trigger] s[j]) by {
        assert(s[j] == digits[j - k - 1]);
        assert(is_digit(digits[j - k - 1]));
    }
    if e < s.len() {
        assert(s[e] == after[0]);
    }
    lemma_digits_reach(s, k + 1, e);
    assert(s.subrange(k + 1, e) =~= digits);
    if free_of(after, ':') {
        lemma_no_port(before + after, 0);
    }
}

proof fn lemma_no_port(s: Seq<char>, i: int)
    requires
        0 <= i,
        free_of(s, ':'),
    ensures
        port_from(s, i) is None,
    decreases s.len() - i,
{
    if i < s.len() {
        assert(s[i] != ':');
        lemma_no_port(s, i + 1);
    }
}

/// A port below 1024, one above 65535 and one of more than five digits is none
/// that a session publishes.
pub proof fn law_only_free_ports_are_published(digits: Seq<char>)
    ensures
        port_of(digits) matches Some(p) ==> p as nat == number_of(digits) && p >= 1024,
        number_of(digits) < 1024 || number_of(digits) > 65535 || digits.len() > 5 || digits.len() == 0 ==> port_of(digits)
            is None,
{
}

/// The setup scripts of a project are run, all of them and in order, where they
/// are trusted, and none where they are not. What podman said of a failed start
/// is kept.
pub proof fn law_only_trusted_scripts_are_run(scripts: Seq<Seq<char>>, policy: SandboxPolicy, stderr: Seq<char>)
    ensures
        policy.allow_post_create ==> scripts_run(scripts, policy) == scripts,
        !policy.allow_post_create ==> scripts_run(scripts, policy).len() == 0,
        start_failure(stderr) == "starting session container: "@ + trim(stderr),
{
}

/// The containers of sessions that are not known are orphans, all of them and in
/// order; those of known sessions and those of others are not.
pub proof fn law_orphans_are_unknown_sessions(names: Seq<Seq<char>>, known: Seq<Seq<char>>, id: Seq<char>, name: Seq<char>)
    ensures
        is_orphan(container_of(id), known) <==> !known.contains(id),
        is_orphan(name, known) ==> exists|other: Seq<char>| name == #[trigger] container_of(other) && !known.contains(other),
        orphans_in(names, known) == names.filter(|n: Seq<char>| is_orphan(n, known)),
{
    law_parts_are_found(Seq::empty(), "axo-ses-"@, id);
    if is_orphan(name, known) {
        let other = strip(name, "axo-ses-"@)->0;
        assert(name.subrange(0, "axo-ses-"@.len() as int) =~= "axo-ses-"@);
        assert("axo-ses-"@ + other =~= name);
        assert(name == container_of(other));
    }
    lemma_orphans(names, known);
}

proof fn lemma_orphans(names: Seq<Seq<char>>, known: Seq<Seq<char>>)
    ensures
        orphans_in(names, known) == names.filter(|n: Seq<char>| is_orphan(n, known)),
    decreases names.len(),
{
    reveal(Seq::filter);
    if names.len() > 0 {
        lemma_orphans(names.drop_last(), known);
    }
}

// ---------------------------------------------------------------------------
// Running
// ---------------------------------------------------------------------------

proof fn lemma_tail_start(s: Seq<char>, n: int)
    requires
        n >= 0,
    ensures
        tail_start(s, n) matches Some(i) ==> 0 <= i <= s.len() && utf8_bytes(s.skip(i)) == n,
    decreases s.len(),
{
    if n == 0 {
        assert(s.skip(s.len() as int).len() == 0);
    } else if s.len() > 0 && n - utf8_width(s.last()) >= 0 {
        let t = s.drop_last();
        lemma_tail_start(t, n - utf8_width(s.last()));
        if let Some(i) = tail_start(t, n - utf8_width(s.last())) {
            let rest = s.skip(i);
            assert(rest.drop_last() =~= t.skip(i));
            assert(rest.last() == s.last());
        }
    }
}

/// The log of a task is the end of all that came: all of it as long as it fits
/// in 64 KiB, and else exactly the last 64 KiB.
pub proof fn law_logs_hold_the_end(log: Seq<char>, piece: Seq<char>)
    ensures
        utf8_bytes(log + piece) <= 65536 ==> grown_log(log, piece) == Some(log + piece),
        grown_log(log, piece) matches Some(kept) ==> {
            &&& kept.len() <= (log + piece).len()
            &&& kept == (log + piece).skip((log + piece).len() - kept.len())
            &&& utf8_bytes(kept) <= 65536
            &&& utf8_bytes(log + piece) > 65536 ==> utf8_bytes(kept) == 65536
        },
{
    let all = log + piece;
    if utf8_bytes(all) > 65536 {
        lemma_tail_start(all, LOG_BYTES as int);
        if let Some(i) = tail_start(all, LOG_BYTES as int) {
            assert(all.subrange(i, all.len() as int) =~= all.skip(i));
        }
    } else {
        assert(all.skip(0) =~= all);
    }
}

/// The id of what was started holds the time, in hexadecimal digits behind its
/// kind.
pub proof fn law_ids_hold_the_time(kind: Seq<char>, millis: u128)
    ensures
        started_id(kind, millis).take(kind.len() as int) == kind,
        hex_read(started_id(kind, millis).skip(kind.len() as int)) == millis,
{
    law_hexadecimal_is_read_back(millis as nat);
    assert(started_id(kind, millis).skip(kind.len() as int) =~= hex_number(millis as nat));
    assert(started_id(kind, millis).take(kind.len() as int) =~= kind);
}

/// A task that has exited says with which code; one that could not be started or
/// was lost says why.
pub proof fn law_ends_are_told(code: i32, why: String)
    ensures
        end_status(TaskEnd::Exited(code)) == "exited ("@ + signed(code as int) + ")"@,
        end_status(TaskEnd::NotStarted(why)) == "failed: "@ + why@,
        end_status(TaskEnd::Lost(why)) == "failed: "@ + why@,
{
}

/// The terminals that are left are those of other ids, in order; the task that
/// is found under an id is the first that has it.
pub proof fn law_others_are_left(v: Seq<TerminalV>, id: Seq<char>, tasks: Seq<BgTaskV>)
    ensures
        others(v, id) == v.filter(|t: TerminalV| t.id != id),
        match task_from(tasks, id, 0) {
            Some(k) => 0 <= k < tasks.len() && tasks[k].id == id && forall|j: int|
                0 <= j < k ==> (#[trigger] tasks[j]).id != id,
            None => forall|j: int| 0 <= j < tasks.len() ==> (#[trigger] tasks[j]).id != id,
        },
{
    lemma_others_left(v, id);
    lemma_task_at(tasks, id, 0);
}

proof fn lemma_others_left(v: Seq<TerminalV>, id: Seq<char>)
    ensures
        others(v, id) == v.filter(|t: TerminalV| t.id != id),
    decreases v.len(),
{
    reveal(Seq::filter);
    if v.len() > 0 {
        lemma_others_left(v.drop_last(), id);
    }
}

proof fn lemma_task_at(v: Seq<BgTaskV>, id: Seq<char>, i: int)
    requires
        0 <= i,
    ensures
        match task_from(v, id, i) {
            Some(k) => i <= k < v.len() && v[k].id == id && forall|j: int| i <= j < k ==> (#[trigger] v[j]).id != id,
            None => forall|j: int| i <= j < v.len() ==> (#[trigger] v[j]).id != id,
        },
    decreases v.len() - i,
{
    if i < v.len() && v[i].id != id {
        lemma_task_at(v, id, i + 1);
    }
}

/// A tool that ran to its end is answered with its status; one that did not, with
/// an error that says what went wrong.
pub proof fn law_runs_are_answered(tool: Seq<char>, why: String)
    ensures
        run_result(tool, RunEnd::Finished) matches Ok(a) && a.at_key("status"@) == JsonV::Text(seq!['o', 'k']),
        run_result(tool, RunEnd::FuelRefused(why)) == Err::<JsonV, IsolationErrorV>(IsolationErrorV::FuelError(why@)),
        run_result(tool, RunEnd::NotLinked(why)) == Err::<JsonV, IsolationErrorV>(IsolationErrorV::Wasmtime(why@)),
        run_result(tool, RunEnd::NotInstantiated(why)) == Err::<JsonV, IsolationErrorV>(
            IsolationErrorV::InstantiationFailed(why@),
        ),
        run_result(tool, RunEnd::NoEntry) matches Err(IsolationErrorV::MissingExport { tool: t, export }) && t == tool
            && export == "_start"@,
        contains(why@, "fuel"@) ==> run_result(tool, RunEnd::Stopped(why)) == Err::<JsonV, IsolationErrorV>(
            IsolationErrorV::FuelExhausted,
        ),
        !contains(why@, "fuel"@) ==> run_result(tool, RunEnd::Stopped(why)) == Err::<JsonV, IsolationErrorV>(
            IsolationErrorV::ExecutionFailed(why@),
        ),
{
    reveal_strlit("ok");
    assert("ok"@ =~= seq!['o', 'k']);
}

} // verus!
