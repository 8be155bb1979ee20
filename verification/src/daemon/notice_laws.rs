//! What notices, frames and diffs tell, and what nodes are given.
use vstd::prelude::*;

use crate::daemon::automation::{InputV, NodeV, node_from, node_of};
use crate::daemon::automation_executor::{fill_nodes, filled, full_lines, input_text, list_items, node_mark};
use crate::daemon::config::{AgentSettings, WorkflowSettings, agent_from, workflow_from};
use crate::daemon::diff::{DiffPhase, DiffRunV};
use crate::daemon::execution::excerpt;
use crate::daemon::frames::{FrameV, StreamChunk, activated, completed, forwarded};
use crate::daemon::git::{branch_name, branch_of, entry, exceeds, files_of, is_binary, is_entry, path_of, printed_size,
    word_of};
use crate::daemon::interrupt::interrupt_key;
use crate::daemon::webhook::{EventNotification, NextMove, Outcome, Sink, WebhookConfig, asked_pause, base_pause,
    doublings, enabled_sinks, host, next_move, notice, notice_headers, pause_millis, retryable, signature, wanting};
use crate::isolation::session_sandbox::ExecResult;
use crate::json::{Json, JsonV, number_of_u64, parsed, rendered};
use crate::llm::provider::success;
use crate::text::{all_digits, at, behind, byte_cut, byte_len, contains, decimal, find_from, is_digit, is_space, join,
    lemma_find_from, lines, number_of, starts_with, strip, trim, trim_start, unsigned, until, utf8_bytes};
use crate::text_laws::{free_of, law_replacing_keeps_the_rest, law_trimming_leaves_the_text, leftmost};

verus! {

/// The names of the members of a notice are different.
proof fn lemma_notice_keys()
    ensures
        "delivery_id"@ != "event_id"@,
        "delivery_id"@ != "event_type"@,
        "delivery_id"@ != "produced_by"@,
        "delivery_id"@ != "timestamp"@,
        "delivery_id"@ != "payload"@,
        "event_id"@ != "event_type"@,
        "event_id"@ != "produced_by"@,
        "event_id"@ != "timestamp"@,
        "event_id"@ != "payload"@,
        "event_type"@ != "produced_by"@,
        "event_type"@ != "timestamp"@,
        "event_type"@ != "payload"@,
        "produced_by"@ != "timestamp"@,
        "produced_by"@ != "payload"@,
        "timestamp"@ != "payload"@,
{
    reveal_strlit("delivery_id");
    reveal_strlit("event_id");
    reveal_strlit("event_type");
    reveal_strlit("produced_by");
    reveal_strlit("timestamp");
    reveal_strlit("payload");
    assert("delivery_id"@.len() != "event_id"@.len());
    assert("delivery_id"@.len() != "event_type"@.len());
    assert("delivery_id"@[0] != "produced_by"@[0]);
    assert("delivery_id"@.len() != "timestamp"@.len());
    assert("delivery_id"@.len() != "payload"@.len());
    assert("event_id"@.len() != "event_type"@.len());
    assert("event_id"@.len() != "produced_by"@.len());
    assert("event_id"@.len() != "timestamp"@.len());
    assert("event_id"@.len() != "payload"@.len());
    assert("event_type"@.len() != "produced_by"@.len());
    assert("event_type"@.len() != "timestamp"@.len());
    assert("event_type"@.len() != "payload"@.len());
    assert("produced_by"@.len() != "timestamp"@.len());
    assert("produced_by"@.len() != "payload"@.len());
    assert("timestamp"@.len() != "payload"@.len());
}

/// The states of files are different.
proof fn lemma_states()
    ensures
        "untracked"@ != "added"@,
        "untracked"@ != "deleted"@,
        "untracked"@ != "renamed"@,
        "untracked"@ != "modified"@,
        "added"@ != "deleted"@,
        "added"@ != "renamed"@,
        "added"@ != "modified"@,
        "deleted"@ != "renamed"@,
        "deleted"@ != "modified"@,
        "renamed"@ != "modified"@,
{
    reveal_strlit("untracked");
    reveal_strlit("added");
    reveal_strlit("deleted");
    reveal_strlit("renamed");
    reveal_strlit("modified");
    assert("untracked"@.len() != "added"@.len());
    assert("untracked"@.len() != "deleted"@.len());
    assert("untracked"@.len() != "renamed"@.len());
    assert("untracked"@.len() != "modified"@.len());
    assert("added"@.len() != "deleted"@.len());
    assert("added"@.len() != "renamed"@.len());
    assert("added"@.len() != "modified"@.len());
    assert("deleted"@[0] != "renamed"@[0]);
    assert("deleted"@.len() != "modified"@.len());
    assert("renamed"@.len() != "modified"@.len());
}


// ---------------------------------------------------------------------------
// Webhooks
// ---------------------------------------------------------------------------

/// The webhooks in use are those that are enabled, in order, each with all that
/// it is configured with.
pub proof fn law_enabled_webhooks_are_used(configs: Seq<WebhookConfig>)
    ensures
        enabled_sinks(configs).len() == configs.filter(|c: WebhookConfig| c.enabled).len(),
        forall|i: int|
            0 <= i < enabled_sinks(configs).len() ==> ({
                let s = #[trigger] enabled_sinks(configs)[i];
                let c = configs.filter(|c: WebhookConfig| c.enabled)[i];
                &&& s.name == c.name
                &&& s.url == c.url
                &&& s.events == c.events
                &&& s.secret == c.secret
                &&& s.headers == c.headers
            }),
    decreases configs.len(),
{
    reveal(Seq::filter);
    if configs.len() > 0 {
        law_enabled_webhooks_are_used(configs.drop_last());
        let f = |c: WebhookConfig| c.enabled;
        let rest = configs.drop_last().filter(f);
        let all = configs.filter(f);
        let t = enabled_sinks(configs);
        assert forall|i: int| 0 <= i < t.len() implies ({
            let s = #[trigger] t[i];
            let c = all[i];
            &&& s.name == c.name
            &&& s.url == c.url
            &&& s.events == c.events
            &&& s.secret == c.secret
            &&& s.headers == c.headers
        }) by {
            if i < rest.len() {
                assert(all[i] == rest[i]);
                assert(t[i] == enabled_sinks(configs.drop_last())[i]);
            }
        }
    }
}

/// An event goes to each webhook that wants it, once and in order, and to no
/// other.
pub proof fn law_events_go_to_those_who_want_them(sinks: Seq<Sink>, event: Seq<char>, telemetry: bool, k: usize)
    requires
        sinks.len() <= usize::MAX,
    ensures
        wanting(sinks, event, telemetry).contains(k) <==> k < sinks.len() && sinks[k as int].wants(event, telemetry),
        forall|i: int, j: int|
            0 <= i < j < wanting(sinks, event, telemetry).len() ==> #[trigger] wanting(sinks, event, telemetry)[i]
                < #[trigger] wanting(sinks, event, telemetry)[j],
        forall|i: int|
            0 <= i < wanting(sinks, event, telemetry).len() ==> #[trigger] wanting(sinks, event, telemetry)[i]
                < sinks.len(),
    decreases sinks.len(),
{
    if sinks.len() > 0 {
        let less = sinks.drop_last();
        law_events_go_to_those_who_want_them(less, event, telemetry, k);
        let was = wanting(less, event, telemetry);
        let now = wanting(sinks, event, telemetry);
        let n = (sinks.len() - 1) as usize;
        if sinks.last().wants(event, telemetry) {
            assert(now == was.push(n));
            if now.contains(k) {
                let i = choose|i: int| 0 <= i < now.len() && now[i] == k;
                if i < was.len() {
                    assert(was[i] == k);
                    assert(was.contains(k));
                }
            }
            if k < sinks.len() && sinks[k as int].wants(event, telemetry) {
                if k < less.len() {
                    assert(less[k as int] == sinks[k as int]);
                    let i = choose|i: int| 0 <= i < was.len() && was[i] == k;
                    assert(now[i] == k);
                } else {
                    assert(now[was.len() as int] == k);
                }
            }
        } else if k < less.len() {
            assert(less[k as int] == sinks[k as int]);
        }
    }
}

/// A notice tells the delivery, the event, who published it and when, and its
/// payload.
pub proof fn law_notices_tell_the_event(n: EventNotification, delivery: Seq<char>)
    ensures
        ({
            let v = notice(n, delivery);
            &&& v.at_key("delivery_id"@) == JsonV::Text(delivery)
            &&& v.at_key("event_id"@) == JsonV::Text(n.event_id@)
            &&& v.at_key("event_type"@) == JsonV::Text(n.event_name@)
            &&& v.at_key("produced_by"@) == JsonV::Text(n.produced_by@)
            &&& v.at_key("timestamp"@) == JsonV::Number(number_of_u64(n.timestamp))
            &&& v.at_key("payload"@) == n.payload@
        }),
{
    lemma_notice_keys();
}

/// A request tells the event, the delivery and when it was sent; with a secret it
/// carries the signature of exactly the body that is sent, and then the headers
/// that are configured.
pub proof fn law_requests_are_signed(sink: Sink, event: Seq<char>, delivery: Seq<char>, sent_at: u64, body: Seq<char>)
    ensures
        ({
            let h = notice_headers(sink, event, delivery, sent_at, body);
            let n: int = if sink.secret is Some {
                5
            } else {
                4
            };
            &&& h.contains(("content-type"@, "application/json"@))
            &&& h.contains(("x-axocoatl-event"@, event))
            &&& h.contains(("x-axocoatl-delivery"@, delivery))
            &&& h.contains(("x-axocoatl-timestamp"@, decimal(sent_at as nat)))
            &&& sink.secret matches Some(s) ==> h.contains(
                ("x-axocoatl-signature"@, "sha256="@ + signature(s@, vstd::utf8::encode_utf8(body))),
            )
            &&& h.len() == n + sink.headers@.len()
            &&& forall|i: int|
                0 <= i < sink.headers@.len() ==> h[n + i] == ((#[trigger] sink.headers@[i]).0@, sink.headers@[i].1@)
        }),
{
    let h = notice_headers(sink, event, delivery, sent_at, body);
    assert(h[0] == ("content-type"@, "application/json"@));
    assert(h[1] == ("x-axocoatl-event"@, event));
    assert(h[2] == ("x-axocoatl-delivery"@, delivery));
    assert(h[3] == ("x-axocoatl-timestamp"@, decimal(sent_at as nat)));
    if let Some(s) = sink.secret {
        assert(h[4] == ("x-axocoatl-signature"@, "sha256="@ + signature(s@, vstd::utf8::encode_utf8(body))));
    }
}

/// What is worth another try is an error of the server or too many requests.
pub proof fn law_what_may_pass_is_tried_again(status: u16)
    ensures
        retryable(status) <==> (500 <= status && status <= 599) || status == 429,
        success(status) <==> 200 <= status && status <= 299,
        success(status) ==> !retryable(status),
{
}

proof fn lemma_doubling(n: nat)
    ensures
        1 <= doublings(n) <= u32::MAX,
        2 * doublings(n) <= u32::MAX ==> doublings(n + 1) == 2 * doublings(n),
    decreases n,
{
    if n > 0 {
        lemma_doubling((n - 1) as nat);
    }
}

/// The first pause is half a second and each further one twice as long; it is
/// varied by the clock by up to a quarter either way, a hundredth of it at a
/// time.
pub proof fn law_pauses_double(attempt: u32, nanos: u128)
    requires
        1 <= attempt < u32::MAX,
    ensures
        base_pause(1) == 500,
        2 * base_pause(attempt) <= 500 * u32::MAX ==> base_pause((attempt + 1) as u32) == 2 * base_pause(attempt),
        100 * pause_millis(attempt, nanos) == base_pause(attempt) * (75 + nanos % 50),
{
    lemma_doubling((attempt - 1) as nat);
    assert((attempt - 1) as nat + 1 == (attempt + 1 - 1) as nat);
    assert(doublings(0) == 1);
    let d = doublings((attempt - 1) as nat) as int;
    let m = (nanos % 50) as int;
    let base = base_pause(attempt);
    assert(base == 500 * d);
    if m >= 25 {
        assert((500 * d) * (m - 25) == 100 * (5 * (d * (m - 25)))) by (nonlinear_arith);
        assert((100 * (5 * (d * (m - 25)))) / 100 == 5 * (d * (m - 25)));
        assert(100 * (500 * d + 5 * (d * (m - 25))) == (500 * d) * (75 + m)) by (nonlinear_arith);
    } else {
        assert((500 * d) * (25 - m) == 100 * (5 * (d * (25 - m)))) by (nonlinear_arith);
        assert((100 * (5 * (d * (25 - m)))) / 100 == 5 * (d * (25 - m)));
        assert(100 * (500 * d - 5 * (d * (25 - m))) == (500 * d) * (75 + m)) by (nonlinear_arith);
    }
}

/// The pause that a receiver asks for is the number of seconds in its header, and
/// is kept to.
pub proof fn law_asked_pauses_are_kept(attempt: u32, status: u16, digits: Seq<char>, secs: u64, nanos: u128)
    requires
        1 <= attempt < 4,
        retryable(status),
    ensures
        next_move(attempt, Outcome::Status(status, Some(secs)), nanos) == NextMove::RetryIn((1000 * secs) as u128),
        next_move(attempt, Outcome::Status(status, None), nanos) == NextMove::RetryIn(
            pause_millis(attempt, nanos) as u128,
        ),
        next_move(attempt, Outcome::NoAnswer, nanos) == NextMove::RetryIn(pause_millis(attempt, nanos) as u128),
        digits.len() > 0 && all_digits(digits) && number_of(digits) <= u64::MAX ==> asked_pause(Some(digits)) == Some(
            number_of(digits) as u64,
        ),
        asked_pause(None) is None,
{
    if digits.len() > 0 && all_digits(digits) && number_of(digits) <= u64::MAX {
        assert(is_digit(digits[0]));
        assert(is_digit(digits[digits.len() - 1]));
        let none = Seq::<char>::empty();
        assert(digits =~= none + digits + none);
        law_trimming_leaves_the_text(none, digits, none);
        assert(unsigned(digits) == digits);
    }
}

/// A request that arrived is done, one that was refused for good is not sent
/// again, and after the fourth try nothing is.
pub proof fn law_deliveries_end(attempt: u32, status: u16, pause: Option<u64>, nanos: u128)
    requires
        attempt >= 1,
    ensures
        success(status) ==> next_move(attempt, Outcome::Status(status, pause), nanos) == NextMove::Delivered,
        !success(status) && !retryable(status) ==> next_move(attempt, Outcome::Status(status, pause), nanos)
            == NextMove::Rejected,
        retryable(status) && attempt >= 4 ==> next_move(attempt, Outcome::Status(status, pause), nanos)
            == NextMove::GiveUp,
        attempt >= 4 ==> next_move(attempt, Outcome::NoAnswer, nanos) == NextMove::GiveUp,
{
}

proof fn lemma_until_at(a: Seq<char>, p: Seq<char>, b: Seq<char>)
    requires
        p.len() > 0,
        free_of(a, p[0]),
    ensures
        until(a + p + b, p) == a,
        behind(a + p + b, p) == Some(b),
{
    let s = a + p + b;
    let k = a.len() as int;
    lemma_find_from(s, p, 0);
    assert(s.subrange(k, k + p.len()) =~= p);
    assert(at(s, p, k));
    assert(find_from(s, p, 0) is Some);
    let f = find_from(s, p, 0)->0;
    assert(at(s, p, f));
    if f < k {
        assert(s.subrange(f, f + p.len())[0] == p[0]);
        assert(a[f] == p[0]);
    }
    assert(f == k);
    assert(s.subrange(0, k) =~= a);
    assert(s.subrange(k + p.len(), s.len() as int) =~= b);
}

proof fn lemma_until_none(a: Seq<char>, p: Seq<char>)
    requires
        p.len() > 0,
        free_of(a, p[0]),
    ensures
        until(a, p) == a,
        behind(a, p) is None,
{
    lemma_find_from(a, p, 0);
    if let Some(k) = find_from(a, p, 0) {
        assert(a.subrange(k, k + p.len())[0] == p[0]);
        assert(a[k] == p[0]);
    }
}

/// The host of an address is what stands between its scheme and its path, query
/// or fragment.
pub proof fn law_hosts_are_shown(scheme: Seq<char>, name: Seq<char>, rest: Seq<char>)
    requires
        free_of(scheme, ':'),
        free_of(name, '/'),
        free_of(name, '?'),
        free_of(name, '#'),
        free_of(name, ':'),
        free_of(rest, ':'),
    ensures
        host(scheme + seq![':', '/', '/'] + name + seq!['/'] + rest) == name,
        host(scheme + seq![':', '/', '/'] + name) == name,
{
    reveal_strlit("://");
    reveal_strlit("/");
    reveal_strlit("?");
    reveal_strlit("#");
    assert("://"@ =~= seq![':', '/', '/']);
    assert("/"@ =~= seq!['/']);
    assert("?"@ =~= seq!['?']);
    assert("#"@ =~= seq!['#']);
    let url = scheme + "://"@ + (name + "/"@ + rest);
    assert(url =~= scheme + seq![':', '/', '/'] + name + seq!['/'] + rest);
    lemma_until_at(scheme, "://"@, name + "/"@ + rest);
    assert(free_of(name + "/"@ + rest, ':')) by {
        let s = name + "/"@ + rest;
        assert forall|j: int| 0 <= j < s.len() implies #[trigger] s[j] != ':' by {
            if j < name.len() {
                assert(s[j] == name[j]);
            } else if j > name.len() {
                assert(s[j] == rest[j - name.len() - 1]);
            }
        }
    }
    lemma_until_none(name + "/"@ + rest, "://"@);
    lemma_until_at(name, "/"@, rest);
    lemma_until_none(name, "?"@);
    lemma_until_none(name, "#"@);
    let bare = scheme + "://"@ + name;
    assert(bare =~= scheme + seq![':', '/', '/'] + name);
    lemma_until_at(scheme, "://"@, name);
    lemma_until_none(name, "://"@);
    lemma_until_none(name, "/"@);
}

// ---------------------------------------------------------------------------
// Frames
// ---------------------------------------------------------------------------

/// What those who watch are sent holds the piece as it came, the run and the
/// agent.
pub proof fn law_frames_hold_the_piece(
    run: Seq<char>,
    agent: Seq<char>,
    d: String,
    id: String,
    name: String,
    v: Json,
    failed: bool,
)
    ensures
        forwarded(StreamChunk::Text(d), run, agent) == (FrameV::Token { workflow: run, agent, delta: d@ }),
        forwarded(StreamChunk::Reasoning(d), run, agent) == (FrameV::Reasoning { workflow: run, agent, delta: d@ }),
        forwarded(StreamChunk::ToolCallStarted { id, name, arguments: v }, run, agent) matches FrameV::ToolCall {
            workflow,
            agent: who,
            call_id,
            name: tool,
            phase,
            arguments,
            result,
            is_error,
        } && workflow == run && who == agent && call_id == id@ && tool == name@ && phase == "start"@ && arguments == Some(
            v@,
        ) && result is None && !is_error,
        forwarded(StreamChunk::ToolCallResult { id, name, result: v, is_error: failed }, run, agent) matches FrameV::ToolCall {
            workflow,
            agent: who,
            call_id,
            name: tool,
            phase,
            arguments,
            result,
            is_error,
        } && workflow == run && who == agent && call_id == id@ && tool == name@ && phase == "result"@ && arguments is None
            && result == Some(v@) && is_error == failed,
{
}

/// Those who watch are told when an agent begins, and when it is done with an
/// excerpt of its output and its tokens.
pub proof fn law_agents_are_announced(run: Seq<char>, agent: Seq<char>, output: Seq<char>, tokens: u64)
    ensures
        activated(run, agent) matches FrameV::Event { event_type, agent: who, output: o, tokens: t, workflow } && event_type
            == "AgentActivated"@ && who == Some(agent) && o is None && t is None && workflow == run,
        completed(run, agent, output, tokens) matches FrameV::Event { event_type, agent: who, output: o, tokens: t, workflow }
            && event_type == "TaskCompleted"@ && who == Some(agent) && o == Some(excerpt(output)) && t == Some(tokens)
            && workflow == run,
{
}

// ---------------------------------------------------------------------------
// Git
// ---------------------------------------------------------------------------

/// A line of `git status` with the letters `x` and `y` tells the path behind them
/// and its state: new where the letters are question marks, and else by the first
/// letter that is no blank.
pub proof fn law_status_lines_are_read(x: char, y: char, path: Seq<char>)
    requires
        x as u32 <= 0x7f,
        y as u32 <= 0x7f,
        is_space(x) ==> x == ' ' && !is_space(y),
    ensures
        ({
            let line = seq![x, y, ' '] + path;
            let e = entry(line);
            let letter = if x == ' ' {
                y
            } else {
                x
            };
            &&& is_entry(line)
            &&& x == '?' && y == '?' ==> e.state == "untracked"@ && e.path == path
            &&& letter == 'A' ==> e.state == "added"@ && e.path == path
            &&& letter == 'D' ==> e.state == "deleted"@ && e.path == path
            &&& letter == 'R' ==> e.state == "renamed"@
            &&& letter == 'M' ==> e.state == "modified"@ && e.path == path
            &&& !(x == '?' && y == '?') && letter != 'A' && letter != 'D' && letter != 'R' ==> e.state == "modified"@
                && e.path == path
        }),
{
    lemma_states();
    reveal_strlit("??");
    assert("??"@ =~= seq!['?', '?']);
    let line = seq![x, y, ' '] + path;
    reveal_with_fuel(byte_cut, 5);
    assert(line[0] == x && line[1] == y && line[2] == ' ');
    assert(byte_cut(line, 2, 0) == Some(2int));
    assert(byte_cut(line, 3, 0) == Some(3int));
    let xy = line.subrange(0, 2);
    assert(xy =~= seq![x, y]);
    assert(line.subrange(3, line.len() as int) =~= path);
    let none = Seq::<char>::empty();
    if xy == "??"@ {
        assert(xy[0] == '?' && xy[1] == '?');
    }
    if x == ' ' {
        assert(xy =~= seq![' '] + seq![y] + none);
        law_trimming_leaves_the_text(seq![' '], seq![y], none);
    } else if is_space(y) {
        assert(xy =~= none + seq![x] + seq![y]);
        law_trimming_leaves_the_text(none, seq![x], seq![y]);
    } else {
        assert(xy =~= none + seq![x, y] + none);
        law_trimming_leaves_the_text(none, seq![x, y], none);
    }
}

/// Of a renamed file the new path is told.
pub proof fn law_renamed_files_have_their_new_path(from: Seq<char>, to: Seq<char>)
    requires
        free_of(from, ' '),
    ensures
        path_of("renamed"@, from + seq![' ', '-', '>', ' '] + to) == to,
{
    reveal_strlit(" -> ");
    assert(" -> "@ =~= seq![' ', '-', '>', ' ']);
    lemma_until_at(from, " -> "@, to);
    let rest = from + " -> "@ + to;
    lemma_find_from(rest, " -> "@, 0);
    let k = from.len() as int;
    assert(rest.subrange(k, k + 4) =~= " -> "@);
    assert(at(rest, " -> "@, k));
    assert(find_from(rest, " -> "@, 0) is Some);
    let f = find_from(rest, " -> "@, 0)->0;
    assert(at(rest, " -> "@, f));
    if f < k {
        assert(rest.subrange(f, f + 4)[0] == ' ');
        assert(from[f] == ' ');
    }
    assert(rest.subrange(k + 4, rest.len() as int) =~= to);
}

/// The branch of a header is the name before the upstream branch and the counts.
pub proof fn law_branches_are_named(name: Seq<char>, rest: Seq<char>)
    requires
        name.len() > 0,
        free_of(name, '.'),
        free_of(name, ' '),
        !is_space(name[0]),
        !is_space(name.last()),
    ensures
        branch_name(name + seq!['.', '.', '.'] + rest) == name,
        branch_name(name) == name,
{
    reveal_strlit("...");
    reveal_strlit(" [");
    reveal_strlit("No commits yet on ");
    assert("..."@ =~= seq!['.', '.', '.']);
    lemma_until_at(name, "..."@, rest);
    lemma_until_none(name, "..."@);
    lemma_until_none(name, " ["@);
    if starts_with(name, "No commits yet on "@) {
        assert(name.subrange(0, "No commits yet on "@.len() as int)[2] == ' ');
        assert(name[2] == ' ');
    }
    let none = Seq::<char>::empty();
    assert(name =~= none + name + none);
    law_trimming_leaves_the_text(none, name, none);
}

/// The branch is that of the last header, and the files are those of all other
/// lines that are long enough, in order.
pub proof fn law_status_is_read_line_by_line(ls: Seq<Seq<char>>, line: Seq<char>)
    ensures
        strip(line, "## "@) matches Some(rest) ==> branch_of(ls.push(line)) == branch_name(rest),
        strip(line, "## "@) is None ==> branch_of(ls.push(line)) == branch_of(ls),
        branch_of(Seq::empty()).len() == 0,
        files_of(ls).len() == ls.filter(|l: Seq<char>| tells_file(l)).len(),
        forall|i: int|
            0 <= i < files_of(ls).len() ==> #[trigger] files_of(ls)[i] == entry(
                ls.filter(|l: Seq<char>| tells_file(l))[i],
            ),
{
    assert(ls.push(line).drop_last() =~= ls);
    lemma_files(ls);
}

/// The line tells a changed path.
pub open spec fn tells_file(line: Seq<char>) -> bool {
    !starts_with(line, "## "@) && utf8_bytes(line) >= 4
}

proof fn lemma_files(ls: Seq<Seq<char>>)
    ensures
        files_of(ls).len() == ls.filter(|l: Seq<char>| tells_file(l)).len(),
        forall|i: int|
            0 <= i < files_of(ls).len() ==> #[trigger] files_of(ls)[i] == entry(
                ls.filter(|l: Seq<char>| tells_file(l))[i],
            ),
    decreases ls.len(),
{
    reveal(Seq::filter);
    if ls.len() > 0 {
        lemma_files(ls.drop_last());
        let f = |l: Seq<char>| tells_file(l);
        let rest = ls.drop_last().filter(f);
        let all = ls.filter(f);
        let t = files_of(ls);
        assert forall|i: int| 0 <= i < t.len() implies #[trigger] t[i] == entry(all[i]) by {
            if i < rest.len() {
                assert(all[i] == rest[i]);
                assert(t[i] == files_of(ls.drop_last())[i]);
            }
        }
    }
}

/// A text is binary where a NUL byte stands among its first 8192 bytes, and too
/// large where one side takes more than half a mebibyte.
pub proof fn law_what_is_not_shown(s: Seq<char>, size: usize, i: int)
    ensures
        0 <= i < 8192 && i < vstd::utf8::encode_utf8(s).len() && vstd::utf8::encode_utf8(s)[i] == 0 ==> is_binary(s),
        is_binary(s) ==> exists|k: int|
            0 <= k < 8192 && k < vstd::utf8::encode_utf8(s).len() && #[trigger] vstd::utf8::encode_utf8(s)[k] == 0,
        exceeds(s, size) <==> byte_len(s) > 524288 || size > 524288,
{
}

proof fn lemma_word(s: Seq<char>, i: int, e: int)
    requires
        0 <= i <= e <= s.len(),
        forall|j: int| i <= j < e ==> !is_space(#[trigger] s[j]),
        e < s.len() ==> is_space(s[e]),
    ensures
        word_of(s, i) == s.take(e),
    decreases e - i,
{
    if i < e {
        lemma_word(s, i + 1, e);
    } else if i < s.len() {
        assert(s.subrange(0, i) =~= s.take(e));
    } else {
        assert(s.take(e) =~= s);
    }
}

/// The size that `wc -c` printed is the number in front of the name; what is no
/// number counts nothing.
pub proof fn law_sizes_are_read(digits: Seq<char>, rest: Seq<char>)
    requires
        digits.len() > 0,
        all_digits(digits),
        number_of(digits) <= usize::MAX,
    ensures
        printed_size(Some(digits + seq![' '] + rest)) == number_of(digits),
        printed_size(None) == 0,
{
    let s = digits + seq![' '] + rest;
    assert(is_digit(digits[0]));
    assert(s[0] == digits[0]);
    assert(trim_start(s) == s);
    let e = digits.len() as int;
    assert forall|j: int| 0 <= j < e implies !is_space(#[trigger] s[j]) by {
        assert(s[j] == digits[j]);
        assert(is_digit(digits[j]));
    }
    lemma_word(s, 0, e);
    assert(s.take(e) =~= digits);
    assert(unsigned(digits) == digits);
}

/// The sides of a diff are what git shows of the last commit and what the file
/// holds, each as it was printed, and a failed command gives an empty side. The
/// size is looked at in between.
pub proof fn law_sides_are_what_was_printed(st: DiffRunV, r: ExecResult)
    ensures
        st.phase == DiffPhase::Head ==> {
            let next = st.after(Some(r));
            &&& next.phase == DiffPhase::Size
            &&& r.exit_code == 0 ==> next.old_side == r.stdout@
            &&& r.exit_code != 0 ==> next.old_side.len() == 0
            &&& st.after(None).old_side.len() == 0
            &&& next.new_side == st.new_side && next.path == st.path && next.dir == st.dir && next.size == st.size
        },
        st.phase == DiffPhase::Read ==> {
            let next = st.after(Some(r));
            &&& next.phase == DiffPhase::Ready
            &&& r.exit_code == 0 ==> next.new_side == r.stdout@
            &&& r.exit_code != 0 ==> next.new_side.len() == 0
            &&& next.old_side == st.old_side && next.path == st.path && next.dir == st.dir && next.size == st.size
        },
        st.phase == DiffPhase::Size ==> {
            let next = st.after(Some(r));
            &&& r.exit_code == 0 ==> next.size == printed_size(Some(r.stdout@))
            &&& r.exit_code != 0 ==> next.size == 0
            &&& next.phase == DiffPhase::Ready || next.phase == DiffPhase::Read
            &&& next.phase == DiffPhase::Ready <==> exceeds(st.old_side, next.size)
            &&& next.old_side == st.old_side && next.new_side == st.new_side
        },
        st.phase == DiffPhase::Size ==> (st.next() matches Some(c) && c.0 == seq![
            "wc"@,
            "-c"@,
            st.dir + "/"@ + st.path,
        ]),
        st.phase == DiffPhase::Read ==> (st.next() matches Some(c) && c.0 == seq!["cat"@, st.dir + "/"@ + st.path]),
        st.phase == DiffPhase::Ready ==> st.next() is None,
{
}

// ---------------------------------------------------------------------------
// Questions and settings
// ---------------------------------------------------------------------------

/// The key of a question holds the automation, the run and the node; where none
/// of them holds a colon, questions with the same key are the same.
pub proof fn law_questions_are_told_apart(
    a: Seq<char>,
    r: Seq<char>,
    n: Seq<char>,
    a2: Seq<char>,
    r2: Seq<char>,
    n2: Seq<char>,
)
    ensures
        interrupt_key(a, r, n) == a + seq![':'] + r + seq![':'] + n,
        interrupt_key(a, r, n) == interrupt_key(a2, r2, n2) && free_of(a, ':') && free_of(a2, ':') && free_of(r, ':')
            && free_of(r2, ':') ==> a == a2 && r == r2 && n == n2,
{
    reveal_strlit(":");
    assert(":"@ =~= seq![':']);
    if interrupt_key(a, r, n) == interrupt_key(a2, r2, n2) && free_of(a, ':') && free_of(a2, ':') && free_of(r, ':')
        && free_of(r2, ':') {
        let tail = r + ":"@ + n;
        let tail2 = r2 + ":"@ + n2;
        assert(a + ":"@ + tail =~= interrupt_key(a, r, n));
        assert(a2 + ":"@ + tail2 =~= interrupt_key(a2, r2, n2));
        lemma_until_at(a, ":"@, tail);
        lemma_until_at(a2, ":"@, tail2);
        assert(tail == tail2);
        lemma_until_at(r, ":"@, n);
        lemma_until_at(r2, ":"@, n2);
    }
}

/// The agent, the workflow and the node that are found under an id have it, and
/// none before them does.
pub proof fn law_settings_are_found(
    agents: Seq<AgentSettings>,
    workflows: Seq<WorkflowSettings>,
    nodes: Seq<NodeV>,
    id: Seq<char>,
)
    ensures
        match agent_from(agents, id, 0) {
            Some(k) => 0 <= k < agents.len() && agents[k].id@ == id && forall|j: int|
                0 <= j < k ==> (#[trigger] agents[j]).id@ != id,
            None => forall|j: int| 0 <= j < agents.len() ==> (#[trigger] agents[j]).id@ != id,
        },
        match workflow_from(workflows, id, 0) {
            Some(k) => 0 <= k < workflows.len() && workflows[k].id@ == id && forall|j: int|
                0 <= j < k ==> (#[trigger] workflows[j]).id@ != id,
            None => forall|j: int| 0 <= j < workflows.len() ==> (#[trigger] workflows[j]).id@ != id,
        },
        match node_of(nodes, id) {
            Some(n) => exists|k: int|
                0 <= k < nodes.len() && n == #[trigger] nodes[k] && n.id == id && forall|j: int|
                    0 <= j < k ==> (#[trigger] nodes[j]).id != id,
            None => forall|j: int| 0 <= j < nodes.len() ==> (#[trigger] nodes[j]).id != id,
        },
{
    lemma_agent(agents, id, 0);
    lemma_workflow(workflows, id, 0);
    lemma_node(nodes, id, 0);
}

proof fn lemma_agent(v: Seq<AgentSettings>, id: Seq<char>, i: int)
    requires
        0 <= i,
    ensures
        match agent_from(v, id, i) {
            Some(k) => i <= k < v.len() && v[k].id@ == id && forall|j: int| i <= j < k ==> (#[trigger] v[j]).id@ != id,
            None => forall|j: int| i <= j < v.len() ==> (#[trigger] v[j]).id@ != id,
        },
    decreases v.len() - i,
{
    if i < v.len() && v[i].id@ != id {
        lemma_agent(v, id, i + 1);
    }
}

proof fn lemma_workflow(v: Seq<WorkflowSettings>, id: Seq<char>, i: int)
    requires
        0 <= i,
    ensures
        match workflow_from(v, id, i) {
            Some(k) => i <= k < v.len() && v[k].id@ == id && forall|j: int| i <= j < k ==> (#[trigger] v[j]).id@ != id,
            None => forall|j: int| i <= j < v.len() ==> (#[trigger] v[j]).id@ != id,
        },
    decreases v.len() - i,
{
    if i < v.len() && v[i].id@ != id {
        lemma_workflow(v, id, i + 1);
    }
}

proof fn lemma_node(v: Seq<NodeV>, id: Seq<char>, i: int)
    requires
        0 <= i,
    ensures
        match node_from(v, id, i) {
            Some(n) => exists|k: int|
                i <= k < v.len() && n == #[trigger] v[k] && n.id == id && forall|j: int|
                    i <= j < k ==> (#[trigger] v[j]).id != id,
            None => forall|j: int| i <= j < v.len() ==> (#[trigger] v[j]).id != id,
        },
    decreases v.len() - i,
{
    if i < v.len() {
        if v[i].id != id {
            lemma_node(v, id, i + 1);
        } else {
            assert(v[i].id == id);
        }
    }
}

// ---------------------------------------------------------------------------
// Inputs and lists
// ---------------------------------------------------------------------------

/// A template with one placeholder after another filled in: that of the run's
/// input, that of the item, and those of the nodes. Filling one in keeps all else
/// of the text, wherever the placeholder stands and however often.
pub proof fn law_templates_keep_their_text(
    t: Seq<char>,
    trigger: Seq<char>,
    upstream: Seq<(Seq<char>, Seq<char>)>,
    n: int,
) -> (pieces: (Seq<Seq<char>>, Seq<Seq<char>>))
    requires
        0 < n <= upstream.len(),
    ensures
        join(pieces.0, "{{trigger}}"@) == t,
        join(pieces.0, trigger) == filled(t, trigger, Seq::empty(), None),
        leftmost(pieces.0, "{{trigger}}"@),
        join(pieces.1, "{{node:"@ + upstream[n - 1].0 + "}}"@) == fill_nodes(t, upstream, n - 1),
        join(pieces.1, upstream[n - 1].1) == fill_nodes(t, upstream, n),
        leftmost(pieces.1, "{{node:"@ + upstream[n - 1].0 + "}}"@),
{
    reveal_strlit("{{trigger}}");
    reveal_strlit("{{node:");
    let a = law_replacing_keeps_the_rest(t, "{{trigger}}"@, trigger);
    let before = fill_nodes(t, upstream, n - 1);
    let b = law_replacing_keeps_the_rest(before, node_mark(upstream[n - 1].0), upstream[n - 1].1);
    (a, b)
}

/// In a map the placeholder of the item is filled in between the run's input and
/// the nodes' outputs.
pub proof fn law_items_are_filled_in(t: Seq<char>, trigger: Seq<char>, item: Seq<char>) -> (pieces: Seq<Seq<char>>)
    ensures
        join(pieces, "{{item}}"@) == filled(t, trigger, Seq::empty(), None),
        join(pieces, item) == filled(t, trigger, Seq::empty(), Some(item)),
        leftmost(pieces, "{{item}}"@),
{
    reveal_strlit("{{item}}");
    law_replacing_keeps_the_rest(filled(t, trigger, Seq::empty(), None), "{{item}}"@, item)
}

/// A node's input is the run's, a fixed text, or the current item, as it says.
pub proof fn law_inputs_are_as_described(
    trigger: Seq<char>,
    upstream: Seq<(Seq<char>, Seq<char>)>,
    text: Seq<char>,
    item: Seq<char>,
)
    ensures
        input_text(InputV::FromTrigger, trigger, upstream, None) == trigger,
        input_text(InputV::Literal(text), trigger, upstream, None) == text,
        input_text(InputV::FromMapItem, trigger, upstream, Some(item)) == item,
        input_text(InputV::FromMapItem, trigger, upstream, None).len() == 0,
{
}

/// The line is not blank.
pub open spec fn has_words(line: Seq<char>) -> bool {
    trim(line).len() > 0
}

proof fn lemma_full_lines(ls: Seq<Seq<char>>)
    ensures
        full_lines(ls).len() == ls.filter(|l: Seq<char>| has_words(l)).len(),
        forall|i: int|
            0 <= i < full_lines(ls).len() ==> #[trigger] full_lines(ls)[i] == trim(
                ls.filter(|l: Seq<char>| has_words(l))[i],
            ),
    decreases ls.len(),
{
    reveal(Seq::filter);
    if ls.len() > 0 {
        lemma_full_lines(ls.drop_last());
        let f = |l: Seq<char>| has_words(l);
        let rest = ls.drop_last().filter(f);
        let all = ls.filter(f);
        let t = full_lines(ls);
        assert forall|i: int| 0 <= i < t.len() implies #[trigger] t[i] == trim(all[i]) by {
            if i < rest.len() {
                assert(all[i] == rest[i]);
                assert(t[i] == full_lines(ls.drop_last())[i]);
            }
        }
    }
}

/// The items of a text are the elements of the JSON list that it writes, texts as
/// they are and other values as JSON; else its lines that are not blank, trimmed,
/// where there are several; else the text itself.
pub proof fn law_lists_are_taken_apart(s: Seq<char>)
    ensures
        trim(s).len() == 0 ==> list_items(s).len() == 0,
        trim(s).len() > 0 ==> (parsed(trim(s)) matches Some(JsonV::Array(a)) ==> list_items(s).len() == a.len()
            && forall|i: int|
            0 <= i < a.len() ==> match #[trigger] a[i] {
                JsonV::Text(t) => list_items(s)[i] == t,
                _ => list_items(s)[i] == rendered(a[i]),
            }),
        trim(s).len() > 0 && !(parsed(trim(s)) matches Some(JsonV::Array(_))) ==> {
            let ls = lines(trim(s)).filter(|l: Seq<char>| has_words(l));
            if ls.len() > 1 {
                list_items(s).len() == ls.len() && forall|i: int|
                    0 <= i < ls.len() ==> list_items(s)[i] == trim(#[trigger] ls[i])
            } else {
                list_items(s) == seq![trim(s)]
            }
        },
{
    lemma_full_lines(lines(trim(s)));
    let ls = lines(trim(s)).filter(|l: Seq<char>| has_words(l));
    if ls.len() > 1 {
        assert forall|i: int| 0 <= i < ls.len() implies full_lines(lines(trim(s)))[i] == trim(#[trigger] ls[i]) by {}
    }
}

} // verus!
