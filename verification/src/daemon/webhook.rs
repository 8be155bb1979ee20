//! Webhooks: signed notices of events to other systems.
//!
//! A failed delivery is repeated when the failure is of the kind that passes
//! (no answer, a server error, too many requests), a few times, with growing
//! pauses or the pause that the receiver asked for.
use vstd::prelude::*;

use crate::json::{Json, JsonV, empty_object, number_of_u64, render, rendered};
use crate::llm::provider::success;
use crate::daemon::automation_executor::pair_views;
use crate::outside::{hex_encode, hex_text, hmac_code, hmac_sha256, now_unix, random_id, unix_nanos};
use crate::text::{at, behind, concat, decimal, decimal_text, lemma_find_from, parse_number, read_number, same, text_behind, text_until, trim,
    trimmed, until, views};

verus! {

/// How many deliveries may be under way at once.
pub const MAX_INFLIGHT: usize = 32;

/// How often a delivery is tried.
pub const MAX_ATTEMPTS: u32 = 4;

/// The pause after the first failure, in milliseconds.
pub const BASE_BACKOFF_MILLIS: u64 = 500;

/// A webhook as it is configured.
pub struct WebhookConfig {
    pub name: String,
    pub url: String,
    pub events: Vec<String>,
    pub secret: Option<String>,
    pub headers: Vec<(String, String)>,
    pub enabled: bool,
}

/// A webhook that is in use.
pub struct Sink {
    pub name: String,
    pub url: String,
    pub events: Vec<String>,
    pub secret: Option<String>,
    pub headers: Vec<(String, String)>,
}

impl Sink {
    /// The webhook of a configuration.
    pub fn from_config(c: WebhookConfig) -> (r: Sink)
        ensures
            r == (Sink { name: c.name, url: c.url, events: c.events, secret: c.secret, headers: c.headers }),
    {
        Sink { name: c.name, url: c.url, events: c.events, secret: c.secret, headers: c.headers }
    }

    /// The webhook wants an event: without a filter every event but telemetry,
    /// else the named ones.
    pub open spec fn wants(self, event_name: Seq<char>, is_telemetry: bool) -> bool {
        if self.events@.len() == 0 {
            !is_telemetry
        } else {
            views(self.events@).contains(event_name)
        }
    }

    /// Whether the webhook wants an event.
    pub fn matches(&self, event_name: &str, is_telemetry: bool) -> (r: bool)
        ensures
            r == self.wants(event_name@, is_telemetry),
    {
        if self.events.len() == 0 {
            return !is_telemetry;
        }
        let ghost all = views(self.events@);
        let mut i: usize = 0;
        while i < self.events.len()
            invariant
                i <= self.events@.len(),
                all == views(self.events@),
                forall|j: int| 0 <= j < i ==> all[j] != event_name@,
            decreases self.events@.len() - i,
        {
            if same(self.events[i].as_str(), event_name) {
                proof {
                    assert(all[i as int] == event_name@);
                }
                return true;
            }
            i += 1;
        }
        false
    }
}

/// The webhooks that are enabled, in order.
pub open spec fn enabled_sinks(configs: Seq<WebhookConfig>) -> Seq<Sink>
    decreases configs.len(),
{
    if configs.len() == 0 {
        Seq::empty()
    } else {
        let c = configs.last();
        let rest = enabled_sinks(configs.drop_last());
        if c.enabled {
            rest.push(
                Sink { name: c.name, url: c.url, events: c.events, secret: c.secret, headers: c.headers },
            )
        } else {
            rest
        }
    }
}

/// The webhooks that are enabled.
pub fn active_sinks(configs: Vec<WebhookConfig>) -> (r: Vec<Sink>)
    ensures
        r@ == enabled_sinks(configs@),
{
    let ghost all = configs@;
    let mut rest = configs;
    let mut out: Vec<Sink> = Vec::new();
    let ghost mut i: int = 0;
    proof {
        assert(rest@ =~= all.skip(0));
        assert(all.take(0) =~= Seq::empty());
    }
    while rest.len() > 0
        invariant
            0 <= i <= all.len(),
            rest@ == all.skip(i),
            out@ == enabled_sinks(all.take(i)),
        decreases rest@.len(),
    {
        let c = rest.remove(0);
        proof {
            assert(c == all[i]);
            assert(rest@ =~= all.skip(i + 1));
            assert(all.take(i + 1).drop_last() =~= all.take(i));
            i = i + 1;
        }
        if c.enabled {
            out.push(Sink::from_config(c));
        }
    }
    proof {
        assert(all.take(i) =~= all);
    }
    out
}

/// The positions of the webhooks that want an event, in order.
pub open spec fn wanting(sinks: Seq<Sink>, event_name: Seq<char>, is_telemetry: bool) -> Seq<usize>
    decreases sinks.len(),
{
    if sinks.len() == 0 {
        Seq::empty()
    } else {
        let rest = wanting(sinks.drop_last(), event_name, is_telemetry);
        if sinks.last().wants(event_name, is_telemetry) {
            rest.push((sinks.len() - 1) as usize)
        } else {
            rest
        }
    }
}

/// The webhooks that an event goes to.
pub fn recipients(sinks: &Vec<Sink>, event_name: &str, is_telemetry: bool) -> (r: Vec<usize>)
    ensures
        r@ == wanting(sinks@, event_name@, is_telemetry),
{
    let mut out: Vec<usize> = Vec::new();
    let mut i: usize = 0;
    while i < sinks.len()
        invariant
            i <= sinks@.len(),
            out@ == wanting(sinks@.take(i as int), event_name@, is_telemetry),
        decreases sinks@.len() - i,
    {
        proof {
            assert(sinks@.take(i + 1).drop_last() =~= sinks@.take(i as int));
        }
        if sinks[i].matches(event_name, is_telemetry) {
            out.push(i);
        }
        i += 1;
    }
    proof {
        assert(sinks@.take(i as int) =~= sinks@);
    }
    out
}

/// A webhook without a filter gets no telemetry, and one with a filter gets
/// exactly what it names.
pub proof fn law_filters_decide(sink: Sink, event_name: Seq<char>)
    ensures
        sink.events@.len() == 0 ==> !sink.wants(event_name, true) && sink.wants(event_name, false),
        sink.events@.len() > 0 ==> (sink.wants(event_name, true) <==> views(sink.events@).contains(event_name)),
        sink.events@.len() > 0 ==> (sink.wants(event_name, true) == sink.wants(event_name, false)),
{
}

// ---------------------------------------------------------------------------
// Notices
// ---------------------------------------------------------------------------

/// An event that was published.
pub struct EventNotification {
    pub event_id: String,
    pub event_name: String,
    pub produced_by: String,
    pub timestamp: u64,
    pub payload: Json,
}

/// The document that is sent.
pub open spec fn notice(n: EventNotification, delivery_id: Seq<char>) -> JsonV {
    empty_object().with("delivery_id"@, JsonV::Text(delivery_id)).with("event_id"@, JsonV::Text(n.event_id@)).with(
        "event_type"@,
        JsonV::Text(n.event_name@),
    ).with("produced_by"@, JsonV::Text(n.produced_by@)).with(
        "timestamp"@,
        JsonV::Number(number_of_u64(n.timestamp)),
    ).with("payload"@, n.payload@)
}

/// Makes the document that is sent.
pub fn make_notice(n: &EventNotification, delivery_id: &str) -> (r: Json)
    ensures
        r@ == notice(*n, delivery_id@),
{
    Json::object().with("delivery_id", Json::text(delivery_id)).with(
        "event_id",
        Json::text(n.event_id.as_str()),
    ).with("event_type", Json::text(n.event_name.as_str())).with(
        "produced_by",
        Json::text(n.produced_by.as_str()),
    ).with("timestamp", Json::number(n.timestamp)).with("payload", n.payload.copy())
}

/// The signature of a body: its HMAC-SHA256 code in hexadecimal.
pub open spec fn signature(secret: Seq<char>, body: Seq<u8>) -> Seq<char> {
    hex_text(hmac_sha256(vstd::utf8::encode_utf8(secret), body))
}

/// Signs a body.
pub fn sign(secret: &str, body: &[u8]) -> (r: String)
    ensures
        r@ == signature(secret@, body@),
        r@.len() == 64,
{
    let code = hmac_code(secret.as_bytes(), body);
    hex_encode(code.as_slice())
}

/// A request that is sent, and sent again.
pub struct Delivery {
    pub url: String,
    pub headers: Vec<(String, String)>,
    pub body: String,
}

/// The headers of a request.
pub open spec fn notice_headers(
    sink: Sink,
    event_name: Seq<char>,
    delivery_id: Seq<char>,
    sent_at: u64,
    body: Seq<char>,
) -> Seq<(Seq<char>, Seq<char>)> {
    let fixed = seq![
        ("content-type"@, "application/json"@),
        ("x-axocoatl-event"@, event_name),
        ("x-axocoatl-delivery"@, delivery_id),
        ("x-axocoatl-timestamp"@, decimal(sent_at as nat)),
    ];
    let signed = match sink.secret {
        Some(s) => fixed.push(
            ("x-axocoatl-signature"@, "sha256="@ + signature(s@, vstd::utf8::encode_utf8(body))),
        ),
        None => fixed,
    };
    signed + pair_views(sink.headers@)
}

fn push_pair(v: &mut Vec<(String, String)>, a: &str, b: String)
    ensures
        pair_views(final(v)@) == pair_views(old(v)@).push((a@, b@)),
{
    let ghost before = v@;
    v.push((a.to_owned(), b));
    proof {
        assert(pair_views(v@) =~= pair_views(before).push((a@, b@)));
    }
}

/// Makes the request for an event under a delivery id. With a secret the body
/// is signed.
pub fn make_delivery(sink: &Sink, n: &EventNotification, delivery_id: &str, sent_at: u64) -> (r: Delivery)
    ensures
        r.url@ == sink.url@,
        r.body@ == rendered(notice(*n, delivery_id@)),
        pair_views(r.headers@) == notice_headers(*sink, n.event_name@, delivery_id@, sent_at, r.body@),
{
    let body = render(&make_notice(n, delivery_id));
    let mut headers: Vec<(String, String)> = Vec::new();
    push_pair(&mut headers, "content-type", "application/json".to_owned());
    push_pair(&mut headers, "x-axocoatl-event", n.event_name.clone());
    push_pair(&mut headers, "x-axocoatl-delivery", delivery_id.to_owned());
    push_pair(&mut headers, "x-axocoatl-timestamp", decimal_text(sent_at));
    proof {
        assert(pair_views(headers@) =~= seq![
            ("content-type"@, "application/json"@),
            ("x-axocoatl-event"@, n.event_name@),
            ("x-axocoatl-delivery"@, delivery_id@),
            ("x-axocoatl-timestamp"@, decimal(sent_at as nat)),
        ]);
    }
    if let Some(secret) = &sink.secret {
        let sig = sign(secret.as_str(), body.as_str().as_bytes());
        push_pair(&mut headers, "x-axocoatl-signature", concat("sha256=", sig.as_str()));
    }
    let ghost signed = pair_views(headers@);
    let ghost own = pair_views(sink.headers@);
    let mut i: usize = 0;
    proof {
        assert(signed + own.take(0) =~= signed);
    }
    while i < sink.headers.len()
        invariant
            i <= sink.headers@.len(),
            own == pair_views(sink.headers@),
            pair_views(headers@) == signed + own.take(i as int),
        decreases sink.headers@.len() - i,
    {
        push_pair(&mut headers, sink.headers[i].0.as_str(), sink.headers[i].1.clone());
        proof {
            assert((signed + own.take(i as int)).push(own[i as int]) =~= signed + own.take(i + 1));
        }
        i += 1;
    }
    proof {
        assert(own.take(i as int) =~= own);
    }
    Delivery { url: sink.url.clone(), headers, body }
}

/// Makes the request for an event, now, under a new delivery id.
pub fn new_delivery(sink: &Sink, n: &EventNotification) -> (r: Delivery)
    ensures
        r.url@ == sink.url@,
        exists|id: Seq<char>, at: u64| #[trigger]
            notice_headers(*sink, n.event_name@, id, at, r.body@) == pair_views(r.headers@) && id.len() == 36 && r.body@
                == rendered(notice(*n, id)),
{
    let id = random_id();
    let at: u64 = now_unix();
    make_delivery(sink, n, id.as_str(), at)
}

// ---------------------------------------------------------------------------
// Repeating
// ---------------------------------------------------------------------------

/// A status that is worth another try.
pub open spec fn retryable(status: u16) -> bool {
    500 <= status < 600 || status == 429
}

/// Whether a status is worth another try.
pub fn is_retryable_status(status: u16) -> (r: bool)
    ensures
        r == retryable(status),
{
    (status >= 500 && status < 600) || status == 429
}

/// The pause in seconds that the receiver asked for, where its header is a
/// number.
pub open spec fn asked_pause(header: Option<Seq<char>>) -> Option<u64> {
    match header {
        Some(h) => parse_number(trim(h), u64::MAX),
        None => None,
    }
}

/// Reads the pause that the receiver asked for.
pub fn retry_after(header: Option<&str>) -> (r: Option<u64>)
    ensures
        r == asked_pause(
            match header {
                Some(h) => Some(h@),
                None => None,
            },
        ),
{
    match header {
        Some(h) => read_number(trimmed(h).as_str(), u64::MAX),
        None => None,
    }
}

/// Two to the power of `n`, or the greatest 32-bit number.
pub open spec fn doublings(n: nat) -> u64
    decreases n,
{
    if n == 0 {
        1
    } else if 2 * doublings((n - 1) as nat) > u32::MAX {
        u32::MAX as u64
    } else {
        (2 * doublings((n - 1) as nat)) as u64
    }
}

proof fn lemma_doublings(n: nat)
    ensures
        1 <= doublings(n) <= u32::MAX,
    decreases n,
{
    if n > 0 {
        lemma_doublings((n - 1) as nat);
    }
}

/// The pause after the `attempt`-th failure without its variation: it doubles
/// each time.
pub open spec fn base_pause(attempt: u32) -> int {
    500 * doublings((attempt - 1) as nat)
}

/// The pause in milliseconds, which varies with the clock by up to a quarter
/// either way.
pub open spec fn pause_millis(attempt: u32, nanos: u128) -> int {
    let base = base_pause(attempt);
    let m = (nanos % 50) as int;
    if m >= 25 {
        base + base * (m - 25) / 100
    } else {
        base - base * (25 - m) / 100
    }
}

/// The pause in milliseconds after the `attempt`-th failure, given the clock.
pub fn backoff_at(attempt: u32, nanos: u128) -> (r: u64)
    requires
        attempt >= 1,
    ensures
        r == pause_millis(attempt, nanos),
{
    let mut p: u64 = 1;
    let mut i: u32 = 1;
    while i < attempt
        invariant
            1 <= i <= attempt,
            p == doublings((i - 1) as nat),
            1 <= p <= u32::MAX,
        decreases attempt - i,
    {
        p = if 2 * p > u32::MAX as u64 {
            u32::MAX as u64
        } else {
            2 * p
        };
        i += 1;
    }
    let base: u64 = 500 * p;
    let m: u64 = (nanos % 50) as u64;
    if m >= 25 {
        let k: u64 = m - 25;
        assert(base * k <= 2_147_483_647_500 * 25) by (nonlinear_arith)
            requires
                base <= 2_147_483_647_500,
                k <= 25,
        ;
        let d: u64 = base * k / 100;
        base + d
    } else {
        let k: u64 = 25 - m;
        assert(base * k <= 2_147_483_647_500 * 25 && base * k <= base * 25) by (nonlinear_arith)
            requires
                base <= 2_147_483_647_500,
                k <= 25,
        ;
        let d: u64 = base * k / 100;
        base - d
    }
}

/// The pause in milliseconds after the `attempt`-th failure.
pub fn backoff(attempt: u32) -> (r: u64)
    requires
        attempt >= 1,
    ensures
        4 * r >= 3 * base_pause(attempt),
        4 * r <= 5 * base_pause(attempt),
{
    let nanos: u128 = unix_nanos();
    proof {
        law_pause_stays_near_base(attempt, nanos);
    }
    backoff_at(attempt, nanos)
}

/// The pause stays within a quarter of its base, and is never nothing.
pub proof fn law_pause_stays_near_base(attempt: u32, nanos: u128)
    requires
        attempt >= 1,
    ensures
        3 * base_pause(attempt) <= 4 * pause_millis(attempt, nanos) <= 5 * base_pause(attempt),
        pause_millis(attempt, nanos) >= 1,
{
    lemma_doublings((attempt - 1) as nat);
    let base = base_pause(attempt);
    let m = (nanos % 50) as int;
    if m >= 25 {
        assert(0 <= base * (m - 25) <= base * 24) by (nonlinear_arith)
            requires
                0 <= m - 25 <= 24,
                base >= 0,
        ;
    } else {
        assert(0 <= base * (25 - m) <= base * 25) by (nonlinear_arith)
            requires
                0 <= 25 - m <= 25,
                base >= 0,
        ;
    }
}

/// Before its variation, the pause never shrinks from one attempt to the next.
pub proof fn law_pauses_grow(attempt: u32)
    requires
        1 <= attempt < u32::MAX,
    ensures
        base_pause(attempt) <= base_pause((attempt + 1) as u32),
        attempt < 32 ==> base_pause((attempt + 1) as u32) <= 2 * base_pause(attempt),
{
    lemma_doublings((attempt - 1) as nat);
}

/// What came back of a request.
pub enum Outcome {
    /// A status, and the pause that the receiver asked for in its header.
    Status(u16, Option<u64>),
    /// No answer.
    NoAnswer,
}

/// What follows a request.
#[derive(Debug, PartialEq, Eq, Structural)]
pub enum NextMove {
    /// It arrived.
    Delivered,
    /// It was refused for good.
    Rejected,
    /// It is sent again after this pause in milliseconds.
    RetryIn(u128),
    /// It was tried often enough.
    GiveUp,
}

/// What follows the `attempt`-th request, given the clock.
pub open spec fn next_move(attempt: u32, outcome: Outcome, nanos: u128) -> NextMove {
    match outcome {
        Outcome::Status(status, pause) => if success(status) {
            NextMove::Delivered
        } else if !retryable(status) {
            NextMove::Rejected
        } else if attempt >= MAX_ATTEMPTS {
            NextMove::GiveUp
        } else {
            match pause {
                Some(secs) => NextMove::RetryIn((1000 * secs) as u128),
                None => NextMove::RetryIn(pause_millis(attempt, nanos) as u128),
            }
        },
        Outcome::NoAnswer => if attempt >= MAX_ATTEMPTS {
            NextMove::GiveUp
        } else {
            NextMove::RetryIn(pause_millis(attempt, nanos) as u128)
        },
    }
}

/// Decides what follows the `attempt`-th request, given the clock.
pub fn decide_at(attempt: u32, outcome: Outcome, nanos: u128) -> (r: NextMove)
    requires
        attempt >= 1,
    ensures
        r == next_move(attempt, outcome, nanos),
{
    match outcome {
        Outcome::Status(status, pause) => {
            if status >= 200 && status < 300 {
                return NextMove::Delivered;
            }
            if !is_retryable_status(status) {
                return NextMove::Rejected;
            }
            if attempt >= MAX_ATTEMPTS {
                return NextMove::GiveUp;
            }
            match pause {
                Some(secs) => NextMove::RetryIn(1000 * (secs as u128)),
                None => NextMove::RetryIn(backoff_at(attempt, nanos) as u128),
            }
        },
        Outcome::NoAnswer => {
            if attempt >= MAX_ATTEMPTS {
                return NextMove::GiveUp;
            }
            NextMove::RetryIn(backoff_at(attempt, nanos) as u128)
        },
    }
}

/// Decides what follows the `attempt`-th request, now.
pub fn decide(attempt: u32, outcome: Outcome) -> (r: NextMove)
    requires
        attempt >= 1,
    ensures
        exists|nanos: u128| #[trigger] next_move(attempt, outcome, nanos) == r,
{
    let nanos: u128 = unix_nanos();
    decide_at(attempt, outcome, nanos)
}

/// A delivery is tried again only after a failure that may pass, and never more
/// than four times; a refusal is final at once.
pub proof fn law_retries_are_bounded(attempt: u32, outcome: Outcome, nanos: u128)
    requires
        attempt >= 1,
    ensures
        next_move(attempt, outcome, nanos) is RetryIn ==> attempt < 4 && (outcome is NoAnswer || retryable(
            outcome->Status_0,
        )),
        outcome is Status && 400 <= outcome->Status_0 < 500 && outcome->Status_0 != 429 ==> next_move(
            attempt,
            outcome,
            nanos,
        ) is Rejected,
        outcome is Status && success(outcome->Status_0) ==> next_move(attempt, outcome, nanos) is Delivered,
{
}

// ---------------------------------------------------------------------------
// Hosts
// ---------------------------------------------------------------------------

/// An address without its scheme.
pub open spec fn schemeless(url: Seq<char>) -> Seq<char> {
    match behind(url, "://"@) {
        Some(rest) => until(rest, "://"@),
        None => url,
    }
}

/// The host of an address: neither its scheme nor its path, query or fragment.
pub open spec fn host(url: Seq<char>) -> Seq<char> {
    until(until(until(schemeless(url), "/"@), "?"@), "#"@)
}

/// The host of an address.
pub fn host_of(url: &str) -> (r: String)
    ensures
        r@ == host(url@),
{
    let rest = match text_behind(url, "://") {
        Some(rest) => text_until(rest.as_str(), "://"),
        None => url.to_owned(),
    };
    let no_path = text_until(rest.as_str(), "/");
    let no_query = text_until(no_path.as_str(), "?");
    text_until(no_query.as_str(), "#")
}

/// Up to a character, a text does not hold it.
proof fn lemma_until_char(s: Seq<char>, p: Seq<char>, c: char)
    requires
        p.len() == 1,
        p[0] == c,
    ensures
        until(s, p).len() <= s.len(),
        until(s, p) == s.take(until(s, p).len() as int),
        !until(s, p).contains(c),
{
    lemma_find_from(s, p, 0);
    let u = until(s, p);
    assert(u =~= s.take(u.len() as int));
    if u.contains(c) {
        let i = choose|i: int| 0 <= i < u.len() && u[i] == c;
        assert(s.subrange(i, i + 1) =~= p);
        assert(at(s, p, i));
    }
}

/// What is shown of an address holds no path, query or fragment, where a token
/// could stand.
pub proof fn law_hosts_hold_no_query(url: Seq<char>)
    ensures
        !host(url).contains('/'),
        !host(url).contains('?'),
        !host(url).contains('#'),
{
    reveal_strlit("/");
    reveal_strlit("?");
    reveal_strlit("#");
    let a = until(schemeless(url), "/"@);
    let b = until(a, "?"@);
    let h = host(url);
    lemma_until_char(schemeless(url), "/"@, '/');
    lemma_until_char(a, "?"@, '?');
    lemma_until_char(b, "#"@, '#');
    assert forall|i: int| 0 <= i < h.len() implies h[i] != '/' && h[i] != '?' by {
        assert(h[i] == b[i]);
        assert(b[i] == a[i]);
        assert(b.contains(b[i]));
        assert(a.contains(a[i]));
    }
}

} // verus!
