//! The detection engine: per-process histories of endpoints, beacons and
//! sensitive files, and the rules that turn events into alerts, each alert
//! raised once per rule, process, connection and domain.
use vstd::prelude::*;
use crate::capture::strings_view;
use crate::events::{
    opt_string_view, ConnectionRef, EventKind, EventPayload, TraceEvent, clone_opt_string,
};
use crate::table::Table;
use crate::text::{decimal, lower, lower_seq, push_decimal, push_str, chars_of, push_char};
use super::address::{is_external_address, is_private_address, private_address};
use super::{alert_id, Alert, AlertSeverity};

verus! {

/// How far back endpoint history reaches.
pub const WINDOW_NS: u64 = 30_000_000_000;

/// How long a sensitive file access counts for.
pub const SENSITIVE_FILE_WINDOW_NS: u64 = 300_000_000_000;

/// Bytes sent that make a large upload.
pub const LARGE_UPLOAD_BYTES: u64 = 10485760;

/// Bytes sent after a sensitive file access that make an upload of it.
pub const EXFIL_UPLOAD_BYTES: u64 = 262144;

/// Observations kept per process.
pub const MAX_HISTORY: usize = 64;

/// Connection times kept per process and endpoint.
pub const BEACON_SAMPLES: usize = 8;

/// An alert before it is raised.
pub struct AlertDraft {
    pub severity: AlertSeverity,
    pub rule: Seq<char>,
    pub summary: Seq<char>,
    pub connection: Option<ConnectionRef>,
    pub domain: Option<Seq<char>>,
    pub evidence: Seq<Seq<char>>,
}

/// The engine's memory.
pub struct EngineState {
    /// Domains seen, normalised.
    pub seen: Set<Seq<char>>,
    /// Per process: (time, endpoint) of recent connections.
    pub endpoints: Map<u32, Seq<(u64, Seq<char>)>>,
    /// Per process and endpoint: recent connection times.
    pub beacons: Map<(u32, Seq<char>), Seq<u64>>,
    /// Per process: (time, path) of recent sensitive file accesses.
    pub files: Map<u32, Seq<(u64, Seq<char>)>>,
    /// Keys of the alerts raised so far.
    pub emitted: Set<Seq<char>>,
}

pub open spec fn sat_sub(a: u64, b: u64) -> nat {
    if a >= b {
        (a - b) as nat
    } else {
        0
    }
}

/// `address:port` of a connection's remote end.
pub open spec fn endpoint_text(c: ConnectionRef) -> Seq<char> {
    c.remote.address@ + ":"@ + decimal(c.remote.port as nat)
}

/// A domain without trailing dots, in ASCII lower case.
pub open spec fn trim_dots(d: Seq<char>) -> Seq<char>
    decreases d.len(),
{
    if d.len() > 0 && d.last() == '.' {
        trim_dots(d.drop_last())
    } else {
        d
    }
}

pub open spec fn normalized_domain(d: Seq<char>) -> Seq<char> {
    lower_seq(trim_dots(d))
}

/// The part of an alert's key that names its subject.
pub open spec fn key_subject(rule: Seq<char>, c: Option<ConnectionRef>) -> Seq<char> {
    if rule == "scan"@ {
        Seq::empty()
    } else if rule == "beacon"@ || rule == "lateral_movement"@ {
        match c {
            Some(c) => endpoint_text(c),
            None => Seq::empty(),
        }
    } else {
        match c {
            Some(c) => c.id@,
            None => Seq::empty(),
        }
    }
}

/// `rule:pid:subject:domain`: one alert per key.
pub open spec fn alert_key(d: AlertDraft, pid: Option<u32>) -> Seq<char> {
    d.rule + ":"@ + decimal(
        match pid {
            Some(p) => p as nat,
            None => 0,
        },
    ) + ":"@ + key_subject(d.rule, d.connection) + ":"@ + match d.domain {
        Some(x) => x,
        None => Seq::empty(),
    }
}

/// The drafts whose keys were not raised before, in order, with the keys
/// then raised.
pub open spec fn emit(emitted: Set<Seq<char>>, drafts: Seq<AlertDraft>, pid: Option<u32>) -> (
    Set<Seq<char>>,
    Seq<AlertDraft>,
)
    decreases drafts.len(),
{
    if drafts.len() == 0 {
        (emitted, Seq::empty())
    } else {
        let (e, out) = emit(emitted, drafts.drop_last(), pid);
        let k = alert_key(drafts.last(), pid);
        if e.contains(k) {
            (e, out)
        } else {
            (e.insert(k), out.push(drafts.last()))
        }
    }
}

pub open spec fn event_process_name(e: TraceEvent) -> Option<String> {
    match e.process {
        Some(p) => p.executable,
        None => None,
    }
}

/// The alert a draft raises for an event.
pub open spec fn raises(a: Alert, d: AlertDraft, e: TraceEvent) -> bool {
    &&& a.id@ == alert_id(d.rule, Some(e.id@))
    &&& a.event_id == Some(e.id)
    &&& a.timestamp_ns == e.timestamp_ns
    &&& a.severity == d.severity
    &&& a.rule@ == d.rule
    &&& a.summary@ == d.summary
    &&& a.process_id == e.pid
    &&& a.process_name == event_process_name(e)
    &&& opt_string_view(a.connection_id) == match d.connection {
        Some(c) => Some(c.id@),
        None => None::<Seq<char>>,
    }
    &&& opt_string_view(a.domain) == d.domain
    &&& strings_view(a.evidence@) == d.evidence
    &&& a.risk_score == super::severity_points(d.severity)
}

/// The alerts raise the drafts, one each, in order.
pub open spec fn raises_all(alerts: Seq<Alert>, drafts: Seq<AlertDraft>, e: TraceEvent) -> bool {
    alerts.len() == drafts.len() && forall|i: int| 0 <= i < alerts.len() ==> raises(#[trigger] alerts[i], drafts[i], e)
}

// ---- the first-seen domain rule

pub open spec fn dns_step(s: EngineState, e: TraceEvent) -> (EngineState, Seq<AlertDraft>) {
    match e.payload {
        EventPayload::Dns { domain, .. } => {
            let nd = normalized_domain(domain@);
            if nd.len() > 0 && !s.seen.contains(nd) {
                let d = AlertDraft {
                    severity: AlertSeverity::Medium,
                    rule: "new_domain"@,
                    summary: "First-seen domain observed: "@ + nd,
                    connection: None,
                    domain: Some(nd),
                    evidence: seq!["domain="@ + nd],
                };
                let (emitted, out) = emit(s.emitted, seq![d], e.pid);
                (EngineState { seen: s.seen.insert(nd), emitted, ..s }, out)
            } else {
                (s, Seq::empty())
            }
        },
        _ => (s, Seq::empty()),
    }
}

// ---- histories

/// Observations no older than `window` at time `ts`.
pub open spec fn recent<T>(h: Seq<(u64, T)>, ts: u64, window: nat) -> Seq<(u64, T)> {
    h.filter(|o: (u64, T)| sat_sub(ts, o.0) <= window)
}

proof fn lemma_recent_last<T>(h: Seq<(u64, T)>, ts: u64, window: nat)
    requires
        h.len() > 0,
    ensures
        recent(h, ts, window) == if sat_sub(ts, h.last().0) <= window {
            recent(h.drop_last(), ts, window).push(h.last())
        } else {
            recent(h.drop_last(), ts, window)
        },
{
    let pred = |o: (u64, T)| sat_sub(ts, o.0) <= window;
    assert(recent(h, ts, window) == h.filter(pred));
    assert(recent(h.drop_last(), ts, window) == h.drop_last().filter(pred));
    assert(pred(h.last()) == (sat_sub(ts, h.last().0) <= window));
    assert(h =~= h.drop_last().push(h.last()));
    h.drop_last().lemma_filter_push(h.last(), pred);
}

/// The last `n` entries.
pub open spec fn keep_last<T>(h: Seq<T>, n: nat) -> Seq<T> {
    if h.len() > n {
        h.skip(h.len() - n)
    } else {
        h
    }
}

/// How many different texts a sequence holds.
pub open spec fn distinct_count(s: Seq<Seq<char>>) -> nat
    decreases s.len(),
{
    if s.len() == 0 {
        0
    } else {
        distinct_count(s.drop_last()) + if s.drop_last().contains(s.last()) {
            0nat
        } else {
            1nat
        }
    }
}

/// The newest observation still within `window`, from the end of the history.
pub open spec fn last_recent(h: Seq<(u64, Seq<char>)>, ts: u64, window: nat) -> Option<Seq<char>>
    decreases h.len(),
{
    if h.len() == 0 {
        None
    } else if sat_sub(ts, h.last().0) <= window {
        Some(h.last().1)
    } else {
        last_recent(h.drop_last(), ts, window)
    }
}

pub open spec fn history_of<K, T>(m: Map<K, Seq<T>>, k: K) -> Seq<T> {
    if m.contains_key(k) {
        m[k]
    } else {
        Seq::empty()
    }
}

/// The most recent sensitive file of a process, if it is recent enough.
pub open spec fn recent_file(s: EngineState, pid: u32, ts: u64) -> Option<Seq<char>> {
    last_recent(history_of(s.files, pid), ts, SENSITIVE_FILE_WINDOW_NS as nat)
}

// ---- beacons

/// Gaps between consecutive times (0 where time goes back).
pub open spec fn gaps(t: Seq<u64>) -> Seq<nat> {
    Seq::new((t.len() - 1) as nat, |i: int| sat_sub(t[i + 1], t[i]))
}

pub open spec fn total(s: Seq<nat>) -> nat
    decreases s.len(),
{
    if s.len() == 0 {
        0
    } else {
        total(s.drop_last()) + s.last()
    }
}

pub open spec fn abs_diff(a: int, b: int) -> int {
    if a >= b {
        a - b
    } else {
        b - a
    }
}

/// At least four connections whose mean gap is between 1 s and 120 s and
/// whose every gap is within a fifth of that mean.
pub open spec fn regular_beacon(t: Seq<u64>) -> bool {
    let g = gaps(t);
    let n = g.len();
    let sum = total(g);
    &&& t.len() >= 4
    &&& n * 1_000_000_000 <= sum <= n * 120_000_000_000
    &&& forall|i: int| 0 <= i < n ==> 5 * abs_diff((n * #[trigger] g[i]) as int, sum as int) <= sum
}

/// The last gap in whole seconds.
pub open spec fn beacon_period(t: Seq<u64>) -> nat {
    if t.len() >= 2 {
        sat_sub(t.last(), t[t.len() - 2]) / 1_000_000_000
    } else {
        0
    }
}

pub open spec fn admin_port(port: u16) -> bool {
    port == 22 || port == 23 || port == 135 || port == 139 || port == 445 || port == 3389 || port
        == 5985 || port == 5986
}

// ---- the connection rules

pub open spec fn endpoint_history(s: EngineState, pid: u32, ts: u64, ep: Seq<char>) -> Seq<(u64, Seq<char>)> {
    keep_last(
        recent(history_of(s.endpoints, pid), ts, WINDOW_NS as nat).push((ts, ep)),
        MAX_HISTORY as nat,
    )
}

pub open spec fn beacon_times(s: EngineState, pid: u32, ts: u64, ep: Seq<char>) -> Seq<u64> {
    let b = history_of(s.beacons, (pid, ep)).push(ts);
    if b.len() > BEACON_SAMPLES {
        b.drop_first()
    } else {
        b
    }
}

pub open spec fn connection_drafts(
    s: EngineState,
    pid: u32,
    c: ConnectionRef,
    ts: u64,
) -> Seq<AlertDraft> {
    let ep = endpoint_text(c);
    let dom = opt_string_view(c.domain);
    let n = distinct_count(endpoint_history(s, pid, ts, ep).map_values(|o: (u64, Seq<char>)| o.1));
    let scan = if n >= 10 {
        seq![
            AlertDraft {
                severity: AlertSeverity::High,
                rule: "scan"@,
                summary: "Process touched "@ + decimal(n) + " endpoints in 30 seconds"@,
                connection: Some(c),
                domain: dom,
                evidence: seq!["pid="@ + decimal(pid as nat), "distinct_endpoints="@ + decimal(n)],
            },
        ]
    } else {
        Seq::empty()
    };
    let lateral = if private_address(c.remote.address@) && admin_port(c.remote.port) {
        seq![
            AlertDraft {
                severity: AlertSeverity::High,
                rule: "lateral_movement"@,
                summary: "Process connected to an internal administration endpoint "@ + ep,
                connection: Some(c),
                domain: dom,
                evidence: seq!["destination="@ + ep, "private_network=true"@],
            },
        ]
    } else {
        Seq::empty()
    };
    let times = beacon_times(s, pid, ts, ep);
    let beacon = if regular_beacon(times) {
        let p = beacon_period(times);
        seq![
            AlertDraft {
                severity: AlertSeverity::High,
                rule: "beacon"@,
                summary: "Regular connection pattern detected (period ~"@ + decimal(p) + "s)"@,
                connection: Some(c),
                domain: dom,
                evidence: seq![
                    "endpoint="@ + ep,
                    "samples="@ + decimal(times.len()),
                    "period_seconds="@ + decimal(p),
                ],
            },
        ]
    } else {
        Seq::empty()
    };
    let file = match recent_file(s, pid, ts) {
        Some(path) => if !private_address(c.remote.address@) {
            seq![
                AlertDraft {
                    severity: AlertSeverity::High,
                    rule: "sensitive_file_network"@,
                    summary: "Network access followed sensitive file activity: "@ + path,
                    connection: Some(c),
                    domain: dom,
                    evidence: seq!["file="@ + path, "destination="@ + ep],
                },
            ]
        } else {
            Seq::empty()
        },
        None => Seq::empty(),
    };
    scan + lateral + beacon + file
}

pub open spec fn connection_step(s: EngineState, e: TraceEvent) -> (EngineState, Seq<AlertDraft>) {
    match (e.connection, e.pid) {
        (Some(c), Some(pid)) => {
            let ep = endpoint_text(c);
            let drafts = connection_drafts(s, pid, c, e.timestamp_ns);
            let (emitted, out) = emit(s.emitted, drafts, e.pid);
            (
                EngineState {
                    endpoints: s.endpoints.insert(pid, endpoint_history(s, pid, e.timestamp_ns, ep)),
                    beacons: s.beacons.insert((pid, ep), beacon_times(s, pid, e.timestamp_ns, ep)),
                    emitted,
                    ..s
                },
                out,
            )
        },
        _ => (s, Seq::empty()),
    }
}

// ---- the transfer rules

pub open spec fn large_upload(c: ConnectionRef) -> bool {
    c.sent_bytes >= LARGE_UPLOAD_BYTES && (c.received_bytes == 0 || c.sent_bytes >= (if c.received_bytes
        * 4 > u64::MAX {
        u64::MAX as int
    } else {
        c.received_bytes * 4
    }))
}

pub open spec fn bytes_drafts(s: EngineState, pid: Option<u32>, c: ConnectionRef, ts: u64) -> Seq<AlertDraft> {
    let dom = opt_string_view(c.domain);
    let upload = if large_upload(c) {
        seq![
            AlertDraft {
                severity: AlertSeverity::High,
                rule: "suspicious_upload"@,
                summary: "Large outbound transfer: "@ + decimal(c.sent_bytes as nat) + " bytes sent vs "@
                    + decimal(c.received_bytes as nat) + " received"@,
                connection: Some(c),
                domain: dom,
                evidence: seq![
                    "sent_bytes="@ + decimal(c.sent_bytes as nat),
                    "received_bytes="@ + decimal(c.received_bytes as nat),
                ],
            },
        ]
    } else {
        Seq::empty()
    };
    let file = match pid {
        Some(p) => match recent_file(s, p, ts) {
            Some(path) => if c.sent_bytes >= EXFIL_UPLOAD_BYTES && !private_address(c.remote.address@) {
                seq![
                    AlertDraft {
                        severity: AlertSeverity::Critical,
                        rule: "sensitive_file_upload"@,
                        summary: "Sensitive file activity followed by outbound upload: "@ + path,
                        connection: Some(c),
                        domain: dom,
                        evidence: seq!["file="@ + path, "sent_bytes="@ + decimal(c.sent_bytes as nat)],
                    },
                ]
            } else {
                Seq::empty()
            },
            None => Seq::empty(),
        },
        None => Seq::empty(),
    };
    upload + file
}

pub open spec fn bytes_step(s: EngineState, e: TraceEvent) -> (EngineState, Seq<AlertDraft>) {
    match e.connection {
        Some(c) => {
            let (emitted, out) = emit(s.emitted, bytes_drafts(s, e.pid, c, e.timestamp_ns), e.pid);
            (EngineState { emitted, ..s }, out)
        },
        None => (s, Seq::empty()),
    }
}

// ---- the file rule

/// Paths outside system trees that name credentials, keys or secrets.
pub open spec fn sensitive_path(path: Seq<char>) -> bool {
    let p = lower_seq(path);
    let system = "/proc/"@.is_prefix_of(p) || "/sys/"@.is_prefix_of(p) || "/dev/"@.is_prefix_of(p)
        || "/usr/"@.is_prefix_of(p) || "/lib/"@.is_prefix_of(p) || "/run/"@.is_prefix_of(p)
        || "/var/lib/"@.is_prefix_of(p);
    let marked = crate::text::has_substring(p, "/etc/shadow"@) || crate::text::has_substring(
        p,
        "/etc/passwd"@,
    ) || crate::text::has_substring(p, "/.ssh/"@) || crate::text::has_substring(p, "id_rsa"@)
        || crate::text::has_substring(p, "id_ed25519"@) || crate::text::has_substring(
        p,
        "credentials"@,
    ) || crate::text::has_substring(p, "token"@) || crate::text::has_substring(p, "secret"@)
        || crate::text::has_substring(p, "/.aws/"@);
    !system && marked
}

pub open spec fn file_step(s: EngineState, e: TraceEvent) -> EngineState {
    match (e.pid, e.payload) {
        (Some(pid), EventPayload::File { path, .. }) => if sensitive_path(path@) {
            EngineState {
                files: s.files.insert(
                    pid,
                    keep_last(
                        recent(
                            history_of(s.files, pid).push((e.timestamp_ns, path@)),
                            e.timestamp_ns,
                            SENSITIVE_FILE_WINDOW_NS as nat,
                        ),
                        MAX_HISTORY as nat,
                    ),
                ),
                ..s
            }
        } else {
            s
        },
        _ => s,
    }
}

/// What one event does to the engine, and the alerts it raises.
pub open spec fn evaluate_step(s: EngineState, e: TraceEvent) -> (EngineState, Seq<AlertDraft>) {
    match e.kind {
        EventKind::DnsResponse => dns_step(s, e),
        EventKind::TcpConnect => connection_step(s, e),
        EventKind::TcpBytes => bytes_step(s, e),
        EventKind::FileOpen | EventKind::FileRead => (file_step(s, e), Seq::empty()),
        _ => (s, Seq::empty()),
    }
}


// ---- the engine

#[derive(Debug)]
pub struct EndpointObservation {
    pub timestamp_ns: u64,
    pub endpoint: String,
}

#[derive(Debug)]
pub struct SensitiveFileObservation {
    pub timestamp_ns: u64,
    pub path: String,
}

pub open spec fn endpoint_view(h: Seq<EndpointObservation>) -> Seq<(u64, Seq<char>)> {
    h.map_values(|o: EndpointObservation| (o.timestamp_ns, o.endpoint@))
}

pub open spec fn file_view(h: Seq<SensitiveFileObservation>) -> Seq<(u64, Seq<char>)> {
    h.map_values(|o: SensitiveFileObservation| (o.timestamp_ns, o.path@))
}

#[derive(Debug)]
pub struct DetectionEngine {
    seen_domains: Vec<String>,
    recent_endpoints: Table<u32, Vec<EndpointObservation>>,
    beacon_history: Table<(u32, String), Vec<u64>>,
    sensitive_files: Table<u32, Vec<SensitiveFileObservation>>,
    emitted: Vec<String>,
}

/// Whether a list of strings holds one equal to `s`.
fn holds_text(v: &Vec<String>, s: &String) -> (r: bool)
    ensures
        r == strings_view(v@).contains(s@),
{
    let mut i: usize = 0;
    while i < v.len()
        invariant
            i <= v@.len(),
            forall|j: int| 0 <= j < i ==> v@[j]@ != s@,
        decreases v.len() - i,
    {
        if v[i] == *s {
            assert(strings_view(v@)[i as int] == s@);
            return true;
        }
        i += 1;
    }
    assert forall|j: int| 0 <= j < strings_view(v@).len() implies strings_view(v@)[j] != s@ by {
        assert(v@[j]@ != s@);
    }
    false
}

/// Whether two texts are equal.
fn text_is(a: &str, b: &str) -> (r: bool)
    ensures
        r == (a@ == b@),
{
    let v = chars_of(a);
    assert(v@.subrange(0, v@.len() as int) =~= a@);
    crate::text::range_eq(&v, 0, v.len(), b)
}

/// `a` followed by `b`.
fn joined(a: &str, b: &str) -> (r: String)
    ensures
        r@ == a@ + b@,
{
    let mut s = String::new();
    push_str(&mut s, a);
    push_str(&mut s, b);
    assert(s@ =~= a@ + b@);
    s
}

/// `a` followed by the decimal digits of `n`, then `b`.
fn with_number(a: &str, n: u64, b: &str) -> (r: String)
    ensures
        r@ == a@ + decimal(n as nat) + b@,
{
    let mut s = String::new();
    push_str(&mut s, a);
    push_decimal(&mut s, n);
    push_str(&mut s, b);
    assert(s@ =~= a@ + decimal(n as nat) + b@);
    s
}

/// `a` followed by the decimal digits of `n`.
fn number_text(a: &str, n: u64) -> (r: String)
    ensures
        r@ == a@ + decimal(n as nat),
{
    let mut s = String::new();
    push_str(&mut s, a);
    push_decimal(&mut s, n);
    assert(s@ =~= a@ + decimal(n as nat));
    s
}

/// `address:port` of a connection's remote end.
fn endpoint_key(c: &ConnectionRef) -> (r: String)
    ensures
        r@ == endpoint_text(*c),
{
    let mut s = String::new();
    push_str(&mut s, c.remote.address.as_str());
    push_str(&mut s, ":");
    push_decimal(&mut s, c.remote.port as u64);
    assert(s@ =~= endpoint_text(*c));
    s
}


/// The observations of `h` no older than `window` at `ts`, in order.
fn retain_recent_endpoints(h: Vec<EndpointObservation>, ts: u64, window: u64) -> (r: Vec<EndpointObservation>)
    ensures
        endpoint_view(r@) == recent(endpoint_view(h@), ts, window as nat),
{
    let ghost orig = h@;
    let mut h = h;
    let mut out: Vec<EndpointObservation> = Vec::new();
    assert(endpoint_view(orig.take(0)) =~= Seq::<(u64, Seq<char>)>::empty());
    while h.len() > 0
        invariant
            h@.len() <= orig.len(),
            h@ == orig.skip(orig.len() - h@.len()),
            endpoint_view(out@) == recent(endpoint_view(orig.take(orig.len() - h@.len())), ts, window as nat),
        decreases h.len(),
    {
        let ghost k = orig.len() - h@.len();
        assert(h@[0] == orig[k]);
        let o = h.remove(0);
        assert(h@ =~= orig.skip(k + 1));
        let ghost vk1 = endpoint_view(orig.take(k + 1));
        assert(vk1.drop_last() =~= endpoint_view(orig.take(k)));
        proof {
            lemma_recent_last(vk1, ts, window as nat);
        }
        assert(vk1.last() == (o.timestamp_ns, o.endpoint@));
        let age = if ts >= o.timestamp_ns {
            ts - o.timestamp_ns
        } else {
            0
        };
        if age <= window {
            let ghost before = out@;
            out.push(o);
            assert(endpoint_view(out@) =~= endpoint_view(before).push((o.timestamp_ns, o.endpoint@)));
        }
    }
    assert(orig.take(orig.len() as int) =~= orig);
    out
}

/// The observations of `h` no older than `window` at `ts`, in order.
fn retain_recent_files(h: Vec<SensitiveFileObservation>, ts: u64, window: u64) -> (r: Vec<SensitiveFileObservation>)
    ensures
        file_view(r@) == recent(file_view(h@), ts, window as nat),
{
    let ghost orig = h@;
    let mut h = h;
    let mut out: Vec<SensitiveFileObservation> = Vec::new();
    assert(file_view(orig.take(0)) =~= Seq::<(u64, Seq<char>)>::empty());
    while h.len() > 0
        invariant
            h@.len() <= orig.len(),
            h@ == orig.skip(orig.len() - h@.len()),
            file_view(out@) == recent(file_view(orig.take(orig.len() - h@.len())), ts, window as nat),
        decreases h.len(),
    {
        let ghost k = orig.len() - h@.len();
        assert(h@[0] == orig[k]);
        let o = h.remove(0);
        assert(h@ =~= orig.skip(k + 1));
        let ghost vk1 = file_view(orig.take(k + 1));
        assert(vk1.drop_last() =~= file_view(orig.take(k)));
        proof {
            lemma_recent_last(vk1, ts, window as nat);
        }
        assert(vk1.last() == (o.timestamp_ns, o.path@));
        let age = if ts >= o.timestamp_ns {
            ts - o.timestamp_ns
        } else {
            0
        };
        if age <= window {
            let ghost before = out@;
            out.push(o);
            assert(file_view(out@) =~= file_view(before).push((o.timestamp_ns, o.path@)));
        }
    }
    assert(orig.take(orig.len() as int) =~= orig);
    out
}

/// The last `n` entries of `v`.
fn keep_last_entries<T>(v: Vec<T>, n: usize) -> (r: Vec<T>)
    ensures
        r@ == keep_last(v@, n as nat),
{
    if v.len() > n {
        let mut v = v;
        let at = v.len() - n;
        let ghost whole = v@;
        let tail = v.split_off(at);
        assert(tail@ =~= whole.skip(at as int));
        tail
    } else {
        v
    }
}


fn is_admin_port(port: u16) -> (r: bool)
    ensures
        r == admin_port(port),
{
    port == 22 || port == 23 || port == 135 || port == 139 || port == 445 || port == 3389 || port == 5985
        || port == 5986
}

/// How many different endpoints a history holds.
fn count_distinct_endpoints(v: &Vec<EndpointObservation>) -> (r: u64)
    ensures
        r == distinct_count(endpoint_view(v@).map_values(|o: (u64, Seq<char>)| o.1)),
{
    let ghost names = endpoint_view(v@).map_values(|o: (u64, Seq<char>)| o.1);
    let mut count: u64 = 0;
    let mut i: usize = 0;
    assert(names.take(0) =~= Seq::<Seq<char>>::empty());
    while i < v.len()
        invariant
            i <= v@.len(),
            names == endpoint_view(v@).map_values(|o: (u64, Seq<char>)| o.1),
            count == distinct_count(names.take(i as int)),
            count <= i,
        decreases v.len() - i,
    {
        assert(names[i as int] == v@[i as int].endpoint@);
        let mut seen = false;
        let mut j: usize = 0;
        while j < i
            invariant
                j <= i < v@.len(),
                names == endpoint_view(v@).map_values(|o: (u64, Seq<char>)| o.1),
                seen == names.take(j as int).contains(names[i as int]),
            decreases i - j,
        {
            assert(names[j as int] == v@[j as int].endpoint@);
            proof {
                broadcast use vstd::seq_lib::lemma_seq_contains_after_push;
                assert(names.take(j + 1) =~= names.take(j as int).push(names[j as int]));
            }
            if v[j].endpoint == v[i].endpoint {
                seen = true;
            }
            j += 1;
        }
        assert(names.take(i + 1).drop_last() =~= names.take(i as int));
        assert(names.take(i + 1).last() == names[i as int]);
        if !seen {
            count += 1;
        }
        i += 1;
    }
    assert(names.take(i as int) =~= names);
    count
}

/// The gaps' sum, and whether they make a regular beacon.
fn is_regular_beacon(t: &Vec<u64>) -> (r: bool)
    requires
        t@.len() <= BEACON_SAMPLES,
    ensures
        r == regular_beacon(t@),
{
    if t.len() < 4 {
        return false;
    }
    let ghost g = gaps(t@);
    let n = t.len() - 1;
    let mut sum: u128 = 0;
    let mut i: usize = 0;
    while i < n
        invariant
            n == t@.len() - 1,
            4 <= t@.len() <= BEACON_SAMPLES,
            i <= n,
            g == gaps(t@),
            sum == total(g.take(i as int)),
            sum <= i * 0x1_0000_0000_0000_0000,
        decreases n - i,
    {
        assert(g.take(i + 1).drop_last() =~= g.take(i as int));
        let gap: u128 = if t[i + 1] >= t[i] {
            (t[i + 1] - t[i]) as u128
        } else {
            0
        };
        assert(gap == g[i as int]);
        sum = sum + gap;
        i += 1;
    }
    assert(g.take(n as int) =~= g);
    let count = n as u128;
    if sum < count * 1_000_000_000 || sum > count * 120_000_000_000 {
        return false;
    }
    let mut k: usize = 0;
    while k < n
        invariant
            n == t@.len() - 1,
            4 <= t@.len() <= BEACON_SAMPLES,
            k <= n,
            g == gaps(t@),
            count == n,
            sum == total(g),
            sum <= n * 0x1_0000_0000_0000_0000,
            forall|j: int| 0 <= j < k ==> 5 * abs_diff((n * #[trigger] g[j]) as int, sum as int) <= sum,
        decreases n - k,
    {
        let gap: u128 = if t[k + 1] >= t[k] {
            (t[k + 1] - t[k]) as u128
        } else {
            0
        };
        assert(gap == g[k as int]);
        assert(count * gap <= 8 * 0x1_0000_0000_0000_0000) by (nonlinear_arith)
            requires
                count <= 7,
                gap < 0x1_0000_0000_0000_0000,
        ;
        let scaled = count * gap;
        let diff = if scaled >= sum {
            scaled - sum
        } else {
            sum - scaled
        };
        if diff > sum / 5 {
            return false;
        }
        k += 1;
    }
    true
}

proof fn lemma_trim_dots_prefix(d: Seq<char>, k: int)
    requires
        0 <= k <= d.len(),
        forall|j: int| k <= j < d.len() ==> d[j] == '.',
    ensures
        trim_dots(d) == trim_dots(d.take(k)),
    decreases d.len() - k,
{
    if k < d.len() {
        assert(d.drop_last().take(k) =~= d.take(k));
        lemma_trim_dots_prefix(d.drop_last(), k);
    } else {
        assert(d.take(k) =~= d);
    }
}

/// A domain without trailing dots, in ASCII lower case.
fn normalize_domain(domain: &str) -> (r: (String, usize))
    ensures
        r.0@ == normalized_domain(domain@),
        r.1 == r.0@.len(),
{
    let v = chars_of(domain);
    let mut end = v.len();
    while end > 0 && v[end - 1] == '.'
        invariant
            end <= v@.len(),
            v@ == domain@,
            forall|j: int| end <= j < v@.len() ==> v@[j] == '.',
        decreases end,
    {
        end -= 1;
    }
    proof {
        lemma_trim_dots_prefix(v@, end as int);
        if end > 0 {
            assert(v@.take(end as int).last() != '.');
        }
        assert(trim_dots(v@.take(end as int)) == v@.take(end as int));
    }
    let mut s = String::new();
    let mut i: usize = 0;
    while i < end
        invariant
            i <= end <= v@.len(),
            s@ == lower_seq(v@.take(i as int)),
        decreases end - i,
    {
        push_char(&mut s, lower(v[i]));
        assert(lower_seq(v@.take(i + 1)) =~= lower_seq(v@.take(i as int)).push(crate::text::lower_char(v@[i as int])));
        i += 1;
    }
    (s, end)
}

/// Paths outside system trees that name credentials, keys or secrets.
pub(crate) fn is_sensitive_path(path: &str) -> (r: bool)
    ensures
        r == sensitive_path(path@),
{
    let v = chars_of(path);
    let mut p: Vec<char> = Vec::new();
    let mut i: usize = 0;
    while i < v.len()
        invariant
            i <= v@.len(),
            v@ == path@,
            p@ == lower_seq(v@.take(i as int)),
        decreases v.len() - i,
    {
        p.push(lower(v[i]));
        assert(lower_seq(v@.take(i + 1)) =~= lower_seq(v@.take(i as int)).push(crate::text::lower_char(v@[i as int])));
        i += 1;
    }
    assert(v@.take(i as int) =~= path@);
    let n = p.len();
    assert(p@.subrange(0, n as int) =~= p@);
    if crate::text::range_starts_with(&p, 0, n, "/proc/") || crate::text::range_starts_with(&p, 0, n, "/sys/")
        || crate::text::range_starts_with(&p, 0, n, "/dev/") || crate::text::range_starts_with(&p, 0, n, "/usr/")
        || crate::text::range_starts_with(&p, 0, n, "/lib/") || crate::text::range_starts_with(&p, 0, n, "/run/")
        || crate::text::range_starts_with(&p, 0, n, "/var/lib/") {
        return false;
    }
    crate::text::range_contains(&p, 0, n, "/etc/shadow") || crate::text::range_contains(&p, 0, n, "/etc/passwd")
        || crate::text::range_contains(&p, 0, n, "/.ssh/") || crate::text::range_contains(&p, 0, n, "id_rsa")
        || crate::text::range_contains(&p, 0, n, "id_ed25519") || crate::text::range_contains(&p, 0, n, "credentials")
        || crate::text::range_contains(&p, 0, n, "token") || crate::text::range_contains(&p, 0, n, "secret")
        || crate::text::range_contains(&p, 0, n, "/.aws/")
}

pub open spec fn draft_of(
    severity: AlertSeverity,
    rule: Seq<char>,
    summary: String,
    connection: Option<ConnectionRef>,
    domain: Option<String>,
    evidence: Vec<String>,
) -> AlertDraft {
    AlertDraft {
        severity,
        rule,
        summary: summary@,
        connection,
        domain: opt_string_view(domain),
        evidence: strings_view(evidence@),
    }
}

proof fn lemma_emit_push(emitted: Set<Seq<char>>, ds: Seq<AlertDraft>, d: AlertDraft, pid: Option<u32>)
    ensures
        emit(emitted, ds.push(d), pid) == ({
            let (e, out) = emit(emitted, ds, pid);
            let k = alert_key(d, pid);
            if e.contains(k) {
                (e, out)
            } else {
                (e.insert(k), out.push(d))
            }
        }),
{
    assert(ds.push(d).drop_last() =~= ds);
}

/// What raising one draft does to the raised keys and the alerts.
pub open spec fn pushed(
    e0: Set<Seq<char>>,
    a0: Seq<Alert>,
    e1: Set<Seq<char>>,
    a1: Seq<Alert>,
    d: AlertDraft,
    ev: TraceEvent,
) -> bool {
    let k = alert_key(d, ev.pid);
    if e0.contains(k) {
        e1 == e0 && a1 == a0
    } else {
        &&& e1 == e0.insert(k)
        &&& a1.len() == a0.len() + 1
        &&& a1.drop_last() == a0
        &&& raises(a1.last(), d, ev)
    }
}

proof fn lemma_emit_next(
    emitted: Set<Seq<char>>,
    ds: Seq<AlertDraft>,
    d: AlertDraft,
    ev: TraceEvent,
    a0: Seq<Alert>,
    a1: Seq<Alert>,
    e1: Set<Seq<char>>,
)
    requires
        raises_all(a0, emit(emitted, ds, ev.pid).1, ev),
        pushed(emit(emitted, ds, ev.pid).0, a0, e1, a1, d, ev),
    ensures
        emit(emitted, ds.push(d), ev.pid).0 == e1,
        raises_all(a1, emit(emitted, ds.push(d), ev.pid).1, ev),
{
    lemma_emit_push(emitted, ds, d, ev.pid);
    let (e, out) = emit(emitted, ds, ev.pid);
    if !e.contains(alert_key(d, ev.pid)) {
        assert(a1 =~= a0.push(a1.last()));
        lemma_raises_push(a0, out, a1.last(), d, ev);
    }
}

proof fn lemma_raises_push(alerts: Seq<Alert>, out: Seq<AlertDraft>, a: Alert, d: AlertDraft, e: TraceEvent)
    requires
        raises_all(alerts, out, e),
        raises(a, d, e),
    ensures
        raises_all(alerts.push(a), out.push(d), e),
{
    assert forall|i: int| 0 <= i < alerts.len() + 1 implies raises(#[trigger] alerts.push(a)[i], out.push(d)[i], e) by {
        if i < alerts.len() {
            assert(alerts.push(a)[i] == alerts[i]);
            assert(out.push(d)[i] == out[i]);
        }
    }
}

impl DetectionEngine {
    pub closed spec fn wf(&self) -> bool {
        &&& self.recent_endpoints.wf()
        &&& self.beacon_history.wf()
        &&& self.sensitive_files.wf()
        &&& forall|k: (u32, Seq<char>)|
            #[trigger] self.beacon_history.map().contains_key(k) ==> self.beacon_history.map()[k]@.len()
                <= BEACON_SAMPLES
    }

    pub closed spec fn state(&self) -> EngineState {
        EngineState {
            seen: strings_view(self.seen_domains@).to_set(),
            endpoints: self.recent_endpoints.map().map_values(
                |v: Vec<EndpointObservation>| endpoint_view(v@),
            ),
            beacons: self.beacon_history.map().map_values(|v: Vec<u64>| v@),
            files: self.sensitive_files.map().map_values(
                |v: Vec<SensitiveFileObservation>| file_view(v@),
            ),
            emitted: strings_view(self.emitted@).to_set(),
        }
    }

    pub fn new() -> (r: Self)
        ensures
            r.wf(),
            r.state().seen == Set::<Seq<char>>::empty(),
            r.state().endpoints == Map::<u32, Seq<(u64, Seq<char>)>>::empty(),
            r.state().beacons == Map::<(u32, Seq<char>), Seq<u64>>::empty(),
            r.state().files == Map::<u32, Seq<(u64, Seq<char>)>>::empty(),
            r.state().emitted == Set::<Seq<char>>::empty(),
    {
        let r = DetectionEngine {
            seen_domains: Vec::new(),
            recent_endpoints: Table::new(),
            beacon_history: Table::new(),
            sensitive_files: Table::new(),
            emitted: Vec::new(),
        };
        assert(r.state().seen =~= Set::<Seq<char>>::empty());
        assert(r.state().emitted =~= Set::<Seq<char>>::empty());
        assert(r.state().endpoints =~= Map::<u32, Seq<(u64, Seq<char>)>>::empty());
        assert(r.state().beacons =~= Map::<(u32, Seq<char>), Seq<u64>>::empty());
        assert(r.state().files =~= Map::<u32, Seq<(u64, Seq<char>)>>::empty());
        r
    }

    /// Raises a draft unless an alert of its key was raised before.
    #[allow(clippy::too_many_arguments)]
    fn push_alert(
        &mut self,
        alerts: &mut Vec<Alert>,
        event: &TraceEvent,
        severity: AlertSeverity,
        rule: &str,
        summary: String,
        connection: Option<ConnectionRef>,
        domain: Option<String>,
        evidence: Vec<String>,
    )
        requires
            old(self).wf(),
        ensures
            final(self).wf(),
            final(self).state() == (EngineState { emitted: final(self).state().emitted, ..old(self).state() }),
            pushed(
                old(self).state().emitted,
                old(alerts)@,
                final(self).state().emitted,
                final(alerts)@,
                draft_of(severity, rule@, summary, connection, domain, evidence),
                *event,
            ),
    {
        let ghost d = draft_of(severity, rule@, summary, connection, domain, evidence);
        let mut key = String::new();
        push_str(&mut key, rule);
        push_str(&mut key, ":");
        push_decimal(
            &mut key,
            match event.pid {
                Some(p) => p as u64,
                None => 0,
            },
        );
        push_str(&mut key, ":");
        let ghost before_subject = key@;
        if text_is(rule, "scan") {
        } else if text_is(rule, "beacon") || text_is(rule, "lateral_movement") {
            match &connection {
                Some(c) => {
                    let e = endpoint_key(c);
                    push_str(&mut key, e.as_str());
                },
                None => {},
            }
        } else {
            match &connection {
                Some(c) => push_str(&mut key, c.id.as_str()),
                None => {},
            }
        }
        assert(key@ =~= before_subject + key_subject(rule@, connection));
        push_str(&mut key, ":");
        match &domain {
            Some(x) => push_str(&mut key, x.as_str()),
            None => {},
        }
        assert(key@ =~= alert_key(d, event.pid));
        if holds_text(&self.emitted, &key) {
            assert(self.state() =~= (EngineState { emitted: self.state().emitted, ..old(self).state() }));
            return;
        }
        let ghost old_emitted = self.emitted@;
        self.emitted.push(key);
        assert(strings_view(self.emitted@) =~= strings_view(old_emitted).push(alert_key(d, event.pid)));
        proof {
            broadcast use vstd::seq_lib::lemma_seq_contains_after_push;
            assert(self.state().emitted =~= old(self).state().emitted.insert(alert_key(d, event.pid)));
        }
        let process_name = match &event.process {
            Some(p) => clone_opt_string(&p.executable),
            None => None,
        };
        let connection_id = match &connection {
            Some(c) => Some(c.id.clone()),
            None => None,
        };
        let alert = Alert::new(
            Some(event.id.clone()),
            event.timestamp_ns,
            severity,
            rule,
            summary,
            event.pid,
            process_name,
            connection_id,
            domain,
            evidence,
        );
        alerts.push(alert);
        assert(final(alerts)@.drop_last() =~= old(alerts)@);
    }

    fn evaluate_dns(&mut self, event: &TraceEvent, alerts: &mut Vec<Alert>)
        requires
            old(self).wf(),
            old(alerts)@.len() == 0,
        ensures
            final(self).wf(),
            final(self).state() == dns_step(old(self).state(), *event).0,
            raises_all(final(alerts)@, dns_step(old(self).state(), *event).1, *event),
    {
        let domain = match &event.payload {
            EventPayload::Dns { domain, .. } => domain,
            _ => {
                return;
            },
        };
        let (normalized, count) = normalize_domain(domain.as_str());
        if count == 0 || holds_text(&self.seen_domains, &normalized) {
            return;
        }
        let ghost s0 = self.state();
        let ghost before = self.seen_domains@;
        self.seen_domains.push(normalized.clone());
        proof {
            broadcast use vstd::seq_lib::lemma_seq_contains_after_push;
            assert(strings_view(self.seen_domains@) =~= strings_view(before).push(normalized@));
            assert(self.state().seen =~= s0.seen.insert(normalized@));
        }
        let ghost s1 = self.state();
        let summary = joined("First-seen domain observed: ", normalized.as_str());
        let evidence = vec![joined("domain=", normalized.as_str())];
        let ghost d = draft_of(AlertSeverity::Medium, "new_domain"@, summary, None, Some(normalized), evidence);
        assert(strings_view(evidence@) =~= seq!["domain="@ + normalized@]);
        let ghost a0 = alerts@;
        self.push_alert(
            alerts,
            event,
            AlertSeverity::Medium,
            "new_domain",
            summary,
            None,
            Some(normalized),
            evidence,
        );
        proof {
            assert(emit(s0.emitted, Seq::empty(), event.pid) == (s0.emitted, Seq::<AlertDraft>::empty()));
            assert(raises_all(a0, Seq::empty(), *event));
            lemma_emit_next(s0.emitted, Seq::empty(), d, *event, a0, alerts@, self.state().emitted);
            assert(Seq::<AlertDraft>::empty().push(d) =~= seq![d]);
        }
    }

    fn evaluate_file(&mut self, event: &TraceEvent)
        requires
            old(self).wf(),
        ensures
            final(self).wf(),
            final(self).state() == file_step(old(self).state(), *event),
    {
        let pid = match event.pid {
            Some(p) => p,
            None => {
                return;
            },
        };
        let path = match &event.payload {
            EventPayload::File { path, .. } => path,
            _ => {
                return;
            },
        };
        if !is_sensitive_path(path.as_str()) {
            return;
        }
        let ghost s0 = self.state();
        let ghost m0 = self.sensitive_files.map();
        let mut history = match self.sensitive_files.remove(&pid) {
            Some(h) => h,
            None => Vec::new(),
        };
        assert(file_view(history@) == history_of(s0.files, pid));
        let ghost h0 = history@;
        history.push(SensitiveFileObservation { timestamp_ns: event.timestamp_ns, path: path.clone() });
        assert(file_view(history@) =~= file_view(h0).push((event.timestamp_ns, path@)));
        let kept = retain_recent_files(history, event.timestamp_ns, SENSITIVE_FILE_WINDOW_NS);
        let trimmed = keep_last_entries(kept, MAX_HISTORY);
        let ghost tv = trimmed@;
        proof {
            assert(file_view(keep_last(kept@, MAX_HISTORY as nat)) =~= keep_last(file_view(kept@), MAX_HISTORY as nat));
        }
        self.sensitive_files.insert(pid, trimmed);
        proof {
            assert(self.sensitive_files.map() =~= m0.insert(pid, self.sensitive_files.map()[pid]));
            assert(self.state().files =~= s0.files.insert(pid, file_view(tv)));
            assert(self.state() =~= file_step(s0, *event));
        }
    }

    /// The path of the newest sensitive file of a process still in the window.
    fn recent_sensitive_file(&self, pid: u32, timestamp_ns: u64) -> (r: Option<String>)
        requires
            self.wf(),
        ensures
            opt_string_view(r) == recent_file(self.state(), pid, timestamp_ns),
    {
        let history = match self.sensitive_files.get(&pid) {
            Some(h) => h,
            None => {
                return None;
            },
        };
        let ghost hv = file_view(history@);
        assert(hv == history_of(self.state().files, pid));
        let mut i = history.len();
        assert(hv.take(i as int) =~= hv);
        while i > 0
            invariant
                i <= history@.len(),
                hv == file_view(history@),
                hv == history_of(self.state().files, pid),
                last_recent(hv, timestamp_ns, SENSITIVE_FILE_WINDOW_NS as nat) == last_recent(
                    hv.take(i as int),
                    timestamp_ns,
                    SENSITIVE_FILE_WINDOW_NS as nat,
                ),
            decreases i,
        {
            let o = &history[i - 1];
            assert(hv.take(i as int).drop_last() =~= hv.take(i - 1));
            assert(hv.take(i as int).last() == (o.timestamp_ns, o.path@));
            let age = if timestamp_ns >= o.timestamp_ns {
                timestamp_ns - o.timestamp_ns
            } else {
                0
            };
            if age <= SENSITIVE_FILE_WINDOW_NS {
                return Some(o.path.clone());
            }
            i -= 1;
        }
        None
    }

    fn evaluate_bytes(&mut self, event: &TraceEvent, alerts: &mut Vec<Alert>)
        requires
            old(self).wf(),
            old(alerts)@.len() == 0,
        ensures
            final(self).wf(),
            final(self).state() == bytes_step(old(self).state(), *event).0,
            raises_all(final(alerts)@, bytes_step(old(self).state(), *event).1, *event),
    {
        let connection = match &event.connection {
            Some(c) => c,
            None => {
                return;
            },
        };
        let ghost s0 = self.state();
        let ghost c = *connection;
        let ghost mut ds: Seq<AlertDraft> = Seq::empty();
        assert(raises_all(alerts@, emit(s0.emitted, ds, event.pid).1, *event));
        let sent = connection.sent_bytes;
        let received = connection.received_bytes;
        let received4 = if received > u64::MAX / 4 {
            u64::MAX
        } else {
            received * 4
        };
        if sent >= LARGE_UPLOAD_BYTES && (received == 0 || sent >= received4) {
            let mut summary = with_number("Large outbound transfer: ", sent, " bytes sent vs ");
            push_decimal(&mut summary, received);
            push_str(&mut summary, " received");
            let evidence = vec![number_text("sent_bytes=", sent), number_text("received_bytes=", received)];
            let ghost d = draft_of(
                AlertSeverity::High,
                "suspicious_upload"@,
                summary,
                Some(c),
                connection.domain,
                evidence,
            );
            assert(strings_view(evidence@) =~= d.evidence);
            let ghost a0 = alerts@;
            self.push_alert(
                alerts,
                event,
                AlertSeverity::High,
                "suspicious_upload",
                summary,
                Some(connection.duplicate()),
                clone_opt_string(&connection.domain),
                evidence,
            );
            proof {
                lemma_emit_next(s0.emitted, ds, d, *event, a0, alerts@, self.state().emitted);
                ds = ds.push(d);
                assert(d.summary =~= "Large outbound transfer: "@ + decimal(c.sent_bytes as nat) + " bytes sent vs "@
                    + decimal(c.received_bytes as nat) + " received"@);
                assert(d.evidence =~= seq![
                    "sent_bytes="@ + decimal(c.sent_bytes as nat),
                    "received_bytes="@ + decimal(c.received_bytes as nat),
                ]);
                assert(large_upload(c));
                assert(d == bytes_drafts(s0, event.pid, c, event.timestamp_ns)[0]);
            }
        }
        let ghost upload_part = ds;
        assert(upload_part.len() == (if large_upload(c) { 1int } else { 0int }));
        if let Some(pid) = event.pid {
            if let Some(path) = self.recent_sensitive_file(pid, event.timestamp_ns) {
                if sent >= EXFIL_UPLOAD_BYTES && is_external_address(connection.remote.address.as_str()) {
                    let summary = joined("Sensitive file activity followed by outbound upload: ", path.as_str());
                    let evidence = vec![joined("file=", path.as_str()), number_text("sent_bytes=", sent)];
                    let ghost d = draft_of(
                        AlertSeverity::Critical,
                        "sensitive_file_upload"@,
                        summary,
                        Some(c),
                        connection.domain,
                        evidence,
                    );
                    assert(d.evidence =~= seq!["file="@ + path@, "sent_bytes="@ + decimal(c.sent_bytes as nat)]);
                    let ghost a0 = alerts@;
                    self.push_alert(
                        alerts,
                        event,
                        AlertSeverity::Critical,
                        "sensitive_file_upload",
                        summary,
                        Some(connection.duplicate()),
                        clone_opt_string(&connection.domain),
                        evidence,
                    );
                    proof {
                        lemma_emit_next(s0.emitted, ds, d, *event, a0, alerts@, self.state().emitted);
                        ds = ds.push(d);
                    }
                }
            }
        }
        proof {
            assert(ds =~= bytes_drafts(s0, event.pid, c, event.timestamp_ns));
            assert(self.state() =~= bytes_step(s0, *event).0);
        }
    }

    /// Adds a connection to a process's endpoint history: drops what fell out
    /// of the window, appends, keeps the newest entries; returns how many
    /// endpoints the history then names.
    fn record_endpoint(&mut self, pid: u32, timestamp_ns: u64, endpoint: &String) -> (n: u64)
        requires
            old(self).wf(),
        ensures
            final(self).wf(),
            final(self).state() == (EngineState {
                endpoints: old(self).state().endpoints.insert(
                    pid,
                    endpoint_history(old(self).state(), pid, timestamp_ns, endpoint@),
                ),
                ..old(self).state()
            }),
            n == distinct_count(
                endpoint_history(old(self).state(), pid, timestamp_ns, endpoint@).map_values(
                    |o: (u64, Seq<char>)| o.1,
                ),
            ),
    {
        let ghost s0 = self.state();
        let ghost m0 = self.recent_endpoints.map();
        let history = match self.recent_endpoints.remove(&pid) {
            Some(h) => h,
            None => Vec::new(),
        };
        assert(endpoint_view(history@) == history_of(s0.endpoints, pid));
        let mut kept = retain_recent_endpoints(history, timestamp_ns, WINDOW_NS);
        let ghost k0 = kept@;
        kept.push(EndpointObservation { timestamp_ns, endpoint: endpoint.clone() });
        assert(endpoint_view(kept@) =~= endpoint_view(k0).push((timestamp_ns, endpoint@)));
        let trimmed = keep_last_entries(kept, MAX_HISTORY);
        proof {
            assert(endpoint_view(keep_last(kept@, MAX_HISTORY as nat)) =~= keep_last(
                endpoint_view(kept@),
                MAX_HISTORY as nat,
            ));
        }
        let n = count_distinct_endpoints(&trimmed);
        let ghost tv = trimmed@;
        self.recent_endpoints.insert(pid, trimmed);
        proof {
            assert(self.recent_endpoints.map() =~= m0.insert(pid, self.recent_endpoints.map()[pid]));
            assert(self.state().endpoints =~= s0.endpoints.insert(pid, endpoint_view(tv)));
            assert(self.state() =~= (EngineState {
                endpoints: s0.endpoints.insert(pid, endpoint_history(s0, pid, timestamp_ns, endpoint@)),
                ..s0
            }));
        }
        n
    }

    /// Adds a connection time to a process's beacon history for an endpoint;
    /// returns whether the history is a regular beacon, its length and its
    /// last gap in seconds.
    fn record_beacon(&mut self, pid: u32, timestamp_ns: u64, endpoint: &String) -> (r: (bool, u64, u64))
        requires
            old(self).wf(),
        ensures
            final(self).wf(),
            final(self).state() == (EngineState {
                beacons: old(self).state().beacons.insert(
                    (pid, endpoint@),
                    beacon_times(old(self).state(), pid, timestamp_ns, endpoint@),
                ),
                ..old(self).state()
            }),
            r.0 == regular_beacon(beacon_times(old(self).state(), pid, timestamp_ns, endpoint@)),
            r.1 == beacon_times(old(self).state(), pid, timestamp_ns, endpoint@).len(),
            r.2 == beacon_period(beacon_times(old(self).state(), pid, timestamp_ns, endpoint@)),
    {
        let ghost s0 = self.state();
        let ghost m0 = self.beacon_history.map();
        let key = (pid, endpoint.clone());
        let mut times = match self.beacon_history.remove(&key) {
            Some(b) => b,
            None => Vec::new(),
        };
        assert(times@ == history_of(s0.beacons, (pid, endpoint@)));
        assert(times@.len() <= BEACON_SAMPLES);
        times.push(timestamp_ns);
        if times.len() > BEACON_SAMPLES {
            let ghost t0 = times@;
            times.remove(0);
            assert(times@ =~= t0.drop_first());
        }
        let len = times.len();
        let period = if len >= 2 {
            let later = times[len - 1];
            let earlier = times[len - 2];
            (if later >= earlier {
                later - earlier
            } else {
                0
            }) / 1_000_000_000
        } else {
            0
        };
        let regular = is_regular_beacon(&times);
        let ghost tv = times@;
        self.beacon_history.insert(key, times);
        proof {
            assert(self.beacon_history.map() =~= m0.insert((pid, endpoint@), self.beacon_history.map()[(pid, endpoint@)]));
            assert(self.state().beacons =~= s0.beacons.insert((pid, endpoint@), tv));
            assert(self.state() =~= (EngineState {
                beacons: s0.beacons.insert((pid, endpoint@), beacon_times(s0, pid, timestamp_ns, endpoint@)),
                ..s0
            }));
        }
        (regular, len as u64, period)
    }

    #[verifier::spinoff_prover]
    #[verifier::rlimit(60)]
    fn evaluate_connection(&mut self, event: &TraceEvent, alerts: &mut Vec<Alert>)
        requires
            old(self).wf(),
            old(alerts)@.len() == 0,
        ensures
            final(self).wf(),
            final(self).state() == connection_step(old(self).state(), *event).0,
            raises_all(final(alerts)@, connection_step(old(self).state(), *event).1, *event),
    {
        let connection = match &event.connection {
            Some(c) => c,
            None => {
                return;
            },
        };
        let pid = match event.pid {
            Some(p) => p,
            None => {
                return;
            },
        };
        let ghost s0 = self.state();
        let ghost c = *connection;
        let ts = event.timestamp_ns;
        let endpoint = endpoint_key(connection);
        let ghost ep = endpoint@;
        let distinct = self.record_endpoint(pid, ts, &endpoint);
        let ghost s1 = self.state();
        let ghost mut ds: Seq<AlertDraft> = Seq::empty();
        assert(raises_all(alerts@, emit(s0.emitted, ds, event.pid).1, *event));
        if distinct >= 10 {
            let summary = with_number("Process touched ", distinct, " endpoints in 30 seconds");
            let evidence = vec![number_text("pid=", pid as u64), number_text("distinct_endpoints=", distinct)];
            let ghost d = draft_of(AlertSeverity::High, "scan"@, summary, Some(c), connection.domain, evidence);
            assert(d.evidence =~= seq!["pid="@ + decimal(pid as nat), "distinct_endpoints="@ + decimal(distinct as nat)]);
            let ghost a0 = alerts@;
            self.push_alert(
                alerts,
                event,
                AlertSeverity::High,
                "scan",
                summary,
                Some(connection.duplicate()),
                clone_opt_string(&connection.domain),
                evidence,
            );
            proof {
                lemma_emit_next(s0.emitted, ds, d, *event, a0, alerts@, self.state().emitted);
                ds = ds.push(d);
            }
        }
        let ghost scan_part = ds;
        if is_private_address(connection.remote.address.as_str()) && is_admin_port(connection.remote.port) {
            let summary = joined("Process connected to an internal administration endpoint ", endpoint.as_str());
            let evidence = vec![joined("destination=", endpoint.as_str()), "private_network=true".to_string()];
            let ghost d = draft_of(
                AlertSeverity::High,
                "lateral_movement"@,
                summary,
                Some(c),
                connection.domain,
                evidence,
            );
            assert(d.evidence =~= seq!["destination="@ + ep, "private_network=true"@]);
            let ghost a0 = alerts@;
            self.push_alert(
                alerts,
                event,
                AlertSeverity::High,
                "lateral_movement",
                summary,
                Some(connection.duplicate()),
                clone_opt_string(&connection.domain),
                evidence,
            );
            proof {
                lemma_emit_next(s0.emitted, ds, d, *event, a0, alerts@, self.state().emitted);
                ds = ds.push(d);
            }
        }
        let ghost lateral_part = ds.skip(scan_part.len() as int);
        let (regular, samples, period) = self.record_beacon(pid, ts, &endpoint);
        if regular {
            let summary = with_number("Regular connection pattern detected (period ~", period, "s)");
            let evidence = vec![
                joined("endpoint=", endpoint.as_str()),
                number_text("samples=", samples),
                number_text("period_seconds=", period),
            ];
            let ghost d = draft_of(AlertSeverity::High, "beacon"@, summary, Some(c), connection.domain, evidence);
            assert(d.evidence =~= seq![
                "endpoint="@ + ep,
                "samples="@ + decimal(samples as nat),
                "period_seconds="@ + decimal(period as nat),
            ]);
            let ghost a0 = alerts@;
            self.push_alert(
                alerts,
                event,
                AlertSeverity::High,
                "beacon",
                summary,
                Some(connection.duplicate()),
                clone_opt_string(&connection.domain),
                evidence,
            );
            proof {
                lemma_emit_next(s0.emitted, ds, d, *event, a0, alerts@, self.state().emitted);
                ds = ds.push(d);
            }
        }
        let ghost before_file = ds;
        if let Some(path) = self.recent_sensitive_file(pid, ts) {
            if is_external_address(connection.remote.address.as_str()) {
                let summary = joined("Network access followed sensitive file activity: ", path.as_str());
                let evidence = vec![joined("file=", path.as_str()), joined("destination=", endpoint.as_str())];
                let ghost d = draft_of(
                    AlertSeverity::High,
                    "sensitive_file_network"@,
                    summary,
                    Some(c),
                    connection.domain,
                    evidence,
                );
                assert(d.evidence =~= seq!["file="@ + path@, "destination="@ + ep]);
                let ghost a0 = alerts@;
                self.push_alert(
                    alerts,
                    event,
                    AlertSeverity::High,
                    "sensitive_file_network",
                    summary,
                    Some(connection.duplicate()),
                    clone_opt_string(&connection.domain),
                    evidence,
                );
                proof {
                    lemma_emit_next(s0.emitted, ds, d, *event, a0, alerts@, self.state().emitted);
                    ds = ds.push(d);
                }
            }
        }
        proof {
            assert(ds =~= connection_drafts(s0, pid, c, ts));
            assert(self.state() =~= connection_step(s0, *event).0);
        }
    }

    /// Feeds one event to the rules and returns the alerts it raises: a
    /// first-seen domain on a DNS response; a scan, an internal
    /// administration endpoint, a regular beacon or network access after a
    /// sensitive file on a connection; a large upload or an upload after a
    /// sensitive file on a transfer; file accesses are remembered. Each
    /// alert key is raised once.
    pub fn evaluate(&mut self, event: &TraceEvent) -> (alerts: Vec<Alert>)
        requires
            old(self).wf(),
        ensures
            final(self).wf(),
            final(self).state() == evaluate_step(old(self).state(), *event).0,
            raises_all(alerts@, evaluate_step(old(self).state(), *event).1, *event),
    {
        let mut alerts: Vec<Alert> = Vec::new();
        match event.kind {
            EventKind::DnsResponse => self.evaluate_dns(event, &mut alerts),
            EventKind::TcpConnect => self.evaluate_connection(event, &mut alerts),
            EventKind::TcpBytes => self.evaluate_bytes(event, &mut alerts),
            EventKind::FileOpen | EventKind::FileRead => self.evaluate_file(event),
            _ => {},
        }
        alerts
    }
}

impl Default for DetectionEngine {
    fn default() -> (r: Self)
        ensures
            r.wf(),
            r.state().seen == Set::<Seq<char>>::empty(),
            r.state().endpoints == Map::<u32, Seq<(u64, Seq<char>)>>::empty(),
            r.state().beacons == Map::<(u32, Seq<char>), Seq<u64>>::empty(),
            r.state().files == Map::<u32, Seq<(u64, Seq<char>)>>::empty(),
            r.state().emitted == Set::<Seq<char>>::empty(),
    {
        DetectionEngine::new()
    }
}


/// A connection raises a lateral-movement draft exactly when it goes to a
/// private address on one of the administration ports: SSH, Telnet, RPC,
/// NetBIOS, SMB, RDP and WinRM (22, 23, 135, 139, 445, 3389, 5985, 5986).
pub proof fn law_lateral_movement_ports(s: EngineState, pid: u32, c: ConnectionRef, ts: u64)
    ensures
        (exists|j: int|
            0 <= j < connection_drafts(s, pid, c, ts).len() && (#[trigger] connection_drafts(s, pid, c, ts)[j]).rule
                == "lateral_movement"@) <==> (private_address(c.remote.address@) && (c.remote.port == 22
            || c.remote.port == 23 || c.remote.port == 135 || c.remote.port == 139 || c.remote.port == 445
            || c.remote.port == 3389 || c.remote.port == 5985 || c.remote.port == 5986)),
{
    reveal_strlit("lateral_movement");
    reveal_strlit("scan");
    reveal_strlit("beacon");
    reveal_strlit("sensitive_file_network");
    let d = connection_drafts(s, pid, c, ts);
    let ep = endpoint_text(c);
    let dom = opt_string_view(c.domain);
    let n = distinct_count(endpoint_history(s, pid, ts, ep).map_values(|o: (u64, Seq<char>)| o.1));
    let scan: Seq<AlertDraft> = if n >= 10 {
        seq![
            AlertDraft {
                severity: AlertSeverity::High,
                rule: "scan"@,
                summary: "Process touched "@ + decimal(n) + " endpoints in 30 seconds"@,
                connection: Some(c),
                domain: dom,
                evidence: seq!["pid="@ + decimal(pid as nat), "distinct_endpoints="@ + decimal(n)],
            },
        ]
    } else {
        Seq::empty()
    };
    let admin = private_address(c.remote.address@) && admin_port(c.remote.port);
    if admin {
        assert(d[scan.len() as int].rule == "lateral_movement"@);
    } else {
        assert forall|j: int| 0 <= j < d.len() implies (#[trigger] d[j]).rule != "lateral_movement"@ by {
            let r = d[j].rule;
            assert(r == "scan"@ || r == "beacon"@ || r == "sensitive_file_network"@);
        }
    }
}
} // verus!
