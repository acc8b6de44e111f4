//! The decisions the core makes on each incoming event: which stream its
//! bytes belong to, which connection and domain it concerns, what TLS and
//! plaintext reports add to it, and which HTTP messages it completes.
use vstd::prelude::*;
use crate::detection::engine::{is_sensitive_path, sensitive_path};
use crate::dns::cache::{any_selected, expiry, newest, DnsRecord, DnsScope};
use crate::dns::tracker::{pruned, DnsTracker};
use crate::events::{
    clone_opt_process, clone_opt_string, ConnectionRef, EventKind, EventPayload, EventSource, HttpEventData, HttpHeader,
    HttpMessageDirection, PlaintextDirection, ProcessRef, TlsEventData, TraceEvent,
};
use crate::http::stream::{message_view, messages_view, push_spec, HttpMessage, HttpTracker, MessageView};
use crate::http::parser::policy_view;
use crate::http::PayloadDecision;
use crate::network::tracker::{canonical, domain_named, observed};
use crate::process::tracker::{sighted, ProcessTracker};
use crate::capture::strings_view;
use vstd::utf8::encode_utf8;
use crate::network::tracker::{ConnectionRecord, ConnectionTracker};
use crate::tls::tracker::{after_report, report_object, TlsSession, TlsTracker};
use crate::text::{chars_of, decimal, parse_bounded, parse_unsigned, push_decimal, push_str, range_starts_with};

verus! {

/// Decimal text of a signed number.
pub open spec fn signed_decimal(i: int) -> Seq<char> {
    if i < 0 {
        "-"@ + decimal((-i) as nat)
    } else {
        decimal(i as nat)
    }
}

fn push_signed(s: &mut String, i: i32)
    ensures
        final(s)@ == old(s)@ + signed_decimal(i as int),
{
    if i < 0 {
        push_str(s, "-");
        let magnitude: u64 = (-(i as i64)) as u64;
        push_decimal(s, magnitude);
        assert(final(s)@ =~= old(s)@ + signed_decimal(i as int));
    } else {
        push_decimal(s, i as u64);
    }
}

/// The stream a plaintext chunk belongs to: its connection, else its SSL
/// object, else its file descriptor.
pub open spec fn stream_key_spec(e: TraceEvent, pid: u32, ssl_object: u64, fd: Option<i32>) -> Option<Seq<char>> {
    match e.connection {
        Some(c) => Some(c.id@),
        None => if ssl_object != 0 {
            Some("process:"@ + decimal(pid as nat) + ":ssl:"@ + decimal(ssl_object as nat))
        } else {
            match fd {
                Some(f) => Some("process:"@ + decimal(pid as nat) + ":fd:"@ + signed_decimal(f as int)),
                None => None,
            }
        },
    }
}

pub fn http_stream_key(event: &TraceEvent, pid: u32, ssl_object: u64, fd: Option<i32>) -> (r: Option<String>)
    ensures
        crate::events::opt_string_view(r) == stream_key_spec(*event, pid, ssl_object, fd),
{
    match &event.connection {
        Some(c) => Some(c.id.clone()),
        None => {
            if ssl_object != 0 {
                let mut s = String::new();
                push_str(&mut s, "process:");
                push_decimal(&mut s, pid as u64);
                push_str(&mut s, ":ssl:");
                push_decimal(&mut s, ssl_object);
                assert(s@ =~= "process:"@ + decimal(pid as nat) + ":ssl:"@ + decimal(ssl_object as nat));
                Some(s)
            } else {
                match fd {
                    Some(f) => {
                        let mut s = String::new();
                        push_str(&mut s, "process:");
                        push_decimal(&mut s, pid as u64);
                        push_str(&mut s, ":fd:");
                        push_signed(&mut s, f);
                        assert(s@ =~= "process:"@ + decimal(pid as nat) + ":fd:"@ + signed_decimal(f as int));
                        Some(s)
                    },
                    None => None,
                }
            }
        },
    }
}

/// The low 32 bits of a number as a signed 32-bit value.
pub open spec fn low_i32(v: nat) -> i32 {
    let low = v % 0x1_0000_0000;
    if low >= 0x8000_0000 {
        (low - 0x1_0000_0000) as i32
    } else {
        low as i32
    }
}

/// The descriptor a `socket-<n>` connection id encodes for a process: `n`
/// holds the pid in its high 32 bits and the descriptor in its low ones.
pub open spec fn socket_fd(connection_id: Seq<char>, pid: u32) -> Option<i32> {
    if "socket-"@.is_prefix_of(connection_id) {
        match parse_bounded(connection_id.skip(7), 10, u64::MAX as nat) {
            Some(v) => if v / 0x1_0000_0000 == pid as nat {
                Some(low_i32(v))
            } else {
                None
            },
            None => None,
        }
    } else {
        None
    }
}

pub fn fd_from_socket_id(connection_id: &str, pid: u32) -> (r: Option<i32>)
    ensures
        r == socket_fd(connection_id@, pid),
{
    let v = chars_of(connection_id);
    assert(v@.subrange(0, v@.len() as int) =~= connection_id@);
    if !range_starts_with(&v, 0, v.len(), "socket-") {
        return None;
    }
    proof {
        reveal_strlit("socket-");
    }
    assert(v@.subrange(7, v@.len() as int) =~= connection_id@.skip(7));
    let value = match parse_unsigned(&v, 7, v.len(), 10, u64::MAX) {
        Some(x) => x,
        None => {
            return None;
        },
    };
    if value >> 32u64 != pid as u64 {
        assert(value >> 32u64 == value / 0x1_0000_0000) by (bit_vector);
        return None;
    }
    assert(value >> 32u64 == value / 0x1_0000_0000) by (bit_vector);
    let low = value as u32;
    assert(low == value % 0x1_0000_0000) by (bit_vector)
        requires
            low == value as u32,
    ;
    let fd = low as i32;
    proof {
        if low >= 0x8000_0000 {
            assert(fd == (low - 0x1_0000_0000) as i32) by (bit_vector)
                requires
                    fd == low as i32,
                    low >= 0x8000_0000,
            ;
        } else {
            assert(fd == low as i32);
        }
    }
    Some(fd)
}

/// A file event on a path outside system trees that names credentials,
/// keys or secrets.
pub open spec fn relevant_file_event(e: TraceEvent) -> bool {
    match e.payload {
        EventPayload::File { path, .. } => sensitive_path(path@),
        _ => false,
    }
}

pub fn is_security_relevant_file_event(event: &TraceEvent) -> (r: bool)
    ensures
        r == relevant_file_event(*event),
{
    match &event.payload {
        EventPayload::File { path, .. } => is_sensitive_path(path.as_str()),
        _ => false,
    }
}

/// The domain a remote address resolved to for a process: the newest live
/// answer to that process, else to no process in particular, else any.
pub open spec fn resolution(
    m: Map<(Option<u32>, Seq<char>), crate::dns::cache::DnsRecord>,
    pid: Option<u32>,
    address: Seq<char>,
    ts: u64,
    r: Option<String>,
) -> bool {
    if pid matches Some(p) && any_selected(m, DnsScope::Process(p), true, address, ts) {
        r matches Some(d) && exists|k: (Option<u32>, Seq<char>)|
            #[trigger] newest(m, k, DnsScope::Process(pid->0), true, address, ts) && k.1 == d@
    } else if any_selected(m, DnsScope::Unscoped, true, address, ts) {
        r matches Some(d) && exists|k: (Option<u32>, Seq<char>)|
            #[trigger] newest(m, k, DnsScope::Unscoped, true, address, ts) && k.1 == d@
    } else if any_selected(m, DnsScope::Any, true, address, ts) {
        r matches Some(d) && exists|k: (Option<u32>, Seq<char>)|
            #[trigger] newest(m, k, DnsScope::Any, true, address, ts) && k.1 == d@
    } else {
        r is None
    }
}

/// The domain a remote address resolved to for a process: an answer to that
/// process, else one to no process in particular, else any answer.
pub fn resolve_domain(dns: &DnsTracker, pid: Option<u32>, address: &str, timestamp_ns: u64) -> (r: Option<String>)
    requires
        dns.wf(),
    ensures
        resolution(dns.cache_view().records(), pid, address@, timestamp_ns, r),
{
    let scoped = match pid {
        Some(p) => dns.domain_for_process_address(p, address, timestamp_ns),
        None => None,
    };
    if scoped.is_some() {
        return scoped;
    }
    let unscoped = dns.domain_for_unscoped_address(address, timestamp_ns);
    if unscoped.is_some() {
        return unscoped;
    }
    dns.domain_for_address(address, timestamp_ns)
}


/// `socket-<n>`: the connection id the kernel gives a process's socket,
/// with the pid in the high 32 bits of `n` and the descriptor in the low.
pub open spec fn socket_name(pid: u32, fd: i32) -> Seq<char> {
    "socket-"@ + decimal((pid as nat) * 0x1_0000_0000 + fd as nat)
}

/// The connection a process's descriptor names, if it is known.
pub open spec fn fd_connection(conns: Map<Seq<char>, ConnectionRecord>, pid: u32, fd: Option<i32>) -> Option<String> {
    match fd {
        Some(f) => if f >= 0 && conns.contains_key(socket_name(pid, f)) {
            Some(conns[socket_name(pid, f)].connection.id)
        } else {
            None
        },
        None => None,
    }
}

pub open spec fn or_else<T>(a: Option<T>, b: Option<T>) -> Option<T> {
    match a {
        Some(x) => Some(x),
        None => b,
    }
}

pub open spec fn event_connection_id(e: TraceEvent) -> Option<String> {
    match e.connection {
        Some(c) => Some(c.id),
        None => None,
    }
}

/// The connection of a known id, else the event's own.
pub open spec fn attach_connection(
    conns: Map<Seq<char>, ConnectionRecord>,
    id: Option<String>,
    current: Option<ConnectionRef>,
) -> Option<ConnectionRef> {
    match id {
        Some(i) => if conns.contains_key(i@) {
            Some(conns[i@].connection)
        } else {
            current
        },
        None => current,
    }
}

/// The session a process reported last, if it is on file.
pub open spec fn latest_session(
    sessions: Map<(u32, u64), TlsSession>,
    latest: Map<u32, (u64, u64)>,
    pid: u32,
) -> Option<TlsSession> {
    if latest.contains_key(pid) && sessions.contains_key((pid, latest[pid].0)) {
        Some(sessions[(pid, latest[pid].0)])
    } else {
        None
    }
}

pub open spec fn session_at(sessions: Map<(u32, u64), TlsSession>, pid: u32, ssl: u64) -> Option<TlsSession> {
    if sessions.contains_key((pid, ssl)) {
        Some(sessions[(pid, ssl)])
    } else {
        None
    }
}

/// The connection a TLS report is about: the one its descriptor names, else
/// the one the process's last session was linked to, else the event's.
pub open spec fn tls_link(
    conns: Map<Seq<char>, ConnectionRecord>,
    sessions: Map<(u32, u64), TlsSession>,
    latest: Map<u32, (u64, u64)>,
    e: TraceEvent,
    pid: u32,
    fd: Option<i32>,
) -> Option<String> {
    or_else(
        fd_connection(conns, pid, fd),
        or_else(
            match latest_session(sessions, latest, pid) {
                Some(s) => s.connection_id,
                None => None,
            },
            event_connection_id(e),
        ),
    )
}

/// A TLS event after the core applied it: the session it was filed under
/// fills in what the report left out, and the event carries the connection
/// it is about.
pub open spec fn tls_applied(
    conns: Map<Seq<char>, ConnectionRecord>,
    sessions: Map<(u32, u64), TlsSession>,
    latest: Map<u32, (u64, u64)>,
    e: TraceEvent,
) -> TraceEvent {
    match (e.pid, e.payload) {
        (Some(pid), EventPayload::Tls { ssl_object, fd, sni, version }) => {
            let link = tls_link(conns, sessions, latest, e, pid, fd);
            let ssl = report_object(latest, pid, ssl_object);
            let after = after_report(
                sessions,
                pid,
                ssl_object,
                ssl,
                TlsEventData { ssl_object, fd, sni, version },
                link,
                e.timestamp_ns,
            );
            let session = session_at(after, pid, ssl);
            let payload = EventPayload::Tls {
                ssl_object: if ssl_object == 0 {
                    ssl
                } else {
                    ssl_object
                },
                fd: match session {
                    Some(s) => or_else(fd, s.fd),
                    None => fd,
                },
                sni: match session {
                    Some(s) => or_else(sni, s.server_name),
                    None => sni,
                },
                version: match session {
                    Some(s) => or_else(version, s.version),
                    None => version,
                },
            };
            let link2 = match link {
                Some(l) => Some(l),
                None => match session {
                    Some(s) => s.connection_id,
                    None => None,
                },
            };
            TraceEvent { payload, connection: attach_connection(conns, link2, e.connection), ..e }
        },
        _ => e,
    }
}

/// The connection record of a process's descriptor, by its `socket-<n>` id.
fn connection_for_fd(connections: &ConnectionTracker, pid: u32, fd: Option<i32>) -> (r: Option<String>)
    requires
        connections.wf(),
    ensures
        r == fd_connection(connections.records(), pid, fd),
{
    match fd {
        Some(f) => {
            if f < 0 {
                return None;
            }
            let mut id = String::new();
            push_str(&mut id, "socket-");
            let fu: u32 = f as u32;
            let wide: u64 = pid as u64;
            let low: u64 = fu as u64;
            let n: u64 = (wide << 32u64) | low;
            assert(n == wide * 0x1_0000_0000 + low) by (bit_vector)
                requires
                    n == (wide << 32u64) | low,
                    wide < 0x1_0000_0000,
                    low < 0x1_0000_0000,
            ;
            assert(low == f);
            push_decimal(&mut id, n);
            assert(id@ =~= socket_name(pid, f));
            match connections.get(id.as_str()) {
                Some(record) => Some(record.connection.id.clone()),
                None => None,
            }
        },
        None => None,
    }
}

/// Applies a TLS report: files it with the process's sessions, fills in the
/// event from the session, and attaches the connection it is about.
pub fn apply_tls_event(tls: &mut TlsTracker, connections: &ConnectionTracker, event: &mut TraceEvent)
    requires
        old(tls).wf(),
        connections.wf(),
    ensures
        final(tls).wf(),
        *final(event) == tls_applied(connections.records(), old(tls).sessions_view(), old(tls).latest_view(), *old(event)),
        match (old(event).pid, old(event).payload) {
            (Some(pid), EventPayload::Tls { ssl_object, fd, sni, version }) => {
                let link = tls_link(
                    connections.records(),
                    old(tls).sessions_view(),
                    old(tls).latest_view(),
                    *old(event),
                    pid,
                    fd,
                );
                let ssl = report_object(old(tls).latest_view(), pid, ssl_object);
                &&& final(tls).sessions_view() == after_report(
                    old(tls).sessions_view(),
                    pid,
                    ssl_object,
                    ssl,
                    TlsEventData { ssl_object, fd, sni, version },
                    link,
                    old(event).timestamp_ns,
                )
                &&& final(tls).latest_view() == old(tls).latest_view().insert(pid, (ssl, old(event).timestamp_ns))
            },
            _ => final(tls).sessions_view() == old(tls).sessions_view() && final(tls).latest_view()
                == old(tls).latest_view(),
        },
{
    let pid = match event.pid {
        Some(p) => p,
        None => {
            return;
        },
    };
    let (ssl_object, fd, sni, version) = match &event.payload {
        EventPayload::Tls { ssl_object, fd, sni, version } => (*ssl_object, *fd, clone_opt_string(sni), clone_opt_string(version)),
        _ => {
            return;
        },
    };
    let fd_link = connection_for_fd(connections, pid, fd);
    let previous = match tls.latest_for_process(pid) {
        Some(session) => clone_opt_string(&session.connection_id),
        None => None,
    };
    let own = match &event.connection {
        Some(c) => Some(c.id.clone()),
        None => None,
    };
    let link = match fd_link {
        Some(l) => Some(l),
        None => match previous {
            Some(l) => Some(l),
            None => own,
        },
    };
    let data = TlsEventData { ssl_object, fd, sni: clone_opt_string(&sni), version: clone_opt_string(&version) };
    let ssl = tls.observe_event(pid, data, clone_opt_string(&link), event.timestamp_ns);
    let (new_fd, new_sni, new_version, session_link) = match tls.get(pid, ssl) {
        Some(session) => (
            match fd {
                Some(f) => Some(f),
                None => session.fd,
            },
            match sni {
                Some(x) => Some(x),
                None => clone_opt_string(&session.server_name),
            },
            match version {
                Some(x) => Some(x),
                None => clone_opt_string(&session.version),
            },
            clone_opt_string(&session.connection_id),
        ),
        None => (fd, sni, version, None),
    };
    event.payload = EventPayload::Tls {
        ssl_object: if ssl_object == 0 {
            ssl
        } else {
            ssl_object
        },
        fd: new_fd,
        sni: new_sni,
        version: new_version,
    };
    let link2 = match link {
        Some(l) => Some(l),
        None => session_link,
    };
    match link2 {
        Some(id) => match connections.get(id.as_str()) {
            Some(record) => {
                event.connection = Some(record.connection.duplicate());
            },
            None => {},
        },
        None => {},
    }
}


/// The SSL object and descriptor of a plaintext or captured chunk.
pub open spec fn chunk_handle(p: EventPayload) -> Option<(u64, Option<i32>, PlaintextDirection)> {
    match p {
        EventPayload::Plaintext { ssl_object, fd, direction, .. } => Some((ssl_object, fd, direction)),
        EventPayload::HttpCapture { ssl_object, fd, direction, .. } => Some((ssl_object, fd, direction)),
        _ => None,
    }
}

/// The payload with its SSL object and descriptor filled in where unknown.
pub open spec fn with_handle(p: EventPayload, ssl: u64, fd: Option<i32>) -> EventPayload {
    match p {
        EventPayload::Plaintext {
            ssl_object,
            fd: f,
            direction,
            data,
            raw_data,
            bytes,
            truncated,
            payload_skipped,
            payload_skip_reason,
        } => EventPayload::Plaintext {
            ssl_object: if ssl_object == 0 {
                ssl
            } else {
                ssl_object
            },
            fd: or_else(f, fd),
            direction,
            data,
            raw_data,
            bytes,
            truncated,
            payload_skipped,
            payload_skip_reason,
        },
        EventPayload::HttpCapture {
            ssl_object,
            fd: f,
            direction,
            data,
            bytes,
            truncated,
            payload_skipped,
            payload_skip_reason,
        } => EventPayload::HttpCapture {
            ssl_object: if ssl_object == 0 {
                ssl
            } else {
                ssl_object
            },
            fd: or_else(f, fd),
            direction,
            data,
            bytes,
            truncated,
            payload_skipped,
            payload_skip_reason,
        },
        _ => p,
    }
}

/// A plaintext chunk after the core applied it: the process's session fills
/// in its SSL object and descriptor, and it carries its connection (by its
/// descriptor, else its session's link, else its own).
pub open spec fn plaintext_applied(
    conns: Map<Seq<char>, ConnectionRecord>,
    sessions: Map<(u32, u64), TlsSession>,
    latest: Map<u32, (u64, u64)>,
    e: TraceEvent,
) -> TraceEvent {
    match (e.pid, chunk_handle(e.payload)) {
        (Some(pid), Some((ssl_object, fd, _))) => {
            let ssl = if ssl_object != 0 {
                ssl_object
            } else {
                match latest_session(sessions, latest, pid) {
                    Some(s) => s.ssl_object,
                    None => 0,
                }
            };
            let session = session_at(sessions, pid, ssl);
            let effective_fd = or_else(
                fd,
                match session {
                    Some(s) => s.fd,
                    None => None,
                },
            );
            let link = or_else(
                fd_connection(conns, pid, effective_fd),
                or_else(
                    match session {
                        Some(s) => s.connection_id,
                        None => None,
                    },
                    event_connection_id(e),
                ),
            );
            TraceEvent {
                payload: with_handle(e.payload, ssl, effective_fd),
                connection: attach_connection(conns, link, e.connection),
                ..e
            }
        },
        _ => e,
    }
}

pub fn apply_plaintext_event(tls: &TlsTracker, connections: &ConnectionTracker, event: &mut TraceEvent)
    requires
        tls.wf(),
        connections.wf(),
    ensures
        *final(event) == plaintext_applied(connections.records(), tls.sessions_view(), tls.latest_view(), *old(event)),
{
    let pid = match event.pid {
        Some(p) => p,
        None => {
            return;
        },
    };
    let (ssl_object, fd) = match &event.payload {
        EventPayload::Plaintext { ssl_object, fd, .. } => (*ssl_object, *fd),
        EventPayload::HttpCapture { ssl_object, fd, .. } => (*ssl_object, *fd),
        _ => {
            return;
        },
    };
    let ssl = if ssl_object != 0 {
        ssl_object
    } else {
        match tls.latest_for_process(pid) {
            Some(session) => session.ssl_object,
            None => 0,
        }
    };
    let (session_fd, session_link) = match tls.get(pid, ssl) {
        Some(session) => (session.fd, clone_opt_string(&session.connection_id)),
        None => (None, None),
    };
    let effective_fd = match fd {
        Some(f) => Some(f),
        None => session_fd,
    };
    let fd_link = connection_for_fd(connections, pid, effective_fd);
    let own = match &event.connection {
        Some(c) => Some(c.id.clone()),
        None => None,
    };
    let link = match fd_link {
        Some(l) => Some(l),
        None => match session_link {
            Some(l) => Some(l),
            None => own,
        },
    };
    match &mut event.payload {
        EventPayload::Plaintext { ssl_object, fd, .. } => {
            if *ssl_object == 0 {
                *ssl_object = ssl;
            }
            if fd.is_none() {
                *fd = effective_fd;
            }
        },
        EventPayload::HttpCapture { ssl_object, fd, .. } => {
            if *ssl_object == 0 {
                *ssl_object = ssl;
            }
            if fd.is_none() {
                *fd = effective_fd;
            }
        },
        _ => {},
    }
    match link {
        Some(id) => match connections.get(id.as_str()) {
            Some(record) => {
                event.connection = Some(record.connection.duplicate());
            },
            None => {},
        },
        None => {},
    }
}

/// The bytes of a plaintext or captured chunk and its stream.
pub open spec fn http_input(e: TraceEvent) -> Option<(u32, Seq<char>, PlaintextDirection, Seq<u8>, bool)> {
    match e.pid {
        Some(pid) => match e.payload {
            EventPayload::Plaintext { ssl_object, fd, direction, data, truncated, .. } => match stream_key_spec(
                e,
                pid,
                ssl_object,
                fd,
            ) {
                Some(key) => Some((pid, key, direction, encode_utf8(data@), truncated)),
                None => None,
            },
            EventPayload::HttpCapture { ssl_object, fd, direction, data, truncated, .. } => match stream_key_spec(
                e,
                pid,
                ssl_object,
                fd,
            ) {
                Some(key) => Some((pid, key, direction, data@, truncated)),
                None => None,
            },
            _ => None,
        },
        None => None,
    }
}

pub open spec fn header_pairs(h: Seq<HttpHeader>) -> Seq<(Seq<char>, Seq<char>)> {
    h.map_values(|x: HttpHeader| (x.name@, x.value@))
}

/// An HTTP event payload describes a reassembled message.
pub open spec fn describes(p: EventPayload, m: MessageView) -> bool {
    match p {
        EventPayload::Http {
            stream_id,
            direction,
            version,
            method,
            target,
            host,
            status,
            reason,
            headers,
            content_length,
            body_preview,
            body_bytes,
            body_truncated,
            payload_skipped,
            payload_skip_reason,
        } => {
            let body = match m {
                MessageView::Request(r) => r.body,
                MessageView::Response(r) => r.body,
            };
            &&& stream_id is None
            &&& version@ == "HTTP/1.1"@
            &&& opt_view(body_preview) == body.preview
            &&& body_bytes == body.bytes
            &&& body_truncated == body.truncated
            &&& payload_skipped == body.skipped
            &&& opt_view(payload_skip_reason) == body.skip_reason
            &&& match m {
                MessageView::Request(r) => {
                    &&& direction == HttpMessageDirection::Request
                    &&& opt_view(method) == Some(r.method)
                    &&& opt_view(target) == Some(r.path)
                    &&& opt_view(host) == r.host
                    &&& status is None
                    &&& reason is None
                    &&& header_pairs(headers@) == r.headers
                    &&& content_length == r.content_length
                },
                MessageView::Response(r) => {
                    &&& direction == HttpMessageDirection::Response
                    &&& method is None
                    &&& target is None
                    &&& host is None
                    &&& status == Some(r.status)
                    &&& opt_view(reason) == (if r.reason.len() == 0 {
                        None
                    } else {
                        Some(r.reason)
                    })
                    &&& header_pairs(headers@) == r.headers
                    &&& content_length == r.content_length
                },
            }
        },
        _ => false,
    }
}

pub open spec fn opt_view(s: Option<String>) -> Option<Seq<char>> {
    crate::events::opt_string_view(s)
}

/// The HTTP event a message derived from a chunk becomes.
pub open spec fn derived_event(r: TraceEvent, e: TraceEvent, pid: u32, sequence: nat, m: MessageView) -> bool {
    &&& r.id@ == e.id@ + "-http-"@ + decimal(sequence)
    &&& r.source == EventSource::Core
    &&& r.kind == EventKind::Http
    &&& r.pid == Some(pid)
    &&& r.timestamp_ns == e.timestamp_ns
    &&& r.process == e.process
    &&& r.connection == e.connection
    &&& r.instrumentation is None
    &&& describes(r.payload, m)
}

fn copy_headers(h: &Vec<(String, String)>) -> (r: Vec<HttpHeader>)
    ensures
        header_pairs(r@) == crate::http::policy::headers_view(h@),
{
    let mut r: Vec<HttpHeader> = Vec::new();
    let mut i: usize = 0;
    while i < h.len()
        invariant
            i <= h@.len(),
            header_pairs(r@) == crate::http::policy::headers_view(h@.take(i as int)),
        decreases h.len() - i,
    {
        let ghost before = r@;
        r.push(HttpHeader { name: h[i].0.clone(), value: h[i].1.clone() });
        assert(header_pairs(r@) =~= header_pairs(before).push((h@[i as int].0@, h@[i as int].1@)));
        assert(crate::http::policy::headers_view(h@.take(i + 1)) =~= crate::http::policy::headers_view(
            h@.take(i as int),
        ).push((h@[i as int].0@, h@[i as int].1@)));
        i += 1;
    }
    assert(h@.take(i as int) =~= h@);
    r
}

/// The event data of a reassembled message.
fn message_data(message: HttpMessage) -> (r: HttpEventData)
    ensures
        describes(crate::events::http_payload(r), message_view(message)),
{
    match message {
        HttpMessage::Request(request) => {
            let headers = copy_headers(&request.headers);
            HttpEventData {
                stream_id: None,
                direction: HttpMessageDirection::Request,
                version: request.version.as_str().to_string(),
                method: Some(request.method),
                target: Some(request.path),
                host: request.host,
                status: None,
                reason: None,
                headers,
                content_length: request.content_length,
                body_preview: request.body.preview,
                body_bytes: request.body.bytes,
                body_truncated: request.body.truncated,
                payload_skipped: request.body.skipped,
                payload_skip_reason: request.body.skip_reason,
            }
        },
        HttpMessage::Response(response) => {
            let headers = copy_headers(&response.headers);
            let empty_reason = chars_of(response.reason.as_str()).len() == 0;
            HttpEventData {
                stream_id: None,
                direction: HttpMessageDirection::Response,
                version: response.version.as_str().to_string(),
                method: None,
                target: None,
                host: None,
                status: Some(response.status),
                reason: if empty_reason {
                    None
                } else {
                    Some(response.reason)
                },
                headers,
                content_length: response.content_length,
                body_preview: response.body.preview,
                body_bytes: response.body.bytes,
                body_truncated: response.body.truncated,
                payload_skipped: response.body.skipped,
                payload_skip_reason: response.body.skip_reason,
            }
        },
    }
}

/// Feeds a plaintext or captured chunk to its stream's reassembler and
/// returns an HTTP event for each message it completes.
pub fn derive_http_events(http: &mut HttpTracker, event: &TraceEvent) -> (r: Vec<TraceEvent>)
    requires
        old(http).wf(),
    ensures
        final(http).wf(),
        match http_input(*event) {
            Some((pid, key, direction, bytes, truncated)) => {
                let (stream, messages) = push_spec(old(http).stream_or_fresh(key), direction, bytes, truncated);
                &&& final(http).streams_view() == old(http).streams_view().insert(key, stream)
                &&& r@.len() == messages.len()
                &&& forall|i: int| 0 <= i < r@.len() ==> derived_event(#[trigger] r@[i], *event, pid, i as nat, messages[i])
            },
            None => r@.len() == 0 && final(http).streams_view() == old(http).streams_view(),
        },
{
    let pid = match event.pid {
        Some(p) => p,
        None => {
            return Vec::new();
        },
    };
    let (ssl_object, fd, direction, truncated) = match &event.payload {
        EventPayload::Plaintext { ssl_object, fd, direction, truncated, .. } => (*ssl_object, *fd, *direction, *truncated),
        EventPayload::HttpCapture { ssl_object, fd, direction, truncated, .. } => (*ssl_object, *fd, *direction, *truncated),
        _ => {
            return Vec::new();
        },
    };
    let key = match http_stream_key(event, pid, ssl_object, fd) {
        Some(k) => k,
        None => {
            return Vec::new();
        },
    };
    let messages = match &event.payload {
        EventPayload::Plaintext { data, .. } => http.observe(key.as_str(), direction, data.as_str().as_bytes(), truncated),
        EventPayload::HttpCapture { data, .. } => http.observe(key.as_str(), direction, data.as_slice(), truncated),
        _ => Vec::new(),
    };
    let ghost mv = messages_view(messages@);
    let mut out: Vec<TraceEvent> = Vec::new();
    let mut rest = messages;
    let mut sequence: usize = 0;
    let total = rest.len();
    while rest.len() > 0
        invariant
            sequence + rest@.len() == total,
            total == mv.len(),
            messages_view(rest@) == mv.skip(sequence as int),
            out@.len() == sequence,
            forall|i: int| 0 <= i < out@.len() ==> derived_event(#[trigger] out@[i], *event, pid, i as nat, mv[i]),
        decreases rest.len(),
    {
        let ghost before = rest@;
        let message = rest.remove(0);
        proof {
            assert(messages_view(before)[0] == message_view(before[0]));
            assert(mv.skip(sequence as int)[0] == mv[sequence as int]);
            assert(message_view(message) == mv[sequence as int]);
            assert(messages_view(rest@) =~= messages_view(before).drop_first());
            assert(messages_view(rest@) =~= mv.skip(sequence + 1));
        }
        let data = message_data(message);
        let mut derived = TraceEvent::http_with_sequence(EventSource::Core, pid, data, event.timestamp_ns, sequence);
        let mut id = event.id.clone();
        push_str(&mut id, "-http-");
        push_decimal(&mut id, sequence as u64);
        assert(id@ =~= event.id@ + "-http-"@ + decimal(sequence as nat));
        derived.id = id;
        derived.process = clone_opt_process(&event.process);
        derived.connection = crate::events::clone_opt_connection(&event.connection);
        out.push(derived);
        sequence += 1;
    }
    out
}

/// The reason a chunk's stream stopped capturing its direction, if it did.
pub open spec fn skip_reason(
    streams: Map<Seq<char>, crate::http::stream::StreamView>,
    e: TraceEvent,
) -> Option<Seq<char>> {
    match (e.pid, chunk_handle(e.payload)) {
        (Some(pid), Some((ssl_object, fd, direction))) => match stream_key_spec(e, pid, ssl_object, fd) {
            Some(key) => if streams.contains_key(key) {
                match direction {
                    PlaintextDirection::Write => match streams[key].request.policy {
                        Some(Some(reason)) => Some(reason),
                        _ => None,
                    },
                    PlaintextDirection::Read => match streams[key].response.policy {
                        Some(Some(reason)) => Some(reason),
                        _ => None,
                    },
                }
            } else {
                None
            },
            None => None,
        },
        _ => None,
    }
}

/// The chunk's payload with its data dropped and the skip recorded.
pub open spec fn skipped_payload(p0: EventPayload, p1: EventPayload, reason: Seq<char>) -> bool {
    match (p0, p1) {
        (
            EventPayload::Plaintext { ssl_object: s0, fd: f0, direction: r0, raw_data: w0, bytes: b0, truncated: t0, .. },
            EventPayload::Plaintext {
                ssl_object,
                fd,
                direction,
                data,
                raw_data,
                bytes,
                truncated,
                payload_skipped,
                payload_skip_reason,
            },
        ) => {
            &&& data@.len() == 0
            &&& payload_skipped
            &&& opt_view(payload_skip_reason) == Some(reason)
            &&& ssl_object == s0 && fd == f0 && direction == r0 && raw_data == w0 && bytes == b0 && truncated == t0
        },
        (
            EventPayload::HttpCapture { ssl_object: s0, fd: f0, direction: r0, bytes: b0, truncated: t0, .. },
            EventPayload::HttpCapture {
                ssl_object,
                fd,
                direction,
                data,
                bytes,
                truncated,
                payload_skipped,
                payload_skip_reason,
            },
        ) => {
            &&& data@.len() == 0
            &&& payload_skipped
            &&& opt_view(payload_skip_reason) == Some(reason)
            &&& ssl_object == s0 && fd == f0 && direction == r0 && bytes == b0 && truncated == t0
        },
        _ => false,
    }
}

/// Clears the data of a chunk whose stream skips its payload, and says why.
pub fn apply_payload_policy(http: &HttpTracker, event: &mut TraceEvent)
    requires
        http.wf(),
    ensures
        skip_reason(http.streams_view(), *old(event)) is None ==> *final(event) == *old(event),
        skip_reason(http.streams_view(), *old(event)) matches Some(reason) ==> skipped_payload(
            old(event).payload,
            final(event).payload,
            reason,
        ) && *final(event) == (TraceEvent { payload: final(event).payload, ..*old(event) }),
{
    let pid = match event.pid {
        Some(p) => p,
        None => {
            return;
        },
    };
    let (ssl_object, fd, direction) = match &event.payload {
        EventPayload::Plaintext { ssl_object, fd, direction, .. } => (*ssl_object, *fd, *direction),
        EventPayload::HttpCapture { ssl_object, fd, direction, .. } => (*ssl_object, *fd, *direction),
        _ => {
            return;
        },
    };
    let key = match http_stream_key(event, pid, ssl_object, fd) {
        Some(k) => k,
        None => {
            return;
        },
    };
    let reason = match http.payload_policy(key.as_str(), direction) {
        Some(PayloadDecision::Skip(reason)) => reason,
        _ => {
            return;
        },
    };
    match &mut event.payload {
        EventPayload::Plaintext { data, payload_skipped, payload_skip_reason, .. } => {
            *data = String::new();
            *payload_skipped = true;
            *payload_skip_reason = Some(reason.to_string());
        },
        EventPayload::HttpCapture { data, payload_skipped, payload_skip_reason, .. } => {
            *data = Vec::new();
            *payload_skipped = true;
            *payload_skip_reason = Some(reason.to_string());
        },
        _ => {},
    }
}


/// The sessions after linking a process's descriptor to a connection.
pub open spec fn fd_linked(
    before: Map<(u32, u64), TlsSession>,
    after: Map<(u32, u64), TlsSession>,
    pid: u32,
    fd: i32,
    id: Seq<char>,
) -> bool {
    &&& after.dom() == before.dom()
    &&& forall|k: (u32, u64)| #[trigger]
        after.contains_key(k) ==> if before[k].process_id == pid && before[k].fd == Some(fd) {
            after[k].connection_id matches Some(c) && c@ == id && after[k] == (TlsSession {
                connection_id: after[k].connection_id,
                ..before[k]
            })
        } else {
            after[k] == before[k]
        }
}

/// The process a connection event is about: its own, else the recorded one.
pub open spec fn event_process(e: TraceEvent, processes: Map<u32, crate::process::tracker::ProcessRecord>) -> Option<ProcessRef> {
    match e.process {
        Some(p) => Some(p),
        None => match e.pid {
            Some(pid) => if processes.contains_key(pid) {
                Some(processes[pid].identity)
            } else {
                None
            },
            None => None,
        },
    }
}

/// What applying a connection event did, given the domain DNS gave for it
/// and the id it was filed under.
pub open spec fn connection_applied(
    dns: Map<(Option<u32>, Seq<char>), crate::dns::cache::DnsRecord>,
    processes: Map<u32, crate::process::tracker::ProcessRecord>,
    conns0: Map<Seq<char>, ConnectionRecord>,
    conns1: Map<Seq<char>, ConnectionRecord>,
    tls0: Map<(u32, u64), TlsSession>,
    tls1: Map<(u32, u64), TlsSession>,
    e0: TraceEvent,
    e1: TraceEvent,
    resolved: Option<String>,
    cid: String,
) -> bool {
    match e0.connection {
        Some(c0) => {
            let c1 = ConnectionRef {
                domain: if c0.domain is Some {
                    c0.domain
                } else {
                    resolved
                },
                ..c0
            };
            let filed = ConnectionRef { id: cid, ..c1 };
            &&& (c0.domain is None ==> resolution(dns, e0.pid, c0.remote.address@, e0.timestamp_ns, resolved))
            &&& canonical(conns0, e0.pid, c1, cid@)
            &&& conns1 == observed(conns0, e0.pid, event_process(e0, processes), c1, e0.timestamp_ns, cid@)
            &&& e1 == (TraceEvent {
                connection: Some(filed),
                payload: EventPayload::Connection { connection: filed },
                ..e0
            })
            &&& match e0.pid {
                Some(pid) => match socket_fd(cid@, pid) {
                    Some(fd) => fd_linked(tls0, tls1, pid, fd, cid@),
                    None => tls1 == tls0,
                },
                None => tls1 == tls0,
            }
        },
        None => false,
    }
}

/// Applies a connection event: names its domain from DNS when it has none,
/// files it with the connections (under the id of a record it continues),
/// links the process's TLS sessions on its descriptor, and makes the event
/// carry the filed connection.
pub fn apply_connection_event(
    event: &mut TraceEvent,
    dns: &DnsTracker,
    processes: &ProcessTracker,
    connections: &mut ConnectionTracker,
    tls: &mut TlsTracker,
)
    requires
        dns.wf(),
        processes.wf(),
        old(connections).wf(),
        old(tls).wf(),
    ensures
        final(connections).wf(),
        final(tls).wf(),
        final(tls).latest_view() == old(tls).latest_view(),
        old(event).connection is None ==> *final(event) == *old(event) && final(connections).records()
            == old(connections).records() && final(tls).sessions_view() == old(tls).sessions_view(),
        old(event).connection is Some ==> exists|resolved: Option<String>, cid: String|
            #[trigger] connection_applied(
                dns.cache_view().records(),
                processes.records(),
                old(connections).records(),
                final(connections).records(),
                old(tls).sessions_view(),
                final(tls).sessions_view(),
                *old(event),
                *final(event),
                resolved,
                cid,
            ),
{
    let mut connection = match &event.connection {
        Some(c) => c.duplicate(),
        None => {
            return;
        },
    };
    let ghost c0 = connection;
    let resolved = if connection.domain.is_none() {
        resolve_domain(dns, event.pid, connection.remote.address.as_str(), event.timestamp_ns)
    } else {
        None
    };
    if connection.domain.is_none() {
        connection.domain = clone_opt_string(&resolved);
    }
    let ghost c1 = connection;
    let process = match &event.process {
        Some(p) => Some(p.duplicate()),
        None => match event.pid {
            Some(pid) => match processes.get(pid) {
                Some(record) => Some(record.identity.duplicate()),
                None => None,
            },
            None => None,
        },
    };
    let cid = connections.observe(event.pid, process, connection.duplicate(), event.timestamp_ns);
    match event.pid {
        Some(pid) => match fd_from_socket_id(cid.as_str(), pid) {
            Some(fd) => tls.link_connection_for_fd(pid, fd, cid.as_str()),
            None => {},
        },
        None => {},
    }
    connection.id = cid.clone();
    let ghost filed = connection;
    event.connection = Some(connection.duplicate());
    event.payload = EventPayload::Connection { connection };
    proof {
        assert(c1 == (ConnectionRef { domain: if c0.domain is Some { c0.domain } else { resolved }, ..c0 }));
        assert(connection_applied(
            dns.cache_view().records(),
            processes.records(),
            old(connections).records(),
            final(connections).records(),
            old(tls).sessions_view(),
            final(tls).sessions_view(),
            *old(event),
            *final(event),
            resolved,
            cid,
        ));
    }
}

/// The DNS answers after an answer to `pid` (or to no known process) for
/// `domain` at `ts`.
pub open spec fn answered(
    before: Map<(Option<u32>, Seq<char>), DnsRecord>,
    pid: Option<u32>,
    domain: Seq<char>,
    addresses: Seq<Seq<char>>,
    ttl_secs: u32,
    ts: u64,
) -> Map<(Option<u32>, Seq<char>), DnsRecord> {
    pruned(
        before.insert(
            (pid, domain),
            DnsRecord { addresses, observed_at_ns: ts, expires_at_ns: expiry(ts, ttl_secs) },
        ),
        ts,
    )
}

/// Applies a DNS answer: remembers it (for its process when known), and
/// names the domain of the connections to its addresses: the process's own
/// ones, then any without a domain yet. Other events change nothing.
pub fn apply_dns_response(event: &TraceEvent, dns: &mut DnsTracker, connections: &mut ConnectionTracker)
    requires
        old(dns).wf(),
        old(connections).wf(),
    ensures
        final(dns).wf(),
        final(connections).wf(),
        match (event.kind, event.payload) {
            (EventKind::DnsResponse, EventPayload::Dns { domain, addresses, ttl_secs, .. }) => {
                &&& final(dns).cache_view().records() == answered(
                    old(dns).cache_view().records(),
                    event.pid,
                    domain@,
                    strings_view(addresses@),
                    ttl_secs,
                    event.timestamp_ns,
                )
                &&& if addresses@.len() == 0 {
                    final(connections).records() == old(connections).records()
                } else {
                    exists|mid: Map<Seq<char>, ConnectionRecord>|
                        #[trigger] domain_named(mid, final(connections).records(), None, strings_view(addresses@), domain@)
                            && match event.pid {
                            Some(p) => domain_named(
                                old(connections).records(),
                                mid,
                                Some(p),
                                strings_view(addresses@),
                                domain@,
                            ),
                            None => mid == old(connections).records(),
                        }
                }
            },
            _ => final(dns).cache_view().records() == old(dns).cache_view().records()
                && final(connections).records() == old(connections).records(),
        },
{
    if event.kind != EventKind::DnsResponse {
        return;
    }
    match &event.payload {
        EventPayload::Dns { domain, addresses, ttl_secs, .. } => {
            match event.pid {
                Some(pid) => dns.observe_response_for_process(
                    pid,
                    domain.as_str(),
                    crate::events::clone_strings(addresses),
                    *ttl_secs,
                    event.timestamp_ns,
                ),
                None => dns.observe_response(
                    domain.as_str(),
                    crate::events::clone_strings(addresses),
                    *ttl_secs,
                    event.timestamp_ns,
                ),
            }
            if addresses.len() > 0 {
                let ghost before = connections.records();
                if let Some(pid) = event.pid {
                    connections.set_domain(pid, addresses.as_slice(), domain.as_str());
                }
                let ghost mid = connections.records();
                connections.set_domain_for_addresses(addresses.as_slice(), domain.as_str());
                assert(domain_named(mid, connections.records(), None, strings_view(addresses@), domain@));
            }
        },
        _ => {},
    }
}

/// The process an event is attributed to: its own, else the recorded one,
/// else (outside observer mode) the one read for its process id.
pub open spec fn attributed_process(
    e: TraceEvent,
    processes: Map<u32, crate::process::tracker::ProcessRecord>,
    observer_mode: bool,
    read: Option<ProcessRef>,
) -> Option<ProcessRef> {
    match e.process {
        Some(p) => Some(p),
        None => match e.pid {
            Some(pid) => if processes.contains_key(pid) {
                Some(processes[pid].identity)
            } else if observer_mode {
                None
            } else {
                read
            },
            None => None,
        },
    }
}

/// Attributes an event to its process and records the process as seen
/// (except on its exit). `read` is the process read for the event's process
/// id, used where neither the event nor the process table has it.
pub fn note_event_process(
    event: &mut TraceEvent,
    processes: &mut ProcessTracker,
    observer_mode: bool,
    read: Option<ProcessRef>,
)
    requires
        old(processes).wf(),
    ensures
        final(processes).wf(),
        *final(event) == (TraceEvent {
            process: attributed_process(*old(event), old(processes).records(), observer_mode, read),
            ..*old(event)
        }),
        final(processes).records() == match final(event).process {
            Some(p) => if old(event).kind != EventKind::ProcessExit {
                sighted(old(processes).records(), p, old(event).timestamp_ns)
            } else {
                old(processes).records()
            },
            None => old(processes).records(),
        },
{
    if event.process.is_none() {
        event.process = match event.pid {
            Some(pid) => match processes.get(pid) {
                Some(record) => Some(record.identity.duplicate()),
                None => if observer_mode {
                    None
                } else {
                    read
                },
            },
            None => None,
        };
    }
    if event.kind != EventKind::ProcessExit {
        if let Some(process) = &event.process {
            processes.observe(process.duplicate(), event.timestamp_ns);
        }
    }
}


/// Which tracker an event is filed with.
#[derive(Debug, Clone, Copy, PartialEq, Eq, Structural)]
pub enum EventRoute {
    /// A process ended: it and its TLS sessions are forgotten.
    ProcessExit,
    /// A TCP report: the connection table (and the TLS links to it).
    Connection,
    /// A DNS answer: the DNS cache and the connections it names.
    Dns,
    /// A TLS report: the TLS sessions.
    Tls,
    /// Plaintext or an HTTP capture: read against the TLS sessions.
    Plaintext,
    /// Nothing to file.
    Other,
}

pub open spec fn route_of(kind: EventKind) -> EventRoute {
    match kind {
        EventKind::ProcessExit => EventRoute::ProcessExit,
        EventKind::TcpConnect | EventKind::TcpClose | EventKind::TcpStateChanged | EventKind::TcpBytes => EventRoute::Connection,
        EventKind::DnsResponse => EventRoute::Dns,
        EventKind::TlsMetadata => EventRoute::Tls,
        EventKind::Plaintext | EventKind::HttpCapture => EventRoute::Plaintext,
        _ => EventRoute::Other,
    }
}

pub fn event_route(kind: EventKind) -> (r: EventRoute)
    ensures
        r == route_of(kind),
{
    match kind {
        EventKind::ProcessExit => EventRoute::ProcessExit,
        EventKind::TcpConnect | EventKind::TcpClose | EventKind::TcpStateChanged | EventKind::TcpBytes => EventRoute::Connection,
        EventKind::DnsResponse => EventRoute::Dns,
        EventKind::TlsMetadata => EventRoute::Tls,
        EventKind::Plaintext | EventKind::HttpCapture => EventRoute::Plaintext,
        _ => EventRoute::Other,
    }
}

/// What filing the event `e0` (becoming `e1`) does to the trackers: the
/// tracker of its route changes as that tracker's step says, every other
/// one stays as it was.
pub open spec fn tracked_step(
    e0: TraceEvent,
    e1: TraceEvent,
    p0: ProcessTracker,
    p1: ProcessTracker,
    c0: ConnectionTracker,
    c1: ConnectionTracker,
    d0: DnsTracker,
    d1: DnsTracker,
    t0: TlsTracker,
    t1: TlsTracker,
) -> bool {
    let same_p = p1.records() == p0.records();
    let same_c = c1.records() == c0.records();
    let same_d = d1.cache_view().records() == d0.cache_view().records();
    let same_t = t1.sessions_view() == t0.sessions_view() && t1.latest_view() == t0.latest_view();
    match route_of(e0.kind) {
        EventRoute::ProcessExit => {
            &&& same_c && same_d && e1 == e0
            &&& match e0.pid {
                Some(pid) => {
                    &&& p1.records() == p0.records().remove(pid)
                    &&& t1.latest_view() == t0.latest_view().remove(pid)
                    &&& forall|k: (u32, u64)| #[trigger]
                        t1.sessions_view().contains_key(k) <==> t0.sessions_view().contains_key(k) && k.0 != pid
                    &&& forall|k: (u32, u64)| #[trigger]
                        t1.sessions_view().contains_key(k) ==> t1.sessions_view()[k] == t0.sessions_view()[k]
                },
                None => same_p && same_t,
            }
        },
        EventRoute::Connection => {
            &&& same_p && same_d
            &&& t1.latest_view() == t0.latest_view()
            &&& e0.connection is None ==> e1 == e0 && same_c && t1.sessions_view() == t0.sessions_view()
            &&& e0.connection is Some ==> exists|resolved: Option<String>, cid: String|
                #[trigger] connection_applied(
                    d0.cache_view().records(),
                    p0.records(),
                    c0.records(),
                    c1.records(),
                    t0.sessions_view(),
                    t1.sessions_view(),
                    e0,
                    e1,
                    resolved,
                    cid,
                )
        },
        EventRoute::Dns => {
            &&& same_p && same_t && e1 == e0
            &&& match e0.payload {
                EventPayload::Dns { domain, addresses, ttl_secs, .. } => {
                    &&& d1.cache_view().records() == answered(
                        d0.cache_view().records(),
                        e0.pid,
                        domain@,
                        strings_view(addresses@),
                        ttl_secs,
                        e0.timestamp_ns,
                    )
                    &&& if addresses@.len() == 0 {
                        same_c
                    } else {
                        exists|mid: Map<Seq<char>, ConnectionRecord>|
                            #[trigger] domain_named(mid, c1.records(), None, strings_view(addresses@), domain@)
                                && match e0.pid {
                                Some(p) => domain_named(c0.records(), mid, Some(p), strings_view(addresses@), domain@),
                                None => mid == c0.records(),
                            }
                    }
                },
                _ => same_d && same_c,
            }
        },
        EventRoute::Tls => {
            &&& same_p && same_c && same_d
            &&& e1 == tls_applied(c0.records(), t0.sessions_view(), t0.latest_view(), e0)
            &&& match (e0.pid, e0.payload) {
                (Some(pid), EventPayload::Tls { ssl_object, fd, sni, version }) => {
                    let link = tls_link(c0.records(), t0.sessions_view(), t0.latest_view(), e0, pid, fd);
                    let ssl = report_object(t0.latest_view(), pid, ssl_object);
                    &&& t1.sessions_view() == after_report(
                        t0.sessions_view(),
                        pid,
                        ssl_object,
                        ssl,
                        TlsEventData { ssl_object, fd, sni, version },
                        link,
                        e0.timestamp_ns,
                    )
                    &&& t1.latest_view() == t0.latest_view().insert(pid, (ssl, e0.timestamp_ns))
                },
                _ => same_t,
            }
        },
        EventRoute::Plaintext => {
            &&& same_p && same_c && same_d && same_t
            &&& e1 == plaintext_applied(c0.records(), t0.sessions_view(), t0.latest_view(), e0)
        },
        EventRoute::Other => same_p && same_c && same_d && same_t && e1 == e0,
    }
}

/// What is left to do outside the trackers once an event is filed: bring
/// the probes of a process in line with its observation level, or detach
/// those of a process that ended.
#[derive(Debug, Clone, Copy, PartialEq, Eq)]
pub struct FollowUp {
    pub sync_pid: Option<u32>,
    pub exited_pid: Option<u32>,
}

/// Files an event (already attributed to its process) with the tracker its
/// kind belongs to; a process exit forgets the process and its TLS
/// sessions and asks for its probes to be detached, any other event with a
/// process asks for that process's probes to be brought in line.
pub fn apply_tracked_event(
    event: &mut TraceEvent,
    processes: &mut ProcessTracker,
    connections: &mut ConnectionTracker,
    dns: &mut DnsTracker,
    tls: &mut TlsTracker,
) -> (r: FollowUp)
    requires
        old(processes).wf(),
        old(connections).wf(),
        old(dns).wf(),
        old(tls).wf(),
    ensures
        final(processes).wf(),
        final(connections).wf(),
        final(dns).wf(),
        final(tls).wf(),
        tracked_step(
            *old(event),
            *final(event),
            *old(processes),
            *final(processes),
            *old(connections),
            *final(connections),
            *old(dns),
            *final(dns),
            *old(tls),
            *final(tls),
        ),
        r.exited_pid == if old(event).kind == EventKind::ProcessExit {
            old(event).pid
        } else {
            None
        },
        r.sync_pid == if old(event).kind == EventKind::ProcessExit {
            None
        } else {
            old(event).pid
        },
{
    let route = event_route(event.kind);
    let pid = event.pid;
    match route {
        EventRoute::ProcessExit => {
            if let Some(p) = pid {
                processes.remove(p);
                tls.remove_process(p);
            }
            FollowUp { sync_pid: None, exited_pid: pid }
        },
        EventRoute::Connection => {
            apply_connection_event(event, dns, processes, connections, tls);
            FollowUp { sync_pid: pid, exited_pid: None }
        },
        EventRoute::Dns => {
            apply_dns_response(event, dns, connections);
            FollowUp { sync_pid: pid, exited_pid: None }
        },
        EventRoute::Tls => {
            apply_tls_event(tls, connections, event);
            FollowUp { sync_pid: pid, exited_pid: None }
        },
        EventRoute::Plaintext => {
            apply_plaintext_event(tls, connections, event);
            FollowUp { sync_pid: pid, exited_pid: None }
        },
        EventRoute::Other => FollowUp { sync_pid: pid, exited_pid: None },
    }
}

} // verus!
