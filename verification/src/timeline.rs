//! The flat, display-ready projection of telemetry events, and the shapes of
//! timeline queries and pages.
use vstd::prelude::*;
use crate::events::{
    clone_opt_string, lossy_utf8, utf8_lossy, ConnectionRef, ConnectionState, Endpoint, EventKind,
    EventPayload, EventSource, HttpHeader, HttpMessageDirection, PlaintextDirection, TcpState,
    TraceEvent, TransportProtocol,
};
use crate::text::{decimal, push_decimal, push_str};

verus! {

#[derive(Debug, Clone)]
pub struct TimelineFilter {
    pub pid: Option<u32>,
    pub kind: Option<EventKind>,
    pub connection_id: Option<String>,
    /// Include individual SSL plaintext fragments in addition to aggregated
    /// HTTP events.
    pub include_plaintext: bool,
    /// Number of newest matching events to skip, so that the next page points
    /// toward older history.
    pub offset: usize,
    pub limit: usize,
}

impl Default for TimelineFilter {
    fn default() -> (r: Self)
        ensures
            r.pid is None,
            r.kind is None,
            r.connection_id is None,
            r.include_plaintext,
            r.offset == 0,
            r.limit == 50,
    {
        TimelineFilter {
            pid: None,
            kind: None,
            connection_id: None,
            include_plaintext: true,
            offset: 0,
            limit: 50,
        }
    }
}

#[derive(Debug, Clone, PartialEq, Eq)]
pub struct TimelinePage {
    pub entries: Vec<TimelineEntry>,
    pub total: usize,
    pub offset: usize,
    pub limit: usize,
    pub has_more: bool,
}

#[derive(Debug, Clone)]
pub struct ConnectionTimelineFilter {
    pub pid: Option<u32>,
    pub connection_id: Option<String>,
    pub include_plaintext: bool,
    pub include_closed: bool,
    pub include_events: bool,
    pub event_limit: usize,
    pub offset: usize,
    pub limit: usize,
}

impl Default for ConnectionTimelineFilter {
    fn default() -> (r: Self)
        ensures
            r.pid is None,
            r.connection_id is None,
            r.include_plaintext,
            r.include_closed,
            r.include_events,
            r.event_limit == 200,
            r.offset == 0,
            r.limit == 50,
    {
        ConnectionTimelineFilter {
            pid: None,
            connection_id: None,
            include_plaintext: true,
            include_closed: true,
            include_events: true,
            event_limit: 200,
            offset: 0,
            limit: 50,
        }
    }
}

#[derive(Debug, Clone, PartialEq, Eq)]
pub struct ConnectionTimelinePage {
    pub sessions: Vec<ConnectionTimeline>,
    pub total: usize,
    pub offset: usize,
    pub limit: usize,
    pub has_more: bool,
}

#[derive(Debug, Clone, PartialEq, Eq)]
pub struct ConnectionTimeline {
    pub id: String,
    pub pid: Option<u32>,
    pub process_name: Option<String>,
    pub process_command_line: Option<String>,
    pub protocol: TransportProtocol,
    pub local: Option<Endpoint>,
    pub remote: Endpoint,
    pub domain: Option<String>,
    pub tls_sni: Option<String>,
    pub tls_version: Option<String>,
    pub state: ConnectionState,
    pub tcp_state: Option<TcpState>,
    pub first_seen_ns: u64,
    pub last_seen_ns: u64,
    pub duration_ns: u64,
    pub sent_bytes: u64,
    pub received_bytes: u64,
    pub event_count: usize,
    pub events: Vec<TimelineEntry>,
}

#[derive(Debug, Clone, PartialEq, Eq)]
pub struct TimelineEntry {
    pub id: String,
    pub timestamp_ns: u64,
    pub source: EventSource,
    pub kind: EventKind,
    pub pid: Option<u32>,
    pub process_name: Option<String>,
    pub process_command_line: Option<String>,
    pub summary: String,
    pub domain: Option<String>,
    pub addresses: Vec<String>,
    pub protocol: Option<TransportProtocol>,
    pub connection_id: Option<String>,
    pub remote: Option<Endpoint>,
    pub state: Option<ConnectionState>,
    pub tcp_state: Option<TcpState>,
    pub sent_bytes: Option<u64>,
    pub received_bytes: Option<u64>,
    pub tls_sni: Option<String>,
    pub tls_version: Option<String>,
    pub ssl_object: Option<u64>,
    pub fd: Option<i32>,
    pub plaintext_direction: Option<PlaintextDirection>,
    pub plaintext: Option<String>,
    pub plaintext_bytes: Option<usize>,
    pub plaintext_truncated: bool,
    pub plaintext_skipped: bool,
    pub plaintext_skip_reason: Option<String>,
    pub http_direction: Option<HttpMessageDirection>,
    pub http_version: Option<String>,
    pub http_method: Option<String>,
    pub http_target: Option<String>,
    pub http_host: Option<String>,
    pub http_status: Option<u16>,
    pub http_reason: Option<String>,
    pub http_headers: Vec<HttpHeader>,
    pub http_content_length: Option<usize>,
    pub http_body_preview: Option<String>,
    pub http_body_bytes: usize,
    pub http_body_truncated: bool,
    pub http_payload_skipped: bool,
    pub http_payload_skip_reason: Option<String>,
    pub file_path: Option<String>,
    pub file_bytes: Option<u64>,
}

/// The label a timeline shows for an event kind.
pub open spec fn kind_label(k: EventKind) -> Seq<char> {
    match k {
        EventKind::ProcessExec => "Process start"@,
        EventKind::ProcessExit => "Process exit"@,
        EventKind::TcpConnect => "TCP connect"@,
        EventKind::TcpClose => "TCP close"@,
        EventKind::TcpStateChanged => "TCP state"@,
        EventKind::TcpBytes => "TCP bytes"@,
        EventKind::DnsQuery => "DNS query"@,
        EventKind::DnsResponse => "DNS response"@,
        EventKind::TlsMetadata => "TLS metadata"@,
        EventKind::Plaintext => "Plaintext"@,
        EventKind::HttpCapture => "HTTP capture"@,
        EventKind::Http => "HTTP"@,
        EventKind::FileOpen => "File open"@,
        EventKind::FileRead => "File read"@,
        EventKind::ObservationChanged => "Observation"@,
    }
}

fn kind_label_of(k: EventKind) -> (r: &'static str)
    ensures
        r@ == kind_label(k),
{
    match k {
        EventKind::ProcessExec => "Process start",
        EventKind::ProcessExit => "Process exit",
        EventKind::TcpConnect => "TCP connect",
        EventKind::TcpClose => "TCP close",
        EventKind::TcpStateChanged => "TCP state",
        EventKind::TcpBytes => "TCP bytes",
        EventKind::DnsQuery => "DNS query",
        EventKind::DnsResponse => "DNS response",
        EventKind::TlsMetadata => "TLS metadata",
        EventKind::Plaintext => "Plaintext",
        EventKind::HttpCapture => "HTTP capture",
        EventKind::Http => "HTTP",
        EventKind::FileOpen => "File open",
        EventKind::FileRead => "File read",
        EventKind::ObservationChanged => "Observation",
    }
}

/// A TCP state's name in lower case.
pub open spec fn tcp_state_label(s: TcpState) -> Seq<char> {
    match s {
        TcpState::Established => "established"@,
        TcpState::SynSent => "synsent"@,
        TcpState::SynRecv => "synrecv"@,
        TcpState::FinWait1 => "finwait1"@,
        TcpState::FinWait2 => "finwait2"@,
        TcpState::TimeWait => "timewait"@,
        TcpState::Close => "close"@,
        TcpState::CloseWait => "closewait"@,
        TcpState::LastAck => "lastack"@,
        TcpState::Listen => "listen"@,
        TcpState::Closing => "closing"@,
        TcpState::NewSynRecv => "newsynrecv"@,
        TcpState::Unknown => "unknown"@,
    }
}

fn tcp_state_label_of(s: TcpState) -> (r: &'static str)
    ensures
        r@ == tcp_state_label(s),
{
    match s {
        TcpState::Established => "established",
        TcpState::SynSent => "synsent",
        TcpState::SynRecv => "synrecv",
        TcpState::FinWait1 => "finwait1",
        TcpState::FinWait2 => "finwait2",
        TcpState::TimeWait => "timewait",
        TcpState::Close => "close",
        TcpState::CloseWait => "closewait",
        TcpState::LastAck => "lastack",
        TcpState::Listen => "listen",
        TcpState::Closing => "closing",
        TcpState::NewSynRecv => "newsynrecv",
        TcpState::Unknown => "unknown",
    }
}

pub open spec fn read_write(d: PlaintextDirection) -> Seq<char> {
    match d {
        PlaintextDirection::Read => "read"@,
        PlaintextDirection::Write => "write"@,
    }
}

pub open spec fn truncation_note(truncated: bool) -> Seq<char> {
    if truncated {
        " · truncated"@
    } else {
        ""@
    }
}

pub open spec fn or_question(s: Option<String>) -> Seq<char> {
    match s {
        Some(t) => t@,
        None => "?"@,
    }
}

/// How a connection event reads: where it went, and what happened.
pub open spec fn connection_summary(kind: EventKind, c: ConnectionRef) -> Seq<char> {
    let target = match c.domain {
        Some(d) => d@,
        None => c.remote.address@,
    };
    match kind {
        EventKind::TcpConnect => "Connected to "@ + target + ":"@ + decimal(c.remote.port as nat),
        EventKind::TcpClose => "Closed connection to "@ + target + ":"@ + decimal(
            c.remote.port as nat,
        ),
        EventKind::TcpStateChanged => "TCP state changed to "@ + match c.tcp_state {
            Some(s) => tcp_state_label(s),
            None => "unknown"@,
        },
        EventKind::TcpBytes => "Transferred "@ + decimal(c.sent_bytes as nat) + " up / "@ + decimal(
            c.received_bytes as nat,
        ) + " down"@,
        _ => "Network event"@,
    }
}

/// The one-line description of an event, before the empty-text fallback.
pub open spec fn describe(e: TraceEvent) -> Seq<char> {
    match e.payload {
        EventPayload::Process { executable, .. } => executable@ + " "@ + if e.kind
            == EventKind::ProcessExit {
            "exited"@
        } else {
            "started"@
        },
        EventPayload::Connection { connection: c } => connection_summary(e.kind, c),
        EventPayload::Dns { domain, .. } => "DNS "@ + if e.kind == EventKind::DnsQuery {
            "query"@
        } else {
            "response"@
        } + " for "@ + domain@,
        EventPayload::Tls { fd, sni, version, .. } => match (sni, version, fd) {
            (Some(s), Some(v), _) => "TLS metadata: "@ + s@ + " · "@ + v@,
            (Some(s), None, _) => "TLS SNI "@ + s@,
            (None, Some(v), _) => "TLS version "@ + v@,
            (None, None, Some(f)) => if f >= 0 {
                "TLS socket fd "@ + decimal(f as nat)
            } else {
                "TLS handshake observed"@
            },
            (None, None, None) => "TLS handshake observed"@,
        },
        EventPayload::Plaintext { direction, bytes, truncated, .. } => "Plaintext "@ + read_write(
            direction,
        ) + " · "@ + decimal(bytes as nat) + " B"@ + truncation_note(truncated),
        EventPayload::HttpCapture { direction, bytes, truncated, .. } => "HTTP capture "@
            + read_write(direction) + " · "@ + decimal(bytes as nat) + " B"@ + truncation_note(
            truncated,
        ),
        EventPayload::Http { direction, method, target, status, reason, .. } => match direction {
            HttpMessageDirection::Request => "HTTP request "@ + or_question(method) + " "@
                + or_question(target),
            HttpMessageDirection::Response => "HTTP response "@ + match status {
                Some(s) => decimal(s as nat),
                None => "?"@,
            } + match reason {
                Some(r) => if r@.len() > 0 {
                    " "@ + r@
                } else {
                    ""@
                },
                None => ""@,
            },
        },
        EventPayload::File { path, .. } => "File "@ + if e.kind == EventKind::FileRead {
            "read"@
        } else {
            "opened"@
        } + " · "@ + path@,
        EventPayload::Observation { target, level } => "Observation "@ + target@ + " → L"@
            + decimal(level as nat),
        EventPayload::Empty => kind_label(e.kind) + " event"@,
    }
}

/// The summary line of an event's timeline entry.
pub open spec fn summary_of(e: TraceEvent) -> Seq<char> {
    if describe(e).len() == 0 {
        kind_label(e.kind) + " event"@
    } else {
        describe(e)
    }
}

/// The connection whose fields an entry shows: the payload's own, or for TLS,
/// plaintext and HTTP events the one the event was correlated with.
pub open spec fn shown_connection(e: TraceEvent) -> Option<ConnectionRef> {
    match e.payload {
        EventPayload::Connection { connection } => Some(connection),
        EventPayload::Tls { .. } | EventPayload::Plaintext { .. } | EventPayload::Http { .. } => e.connection,
        _ => None,
    }
}

/// How `from_event` lays an event out as a timeline entry.
pub open spec fn projects(e: TraceEvent, r: TimelineEntry) -> bool {
    let c = shown_connection(e);
    &&& r.id == e.id
    &&& r.timestamp_ns == e.timestamp_ns
    &&& r.source == e.source
    &&& r.kind == e.kind
    &&& r.pid == e.pid
    &&& r.process_name == match e.process {
        Some(p) => p.executable,
        None => None,
    }
    &&& r.process_command_line == match e.process {
        Some(p) => p.command_line,
        None => None,
    }
    &&& r.summary@ == summary_of(e)
    &&& r.connection_id == match c {
        Some(x) => Some(x.id),
        None => None,
    }
    &&& r.remote == match c {
        Some(x) => Some(x.remote),
        None => None,
    }
    &&& r.state == match c {
        Some(x) => Some(x.state),
        None => None,
    }
    &&& r.tcp_state == match c {
        Some(x) => x.tcp_state,
        None => None,
    }
    &&& r.sent_bytes == match c {
        Some(x) => Some(x.sent_bytes),
        None => None,
    }
    &&& r.received_bytes == match c {
        Some(x) => Some(x.received_bytes),
        None => None,
    }
    &&& r.domain == match e.payload {
        EventPayload::Dns { domain, .. } => Some(domain),
        _ => match c {
            Some(x) => x.domain,
            None => None,
        },
    }
    &&& r.protocol == match e.payload {
        EventPayload::Dns { protocol, .. } => Some(protocol),
        _ => match c {
            Some(x) => Some(x.protocol),
            None => None,
        },
    }
    &&& r.addresses@ == match e.payload {
        EventPayload::Dns { addresses, .. } => addresses@,
        _ => Seq::empty(),
    }
    &&& (r.tls_sni, r.tls_version) == match e.payload {
        EventPayload::Tls { sni, version, .. } => (sni, version),
        _ => (None, None),
    }
    &&& (r.ssl_object, r.fd) == match e.payload {
        EventPayload::Tls { ssl_object, fd, .. } => (Some(ssl_object), fd),
        EventPayload::Plaintext { ssl_object, fd, .. } => (Some(ssl_object), fd),
        EventPayload::HttpCapture { ssl_object, fd, .. } => (Some(ssl_object), fd),
        _ => (None, None),
    }
    &&& match e.payload {
        EventPayload::Plaintext {
            direction,
            data,
            bytes,
            truncated,
            payload_skipped,
            payload_skip_reason,
            ..
        } => r.plaintext_direction == Some(direction) && r.plaintext == Some(data)
            && r.plaintext_bytes == Some(bytes) && r.plaintext_truncated == truncated
            && r.plaintext_skipped == payload_skipped && r.plaintext_skip_reason
            == payload_skip_reason,
        EventPayload::HttpCapture {
            direction,
            data,
            bytes,
            truncated,
            payload_skipped,
            payload_skip_reason,
            ..
        } => r.plaintext_direction == Some(direction) && (r.plaintext matches Some(t) && t@
            == lossy_utf8(data@)) && r.plaintext_bytes == Some(bytes) && r.plaintext_truncated
            == truncated && r.plaintext_skipped == payload_skipped && r.plaintext_skip_reason
            == payload_skip_reason,
        _ => r.plaintext_direction is None && r.plaintext is None && r.plaintext_bytes is None
            && !r.plaintext_truncated && !r.plaintext_skipped && r.plaintext_skip_reason is None,
    }
    &&& match e.payload {
        EventPayload::Http {
            direction,
            version,
            method,
            target,
            host,
            status,
            reason,
            headers,
            content_length,
            body_preview,
            body_bytes,
            body_truncated,
            payload_skipped,
            payload_skip_reason,
            ..
        } => r.http_direction == Some(direction) && r.http_version == Some(version)
            && r.http_method == method && r.http_target == target && r.http_host == host
            && r.http_status == status && r.http_reason == reason && r.http_headers == headers
            && r.http_content_length == content_length && r.http_body_preview == body_preview
            && r.http_body_bytes == body_bytes && r.http_body_truncated == body_truncated
            && r.http_payload_skipped == payload_skipped && r.http_payload_skip_reason
            == payload_skip_reason,
        _ => r.http_direction is None && r.http_version is None && r.http_method is None
            && r.http_target is None && r.http_host is None && r.http_status is None
            && r.http_reason is None && r.http_headers@.len() == 0 && r.http_content_length is None
            && r.http_body_preview is None && r.http_body_bytes == 0 && !r.http_body_truncated
            && !r.http_payload_skipped && r.http_payload_skip_reason is None,
    }
    &&& (r.file_path, r.file_bytes) == match e.payload {
        EventPayload::File { path, bytes } => (Some(path), Some(bytes)),
        _ => (None, None),
    }
}

fn describe_connection(kind: EventKind, c: &ConnectionRef) -> (r: String)
    ensures
        r@ == connection_summary(kind, *c),
{
    let mut s = String::new();
    match kind {
        EventKind::TcpConnect => {
            push_str(&mut s, "Connected to ");
            match &c.domain {
                Some(d) => push_str(&mut s, d.as_str()),
                None => push_str(&mut s, c.remote.address.as_str()),
            }
            push_str(&mut s, ":");
            push_decimal(&mut s, c.remote.port as u64);
        },
        EventKind::TcpClose => {
            push_str(&mut s, "Closed connection to ");
            match &c.domain {
                Some(d) => push_str(&mut s, d.as_str()),
                None => push_str(&mut s, c.remote.address.as_str()),
            }
            push_str(&mut s, ":");
            push_decimal(&mut s, c.remote.port as u64);
        },
        EventKind::TcpStateChanged => {
            push_str(&mut s, "TCP state changed to ");
            match c.tcp_state {
                Some(state) => push_str(&mut s, tcp_state_label_of(state)),
                None => push_str(&mut s, "unknown"),
            }
        },
        EventKind::TcpBytes => {
            push_str(&mut s, "Transferred ");
            push_decimal(&mut s, c.sent_bytes);
            push_str(&mut s, " up / ");
            push_decimal(&mut s, c.received_bytes);
            push_str(&mut s, " down");
        },
        _ => push_str(&mut s, "Network event"),
    }
    s
}

fn push_or_question(s: &mut String, v: &Option<String>)
    ensures
        final(s)@ == old(s)@ + or_question(*v),
{
    match v {
        Some(t) => push_str(s, t.as_str()),
        None => push_str(s, "?"),
    }
}

fn push_direction(s: &mut String, d: PlaintextDirection)
    ensures
        final(s)@ == old(s)@ + read_write(d),
{
    match d {
        PlaintextDirection::Read => push_str(s, "read"),
        PlaintextDirection::Write => push_str(s, "write"),
    }
}

fn push_truncation(s: &mut String, truncated: bool)
    ensures
        final(s)@ == old(s)@ + truncation_note(truncated),
{
    if truncated {
        push_str(s, " · truncated");
    } else {
        push_str(s, "");
    }
}

impl TimelineEntry {
    /// Lays an event out as a timeline entry with a one-line summary.
    pub fn from_event(event: TraceEvent) -> (r: Self)
        ensures
            projects(event, r),
    {
        let ghost e = event;
        let TraceEvent { id, timestamp_ns, source, kind, pid, process, connection, instrumentation: _, payload } =
            event;
        let (process_name, process_command_line) = match &process {
            Some(p) => (clone_opt_string(&p.executable), clone_opt_string(&p.command_line)),
            None => (None, None),
        };
        let mut entry = TimelineEntry {
            id,
            timestamp_ns,
            source,
            kind,
            pid,
            process_name,
            process_command_line,
            summary: String::new(),
            domain: None,
            addresses: Vec::new(),
            protocol: None,
            connection_id: None,
            remote: None,
            state: None,
            tcp_state: None,
            sent_bytes: None,
            received_bytes: None,
            tls_sni: None,
            tls_version: None,
            ssl_object: None,
            fd: None,
            plaintext_direction: None,
            plaintext: None,
            plaintext_bytes: None,
            plaintext_truncated: false,
            plaintext_skipped: false,
            plaintext_skip_reason: None,
            http_direction: None,
            http_version: None,
            http_method: None,
            http_target: None,
            http_host: None,
            http_status: None,
            http_reason: None,
            http_headers: Vec::new(),
            http_content_length: None,
            http_body_preview: None,
            http_body_bytes: 0,
            http_body_truncated: false,
            http_payload_skipped: false,
            http_payload_skip_reason: None,
            file_path: None,
            file_bytes: None,
        };
        let linked = match &payload {
            EventPayload::Connection { connection: c } => Some(c.duplicate()),
            EventPayload::Tls { .. } | EventPayload::Plaintext { .. } | EventPayload::Http { .. } => connection,
            _ => None,
        };
        match &linked {
            Some(c) => {
                entry.connection_id = Some(c.id.clone());
                entry.remote = Some(c.remote.duplicate());
                entry.state = Some(c.state);
                entry.tcp_state = c.tcp_state;
                entry.sent_bytes = Some(c.sent_bytes);
                entry.received_bytes = Some(c.received_bytes);
                entry.domain = clone_opt_string(&c.domain);
                entry.protocol = Some(c.protocol);
            },
            None => {},
        }
        let mut summary = String::new();
        match payload {
            EventPayload::Process { executable, command_line: _ } => {
                push_str(&mut summary, executable.as_str());
                push_str(&mut summary, " ");
                if kind == EventKind::ProcessExit {
                    push_str(&mut summary, "exited");
                } else {
                    push_str(&mut summary, "started");
                }
            },
            EventPayload::Connection { connection: c } => {
                summary = describe_connection(kind, &c);
            },
            EventPayload::Dns { protocol, domain, addresses, ttl_secs: _ } => {
                push_str(&mut summary, "DNS ");
                if kind == EventKind::DnsQuery {
                    push_str(&mut summary, "query");
                } else {
                    push_str(&mut summary, "response");
                }
                push_str(&mut summary, " for ");
                push_str(&mut summary, domain.as_str());
                entry.domain = Some(domain);
                entry.addresses = addresses;
                entry.protocol = Some(protocol);
            },
            EventPayload::Tls { ssl_object, fd, sni, version } => {
                match (&sni, &version, fd) {
                    (Some(s), Some(v), _) => {
                        push_str(&mut summary, "TLS metadata: ");
                        push_str(&mut summary, s.as_str());
                        push_str(&mut summary, " · ");
                        push_str(&mut summary, v.as_str());
                    },
                    (Some(s), None, _) => {
                        push_str(&mut summary, "TLS SNI ");
                        push_str(&mut summary, s.as_str());
                    },
                    (None, Some(v), _) => {
                        push_str(&mut summary, "TLS version ");
                        push_str(&mut summary, v.as_str());
                    },
                    (None, None, Some(f)) => {
                        if f >= 0 {
                            push_str(&mut summary, "TLS socket fd ");
                            push_decimal(&mut summary, f as u64);
                        } else {
                            push_str(&mut summary, "TLS handshake observed");
                        }
                    },
                    (None, None, None) => push_str(&mut summary, "TLS handshake observed"),
                }
                entry.ssl_object = Some(ssl_object);
                entry.fd = fd;
                entry.tls_sni = sni;
                entry.tls_version = version;
            },
            EventPayload::Plaintext {
                ssl_object,
                fd,
                direction,
                data,
                raw_data: _,
                bytes,
                truncated,
                payload_skipped,
                payload_skip_reason,
            } => {
                push_str(&mut summary, "Plaintext ");
                push_direction(&mut summary, direction);
                push_str(&mut summary, " · ");
                push_decimal(&mut summary, bytes as u64);
                push_str(&mut summary, " B");
                push_truncation(&mut summary, truncated);
                entry.ssl_object = Some(ssl_object);
                entry.fd = fd;
                entry.plaintext_direction = Some(direction);
                entry.plaintext = Some(data);
                entry.plaintext_bytes = Some(bytes);
                entry.plaintext_truncated = truncated;
                entry.plaintext_skipped = payload_skipped;
                entry.plaintext_skip_reason = payload_skip_reason;
            },
            EventPayload::HttpCapture {
                ssl_object,
                fd,
                direction,
                data,
                bytes,
                truncated,
                payload_skipped,
                payload_skip_reason,
            } => {
                push_str(&mut summary, "HTTP capture ");
                push_direction(&mut summary, direction);
                push_str(&mut summary, " · ");
                push_decimal(&mut summary, bytes as u64);
                push_str(&mut summary, " B");
                push_truncation(&mut summary, truncated);
                entry.ssl_object = Some(ssl_object);
                entry.fd = fd;
                entry.plaintext_direction = Some(direction);
                entry.plaintext = Some(utf8_lossy(data.as_slice()));
                entry.plaintext_bytes = Some(bytes);
                entry.plaintext_truncated = truncated;
                entry.plaintext_skipped = payload_skipped;
                entry.plaintext_skip_reason = payload_skip_reason;
            },
            EventPayload::Http {
                stream_id: _,
                direction,
                version,
                method,
                target,
                host,
                status,
                reason,
                headers,
                content_length,
                body_preview,
                body_bytes,
                body_truncated,
                payload_skipped,
                payload_skip_reason,
            } => {
                match direction {
                    HttpMessageDirection::Request => {
                        push_str(&mut summary, "HTTP request ");
                        push_or_question(&mut summary, &method);
                        push_str(&mut summary, " ");
                        push_or_question(&mut summary, &target);
                    },
                    HttpMessageDirection::Response => {
                        proof {
                            reveal_strlit("");
                        }
                        let ghost before = summary@;
                        push_str(&mut summary, "HTTP response ");
                        match status {
                            Some(code) => push_decimal(&mut summary, code as u64),
                            None => push_str(&mut summary, "?"),
                        }
                        match &reason {
                            Some(text) => {
                                if !text.as_str().is_empty() {
                                    push_str(&mut summary, " ");
                                    push_str(&mut summary, text.as_str());
                                }
                            },
                            None => {},
                        }
                        assert(before + "HTTP response "@ + match status {
                            Some(code) => decimal(code as nat),
                            None => "?"@,
                        } + ""@ =~= before + "HTTP response "@ + match status {
                            Some(code) => decimal(code as nat),
                            None => "?"@,
                        });
                    },
                }
                entry.http_direction = Some(direction);
                entry.http_version = Some(version);
                entry.http_method = method;
                entry.http_target = target;
                entry.http_host = host;
                entry.http_status = status;
                entry.http_reason = reason;
                entry.http_headers = headers;
                entry.http_content_length = content_length;
                entry.http_body_preview = body_preview;
                entry.http_body_bytes = body_bytes;
                entry.http_body_truncated = body_truncated;
                entry.http_payload_skipped = payload_skipped;
                entry.http_payload_skip_reason = payload_skip_reason;
            },
            EventPayload::File { path, bytes } => {
                push_str(&mut summary, "File ");
                if kind == EventKind::FileRead {
                    push_str(&mut summary, "read");
                } else {
                    push_str(&mut summary, "opened");
                }
                push_str(&mut summary, " · ");
                push_str(&mut summary, path.as_str());
                entry.file_path = Some(path);
                entry.file_bytes = Some(bytes);
            },
            EventPayload::Observation { target, level } => {
                push_str(&mut summary, "Observation ");
                push_str(&mut summary, target.as_str());
                push_str(&mut summary, " → L");
                push_decimal(&mut summary, level as u64);
            },
            EventPayload::Empty => {
                push_str(&mut summary, kind_label_of(kind));
                push_str(&mut summary, " event");
            },
        }
        assert(summary@ == describe(e));
        if summary.as_str().is_empty() {
            let mut fallback = String::new();
            push_str(&mut fallback, kind_label_of(kind));
            push_str(&mut fallback, " event");
            summary = fallback;
        }
        entry.summary = summary;
        entry
    }
}

} // verus!
