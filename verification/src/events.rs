//! Shared event model between probes, the core service, and the read models.
use vstd::prelude::*;
use vstd::utf8::*;

use crate::text::{decimal, push_decimal, push_str};

verus! {

pub type EventId = String;

#[derive(Debug, Clone, Copy, PartialEq, Eq, Structural)]
pub enum EventSource {
    Kernel,
    Bpftime,
    Core,
}

#[derive(Debug, Clone, PartialEq, Eq)]
pub struct InstrumentationSource {
    pub provider: String,
    pub library: String,
    pub api_function: String,
}

pub const TLS_API_OPENSSL_CONNECT: u16 = 1;
pub const TLS_API_OPENSSL_GET_SERVERNAME: u16 = 2;
pub const TLS_API_OPENSSL_GET_VERSION: u16 = 3;
pub const TLS_API_OPENSSL_GET_FD: u16 = 4;
pub const TLS_API_OPENSSL_SET_FD: u16 = 5;
pub const TLS_API_OPENSSL_READ: u16 = 6;
pub const TLS_API_OPENSSL_WRITE: u16 = 7;
pub const TLS_API_OPENSSL_READ_EX: u16 = 8;
pub const TLS_API_OPENSSL_WRITE_EX: u16 = 9;
pub const TLS_API_GNUTLS_HANDSHAKE: u16 = 20;
pub const TLS_API_GNUTLS_SET_FD: u16 = 21;
pub const TLS_API_GNUTLS_RECV: u16 = 22;
pub const TLS_API_GNUTLS_SEND: u16 = 23;
pub const TLS_API_GNUTLS_SERVER_NAME: u16 = 24;
pub const TLS_API_GNUTLS_PROTOCOL: u16 = 25;
pub const TLS_API_NSS_IMPORT_FD: u16 = 40;
pub const TLS_API_NSPR_READ: u16 = 41;
pub const TLS_API_NSPR_WRITE: u16 = 42;
pub const TLS_API_NSS_SET_URL: u16 = 43;
pub const TLS_API_NSS_CHANNEL_INFO: u16 = 44;
pub const TLS_API_RUSTLS_READ: u16 = 60;
pub const TLS_API_RUSTLS_WRITE: u16 = 61;
pub const TLS_API_RUSTLS_PROCESS_PACKETS: u16 = 62;

/// The hooked library function that a probe API identifier stands for.
pub open spec fn spec_tls_api_function(api_id: u16) -> Option<Seq<char>> {
    if api_id == 1 { Some("SSL_connect"@) }
    else if api_id == 2 { Some("SSL_get_servername"@) }
    else if api_id == 3 { Some("SSL_get_version"@) }
    else if api_id == 4 { Some("SSL_get_fd"@) }
    else if api_id == 5 { Some("SSL_set_fd"@) }
    else if api_id == 6 { Some("SSL_read"@) }
    else if api_id == 7 { Some("SSL_write"@) }
    else if api_id == 8 { Some("SSL_read_ex"@) }
    else if api_id == 9 { Some("SSL_write_ex"@) }
    else if api_id == 20 { Some("gnutls_handshake"@) }
    else if api_id == 21 { Some("gnutls_transport_set_int2"@) }
    else if api_id == 22 { Some("gnutls_record_recv"@) }
    else if api_id == 23 { Some("gnutls_record_send"@) }
    else if api_id == 24 { Some("gnutls_server_name_set"@) }
    else if api_id == 25 { Some("gnutls_protocol_get_version"@) }
    else if api_id == 40 { Some("SSL_ImportFD"@) }
    else if api_id == 41 { Some("PR_Read"@) }
    else if api_id == 42 { Some("PR_Write"@) }
    else if api_id == 43 { Some("SSL_SetURL"@) }
    else if api_id == 44 { Some("SSL_GetChannelInfo"@) }
    else if api_id == 60 { Some("rustls_connection_read"@) }
    else if api_id == 61 { Some("rustls_connection_write"@) }
    else if api_id == 62 { Some("rustls_connection_process_new_packets"@) }
    else { None }
}

pub open spec fn opt_str_view(s: Option<&'static str>) -> Option<Seq<char>> {
    match s {
        Some(t) => Some(t@),
        None => None,
    }
}

pub fn tls_api_function(api_id: u16) -> (r: Option<&'static str>)
    ensures
        opt_str_view(r) == spec_tls_api_function(api_id),
{
    match api_id {
        TLS_API_OPENSSL_CONNECT => Some("SSL_connect"),
        TLS_API_OPENSSL_GET_SERVERNAME => Some("SSL_get_servername"),
        TLS_API_OPENSSL_GET_VERSION => Some("SSL_get_version"),
        TLS_API_OPENSSL_GET_FD => Some("SSL_get_fd"),
        TLS_API_OPENSSL_SET_FD => Some("SSL_set_fd"),
        TLS_API_OPENSSL_READ => Some("SSL_read"),
        TLS_API_OPENSSL_WRITE => Some("SSL_write"),
        TLS_API_OPENSSL_READ_EX => Some("SSL_read_ex"),
        TLS_API_OPENSSL_WRITE_EX => Some("SSL_write_ex"),
        TLS_API_GNUTLS_HANDSHAKE => Some("gnutls_handshake"),
        TLS_API_GNUTLS_SET_FD => Some("gnutls_transport_set_int2"),
        TLS_API_GNUTLS_RECV => Some("gnutls_record_recv"),
        TLS_API_GNUTLS_SEND => Some("gnutls_record_send"),
        TLS_API_GNUTLS_SERVER_NAME => Some("gnutls_server_name_set"),
        TLS_API_GNUTLS_PROTOCOL => Some("gnutls_protocol_get_version"),
        TLS_API_NSS_IMPORT_FD => Some("SSL_ImportFD"),
        TLS_API_NSPR_READ => Some("PR_Read"),
        TLS_API_NSPR_WRITE => Some("PR_Write"),
        TLS_API_NSS_SET_URL => Some("SSL_SetURL"),
        TLS_API_NSS_CHANNEL_INFO => Some("SSL_GetChannelInfo"),
        TLS_API_RUSTLS_READ => Some("rustls_connection_read"),
        TLS_API_RUSTLS_WRITE => Some("rustls_connection_write"),
        TLS_API_RUSTLS_PROCESS_PACKETS => Some("rustls_connection_process_new_packets"),
        _ => None,
    }
}

#[derive(Debug, Clone, Copy, PartialEq, Eq, Structural)]
pub enum EventKind {
    ProcessExec,
    ProcessExit,
    TcpConnect,
    TcpClose,
    TcpStateChanged,
    TcpBytes,
    DnsQuery,
    DnsResponse,
    TlsMetadata,
    Plaintext,
    HttpCapture,
    Http,
    FileOpen,
    FileRead,
    ObservationChanged,
}

/// The variant name of an event kind, as it appears inside event identifiers.
pub open spec fn kind_name(kind: EventKind) -> Seq<char> {
    match kind {
        EventKind::ProcessExec => "ProcessExec"@,
        EventKind::ProcessExit => "ProcessExit"@,
        EventKind::TcpConnect => "TcpConnect"@,
        EventKind::TcpClose => "TcpClose"@,
        EventKind::TcpStateChanged => "TcpStateChanged"@,
        EventKind::TcpBytes => "TcpBytes"@,
        EventKind::DnsQuery => "DnsQuery"@,
        EventKind::DnsResponse => "DnsResponse"@,
        EventKind::TlsMetadata => "TlsMetadata"@,
        EventKind::Plaintext => "Plaintext"@,
        EventKind::HttpCapture => "HttpCapture"@,
        EventKind::Http => "Http"@,
        EventKind::FileOpen => "FileOpen"@,
        EventKind::FileRead => "FileRead"@,
        EventKind::ObservationChanged => "ObservationChanged"@,
    }
}

impl EventKind {
    pub fn name(self) -> (r: &'static str)
        ensures
            r@ == kind_name(self),
    {
        match self {
            EventKind::ProcessExec => "ProcessExec",
            EventKind::ProcessExit => "ProcessExit",
            EventKind::TcpConnect => "TcpConnect",
            EventKind::TcpClose => "TcpClose",
            EventKind::TcpStateChanged => "TcpStateChanged",
            EventKind::TcpBytes => "TcpBytes",
            EventKind::DnsQuery => "DnsQuery",
            EventKind::DnsResponse => "DnsResponse",
            EventKind::TlsMetadata => "TlsMetadata",
            EventKind::Plaintext => "Plaintext",
            EventKind::HttpCapture => "HttpCapture",
            EventKind::Http => "Http",
            EventKind::FileOpen => "FileOpen",
            EventKind::FileRead => "FileRead",
            EventKind::ObservationChanged => "ObservationChanged",
        }
    }
}

#[derive(Debug, Clone, Copy, PartialEq, Eq, Structural)]
pub enum TransportProtocol {
    Tcp,
    Udp,
}

#[derive(Debug, Clone, Copy, PartialEq, Eq, Structural)]
pub enum ConnectionState {
    Connecting,
    Established,
    Closed,
}

#[derive(Debug, Clone, Copy, PartialEq, Eq, Structural)]
pub enum TcpState {
    Established,
    SynSent,
    SynRecv,
    FinWait1,
    FinWait2,
    TimeWait,
    Close,
    CloseWait,
    LastAck,
    Listen,
    Closing,
    NewSynRecv,
    Unknown,
}

pub open spec fn opt_string_view(s: Option<String>) -> Option<Seq<char>> {
    match s {
        Some(t) => Some(t@),
        None => None,
    }
}

/// Copies an optional string, keeping its contents.
pub fn clone_opt_string(s: &Option<String>) -> (r: Option<String>)
    ensures
        r == *s,
{
    match s {
        Some(t) => Some(t.clone()),
        None => None,
    }
}

/// Copies a list of strings, keeping every element.
pub fn clone_strings(v: &Vec<String>) -> (r: Vec<String>)
    ensures
        r@ == v@,
{
    let mut r: Vec<String> = Vec::new();
    let mut i: usize = 0;
    while i < v.len()
        invariant
            i <= v.len(),
            r@ == v@.take(i as int),
        decreases v.len() - i,
    {
        r.push(v[i].clone());
        assert(v@.take(i + 1) =~= v@.take(i as int).push(v@[i as int]));
        i += 1;
    }
    assert(v@.take(v.len() as int) =~= v@);
    r
}

#[derive(Debug, Clone, PartialEq, Eq)]
pub struct ProcessRef {
    pub pid: u32,
    pub ppid: Option<u32>,
    pub executable: Option<String>,
    pub command_line: Option<String>,
    pub start_time_ns: Option<u64>,
}

impl ProcessRef {
    pub fn duplicate(&self) -> (r: Self)
        ensures
            r == *self,
    {
        ProcessRef {
            pid: self.pid,
            ppid: self.ppid,
            executable: clone_opt_string(&self.executable),
            command_line: clone_opt_string(&self.command_line),
            start_time_ns: self.start_time_ns,
        }
    }
}

pub fn clone_opt_process(p: &Option<ProcessRef>) -> (r: Option<ProcessRef>)
    ensures
        r == *p,
{
    match p {
        Some(q) => Some(q.duplicate()),
        None => None,
    }
}

#[derive(Debug, Clone, PartialEq, Eq)]
pub struct Endpoint {
    pub address: String,
    pub port: u16,
}

impl Endpoint {
    pub fn duplicate(&self) -> (r: Self)
        ensures
            r == *self,
    {
        Endpoint { address: self.address.clone(), port: self.port }
    }

    /// Endpoint equality by address text and port.
    pub fn same_as(&self, other: &Endpoint) -> (r: bool)
        ensures
            r == (self.address@ == other.address@ && self.port == other.port),
    {
        self.port == other.port && self.address == other.address
    }
}

pub fn clone_opt_endpoint(e: &Option<Endpoint>) -> (r: Option<Endpoint>)
    ensures
        r == *e,
{
    match e {
        Some(x) => Some(x.duplicate()),
        None => None,
    }
}

#[derive(Debug, Clone, PartialEq, Eq)]
pub struct ConnectionRef {
    pub id: String,
    pub protocol: TransportProtocol,
    pub local: Option<Endpoint>,
    pub remote: Endpoint,
    pub state: ConnectionState,
    pub tcp_state: Option<TcpState>,
    pub sent_bytes: u64,
    pub received_bytes: u64,
    pub domain: Option<String>,
}

impl ConnectionRef {
    pub fn duplicate(&self) -> (r: Self)
        ensures
            r == *self,
    {
        ConnectionRef {
            id: self.id.clone(),
            protocol: self.protocol,
            local: clone_opt_endpoint(&self.local),
            remote: self.remote.duplicate(),
            state: self.state,
            tcp_state: self.tcp_state,
            sent_bytes: self.sent_bytes,
            received_bytes: self.received_bytes,
            domain: clone_opt_string(&self.domain),
        }
    }
}

pub fn clone_opt_connection(c: &Option<ConnectionRef>) -> (r: Option<ConnectionRef>)
    ensures
        r == *c,
{
    match c {
        Some(x) => Some(x.duplicate()),
        None => None,
    }
}

#[derive(Debug, Clone, PartialEq, Eq)]
pub struct DnsEventData {
    pub protocol: TransportProtocol,
    pub domain: String,
    pub addresses: Vec<String>,
    pub ttl_secs: u32,
}

#[derive(Debug, Clone, PartialEq, Eq)]
pub struct TlsEventData {
    pub ssl_object: u64,
    pub fd: Option<i32>,
    pub sni: Option<String>,
    pub version: Option<String>,
}

#[derive(Debug, Clone, Copy, PartialEq, Eq, Structural)]
pub enum PlaintextDirection {
    Read,
    Write,
}

pub open spec fn direction_name(d: PlaintextDirection) -> Seq<char> {
    match d {
        PlaintextDirection::Read => "Read"@,
        PlaintextDirection::Write => "Write"@,
    }
}

#[derive(Debug, Clone, PartialEq, Eq)]
pub struct PlaintextEventData {
    pub ssl_object: u64,
    pub fd: Option<i32>,
    pub direction: PlaintextDirection,
    pub data: String,
    pub bytes: usize,
    pub truncated: bool,
}

#[derive(Debug, Clone, PartialEq, Eq)]
pub struct HttpCaptureEventData {
    pub ssl_object: u64,
    pub fd: Option<i32>,
    pub direction: PlaintextDirection,
    pub data: Vec<u8>,
    pub bytes: usize,
    pub truncated: bool,
}

#[derive(Debug, Clone, Copy, PartialEq, Eq, Structural)]
pub enum HttpMessageDirection {
    Request,
    Response,
}

#[derive(Debug, Clone, PartialEq, Eq)]
pub struct HttpHeader {
    pub name: String,
    pub value: String,
}

#[derive(Debug, Clone, PartialEq, Eq)]
pub struct HttpEventData {
    pub stream_id: Option<String>,
    pub direction: HttpMessageDirection,
    pub version: String,
    pub method: Option<String>,
    pub target: Option<String>,
    pub host: Option<String>,
    pub status: Option<u16>,
    pub reason: Option<String>,
    pub headers: Vec<HttpHeader>,
    pub content_length: Option<usize>,
    pub body_preview: Option<String>,
    pub body_bytes: usize,
    pub body_truncated: bool,
    pub payload_skipped: bool,
    pub payload_skip_reason: Option<String>,
}

#[derive(Debug, Clone, PartialEq, Eq)]
pub struct FileEventData {
    pub path: String,
    pub bytes: u64,
}

#[allow(inconsistent_fields)]
#[derive(Debug, Clone, PartialEq, Eq)]
pub enum EventPayload {
    Empty,
    Process { executable: String, command_line: String },
    Connection { connection: ConnectionRef },
    Dns { protocol: TransportProtocol, domain: String, addresses: Vec<String>, ttl_secs: u32 },
    Tls { ssl_object: u64, fd: Option<i32>, sni: Option<String>, version: Option<String> },
    Plaintext {
        ssl_object: u64,
        fd: Option<i32>,
        direction: PlaintextDirection,
        data: String,
        raw_data: Option<Vec<u8>>,
        bytes: usize,
        truncated: bool,
        payload_skipped: bool,
        payload_skip_reason: Option<String>,
    },
    /// Bounded application bytes used internally to derive HTTP metadata.
    HttpCapture {
        ssl_object: u64,
        fd: Option<i32>,
        direction: PlaintextDirection,
        data: Vec<u8>,
        bytes: usize,
        truncated: bool,
        payload_skipped: bool,
        payload_skip_reason: Option<String>,
    },
    Http {
        stream_id: Option<String>,
        direction: HttpMessageDirection,
        version: String,
        method: Option<String>,
        target: Option<String>,
        host: Option<String>,
        status: Option<u16>,
        reason: Option<String>,
        headers: Vec<HttpHeader>,
        content_length: Option<usize>,
        body_preview: Option<String>,
        body_bytes: usize,
        body_truncated: bool,
        payload_skipped: bool,
        payload_skip_reason: Option<String>,
    },
    File { path: String, bytes: u64 },
    Observation { target: String, level: u8 },
}

#[derive(Debug, Clone, PartialEq, Eq)]
pub struct TraceEvent {
    pub id: EventId,
    pub timestamp_ns: u64,
    pub source: EventSource,
    pub kind: EventKind,
    pub pid: Option<u32>,
    pub process: Option<ProcessRef>,
    pub connection: Option<ConnectionRef>,
    pub instrumentation: Option<InstrumentationSource>,
    pub payload: EventPayload,
}

/// A fixed sample event for wiring the UI and local API: `curl` starting.
pub fn example_event() -> (r: TraceEvent)
    ensures
        r.kind == EventKind::ProcessExec,
        r.pid == Some(12345u32),
        r.timestamp_ns == 1_723_000_000_000_000_000u64,
        r.process matches Some(p) && opt_string_view(p.executable) == Some("curl"@)
            && opt_string_view(p.command_line) == Some("curl https://example.com"@),
{
    TraceEvent::process_exec(12345, "curl", "curl https://example.com", 1_723_000_000_000_000_000)
}

/// Two payloads hold the same values, their lists compared by contents.
pub open spec fn payload_copy(a: EventPayload, b: EventPayload) -> bool {
    match (a, b) {
        (
            EventPayload::Dns { protocol: p1, domain: d1, addresses: x1, ttl_secs: t1 },
            EventPayload::Dns { protocol: p2, domain: d2, addresses: x2, ttl_secs: t2 },
        ) => p1 == p2 && d1 == d2 && x1@ == x2@ && t1 == t2,
        (
            EventPayload::Plaintext {
                ssl_object: s1,
                fd: f1,
                direction: r1,
                data: d1,
                raw_data: w1,
                bytes: b1,
                truncated: t1,
                payload_skipped: k1,
                payload_skip_reason: q1,
            },
            EventPayload::Plaintext {
                ssl_object: s2,
                fd: f2,
                direction: r2,
                data: d2,
                raw_data: w2,
                bytes: b2,
                truncated: t2,
                payload_skipped: k2,
                payload_skip_reason: q2,
            },
        ) => s1 == s2 && f1 == f2 && r1 == r2 && d1 == d2 && match (w1, w2) {
            (Some(v1), Some(v2)) => v1@ == v2@,
            (None, None) => true,
            _ => false,
        } && b1 == b2 && t1 == t2 && k1 == k2 && q1 == q2,
        (
            EventPayload::HttpCapture {
                ssl_object: s1,
                fd: f1,
                direction: r1,
                data: d1,
                bytes: b1,
                truncated: t1,
                payload_skipped: k1,
                payload_skip_reason: q1,
            },
            EventPayload::HttpCapture {
                ssl_object: s2,
                fd: f2,
                direction: r2,
                data: d2,
                bytes: b2,
                truncated: t2,
                payload_skipped: k2,
                payload_skip_reason: q2,
            },
        ) => s1 == s2 && f1 == f2 && r1 == r2 && d1@ == d2@ && b1 == b2 && t1 == t2 && k1 == k2 && q1
            == q2,
        (
            EventPayload::Http {
                stream_id: i1,
                direction: r1,
                version: v1,
                method: m1,
                target: g1,
                host: h1,
                status: s1,
                reason: n1,
                headers: e1,
                content_length: c1,
                body_preview: p1,
                body_bytes: b1,
                body_truncated: t1,
                payload_skipped: k1,
                payload_skip_reason: q1,
            },
            EventPayload::Http {
                stream_id: i2,
                direction: r2,
                version: v2,
                method: m2,
                target: g2,
                host: h2,
                status: s2,
                reason: n2,
                headers: e2,
                content_length: c2,
                body_preview: p2,
                body_bytes: b2,
                body_truncated: t2,
                payload_skipped: k2,
                payload_skip_reason: q2,
            },
        ) => i1 == i2 && r1 == r2 && v1 == v2 && m1 == m2 && g1 == g2 && h1 == h2 && s1 == s2 && n1
            == n2 && e1@ == e2@ && c1 == c2 && p1 == p2 && b1 == b2 && t1 == t2 && k1 == k2 && q1 == q2,
        _ => a == b,
    }
}

/// Two events hold the same values.
pub open spec fn event_copy(a: TraceEvent, b: TraceEvent) -> bool {
    &&& a.id == b.id
    &&& a.timestamp_ns == b.timestamp_ns
    &&& a.source == b.source
    &&& a.kind == b.kind
    &&& a.pid == b.pid
    &&& a.process == b.process
    &&& a.connection == b.connection
    &&& a.instrumentation == b.instrumentation
    &&& payload_copy(a.payload, b.payload)
}

fn copy_bytes(v: &Vec<u8>) -> (r: Vec<u8>)
    ensures
        r@ == v@,
{
    let r = v.clone();
    assert(r@ =~= v@);
    r
}

fn copy_headers(v: &Vec<HttpHeader>) -> (r: Vec<HttpHeader>)
    ensures
        r@ == v@,
{
    let mut r: Vec<HttpHeader> = Vec::new();
    let mut i: usize = 0;
    while i < v.len()
        invariant
            i <= v@.len(),
            r@ == v@.take(i as int),
        decreases v.len() - i,
    {
        r.push(HttpHeader { name: v[i].name.clone(), value: v[i].value.clone() });
        assert(v@.take(i + 1) =~= v@.take(i as int).push(v@[i as int]));
        i += 1;
    }
    assert(v@.take(i as int) =~= v@);
    r
}

impl EventPayload {
    pub fn duplicate(&self) -> (r: Self)
        ensures
            payload_copy(r, *self),
    {
        match self {
            EventPayload::Empty => EventPayload::Empty,
            EventPayload::Process { executable, command_line } => EventPayload::Process {
                executable: executable.clone(),
                command_line: command_line.clone(),
            },
            EventPayload::Connection { connection } => EventPayload::Connection {
                connection: connection.duplicate(),
            },
            EventPayload::Dns { protocol, domain, addresses, ttl_secs } => EventPayload::Dns {
                protocol: *protocol,
                domain: domain.clone(),
                addresses: clone_strings(addresses),
                ttl_secs: *ttl_secs,
            },
            EventPayload::Tls { ssl_object, fd, sni, version } => EventPayload::Tls {
                ssl_object: *ssl_object,
                fd: *fd,
                sni: clone_opt_string(sni),
                version: clone_opt_string(version),
            },
            EventPayload::Plaintext {
                ssl_object,
                fd,
                direction,
                data,
                raw_data,
                bytes,
                truncated,
                payload_skipped,
                payload_skip_reason,
            } => EventPayload::Plaintext {
                ssl_object: *ssl_object,
                fd: *fd,
                direction: *direction,
                data: data.clone(),
                raw_data: match raw_data {
                    Some(w) => Some(copy_bytes(w)),
                    None => None,
                },
                bytes: *bytes,
                truncated: *truncated,
                payload_skipped: *payload_skipped,
                payload_skip_reason: clone_opt_string(payload_skip_reason),
            },
            EventPayload::HttpCapture {
                ssl_object,
                fd,
                direction,
                data,
                bytes,
                truncated,
                payload_skipped,
                payload_skip_reason,
            } => EventPayload::HttpCapture {
                ssl_object: *ssl_object,
                fd: *fd,
                direction: *direction,
                data: copy_bytes(data),
                bytes: *bytes,
                truncated: *truncated,
                payload_skipped: *payload_skipped,
                payload_skip_reason: clone_opt_string(payload_skip_reason),
            },
            EventPayload::Http {
                stream_id,
                direction,
                version,
                method,
                target,
                host,
                status,
                reason,
                headers,
                content_length,
                body_preview,
                body_bytes,
                body_truncated,
                payload_skipped,
                payload_skip_reason,
            } => EventPayload::Http {
                stream_id: clone_opt_string(stream_id),
                direction: *direction,
                version: version.clone(),
                method: clone_opt_string(method),
                target: clone_opt_string(target),
                host: clone_opt_string(host),
                status: *status,
                reason: clone_opt_string(reason),
                headers: copy_headers(headers),
                content_length: *content_length,
                body_preview: clone_opt_string(body_preview),
                body_bytes: *body_bytes,
                body_truncated: *body_truncated,
                payload_skipped: *payload_skipped,
                payload_skip_reason: clone_opt_string(payload_skip_reason),
            },
            EventPayload::File { path, bytes } => EventPayload::File { path: path.clone(), bytes: *bytes },
            EventPayload::Observation { target, level } => EventPayload::Observation {
                target: target.clone(),
                level: *level,
            },
        }
    }
}

impl TraceEvent {
    pub fn duplicate(&self) -> (r: Self)
        ensures
            event_copy(r, *self),
    {
        TraceEvent {
            id: self.id.clone(),
            timestamp_ns: self.timestamp_ns,
            source: self.source,
            kind: self.kind,
            pid: self.pid,
            process: clone_opt_process(&self.process),
            connection: clone_opt_connection(&self.connection),
            instrumentation: match &self.instrumentation {
                Some(i) => Some(
                    InstrumentationSource {
                        provider: i.provider.clone(),
                        library: i.library.clone(),
                        api_function: i.api_function.clone(),
                    },
                ),
                None => None,
            },
            payload: self.payload.duplicate(),
        }
    }
}

/// `a-b-c-...`: parts joined by hyphens.
pub open spec fn hyphen2(a: Seq<char>, b: Seq<char>) -> Seq<char> {
    a + "-"@ + b
}

pub open spec fn process_event_id(kind: EventKind, pid: u32, ts: u64) -> Seq<char> {
    hyphen2(hyphen2(hyphen2("process"@, kind_name(kind)), decimal(pid as nat)), decimal(ts as nat))
}

pub open spec fn connection_event_id(kind: EventKind, id: Seq<char>, ts: u64) -> Seq<char> {
    hyphen2(hyphen2(hyphen2("connection"@, kind_name(kind)), id), decimal(ts as nat))
}

pub open spec fn dns_event_id(kind: EventKind, pid: u32, domain: Seq<char>, ts: u64) -> Seq<char> {
    hyphen2(
        hyphen2(hyphen2(hyphen2("dns"@, kind_name(kind)), decimal(pid as nat)), domain),
        decimal(ts as nat),
    )
}

pub open spec fn observation_event_id(target: Seq<char>, ts: u64) -> Seq<char> {
    hyphen2(hyphen2("observation"@, target), decimal(ts as nat))
}

pub open spec fn tls_event_id(pid: u32, ssl_object: u64, ts: u64) -> Seq<char> {
    hyphen2(hyphen2(hyphen2("tls"@, decimal(pid as nat)), decimal(ssl_object as nat)), decimal(ts as nat))
}

pub open spec fn plaintext_event_id(pid: u32, ssl_object: u64, d: PlaintextDirection, ts: u64) -> Seq<char> {
    hyphen2(
        hyphen2(hyphen2(hyphen2("plaintext"@, decimal(pid as nat)), decimal(ssl_object as nat)), direction_name(d)),
        decimal(ts as nat),
    )
}

pub open spec fn http_direction_word(d: HttpMessageDirection) -> Seq<char> {
    match d {
        HttpMessageDirection::Request => "request"@,
        HttpMessageDirection::Response => "response"@,
    }
}

pub open spec fn http_event_id(pid: u32, d: HttpMessageDirection, ts: u64, sequence: usize) -> Seq<char> {
    hyphen2(
        hyphen2(hyphen2(hyphen2("http"@, decimal(pid as nat)), http_direction_word(d)), decimal(ts as nat)),
        decimal(sequence as nat),
    )
}

pub open spec fn http_capture_event_id(pid: u32, ssl_object: u64, d: PlaintextDirection, ts: u64) -> Seq<char> {
    hyphen2(
        hyphen2(hyphen2(hyphen2("http-capture"@, decimal(pid as nat)), decimal(ssl_object as nat)), direction_name(d)),
        decimal(ts as nat),
    )
}

pub open spec fn file_event_id(kind: EventKind, pid: u32, path: Seq<char>, ts: u64) -> Seq<char> {
    hyphen2(
        hyphen2(hyphen2(hyphen2("file"@, kind_name(kind)), decimal(pid as nat)), path),
        decimal(ts as nat),
    )
}

/// The text that lossy UTF-8 decoding (`String::from_utf8_lossy`) makes of
/// a byte sequence.
pub uninterp spec fn lossy_utf8(bytes: Seq<u8>) -> Seq<char>;

/// Lossy UTF-8 decoding (`String::from_utf8_lossy`). Valid UTF-8 decodes
/// exactly; what invalid sequences become (replacement characters) is left
/// to the name `lossy_utf8`.
#[verifier::external_body]
pub(crate) fn utf8_lossy(bytes: &[u8]) -> (r: String)
    ensures
        r@ == lossy_utf8(bytes@),
        valid_utf8(bytes@) ==> r@ == decode_utf8(bytes@),
{
    String::from_utf8_lossy(bytes).into_owned()
}

fn push_hyphen(s: &mut String)
    ensures
        final(s)@ == old(s)@ + "-"@,
{
    push_str(s, "-");
}

impl TraceEvent {
    pub fn with_instrumentation(self, provider: &str, library: &str, api_id: u16) -> (r: Self)
        ensures
            spec_tls_api_function(api_id) matches Some(name) ==> {
                &&& r.instrumentation matches Some(i)
                &&& i.provider@ == provider@
                &&& i.library@ == library@
                &&& i.api_function@ == name
            },
            spec_tls_api_function(api_id) is None ==> r.instrumentation == self.instrumentation,
            r.id == self.id,
            r.timestamp_ns == self.timestamp_ns,
            r.source == self.source,
            r.kind == self.kind,
            r.pid == self.pid,
            r.process == self.process,
            r.connection == self.connection,
            r.payload == self.payload,
    {
        let mut event = self;
        if let Some(api_function) = tls_api_function(api_id) {
            event.instrumentation = Some(
                InstrumentationSource {
                    provider: provider.to_owned(),
                    library: library.to_owned(),
                    api_function: api_function.to_owned(),
                },
            );
        }
        event
    }

    pub fn process_exec(pid: u32, executable: &str, command_line: &str, timestamp_ns: u64) -> (r: Self)
        ensures
            r.id@ == process_event_id(EventKind::ProcessExec, pid, timestamp_ns),
            r.source == EventSource::Core,
            r.kind == EventKind::ProcessExec,
            r.pid == Some(pid),
            r.timestamp_ns == timestamp_ns,
            r.connection is None,
            r.instrumentation is None,
            r.process matches Some(p) && p.pid == pid && p.ppid is None && p.start_time_ns
                == Some(timestamp_ns) && opt_string_view(p.executable) == Some(executable@)
                && opt_string_view(p.command_line) == Some(command_line@),
            r.payload matches EventPayload::Process { executable: e, command_line: c } && e@
                == executable@ && c@ == command_line@,
    {
        Self::process_event(
            EventSource::Core,
            EventKind::ProcessExec,
            pid,
            None,
            executable,
            command_line,
            timestamp_ns,
        )
    }

    pub fn process_event(
        source: EventSource,
        kind: EventKind,
        pid: u32,
        ppid: Option<u32>,
        executable: &str,
        command_line: &str,
        timestamp_ns: u64,
    ) -> (r: Self)
        ensures
            r.id@ == process_event_id(kind, pid, timestamp_ns),
            r.source == source,
            r.kind == kind,
            r.pid == Some(pid),
            r.timestamp_ns == timestamp_ns,
            r.connection is None,
            r.instrumentation is None,
            r.process matches Some(p) && p.pid == pid && p.ppid == ppid && p.start_time_ns
                == Some(timestamp_ns) && opt_string_view(p.executable) == Some(executable@)
                && opt_string_view(p.command_line) == Some(command_line@),
            r.payload matches EventPayload::Process { executable: e, command_line: c } && e@
                == executable@ && c@ == command_line@,
    {
        let mut id = String::new();
        push_str(&mut id, "process");
        push_hyphen(&mut id);
        push_str(&mut id, kind.name());
        push_hyphen(&mut id);
        push_decimal(&mut id, pid as u64);
        push_hyphen(&mut id);
        push_decimal(&mut id, timestamp_ns);
        Self {
            id,
            timestamp_ns,
            source,
            kind,
            pid: Some(pid),
            process: Some(
                ProcessRef {
                    pid,
                    ppid,
                    executable: Some(executable.to_owned()),
                    command_line: Some(command_line.to_owned()),
                    start_time_ns: Some(timestamp_ns),
                },
            ),
            connection: None,
            instrumentation: None,
            payload: EventPayload::Process {
                executable: executable.to_owned(),
                command_line: command_line.to_owned(),
            },
        }
    }

    pub fn connection_event(
        source: EventSource,
        kind: EventKind,
        pid: u32,
        connection: ConnectionRef,
        timestamp_ns: u64,
    ) -> (r: Self)
        ensures
            r.id@ == connection_event_id(kind, connection.id@, timestamp_ns),
            r.source == source,
            r.kind == kind,
            r.pid == Some(pid),
            r.timestamp_ns == timestamp_ns,
            r.process is None,
            r.instrumentation is None,
            r.connection == Some(connection),
            r.payload == (EventPayload::Connection { connection }),
    {
        Self::connection_event_with_process(source, kind, pid, None, connection, timestamp_ns)
    }

    pub fn connection_event_with_process(
        source: EventSource,
        kind: EventKind,
        pid: u32,
        process: Option<ProcessRef>,
        connection: ConnectionRef,
        timestamp_ns: u64,
    ) -> (r: Self)
        ensures
            r.id@ == connection_event_id(kind, connection.id@, timestamp_ns),
            r.source == source,
            r.kind == kind,
            r.pid == Some(pid),
            r.timestamp_ns == timestamp_ns,
            r.process == process,
            r.instrumentation is None,
            r.connection == Some(connection),
            r.payload == (EventPayload::Connection { connection }),
    {
        let mut id = String::new();
        push_str(&mut id, "connection");
        push_hyphen(&mut id);
        push_str(&mut id, kind.name());
        push_hyphen(&mut id);
        push_str(&mut id, connection.id.as_str());
        push_hyphen(&mut id);
        push_decimal(&mut id, timestamp_ns);
        Self {
            id,
            timestamp_ns,
            source,
            kind,
            pid: Some(pid),
            process,
            connection: Some(connection.duplicate()),
            instrumentation: None,
            payload: EventPayload::Connection { connection },
        }
    }

    pub fn dns_event(
        source: EventSource,
        kind: EventKind,
        pid: u32,
        domain: &str,
        addresses: Vec<String>,
        ttl_secs: u32,
        timestamp_ns: u64,
    ) -> (r: Self)
        ensures
            r.id@ == dns_event_id(kind, pid, domain@, timestamp_ns),
            r.source == source,
            r.kind == kind,
            r.pid == Some(pid),
            r.timestamp_ns == timestamp_ns,
            r.process is None,
            r.connection is None,
            r.instrumentation is None,
            r.payload matches EventPayload::Dns { protocol: p, domain: d, addresses: a, ttl_secs: t }
                && p == TransportProtocol::Udp && d@ == domain@ && a == addresses && t == ttl_secs,
    {
        Self::dns_event_with_data(
            source,
            kind,
            pid,
            DnsEventData {
                protocol: TransportProtocol::Udp,
                domain: domain.to_owned(),
                addresses,
                ttl_secs,
            },
            timestamp_ns,
        )
    }

    pub fn dns_event_with_data(
        source: EventSource,
        kind: EventKind,
        pid: u32,
        data: DnsEventData,
        timestamp_ns: u64,
    ) -> (r: Self)
        ensures
            r.id@ == dns_event_id(kind, pid, data.domain@, timestamp_ns),
            r.source == source,
            r.kind == kind,
            r.pid == Some(pid),
            r.timestamp_ns == timestamp_ns,
            r.process is None,
            r.connection is None,
            r.instrumentation is None,
            r.payload == (EventPayload::Dns {
                protocol: data.protocol,
                domain: data.domain,
                addresses: data.addresses,
                ttl_secs: data.ttl_secs,
            }),
    {
        let mut id = String::new();
        push_str(&mut id, "dns");
        push_hyphen(&mut id);
        push_str(&mut id, kind.name());
        push_hyphen(&mut id);
        push_decimal(&mut id, pid as u64);
        push_hyphen(&mut id);
        push_str(&mut id, data.domain.as_str());
        push_hyphen(&mut id);
        push_decimal(&mut id, timestamp_ns);
        Self {
            id,
            timestamp_ns,
            source,
            kind,
            pid: Some(pid),
            process: None,
            connection: None,
            instrumentation: None,
            payload: EventPayload::Dns {
                protocol: data.protocol,
                domain: data.domain,
                addresses: data.addresses,
                ttl_secs: data.ttl_secs,
            },
        }
    }

    pub fn observation_event(target: String, level: u8, timestamp_ns: u64) -> (r: Self)
        ensures
            r.id@ == observation_event_id(target@, timestamp_ns),
            r.source == EventSource::Core,
            r.kind == EventKind::ObservationChanged,
            r.pid is None,
            r.timestamp_ns == timestamp_ns,
            r.process is None,
            r.connection is None,
            r.instrumentation is None,
            r.payload == (EventPayload::Observation { target, level }),
    {
        let mut id = String::new();
        push_str(&mut id, "observation");
        push_hyphen(&mut id);
        push_str(&mut id, target.as_str());
        push_hyphen(&mut id);
        push_decimal(&mut id, timestamp_ns);
        Self {
            id,
            timestamp_ns,
            source: EventSource::Core,
            kind: EventKind::ObservationChanged,
            pid: None,
            process: None,
            connection: None,
            instrumentation: None,
            payload: EventPayload::Observation { target, level },
        }
    }

    pub fn tls_metadata(source: EventSource, pid: u32, data: TlsEventData, timestamp_ns: u64) -> (r: Self)
        ensures
            r.id@ == tls_event_id(pid, data.ssl_object, timestamp_ns),
            r.source == source,
            r.kind == EventKind::TlsMetadata,
            r.pid == Some(pid),
            r.timestamp_ns == timestamp_ns,
            r.process is None,
            r.connection is None,
            r.instrumentation is None,
            r.payload == (EventPayload::Tls {
                ssl_object: data.ssl_object,
                fd: data.fd,
                sni: data.sni,
                version: data.version,
            }),
    {
        let mut id = String::new();
        push_str(&mut id, "tls");
        push_hyphen(&mut id);
        push_decimal(&mut id, pid as u64);
        push_hyphen(&mut id);
        push_decimal(&mut id, data.ssl_object);
        push_hyphen(&mut id);
        push_decimal(&mut id, timestamp_ns);
        Self {
            id,
            timestamp_ns,
            source,
            kind: EventKind::TlsMetadata,
            pid: Some(pid),
            process: None,
            connection: None,
            instrumentation: None,
            payload: EventPayload::Tls {
                ssl_object: data.ssl_object,
                fd: data.fd,
                sni: data.sni,
                version: data.version,
            },
        }
    }

    pub fn plaintext(source: EventSource, pid: u32, data: PlaintextEventData, timestamp_ns: u64) -> (r: Self)
        ensures
            r.id@ == plaintext_event_id(pid, data.ssl_object, data.direction, timestamp_ns),
            r.source == source,
            r.kind == EventKind::Plaintext,
            r.pid == Some(pid),
            r.timestamp_ns == timestamp_ns,
            r.process is None,
            r.connection is None,
            r.instrumentation is None,
            r.payload == (EventPayload::Plaintext {
                ssl_object: data.ssl_object,
                fd: data.fd,
                direction: data.direction,
                data: data.data,
                raw_data: None,
                bytes: data.bytes,
                truncated: data.truncated,
                payload_skipped: false,
                payload_skip_reason: None,
            }),
    {
        let id = plaintext_id("plaintext", pid, data.ssl_object, data.direction, timestamp_ns);
        Self {
            id,
            timestamp_ns,
            source,
            kind: EventKind::Plaintext,
            pid: Some(pid),
            process: None,
            connection: None,
            instrumentation: None,
            payload: EventPayload::Plaintext {
                ssl_object: data.ssl_object,
                fd: data.fd,
                direction: data.direction,
                data: data.data,
                raw_data: None,
                bytes: data.bytes,
                truncated: data.truncated,
                payload_skipped: false,
                payload_skip_reason: None,
            },
        }
    }

    pub fn plaintext_bytes(source: EventSource, pid: u32, data: HttpCaptureEventData, timestamp_ns: u64) -> (r: Self)
        ensures
            r.id@ == plaintext_event_id(pid, data.ssl_object, data.direction, timestamp_ns),
            r.source == source,
            r.kind == EventKind::Plaintext,
            r.pid == Some(pid),
            r.timestamp_ns == timestamp_ns,
            r.process is None,
            r.connection is None,
            r.instrumentation is None,
            r.payload matches EventPayload::Plaintext {
                ssl_object,
                fd,
                direction,
                data: text,
                raw_data,
                bytes,
                truncated,
                payload_skipped,
                payload_skip_reason,
            } && ssl_object == data.ssl_object && fd == data.fd && direction == data.direction
                && text@ == lossy_utf8(data.data@) && raw_data == Some(data.data) && bytes
                == data.bytes && truncated == data.truncated && !payload_skipped
                && payload_skip_reason is None,
    {
        let text = utf8_lossy(data.data.as_slice());
        let id = plaintext_id("plaintext", pid, data.ssl_object, data.direction, timestamp_ns);
        Self {
            id,
            timestamp_ns,
            source,
            kind: EventKind::Plaintext,
            pid: Some(pid),
            process: None,
            connection: None,
            instrumentation: None,
            payload: EventPayload::Plaintext {
                ssl_object: data.ssl_object,
                fd: data.fd,
                direction: data.direction,
                data: text,
                raw_data: Some(data.data),
                bytes: data.bytes,
                truncated: data.truncated,
                payload_skipped: false,
                payload_skip_reason: None,
            },
        }
    }

    pub fn http(source: EventSource, pid: u32, data: HttpEventData, timestamp_ns: u64) -> (r: Self)
        ensures
            r.id@ == http_event_id(pid, data.direction, timestamp_ns, 0),
            r.source == source,
            r.kind == EventKind::Http,
            r.pid == Some(pid),
            r.timestamp_ns == timestamp_ns,
            r.process is None,
            r.connection is None,
            r.instrumentation is None,
            r.payload == http_payload(data),
    {
        Self::http_with_sequence(source, pid, data, timestamp_ns, 0)
    }

    pub fn http_with_sequence(
        source: EventSource,
        pid: u32,
        data: HttpEventData,
        timestamp_ns: u64,
        sequence: usize,
    ) -> (r: Self)
        ensures
            r.id@ == http_event_id(pid, data.direction, timestamp_ns, sequence),
            r.source == source,
            r.kind == EventKind::Http,
            r.pid == Some(pid),
            r.timestamp_ns == timestamp_ns,
            r.process is None,
            r.connection is None,
            r.instrumentation is None,
            r.payload == http_payload(data),
    {
        let mut id = String::new();
        push_str(&mut id, "http");
        push_hyphen(&mut id);
        push_decimal(&mut id, pid as u64);
        push_hyphen(&mut id);
        match data.direction {
            HttpMessageDirection::Request => push_str(&mut id, "request"),
            HttpMessageDirection::Response => push_str(&mut id, "response"),
        }
        push_hyphen(&mut id);
        push_decimal(&mut id, timestamp_ns);
        push_hyphen(&mut id);
        push_decimal(&mut id, sequence as u64);
        Self {
            id,
            timestamp_ns,
            source,
            kind: EventKind::Http,
            pid: Some(pid),
            process: None,
            connection: None,
            instrumentation: None,
            payload: EventPayload::Http {
                stream_id: data.stream_id,
                direction: data.direction,
                version: data.version,
                method: data.method,
                target: data.target,
                host: data.host,
                status: data.status,
                reason: data.reason,
                headers: data.headers,
                content_length: data.content_length,
                body_preview: data.body_preview,
                body_bytes: data.body_bytes,
                body_truncated: data.body_truncated,
                payload_skipped: data.payload_skipped,
                payload_skip_reason: data.payload_skip_reason,
            },
        }
    }

    pub fn http_capture(source: EventSource, pid: u32, data: HttpCaptureEventData, timestamp_ns: u64) -> (r: Self)
        ensures
            r.id@ == http_capture_event_id(pid, data.ssl_object, data.direction, timestamp_ns),
            r.source == source,
            r.kind == EventKind::HttpCapture,
            r.pid == Some(pid),
            r.timestamp_ns == timestamp_ns,
            r.process is None,
            r.connection is None,
            r.instrumentation is None,
            r.payload == (EventPayload::HttpCapture {
                ssl_object: data.ssl_object,
                fd: data.fd,
                direction: data.direction,
                data: data.data,
                bytes: data.bytes,
                truncated: data.truncated,
                payload_skipped: false,
                payload_skip_reason: None,
            }),
    {
        let id = plaintext_id("http-capture", pid, data.ssl_object, data.direction, timestamp_ns);
        Self {
            id,
            timestamp_ns,
            source,
            kind: EventKind::HttpCapture,
            pid: Some(pid),
            process: None,
            connection: None,
            instrumentation: None,
            payload: EventPayload::HttpCapture {
                ssl_object: data.ssl_object,
                fd: data.fd,
                direction: data.direction,
                data: data.data,
                bytes: data.bytes,
                truncated: data.truncated,
                payload_skipped: false,
                payload_skip_reason: None,
            },
        }
    }

    pub fn file_event(source: EventSource, kind: EventKind, pid: u32, data: FileEventData, timestamp_ns: u64) -> (r: Self)
        ensures
            r.id@ == file_event_id(kind, pid, data.path@, timestamp_ns),
            r.source == source,
            r.kind == kind,
            r.pid == Some(pid),
            r.timestamp_ns == timestamp_ns,
            r.process is None,
            r.connection is None,
            r.instrumentation is None,
            r.payload == (EventPayload::File { path: data.path, bytes: data.bytes }),
    {
        let mut id = String::new();
        push_str(&mut id, "file");
        push_hyphen(&mut id);
        push_str(&mut id, kind.name());
        push_hyphen(&mut id);
        push_decimal(&mut id, pid as u64);
        push_hyphen(&mut id);
        push_str(&mut id, data.path.as_str());
        push_hyphen(&mut id);
        push_decimal(&mut id, timestamp_ns);
        Self {
            id,
            timestamp_ns,
            source,
            kind,
            pid: Some(pid),
            process: None,
            connection: None,
            instrumentation: None,
            payload: EventPayload::File { path: data.path, bytes: data.bytes },
        }
    }
}

pub open spec fn http_payload(data: HttpEventData) -> EventPayload {
    EventPayload::Http {
        stream_id: data.stream_id,
        direction: data.direction,
        version: data.version,
        method: data.method,
        target: data.target,
        host: data.host,
        status: data.status,
        reason: data.reason,
        headers: data.headers,
        content_length: data.content_length,
        body_preview: data.body_preview,
        body_bytes: data.body_bytes,
        body_truncated: data.body_truncated,
        payload_skipped: data.payload_skipped,
        payload_skip_reason: data.payload_skip_reason,
    }
}

fn plaintext_id(prefix: &str, pid: u32, ssl_object: u64, direction: PlaintextDirection, timestamp_ns: u64) -> (r: String)
    ensures
        r@ == hyphen2(
            hyphen2(hyphen2(hyphen2(prefix@, decimal(pid as nat)), decimal(ssl_object as nat)), direction_name(direction)),
            decimal(timestamp_ns as nat),
        ),
{
    let mut id = String::new();
    push_str(&mut id, prefix);
    push_hyphen(&mut id);
    push_decimal(&mut id, pid as u64);
    push_hyphen(&mut id);
    push_decimal(&mut id, ssl_object);
    push_hyphen(&mut id);
    match direction {
        PlaintextDirection::Read => push_str(&mut id, "Read"),
        PlaintextDirection::Write => push_str(&mut id, "Write"),
    }
    push_hyphen(&mut id);
    push_decimal(&mut id, timestamp_ns);
    proof {
        assert(id@ =~= hyphen2(
            hyphen2(hyphen2(hyphen2(prefix@, decimal(pid as nat)), decimal(ssl_object as nat)), direction_name(direction)),
            decimal(timestamp_ns as nat),
        ));
    }
    id
}

} // verus!
