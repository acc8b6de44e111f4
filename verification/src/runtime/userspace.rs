//! Userspace TLS probe records as they arrive on the shared ring buffer, and
//! what the rest of the system learns of probe attachments.
use vstd::prelude::*;
use vstd::slice::slice_subrange;
use crate::events::{
    lossy_utf8, spec_tls_api_function, utf8_lossy, EventKind, EventPayload, EventSource,
    HttpCaptureEventData, PlaintextDirection, PlaintextEventData, TlsEventData, TraceEvent,
};
use super::bpftime::{provider_probe_specs, provider_specs, spec_view, specs_view, BpftimeAttachment, ProbeSpec, SpecView};
use super::provider::TlsProvider;
use super::wire::{
    bytes16, bytes32, bytes64, c_string, c_text, le16, le32, le64, push_bytes, push_le16, push_le32,
    push_le64, read_le16, read_le32, read_le64,
};
use super::{ProbeKind, UserspaceRuntime};

verus! {

#[derive(Debug, Clone, PartialEq, Eq)]
pub struct ProbeAttachment {
    pub target: String,
    pub pid: u32,
    pub probe: ProbeKind,
    pub hook: String,
    pub runtime: UserspaceRuntime,
}

/// Counts reported by the userspace probe runtime.
#[derive(Debug, Clone, Copy, Default, PartialEq, Eq)]
pub struct UserspaceProbeDiagnostics {
    pub provider_instances: usize,
    pub readers: usize,
    pub links: usize,
}

/// A bpftime attachment as the runtime-independent record.
pub fn from_bpftime_attachment(attachment: BpftimeAttachment) -> (r: ProbeAttachment)
    ensures
        r.target == attachment.target,
        r.pid == attachment.pid,
        r.probe == attachment.probe,
        r.hook == attachment.hook,
        r.runtime == UserspaceRuntime::Bpftime,
{
    ProbeAttachment {
        target: attachment.target,
        pid: attachment.pid,
        probe: attachment.probe,
        hook: attachment.hook,
        runtime: UserspaceRuntime::Bpftime,
    }
}

/// The identity of one probe provider instance.
pub fn provider_instance_key(provider: TlsProvider, target: &str, pid: u32, build_id: &str) -> (r: String)
    ensures
        r@ == super::bpftime::provider_key_text(provider, target@, pid, build_id@),
{
    super::bpftime::provider_key(provider, target, pid, build_id)
}

pub const EVENT_TLS_METADATA: u16 = 7;

pub const EVENT_PLAINTEXT: u16 = 8;

pub const EVENT_HTTP_CAPTURE: u16 = 11;

pub const TLS_NAME_LEN: usize = 128;

pub const TLS_VERSION_LEN: usize = 32;

pub const PLAINTEXT_MAX_LEN: usize = 16 * 1024;

/// Size of a TLS metadata record.
pub const TLS_EVENT_SIZE: usize = 192;

/// Size of a plaintext or HTTP capture record.
pub const PLAINTEXT_EVENT_SIZE: usize = 40 + PLAINTEXT_MAX_LEN;

/// A TLS metadata record: type, kind, pid at 0/2/4; time, SSL object at
/// 8/16; descriptor, API id at 24/28; SNI at 32; version at 160.
#[derive(Clone, Copy)]
pub struct UserTlsEvent {
    pub event_type: u16,
    pub _metadata_kind: u16,
    pub pid: u32,
    pub timestamp_ns: u64,
    pub ssl_object: u64,
    pub fd: i32,
    pub api_id: u32,
    pub sni: [u8; 128],
    pub version: [u8; 32],
}

/// A plaintext or HTTP capture record: type, direction (low byte) and API id
/// (high byte), pid at 0/2/4; time, SSL object at 8/16; descriptor, payload
/// size, truncation flag at 24/28/32; payload at 36.
#[derive(Clone, Copy)]
pub struct UserPlaintextEvent {
    pub event_type: u16,
    pub direction: u16,
    pub pid: u32,
    pub timestamp_ns: u64,
    pub ssl_object: u64,
    pub fd: i32,
    pub payload_size: u32,
    pub truncated: u32,
    pub payload: [u8; 16384],
}

/// `s` holds the TLS record `e`.
pub open spec fn holds_tls(s: Seq<u8>, e: UserTlsEvent) -> bool {
    &&& s.len() == TLS_EVENT_SIZE
    &&& le16(s, 0) == e.event_type
    &&& le16(s, 2) == e._metadata_kind
    &&& le32(s, 4) == e.pid
    &&& le64(s, 8) == e.timestamp_ns
    &&& le64(s, 16) == e.ssl_object
    &&& le32(s, 24) == e.fd as u32
    &&& le32(s, 28) == e.api_id
    &&& s.subrange(32, 160) == e.sni@
    &&& s.subrange(160, 192) == e.version@
}

/// `s` holds the plaintext record `e`.
pub open spec fn holds_plaintext(s: Seq<u8>, e: UserPlaintextEvent) -> bool {
    &&& s.len() == PLAINTEXT_EVENT_SIZE
    &&& le16(s, 0) == e.event_type
    &&& le16(s, 2) == e.direction
    &&& le32(s, 4) == e.pid
    &&& le64(s, 8) == e.timestamp_ns
    &&& le64(s, 16) == e.ssl_object
    &&& le32(s, 24) == e.fd as u32
    &&& le32(s, 28) == e.payload_size
    &&& le32(s, 32) == e.truncated
    &&& s.subrange(36, 36 + PLAINTEXT_MAX_LEN) == e.payload@
}

proof fn lemma_fields(s: Seq<u8>, at: int, x16: Option<u16>, x32: Option<u32>, x64: Option<u64>)
    requires
        x16 matches Some(x) ==> 0 <= at && at + 2 <= s.len() && s.subrange(at, at + 2) == bytes16(x),
        x32 matches Some(x) ==> 0 <= at && at + 4 <= s.len() && s.subrange(at, at + 4) == bytes32(x),
        x64 matches Some(x) ==> 0 <= at && at + 8 <= s.len() && s.subrange(at, at + 8) == bytes64(x),
    ensures
        x16 matches Some(x) ==> le16(s, at) == x,
        x32 matches Some(x) ==> le32(s, at) == x,
        x64 matches Some(x) ==> le64(s, at) == x,
{
    if let Some(x) = x16 {
        super::wire::lemma_round_trip16(x);
        assert(s[at] == bytes16(x)[0] && s[at + 1] == bytes16(x)[1]);
    }
    if let Some(x) = x32 {
        super::wire::lemma_round_trip32(x);
        assert(s[at] == bytes32(x)[0] && s[at + 1] == bytes32(x)[1] && s[at + 2] == bytes32(x)[2]
            && s[at + 3] == bytes32(x)[3]);
    }
    if let Some(x) = x64 {
        super::wire::lemma_round_trip64(x);
        assert(s[at] == bytes64(x)[0] && s[at + 1] == bytes64(x)[1] && s[at + 2] == bytes64(x)[2]
            && s[at + 3] == bytes64(x)[3] && s[at + 4] == bytes64(x)[4] && s[at + 5] == bytes64(x)[5]
            && s[at + 6] == bytes64(x)[6] && s[at + 7] == bytes64(x)[7]);
    }
}

impl UserTlsEvent {
    /// The record's bytes, as the probe writes them.
    pub fn to_bytes(&self) -> (r: Vec<u8>)
        ensures
            holds_tls(r@, *self),
    {
        let mut out: Vec<u8> = Vec::new();
        push_le16(&mut out, self.event_type);
        push_le16(&mut out, self._metadata_kind);
        push_le32(&mut out, self.pid);
        push_le64(&mut out, self.timestamp_ns);
        push_le64(&mut out, self.ssl_object);
        push_le32(&mut out, self.fd as u32);
        push_le32(&mut out, self.api_id);
        push_bytes(&mut out, self.sni.as_slice());
        push_bytes(&mut out, self.version.as_slice());
        proof {
            let s = out@;
            assert(s.subrange(0, 2) =~= bytes16(self.event_type));
            assert(s.subrange(2, 4) =~= bytes16(self._metadata_kind));
            assert(s.subrange(4, 8) =~= bytes32(self.pid));
            assert(s.subrange(8, 16) =~= bytes64(self.timestamp_ns));
            assert(s.subrange(16, 24) =~= bytes64(self.ssl_object));
            assert(s.subrange(24, 28) =~= bytes32(self.fd as u32));
            assert(s.subrange(28, 32) =~= bytes32(self.api_id));
            lemma_fields(s, 0, Some(self.event_type), None, None);
            lemma_fields(s, 2, Some(self._metadata_kind), None, None);
            lemma_fields(s, 4, None, Some(self.pid), None);
            lemma_fields(s, 8, None, None, Some(self.timestamp_ns));
            lemma_fields(s, 16, None, None, Some(self.ssl_object));
            lemma_fields(s, 24, None, Some(self.fd as u32), None);
            lemma_fields(s, 28, None, Some(self.api_id), None);
            assert(s.subrange(32, 160) =~= self.sni@);
            assert(s.subrange(160, 192) =~= self.version@);
        }
        out
    }
}

impl UserPlaintextEvent {
    /// The record's bytes, as the probe writes them (padded to its C size).
    pub fn to_bytes(&self) -> (r: Vec<u8>)
        ensures
            holds_plaintext(r@, *self),
    {
        let mut out: Vec<u8> = Vec::new();
        push_le16(&mut out, self.event_type);
        push_le16(&mut out, self.direction);
        push_le32(&mut out, self.pid);
        push_le64(&mut out, self.timestamp_ns);
        push_le64(&mut out, self.ssl_object);
        push_le32(&mut out, self.fd as u32);
        push_le32(&mut out, self.payload_size);
        push_le32(&mut out, self.truncated);
        push_bytes(&mut out, self.payload.as_slice());
        push_le32(&mut out, 0);
        proof {
            let s = out@;
            assert(s.subrange(0, 2) =~= bytes16(self.event_type));
            assert(s.subrange(2, 4) =~= bytes16(self.direction));
            assert(s.subrange(4, 8) =~= bytes32(self.pid));
            assert(s.subrange(8, 16) =~= bytes64(self.timestamp_ns));
            assert(s.subrange(16, 24) =~= bytes64(self.ssl_object));
            assert(s.subrange(24, 28) =~= bytes32(self.fd as u32));
            assert(s.subrange(28, 32) =~= bytes32(self.payload_size));
            assert(s.subrange(32, 36) =~= bytes32(self.truncated));
            lemma_fields(s, 0, Some(self.event_type), None, None);
            lemma_fields(s, 2, Some(self.direction), None, None);
            lemma_fields(s, 4, None, Some(self.pid), None);
            lemma_fields(s, 8, None, None, Some(self.timestamp_ns));
            lemma_fields(s, 16, None, None, Some(self.ssl_object));
            lemma_fields(s, 24, None, Some(self.fd as u32), None);
            lemma_fields(s, 28, None, Some(self.payload_size), None);
            lemma_fields(s, 32, None, Some(self.truncated), None);
            assert(s.subrange(36, 36 + PLAINTEXT_MAX_LEN) =~= self.payload@);
        }
        out
    }
}

/// A descriptor as reported: absent when negative.
pub open spec fn reported_fd(raw: u32) -> Option<i32> {
    if (raw as i32) >= 0 {
        Some(raw as i32)
    } else {
        None
    }
}

/// The direction in the low byte of a record's direction field.
pub open spec fn direction_of(raw: u16) -> Option<PlaintextDirection> {
    if raw & 0xff == 1 {
        Some(PlaintextDirection::Read)
    } else if raw & 0xff == 2 {
        Some(PlaintextDirection::Write)
    } else {
        None
    }
}

/// The instrumentation a decoded event carries: the probe's provider and
/// library, and the TLS API function the record names.
pub open spec fn instrumented(e: TraceEvent, provider: Seq<char>, library: Seq<char>, api_id: u16) -> bool {
    &&& spec_tls_api_function(api_id) matches Some(name) ==> (e.instrumentation matches Some(i)
        && i.provider@ == provider && i.library@ == library && i.api_function@ == name)
    &&& spec_tls_api_function(api_id) is None ==> e.instrumentation is None
}

/// What a TLS metadata record decodes to.
pub open spec fn tls_decoded(s: Seq<u8>, source: EventSource, provider: Seq<char>, library: Seq<char>, e: TraceEvent) -> bool {
    &&& e.kind == EventKind::TlsMetadata
    &&& e.source == source
    &&& e.pid == Some(le32(s, 4))
    &&& e.timestamp_ns == le64(s, 8)
    &&& e.process is None
    &&& e.connection is None
    &&& e.payload matches EventPayload::Tls { ssl_object, fd, sni, version } && ssl_object == le64(
        s,
        16,
    ) && fd == reported_fd(le32(s, 24)) && crate::events::opt_string_view(sni) == c_text(
        s.subrange(32, 160),
    ) && crate::events::opt_string_view(version) == c_text(s.subrange(160, 192))
    &&& instrumented(e, provider, library, le32(s, 28) as u16)
}

/// What a plaintext or HTTP capture record decodes to.
pub open spec fn payload_decoded(s: Seq<u8>, source: EventSource, provider: Seq<char>, library: Seq<char>, e: TraceEvent) -> bool {
    let size = le32(s, 28);
    let captured = if size > PLAINTEXT_MAX_LEN {
        PLAINTEXT_MAX_LEN as int
    } else {
        size as int
    };
    let bytes = s.subrange(36, 36 + captured);
    let truncated = le32(s, 32) != 0 || size > PLAINTEXT_MAX_LEN;
    &&& e.source == source
    &&& e.pid == Some(le32(s, 4))
    &&& e.timestamp_ns == le64(s, 8)
    &&& e.process is None
    &&& e.connection is None
    &&& if le16(s, 0) == EVENT_PLAINTEXT {
        &&& e.kind == EventKind::Plaintext
        &&& e.payload matches EventPayload::Plaintext {
            ssl_object,
            fd,
            direction,
            data,
            raw_data,
            bytes: n,
            truncated: t,
            payload_skipped,
            payload_skip_reason,
        } && ssl_object == le64(s, 16) && fd == reported_fd(le32(s, 24)) && Some(direction)
            == direction_of(le16(s, 2)) && data@ == lossy_utf8(bytes) && raw_data is None && n
            == size && t == truncated && !payload_skipped && payload_skip_reason is None
    } else {
        &&& e.kind == EventKind::HttpCapture
        &&& e.payload matches EventPayload::HttpCapture {
            ssl_object,
            fd,
            direction,
            data,
            bytes: n,
            truncated: t,
            payload_skipped,
            payload_skip_reason,
        } && ssl_object == le64(s, 16) && fd == reported_fd(le32(s, 24)) && Some(direction)
            == direction_of(le16(s, 2)) && data@ == bytes && n == size && t == truncated
            && !payload_skipped && payload_skip_reason is None
    }
    &&& instrumented(e, provider, library, (le16(s, 2) >> 8u16) as u16)
}

/// Which records decode to an event: a known record type, the full record
/// size, a process id, and for payload records a known direction.
pub open spec fn decodes(s: Seq<u8>) -> bool {
    &&& s.len() >= 2
    &&& if le16(s, 0) == EVENT_TLS_METADATA {
        s.len() >= TLS_EVENT_SIZE && le32(s, 4) != 0
    } else if le16(s, 0) == EVENT_PLAINTEXT || le16(s, 0) == EVENT_HTTP_CAPTURE {
        s.len() >= PLAINTEXT_EVENT_SIZE && le32(s, 4) != 0 && direction_of(le16(s, 2)) is Some
    } else {
        false
    }
}

fn fd_of(raw: u32) -> (r: Option<i32>)
    ensures
        r == reported_fd(raw),
{
    let fd = raw as i32;
    if fd >= 0 {
        Some(fd)
    } else {
        None
    }
}

fn direction_from(raw: u16) -> (r: Option<PlaintextDirection>)
    ensures
        r == direction_of(raw),
{
    if raw & 0xff == 1 {
        Some(PlaintextDirection::Read)
    } else if raw & 0xff == 2 {
        Some(PlaintextDirection::Write)
    } else {
        None
    }
}

/// Turns one userspace ring-buffer record into a telemetry event; payload
/// records are attributed to the auxiliary library when there is one.
pub fn decode_userspace_event(
    data: &[u8],
    source: EventSource,
    provider: &str,
    library: &str,
    auxiliary_library: Option<&str>,
) -> (r: Option<TraceEvent>)
    ensures
        r is Some <==> decodes(data@),
        r matches Some(e) ==> if le16(data@, 0) == EVENT_TLS_METADATA {
            tls_decoded(data@, source, provider@, library@, e)
        } else {
            payload_decoded(
                data@,
                source,
                provider@,
                match auxiliary_library {
                    Some(a) => a@,
                    None => library@,
                },
                e,
            )
        },
{
    if data.len() < 2 {
        return None;
    }
    let event_type = read_le16(data, 0);
    if event_type == EVENT_TLS_METADATA {
        decode_tls_event(data, source, provider, library)
    } else if event_type == EVENT_PLAINTEXT || event_type == EVENT_HTTP_CAPTURE {
        let payload_library = match auxiliary_library {
            Some(a) => a,
            None => library,
        };
        decode_payload_event(data, source, provider, payload_library)
    } else {
        None
    }
}

fn decode_tls_event(data: &[u8], source: EventSource, provider: &str, library: &str) -> (r: Option<
    TraceEvent,
>)
    requires
        data@.len() >= 2,
        le16(data@, 0) == EVENT_TLS_METADATA,
    ensures
        r is Some <==> decodes(data@),
        r matches Some(e) ==> tls_decoded(data@, source, provider@, library@, e),
{
    if data.len() < TLS_EVENT_SIZE {
        return None;
    }
    let pid = read_le32(data, 4);
    if pid == 0 {
        return None;
    }
    let event = TraceEvent::tls_metadata(
        source,
        pid,
        TlsEventData {
            ssl_object: read_le64(data, 16),
            fd: fd_of(read_le32(data, 24)),
            sni: c_string(slice_subrange(data, 32, 160)),
            version: c_string(slice_subrange(data, 160, 192)),
        },
        read_le64(data, 8),
    );
    let api_id = read_le32(data, 28) as u16;
    Some(event.with_instrumentation(provider, library, api_id))
}

fn decode_payload_event(data: &[u8], source: EventSource, provider: &str, library: &str) -> (r: Option<
    TraceEvent,
>)
    requires
        data@.len() >= 2,
        le16(data@, 0) == EVENT_PLAINTEXT || le16(data@, 0) == EVENT_HTTP_CAPTURE,
    ensures
        r is Some <==> decodes(data@),
        r matches Some(e) ==> payload_decoded(data@, source, provider@, library@, e),
{
    if data.len() < PLAINTEXT_EVENT_SIZE {
        return None;
    }
    let event_type = read_le16(data, 0);
    let pid = read_le32(data, 4);
    if pid == 0 {
        return None;
    }
    let raw_direction = read_le16(data, 2);
    let direction = match direction_from(raw_direction) {
        Some(d) => d,
        None => {
            return None;
        },
    };
    let payload_size = read_le32(data, 28) as usize;
    let captured = if payload_size > PLAINTEXT_MAX_LEN {
        PLAINTEXT_MAX_LEN
    } else {
        payload_size
    };
    let bytes = slice_subrange(data, 36, 36 + captured);
    let truncated = read_le32(data, 32) != 0 || payload_size > PLAINTEXT_MAX_LEN;
    let ssl_object = read_le64(data, 16);
    let fd = fd_of(read_le32(data, 24));
    let timestamp_ns = read_le64(data, 8);
    let event = if event_type == EVENT_PLAINTEXT {
        TraceEvent::plaintext(
            source,
            pid,
            PlaintextEventData {
                ssl_object,
                fd,
                direction,
                data: utf8_lossy(bytes),
                bytes: payload_size,
                truncated,
            },
            timestamp_ns,
        )
    } else {
        TraceEvent::http_capture(
            source,
            pid,
            HttpCaptureEventData {
                ssl_object,
                fd,
                direction,
                data: vstd::slice::slice_to_vec(bytes),
                bytes: payload_size,
                truncated,
            },
            timestamp_ns,
        )
    };
    Some(event.with_instrumentation(provider, library, raw_direction >> 8u16))
}

/// Whether a probe target covers every process: the global target and the
/// process-name selectors.
pub open spec fn global_target(target: Seq<char>) -> bool {
    target == "global"@ || "process-name:"@.is_prefix_of(target)
}

pub fn is_global_target(target: &str) -> (r: bool)
    ensures
        r == global_target(target@),
{
    let v = crate::text::chars_of(target);
    assert(v@.subrange(0, v@.len() as int) =~= target@);
    crate::text::range_eq(&v, 0, v.len(), "global") || crate::text::range_starts_with(&v, 0, v.len(), "process-name:")
}

/// Whether a symbol list has a symbol.
pub open spec fn has_function(symbols: Seq<String>, f: Seq<char>) -> bool {
    exists|i: int| 0 <= i < symbols.len() && (#[trigger] symbols[i])@ == f
}

/// For each probe kind in order, the provider's probes whose function the
/// library defines.
pub open spec fn requests_for(
    provider: TlsProvider,
    symbols: Seq<String>,
    probes: Seq<ProbeKind>,
) -> Seq<(ProbeKind, SpecView)>
    decreases probes.len(),
{
    if probes.len() == 0 {
        Seq::empty()
    } else {
        let p = probes.last();
        requests_for(provider, symbols, probes.drop_last()) + provider_specs(provider, p).filter(
            |s: SpecView| has_function(symbols, s.2),
        ).map_values(|s: SpecView| (p, s))
    }
}

fn defines(symbols: &Vec<String>, function: &str) -> (r: bool)
    ensures
        r == has_function(symbols@, function@),
{
    let mut i: usize = 0;
    while i < symbols.len()
        invariant
            i <= symbols@.len(),
            forall|j: int| 0 <= j < i ==> symbols@[j]@ != function@,
        decreases symbols.len() - i,
    {
        if crate::keyed::same_text(symbols[i].as_str(), function) {
            return true;
        }
        i += 1;
    }
    false
}

/// The probes to attach for a library: the provider's catalogue for each
/// probe kind, kept to the functions the library defines.
pub fn probe_requests(provider: TlsProvider, symbols: &Vec<String>, probes: &Vec<ProbeKind>) -> (r: Vec<
    (ProbeKind, ProbeSpec),
>)
    ensures
        r@.map_values(|x: (ProbeKind, ProbeSpec)| (x.0, spec_view(x.1))) == requests_for(
            provider,
            symbols@,
            probes@,
        ),
{
    let mut out: Vec<(ProbeKind, ProbeSpec)> = Vec::new();
    let mut i: usize = 0;
    assert(probes@.take(0) =~= Seq::<ProbeKind>::empty());
    assert(out@.map_values(|x: (ProbeKind, ProbeSpec)| (x.0, spec_view(x.1))) =~= Seq::<(ProbeKind, SpecView)>::empty());
    while i < probes.len()
        invariant
            i <= probes@.len(),
            out@.map_values(|x: (ProbeKind, ProbeSpec)| (x.0, spec_view(x.1))) == requests_for(
                provider,
                symbols@,
                probes@.take(i as int),
            ),
        decreases probes.len() - i,
    {
        let p = probes[i];
        assert(probes@.take(i + 1).drop_last() =~= probes@.take(i as int));
        assert(probes@.take(i + 1).last() == p);
        let specs = provider_probe_specs(provider, p);
        let ghost all = specs_view(specs@);
        let ghost base = out@.map_values(|x: (ProbeKind, ProbeSpec)| (x.0, spec_view(x.1)));
        let mut k: usize = 0;
        assert(all.take(0).filter(|s: SpecView| has_function(symbols@, s.2)) =~= Seq::<SpecView>::empty());
        assert(base + Seq::<SpecView>::empty().map_values(|s: SpecView| (p, s)) =~= base);
        while k < specs.len()
            invariant
                k <= specs@.len(),
                all == specs_view(specs@),
                all.len() == specs@.len(),
                out@.map_values(|x: (ProbeKind, ProbeSpec)| (x.0, spec_view(x.1))) == base + all.take(
                    k as int,
                ).filter(|s: SpecView| has_function(symbols@, s.2)).map_values(|s: SpecView| (p, s)),
            decreases specs.len() - k,
        {
            let spec = specs[k];
            let ghost before = all.take(k as int).filter(|s: SpecView| has_function(symbols@, s.2));
            assert(all.take(k + 1).drop_last() =~= all.take(k as int));
            assert(all.take(k + 1).last() == spec_view(spec));
            proof {
                all.take(k as int).lemma_filter_push(spec_view(spec), |s: SpecView| has_function(symbols@, s.2));
                assert(all.take(k as int).push(spec_view(spec)) =~= all.take(k + 1));
            }
            if defines(symbols, spec.function_name) {
                let ghost prior = out@;
                out.push((p, spec));
                let ghost sv = spec_view(spec);
                assert(out@.map_values(|x: (ProbeKind, ProbeSpec)| (x.0, spec_view(x.1))) =~= prior.map_values(
                    |x: (ProbeKind, ProbeSpec)| (x.0, spec_view(x.1)),
                ).push((p, sv)));
                assert(before.push(sv).map_values(|s: SpecView| (p, s)) =~= before.map_values(|s: SpecView| (p, s)).push(
                    (p, sv),
                ));
                assert((base + before.map_values(|s: SpecView| (p, s))).push((p, sv)) =~= base + before.map_values(
                    |s: SpecView| (p, s),
                ).push((p, sv)));
            } else {
                assert(before =~= all.take(k + 1).filter(|s: SpecView| has_function(symbols@, s.2)));
            }
            k += 1;
        }
        assert(all.take(specs@.len() as int) =~= all);
        assert(all =~= provider_specs(provider, p));
        i += 1;
    }
    assert(probes@.take(probes@.len() as int) =~= probes@);
    out
}

} // verus!
