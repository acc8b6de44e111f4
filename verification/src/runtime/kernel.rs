//! The kernel probes: their records on the ring buffers, the capture scope
//! and feature maps they read, and the programs each module attaches.
use vstd::prelude::*;
use vstd::slice::slice_subrange;
use crate::capture::{scope_text, strings_view, CaptureFeatures, CaptureModule, CaptureScope};
use crate::events::{
    ConnectionRef, ConnectionState, DnsEventData, Endpoint, EventKind, EventPayload, EventSource, FileEventData,
    ProcessRef, TcpState, TraceEvent, TransportProtocol,
};
use crate::text::{decimal, push_decimal, push_str};
use super::address::{ipv4_text, ipv6_text, push_ipv4, push_ipv6};
use super::dns_wire::{parse_dns_message, parse_dns_spec};
use super::wire::{c_string, c_text, le16, le32, le64, read_le16, read_le32, read_le64};

verus! {

pub const EVENT_PROCESS_EXEC: u16 = 1;

pub const EVENT_PROCESS_EXIT: u16 = 2;

pub const EVENT_TCP_CONNECT: u16 = 3;

pub const EVENT_TCP_CLOSE: u16 = 4;

pub const EVENT_DNS_QUERY: u16 = 5;

pub const EVENT_DNS_RESPONSE: u16 = 6;

pub const EVENT_TCP_STATE: u16 = 9;

pub const EVENT_TCP_BYTES: u16 = 10;

pub const EVENT_FILE_OPEN: u16 = 12;

pub const EVENT_FILE_READ: u16 = 13;

pub const AF_INET: u16 = 2;

pub const AF_INET6: u16 = 10;

pub const IPPROTO_TCP: u16 = 6;

pub const IPPROTO_UDP: u16 = 17;

pub const COMM_LEN: usize = 16;

pub const ADDR_LEN: usize = 16;

pub const DNS_PAYLOAD_LEN: usize = 512;

pub const FILE_PATH_LEN: usize = 256;

pub const SCOPE_GLOBAL: u32 = 0;

pub const SCOPE_PID: u32 = 1;

pub const SCOPE_COMM: u32 = 2;

/// Size of a process record.
pub const PROCESS_EVENT_SIZE: usize = 32;

/// Size of a network record.
pub const NETWORK_EVENT_SIZE: usize = 88;

/// Size of a DNS record.
pub const DNS_EVENT_SIZE: usize = 544;

/// Size of a file record.
pub const FILE_EVENT_SIZE: usize = 280;

/// The capture scope as the kernel programs read it from their map.
#[derive(Debug, Clone, Copy, PartialEq, Eq)]
pub struct KernelCaptureConfig {
    pub active: u32,
    pub scope_mode: u32,
    pub target_pid: u32,
    pub target_comm: [u8; 16],
}

/// A process record: type, pid at 0/4; command name at 8; time at 24.
#[derive(Clone, Copy)]
pub struct KernelProcessEvent {
    pub event_type: u16,
    pub _reserved: u16,
    pub pid: u32,
    pub comm: [u8; 16],
    pub timestamp_ns: u64,
}

/// A network record: type, family, pid at 0/2/4; socket id, time at 8/16;
/// protocol, ports at 24/26/28; TCP states at 32/36; addresses at 40/56;
/// byte counters at 72/80.
#[derive(Clone, Copy)]
pub struct KernelNetworkEvent {
    pub event_type: u16,
    pub family: u16,
    pub pid: u32,
    pub socket_id: u64,
    pub timestamp_ns: u64,
    pub protocol: u16,
    pub local_port: u16,
    pub remote_port: u16,
    pub _reserved: u16,
    pub old_state: u32,
    pub new_state: u32,
    pub local_addr: [u8; 16],
    pub remote_addr: [u8; 16],
    pub sent_bytes: u64,
    pub received_bytes: u64,
}

/// A DNS record: type, protocol, pid at 0/2/4; socket id, time at 8/16;
/// payload size at 24; payload at 28.
#[derive(Clone, Copy)]
pub struct KernelDnsEvent {
    pub event_type: u16,
    pub protocol: u16,
    pub pid: u32,
    pub socket_id: u64,
    pub timestamp_ns: u64,
    pub payload_size: u32,
    pub payload: [u8; 512],
}

/// The first `min(len, 15)` bytes of a name, NUL-padded to 16.
pub open spec fn comm_field(name: Seq<u8>, comm: Seq<u8>) -> bool {
    let n = if name.len() < 15 {
        name.len() as int
    } else {
        15
    };
    &&& comm.len() == 16
    &&& comm.subrange(0, n) == name.subrange(0, n)
    &&& forall|i: int| n <= i < 16 ==> comm[i] == 0
}

/// The kernel form of a capture scope.
pub open spec fn scope_config(target: CaptureScope, c: KernelCaptureConfig) -> bool {
    &&& c.active == 1
    &&& match target {
        CaptureScope::Global => c.scope_mode == SCOPE_GLOBAL && c.target_pid == 0 && c.target_comm@
            == Seq::new(16, |i: int| 0u8),
        CaptureScope::Process(pid) => c.scope_mode == SCOPE_PID && c.target_pid == pid
            && c.target_comm@ == Seq::new(16, |i: int| 0u8),
        CaptureScope::ProcessName(name) => c.scope_mode == SCOPE_COMM && c.target_pid == 0
            && comm_field(vstd::utf8::encode_utf8(name@), c.target_comm@),
    }
}

pub fn kernel_capture_config(target: &CaptureScope) -> (r: KernelCaptureConfig)
    ensures
        scope_config(*target, r),
{
    let mut config = KernelCaptureConfig { active: 1, scope_mode: SCOPE_GLOBAL, target_pid: 0, target_comm: [0u8; 16] };
    assert(config.target_comm@ =~= Seq::new(16, |i: int| 0u8));
    match target {
        CaptureScope::Global => {},
        CaptureScope::Process(pid) => {
            config.scope_mode = SCOPE_PID;
            config.target_pid = *pid;
        },
        CaptureScope::ProcessName(name) => {
            config.scope_mode = SCOPE_COMM;
            let bytes = name.as_str().as_bytes();
            let length = if bytes.len() < 15 {
                bytes.len()
            } else {
                15
            };
            let mut i: usize = 0;
            while i < length
                invariant
                    length <= 15,
                    length <= bytes@.len(),
                    i <= length,
                    config.active == 1,
                    config.scope_mode == SCOPE_COMM,
                    config.target_pid == 0,
                    forall|j: int| 0 <= j < i ==> config.target_comm@[j] == bytes@[j],
                    forall|j: int| i <= j < 16 ==> config.target_comm@[j] == 0,
                decreases length - i,
            {
                config.target_comm[i] = bytes[i];
                i += 1;
            }
            assert(config.target_comm@.subrange(0, length as int) =~= bytes@.subrange(0, length as int));
        },
    }
    config
}

/// The value written to the capture scope map: active, mode, pid, name.
pub fn capture_config_bytes(config: &KernelCaptureConfig) -> (r: Vec<u8>)
    ensures
        r@ == super::wire::bytes32(config.active) + super::wire::bytes32(config.scope_mode)
            + super::wire::bytes32(config.target_pid) + config.target_comm@,
{
    let mut out: Vec<u8> = Vec::new();
    super::wire::push_le32(&mut out, config.active);
    super::wire::push_le32(&mut out, config.scope_mode);
    super::wire::push_le32(&mut out, config.target_pid);
    super::wire::push_bytes(&mut out, config.target_comm.as_slice());
    out
}

/// The network feature flags: traffic in bit 0, DNS in bit 1.
pub fn network_feature_flags(traffic: bool, dns: bool) -> (r: u32)
    ensures
        r == (if traffic {
            1u32
        } else {
            0u32
        }) + (if dns {
            2u32
        } else {
            0u32
        }),
{
    (if traffic {
        1u32
    } else {
        0u32
    }) + (if dns {
        2u32
    } else {
        0u32
    })
}

/// DNS resolvers whose traffic a scoped capture also follows.
pub open spec fn dns_resolver_name(name: Seq<char>) -> bool {
    name == "systemd-resolve"@ || name == "systemd-resolved"@ || name == "nscd"@ || name
        == "dnsmasq"@ || name == "unbound"@ || name == "named"@ || name == "resolved"@
}

pub fn is_dns_dependency_name(name: &str) -> (r: bool)
    ensures
        r == dns_resolver_name(name@),
{
    let v = crate::text::chars_of(name);
    let n = v.len();
    assert(v@.subrange(0, n as int) =~= v@);
    crate::text::range_eq(&v, 0, n, "systemd-resolve") || crate::text::range_eq(&v, 0, n, "systemd-resolved")
        || crate::text::range_eq(&v, 0, n, "nscd") || crate::text::range_eq(&v, 0, n, "dnsmasq")
        || crate::text::range_eq(&v, 0, n, "unbound") || crate::text::range_eq(&v, 0, n, "named")
        || crate::text::range_eq(&v, 0, n, "resolved")
}

pub open spec fn strs(v: Seq<&'static str>) -> Seq<Seq<char>> {
    v.map_values(|s: &'static str| s@)
}

pub open spec fn process_programs_spec() -> Seq<Seq<char>> {
    seq!["tracelens_process_exec"@, "tracelens_process_exit"@]
}

pub open spec fn connection_programs_spec() -> Seq<Seq<char>> {
    seq!["tracelens_connect"@, "tracelens_connect_exit"@, "tracelens_close"@, "tracelens_tcp_state"@]
}

pub open spec fn traffic_programs_spec() -> Seq<Seq<char>> {
    seq![
        "tracelens_sendto_enter"@,
        "tracelens_sendto_exit"@,
        "tracelens_recvfrom_enter"@,
        "tracelens_recvfrom_exit"@,
        "tracelens_sendmsg_enter"@,
        "tracelens_sendmsg_exit"@,
        "tracelens_recvmsg_enter"@,
        "tracelens_recvmsg_exit"@,
        "tracelens_write_enter"@,
        "tracelens_write_exit"@,
        "tracelens_read_enter"@,
        "tracelens_read_exit"@,
    ]
}

pub open spec fn file_programs_spec() -> Seq<Seq<char>> {
    seq!["tracelens_file_open"@]
}

pub fn process_programs() -> (r: Vec<&'static str>)
    ensures
        strs(r@) == process_programs_spec(),
{
    let mut v: Vec<&'static str> = Vec::new();
    v.push("tracelens_process_exec");
    v.push("tracelens_process_exit");
    assert(strs(v@) =~= process_programs_spec());
    v
}

pub fn connection_programs() -> (r: Vec<&'static str>)
    ensures
        strs(r@) == connection_programs_spec(),
{
    let mut v: Vec<&'static str> = Vec::new();
    v.push("tracelens_connect");
    v.push("tracelens_connect_exit");
    v.push("tracelens_close");
    v.push("tracelens_tcp_state");
    assert(strs(v@) =~= connection_programs_spec());
    v
}

pub fn traffic_programs() -> (r: Vec<&'static str>)
    ensures
        strs(r@) == traffic_programs_spec(),
{
    let mut v: Vec<&'static str> = Vec::new();
    v.push("tracelens_sendto_enter");
    v.push("tracelens_sendto_exit");
    v.push("tracelens_recvfrom_enter");
    v.push("tracelens_recvfrom_exit");
    v.push("tracelens_sendmsg_enter");
    v.push("tracelens_sendmsg_exit");
    v.push("tracelens_recvmsg_enter");
    v.push("tracelens_recvmsg_exit");
    v.push("tracelens_write_enter");
    v.push("tracelens_write_exit");
    v.push("tracelens_read_enter");
    v.push("tracelens_read_exit");
    assert(strs(v@) =~= traffic_programs_spec());
    v
}

pub fn file_programs() -> (r: Vec<&'static str>)
    ensures
        strs(r@) == file_programs_spec(),
{
    let mut v: Vec<&'static str> = Vec::new();
    v.push("tracelens_file_open");
    assert(strs(v@) =~= file_programs_spec());
    v
}

/// The objects a feature set loads, in load order.
pub open spec fn plan_objects(f: Set<CaptureModule>) -> Seq<Seq<char>> {
    (if f.contains(CaptureModule::Process) {
        seq!["process.o"@]
    } else {
        Seq::empty()
    }) + (if f.contains(CaptureModule::Connections) || f.contains(CaptureModule::Traffic)
        || f.contains(CaptureModule::Dns) {
        seq!["network.o"@]
    } else {
        Seq::empty()
    }) + (if f.contains(CaptureModule::Files) {
        seq!["file.o"@]
    } else {
        Seq::empty()
    })
}

/// The programs a feature set attaches, in attach order.
pub open spec fn plan_programs(f: Set<CaptureModule>) -> Seq<Seq<char>> {
    (if f.contains(CaptureModule::Process) {
        process_programs_spec()
    } else {
        Seq::empty()
    }) + (if f.contains(CaptureModule::Connections) {
        connection_programs_spec()
    } else {
        Seq::empty()
    }) + (if f.contains(CaptureModule::Traffic) || f.contains(CaptureModule::Dns) {
        traffic_programs_spec()
    } else {
        Seq::empty()
    }) + (if f.contains(CaptureModule::Files) {
        file_programs_spec()
    } else {
        Seq::empty()
    })
}

fn append_names(out: &mut Vec<String>, names: Vec<&'static str>)
    ensures
        crate::capture::strings_view(final(out)@) == crate::capture::strings_view(old(out)@) + strs(
            names@,
        ),
{
    let mut i: usize = 0;
    while i < names.len()
        invariant
            i <= names@.len(),
            crate::capture::strings_view(out@) == crate::capture::strings_view(old(out)@) + strs(
                names@.take(i as int),
            ),
        decreases names.len() - i,
    {
        let ghost prev = out@;
        let name = names[i].to_owned();
        out.push(name);
        assert(crate::capture::strings_view(out@) =~= crate::capture::strings_view(prev).push(name@));
        assert(strs(names@.take(i + 1)) =~= strs(names@.take(i as int)).push(names@[i as int]@));
        assert(crate::capture::strings_view(out@) =~= crate::capture::strings_view(old(out)@) + strs(
            names@.take(i + 1),
        ));
        i += 1;
    }
    assert(names@.take(names@.len() as int) =~= names@);
}

#[derive(Debug, Clone, Copy, PartialEq, Eq, Structural)]
pub enum KernelRuntimeState {
    Idle,
    Attaching,
    Capturing,
    Failed,
}

impl KernelRuntimeState {
    pub fn to_string(&self) -> (r: String)
        ensures
            r@ == match self {
                KernelRuntimeState::Idle => "idle"@,
                KernelRuntimeState::Attaching => "attaching"@,
                KernelRuntimeState::Capturing => "capturing"@,
                KernelRuntimeState::Failed => "failed"@,
            },
    {
        match self {
            KernelRuntimeState::Idle => "idle".to_owned(),
            KernelRuntimeState::Attaching => "attaching".to_owned(),
            KernelRuntimeState::Capturing => "capturing".to_owned(),
            KernelRuntimeState::Failed => "failed".to_owned(),
        }
    }
}

#[derive(Debug, Clone, PartialEq, Eq)]
pub struct KernelRuntimeStatus {
    pub state: KernelRuntimeState,
    pub objects: Vec<String>,
    pub programs: Vec<String>,
    pub link_count: usize,
    pub capture_target: Option<String>,
    pub error: Option<String>,
}

impl KernelRuntimeStatus {
    /// Nothing attached.
    pub fn idle() -> (r: Self)
        ensures
            r.state == KernelRuntimeState::Idle,
            r.objects@.len() == 0,
            r.programs@.len() == 0,
            r.link_count == 0,
            r.capture_target is None,
            r.error is None,
    {
        KernelRuntimeStatus {
            state: KernelRuntimeState::Idle,
            objects: Vec::new(),
            programs: Vec::new(),
            link_count: 0,
            capture_target: None,
            error: None,
        }
    }

    /// A plan is being applied.
    pub fn attaching() -> (r: Self)
        ensures
            r.state == KernelRuntimeState::Attaching,
            r.objects@.len() == 0,
            r.programs@.len() == 0,
            r.link_count == 0,
            r.capture_target is None,
            r.error is None,
    {
        KernelRuntimeStatus { state: KernelRuntimeState::Attaching, ..KernelRuntimeStatus::idle() }
    }

    /// Applying a plan failed.
    pub fn failed(error: String) -> (r: Self)
        ensures
            r.state == KernelRuntimeState::Failed,
            r.objects@.len() == 0,
            r.programs@.len() == 0,
            r.link_count == 0,
            r.capture_target is None,
            r.error == Some(error),
    {
        KernelRuntimeStatus { state: KernelRuntimeState::Failed, error: Some(error), ..KernelRuntimeStatus::idle() }
    }

    /// Capturing with every object and program of the feature set attached:
    /// one link per program.
    pub fn capturing(features: CaptureFeatures, target: &CaptureScope) -> (r: Self)
        ensures
            r.state == KernelRuntimeState::Capturing,
            crate::capture::strings_view(r.objects@) == plan_objects(features@),
            crate::capture::strings_view(r.programs@) == plan_programs(features@),
            r.link_count == plan_programs(features@).len(),
            r.capture_target matches Some(t) && t@ == scope_text(*target),
            r.error is None,
    {
        let mut objects: Vec<String> = Vec::new();
        let ghost f = features@;
        if features.contains(CaptureModule::Process) {
            objects.push("process.o".to_owned());
        }
        if features.contains(CaptureModule::Connections) || features.contains(CaptureModule::Traffic)
            || features.contains(CaptureModule::Dns) {
            objects.push("network.o".to_owned());
        }
        if features.contains(CaptureModule::Files) {
            objects.push("file.o".to_owned());
        }
        assert(crate::capture::strings_view(objects@) =~= plan_objects(f));
        let mut programs: Vec<String> = Vec::new();
        let ghost e = Seq::<Seq<char>>::empty();
        assert(crate::capture::strings_view(programs@) =~= e);
        if features.contains(CaptureModule::Process) {
            append_names(&mut programs, process_programs());
        }
        let ghost p1 = crate::capture::strings_view(programs@);
        if features.contains(CaptureModule::Connections) {
            append_names(&mut programs, connection_programs());
        }
        let ghost p2 = crate::capture::strings_view(programs@);
        if features.contains(CaptureModule::Traffic) || features.contains(CaptureModule::Dns) {
            append_names(&mut programs, traffic_programs());
        }
        let ghost p3 = crate::capture::strings_view(programs@);
        if features.contains(CaptureModule::Files) {
            append_names(&mut programs, file_programs());
        }
        proof {
            assert(p1 =~= e + (if f.contains(CaptureModule::Process) { process_programs_spec() } else { Seq::empty() }));
            assert(p2 =~= p1 + (if f.contains(CaptureModule::Connections) { connection_programs_spec() } else { Seq::empty() }));
            assert(p3 =~= p2 + (if f.contains(CaptureModule::Traffic) || f.contains(CaptureModule::Dns) { traffic_programs_spec() } else { Seq::empty() }));
            assert(crate::capture::strings_view(programs@) =~= plan_programs(f));
        }
        let link_count = programs.len();
        KernelRuntimeStatus {
            state: KernelRuntimeState::Capturing,
            objects,
            programs,
            link_count,
            capture_target: Some(target.to_string()),
            error: None,
        }
    }
}

/// A status with nothing attached, in the given state and with the given
/// error.
pub open spec fn bare_status(s: KernelRuntimeStatus, state: KernelRuntimeState, error: Option<Seq<char>>) -> bool {
    &&& s.state == state
    &&& s.objects@.len() == 0
    &&& s.programs@.len() == 0
    &&& s.link_count == 0
    &&& s.capture_target is None
    &&& match (s.error, error) {
        (None, None) => true,
        (Some(e), Some(m)) => e@ == m,
        _ => false,
    }
}

/// The status of a capture running the features on the target.
pub open spec fn capturing_status(s: KernelRuntimeStatus, features: CaptureFeatures, target: CaptureScope) -> bool {
    &&& s.state == KernelRuntimeState::Capturing
    &&& strings_view(s.objects@) == plan_objects(features@)
    &&& strings_view(s.programs@) == plan_programs(features@)
    &&& s.link_count == plan_programs(features@).len()
    &&& s.capture_target matches Some(t) && t@ == scope_text(target)
    &&& s.error is None
}

/// A request to the kernel worker.
pub enum KernelCommand {
    /// Detach what is attached and capture the features on the target.
    Apply { features: CaptureFeatures, target: CaptureScope },
    /// Detach everything.
    Stop,
    /// End the worker.
    Shutdown,
}

/// What the kernel worker does with a request.
pub enum KernelAction {
    /// Load and attach every object and program of the plan, all or none.
    Attach { features: CaptureFeatures, target: CaptureScope },
    /// Answer the request with this status; nothing stays attached.
    Reply(KernelRuntimeStatus),
    /// End the worker.
    Exit,
}

/// The kernel worker's step on a request (whatever was attached has been
/// detached first): the status to show from now on (`None`: unchanged)
/// and what to do. A plan is attached from the attaching state; a stop
/// answers idle; a shutdown ends the worker.
pub fn kernel_on_command(command: &KernelCommand) -> (r: (Option<KernelRuntimeStatus>, KernelAction))
    ensures
        match *command {
            KernelCommand::Apply { features, target } => {
                &&& r.0 matches Some(s) && bare_status(s, KernelRuntimeState::Attaching, None)
                &&& r.1 matches KernelAction::Attach { features: f, target: t } && f == features && t == target
            },
            KernelCommand::Stop => {
                &&& r.0 matches Some(s) && bare_status(s, KernelRuntimeState::Idle, None)
                &&& r.1 matches KernelAction::Reply(s) && bare_status(s, KernelRuntimeState::Idle, None)
            },
            KernelCommand::Shutdown => r.0 is None && r.1 is Exit,
        },
{
    match command {
        KernelCommand::Apply { features, target } => (
            Some(KernelRuntimeStatus::attaching()),
            KernelAction::Attach { features: *features, target: target.duplicate() },
        ),
        KernelCommand::Stop => (Some(KernelRuntimeStatus::idle()), KernelAction::Reply(KernelRuntimeStatus::idle())),
        KernelCommand::Shutdown => (None, KernelAction::Exit),
    }
}

/// The status after attaching a plan: capturing everything the plan names
/// when every object and program was attached, else failed with the error
/// and nothing attached (what was attached is dropped).
pub fn kernel_after_attach(features: CaptureFeatures, target: &CaptureScope, outcome: Result<(), String>) -> (r:
    KernelRuntimeStatus)
    ensures
        match outcome {
            Ok(()) => capturing_status(r, features, *target),
            Err(e) => bare_status(r, KernelRuntimeState::Failed, Some(e@)),
        },
{
    match outcome {
        Ok(()) => KernelRuntimeStatus::capturing(features, target),
        Err(e) => KernelRuntimeStatus::failed(e),
    }
}

/// What the requester of a plan is answered: the capturing status, or the
/// error that stopped the attach.
pub fn kernel_apply_reply(status: &KernelRuntimeStatus) -> (r: Result<KernelRuntimeStatus, String>)
    ensures
        match status.error {
            Some(e) => r matches Err(m) && m@ == e@,
            None => r matches Ok(s) && same_status(s, *status),
        },
{
    match &status.error {
        Some(e) => Err(e.clone()),
        None => Ok(copy_status(status)),
    }
}

/// Two statuses that hold the same values.
pub open spec fn same_status(a: KernelRuntimeStatus, b: KernelRuntimeStatus) -> bool {
    &&& a.state == b.state
    &&& a.objects@ == b.objects@
    &&& a.programs@ == b.programs@
    &&& a.link_count == b.link_count
    &&& a.capture_target == b.capture_target
    &&& a.error == b.error
}

fn copy_status(s: &KernelRuntimeStatus) -> (r: KernelRuntimeStatus)
    ensures
        same_status(r, *s),
{
    KernelRuntimeStatus {
        state: s.state,
        objects: crate::events::clone_strings(&s.objects),
        programs: crate::events::clone_strings(&s.programs),
        link_count: s.link_count,
        capture_target: crate::events::clone_opt_string(&s.capture_target),
        error: crate::events::clone_opt_string(&s.error),
    }
}

impl Default for KernelRuntimeStatus {
    fn default() -> (r: Self)
        ensures
            r.state == KernelRuntimeState::Idle,
            r.objects@.len() == 0,
            r.programs@.len() == 0,
            r.link_count == 0,
            r.capture_target is None,
            r.error is None,
    {
        KernelRuntimeStatus::idle()
    }
}

pub open spec fn tcp_state_of(value: u32) -> Option<TcpState> {
    if value == 1 {
        Some(TcpState::Established)
    } else if value == 2 {
        Some(TcpState::SynSent)
    } else if value == 3 {
        Some(TcpState::SynRecv)
    } else if value == 4 {
        Some(TcpState::FinWait1)
    } else if value == 5 {
        Some(TcpState::FinWait2)
    } else if value == 6 {
        Some(TcpState::TimeWait)
    } else if value == 7 {
        Some(TcpState::Close)
    } else if value == 8 {
        Some(TcpState::CloseWait)
    } else if value == 9 {
        Some(TcpState::LastAck)
    } else if value == 10 {
        Some(TcpState::Listen)
    } else if value == 11 {
        Some(TcpState::Closing)
    } else if value == 12 {
        Some(TcpState::NewSynRecv)
    } else {
        None
    }
}

/// The kernel's TCP state number as a state.
pub fn tcp_state(value: u32) -> (r: Option<TcpState>)
    ensures
        r == tcp_state_of(value),
{
    if value == 1 {
        Some(TcpState::Established)
    } else if value == 2 {
        Some(TcpState::SynSent)
    } else if value == 3 {
        Some(TcpState::SynRecv)
    } else if value == 4 {
        Some(TcpState::FinWait1)
    } else if value == 5 {
        Some(TcpState::FinWait2)
    } else if value == 6 {
        Some(TcpState::TimeWait)
    } else if value == 7 {
        Some(TcpState::Close)
    } else if value == 8 {
        Some(TcpState::CloseWait)
    } else if value == 9 {
        Some(TcpState::LastAck)
    } else if value == 10 {
        Some(TcpState::Listen)
    } else if value == 11 {
        Some(TcpState::Closing)
    } else if value == 12 {
        Some(TcpState::NewSynRecv)
    } else {
        None
    }
}

pub open spec fn coarse_state(state: Option<TcpState>) -> ConnectionState {
    match state {
        Some(TcpState::Close) | Some(TcpState::FinWait1) | Some(TcpState::FinWait2) | Some(
            TcpState::TimeWait,
        ) | Some(TcpState::CloseWait) | Some(TcpState::LastAck) | Some(TcpState::Closing) => ConnectionState::Closed,
        Some(TcpState::Established) => ConnectionState::Established,
        _ => ConnectionState::Connecting,
    }
}

/// Closing states are closed, an established socket is established, the rest connecting.
pub fn coarse_connection_state(state: Option<TcpState>) -> (r: ConnectionState)
    ensures
        r == coarse_state(state),
{
    match state {
        Some(TcpState::Close) | Some(TcpState::FinWait1) | Some(TcpState::FinWait2) | Some(
            TcpState::TimeWait,
        ) | Some(TcpState::CloseWait) | Some(TcpState::LastAck) | Some(TcpState::Closing) => ConnectionState::Closed,
        Some(TcpState::Established) => ConnectionState::Established,
        _ => ConnectionState::Connecting,
    }
}

/// The text of an address of the given family, if the family is known.
pub open spec fn address_text(family: u16, a: Seq<u8>) -> Option<Seq<char>> {
    if family == AF_INET {
        Some(ipv4_text(a.subrange(0, 4)))
    } else if family == AF_INET6 {
        Some(ipv6_text(a))
    } else {
        None
    }
}

pub fn decode_address(family: u16, address: &[u8]) -> (r: Option<String>)
    requires
        address@.len() == 16,
    ensures
        crate::events::opt_string_view(r) == address_text(family, address@),
{
    let mut s = String::new();
    if family == AF_INET {
        push_ipv4(&mut s, address);
        assert(address@.subrange(0, 4) =~= address@.subrange(0, 4));
        proof {
            assert(ipv4_text(address@.subrange(0, 4)) == ipv4_text(address@));
        }
        Some(s)
    } else if family == AF_INET6 {
        push_ipv6(&mut s, address);
        Some(s)
    } else {
        None
    }
}

/// The process record in `data`, if it is long enough.
pub fn decode_process_record(data: &[u8]) -> (r: Option<KernelProcessEvent>)
    ensures
        r is Some <==> data@.len() >= PROCESS_EVENT_SIZE,
        r matches Some(e) ==> e.event_type == le16(data@, 0) && e.pid == le32(data@, 4)
            && e.comm@ == data@.subrange(8, 24) && e.timestamp_ns == le64(data@, 24),
{
    if data.len() < PROCESS_EVENT_SIZE {
        return None;
    }
    let mut comm = [0u8; 16];
    let mut i: usize = 0;
    while i < 16
        invariant
            i <= 16,
            data@.len() >= 32,
            forall|j: int| 0 <= j < i ==> comm@[j] == data@[8 + j],
        decreases 16 - i,
    {
        comm[i] = data[8 + i];
        i += 1;
    }
    assert(comm@ =~= data@.subrange(8, 24));
    Some(KernelProcessEvent {
        event_type: read_le16(data, 0),
        _reserved: read_le16(data, 2),
        pid: read_le32(data, 4),
        comm,
        timestamp_ns: read_le64(data, 24),
    })
}

/// The event a process record announces, given the command line and parent
/// read for its pid; none for pid 0 or an unknown record type.
pub open spec fn process_kind(event_type: u16) -> Option<EventKind> {
    if event_type == EVENT_PROCESS_EXEC {
        Some(EventKind::ProcessExec)
    } else if event_type == EVENT_PROCESS_EXIT {
        Some(EventKind::ProcessExit)
    } else {
        None
    }
}

pub fn process_event_from(event: &KernelProcessEvent, command_line: Option<String>, ppid: Option<u32>) -> (r:
    Option<TraceEvent>)
    ensures
        r is Some <==> event.pid != 0 && process_kind(event.event_type) is Some,
        r matches Some(e) ==> {
            let executable = match c_text(event.comm@) {
                Some(t) => t,
                None => "unknown"@,
            };
            &&& e.kind == process_kind(event.event_type).unwrap()
            &&& e.source == EventSource::Kernel
            &&& e.pid == Some(event.pid)
            &&& e.timestamp_ns == event.timestamp_ns
            &&& e.process matches Some(p) && p.ppid == ppid && crate::events::opt_string_view(
                p.executable,
            ) == Some(executable) && crate::events::opt_string_view(p.command_line) == Some(
                match command_line {
                    Some(c) => c@,
                    None => executable,
                },
            )
        },
{
    if event.pid == 0 {
        return None;
    }
    let executable = match c_string(event.comm.as_slice()) {
        Some(name) => name,
        None => "unknown".to_owned(),
    };
    let command_line = match command_line {
        Some(c) => c,
        None => executable.clone(),
    };
    let kind = if event.event_type == EVENT_PROCESS_EXEC {
        EventKind::ProcessExec
    } else if event.event_type == EVENT_PROCESS_EXIT {
        EventKind::ProcessExit
    } else {
        return None;
    };
    Some(
        TraceEvent::process_event(
            EventSource::Kernel,
            kind,
            event.pid,
            ppid,
            executable.as_str(),
            command_line.as_str(),
            event.timestamp_ns,
        ),
    )
}

/// The network record in `data`, if it is long enough.
pub fn decode_network_record(data: &[u8]) -> (r: Option<KernelNetworkEvent>)
    ensures
        r is Some <==> data@.len() >= NETWORK_EVENT_SIZE,
        r matches Some(e) ==> e.event_type == le16(data@, 0) && e.family == le16(data@, 2) && e.pid
            == le32(data@, 4) && e.socket_id == le64(data@, 8) && e.timestamp_ns == le64(data@, 16)
            && e.protocol == le16(data@, 24) && e.local_port == le16(data@, 26) && e.remote_port
            == le16(data@, 28) && e.old_state == le32(data@, 32) && e.new_state == le32(data@, 36)
            && e.local_addr@ == data@.subrange(40, 56) && e.remote_addr@ == data@.subrange(56, 72)
            && e.sent_bytes == le64(data@, 72) && e.received_bytes == le64(data@, 80),
{
    if data.len() < NETWORK_EVENT_SIZE {
        return None;
    }
    let mut local = [0u8; 16];
    let mut remote = [0u8; 16];
    let mut i: usize = 0;
    while i < 16
        invariant
            i <= 16,
            data@.len() >= 88,
            forall|j: int| 0 <= j < i ==> local@[j] == data@[40 + j] && remote@[j] == data@[56 + j],
        decreases 16 - i,
    {
        local[i] = data[40 + i];
        remote[i] = data[56 + i];
        i += 1;
    }
    assert(local@ =~= data@.subrange(40, 56));
    assert(remote@ =~= data@.subrange(56, 72));
    Some(KernelNetworkEvent {
        event_type: read_le16(data, 0),
        family: read_le16(data, 2),
        pid: read_le32(data, 4),
        socket_id: read_le64(data, 8),
        timestamp_ns: read_le64(data, 16),
        protocol: read_le16(data, 24),
        local_port: read_le16(data, 26),
        remote_port: read_le16(data, 28),
        _reserved: read_le16(data, 30),
        old_state: read_le32(data, 32),
        new_state: read_le32(data, 36),
        local_addr: local,
        remote_addr: remote,
        sent_bytes: read_le64(data, 72),
        received_bytes: read_le64(data, 80),
    })
}

pub open spec fn network_kind(event_type: u16) -> Option<EventKind> {
    if event_type == EVENT_TCP_CONNECT {
        Some(EventKind::TcpConnect)
    } else if event_type == EVENT_TCP_CLOSE {
        Some(EventKind::TcpClose)
    } else if event_type == EVENT_TCP_STATE {
        Some(EventKind::TcpStateChanged)
    } else if event_type == EVENT_TCP_BYTES {
        Some(EventKind::TcpBytes)
    } else {
        None
    }
}

/// The TCP state a network record reports: connect and close imply theirs;
/// a byte count on a socket still in its handshake means it is established.
pub open spec fn reported_tcp_state(e: KernelNetworkEvent, kind: EventKind) -> Option<TcpState> {
    let raw = match kind {
        EventKind::TcpConnect => Some(TcpState::Established),
        EventKind::TcpClose => Some(TcpState::Close),
        _ => tcp_state_of(e.new_state),
    };
    if kind == EventKind::TcpBytes && (raw == Some(TcpState::SynSent) || raw == Some(
        TcpState::SynRecv,
    )) && (e.sent_bytes > 0 || e.received_bytes > 0) {
        Some(TcpState::Established)
    } else {
        raw
    }
}

/// `socket-<id>`.
pub open spec fn socket_id_text(id: u64) -> Seq<char> {
    "socket-"@ + decimal(id as nat)
}

/// The connection a network record describes.
pub open spec fn reported_connection(e: KernelNetworkEvent, kind: EventKind, c: ConnectionRef) -> bool {
    let state = reported_tcp_state(e, kind);
    &&& c.id@ == socket_id_text(e.socket_id)
    &&& c.protocol == if e.protocol == IPPROTO_TCP {
        TransportProtocol::Tcp
    } else {
        TransportProtocol::Udp
    }
    &&& if e.local_port != 0 {
        c.local matches Some(l) && l.port == e.local_port && l.address@ == match address_text(
            e.family,
            e.local_addr@,
        ) {
            Some(t) => t,
            None => "0.0.0.0"@,
        }
    } else {
        c.local is None
    }
    &&& address_text(e.family, e.remote_addr@) matches Some(t) && c.remote.address@ == t
    &&& c.remote.port == e.remote_port
    &&& c.state == coarse_state(state)
    &&& c.tcp_state == state
    &&& c.sent_bytes == e.sent_bytes
    &&& c.received_bytes == e.received_bytes
    &&& c.domain is None
}

/// The event a network record announces, with the process it belongs to as
/// far as it is known; none for an unknown family or record type.
pub fn network_event_from(event: &KernelNetworkEvent, process: Option<ProcessRef>) -> (r: Option<TraceEvent>)
    ensures
        r is Some <==> address_text(event.family, event.remote_addr@) is Some && network_kind(
            event.event_type,
        ) is Some,
        r matches Some(e) ==> {
            &&& e.kind == network_kind(event.event_type).unwrap()
            &&& e.source == EventSource::Kernel
            &&& e.pid == Some(event.pid)
            &&& e.timestamp_ns == event.timestamp_ns
            &&& e.process == process
            &&& e.payload matches EventPayload::Connection { connection } && reported_connection(
                *event,
                e.kind,
                connection,
            )
        },
{
    let remote_address = match decode_address(event.family, event.remote_addr.as_slice()) {
        Some(a) => a,
        None => {
            return None;
        },
    };
    let local_address = decode_address(event.family, event.local_addr.as_slice());
    let kind = if event.event_type == EVENT_TCP_CONNECT {
        EventKind::TcpConnect
    } else if event.event_type == EVENT_TCP_CLOSE {
        EventKind::TcpClose
    } else if event.event_type == EVENT_TCP_STATE {
        EventKind::TcpStateChanged
    } else if event.event_type == EVENT_TCP_BYTES {
        EventKind::TcpBytes
    } else {
        return None;
    };
    let raw_state = match kind {
        EventKind::TcpConnect => Some(TcpState::Established),
        EventKind::TcpClose => Some(TcpState::Close),
        _ => tcp_state(event.new_state),
    };
    let in_handshake = matches!(raw_state, Some(TcpState::SynSent)) || matches!(raw_state, Some(TcpState::SynRecv));
    let tcp = if kind == EventKind::TcpBytes && in_handshake && (event.sent_bytes > 0
        || event.received_bytes > 0) {
        Some(TcpState::Established)
    } else {
        raw_state
    };
    let state = coarse_connection_state(tcp);
    let protocol = if event.protocol == IPPROTO_TCP {
        TransportProtocol::Tcp
    } else {
        TransportProtocol::Udp
    };
    let mut id = String::new();
    push_str(&mut id, "socket-");
    push_decimal(&mut id, event.socket_id);
    let local = if event.local_port != 0 {
        Some(
            Endpoint {
                address: match local_address {
                    Some(a) => a,
                    None => "0.0.0.0".to_owned(),
                },
                port: event.local_port,
            },
        )
    } else {
        None
    };
    let connection = ConnectionRef {
        id,
        protocol,
        local,
        remote: Endpoint { address: remote_address, port: event.remote_port },
        state,
        tcp_state: tcp,
        sent_bytes: event.sent_bytes,
        received_bytes: event.received_bytes,
        domain: None,
    };
    Some(
        TraceEvent::connection_event_with_process(
            EventSource::Kernel,
            kind,
            event.pid,
            process,
            connection,
            event.timestamp_ns,
        ),
    )
}

/// The file event in a file record: type, pid at 0/4; time, bytes at 8/16;
/// path at 24. None when short, for pid 0, an empty path or an unknown type.
pub fn decode_file_event(data: &[u8]) -> (r: Option<TraceEvent>)
    ensures
        r is Some <==> data@.len() >= FILE_EVENT_SIZE && le32(data@, 4) != 0 && c_text(
            data@.subrange(24, 280),
        ) is Some && (le16(data@, 0) == EVENT_FILE_OPEN || le16(data@, 0) == EVENT_FILE_READ),
        r matches Some(e) ==> {
            &&& e.kind == if le16(data@, 0) == EVENT_FILE_OPEN {
                EventKind::FileOpen
            } else {
                EventKind::FileRead
            }
            &&& e.source == EventSource::Kernel
            &&& e.pid == Some(le32(data@, 4))
            &&& e.timestamp_ns == le64(data@, 8)
            &&& e.payload matches EventPayload::File { path, bytes } && Some(path@) == c_text(
                data@.subrange(24, 280),
            ) && bytes == le64(data@, 16)
        },
{
    if data.len() < FILE_EVENT_SIZE {
        return None;
    }
    let pid = read_le32(data, 4);
    if pid == 0 {
        return None;
    }
    let path = match c_string(slice_subrange(data, 24, 280)) {
        Some(p) => p,
        None => {
            return None;
        },
    };
    let event_type = read_le16(data, 0);
    let kind = if event_type == EVENT_FILE_OPEN {
        EventKind::FileOpen
    } else if event_type == EVENT_FILE_READ {
        EventKind::FileRead
    } else {
        return None;
    };
    Some(
        TraceEvent::file_event(
            EventSource::Kernel,
            kind,
            pid,
            FileEventData { path, bytes: read_le64(data, 16) },
            read_le64(data, 8),
        ),
    )
}


/// The payload bytes a DNS record carries: its size field, capped at the
/// payload array.
pub open spec fn dns_payload(d: Seq<u8>) -> Seq<u8> {
    let size = le32(d, 24);
    d.subrange(28, 28 + if size < 512 {
        size as int
    } else {
        512
    })
}

/// The DNS event in a DNS record: type, protocol, pid at 0/2/4; time at 16;
/// payload size at 24, payload at 28. None when short, for an unknown type
/// or protocol, or when the message does not parse.
pub fn decode_dns_event(data: &[u8]) -> (r: Option<TraceEvent>)
    ensures
        r is Some <==> data@.len() >= DNS_EVENT_SIZE && (le16(data@, 0) == EVENT_DNS_QUERY || le16(
            data@,
            0,
        ) == EVENT_DNS_RESPONSE) && (le16(data@, 2) == IPPROTO_TCP || le16(data@, 2) == IPPROTO_UDP)
            && parse_dns_spec(dns_payload(data@), le16(data@, 0) == EVENT_DNS_RESPONSE) is Some,
        r matches Some(e) ==> {
            &&& e.kind == if le16(data@, 0) == EVENT_DNS_RESPONSE {
                EventKind::DnsResponse
            } else {
                EventKind::DnsQuery
            }
            &&& e.source == EventSource::Kernel
            &&& e.pid == Some(le32(data@, 4))
            &&& e.timestamp_ns == le64(data@, 16)
            &&& e.payload matches EventPayload::Dns { protocol, domain, addresses, ttl_secs }
                && protocol == (if le16(data@, 2) == IPPROTO_TCP {
                TransportProtocol::Tcp
            } else {
                TransportProtocol::Udp
            }) && parse_dns_spec(dns_payload(data@), le16(data@, 0) == EVENT_DNS_RESPONSE) == Some(
                (domain@, strings_view(addresses@), ttl_secs),
            )
        },
{
    if data.len() < DNS_EVENT_SIZE {
        return None;
    }
    let size = read_le32(data, 24);
    let payload_size: usize = if size < 512 {
        size as usize
    } else {
        DNS_PAYLOAD_LEN
    };
    let payload = slice_subrange(data, 28, 28 + payload_size);
    let event_type = read_le16(data, 0);
    let is_response = if event_type == EVENT_DNS_QUERY {
        false
    } else if event_type == EVENT_DNS_RESPONSE {
        true
    } else {
        return None;
    };
    let protocol_number = read_le16(data, 2);
    let protocol = if protocol_number == IPPROTO_TCP {
        TransportProtocol::Tcp
    } else if protocol_number == IPPROTO_UDP {
        TransportProtocol::Udp
    } else {
        return None;
    };
    let dns = match parse_dns_message(payload, is_response) {
        Some(d) => d,
        None => {
            return None;
        },
    };
    let kind = if is_response {
        EventKind::DnsResponse
    } else {
        EventKind::DnsQuery
    };
    Some(
        TraceEvent::dns_event_with_data(
            EventSource::Kernel,
            kind,
            read_le32(data, 4),
            DnsEventData {
                protocol,
                domain: dns.domain,
                addresses: dns.addresses,
                ttl_secs: dns.ttl_secs,
            },
            read_le64(data, 16),
        ),
    )
}

} // verus!
