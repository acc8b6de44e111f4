//! What a capture covers: which processes and events a capture scope takes
//! in, the level a process is observed at, the processes an observation
//! target reaches, and what the intake keeps of an event.
use vstd::prelude::*;
use crate::capture::CaptureScope;
use crate::detection::Alert;
use crate::events::{EventKind, ProcessRef, TraceEvent};
use crate::keyed::{text_less, text_lt};
use crate::network::tracker::{ConnectionRecord, ConnectionTracker};
use crate::observation::{
    level_max, level_rank, ObservationLevel, ObservationManager, ObservationTarget, TargetView,
};
use crate::process::tracker::{ProcessRecord, ProcessTracker};
use crate::sessions::last_n;

verus! {

/// Alerts kept, newest last.
pub const ALERT_LIMIT: usize = 1_000;

/// The executable name the process table holds for a process.
pub open spec fn executable_of(procs: Map<u32, ProcessRecord>, pid: u32) -> Option<Seq<char>> {
    if procs.contains_key(pid) {
        match procs[pid].identity.executable {
            Some(e) => Some(e@),
            None => None,
        }
    } else {
        None
    }
}

/// The level a process is observed at, at `now`: the higher of the level of
/// its own target and that of its executable name (L1 when the name is not
/// known).
pub open spec fn process_level(
    m: ObservationManager,
    procs: Map<u32, ProcessRecord>,
    pid: u32,
    now: u64,
) -> ObservationLevel {
    level_max(
        m.level_at(TargetView::Process(pid), now),
        match executable_of(procs, pid) {
            Some(n) => m.level_at(TargetView::ProcessName(n), now),
            None => ObservationLevel::L1,
        },
    )
}

pub fn effective_process_level(
    observations: &ObservationManager,
    processes: &ProcessTracker,
    pid: u32,
    now: u64,
) -> (r: ObservationLevel)
    requires
        observations.wf(),
        processes.wf(),
    ensures
        r == process_level(*observations, processes.records(), pid, now),
{
    let own = observations.current_level_at(&ObservationTarget::Process(pid), now);
    let by_name = match processes.get(pid) {
        Some(record) => match &record.identity.executable {
            Some(name) => observations.current_level_at(&ObservationTarget::ProcessName(name.clone()), now),
            None => ObservationLevel::L1,
        },
        None => ObservationLevel::L1,
    };
    own.max(by_name)
}

/// Whether a capture scope takes in a process.
pub open spec fn process_in_scope(scope: CaptureScope, procs: Map<u32, ProcessRecord>, pid: u32) -> bool {
    match scope {
        CaptureScope::Global => true,
        CaptureScope::Process(p) => p == pid,
        CaptureScope::ProcessName(n) => executable_of(procs, pid) == Some(n@),
    }
}

pub fn process_in_capture_scope(scope: &CaptureScope, processes: &ProcessTracker, pid: u32) -> (r: bool)
    requires
        processes.wf(),
    ensures
        r == process_in_scope(*scope, processes.records(), pid),
{
    match scope {
        CaptureScope::Global => true,
        CaptureScope::Process(p) => *p == pid,
        CaptureScope::ProcessName(name) => match processes.get(pid) {
            Some(record) => match &record.identity.executable {
                Some(e) => *e == *name,
                None => false,
            },
            None => false,
        },
    }
}

/// The executable name an event is matched by: the one the event carries,
/// else the one the process table holds, else (outside observer mode) the
/// one read for the event's process.
pub open spec fn event_process_name(
    e: TraceEvent,
    procs: Map<u32, ProcessRecord>,
    observer_mode: bool,
    read_name: Option<String>,
) -> Option<Seq<char>> {
    let carried = match e.process {
        Some(p) => match p.executable {
            Some(x) => Some(x@),
            None => None,
        },
        None => None,
    };
    let known = match e.pid {
        Some(pid) => executable_of(procs, pid),
        None => None,
    };
    if carried is Some {
        carried
    } else if known is Some {
        known
    } else if observer_mode || e.pid is None {
        None
    } else {
        match read_name {
            Some(n) => Some(n@),
            None => None,
        }
    }
}

/// Whether a capture scope takes in an event.
pub open spec fn event_in_scope(
    scope: CaptureScope,
    e: TraceEvent,
    procs: Map<u32, ProcessRecord>,
    observer_mode: bool,
    read_name: Option<String>,
) -> bool {
    match scope {
        CaptureScope::Global => true,
        CaptureScope::Process(p) => e.pid == Some(p),
        CaptureScope::ProcessName(n) => event_process_name(e, procs, observer_mode, read_name) == Some(n@),
    }
}

/// Whether a capture scope takes in an event. `read_name` is the executable
/// name read for the event's process where neither the event nor the process
/// table names it.
pub fn event_matches_capture_scope(
    scope: &CaptureScope,
    processes: &ProcessTracker,
    event: &TraceEvent,
    observer_mode: bool,
    read_name: Option<String>,
) -> (r: bool)
    requires
        processes.wf(),
    ensures
        r == event_in_scope(*scope, *event, processes.records(), observer_mode, read_name),
{
    let name = match scope {
        CaptureScope::Global => return true,
        CaptureScope::Process(p) => return event.pid == Some(*p),
        CaptureScope::ProcessName(name) => name,
    };
    let carried = match &event.process {
        Some(p) => match &p.executable {
            Some(x) => Some(x),
            None => None,
        },
        None => None,
    };
    if let Some(x) = carried {
        return *x == *name;
    }
    if let Some(pid) = event.pid {
        if let Some(record) = processes.get(pid) {
            if let Some(x) = &record.identity.executable {
                return *x == *name;
            }
        }
        if observer_mode {
            return false;
        }
        match read_name {
            Some(x) => x == *name,
            None => false,
        }
    } else {
        false
    }
}

/// Whether a connection record names the domain.
pub open spec fn names_domain(r: ConnectionRecord, d: Seq<char>) -> bool {
    r.connection.domain matches Some(x) && x@ == d
}

/// The processes an observation target reaches.
pub open spec fn target_pids(
    t: TargetView,
    procs: Map<u32, ProcessRecord>,
    conns: Map<Seq<char>, ConnectionRecord>,
) -> Set<u32> {
    match t {
        TargetView::Process(pid) => set![pid],
        TargetView::ProcessName(n) => Set::new(|p: u32| executable_of(procs, p) == Some(n)),
        TargetView::Connection(id) => Set::new(
            |p: u32| conns.contains_key(id) && conns[id].pid == Some(p),
        ),
        TargetView::Domain(d) => Set::new(
            |p: u32|
                exists|k: Seq<char>|
                    conns.contains_key(k) && #[trigger] conns[k].pid == Some(p)
                        && names_domain(conns[k], d),
        ),
    }
}

pub open spec fn strictly_increasing(s: Seq<u32>) -> bool {
    forall|i: int, j: int| 0 <= i < j < s.len() ==> s[i] < s[j]
}

/// Adds `x` to an increasing list of process ids, unless it is there.
fn add_pid(v: &mut Vec<u32>, x: u32)
    requires
        strictly_increasing(old(v)@),
    ensures
        strictly_increasing(final(v)@),
        final(v)@.to_set() == old(v)@.to_set().insert(x),
{
    let ghost before = v@;
    let mut i: usize = 0;
    while i < v.len() && v[i] < x
        invariant
            i <= v@.len(),
            v@ == before,
            forall|j: int| 0 <= j < i ==> v@[j] < x,
        decreases v.len() - i,
    {
        i += 1;
    }
    if i < v.len() && v[i] == x {
        assert(before.to_set() =~= before.to_set().insert(x)) by {
            assert(before.contains(x)) by {
                assert(before[i as int] == x);
            }
        }
        return;
    }
    v.insert(i, x);
    proof {
        before.insert_ensures(i as int, x);
        let after = before.insert(i as int, x);
        assert forall|a: int, b: int| 0 <= a < b < after.len() implies after[a] < after[b] by {
            if b < i {
            } else if a > i {
                assert(after[a] == before[a - 1]);
                assert(after[b] == before[b - 1]);
            } else if a == i {
                assert(after[b] == before[b - 1]);
                assert(before[i as int] >= x);
                assert(before[i as int] != x);
                if b - 1 > i {
                    assert(before[i as int] < before[b - 1]);
                }
            } else {
                if b == i {
                } else {
                    assert(after[b] == before[b - 1]);
                    assert(before[i as int] > x);
                    if b - 1 > i {
                        assert(before[i as int] < before[b - 1]);
                    }
                }
            }
        }
        assert forall|y: u32| after.to_set().contains(y) == before.to_set().insert(x).contains(y) by {
            if after.contains(y) {
                let k = choose|k: int| 0 <= k < after.len() && after[k] == y;
                if k < i {
                    assert(before[k] == y);
                } else if k > i {
                    assert(before[k - 1] == y);
                }
            }
            if before.contains(y) {
                let k = choose|k: int| 0 <= k < before.len() && before[k] == y;
                if k < i {
                    assert(after[k] == y);
                } else {
                    assert(after[k + 1] == y);
                }
            }
            if y == x {
                assert(after[i as int] == x);
            }
        }
        assert(after.to_set() =~= before.to_set().insert(x));
    }
}

/// The processes an observation target reaches, in increasing order, each
/// once.
pub fn process_pids_for_target(
    target: &ObservationTarget,
    processes: &ProcessTracker,
    connections: &ConnectionTracker,
) -> (r: Vec<u32>)
    requires
        processes.wf(),
        connections.wf(),
    ensures
        strictly_increasing(r@),
        r@.to_set() == target_pids(target@, processes.records(), connections.records()),
{
    let mut pids: Vec<u32> = Vec::new();
    assert(pids@.to_set() =~= Set::<u32>::empty());
    match target {
        ObservationTarget::Process(pid) => {
            add_pid(&mut pids, *pid);
            assert(pids@.to_set() =~= set![*pid]);
        },
        ObservationTarget::ProcessName(name) => {
            let records = processes.listed();
            let ghost procs = processes.records();
            let mut i: usize = 0;
            while i < records.len()
                invariant
                    i <= records@.len(),
                    strictly_increasing(pids@),
                    forall|j: int| 0 <= j < records@.len() ==> procs.contains_key(
                        (#[trigger] records@[j]).identity.pid,
                    ) && procs[records@[j].identity.pid] == records@[j],
                    pids@.to_set() == Set::new(
                        |p: u32|
                            exists|j: int|
                                0 <= j < i && #[trigger] records@[j].identity.pid == p
                                    && executable_of(procs, p) == Some(name@),
                    ),
                decreases records.len() - i,
            {
                let record = &records[i];
                let hit = match &record.identity.executable {
                    Some(e) => *e == *name,
                    None => false,
                };
                let ghost before = pids@.to_set();
                if hit {
                    add_pid(&mut pids, record.identity.pid);
                }
                assert(pids@.to_set() =~= Set::new(
                    |p: u32|
                        exists|j: int|
                            0 <= j < i + 1 && #[trigger] records@[j].identity.pid == p
                                && executable_of(procs, p) == Some(name@),
                ));
                i += 1;
            }
            assert(pids@.to_set() =~= target_pids(target@, procs, connections.records())) by {
                assert forall|p: u32| #[trigger] executable_of(procs, p) == Some(name@) implies exists|j: int|
                    0 <= j < records@.len() && #[trigger] records@[j].identity.pid == p by {
                    assert(procs.contains_key(p));
                    let j = choose|j: int| 0 <= j < records@.len() && #[trigger] records@[j] == procs[p];
                    assert(records@[j].identity.pid == p);
                }
            }
        },
        ObservationTarget::Connection(id) => {
            if let Some(record) = connections.get(id) {
                if let Some(pid) = record.pid {
                    add_pid(&mut pids, pid);
                }
            }
            assert(pids@.to_set() =~= target_pids(target@, processes.records(), connections.records()));
        },
        ObservationTarget::Domain(domain) => {
            let records = connections.listed();
            let ghost conns = connections.records();
            let mut i: usize = 0;
            while i < records.len()
                invariant
                    i <= records@.len(),
                    strictly_increasing(pids@),
                    forall|j: int| 0 <= j < records@.len() ==> conns.contains_key(
                        (#[trigger] records@[j]).connection.id@,
                    ) && conns[records@[j].connection.id@] == records@[j],
                    pids@.to_set() == Set::new(
                        |p: u32|
                            exists|j: int|
                                0 <= j < i && #[trigger] records@[j].pid == Some(p)
                                    && names_domain(records@[j], domain@),
                    ),
                decreases records.len() - i,
            {
                let record = &records[i];
                let hit = match &record.connection.domain {
                    Some(d) => *d == *domain,
                    None => false,
                };
                if hit {
                    if let Some(pid) = record.pid {
                        add_pid(&mut pids, pid);
                    }
                }
                assert(pids@.to_set() =~= Set::new(
                    |p: u32|
                        exists|j: int|
                            0 <= j < i + 1 && #[trigger] records@[j].pid == Some(p)
                                && names_domain(records@[j], domain@),
                ));
                i += 1;
            }
            assert(pids@.to_set() =~= target_pids(target@, processes.records(), conns)) by {
                assert forall|p: u32| #[trigger] target_pids(target@, processes.records(), conns).contains(p) implies exists|j: int|
                    0 <= j < records@.len() && #[trigger] records@[j].pid == Some(p)
                        && names_domain(records@[j], domain@) by {
                    let k = choose|k: Seq<char>|
                        conns.contains_key(k) && #[trigger] conns[k].pid == Some(p)
                            && names_domain(conns[k], domain@);
                    let j = choose|j: int| 0 <= j < records@.len() && #[trigger] records@[j] == conns[k];
                    assert(records@[j].pid == Some(p));
                }
            }
        },
    }
    pids
}

/// `a` is listed before `b` among processes: by executable name (processes
/// without one first), then by process id.
pub open spec fn process_listed_before(a: ProcessRef, b: ProcessRef) -> bool {
    match (a.executable, b.executable) {
        (None, Some(_)) => true,
        (Some(_), None) => false,
        (Some(x), Some(y)) => text_lt(x@, y@) || (x@ == y@ && a.pid < b.pid),
        (None, None) => a.pid < b.pid,
    }
}

pub open spec fn process_slot(t: Seq<ProcessRef>, x: ProcessRef) -> nat
    decreases t.len(),
{
    if t.len() == 0 {
        0
    } else if process_listed_before(x, t[0]) {
        0
    } else {
        1 + process_slot(t.drop_first(), x)
    }
}

/// The processes by name, then id: the stable sort by
/// `process_listed_before`.
pub open spec fn by_name(ps: Seq<ProcessRef>) -> Seq<ProcessRef>
    decreases ps.len(),
{
    if ps.len() == 0 {
        Seq::empty()
    } else {
        let t = by_name(ps.drop_last());
        t.insert(process_slot(t, ps.last()) as int, ps.last())
    }
}

proof fn lemma_process_slot_bound(t: Seq<ProcessRef>, x: ProcessRef)
    ensures
        process_slot(t, x) <= t.len(),
    decreases t.len(),
{
    if t.len() > 0 && !process_listed_before(x, t[0]) {
        lemma_process_slot_bound(t.drop_first(), x);
    }
}

fn is_process_listed_before(a: &ProcessRef, b: &ProcessRef) -> (r: bool)
    ensures
        r == process_listed_before(*a, *b),
{
    match (&a.executable, &b.executable) {
        (None, Some(_)) => true,
        (Some(_), None) => false,
        (Some(x), Some(y)) => text_less(x, y) || (*x == *y && a.pid < b.pid),
        (None, None) => a.pid < b.pid,
    }
}

fn process_slot_of(t: &Vec<ProcessRef>, x: &ProcessRef) -> (k: usize)
    ensures
        k == process_slot(t@, *x),
{
    let mut i: usize = 0;
    assert(t@.skip(0) =~= t@);
    while i < t.len() && !is_process_listed_before(x, &t[i])
        invariant
            i <= t@.len(),
            i + process_slot(t@.skip(i as int), *x) == process_slot(t@, *x),
        decreases t.len() - i,
    {
        assert(t@.skip(i as int)[0] == t@[i as int]);
        assert(t@.skip(i as int).drop_first() =~= t@.skip(i + 1));
        i += 1;
    }
    if i < t.len() {
        assert(t@.skip(i as int)[0] == t@[i as int]);
    }
    i
}

/// Processes for a picker: by executable name, then by process id.
pub fn sort_processes(processes: Vec<ProcessRef>) -> (r: Vec<ProcessRef>)
    ensures
        r@ == by_name(processes@),
{
    let ghost all = processes@;
    let n = processes.len();
    let mut rest = processes;
    let mut sorted: Vec<ProcessRef> = Vec::new();
    let mut i: usize = 0;
    assert(all.take(0) =~= Seq::<ProcessRef>::empty());
    assert(all.skip(0) =~= all);
    while rest.len() > 0
        invariant
            i <= all.len(),
            all.len() == n,
            rest@ == all.skip(i as int),
            sorted@ == by_name(all.take(i as int)),
        decreases rest.len(),
    {
        let p = rest.remove(0);
        assert(all.take(i + 1).drop_last() =~= all.take(i as int));
        assert(all.take(i + 1).last() == p);
        assert(rest@ =~= all.skip(i + 1));
        let k = process_slot_of(&sorted, &p);
        proof {
            lemma_process_slot_bound(sorted@, p);
        }
        sorted.insert(k, p);
        i += 1;
    }
    assert(all.take(i as int) =~= all);
    sorted
}

/// Adds newly raised alerts and keeps the newest `ALERT_LIMIT`.
pub fn record_alerts(alerts: &mut Vec<Alert>, raised: Vec<Alert>)
    ensures
        final(alerts)@ == last_n(old(alerts)@ + raised@, ALERT_LIMIT as nat),
{
    let mut raised = raised;
    alerts.append(&mut raised);
    if alerts.len() > ALERT_LIMIT {
        let trim = alerts.len() - ALERT_LIMIT;
        let kept = alerts.split_off(trim);
        *alerts = kept;
    }
}

/// Whether the intake takes an event in at all: only while capturing, and
/// not from before the capture started.
pub open spec fn admitted(capturing: bool, started_at_ns: Option<u64>, timestamp_ns: u64) -> bool {
    capturing && !(started_at_ns matches Some(s) && timestamp_ns < s)
}

pub fn admits_event(capturing: bool, started_at_ns: Option<u64>, timestamp_ns: u64) -> (r: bool)
    ensures
        r == admitted(capturing, started_at_ns, timestamp_ns),
{
    capturing && match started_at_ns {
        Some(s) => timestamp_ns >= s,
        None => true,
    }
}

/// What the intake does with an event it took in.
#[derive(Debug, Clone, Copy, PartialEq, Eq)]
pub struct IntakePlan {
    /// Reassemble HTTP messages from it.
    pub derive_http: bool,
    /// Store and publish the event itself.
    pub persist: bool,
}

/// HTTP is reassembled unless an observer capture runs its process below L4;
/// the event is kept unless it is a bounded HTTP capture, plaintext that an
/// observer capture runs below L5, or a file event of no security interest.
/// `level` is the level of the event's process (`None` without one).
pub open spec fn intake_plan_spec(
    kind: EventKind,
    observer_mode: bool,
    level: Option<ObservationLevel>,
    relevant_file: bool,
) -> IntakePlan {
    let derive_http = !observer_mode || (level matches Some(l) && level_rank(l) >= 4);
    let retain_plaintext = kind != EventKind::Plaintext || !observer_mode || (level matches Some(l)
        && level_rank(l) >= 5);
    let persist = kind != EventKind::HttpCapture && retain_plaintext && (!(kind
        == EventKind::FileOpen || kind == EventKind::FileRead) || relevant_file);
    IntakePlan { derive_http, persist }
}

pub fn intake_plan(
    kind: EventKind,
    observer_mode: bool,
    level: Option<ObservationLevel>,
    relevant_file: bool,
) -> (r: IntakePlan)
    ensures
        r == intake_plan_spec(kind, observer_mode, level, relevant_file),
{
    let rank: u8 = match level {
        Some(l) => l.number(),
        None => 0,
    };
    let derive_http = !observer_mode || rank >= 4;
    let retain_plaintext = kind != EventKind::Plaintext || !observer_mode || rank >= 5;
    let persist = kind != EventKind::HttpCapture && retain_plaintext && (!(kind
        == EventKind::FileOpen || kind == EventKind::FileRead) || relevant_file);
    IntakePlan { derive_http, persist }
}

} // verus!
