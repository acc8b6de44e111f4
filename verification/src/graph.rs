//! The behavior graph read model: processes, their connections, the domains
//! those resolved to and the sensitive files they touched, rebuilt on
//! request from the live records.
use vstd::prelude::*;
use crate::detection::{capped_points, points_sum, about_process, Alert};
use crate::detection::engine::{endpoint_text, sensitive_path};
use crate::events::{opt_string_view, ConnectionState, EventKind, EventPayload, ProcessRef, TraceEvent, TransportProtocol};
use crate::keyed::{copy_texts, text_lt, Keyed};
use crate::detection::risk_score_for_process;
use crate::detection::engine::is_sensitive_path;
use crate::text::{chars_of, push_decimal, push_str, range_starts_with};
use crate::events::clone_opt_string;
use crate::network::tracker::ConnectionRecord;
use crate::process::tracker::ProcessRecord;
use crate::text::decimal;

verus! {

#[derive(Debug, Clone, Copy, PartialEq, Eq, Structural)]
pub enum GraphNodeKind {
    Process,
    Domain,
    Connection,
    File,
}

/// A node; its metadata is kept in key order.
#[derive(Debug)]
pub struct GraphNode {
    pub id: String,
    pub kind: GraphNodeKind,
    pub label: String,
    pub risk_score: u32,
    pub pid: Option<u32>,
    pub connection_id: Option<String>,
    pub metadata: Keyed<String>,
}

#[derive(Debug, Clone, PartialEq, Eq)]
pub struct GraphEdge {
    pub id: String,
    pub source: String,
    pub target: String,
    pub relation: String,
    pub event_count: usize,
    pub first_seen_ns: u64,
    pub last_seen_ns: u64,
}

/// Nodes and edges, each in id order, and the newest time they reflect.
#[derive(Debug)]
pub struct BehaviorGraph {
    pub nodes: Vec<GraphNode>,
    pub edges: Vec<GraphEdge>,
    pub updated_at_ns: u64,
}

pub struct NodeView {
    pub kind: GraphNodeKind,
    pub label: Seq<char>,
    pub risk: u32,
    pub pid: Option<u32>,
    pub connection_id: Option<Seq<char>>,
    pub metadata: Map<Seq<char>, Seq<char>>,
}

pub struct EdgeView {
    pub source: Seq<char>,
    pub target: Seq<char>,
    pub relation: Seq<char>,
    pub count: usize,
    pub first: u64,
    pub last: u64,
}

pub struct GraphState {
    pub nodes: Map<Seq<char>, NodeView>,
    pub edges: Map<Seq<char>, EdgeView>,
    pub updated: u64,
}

pub open spec fn metadata_view(m: Keyed<String>) -> Map<Seq<char>, Seq<char>> {
    m.map().map_values(|s: String| s@)
}

pub open spec fn node_view(n: GraphNode) -> NodeView {
    NodeView {
        kind: n.kind,
        label: n.label@,
        risk: n.risk_score,
        pid: n.pid,
        connection_id: opt_string_view(n.connection_id),
        metadata: metadata_view(n.metadata),
    }
}

pub open spec fn edge_view(e: GraphEdge) -> EdgeView {
    EdgeView {
        source: e.source@,
        target: e.target@,
        relation: e.relation@,
        count: e.event_count,
        first: e.first_seen_ns,
        last: e.last_seen_ns,
    }
}

// ---- ids and labels

pub open spec fn process_id(pid: u32) -> Seq<char> {
    "process:"@ + decimal(pid as nat)
}

pub open spec fn pid_label(pid: u32) -> Seq<char> {
    "pid "@ + decimal(pid as nat)
}

pub open spec fn starts_pid(label: Seq<char>) -> bool {
    "pid "@.is_prefix_of(label)
}

pub open spec fn edge_id(source: Seq<char>, relation: Seq<char>, target: Seq<char>) -> Seq<char> {
    source + "|"@ + relation + "|"@ + target
}

// ---- merging

/// A node inserted again keeps its kind, process and connection, takes the
/// higher risk, a real label over a `pid N` placeholder, and the new
/// metadata over the old.
pub open spec fn merge_node(e: NodeView, n: NodeView) -> NodeView {
    NodeView {
        risk: if n.risk > e.risk {
            n.risk
        } else {
            e.risk
        },
        label: if starts_pid(e.label) && !starts_pid(n.label) {
            n.label
        } else {
            e.label
        },
        metadata: e.metadata.union_prefer_right(n.metadata),
        ..e
    }
}

pub open spec fn put_node(m: Map<Seq<char>, NodeView>, id: Seq<char>, n: NodeView) -> Map<Seq<char>, NodeView> {
    if m.contains_key(id) {
        m.insert(id, merge_node(m[id], n))
    } else {
        m.insert(id, n)
    }
}

pub open spec fn sat_inc(n: usize) -> usize {
    if n == usize::MAX {
        n
    } else {
        (n + 1) as usize
    }
}

/// An edge seen again counts once more and widens its time span.
pub open spec fn put_edge(
    m: Map<Seq<char>, EdgeView>,
    source: Seq<char>,
    target: Seq<char>,
    relation: Seq<char>,
    first: u64,
    last: u64,
) -> Map<Seq<char>, EdgeView> {
    let id = edge_id(source, relation, target);
    if m.contains_key(id) {
        let e = m[id];
        m.insert(
            id,
            EdgeView {
                count: sat_inc(e.count),
                first: if first < e.first {
                    first
                } else {
                    e.first
                },
                last: if last > e.last {
                    last
                } else {
                    e.last
                },
                ..e
            },
        )
    } else {
        m.insert(id, EdgeView { source, target, relation, count: 1, first, last })
    }
}

pub open spec fn later(a: u64, b: u64) -> u64 {
    if b > a {
        b
    } else {
        a
    }
}

// ---- risk

pub open spec fn process_risk(alerts: Seq<Alert>, pid: u32) -> u32 {
    capped_points(points_sum(alerts, about_process(pid)))
}

pub open spec fn about_connection(id: Seq<char>) -> spec_fn(Alert) -> bool {
    |a: Alert| opt_string_view(a.connection_id) == Some(id)
}

pub open spec fn connection_risk(alerts: Seq<Alert>, id: Seq<char>) -> u32 {
    capped_points(points_sum(alerts, about_connection(id)))
}

/// The highest risk of the alerts about a domain, 0 when there is none.
pub open spec fn domain_risk(alerts: Seq<Alert>, domain: Seq<char>) -> u32
    decreases alerts.len(),
{
    if alerts.len() == 0 {
        0
    } else {
        let rest = domain_risk(alerts.drop_last(), domain);
        if opt_string_view(alerts.last().domain) == Some(domain) && alerts.last().risk_score > rest {
            alerts.last().risk_score
        } else {
            rest
        }
    }
}

// ---- the three passes

pub open spec fn process_metadata(p: ProcessRef) -> Map<Seq<char>, Seq<char>> {
    let m1 = match p.command_line {
        Some(c) => Map::empty().insert("command_line"@, c@),
        None => Map::empty(),
    };
    match p.ppid {
        Some(pp) => m1.insert("ppid"@, decimal(pp as nat)),
        None => m1,
    }
}

pub open spec fn process_step(g: GraphState, r: ProcessRecord, alerts: Seq<Alert>) -> GraphState {
    let p = r.identity;
    let id = process_id(p.pid);
    let nodes = put_node(
        g.nodes,
        id,
        NodeView {
            kind: GraphNodeKind::Process,
            label: match p.executable {
                Some(e) => e@,
                None => pid_label(p.pid),
            },
            risk: process_risk(alerts, p.pid),
            pid: Some(p.pid),
            connection_id: None,
            metadata: process_metadata(p),
        },
    );
    match p.ppid {
        Some(pp) => GraphState {
            nodes: put_node(
                nodes,
                process_id(pp),
                NodeView {
                    kind: GraphNodeKind::Process,
                    label: pid_label(pp),
                    risk: process_risk(alerts, pp),
                    pid: Some(pp),
                    connection_id: None,
                    metadata: Map::empty(),
                },
            ),
            edges: put_edge(g.edges, process_id(pp), id, "spawned"@, r.first_seen_ns, r.last_seen_ns),
            updated: later(g.updated, r.last_seen_ns),
        },
        None => GraphState { nodes, updated: later(g.updated, r.last_seen_ns), ..g },
    }
}

pub open spec fn process_pass(g: GraphState, rs: Seq<ProcessRecord>, alerts: Seq<Alert>) -> GraphState
    decreases rs.len(),
{
    if rs.len() == 0 {
        g
    } else {
        process_step(process_pass(g, rs.drop_last(), alerts), rs.last(), alerts)
    }
}

pub open spec fn protocol_word(p: TransportProtocol) -> Seq<char> {
    match p {
        TransportProtocol::Tcp => "tcp"@,
        TransportProtocol::Udp => "udp"@,
    }
}

pub open spec fn state_word(s: ConnectionState) -> Seq<char> {
    match s {
        ConnectionState::Connecting => "connecting"@,
        ConnectionState::Established => "established"@,
        ConnectionState::Closed => "closed"@,
    }
}

pub open spec fn connection_step(g: GraphState, r: ConnectionRecord, alerts: Seq<Alert>) -> GraphState {
    let c = r.connection;
    let id = "connection:"@ + c.id@;
    let n1 = put_node(
        g.nodes,
        id,
        NodeView {
            kind: GraphNodeKind::Connection,
            label: match c.domain {
                Some(d) => d@,
                None => endpoint_text(c),
            },
            risk: connection_risk(alerts, c.id@),
            pid: r.pid,
            connection_id: Some(c.id@),
            metadata: Map::empty().insert("remote_address"@, c.remote.address@).insert(
                "remote_port"@,
                decimal(c.remote.port as nat),
            ).insert("protocol"@, protocol_word(c.protocol)).insert("state"@, state_word(c.state)),
        },
    );
    let (n2, e2) = match r.pid {
        Some(pid) => (
            put_node(
                n1,
                process_id(pid),
                NodeView {
                    kind: GraphNodeKind::Process,
                    label: match r.process {
                        Some(p) => match p.executable {
                            Some(e) => e@,
                            None => pid_label(pid),
                        },
                        None => pid_label(pid),
                    },
                    risk: 0,
                    pid: Some(pid),
                    connection_id: None,
                    metadata: Map::empty(),
                },
            ),
            put_edge(g.edges, process_id(pid), id, "opened"@, r.first_seen_ns, r.last_seen_ns),
        ),
        None => (n1, g.edges),
    };
    let (n3, e3) = match c.domain {
        Some(d) => (
            put_node(
                n2,
                "domain:"@ + d@,
                NodeView {
                    kind: GraphNodeKind::Domain,
                    label: d@,
                    risk: domain_risk(alerts, d@),
                    pid: r.pid,
                    connection_id: None,
                    metadata: Map::empty(),
                },
            ),
            put_edge(e2, id, "domain:"@ + d@, "resolved_to"@, r.first_seen_ns, r.last_seen_ns),
        ),
        None => (n2, e2),
    };
    GraphState { nodes: n3, edges: e3, updated: later(g.updated, r.last_seen_ns) }
}

pub open spec fn connection_pass(g: GraphState, rs: Seq<ConnectionRecord>, alerts: Seq<Alert>) -> GraphState
    decreases rs.len(),
{
    if rs.len() == 0 {
        g
    } else {
        connection_step(connection_pass(g, rs.drop_last(), alerts), rs.last(), alerts)
    }
}

/// The label of a process known to the process records, by pid.
pub open spec fn known_label(processes: Seq<ProcessRecord>, pid: u32) -> Seq<char>
    decreases processes.len(),
{
    if processes.len() == 0 {
        pid_label(pid)
    } else if processes[0].identity.pid == pid {
        match processes[0].identity.executable {
            Some(e) => e@,
            None => pid_label(pid),
        }
    } else {
        known_label(processes.drop_first(), pid)
    }
}

pub open spec fn file_step(
    g: GraphState,
    e: TraceEvent,
    processes: Seq<ProcessRecord>,
    alerts: Seq<Alert>,
) -> GraphState {
    let g1 = GraphState { updated: later(g.updated, e.timestamp_ns), ..g };
    match e.payload {
        EventPayload::File { path, bytes } => if !sensitive_path(path@) {
            g1
        } else {
            let id = "file:"@ + path@;
            let n1 = put_node(
                g1.nodes,
                id,
                NodeView {
                    kind: GraphNodeKind::File,
                    label: path@,
                    risk: 0,
                    pid: e.pid,
                    connection_id: None,
                    metadata: Map::empty().insert("path"@, path@).insert("bytes"@, decimal(bytes as nat)),
                },
            );
            match e.pid {
                Some(pid) => GraphState {
                    nodes: put_node(
                        n1,
                        process_id(pid),
                        NodeView {
                            kind: GraphNodeKind::Process,
                            label: known_label(processes, pid),
                            risk: process_risk(alerts, pid),
                            pid: Some(pid),
                            connection_id: None,
                            metadata: Map::empty(),
                        },
                    ),
                    edges: put_edge(
                        g1.edges,
                        process_id(pid),
                        id,
                        if e.kind == EventKind::FileRead {
                            "read"@
                        } else {
                            "opened"@
                        },
                        e.timestamp_ns,
                        e.timestamp_ns,
                    ),
                    updated: g1.updated,
                },
                None => GraphState { nodes: n1, ..g1 },
            }
        },
        _ => g1,
    }
}

pub open spec fn file_pass(
    g: GraphState,
    es: Seq<TraceEvent>,
    processes: Seq<ProcessRecord>,
    alerts: Seq<Alert>,
) -> GraphState
    decreases es.len(),
{
    if es.len() == 0 {
        g
    } else {
        file_step(file_pass(g, es.drop_last(), processes, alerts), es.last(), processes, alerts)
    }
}

/// The graph of the given records: processes, then connections, then the
/// recent file events.
pub open spec fn graph_spec(
    processes: Seq<ProcessRecord>,
    connections: Seq<ConnectionRecord>,
    alerts: Seq<Alert>,
    file_events: Seq<TraceEvent>,
) -> GraphState {
    let g0 = GraphState { nodes: Map::empty(), edges: Map::empty(), updated: 0 };
    file_pass(
        connection_pass(process_pass(g0, processes, alerts), connections, alerts),
        file_events,
        processes,
        alerts,
    )
}

/// A list holds each entry of a map once, in id order.
pub open spec fn lists_nodes(nodes: Seq<GraphNode>, m: Map<Seq<char>, NodeView>) -> bool {
    &&& forall|i: int| 0 <= i < nodes.len() ==> m.contains_key((#[trigger] nodes[i]).id@) && m[nodes[i].id@]
        == node_view(nodes[i])
    &&& forall|k: Seq<char>| m.contains_key(k) ==> exists|i: int| 0 <= i < nodes.len() && (#[trigger] nodes[i]).id@ == k
    &&& forall|i: int, j: int| 0 <= i < j < nodes.len() ==> text_lt((#[trigger] nodes[i]).id@, (#[trigger] nodes[j]).id@)
}

pub open spec fn lists_edges(edges: Seq<GraphEdge>, m: Map<Seq<char>, EdgeView>) -> bool {
    &&& forall|i: int| 0 <= i < edges.len() ==> m.contains_key((#[trigger] edges[i]).id@) && m[edges[i].id@]
        == edge_view(edges[i])
    &&& forall|k: Seq<char>| m.contains_key(k) ==> exists|i: int| 0 <= i < edges.len() && (#[trigger] edges[i]).id@ == k
    &&& forall|i: int, j: int| 0 <= i < j < edges.len() ==> text_lt((#[trigger] edges[i]).id@, (#[trigger] edges[j]).id@)
}


// ---- building

/// Whether a label is a `pid N` placeholder.
fn is_pid_label(label: &String) -> (r: bool)
    ensures
        r == starts_pid(label@),
{
    let v = chars_of(label.as_str());
    assert(v@.subrange(0, v@.len() as int) =~= label@);
    range_starts_with(&v, 0, v.len(), "pid ")
}

/// `prefix` followed by the decimal digits of `n`.
fn numbered(prefix: &str, n: u64) -> (r: String)
    ensures
        r@ == prefix@ + decimal(n as nat),
{
    let mut s = String::new();
    push_str(&mut s, prefix);
    push_decimal(&mut s, n);
    assert(s@ =~= prefix@ + decimal(n as nat));
    s
}

/// `prefix` followed by `text`.
fn prefixed(prefix: &str, text: &str) -> (r: String)
    ensures
        r@ == prefix@ + text@,
{
    let mut s = String::new();
    push_str(&mut s, prefix);
    push_str(&mut s, text);
    assert(s@ =~= prefix@ + text@);
    s
}

struct Builder {
    nodes: Keyed<GraphNode>,
    edges: Keyed<GraphEdge>,
    updated: u64,
}

impl Builder {
    spec fn wf(&self) -> bool {
        &&& self.nodes.wf()
        &&& self.edges.wf()
        &&& forall|i: int|
            0 <= i < self.nodes.entries@.len() ==> (#[trigger] self.nodes.entries@[i]).1.id@
                == self.nodes.entries@[i].0@ && self.nodes.entries@[i].1.metadata.wf()
        &&& forall|i: int|
            0 <= i < self.edges.entries@.len() ==> (#[trigger] self.edges.entries@[i]).1.id@
                == self.edges.entries@[i].0@
    }

    spec fn state(&self) -> GraphState {
        GraphState {
            nodes: self.nodes.map().map_values(|n: GraphNode| node_view(n)),
            edges: self.edges.map().map_values(|e: GraphEdge| edge_view(e)),
            updated: self.updated,
        }
    }

    fn add_node(&mut self, node: GraphNode)
        requires
            old(self).wf(),
            node.metadata.wf(),
        ensures
            final(self).wf(),
            final(self).state() == (GraphState {
                nodes: put_node(old(self).state().nodes, node.id@, node_view(node)),
                ..old(self).state()
            }),
    {
        let ghost s0 = self.state();
        let ghost nv = node_view(node);
        match self.nodes.locate(node.id.as_str()) {
            Err(p) => {
                let key = node.id.clone();
                self.nodes.put_new(p, key, node);
                proof {
                    assert forall|i: int| 0 <= i < self.nodes.entries@.len() implies (#[trigger] self.nodes.entries@[i]).1.id@
                        == self.nodes.entries@[i].0@ && self.nodes.entries@[i].1.metadata.wf() by {
                        if i < p {
                            assert(self.nodes.entries@[i] == old(self).nodes.entries@[i]);
                        } else if i > p {
                            assert(self.nodes.entries@[i] == old(self).nodes.entries@[i - 1]);
                        }
                    }
                    assert(!s0.nodes.contains_key(nv_key(key@)));
                    assert(self.state().nodes =~= put_node(s0.nodes, key@, nv));
                }
            },
            Ok(i) => {
                proof {
                    self.nodes.lemma_entry(i as int);
                }
                let existing = &self.nodes.entries[i].1;
                let ghost ev = node_view(*existing);
                let risk = if node.risk_score > existing.risk_score {
                    node.risk_score
                } else {
                    existing.risk_score
                };
                let keep = is_pid_label(&existing.label) && !is_pid_label(&node.label);
                let label = if keep {
                    node.label
                } else {
                    existing.label.clone()
                };
                let mut metadata = copy_texts(&existing.metadata);
                let ghost m0 = metadata.map();
                assert(m0 == existing.metadata.map());
                metadata.extend(node.metadata);
                let merged = GraphNode {
                    id: existing.id.clone(),
                    kind: existing.kind,
                    label,
                    risk_score: risk,
                    pid: existing.pid,
                    connection_id: clone_opt_string(&existing.connection_id),
                    metadata,
                };
                proof {
                    assert(metadata_view(merged.metadata) =~= ev.metadata.union_prefer_right(nv.metadata));
                    assert(node_view(merged) == merge_node(ev, nv));
                }
                let ghost key = self.nodes.entries@[i as int].0@;
                self.nodes.replace(i, merged);
                proof {
                    assert forall|j: int| 0 <= j < self.nodes.entries@.len() implies (#[trigger] self.nodes.entries@[j]).1.id@
                        == self.nodes.entries@[j].0@ && self.nodes.entries@[j].1.metadata.wf() by {
                        if j != i {
                            assert(self.nodes.entries@[j] == old(self).nodes.entries@[j]);
                        }
                    }
                    assert(self.state().nodes =~= put_node(s0.nodes, node.id@, nv));
                }
            },
        }
    }

    fn add_edge(&mut self, source: &str, target: &str, relation: &str, first: u64, last: u64)
        requires
            old(self).wf(),
        ensures
            final(self).wf(),
            final(self).state() == (GraphState {
                edges: put_edge(old(self).state().edges, source@, target@, relation@, first, last),
                ..old(self).state()
            }),
    {
        let ghost s0 = self.state();
        let mut id = String::new();
        push_str(&mut id, source);
        push_str(&mut id, "|");
        push_str(&mut id, relation);
        push_str(&mut id, "|");
        push_str(&mut id, target);
        assert(id@ =~= edge_id(source@, relation@, target@));
        match self.edges.locate(id.as_str()) {
            Ok(i) => {
                proof {
                    self.edges.lemma_entry(i as int);
                }
                let e = &self.edges.entries[i].1;
                let updated = GraphEdge {
                    id: e.id.clone(),
                    source: e.source.clone(),
                    target: e.target.clone(),
                    relation: e.relation.clone(),
                    event_count: if e.event_count == usize::MAX {
                        usize::MAX
                    } else {
                        e.event_count + 1
                    },
                    first_seen_ns: if first < e.first_seen_ns {
                        first
                    } else {
                        e.first_seen_ns
                    },
                    last_seen_ns: if last > e.last_seen_ns {
                        last
                    } else {
                        e.last_seen_ns
                    },
                };
                self.edges.replace(i, updated);
                proof {
                    assert forall|j: int| 0 <= j < self.edges.entries@.len() implies (#[trigger] self.edges.entries@[j]).1.id@
                        == self.edges.entries@[j].0@ by {
                        if j != i {
                            assert(self.edges.entries@[j] == old(self).edges.entries@[j]);
                        }
                    }
                    assert(self.state().edges =~= put_edge(s0.edges, source@, target@, relation@, first, last));
                }
            },
            Err(p) => {
                let edge = GraphEdge {
                    id: id.clone(),
                    source: source.to_string(),
                    target: target.to_string(),
                    relation: relation.to_string(),
                    event_count: 1,
                    first_seen_ns: first,
                    last_seen_ns: last,
                };
                self.edges.put_new(p, id, edge);
                proof {
                    assert forall|j: int| 0 <= j < self.edges.entries@.len() implies (#[trigger] self.edges.entries@[j]).1.id@
                        == self.edges.entries@[j].0@ by {
                        if j < p {
                            assert(self.edges.entries@[j] == old(self).edges.entries@[j]);
                        } else if j > p {
                            assert(self.edges.entries@[j] == old(self).edges.entries@[j - 1]);
                        }
                    }
                    assert(self.state().edges =~= put_edge(s0.edges, source@, target@, relation@, first, last));
                }
            },
        }
    }

    fn touch(&mut self, ts: u64)
        requires
            old(self).wf(),
        ensures
            final(self).wf(),
            final(self).state() == (GraphState { updated: later(old(self).state().updated, ts), ..old(self).state() }),
    {
        if ts > self.updated {
            self.updated = ts;
        }
    }
}

spec fn nv_key(k: Seq<char>) -> Seq<char> {
    k
}


/// The decimal digits of `n`.
fn decimal_text(n: u64) -> (r: String)
    ensures
        r@ == decimal(n as nat),
{
    let mut s = String::new();
    push_decimal(&mut s, n);
    assert(s@ =~= decimal(n as nat));
    s
}

fn add_processes(b: &mut Builder, processes: &Vec<ProcessRecord>, alerts: &Vec<Alert>)
    requires
        old(b).wf(),
    ensures
        final(b).wf(),
        final(b).state() == process_pass(old(b).state(), processes@, alerts@),
{
    let ghost s0 = b.state();
    let mut i: usize = 0;
    assert(processes@.take(0) =~= Seq::<ProcessRecord>::empty());
    while i < processes.len()
        invariant
            b.wf(),
            i <= processes@.len(),
            b.state() == process_pass(s0, processes@.take(i as int), alerts@),
        decreases processes.len() - i,
    {
        let ghost prev = b.state();
        assert(processes@.take(i + 1).drop_last() =~= processes@.take(i as int));
        let r = &processes[i];
        let p = &r.identity;
        let id = numbered("process:", p.pid as u64);
        let label = match &p.executable {
            Some(e) => e.clone(),
            None => numbered("pid ", p.pid as u64),
        };
        let mut metadata: Keyed<String> = Keyed::new();
        match &p.command_line {
            Some(c) => metadata.set("command_line".to_string(), c.clone()),
            None => {},
        }
        match p.ppid {
            Some(pp) => metadata.set("ppid".to_string(), decimal_text(pp as u64)),
            None => {},
        }
        proof {
            assert(metadata_view(metadata) =~= process_metadata(*p));
        }
        let node = GraphNode {
            id,
            kind: GraphNodeKind::Process,
            label,
            risk_score: risk_score_for_process(alerts, p.pid),
            pid: Some(p.pid),
            connection_id: None,
            metadata,
        };
        let ghost id_view = node.id@;
        b.add_node(node);
        match p.ppid {
            Some(pp) => {
                let parent_id = numbered("process:", pp as u64);
                let parent = GraphNode {
                    id: parent_id.clone(),
                    kind: GraphNodeKind::Process,
                    label: numbered("pid ", pp as u64),
                    risk_score: risk_score_for_process(alerts, pp),
                    pid: Some(pp),
                    connection_id: None,
                    metadata: Keyed::new(),
                };
                assert(metadata_view(parent.metadata) =~= Map::<Seq<char>, Seq<char>>::empty());
                b.add_node(parent);
                let child_id = numbered("process:", p.pid as u64);
                b.add_edge(parent_id.as_str(), child_id.as_str(), "spawned", r.first_seen_ns, r.last_seen_ns);
            },
            None => {},
        }
        b.touch(r.last_seen_ns);
        proof {
            assert(b.state() == process_step(prev, *r, alerts@));
        }
        i += 1;
    }
    assert(processes@.take(i as int) =~= processes@);
}


/// The risk of a connection: the points of its alerts, at most 100.
pub fn risk_score_for_connection(alerts: &Vec<Alert>, id: &str) -> (r: u32)
    ensures
        r == connection_risk(alerts@, id@),
{
    let mut total: u64 = 0;
    let mut i: usize = 0;
    while i < alerts.len()
        invariant
            i <= alerts@.len(),
            total == if points_sum(alerts@.take(i as int), about_connection(id@)) > 100 {
                101
            } else {
                points_sum(alerts@.take(i as int), about_connection(id@))
            },
        decreases alerts.len() - i,
    {
        assert(alerts@.take(i + 1).drop_last() =~= alerts@.take(i as int));
        let about = match &alerts[i].connection_id {
            Some(c) => crate::keyed::same_text(c.as_str(), id),
            None => false,
        };
        assert(about == about_connection(id@)(alerts@[i as int]));
        if about {
            let add = alerts[i].risk_score as u64;
            total = if total + add > 100 {
                101
            } else {
                total + add
            };
        }
        i += 1;
    }
    assert(alerts@.take(i as int) =~= alerts@);
    if total > 100 {
        100
    } else {
        total as u32
    }
}

/// The highest risk of the alerts about a domain, 0 when there is none.
fn risk_score_for_domain(alerts: &Vec<Alert>, domain: &str) -> (r: u32)
    ensures
        r == domain_risk(alerts@, domain@),
{
    let mut best: u32 = 0;
    let mut i: usize = 0;
    while i < alerts.len()
        invariant
            i <= alerts@.len(),
            best == domain_risk(alerts@.take(i as int), domain@),
        decreases alerts.len() - i,
    {
        assert(alerts@.take(i + 1).drop_last() =~= alerts@.take(i as int));
        let about = match &alerts[i].domain {
            Some(d) => crate::keyed::same_text(d.as_str(), domain),
            None => false,
        };
        if about && alerts[i].risk_score > best {
            best = alerts[i].risk_score;
        }
        i += 1;
    }
    assert(alerts@.take(i as int) =~= alerts@);
    best
}

fn protocol_text(p: TransportProtocol) -> (r: String)
    ensures
        r@ == protocol_word(p),
{
    match p {
        TransportProtocol::Tcp => "tcp".to_string(),
        TransportProtocol::Udp => "udp".to_string(),
    }
}

fn state_text(s: ConnectionState) -> (r: String)
    ensures
        r@ == state_word(s),
{
    match s {
        ConnectionState::Connecting => "connecting".to_string(),
        ConnectionState::Established => "established".to_string(),
        ConnectionState::Closed => "closed".to_string(),
    }
}

#[verifier::rlimit(40)]
fn add_connections(b: &mut Builder, connections: &Vec<ConnectionRecord>, alerts: &Vec<Alert>)
    requires
        old(b).wf(),
    ensures
        final(b).wf(),
        final(b).state() == connection_pass(old(b).state(), connections@, alerts@),
{
    let ghost s0 = b.state();
    let mut i: usize = 0;
    assert(connections@.take(0) =~= Seq::<ConnectionRecord>::empty());
    while i < connections.len()
        invariant
            b.wf(),
            i <= connections@.len(),
            b.state() == connection_pass(s0, connections@.take(i as int), alerts@),
        decreases connections.len() - i,
    {
        let ghost prev = b.state();
        assert(connections@.take(i + 1).drop_last() =~= connections@.take(i as int));
        let r = &connections[i];
        let c = &r.connection;
        let id = prefixed("connection:", c.id.as_str());
        let label = match &c.domain {
            Some(d) => d.clone(),
            None => {
                let mut t = c.remote.address.clone();
                push_str(&mut t, ":");
                push_decimal(&mut t, c.remote.port as u64);
                assert(t@ =~= endpoint_text(*c));
                t
            },
        };
        let mut metadata: Keyed<String> = Keyed::new();
        metadata.set("remote_address".to_string(), c.remote.address.clone());
        metadata.set("remote_port".to_string(), decimal_text(c.remote.port as u64));
        metadata.set("protocol".to_string(), protocol_text(c.protocol));
        metadata.set("state".to_string(), state_text(c.state));
        proof {
            assert(metadata_view(metadata) =~= Map::empty().insert("remote_address"@, c.remote.address@).insert(
                "remote_port"@,
                decimal(c.remote.port as nat),
            ).insert("protocol"@, protocol_word(c.protocol)).insert("state"@, state_word(c.state)));
        }
        let node = GraphNode {
            id: id.clone(),
            kind: GraphNodeKind::Connection,
            label,
            risk_score: risk_score_for_connection(alerts, c.id.as_str()),
            pid: r.pid,
            connection_id: Some(c.id.clone()),
            metadata,
        };
        b.add_node(node);
        let ghost after_first = b.state();
        match r.pid {
            Some(pid) => {
                let process_node_id = numbered("process:", pid as u64);
                let plabel = match &r.process {
                    Some(p) => match &p.executable {
                        Some(e) => e.clone(),
                        None => numbered("pid ", pid as u64),
                    },
                    None => numbered("pid ", pid as u64),
                };
                let placeholder = GraphNode {
                    id: process_node_id.clone(),
                    kind: GraphNodeKind::Process,
                    label: plabel,
                    risk_score: 0,
                    pid: Some(pid),
                    connection_id: None,
                    metadata: Keyed::new(),
                };
                assert(metadata_view(placeholder.metadata) =~= Map::<Seq<char>, Seq<char>>::empty());
                b.add_node(placeholder);
                b.add_edge(process_node_id.as_str(), id.as_str(), "opened", r.first_seen_ns, r.last_seen_ns);
            },
            None => {},
        }
        let ghost after_pid = b.state();
        match &c.domain {
            Some(d) => {
                let domain_node_id = prefixed("domain:", d.as_str());
                let dnode = GraphNode {
                    id: domain_node_id.clone(),
                    kind: GraphNodeKind::Domain,
                    label: d.clone(),
                    risk_score: risk_score_for_domain(alerts, d.as_str()),
                    pid: r.pid,
                    connection_id: None,
                    metadata: Keyed::new(),
                };
                assert(metadata_view(dnode.metadata) =~= Map::<Seq<char>, Seq<char>>::empty());
                b.add_node(dnode);
                b.add_edge(id.as_str(), domain_node_id.as_str(), "resolved_to", r.first_seen_ns, r.last_seen_ns);
            },
            None => {},
        }
        b.touch(r.last_seen_ns);
        proof {
            assert(b.state() == connection_step(prev, *r, alerts@));
        }
        i += 1;
    }
    assert(connections@.take(i as int) =~= connections@);
}

/// The label of a process known to the process records, by pid.
fn known_process_label(processes: &Vec<ProcessRecord>, pid: u32) -> (r: String)
    ensures
        r@ == known_label(processes@, pid),
{
    let mut i: usize = 0;
    assert(processes@.skip(0) =~= processes@);
    while i < processes.len()
        invariant
            i <= processes@.len(),
            known_label(processes@, pid) == known_label(processes@.skip(i as int), pid),
        decreases processes.len() - i,
    {
        assert(processes@.skip(i as int)[0] == processes@[i as int]);
        assert(processes@.skip(i as int).drop_first() =~= processes@.skip(i + 1));
        if processes[i].identity.pid == pid {
            return match &processes[i].identity.executable {
                Some(e) => e.clone(),
                None => numbered("pid ", pid as u64),
            };
        }
        i += 1;
    }
    numbered("pid ", pid as u64)
}

#[verifier::rlimit(40)]
fn add_files(b: &mut Builder, events: &Vec<TraceEvent>, processes: &Vec<ProcessRecord>, alerts: &Vec<Alert>)
    requires
        old(b).wf(),
    ensures
        final(b).wf(),
        final(b).state() == file_pass(old(b).state(), events@, processes@, alerts@),
{
    let ghost s0 = b.state();
    let mut i: usize = 0;
    assert(events@.take(0) =~= Seq::<TraceEvent>::empty());
    while i < events.len()
        invariant
            b.wf(),
            i <= events@.len(),
            b.state() == file_pass(s0, events@.take(i as int), processes@, alerts@),
        decreases events.len() - i,
    {
        let ghost prev = b.state();
        assert(events@.take(i + 1).drop_last() =~= events@.take(i as int));
        let e = &events[i];
        b.touch(e.timestamp_ns);
        match &e.payload {
            EventPayload::File { path, bytes } => {
                if is_sensitive_path(path.as_str()) {
                    let file_node_id = prefixed("file:", path.as_str());
                    let mut metadata: Keyed<String> = Keyed::new();
                    metadata.set("path".to_string(), path.clone());
                    metadata.set("bytes".to_string(), decimal_text(*bytes));
                    proof {
                        assert(metadata_view(metadata) =~= Map::empty().insert("path"@, path@).insert(
                            "bytes"@,
                            decimal(*bytes as nat),
                        ));
                    }
                    let node = GraphNode {
                        id: file_node_id.clone(),
                        kind: GraphNodeKind::File,
                        label: path.clone(),
                        risk_score: 0,
                        pid: e.pid,
                        connection_id: None,
                        metadata,
                    };
                    b.add_node(node);
                    match e.pid {
                        Some(pid) => {
                            let process_node_id = numbered("process:", pid as u64);
                            let placeholder = GraphNode {
                                id: process_node_id.clone(),
                                kind: GraphNodeKind::Process,
                                label: known_process_label(processes, pid),
                                risk_score: risk_score_for_process(alerts, pid),
                                pid: Some(pid),
                                connection_id: None,
                                metadata: Keyed::new(),
                            };
                            assert(metadata_view(placeholder.metadata) =~= Map::<Seq<char>, Seq<char>>::empty());
                            b.add_node(placeholder);
                            let relation = if e.kind == EventKind::FileRead {
                                "read"
                            } else {
                                "opened"
                            };
                            b.add_edge(
                                process_node_id.as_str(),
                                file_node_id.as_str(),
                                relation,
                                e.timestamp_ns,
                                e.timestamp_ns,
                            );
                        },
                        None => {},
                    }
                }
            },
            _ => {},
        }
        proof {
            assert(b.state() == file_step(prev, *e, processes@, alerts@));
        }
        i += 1;
    }
    assert(events@.take(i as int) =~= events@);
}

/// The behavior graph of the given records: a node per process (with one
/// for its parent and a `spawned` edge), per connection (with `opened` from
/// its process and `resolved_to` its domain), and per sensitive file among
/// the recent file events (with `opened` or `read` from its process). Nodes
/// met again merge; edges met again count up. Nodes and edges come in id
/// order.
pub fn build(
    processes: &Vec<ProcessRecord>,
    connections: &Vec<ConnectionRecord>,
    alerts: &Vec<Alert>,
    file_events: &Vec<TraceEvent>,
) -> (g: BehaviorGraph)
    ensures
        lists_nodes(g.nodes@, graph_spec(processes@, connections@, alerts@, file_events@).nodes),
        lists_edges(g.edges@, graph_spec(processes@, connections@, alerts@, file_events@).edges),
        g.updated_at_ns == graph_spec(processes@, connections@, alerts@, file_events@).updated,
{
    let mut b = Builder { nodes: Keyed::new(), edges: Keyed::new(), updated: 0 };
    proof {
        assert(b.state().nodes =~= Map::<Seq<char>, NodeView>::empty());
        assert(b.state().edges =~= Map::<Seq<char>, EdgeView>::empty());
    }
    add_processes(&mut b, processes, alerts);
    add_connections(&mut b, connections, alerts);
    add_files(&mut b, file_events, processes, alerts);
    let ghost fin = b;
    let updated_at_ns = b.updated;
    let ghost ne = b.nodes.entries@;
    let ghost ee = b.edges.entries@;
    let nodes = b.nodes.into_values();
    let edges = b.edges.into_values();
    proof {
        assert forall|i: int| 0 <= i < nodes@.len() implies fin.state().nodes.contains_key((#[trigger] nodes@[i]).id@)
            && fin.state().nodes[nodes@[i].id@] == node_view(nodes@[i]) by {
            fin.nodes.lemma_entry(i);
        }
        assert forall|k: Seq<char>| fin.state().nodes.contains_key(k) implies exists|i: int|
            0 <= i < nodes@.len() && (#[trigger] nodes@[i]).id@ == k by {
            let i = fin.nodes.index_of(k);
            assert(nodes@[i].id@ == k);
        }
        assert forall|i: int, j: int| 0 <= i < j < nodes@.len() implies text_lt(
            (#[trigger] nodes@[i]).id@,
            (#[trigger] nodes@[j]).id@,
        ) by {
            assert(text_lt(ne[i].0@, ne[j].0@));
        }
        assert forall|i: int| 0 <= i < edges@.len() implies fin.state().edges.contains_key((#[trigger] edges@[i]).id@)
            && fin.state().edges[edges@[i].id@] == edge_view(edges@[i]) by {
            fin.edges.lemma_entry(i);
        }
        assert forall|k: Seq<char>| fin.state().edges.contains_key(k) implies exists|i: int|
            0 <= i < edges@.len() && (#[trigger] edges@[i]).id@ == k by {
            let i = fin.edges.index_of(k);
            assert(edges@[i].id@ == k);
        }
        assert forall|i: int, j: int| 0 <= i < j < edges@.len() implies text_lt(
            (#[trigger] edges@[i]).id@,
            (#[trigger] edges@[j]).id@,
        ) by {
            assert(text_lt(ee[i].0@, ee[j].0@));
        }
    }
    BehaviorGraph { nodes, edges, updated_at_ns }
}

} // verus!
