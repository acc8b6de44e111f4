use tracelens::detection::{Alert, AlertSeverity};
use tracelens::events::{
    ConnectionRef, ConnectionState, Endpoint, EventKind, EventSource, FileEventData, TcpState, TraceEvent,
    TransportProtocol,
};
use tracelens::graph::{build, GraphNodeKind};
use tracelens::network::tracker::ConnectionTracker;
use tracelens::process::tracker::ProcessTracker;

fn records(events: &[TraceEvent]) -> Vec<tracelens::process::tracker::ProcessRecord> {
    let mut processes = ProcessTracker::default();
    for event in events {
        if let Some(process) = event.process.clone() {
            processes.observe(process, event.timestamp_ns);
        }
    }
    processes.all().collect()
}

#[test]
fn builds_process_and_file_relationships() {
    let exec = TraceEvent::process_exec(7, "python3", "python3 app.py", 1);
    let file = TraceEvent::file_event(
        EventSource::Kernel,
        EventKind::FileOpen,
        7,
        FileEventData {
            path: "/home/user/.ssh/id_rsa".to_owned(),
            bytes: 0,
        },
        2,
    );
    let processes = records(&[exec]);

    let graph = build(&processes, &Vec::new(), &Vec::new(), &vec![file]);
    assert!(graph
        .nodes
        .iter()
        .any(|node| node.kind == GraphNodeKind::Process));
    assert!(graph
        .nodes
        .iter()
        .any(|node| node.kind == GraphNodeKind::File));
    assert!(graph.edges.iter().any(|edge| edge.relation == "opened"));
    assert_eq!(graph.updated_at_ns, 2);
}

#[test]
fn connections_link_processes_and_domains_in_id_order() {
    let mut process = TraceEvent::process_exec(7, "curl", "curl example.com", 1);
    if let Some(p) = process.process.as_mut() {
        p.ppid = Some(3);
    }
    let processes = records(&[process]);
    let mut connections = ConnectionTracker::default();
    connections.observe(
        Some(7),
        None,
        ConnectionRef {
            id: "socket-1".to_owned(),
            protocol: TransportProtocol::Tcp,
            local: None,
            remote: Endpoint { address: "203.0.113.9".to_owned(), port: 443 },
            state: ConnectionState::Established,
            tcp_state: Some(TcpState::Established),
            sent_bytes: 0,
            received_bytes: 0,
            domain: Some("example.com".to_owned()),
        },
        5,
    );
    let connections: Vec<_> = connections.all().collect();
    let alert = Alert::new(
        Some("e".to_owned()),
        5,
        AlertSeverity::High,
        "beacon",
        "s".to_owned(),
        Some(7),
        None,
        Some("socket-1".to_owned()),
        Some("example.com".to_owned()),
        vec![],
    );
    let graph = build(&processes, &connections, &vec![alert], &Vec::new());
    let ids: Vec<&str> = graph.nodes.iter().map(|n| n.id.as_str()).collect();
    assert_eq!(ids, vec!["connection:socket-1", "domain:example.com", "process:3", "process:7"]);
    let process = &graph.nodes[3];
    assert_eq!(process.label, "curl");
    assert_eq!(process.risk_score, 70);
    let parent = &graph.nodes[2];
    assert_eq!(parent.label, "pid 3");
    assert_eq!(graph.nodes[0].label, "example.com");
    assert_eq!(graph.nodes[0].risk_score, 70);
    assert_eq!(graph.nodes[1].risk_score, 70);
    let relations: Vec<&str> = graph.edges.iter().map(|e| e.relation.as_str()).collect();
    assert_eq!(relations, vec!["resolved_to", "spawned", "opened"]);
    assert_eq!(graph.edges[1].id, "process:3|spawned|process:7");
    assert_eq!(graph.updated_at_ns, 5);
    let keys: Vec<&str> = graph.nodes[0].metadata.entries.iter().map(|(k, _)| k.as_str()).collect();
    assert_eq!(keys, vec!["protocol", "remote_address", "remote_port", "state"]);
}
