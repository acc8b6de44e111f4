use tracelens::process::procfs::{command_line_of, comm_name, parent_pid_of, process_ref_from};
use tracelens::events::{ConnectionRef, ConnectionState, Endpoint, ProcessRef, TcpState, TransportProtocol};
use tracelens::network::ConnectionTracker;
use tracelens::process::ProcessTracker;

fn connection(id: &str, local: Option<Endpoint>, state: ConnectionState) -> ConnectionRef {
    ConnectionRef {
        id: id.to_owned(),
        protocol: TransportProtocol::Tcp,
        local,
        remote: Endpoint {
            address: "198.51.100.10".to_owned(),
            port: 443,
        },
        state,
        tcp_state: Some(TcpState::Established),
        sent_bytes: 0,
        received_bytes: 0,
        domain: None,
    }
}

#[test]
fn process_snapshot_survives_close_event() {
    let process = ProcessRef {
        pid: 42,
        ppid: Some(1),
        executable: Some("curl".to_owned()),
        command_line: Some("curl https://example.com".to_owned()),
        start_time_ns: Some(1),
    };
    let mut tracker = ConnectionTracker::default();
    tracker.observe(
        Some(42),
        Some(process.clone()),
        connection("socket-1", None, ConnectionState::Established),
        1,
    );
    tracker.observe(
        Some(42),
        None,
        connection("socket-1", None, ConnectionState::Closed),
        2,
    );

    let record = tracker.get("socket-1").expect("connection record");
    assert_eq!(record.process.as_ref(), Some(&process));
    assert_eq!(record.connection.state, ConnectionState::Closed);
}

#[test]
fn state_event_reuses_connection_by_pid_and_remote_endpoint() {
    let mut tracker = ConnectionTracker::default();
    tracker.observe(
        Some(42),
        None,
        connection("socket-42-7", None, ConnectionState::Connecting),
        1,
    );
    tracker.observe(
        Some(42),
        None,
        connection(
            "socket-kernel-address",
            Some(Endpoint {
                address: "127.0.0.1".to_owned(),
                port: 51515,
            }),
            ConnectionState::Established,
        ),
        2,
    );

    assert_eq!(tracker.len(), 1);
    let record = tracker.get("socket-42-7").expect("merged connection");
    assert_eq!(
        record
            .connection
            .local
            .as_ref()
            .map(|endpoint| endpoint.port),
        Some(51515)
    );
    assert_eq!(record.connection.state, ConnectionState::Established);
}

#[test]
fn merge_keeps_the_largest_counters_and_the_established_handshake() {
    let mut tracker = ConnectionTracker::default();
    let mut first = connection("s", None, ConnectionState::Established);
    first.sent_bytes = 10;
    first.domain = Some("example.com".to_owned());
    tracker.observe(Some(1), None, first, 1);
    let mut second = connection("s", None, ConnectionState::Connecting);
    second.tcp_state = Some(TcpState::SynSent);
    second.received_bytes = 7;
    tracker.observe(None, None, second, 5);
    let record = tracker.get("s").expect("record");
    assert_eq!(record.pid, Some(1));
    assert_eq!(record.connection.tcp_state, Some(TcpState::Established));
    assert_eq!(record.connection.state, ConnectionState::Established);
    assert_eq!(record.connection.sent_bytes, 10);
    assert_eq!(record.connection.received_bytes, 7);
    assert_eq!(record.connection.domain.as_deref(), Some("example.com"));
    assert_eq!(record.first_seen_ns, 1);
    assert_eq!(record.last_seen_ns, 5);
    assert!(!tracker.is_empty());
    assert_eq!(tracker.all().count(), 1);
}

#[test]
fn domains_are_set_by_process_or_only_where_missing() {
    let mut tracker = ConnectionTracker::default();
    tracker.observe(Some(1), None, connection("a", None, ConnectionState::Established), 1);
    let mut named = connection("b", None, ConnectionState::Established);
    named.remote.port = 80;
    named.domain = Some("kept.example".to_owned());
    tracker.observe(Some(2), None, named, 1);
    let addresses = vec!["198.51.100.10".to_owned()];
    tracker.set_domain_for_addresses(&addresses, "fresh.example");
    assert_eq!(tracker.get("a").unwrap().connection.domain.as_deref(), Some("fresh.example"));
    assert_eq!(tracker.get("b").unwrap().connection.domain.as_deref(), Some("kept.example"));
    tracker.set_domain(2, &addresses, "pid.example");
    assert_eq!(tracker.get("b").unwrap().connection.domain.as_deref(), Some("pid.example"));
    assert_eq!(tracker.get("a").unwrap().connection.domain.as_deref(), Some("fresh.example"));
    assert!(tracker.get("zzz").is_none());
}

#[test]
fn process_tracker_keeps_first_sighting_and_latest_identity() {
    let mut tracker = ProcessTracker::default();
    let mut p = ProcessRef { pid: 5, ppid: None, executable: Some("a".to_owned()), command_line: None, start_time_ns: None };
    tracker.observe(p.clone(), 10);
    p.executable = Some("b".to_owned());
    tracker.observe(p.clone(), 20);
    let record = tracker.get(5).expect("record");
    assert_eq!(record.first_seen_ns, 10);
    assert_eq!(record.last_seen_ns, 20);
    assert_eq!(record.identity.executable.as_deref(), Some("b"));
    assert_eq!(tracker.len(), 1);
    assert_eq!(tracker.all().count(), 1);
    assert!(tracker.remove(5).is_some());
    assert!(tracker.remove(5).is_none());
    assert!(tracker.is_empty());
}

use tracelens::events::TlsEventData;
use tracelens::tls::openssl::OpenSslInspector;
use tracelens::tls::TlsTracker;

#[test]
fn merges_partial_metadata_and_keeps_connection_link() {
    let mut tracker = TlsTracker::default();
    tracker.observe_event(
        7,
        TlsEventData {
            ssl_object: 0x10,
            fd: None,
            sni: None,
            version: Some("TLSv1.3".to_owned()),
        },
        None,
        1,
    );
    tracker.observe_event(
        7,
        TlsEventData {
            ssl_object: 0x10,
            fd: Some(4),
            sni: Some("example.com".to_owned()),
            version: None,
        },
        Some("socket-30064771076".to_owned()),
        2,
    );

    let session = tracker.get(7, 0x10).expect("TLS session");
    assert_eq!(session.server_name.as_deref(), Some("example.com"));
    assert_eq!(session.version.as_deref(), Some("TLSv1.3"));
    assert_eq!(session.fd, Some(4));
    assert_eq!(session.connection_id.as_deref(), Some("socket-30064771076"));
}

#[test]
fn placeholder_session_is_folded_into_the_named_object() {
    let mut tracker = TlsTracker::default();
    let filed = tracker.observe_event(
        3,
        TlsEventData { ssl_object: 0, fd: Some(9), sni: Some("early.example".to_owned()), version: None },
        None,
        5,
    );
    assert_eq!(filed, 0);
    let filed = tracker.observe_event(
        3,
        TlsEventData { ssl_object: 0x99, fd: None, sni: None, version: Some("TLSv1.2".to_owned()) },
        None,
        8,
    );
    assert_eq!(filed, 0x99);
    assert!(tracker.get(3, 0).is_none());
    let session = tracker.get(3, 0x99).expect("merged session");
    assert_eq!(session.fd, Some(9));
    assert_eq!(session.server_name.as_deref(), Some("early.example"));
    assert_eq!(session.first_seen_ns, 5);
    assert_eq!(session.last_seen_ns, 8);
    let latest = tracker.observe_event(
        3,
        TlsEventData { ssl_object: 0, fd: None, sni: None, version: None },
        None,
        9,
    );
    assert_eq!(latest, 0x99);
    assert_eq!(tracker.latest_for_process(3).map(|s| s.ssl_object), Some(0x99));
    tracker.link_connection_for_fd(3, 9, "socket-9");
    assert_eq!(
        tracker.metadata_for_connection("socket-9").map(|s| s.ssl_object),
        Some(0x99)
    );
    assert_eq!(tracker.sessions().count(), 1);
    tracker.remove_process(3);
    assert!(tracker.latest_for_process(3).is_none());
    assert_eq!(tracker.sessions().count(), 0);
    assert_eq!(OpenSslInspector.library_name(), "OpenSSL");
}

#[test]
fn process_identity_is_read_from_proc_files() {
    assert_eq!(comm_name("curl\n").as_deref(), Some("curl"));
    assert_eq!(comm_name(" \n"), None);
    assert_eq!(
        command_line_of(b"curl\0https://example.net\0\0-v\0").as_deref(),
        Some("curl https://example.net -v")
    );
    assert_eq!(command_line_of(b"\0\0"), None);
    assert_eq!(parent_pid_of("Name:\tcurl\nPPid:\tabc\nPPid:\t 42 \nUid:\t0\n"), Some(42));
    assert_eq!(parent_pid_of("Name:\tcurl\n"), None);

    let process = process_ref_from(7, Some("curl\n"), Some(&b"curl\0-s\0"[..]), Some("PPid:\t1\n"), 99).expect("process");
    assert_eq!(process.pid, 7);
    assert_eq!(process.ppid, Some(1));
    assert_eq!(process.executable.as_deref(), Some("curl"));
    assert_eq!(process.command_line.as_deref(), Some("curl -s"));
    assert_eq!(process.start_time_ns, Some(99));
    assert!(process_ref_from(8, Some(""), None, Some("PPid:\t1\n"), 1).is_none());
}
