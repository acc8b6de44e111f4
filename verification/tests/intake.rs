use tracelens::capture::CaptureScope;
use tracelens::detection::{Alert, AlertSeverity};
use tracelens::dns::tracker::DnsTracker;
use tracelens::events::{
    ConnectionRef, ConnectionState, Endpoint, EventKind, EventPayload, EventSource, FileEventData,
    HttpCaptureEventData, PlaintextDirection, PlaintextEventData, ProcessRef, TcpState, TlsEventData, TraceEvent,
    TransportProtocol,
};
use tracelens::http::stream::HttpTracker;
use tracelens::intake::{
    apply_connection_event, apply_dns_response, apply_plaintext_event, apply_tls_event, apply_tracked_event,
    event_route, EventRoute, FollowUp,
    derive_http_events, fd_from_socket_id, http_stream_key, is_security_relevant_file_event, note_event_process,
    resolve_domain,
};
use tracelens::network::tracker::ConnectionTracker;
use tracelens::observation::{ObservationLevel, ObservationManager, ObservationTarget};
use tracelens::process::tracker::ProcessTracker;
use tracelens::selection::{
    admits_event, effective_process_level, event_matches_capture_scope, intake_plan, process_in_capture_scope,
    process_pids_for_target, record_alerts, sort_processes, ALERT_LIMIT,
};
use tracelens::tls::tracker::TlsTracker;

const PID: u32 = 4242;

fn connection(id: &str, address: &str) -> ConnectionRef {
    ConnectionRef {
        id: id.to_owned(),
        protocol: TransportProtocol::Tcp,
        local: None,
        remote: Endpoint {
            address: address.to_owned(),
            port: 443,
        },
        state: ConnectionState::Established,
        tcp_state: Some(TcpState::Established),
        sent_bytes: 0,
        received_bytes: 0,
        domain: None,
    }
}

fn process(pid: u32, name: Option<&str>) -> ProcessRef {
    ProcessRef {
        pid,
        ppid: Some(1),
        executable: name.map(str::to_owned),
        command_line: None,
        start_time_ns: None,
    }
}

fn socket_id(pid: u32, fd: u32) -> String {
    format!("socket-{}", (u64::from(pid) << 32) | u64::from(fd))
}

#[test]
fn stream_keys_prefer_connection_then_ssl_object_then_descriptor() {
    let mut event = TraceEvent::process_exec(PID, "curl", "curl", 1);
    assert_eq!(http_stream_key(&event, PID, 0x1234, Some(7)).as_deref(), Some("process:4242:ssl:4660"));
    assert_eq!(http_stream_key(&event, PID, 0, Some(-3)).as_deref(), Some("process:4242:fd:-3"));
    assert_eq!(http_stream_key(&event, PID, 0, None), None);
    event.connection = Some(connection("socket-9", "203.0.113.9"));
    assert_eq!(http_stream_key(&event, PID, 0x1234, Some(7)).as_deref(), Some("socket-9"));
}

#[test]
fn socket_ids_name_the_descriptor_of_their_process() {
    assert_eq!(fd_from_socket_id(&socket_id(7, 4), 7), Some(4));
    assert_eq!(fd_from_socket_id(&socket_id(7, 4), 8), None);
    assert_eq!(fd_from_socket_id("socket-x", 7), None);
    assert_eq!(fd_from_socket_id("sock-30064771076", 7), None);
    assert_eq!(fd_from_socket_id(&socket_id(7, 0xffff_ffff), 7), Some(-1));
}

#[test]
fn only_sensitive_paths_outside_system_trees_are_relevant() {
    let file = |path: &str| {
        TraceEvent::file_event(
            EventSource::Kernel,
            EventKind::FileOpen,
            PID,
            FileEventData {
                path: path.to_owned(),
                bytes: 0,
            },
            1,
        )
    };
    assert!(is_security_relevant_file_event(&file("/home/user/.ssh/id_rsa")));
    assert!(is_security_relevant_file_event(&file("/HOME/USER/.AWS/Credentials")));
    assert!(is_security_relevant_file_event(&file("/etc/shadow")));
    assert!(!is_security_relevant_file_event(&file("/proc/self/secret")));
    assert!(!is_security_relevant_file_event(&file("/tmp/notes.txt")));
    assert!(!is_security_relevant_file_event(&TraceEvent::process_exec(PID, "a", "a", 1)));
}

#[test]
fn dns_answers_name_later_connections_and_earlier_ones() {
    let mut dns = DnsTracker::new();
    let mut connections = ConnectionTracker::new();
    let mut early = TraceEvent::connection_event(
        EventSource::Kernel,
        EventKind::TcpConnect,
        PID,
        connection("socket-early", "198.19.0.116"),
        5,
    );
    let processes = ProcessTracker::new();
    let mut tls = TlsTracker::new();
    apply_connection_event(&mut early, &dns, &processes, &mut connections, &mut tls);
    assert_eq!(connections.get("socket-early").and_then(|r| r.connection.domain.clone()), None);

    let answer = TraceEvent::dns_event(
        EventSource::Kernel,
        EventKind::DnsResponse,
        PID,
        "example.net",
        vec!["198.19.0.116".to_owned()],
        60,
        10,
    );
    apply_dns_response(&answer, &mut dns, &mut connections);
    assert_eq!(
        connections.get("socket-early").and_then(|r| r.connection.domain.clone()).as_deref(),
        Some("example.net")
    );
    assert_eq!(resolve_domain(&dns, Some(PID), "198.19.0.116", 20).as_deref(), Some("example.net"));

    let mut later = TraceEvent::connection_event(
        EventSource::Kernel,
        EventKind::TcpConnect,
        PID,
        connection("socket-later", "198.19.0.116"),
        20,
    );
    apply_connection_event(&mut later, &dns, &processes, &mut connections, &mut tls);
    assert_eq!(
        later.connection.as_ref().and_then(|c| c.domain.as_deref()),
        Some("example.net")
    );
    match &later.payload {
        EventPayload::Connection { connection } => assert_eq!(connection.domain.as_deref(), Some("example.net")),
        other => panic!("unexpected payload: {other:?}"),
    }
    // An answer that has expired no longer names connections.
    assert_eq!(resolve_domain(&dns, Some(PID), "198.19.0.116", 10 + 61_000_000_000), None);
}

#[test]
fn tls_metadata_and_plaintext_are_linked_to_the_process_connection() {
    let fd: u32 = 7;
    let id = socket_id(PID, fd);
    let dns = DnsTracker::new();
    let processes = ProcessTracker::new();
    let mut connections = ConnectionTracker::new();
    let mut tls = TlsTracker::new();
    let mut connect = TraceEvent::connection_event(
        EventSource::Kernel,
        EventKind::TcpConnect,
        PID,
        connection(&id, "198.19.0.116"),
        1,
    );
    apply_connection_event(&mut connect, &dns, &processes, &mut connections, &mut tls);

    let mut hello = TraceEvent::tls_metadata(
        EventSource::Kernel,
        PID,
        TlsEventData {
            ssl_object: 0x1234,
            fd: Some(fd as i32),
            sni: Some("example.net".to_owned()),
            version: Some("TLSv1.3".to_owned()),
        },
        2,
    );
    apply_tls_event(&mut tls, &connections, &mut hello);
    assert_eq!(hello.connection.as_ref().map(|c| c.id.as_str()), Some(id.as_str()));
    assert_eq!(
        tls.metadata_for_connection(&id).and_then(|s| s.server_name.clone()).as_deref(),
        Some("example.net")
    );

    let mut write = TraceEvent::plaintext(
        EventSource::Kernel,
        PID,
        PlaintextEventData {
            ssl_object: 0x1234,
            fd: None,
            direction: PlaintextDirection::Write,
            data: "GET / HTTP/1.1".to_owned(),
            bytes: 14,
            truncated: false,
        },
        3,
    );
    apply_plaintext_event(&tls, &connections, &mut write);
    assert_eq!(write.connection.as_ref().map(|c| c.id.as_str()), Some(id.as_str()));
    match &write.payload {
        EventPayload::Plaintext { fd: written_fd, ssl_object, .. } => {
            assert_eq!(*written_fd, Some(fd as i32));
            assert_eq!(*ssl_object, 0x1234);
        },
        other => panic!("unexpected payload: {other:?}"),
    }
}

#[test]
fn http_messages_are_derived_from_reassembled_captures() {
    let mut http = HttpTracker::new();
    let capture = |direction: PlaintextDirection, data: &str, ts: u64| {
        let mut event = TraceEvent::http_capture(
            EventSource::Kernel,
            PID,
            HttpCaptureEventData {
                ssl_object: 0x5678,
                fd: Some(8),
                direction,
                data: data.as_bytes().to_vec(),
                bytes: data.len(),
                truncated: false,
            },
            ts,
        );
        event.connection = Some(connection("socket-http", "198.19.0.116"));
        event
    };
    let first = derive_http_events(
        &mut http,
        &capture(PlaintextDirection::Write, "GET /health HTTP/1.1\r\nHost: example.net\r\n", 2),
    );
    assert!(first.is_empty());
    let request = derive_http_events(
        &mut http,
        &capture(PlaintextDirection::Write, "User-Agent: tracelens\r\n\r\n", 3),
    );
    assert_eq!(request.len(), 1);
    assert_eq!(request[0].kind, EventKind::Http);
    assert_eq!(request[0].connection.as_ref().map(|c| c.id.as_str()), Some("socket-http"));
    match &request[0].payload {
        EventPayload::Http { method, target, host, headers, .. } => {
            assert_eq!(method.as_deref(), Some("GET"));
            assert_eq!(target.as_deref(), Some("/health"));
            assert_eq!(host.as_deref(), Some("example.net"));
            assert_eq!(headers.len(), 2);
        },
        other => panic!("unexpected payload: {other:?}"),
    }
    let response = derive_http_events(
        &mut http,
        &capture(PlaintextDirection::Read, "HTTP/1.1 200 OK\r\nContent-Length: 2\r\n\r\nok", 4),
    );
    assert_eq!(response.len(), 1);
    match &response[0].payload {
        EventPayload::Http { status, content_length, .. } => {
            assert_eq!(*status, Some(200));
            assert_eq!(*content_length, Some(2));
        },
        other => panic!("unexpected payload: {other:?}"),
    }
    assert_eq!(http.stream_count(), 1);
}

#[test]
fn events_are_attributed_to_known_or_read_processes() {
    let mut processes = ProcessTracker::new();
    processes.observe(process(7, Some("curl")), 1);

    let mut known = TraceEvent::connection_event(
        EventSource::Kernel,
        EventKind::TcpConnect,
        7,
        connection("socket-7", "203.0.113.7"),
        5,
    );
    note_event_process(&mut known, &mut processes, true, None);
    assert_eq!(known.process.as_ref().and_then(|p| p.executable.as_deref()), Some("curl"));
    assert_eq!(processes.get(7).map(|r| r.last_seen_ns), Some(5));

    let mut unknown = TraceEvent::connection_event(
        EventSource::Kernel,
        EventKind::TcpConnect,
        8,
        connection("socket-8", "203.0.113.8"),
        6,
    );
    note_event_process(&mut unknown.clone(), &mut processes, true, Some(process(8, Some("wget"))));
    assert!(processes.get(8).is_none());
    note_event_process(&mut unknown, &mut processes, false, Some(process(8, Some("wget"))));
    assert_eq!(unknown.process.as_ref().and_then(|p| p.executable.as_deref()), Some("wget"));
    assert_eq!(processes.get(8).map(|r| r.first_seen_ns), Some(6));
}

#[test]
fn capture_scopes_select_processes_and_events() {
    let mut processes = ProcessTracker::new();
    processes.observe(process(7, Some("curl")), 1);
    processes.observe(process(8, None), 1);
    let name = CaptureScope::ProcessName("curl".to_owned());
    assert!(process_in_capture_scope(&CaptureScope::Global, &processes, 99));
    assert!(process_in_capture_scope(&CaptureScope::Process(8), &processes, 8));
    assert!(!process_in_capture_scope(&CaptureScope::Process(8), &processes, 7));
    assert!(process_in_capture_scope(&name, &processes, 7));
    assert!(!process_in_capture_scope(&name, &processes, 8));

    let event = |pid: u32| TraceEvent::connection_event(EventSource::Kernel, EventKind::TcpBytes, pid, connection("s", "203.0.113.1"), 2);
    assert!(event_matches_capture_scope(&name, &processes, &event(7), true, None));
    assert!(!event_matches_capture_scope(&name, &processes, &event(9), true, Some("curl".to_owned())));
    assert!(event_matches_capture_scope(&name, &processes, &event(9), false, Some("curl".to_owned())));
    assert!(event_matches_capture_scope(&CaptureScope::Process(9), &processes, &event(9), true, None));
    let carried = TraceEvent::process_exec(10, "curl", "curl", 3);
    assert!(event_matches_capture_scope(&name, &processes, &carried, true, None));
}

#[test]
fn process_level_is_the_higher_of_pid_and_name_levels() {
    let mut processes = ProcessTracker::new();
    processes.observe(process(7, Some("curl")), 1);
    let mut observations = ObservationManager::new(ObservationLevel::L1);
    observations.upgrade_at(ObservationTarget::ProcessName("curl".to_owned()), ObservationLevel::L4, None, 0);
    observations.upgrade_at(ObservationTarget::Process(7), ObservationLevel::L2, None, 0);
    assert_eq!(effective_process_level(&observations, &processes, 7, 5), ObservationLevel::L4);
    assert_eq!(effective_process_level(&observations, &processes, 8, 5), ObservationLevel::L1);
}

#[test]
fn target_processes_are_sorted_and_unique() {
    let mut processes = ProcessTracker::new();
    processes.observe(process(9, Some("curl")), 1);
    processes.observe(process(3, Some("curl")), 1);
    processes.observe(process(5, Some("wget")), 1);
    let mut connections = ConnectionTracker::new();
    let mut named = connection("socket-a", "203.0.113.1");
    named.domain = Some("example.net".to_owned());
    connections.observe(Some(9), None, named.clone(), 1);
    named.id = "socket-b".to_owned();
    named.remote.address = "203.0.113.2".to_owned();
    connections.observe(Some(2), None, named.clone(), 1);
    named.id = "socket-c".to_owned();
    named.remote.address = "203.0.113.3".to_owned();
    connections.observe(Some(9), None, named, 1);

    let by_name = process_pids_for_target(&ObservationTarget::ProcessName("curl".to_owned()), &processes, &connections);
    assert_eq!(by_name, vec![3, 9]);
    let by_domain = process_pids_for_target(&ObservationTarget::Domain("example.net".to_owned()), &processes, &connections);
    assert_eq!(by_domain, vec![2, 9]);
    let by_connection = process_pids_for_target(&ObservationTarget::Connection("socket-b".to_owned()), &processes, &connections);
    assert_eq!(by_connection, vec![2]);
    let by_pid = process_pids_for_target(&ObservationTarget::Process(77), &processes, &connections);
    assert_eq!(by_pid, vec![77]);
    let missing = process_pids_for_target(&ObservationTarget::Connection("nope".to_owned()), &processes, &connections);
    assert!(missing.is_empty());
}

#[test]
fn processes_are_listed_by_name_then_pid() {
    let sorted = sort_processes(vec![
        process(5, Some("wget")),
        process(9, Some("curl")),
        process(4, None),
        process(3, Some("curl")),
        process(2, Some("curlx")),
    ]);
    let order: Vec<u32> = sorted.iter().map(|p| p.pid).collect();
    assert_eq!(order, vec![4, 3, 9, 2, 5]);
}

#[test]
fn alerts_keep_the_newest_thousand() {
    let alert = |n: u64| {
        Alert::new(None, n, AlertSeverity::Low, "rule", format!("alert {n}"), None, None, None, None, Vec::new())
    };
    let mut alerts = Vec::new();
    record_alerts(&mut alerts, (0..ALERT_LIMIT as u64).map(alert).collect());
    assert_eq!(alerts.len(), ALERT_LIMIT);
    record_alerts(&mut alerts, vec![alert(5000), alert(5001)]);
    assert_eq!(alerts.len(), ALERT_LIMIT);
    assert_eq!(alerts[0].timestamp_ns, 2);
    assert_eq!(alerts[ALERT_LIMIT - 1].timestamp_ns, 5001);
}

#[test]
fn intake_keeps_what_the_capture_level_allows() {
    assert!(!admits_event(false, None, 10));
    assert!(admits_event(true, None, 10));
    assert!(!admits_event(true, Some(11), 10));
    assert!(admits_event(true, Some(10), 10));

    let plan = intake_plan(EventKind::Plaintext, true, Some(ObservationLevel::L4), false);
    assert!(plan.derive_http);
    assert!(!plan.persist);
    let plan = intake_plan(EventKind::Plaintext, true, Some(ObservationLevel::L5), false);
    assert!(plan.persist);
    let plan = intake_plan(EventKind::Plaintext, false, None, false);
    assert!(plan.derive_http && plan.persist);
    let plan = intake_plan(EventKind::HttpCapture, false, None, false);
    assert!(!plan.persist);
    let plan = intake_plan(EventKind::FileOpen, true, Some(ObservationLevel::L1), false);
    assert!(!plan.derive_http && !plan.persist);
    let plan = intake_plan(EventKind::FileRead, true, None, true);
    assert!(plan.persist);
}

#[test]
fn events_are_filed_by_kind_and_an_exit_forgets_the_process() {
    assert_eq!(event_route(EventKind::TcpBytes), EventRoute::Connection);
    assert_eq!(event_route(EventKind::DnsResponse), EventRoute::Dns);
    assert_eq!(event_route(EventKind::DnsQuery), EventRoute::Other);
    assert_eq!(event_route(EventKind::HttpCapture), EventRoute::Plaintext);
    assert_eq!(event_route(EventKind::ProcessExit), EventRoute::ProcessExit);

    let mut processes = ProcessTracker::new();
    let mut connections = ConnectionTracker::new();
    let mut dns = DnsTracker::new();
    let mut tls = TlsTracker::new();
    let mut exec = TraceEvent::process_exec(PID, "curl", "curl https://example.net", 1);
    note_event_process(&mut exec, &mut processes, false, None);
    let follow = apply_tracked_event(&mut exec, &mut processes, &mut connections, &mut dns, &mut tls);
    assert_eq!(follow, FollowUp { sync_pid: Some(PID), exited_pid: None });
    assert!(processes.get(PID).is_some());

    let mut answer = TraceEvent::dns_event(
        EventSource::Kernel,
        EventKind::DnsResponse,
        PID,
        "example.net",
        vec!["198.19.0.116".to_owned()],
        60,
        2,
    );
    apply_tracked_event(&mut answer, &mut processes, &mut connections, &mut dns, &mut tls);
    assert_eq!(resolve_domain(&dns, Some(PID), "198.19.0.116", 3).as_deref(), Some("example.net"));

    let mut hello = TraceEvent::tls_metadata(
        EventSource::Kernel,
        PID,
        TlsEventData { ssl_object: 9, fd: None, sni: Some("example.net".to_owned()), version: None },
        4,
    );
    apply_tracked_event(&mut hello, &mut processes, &mut connections, &mut dns, &mut tls);
    assert!(tls.get(PID, 9).is_some());

    let mut exit = TraceEvent::process_exec(PID, "curl", "curl", 5);
    exit.kind = EventKind::ProcessExit;
    let follow = apply_tracked_event(&mut exit, &mut processes, &mut connections, &mut dns, &mut tls);
    assert_eq!(follow, FollowUp { sync_pid: None, exited_pid: Some(PID) });
    assert!(processes.get(PID).is_none());
    assert!(tls.get(PID, 9).is_none());
    assert_eq!(resolve_domain(&dns, Some(PID), "198.19.0.116", 6).as_deref(), Some("example.net"));
}
