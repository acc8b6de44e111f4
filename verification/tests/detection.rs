use tracelens::detection::address::{is_external_address, is_private_address, parse_ip, IpAddress};
use tracelens::detection::engine::DetectionEngine;
use tracelens::detection::{risk_score_for_process, Alert, AlertSeverity};
use tracelens::events::{
    ConnectionRef, ConnectionState, Endpoint, EventKind, EventSource, FileEventData, TcpState,
    TraceEvent, TransportProtocol,
};

fn connection(id: &str, address: &str, port: u16, sent: u64, received: u64) -> ConnectionRef {
    ConnectionRef {
        id: id.to_owned(),
        protocol: TransportProtocol::Tcp,
        local: None,
        remote: Endpoint {
            address: address.to_owned(),
            port,
        },
        state: ConnectionState::Established,
        tcp_state: Some(TcpState::Established),
        sent_bytes: sent,
        received_bytes: received,
        domain: None,
    }
}

#[test]
fn detects_first_seen_domain_and_large_upload() {
    let mut engine = DetectionEngine::default();
    let domain = TraceEvent::dns_event(
        EventSource::Kernel,
        EventKind::DnsResponse,
        7,
        "new.example",
        vec!["203.0.113.7".to_owned()],
        60,
        1,
    );
    assert_eq!(engine.evaluate(&domain)[0].rule, "new_domain");

    let upload = TraceEvent::connection_event(
        EventSource::Kernel,
        EventKind::TcpBytes,
        7,
        connection("socket-7", "203.0.113.7", 443, 20 * 1024 * 1024, 0),
        2,
    );
    assert_eq!(engine.evaluate(&upload)[0].rule, "suspicious_upload");
}

#[test]
fn correlates_sensitive_file_with_external_upload() {
    let mut engine = DetectionEngine::default();
    let file = TraceEvent::file_event(
        EventSource::Kernel,
        EventKind::FileOpen,
        7,
        FileEventData {
            path: "/home/user/.ssh/id_rsa".to_owned(),
            bytes: 0,
        },
        1,
    );
    assert!(engine.evaluate(&file).is_empty());
    let upload = TraceEvent::connection_event(
        EventSource::Kernel,
        EventKind::TcpBytes,
        7,
        connection("socket-7", "203.0.113.7", 443, 512 * 1024, 0),
        2,
    );
    let alerts = engine.evaluate(&upload);
    assert!(alerts
        .iter()
        .any(|alert| alert.rule == "sensitive_file_upload"));
}

#[test]
fn detects_internal_admin_endpoint() {
    let mut engine = DetectionEngine::default();
    let event = TraceEvent::connection_event(
        EventSource::Kernel,
        EventKind::TcpConnect,
        7,
        connection("socket-7", "10.0.0.12", 22, 0, 0),
        1,
    );
    assert!(engine
        .evaluate(&event)
        .iter()
        .any(|alert| alert.rule == "lateral_movement"));
}

#[test]
fn detects_scan_and_regular_beacon_patterns() {
    let mut scan_engine = DetectionEngine::default();
    let mut scan_alerts = Vec::new();
    for index in 0..10 {
        let event = TraceEvent::connection_event(
            EventSource::Kernel,
            EventKind::TcpConnect,
            7,
            connection(
                &format!("scan-{index}"),
                &format!("198.51.100.{}", index + 1),
                8000,
                0,
                0,
            ),
            index,
        );
        scan_alerts.extend(scan_engine.evaluate(&event));
    }
    assert!(scan_alerts.iter().any(|alert| alert.rule == "scan"));

    let mut beacon_engine = DetectionEngine::default();
    let mut beacon_alerts = Vec::new();
    for index in 0..4 {
        let event = TraceEvent::connection_event(
            EventSource::Kernel,
            EventKind::TcpConnect,
            7,
            connection(&format!("beacon-{index}"), "203.0.113.9", 443, 0, 0),
            index * 60_000_000_000,
        );
        beacon_alerts.extend(beacon_engine.evaluate(&event));
    }
    assert!(beacon_alerts.iter().any(|alert| alert.rule == "beacon"));
}

#[test]
fn alerts_are_raised_once_per_key() {
    let mut engine = DetectionEngine::default();
    let event = TraceEvent::connection_event(
        EventSource::Kernel,
        EventKind::TcpConnect,
        7,
        connection("socket-7", "10.0.0.12", 22, 0, 0),
        1,
    );
    let first = engine.evaluate(&event);
    assert_eq!(first.len(), 1);
    assert_eq!(first[0].id, format!("alert-lateral_movement-{}", event.id));
    assert_eq!(first[0].summary, "Process connected to an internal administration endpoint 10.0.0.12:22");
    assert_eq!(first[0].evidence, vec!["destination=10.0.0.12:22".to_owned(), "private_network=true".to_owned()]);
    assert_eq!(first[0].risk_score, 70);
    let second = TraceEvent::connection_event(
        EventSource::Kernel,
        EventKind::TcpConnect,
        7,
        connection("socket-8", "10.0.0.12", 22, 0, 0),
        2,
    );
    assert!(engine.evaluate(&second).is_empty());
}

#[test]
fn domains_are_normalised_before_the_first_seen_check() {
    let mut engine = DetectionEngine::default();
    let first = TraceEvent::dns_event(EventSource::Kernel, EventKind::DnsResponse, 7, "Example.COM.", vec![], 60, 1);
    let alerts = engine.evaluate(&first);
    assert_eq!(alerts[0].domain.as_deref(), Some("example.com"));
    assert_eq!(alerts[0].summary, "First-seen domain observed: example.com");
    assert_eq!(alerts[0].evidence, vec!["domain=example.com".to_owned()]);
    let again = TraceEvent::dns_event(EventSource::Kernel, EventKind::DnsResponse, 8, "example.com", vec![], 60, 2);
    assert!(engine.evaluate(&again).is_empty());
    let dots = TraceEvent::dns_event(EventSource::Kernel, EventKind::DnsResponse, 8, "...", vec![], 60, 3);
    assert!(engine.evaluate(&dots).is_empty());
}

#[test]
fn irregular_connections_are_no_beacon() {
    let mut engine = DetectionEngine::default();
    let mut alerts = Vec::new();
    for (index, time) in [0_u64, 10_000_000_000, 11_000_000_000, 60_000_000_000].iter().enumerate() {
        let event = TraceEvent::connection_event(
            EventSource::Kernel,
            EventKind::TcpConnect,
            7,
            connection(&format!("beacon-{index}"), "203.0.113.9", 443, 0, 0),
            *time,
        );
        alerts.extend(engine.evaluate(&event));
    }
    assert!(!alerts.iter().any(|alert| alert.rule == "beacon"));
}

#[test]
fn system_paths_are_not_sensitive() {
    let mut engine = DetectionEngine::default();
    let file = TraceEvent::file_event(
        EventSource::Kernel,
        EventKind::FileRead,
        7,
        FileEventData { path: "/usr/share/token".to_owned(), bytes: 0 },
        1,
    );
    assert!(engine.evaluate(&file).is_empty());
    let upload = TraceEvent::connection_event(
        EventSource::Kernel,
        EventKind::TcpBytes,
        7,
        connection("socket-7", "203.0.113.7", 443, 512 * 1024, 512 * 1024),
        2,
    );
    assert!(engine.evaluate(&upload).is_empty());
}

#[test]
fn ip_text_is_read_as_std_reads_it() {
    assert!(matches!(parse_ip("10.0.0.1"), Some(IpAddress::V4(10, 0, 0, 1))));
    assert!(parse_ip("10.0.0.01").is_none());
    assert!(parse_ip("256.0.0.1").is_none());
    assert!(parse_ip("1.2.3").is_none());
    match parse_ip("fe80::1") {
        Some(IpAddress::V6(groups)) => assert_eq!(groups, vec![0xfe80, 0, 0, 0, 0, 0, 0, 1]),
        _ => panic!("IPv6 text"),
    }
    match parse_ip("::ffff:192.168.0.1") {
        Some(IpAddress::V6(groups)) => assert_eq!(groups, vec![0, 0, 0, 0, 0, 0xffff, 0xc0a8, 1]),
        _ => panic!("IPv6 text"),
    }
    assert!(parse_ip("1::2::3").is_none());
    assert!(parse_ip("1:2:3:4:5:6:7:8:9").is_none());
    assert!(parse_ip("1:2:3:4:5:6:7::8").is_none());
    assert!(parse_ip("example.com").is_none());
}

#[test]
fn private_and_external_addresses() {
    for address in ["10.1.2.3", "172.16.0.1", "192.168.1.1", "127.0.0.1", "169.254.1.1", "0.0.0.0",
        "255.255.255.255", "100.64.0.1", "198.18.0.1", "::1", "::", "fd00::1", "fe80::1"] {
        assert!(is_private_address(address), "{address}");
    }
    for address in ["8.8.8.8", "172.32.0.1", "100.128.0.1", "2001:db8::1", "not an address"] {
        assert!(!is_private_address(address), "{address}");
    }
    assert!(is_external_address("203.0.113.7"));
}

#[test]
fn risk_scores_sum_severities_and_cap_at_one_hundred() {
    assert_eq!(AlertSeverity::Low.risk_score(), 20);
    assert_eq!(AlertSeverity::Critical.risk_score(), 95);
    let alert = |severity: AlertSeverity, pid: u32| {
        Alert::new(Some("e".to_owned()), 1, severity, "rule name", "s".to_owned(), Some(pid), None, None, None, vec![])
    };
    let first = alert(AlertSeverity::Medium, 7);
    assert_eq!(first.id, "alert-rule_name-e");
    let alerts = vec![first, alert(AlertSeverity::High, 7), alert(AlertSeverity::Low, 8)];
    assert_eq!(risk_score_for_process(&alerts, 7), 100);
    assert_eq!(risk_score_for_process(&alerts, 8), 20);
    assert_eq!(risk_score_for_process(&alerts, 9), 0);
}
