use tracelens::bus::{keep_delivered, EventBus, EventCorrelator};
use tracelens::events::{
    ConnectionRef, ConnectionState, DnsEventData, Endpoint, EventKind, EventSource, HttpCaptureEventData,
    PlaintextDirection, TcpState, TraceEvent, TransportProtocol,
};
use tracelens::timeline::{ConnectionTimelineFilter, TimelineEntry, TimelineFilter};

#[test]
fn projects_dns_event_into_a_timeline_entry() {
    let entry = TimelineEntry::from_event(TraceEvent::dns_event_with_data(
        EventSource::Kernel,
        EventKind::DnsResponse,
        7,
        DnsEventData {
            protocol: TransportProtocol::Tcp,
            domain: "example.com".to_owned(),
            addresses: vec!["203.0.113.7".to_owned()],
            ttl_secs: 60,
        },
        42,
    ));

    assert_eq!(entry.kind, EventKind::DnsResponse);
    assert_eq!(entry.pid, Some(7));
    assert_eq!(entry.protocol, Some(TransportProtocol::Tcp));
    assert_eq!(entry.domain.as_deref(), Some("example.com"));
    assert_eq!(entry.addresses, vec!["203.0.113.7"]);
    assert_eq!(entry.summary, "DNS response for example.com");
}

fn connection() -> ConnectionRef {
    ConnectionRef {
        id: "socket-1".to_owned(),
        protocol: TransportProtocol::Tcp,
        local: None,
        remote: Endpoint { address: "198.51.100.10".to_owned(), port: 443 },
        state: ConnectionState::Established,
        tcp_state: Some(TcpState::SynSent),
        sent_bytes: 12,
        received_bytes: 34,
        domain: None,
    }
}

#[test]
fn connection_events_read_as_sentences() {
    let connect = TimelineEntry::from_event(TraceEvent::connection_event(
        EventSource::Kernel,
        EventKind::TcpConnect,
        7,
        connection(),
        1,
    ));
    assert_eq!(connect.summary, "Connected to 198.51.100.10:443");
    assert_eq!(connect.connection_id.as_deref(), Some("socket-1"));
    assert_eq!(connect.sent_bytes, Some(12));
    let state = TimelineEntry::from_event(TraceEvent::connection_event(
        EventSource::Kernel,
        EventKind::TcpStateChanged,
        7,
        connection(),
        2,
    ));
    assert_eq!(state.summary, "TCP state changed to synsent");
    let bytes = TimelineEntry::from_event(TraceEvent::connection_event(
        EventSource::Kernel,
        EventKind::TcpBytes,
        7,
        connection(),
        3,
    ));
    assert_eq!(bytes.summary, "Transferred 12 up / 34 down");
}

#[test]
fn process_observation_and_capture_summaries() {
    let exec = TimelineEntry::from_event(TraceEvent::process_exec(7, "curl", "curl x", 1));
    assert_eq!(exec.summary, "curl started");
    assert_eq!(exec.process_name.as_deref(), Some("curl"));
    let observe = TimelineEntry::from_event(TraceEvent::observation_event("pid:7".to_owned(), 4, 2));
    assert_eq!(observe.summary, "Observation pid:7 → L4");
    let capture = TimelineEntry::from_event(TraceEvent::http_capture(
        EventSource::Bpftime,
        7,
        HttpCaptureEventData {
            ssl_object: 1,
            fd: Some(3),
            direction: PlaintextDirection::Read,
            data: b"HTTP/1.1".to_vec(),
            bytes: 8,
            truncated: true,
        },
        3,
    ));
    assert_eq!(capture.summary, "HTTP capture read · 8 B · truncated");
    assert_eq!(capture.plaintext.as_deref(), Some("HTTP/1.1"));
    assert_eq!(capture.fd, Some(3));
}

#[test]
fn filters_default_to_the_calm_first_page() {
    let filter = TimelineFilter::default();
    assert_eq!(filter.limit, 50);
    assert!(filter.include_plaintext);
    let sessions = ConnectionTimelineFilter::default();
    assert_eq!(sessions.event_limit, 200);
    assert!(sessions.include_closed);
}

#[test]
fn bus_delivers_to_live_subscribers_and_forgets_dropped_ones() {
    let mut bus = EventBus::new();
    let live = bus.subscribe();
    let gone = bus.subscribe();
    drop(gone);
    let event = TraceEvent::process_exec(1, "a", "a", 1);
    bus.publish(event.clone());
    assert_eq!(live.try_recv().expect("delivered"), event);
    assert_eq!(EventCorrelator::new().correlate(event.clone()), event);
}

#[test]
fn only_subscribers_that_received_the_event_are_kept_in_order() {
    let (a, a_rx) = std::sync::mpsc::channel();
    let (b, _b_rx) = std::sync::mpsc::channel();
    let (c, c_rx) = std::sync::mpsc::channel();
    let kept = keep_delivered(vec![a, b, c], &vec![true, false, true]);
    assert_eq!(kept.len(), 2);
    kept[0].send(tracelens::events::example_event()).unwrap();
    kept[1].send(tracelens::events::example_event()).unwrap();
    assert!(a_rx.try_recv().is_ok());
    assert!(c_rx.try_recv().is_ok());
    assert!(keep_delivered(Vec::new(), &Vec::new()).is_empty());
}
