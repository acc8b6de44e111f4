use tracelens::events::{
    ConnectionRef, ConnectionState, Endpoint, EventKind, EventSource, TcpState, TlsEventData, TraceEvent,
    TransportProtocol,
};
use tracelens::network::tracker::ConnectionTracker;
use tracelens::sessions::{connection_timeline_page, session_window, sort_by_time, timeline_page};
use tracelens::storage::MemoryStore;
use tracelens::timeline::{ConnectionTimelineFilter, TimelineFilter};
use tracelens::tls::tracker::TlsTracker;

fn connection(id: &str, address: &str, domain: Option<&str>, state: ConnectionState) -> ConnectionRef {
    ConnectionRef {
        id: id.to_owned(),
        protocol: TransportProtocol::Tcp,
        local: None,
        remote: Endpoint {
            address: address.to_owned(),
            port: 443,
        },
        state,
        tcp_state: Some(TcpState::Established),
        sent_bytes: 10,
        received_bytes: 20,
        domain: domain.map(str::to_owned),
    }
}

#[test]
fn session_lists_stored_events_with_dns_context_oldest_first() {
    let mut connections = ConnectionTracker::new();
    let conn = connection("socket-enter", "93.184.216.34", Some("example.net"), ConnectionState::Established);
    connections.observe(Some(42), None, conn.clone(), 100);
    let mut store = MemoryStore::new();
    store.insert(TraceEvent::dns_event(
        EventSource::Kernel,
        EventKind::DnsResponse,
        42,
        "example.net",
        vec!["93.184.216.34".to_owned()],
        60,
        50,
    ));
    store.insert(TraceEvent::connection_event(EventSource::Kernel, EventKind::TcpConnect, 42, conn.clone(), 100));
    store.insert(TraceEvent::connection_event(EventSource::Kernel, EventKind::TcpBytes, 42, conn, 150));
    // A lookup by another process, and one for another domain, are no context.
    store.insert(TraceEvent::dns_event(
        EventSource::Kernel,
        EventKind::DnsResponse,
        7,
        "example.net",
        vec!["93.184.216.34".to_owned()],
        60,
        60,
    ));
    store.insert(TraceEvent::dns_event(
        EventSource::Kernel,
        EventKind::DnsResponse,
        42,
        "other.example",
        vec!["93.184.216.34".to_owned()],
        60,
        70,
    ));
    let tls = TlsTracker::new();

    let page = connection_timeline_page(&connections, &tls, &store, ConnectionTimelineFilter::default());
    assert_eq!(page.total, 1);
    assert!(!page.has_more);
    let session = &page.sessions[0];
    assert_eq!(session.id, "socket-enter");
    assert_eq!(session.pid, Some(42));
    assert_eq!(session.domain.as_deref(), Some("example.net"));
    assert_eq!(session.event_count, 3);
    assert_eq!(session.events.len(), 3);
    assert_eq!(session.events[0].kind, EventKind::DnsResponse);
    assert_eq!(session.events[1].kind, EventKind::TcpConnect);
    assert_eq!(session.events[2].kind, EventKind::TcpBytes);
    assert!(session
        .events
        .iter()
        .all(|entry| entry.connection_id.as_deref() == Some("socket-enter")));
    assert_eq!(session.duration_ns, 0);
    assert_eq!(session.sent_bytes, 10);
}

#[test]
fn sessions_are_listed_most_recent_first_and_filtered() {
    let mut connections = ConnectionTracker::new();
    connections.observe(Some(1), None, connection("socket-a", "198.51.100.1", None, ConnectionState::Established), 10);
    connections.observe(Some(2), None, connection("socket-b", "198.51.100.2", None, ConnectionState::Closed), 30);
    connections.observe(Some(1), None, connection("socket-c", "198.51.100.3", None, ConnectionState::Established), 30);
    let store = MemoryStore::new();
    let tls = TlsTracker::new();

    let page = connection_timeline_page(&connections, &tls, &store, ConnectionTimelineFilter::default());
    let ids: Vec<&str> = page.sessions.iter().map(|s| s.id.as_str()).collect();
    assert_eq!(ids, vec!["socket-c", "socket-b", "socket-a"]);

    let open_only = connection_timeline_page(
        &connections,
        &tls,
        &store,
        ConnectionTimelineFilter {
            include_closed: false,
            ..ConnectionTimelineFilter::default()
        },
    );
    let ids: Vec<&str> = open_only.sessions.iter().map(|s| s.id.as_str()).collect();
    assert_eq!(ids, vec!["socket-c", "socket-a"]);

    let by_pid = connection_timeline_page(
        &connections,
        &tls,
        &store,
        ConnectionTimelineFilter {
            pid: Some(2),
            ..ConnectionTimelineFilter::default()
        },
    );
    assert_eq!(by_pid.total, 1);
    assert_eq!(by_pid.sessions[0].id, "socket-b");

    let second_page = connection_timeline_page(
        &connections,
        &tls,
        &store,
        ConnectionTimelineFilter {
            offset: 1,
            limit: 1,
            ..ConnectionTimelineFilter::default()
        },
    );
    assert_eq!(second_page.total, 3);
    assert_eq!(second_page.offset, 1);
    assert_eq!(second_page.limit, 1);
    assert!(second_page.has_more);
    assert_eq!(second_page.sessions[0].id, "socket-b");

    let past_the_end = connection_timeline_page(
        &connections,
        &tls,
        &store,
        ConnectionTimelineFilter {
            offset: 9,
            limit: 0,
            ..ConnectionTimelineFilter::default()
        },
    );
    assert_eq!(past_the_end.offset, 3);
    assert_eq!(past_the_end.limit, 1);
    assert!(past_the_end.sessions.is_empty());
    assert!(!past_the_end.has_more);
}

#[test]
fn session_events_keep_the_newest_within_the_event_limit() {
    let mut connections = ConnectionTracker::new();
    let conn = connection("socket-9", "203.0.113.9", None, ConnectionState::Established);
    connections.observe(Some(9), None, conn.clone(), 5);
    let mut store = MemoryStore::new();
    for ts in 1..=4u64 {
        store.insert(TraceEvent::connection_event(EventSource::Kernel, EventKind::TcpBytes, 9, conn.clone(), ts));
    }
    let tls = TlsTracker::new();
    let page = connection_timeline_page(
        &connections,
        &tls,
        &store,
        ConnectionTimelineFilter {
            event_limit: 2,
            ..ConnectionTimelineFilter::default()
        },
    );
    let session = &page.sessions[0];
    assert_eq!(session.event_count, 4);
    let times: Vec<u64> = session.events.iter().map(|e| e.timestamp_ns).collect();
    assert_eq!(times, vec![3, 4]);

    let counted_only = connection_timeline_page(
        &connections,
        &tls,
        &store,
        ConnectionTimelineFilter {
            include_events: false,
            ..ConnectionTimelineFilter::default()
        },
    );
    assert_eq!(counted_only.sessions[0].event_count, 4);
    assert!(counted_only.sessions[0].events.is_empty());
}

#[test]
fn session_shows_the_linked_tls_metadata() {
    let mut connections = ConnectionTracker::new();
    let pid: u32 = 4;
    let fd: u32 = 7;
    let id = format!("socket-{}", (u64::from(pid) << 32) | u64::from(fd));
    connections.observe(Some(pid), None, connection(&id, "203.0.113.4", None, ConnectionState::Established), 5);
    let mut tls = TlsTracker::new();
    tls.observe_event(
        pid,
        TlsEventData {
            ssl_object: 0x10,
            fd: Some(fd as i32),
            sni: Some("example.net".to_owned()),
            version: Some("TLSv1.3".to_owned()),
        },
        Some(id.clone()),
        6,
    );
    let store = MemoryStore::new();
    let page = connection_timeline_page(&connections, &tls, &store, ConnectionTimelineFilter::default());
    assert_eq!(page.sessions[0].tls_sni.as_deref(), Some("example.net"));
    assert_eq!(page.sessions[0].tls_version.as_deref(), Some("TLSv1.3"));
}

#[test]
fn timeline_pages_walk_back_through_history() {
    let mut store = MemoryStore::new();
    for ts in 1..=5u64 {
        store.insert(TraceEvent::process_exec(ts as u32, "curl", "curl example.com", ts));
    }
    let latest = timeline_page(
        &store,
        TimelineFilter {
            limit: 2,
            ..TimelineFilter::default()
        },
    );
    assert_eq!(latest.total, 5);
    assert!(latest.has_more);
    let times: Vec<u64> = latest.entries.iter().map(|e| e.timestamp_ns).collect();
    assert_eq!(times, vec![4, 5]);
    assert_eq!(latest.entries[0].process_name.as_deref(), Some("curl"));

    let oldest = timeline_page(
        &store,
        TimelineFilter {
            limit: 2,
            offset: 4,
            ..TimelineFilter::default()
        },
    );
    let times: Vec<u64> = oldest.entries.iter().map(|e| e.timestamp_ns).collect();
    assert_eq!(times, vec![1]);
    assert!(!oldest.has_more);

    let one_process = timeline_page(
        &store,
        TimelineFilter {
            pid: Some(3),
            ..TimelineFilter::default()
        },
    );
    assert_eq!(one_process.total, 1);
    assert_eq!(one_process.entries[0].pid, Some(3));
}

#[test]
fn session_windows_clamp_offset_and_limit() {
    let filter = |offset: usize, limit: usize| ConnectionTimelineFilter {
        offset,
        limit,
        ..ConnectionTimelineFilter::default()
    };
    assert_eq!(session_window(10, &filter(0, 50)), (0, 50, 10));
    assert_eq!(session_window(10, &filter(4, 3)), (4, 3, 7));
    assert_eq!(session_window(10, &filter(40, 0)), (10, 1, 10));
    assert_eq!(session_window(500, &filter(0, 900)), (0, 200, 200));
}

#[test]
fn events_sort_oldest_first_keeping_ties_in_order() {
    let mut a = TraceEvent::process_exec(1, "a", "a", 5);
    a.id = "a".to_owned();
    let mut b = TraceEvent::process_exec(2, "b", "b", 3);
    b.id = "b".to_owned();
    let mut c = TraceEvent::process_exec(3, "c", "c", 5);
    c.id = "c".to_owned();
    let ids: Vec<String> = sort_by_time(vec![a, b, c]).into_iter().map(|e| e.id).collect();
    assert_eq!(ids, vec!["b".to_owned(), "a".to_owned(), "c".to_owned()]);
}
