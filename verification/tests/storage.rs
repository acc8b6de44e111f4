use tracelens::ingress::{accepted, counts_as_dropped, Offer};
use tracelens::sql::{
    build_filter, count_statement, event_kind_name, page_bounds, page_statement, source_name, stored_count,
    stored_timestamp, SqlValue,
};
use tracelens::events::EventSource;
use tracelens::events::{ConnectionRef, ConnectionState, Endpoint, EventKind, EventPayload, TcpState, TraceEvent, TransportProtocol};
use tracelens::storage::{EventQuery, MemoryStore};

#[test]
fn persists_events_and_filters_by_connection() {
    let mut store = MemoryStore::new();
    let first = TraceEvent::process_exec(7, "curl", "curl example.com", 1);
    let mut second = TraceEvent::process_exec(7, "curl", "curl example.com", 2);
    second.id = "connection-event".to_owned();
    second.kind = EventKind::TcpConnect;
    second.connection = Some(ConnectionRef {
        id: "socket-7".to_owned(),
        protocol: TransportProtocol::Tcp,
        local: None,
        remote: Endpoint {
            address: "198.51.100.7".to_owned(),
            port: 443,
        },
        state: ConnectionState::Established,
        tcp_state: Some(TcpState::Established),
        sent_bytes: 0,
        received_bytes: 0,
        domain: None,
    });
    second.payload = EventPayload::Connection {
        connection: second.connection.clone().expect("connection payload"),
    };
    store.try_insert(&first).expect("insert process event");
    store.try_insert(&second).expect("insert connection event");

    let page = store.query(EventQuery {
        connection_id: Some("socket-7".to_owned()),
        ..EventQuery::default()
    });
    assert_eq!(page.total, 1);
    assert_eq!(page.events[0].id, "connection-event");
}

#[test]
fn memory_store_evicts_oldest_events_at_capacity() {
    let mut store = MemoryStore::memory(2);
    store
        .try_insert(&TraceEvent::process_exec(7, "curl", "curl one", 1))
        .expect("insert first event");
    store
        .try_insert(&TraceEvent::process_exec(7, "curl", "curl two", 2))
        .expect("insert second event");
    store
        .try_insert(&TraceEvent::process_exec(7, "curl", "curl three", 3))
        .expect("insert third event");

    let page = store.query(EventQuery {
        limit: 10,
        ..EventQuery::default()
    });
    assert_eq!(page.total, 2);
    assert_eq!(page.events[0].timestamp_ns, 2);
    assert_eq!(page.events[1].timestamp_ns, 3);
}

#[test]
fn pages_walk_back_from_the_newest_events() {
    let mut store = MemoryStore::memory(10);
    for ts in [5_u64, 1, 4, 2, 3] {
        store.insert(TraceEvent::process_exec(7, "curl", "curl", ts));
    }
    let newest = store.query(EventQuery { limit: 2, ..EventQuery::default() });
    assert_eq!(newest.events.iter().map(|e| e.timestamp_ns).collect::<Vec<_>>(), vec![4, 5]);
    assert!(newest.has_more);
    assert_eq!(newest.limit, 2);
    let older = store.query(EventQuery { offset: 2, limit: 2, ..EventQuery::default() });
    assert_eq!(older.events.iter().map(|e| e.timestamp_ns).collect::<Vec<_>>(), vec![2, 3]);
    let last = store.query(EventQuery { offset: 4, limit: 2, ..EventQuery::default() });
    assert_eq!(last.events.iter().map(|e| e.timestamp_ns).collect::<Vec<_>>(), vec![1]);
    assert!(!last.has_more);
    let past = store.query(EventQuery { offset: 9, ..EventQuery::default() });
    assert_eq!(past.offset, 5);
    assert_eq!(past.limit, 1);
    assert!(past.events.is_empty());
    let all = store.snapshot();
    assert_eq!(all.iter().map(|e| e.timestamp_ns).collect::<Vec<_>>(), vec![1, 2, 3, 4, 5]);
}

#[test]
fn storing_an_event_again_replaces_it() {
    let mut store = MemoryStore::memory(2);
    let mut event = TraceEvent::process_exec(7, "curl", "curl", 1);
    store.insert(event.clone());
    event.pid = Some(8);
    store.insert(event.clone());
    assert_eq!(store.len(), 1);
    let page = store.query(EventQuery { pid: Some(8), ..EventQuery::default() });
    assert_eq!(page.total, 1);
    store.clear();
    assert!(store.is_empty());
}

#[test]
fn full_event_queue_drops_without_blocking_and_reports_it() {
    let (sender, receiver) = tracelens::ingress::event_channel(1);
    let stats = sender.stats();
    assert!(sender.try_send(tracelens::events::example_event()));
    assert!(!sender.try_send(tracelens::events::example_event()));
    assert_eq!(stats.capacity(), 1);
    assert_eq!(stats.dropped(), 1);
    assert!(receiver.try_recv().is_ok());
}

#[test]
fn queries_become_where_clauses_with_bound_values() {
    let (clause, values) = build_filter(&EventQuery::default());
    assert_eq!(clause, "");
    assert!(values.is_empty());

    let query = EventQuery {
        pid: Some(7),
        kind: Some(EventKind::TcpConnect),
        connection_id: Some("socket-7".to_owned()),
        ..EventQuery::default()
    };
    let (clause, values) = build_filter(&query);
    assert_eq!(clause, "WHERE pid = ? AND kind = ? AND connection_id = ?");
    assert_eq!(
        values,
        vec![
            SqlValue::Integer(7),
            SqlValue::Text("tcp_connect".to_owned()),
            SqlValue::Text("socket-7".to_owned()),
        ]
    );
    let (clause, _) = build_filter(&EventQuery {
        connection_id: Some("socket-7".to_owned()),
        ..EventQuery::default()
    });
    assert_eq!(clause, "WHERE connection_id = ?");
    assert_eq!(count_statement(&clause), "SELECT COUNT(*) FROM timeline_events WHERE connection_id = ?");
    assert_eq!(
        page_statement(""),
        "SELECT payload_json FROM timeline_events  ORDER BY timestamp_ns DESC, sequence DESC LIMIT ? OFFSET ?"
    );
    assert_eq!(page_bounds(&EventQuery { limit: 500, offset: 9, ..EventQuery::default() }, 4), (200, 4));
    assert_eq!(page_bounds(&EventQuery { limit: 0, offset: 2, ..EventQuery::default() }, 4), (1, 2));
}

#[test]
fn stored_numbers_must_fit_their_columns() {
    assert_eq!(stored_timestamp(42), Ok(42));
    assert_eq!(
        stored_timestamp(u64::MAX),
        Err("event timestamp does not fit SQLite INTEGER".to_owned())
    );
    assert_eq!(stored_count(3), Ok(3));
    assert_eq!(stored_count(-1), Err("event count does not fit usize".to_owned()));
    assert_eq!(event_kind_name(EventKind::ObservationChanged), "observation_changed");
    assert_eq!(source_name(EventSource::Bpftime), "bpftime");
}

#[test]
fn only_a_full_queue_counts_an_event_as_dropped() {
    assert!(accepted(&Offer::Queued));
    assert!(!accepted(&Offer::Full));
    assert!(!accepted(&Offer::Closed));
    assert!(counts_as_dropped(&Offer::Full));
    assert!(!counts_as_dropped(&Offer::Queued));
    assert!(!counts_as_dropped(&Offer::Closed));
    let (sender, receiver) = tracelens::ingress::event_channel(1);
    let stats = sender.stats();
    assert_eq!(stats.dropped(), 0);
    assert!(sender.try_send(tracelens::events::example_event()));
    assert!(!sender.try_send(tracelens::events::example_event()));
    assert_eq!(stats.dropped(), 1);
    drop(receiver);
    assert!(!sender.try_send(tracelens::events::example_event()));
    assert_eq!(stats.dropped(), 1);
}
