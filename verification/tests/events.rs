use tracelens::events::{
    tls_api_function, EventKind, EventPayload, EventSource, PlaintextDirection, PlaintextEventData,
    TlsEventData, TraceEvent,
};

#[test]
fn process_exec_uses_the_shared_core_schema() {
    let event = TraceEvent::process_exec(7, "curl", "curl https://example.com", 42);

    assert_eq!(event.source, EventSource::Core);
    assert_eq!(event.kind, EventKind::ProcessExec);
    assert_eq!(event.pid, Some(7));
}

#[test]
fn tls_metadata_uses_the_shared_event_schema() {
    let event = TraceEvent::tls_metadata(
        EventSource::Kernel,
        7,
        TlsEventData {
            ssl_object: 0x1234,
            fd: Some(9),
            sni: Some("example.com".to_owned()),
            version: Some("TLSv1.3".to_owned()),
        },
        42,
    );

    assert_eq!(event.kind, EventKind::TlsMetadata);
    assert_eq!(event.pid, Some(7));
    assert!(matches!(event.payload, EventPayload::Tls { .. }));
}

#[test]
fn plaintext_uses_a_bounded_directional_event_schema() {
    let event = TraceEvent::plaintext(
        EventSource::Kernel,
        7,
        PlaintextEventData {
            ssl_object: 0x1234,
            fd: Some(9),
            direction: PlaintextDirection::Write,
            data: "hello".to_owned(),
            bytes: 5,
            truncated: false,
        },
        42,
    );

    assert_eq!(event.kind, EventKind::Plaintext);
    assert_eq!(event.pid, Some(7));
    assert!(matches!(event.payload, EventPayload::Plaintext { .. }));
}

#[test]
fn event_ids_are_built_from_kind_pid_and_time() {
    let event = TraceEvent::process_exec(7, "curl", "curl https://example.com", 42);
    assert_eq!(event.id, "process-ProcessExec-7-42");
    let tls = TraceEvent::tls_metadata(
        EventSource::Kernel,
        7,
        TlsEventData { ssl_object: 4660, fd: None, sni: None, version: None },
        42,
    );
    assert_eq!(tls.id, "tls-7-4660-42");
}

#[test]
fn tls_api_ids_name_the_library_function() {
    assert_eq!(tls_api_function(5), Some("SSL_set_fd"));
    assert_eq!(tls_api_function(999), None);
}
