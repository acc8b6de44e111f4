use tracelens::api::{
    active_connections, distinct_domains, error_body, process_traffic, request_target, response, route, ApiRoute,
};
use tracelens::events::{ConnectionRef, ConnectionState, Endpoint, TcpState, TransportProtocol};
use tracelens::network::tracker::ConnectionRecord;

fn record(id: &str, pid: u32, domain: Option<&str>, state: ConnectionState, sent: u64) -> ConnectionRecord {
    ConnectionRecord {
        pid: Some(pid),
        process: None,
        connection: ConnectionRef {
            id: id.to_owned(),
            protocol: TransportProtocol::Tcp,
            local: None,
            remote: Endpoint {
                address: "203.0.113.1".to_owned(),
                port: 443,
            },
            state,
            tcp_state: Some(TcpState::Established),
            sent_bytes: sent,
            received_bytes: 1,
            domain: domain.map(str::to_owned),
        },
        first_seen_ns: 1,
        last_seen_ns: 2,
    }
}

#[test]
fn requests_are_routed_by_method_and_path() {
    let (method, path) = request_target(b"GET /api/summary HTTP/1.1\r\nHost: localhost\r\n\r\n");
    assert_eq!(method, "GET");
    assert_eq!(path, "/api/summary");
    assert_eq!(route(b"GET /api/summary HTTP/1.1\r\n\r\n"), ApiRoute::Summary);
    assert_eq!(route(b"GET /api/health HTTP/1.1\r\n"), ApiRoute::Health);
    assert_eq!(route(b"GET /api/processes"), ApiRoute::Processes);
    assert_eq!(route(b"GET /api/connections HTTP/1.1"), ApiRoute::Connections);
    assert_eq!(route(b"OPTIONS /api/health HTTP/1.1\r\n"), ApiRoute::Preflight);
    assert_eq!(route(b"POST /api/health HTTP/1.1\r\n"), ApiRoute::MethodNotAllowed);
    assert_eq!(route(b"GET /nope HTTP/1.1\r\n"), ApiRoute::NotFound);
    assert_eq!(route(b""), ApiRoute::MethodNotAllowed);
    let (method, path) = request_target(b"\nGET /api/health");
    assert_eq!((method.as_str(), path.as_str()), ("", ""));
}

#[test]
fn responses_are_framed_with_length_and_cors_headers() {
    assert_eq!(
        response(200, "{}", "application/json"),
        "HTTP/1.1 200 OK\r\nContent-Type: application/json\r\nAccess-Control-Allow-Origin: *\r\nAccess-Control-Allow-Methods: GET, OPTIONS\r\nContent-Length: 2\r\nConnection: close\r\n\r\n{}"
    );
    assert!(response(500, "é", "text/plain").starts_with("HTTP/1.1 500 Internal Server Error\r\n"));
    assert!(response(500, "é", "text/plain").contains("Content-Length: 2\r\n"));
    assert!(response(204, "", "text/plain").starts_with("HTTP/1.1 204 No Content\r\n"));
    assert_eq!(error_body("not found"), "{\"error\":\"not found\"}");
}

#[test]
fn summary_counts_open_connections_and_distinct_domains() {
    let records = vec![
        record("a", 1, Some("example.net"), ConnectionState::Established, 10),
        record("b", 1, Some("example.net"), ConnectionState::Closed, 20),
        record("c", 2, Some("other.example"), ConnectionState::Connecting, 5),
        record("d", 1, None, ConnectionState::Established, u64::MAX),
    ];
    assert_eq!(active_connections(&records), 3);
    assert_eq!(distinct_domains(&records), 2);
    assert_eq!(process_traffic(&records, 1), (2, u64::MAX, 3));
    assert_eq!(process_traffic(&records, 2), (1, 5, 1));
    assert_eq!(process_traffic(&records, 9), (0, 0, 0));
}
