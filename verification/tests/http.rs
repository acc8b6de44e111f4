use tracelens::events::PlaintextDirection;
use tracelens::http::parser::{HttpParseResult, HttpParser};
use tracelens::http::policy::{capture_body, payload_decision, PayloadDecision, MAX_TEXT_PREVIEW_BYTES};
use tracelens::http::stream::{HttpMessage, HttpTracker, StreamReassembler};
use tracelens::http::{HttpVersion, MAX_HEADER_BYTES};

fn headers(values: &[(&str, &str)]) -> Vec<(String, String)> {
    values
        .iter()
        .map(|(name, value)| ((*name).to_owned(), (*value).to_owned()))
        .collect()
}

#[test]
fn parses_request_metadata_and_consumes_content_length() {
    let request = b"POST /upload HTTP/1.1\r\nHost: example.com\r\nContent-Length: 3\r\n\r\nabcGET /next HTTP/1.1\r\nHost: example.com\r\n\r\n";
    let parser = HttpParser;
    let first = parser.parse_request_frame(request);
    let HttpParseResult::Complete { message, consumed } = first else {
        panic!("request should parse")
    };
    assert_eq!(
        consumed,
        request.len() - b"GET /next HTTP/1.1\r\nHost: example.com\r\n\r\n".len()
    );
    assert_eq!(message.version, HttpVersion::Http11);
    assert_eq!(message.method, "POST");
    assert_eq!(message.path, "/upload");
    assert_eq!(message.host.as_deref(), Some("example.com"));
    assert_eq!(message.content_length, Some(3));
}

#[test]
fn parses_response_and_waits_for_partial_body() {
    let parser = HttpParser;
    let partial = parser.parse_response_frame(b"HTTP/1.1 200 OK\r\nContent-Length: 5\r\n\r\nhe");
    assert_eq!(partial, HttpParseResult::Incomplete);
    let complete =
        parser.parse_response_frame(b"HTTP/1.1 200 OK\r\nContent-Length: 5\r\n\r\nhello");
    let HttpParseResult::Complete { message, .. } = complete else {
        panic!("response should parse")
    };
    assert_eq!(message.status, 200);
    assert_eq!(message.reason, "OK");
}

#[test]
fn consumes_chunked_body_and_trailers_before_next_request() {
    let request = b"POST /upload HTTP/1.1\r\nHost: example.com\r\nTransfer-Encoding: chunked\r\n\r\n4\r\nWiki\r\n0\r\nX-Trace: yes\r\n\r\nGET /next HTTP/1.1\r\nHost: example.com\r\n\r\n";
    let HttpParseResult::Complete { message, consumed } = HttpParser.parse_request_frame(request)
    else {
        panic!("chunked request should parse")
    };
    assert_eq!(message.method, "POST");
    assert_eq!(message.content_length, None);
    assert_eq!(
        &request[consumed..],
        b"GET /next HTTP/1.1\r\nHost: example.com\r\n\r\n"
    );
}

#[test]
fn rejects_oversized_headers() {
    let mut request = format!(
        "GET / HTTP/1.1\r\nX-Test: {}\r\n\r\n",
        "x".repeat(MAX_HEADER_BYTES)
    );
    request.push('\n');
    assert_eq!(
        HttpParser.parse_request_frame(request.as_bytes()),
        HttpParseResult::Invalid
    );
}

#[test]
fn waits_for_the_blank_line_and_rejects_bad_start_lines() {
    assert_eq!(
        HttpParser.parse_request_frame(b"GET / HTTP/1.1\r\nHost: x\r\n"),
        HttpParseResult::Incomplete
    );
    assert_eq!(
        HttpParser.parse_request_frame(b"GET / HTTP/1.0\r\n\r\n"),
        HttpParseResult::Invalid
    );
    assert_eq!(
        HttpParser.parse_request_frame(b"G(T / HTTP/1.1\r\n\r\n"),
        HttpParseResult::Invalid
    );
    assert_eq!(
        HttpParser.parse_request_frame(b"GET  HTTP/1.1\r\n\r\n"),
        HttpParseResult::Invalid
    );
    assert_eq!(
        HttpParser.parse_response_frame(b"HTTP/1.1 2000 OK\r\n\r\n"),
        HttpParseResult::Invalid
    );
    assert_eq!(HttpParser.parse_request(b"GET / HTTP/1.1\r\n"), None);
}

#[test]
fn rejects_conflicting_and_oversized_lengths() {
    assert_eq!(
        HttpParser.parse_request_frame(
            b"POST / HTTP/1.1\r\nContent-Length: 3\r\ncontent-length: 4\r\n\r\nabcd"
        ),
        HttpParseResult::Invalid
    );
    assert_eq!(
        HttpParser.parse_request_frame(b"POST / HTTP/1.1\r\nContent-Length: 2000000\r\n\r\n"),
        HttpParseResult::Invalid
    );
    assert_eq!(
        HttpParser.parse_request_frame(b"POST / HTTP/1.1\r\nBad Header: 1\r\n\r\n"),
        HttpParseResult::Invalid
    );
    assert_eq!(
        HttpParser.parse_request_frame(b"POST / HTTP/1.1\r\nNoColon\r\n\r\n"),
        HttpParseResult::Invalid
    );
}

#[test]
fn bare_newlines_end_the_header_block() {
    let HttpParseResult::Complete { message, consumed } =
        HttpParser.parse_request_frame(b"GET /a HTTP/1.1\nHost: h\n\nrest")
    else {
        panic!("request should parse")
    };
    assert_eq!(consumed, 25);
    assert_eq!(message.host.as_deref(), Some("h"));
    assert_eq!(message.headers, vec![("Host".to_owned(), "h".to_owned())]);
}

#[test]
fn malformed_chunk_framing_is_invalid() {
    assert_eq!(
        HttpParser.parse_request_frame(
            b"POST / HTTP/1.1\r\nTransfer-Encoding: chunked\r\n\r\n4\r\nWikiXX0\r\n\r\n"
        ),
        HttpParseResult::Invalid
    );
    assert_eq!(
        HttpParser.parse_request_frame(b"POST / HTTP/1.1\r\nTransfer-Encoding: chunked\r\n\r\n4\r\nWi"),
        HttpParseResult::Incomplete
    );
}

#[test]
fn bodiless_status_ignores_content_length() {
    let HttpParseResult::Complete { message, consumed } =
        HttpParser.parse_response_frame(b"HTTP/1.1 304 Not Modified\r\nContent-Length: 10\r\n\r\n")
    else {
        panic!("response should parse")
    };
    assert_eq!(message.status, 304);
    assert_eq!(message.reason, "Not Modified");
    assert_eq!(message.content_length, Some(10));
    assert_eq!(consumed, 49);
    assert_eq!(message.body.bytes, 0);
}

#[test]
fn captures_small_html_and_json_bodies() {
    let html_headers = headers(&[("Content-Type", "text/html; charset=utf-8")]);
    let json_headers = headers(&[("content-type", "application/json")]);
    assert_eq!(
        payload_decision(&html_headers, Some(4)),
        PayloadDecision::Capture
    );
    assert_eq!(
        capture_body(&json_headers, Some(4), br#"{"ok":true}"#).preview,
        Some(r#"{"ok":true}"#.to_owned())
    );
}

#[test]
fn skips_media_and_large_text_without_retaining_body() {
    let media_headers = headers(&[("Content-Type", "video/mp4")]);
    let text_headers = headers(&[("Content-Type", "text/plain")]);
    let large = vec![b'x'; MAX_TEXT_PREVIEW_BYTES + 1];
    assert_eq!(
        capture_body(&media_headers, Some(large.len()), &large)
            .skip_reason
            .as_deref(),
        Some("binary_content")
    );
    assert_eq!(
        capture_body(&text_headers, Some(large.len()), &large)
            .skip_reason
            .as_deref(),
        Some("body_too_large")
    );
}

#[test]
fn skips_compressed_text_until_decoding_is_supported() {
    let headers = headers(&[
        ("Content-Type", "application/json"),
        ("Content-Encoding", "gzip"),
    ]);
    assert_eq!(
        payload_decision(&headers, Some(10)),
        PayloadDecision::Skip("content_encoded")
    );
}

#[test]
fn decides_each_skip_reason() {
    assert_eq!(payload_decision(&headers(&[]), Some(0)), PayloadDecision::Capture);
    assert_eq!(payload_decision(&headers(&[]), None), PayloadDecision::Capture);
    assert_eq!(
        payload_decision(&headers(&[]), Some(5)),
        PayloadDecision::Skip("unknown_content_type")
    );
    assert_eq!(
        payload_decision(&headers(&[("Content-Type", "application/x-thing")]), Some(5)),
        PayloadDecision::Skip("unsupported_content_type")
    );
    assert_eq!(
        payload_decision(
            &headers(&[("Transfer-Encoding", "gzip, Chunked"), ("Content-Type", "IMAGE/png")]),
            None
        ),
        PayloadDecision::Skip("binary_content")
    );
    assert_eq!(
        payload_decision(
            &headers(&[("Content-Encoding", " identity "), ("Content-Type", "application/ld+json")]),
            Some(3)
        ),
        PayloadDecision::Capture
    );
    assert_eq!(
        payload_decision(&headers(&[("Content-Type", "text/plain")]), Some(MAX_TEXT_PREVIEW_BYTES + 1)),
        PayloadDecision::Skip("body_too_large")
    );
}

#[test]
fn unknown_type_text_is_kept_and_bad_utf8_is_skipped() {
    let kept = capture_body(&headers(&[]), Some(5), b"hello");
    assert_eq!(kept.preview.as_deref(), Some("hello"));
    assert_eq!(kept.bytes, 5);
    assert!(!kept.skipped);
    let binary = capture_body(&headers(&[]), Some(2), &[0xff, 0x00]);
    assert_eq!(binary.skip_reason.as_deref(), Some("unknown_content_type"));
    assert!(binary.skipped);
    let bad = capture_body(&headers(&[("Content-Type", "text/plain")]), Some(2), &[0xff, 0xfe]);
    assert_eq!(bad.skip_reason.as_deref(), Some("non_utf8_text"));
    assert_eq!(bad.bytes, 2);
    let empty = capture_body(&headers(&[("Content-Type", "video/mp4")]), Some(0), b"");
    assert_eq!(empty.bytes, 0);
    assert!(!empty.skipped);
}

#[test]
fn reassembles_headers_across_plaintext_events() {
    let mut stream = StreamReassembler::default();
    assert!(stream
        .push(
            PlaintextDirection::Write,
            b"GET /health HTTP/1.1\r\nHost: ex",
            false,
        )
        .is_empty());
    let messages = stream.push(PlaintextDirection::Write, b"ample.com\r\n\r\n", false);
    assert_eq!(messages.len(), 1);
    let HttpMessage::Request(request) = &messages[0] else {
        panic!("expected request")
    };
    assert_eq!(request.host.as_deref(), Some("example.com"));
    assert_eq!(request.path, "/health");
    assert_eq!(stream.buffered_len(), 0);
}

#[test]
fn keeps_request_and_response_directions_separate() {
    let mut stream = StreamReassembler::default();
    assert!(stream
        .push(PlaintextDirection::Write, b"GET / HTTP/1.1\r\n", false)
        .is_empty());
    assert!(stream
        .push(PlaintextDirection::Read, b"HTTP/1.1 204 No", false)
        .is_empty());
    let request = stream.push(PlaintextDirection::Write, b"Host: x\r\n\r\n", false);
    let response = stream.push(PlaintextDirection::Read, b" Content\r\n\r\n", false);
    assert!(matches!(request.as_slice(), [HttpMessage::Request(_)]));
    assert!(matches!(response.as_slice(), [HttpMessage::Response(_)]));
}

#[test]
fn truncated_capture_can_emit_a_complete_prefix_and_drops_the_unknown_tail() {
    let mut stream = StreamReassembler::default();
    let messages = stream.push(
        PlaintextDirection::Write,
        b"GET / HTTP/1.1\r\nHost: x\r\n\r\n",
        true,
    );
    assert!(matches!(messages.as_slice(), [HttpMessage::Request(_)]));
    assert_eq!(stream.buffered_len(), 0);
    assert!(stream
        .push(PlaintextDirection::Write, b"Host: stale\r\n\r\n", false)
        .is_empty());
    assert_eq!(stream.buffered_len(), 0);
    assert!(stream
        .push(
            PlaintextDirection::Read,
            b"HTTP/1.1 204 No Content\r\n\r\n",
            false
        )
        .iter()
        .any(|message| matches!(message, HttpMessage::Response(_))));
}

#[test]
fn aggregates_small_text_body_across_ssl_chunks() {
    let mut stream = StreamReassembler::default();
    assert!(stream
        .push(
            PlaintextDirection::Read,
            b"HTTP/1.1 200 OK\r\nContent-Type: text/html\r\nContent-Length: 11\r\n\r\nhello ",
            false,
        )
        .is_empty());
    let messages = stream.push(PlaintextDirection::Read, b"world", false);
    let HttpMessage::Response(response) = &messages[0] else {
        panic!("expected response")
    };
    assert_eq!(response.body.preview.as_deref(), Some("hello world"));
    assert_eq!(response.body.bytes, 11);
    assert_eq!(
        stream.payload_policy(PlaintextDirection::Read),
        Some(PayloadDecision::Capture)
    );
}

#[test]
fn marks_binary_streams_without_retaining_body() {
    let mut stream = StreamReassembler::default();
    let messages = stream.push(
        PlaintextDirection::Read,
        b"HTTP/1.1 200 OK\r\nContent-Type: image/png\r\nContent-Length: 4\r\n\r\nPNG!",
        false,
    );
    let HttpMessage::Response(response) = &messages[0] else {
        panic!("expected response")
    };
    assert!(response.body.skipped);
    assert_eq!(response.body.preview, None);
    assert_eq!(response.body.bytes, 4);
    assert_eq!(
        stream.payload_policy(PlaintextDirection::Read),
        Some(PayloadDecision::Skip("binary_content"))
    );
}

#[test]
fn oversized_chunks_are_dropped_and_open_a_gap() {
    let mut stream = StreamReassembler::default();
    let big = vec![b'a'; tracelens::http::MAX_STREAM_BUFFER + 1];
    assert!(stream.push(PlaintextDirection::Write, &big, false).is_empty());
    assert_eq!(stream.buffered_len(), 0);
    assert!(stream
        .push(PlaintextDirection::Write, b"GET / HTTP/1.1\r\n\r\n", false)
        .len()
        == 1);
}

#[test]
fn tracker_keeps_one_reassembler_per_stream() {
    let mut tracker = HttpTracker::default();
    assert!(tracker
        .observe("a", PlaintextDirection::Write, b"GET / HTTP/1.1\r\n", false)
        .is_empty());
    assert!(tracker
        .observe("b", PlaintextDirection::Write, b"Host: b\r\n\r\n", false)
        .is_empty());
    let done = tracker.observe("a", PlaintextDirection::Write, b"Host: a\r\n\r\n", false);
    assert_eq!(done.len(), 1);
    assert_eq!(tracker.stream_count(), 2);
    assert_eq!(tracker.payload_policy("a", PlaintextDirection::Write), Some(PayloadDecision::Capture));
    assert_eq!(tracker.payload_policy("zzz", PlaintextDirection::Write), None);
}

#[test]
fn a_chunk_past_the_buffer_limit_completes_nothing_and_empties_its_direction() {
    let mut stream = StreamReassembler::default();
    let head = b"GET / HTTP/1.1\r\nHost: a\r\n".to_vec();
    assert!(stream.push(PlaintextDirection::Write, &head, false).is_empty());
    let response = b"HTTP/1.1 200 OK\r\nContent-Length: 0\r\n".to_vec();
    assert!(stream.push(PlaintextDirection::Read, &response, false).is_empty());
    let before = stream.buffered_len();
    let big = vec![b'a'; 128 * 1024];
    assert!(stream.push(PlaintextDirection::Write, &big, false).is_empty());
    assert_eq!(stream.buffered_len(), before - head.len());
    let messages = stream.push(PlaintextDirection::Read, b"\r\n", false);
    assert_eq!(messages.len(), 1);
    assert!(matches!(messages[0], HttpMessage::Response(_)));
}
