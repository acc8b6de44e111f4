use tracelens::runtime::kernel::{
    kernel_after_attach, kernel_apply_reply, kernel_on_command, KernelAction, KernelCommand, KernelRuntimeState,
    KernelRuntimeStatus,
};
use tracelens::capture::{CaptureFeatures, CaptureModule, CaptureProfile, CaptureScope};
use tracelens::events::{
    ConnectionState, EventKind, EventPayload, EventSource, PlaintextDirection, TcpState,
    TransportProtocol, TLS_API_OPENSSL_GET_SERVERNAME, TLS_API_OPENSSL_WRITE,
};
use tracelens::runtime::dns_wire::{parse_dns_message, read_dns_name};
use tracelens::runtime::kernel::{
    coarse_connection_state, connection_programs, decode_address, decode_dns_event,
    decode_file_event, file_programs, is_dns_dependency_name, kernel_capture_config,
    network_feature_flags, process_programs, tcp_state, traffic_programs, KernelDnsEvent,
    KernelNetworkEvent, KernelProcessEvent, DNS_EVENT_SIZE, NETWORK_EVENT_SIZE,
    PROCESS_EVENT_SIZE, SCOPE_COMM, SCOPE_GLOBAL, SCOPE_PID,
};
use tracelens::runtime::userspace::{
    decode_userspace_event, UserPlaintextEvent, UserTlsEvent, EVENT_HTTP_CAPTURE,
    PLAINTEXT_EVENT_SIZE, PLAINTEXT_MAX_LEN, TLS_EVENT_SIZE, TLS_NAME_LEN, TLS_VERSION_LEN,
};

#[test]
fn event_layout_matches_c_abi() {
    assert_eq!(std::mem::size_of::<KernelProcessEvent>(), 32);
    assert_eq!(std::mem::size_of::<KernelNetworkEvent>(), 88);
    assert_eq!(std::mem::size_of::<KernelDnsEvent>(), 544);
    assert_eq!(PROCESS_EVENT_SIZE, 32);
    assert_eq!(NETWORK_EVENT_SIZE, 88);
    assert_eq!(DNS_EVENT_SIZE, 544);
}

#[test]
fn ipv4_address_is_decoded_from_network_bytes() {
    let mut address = [0; 16];
    address[..4].copy_from_slice(&[93, 184, 216, 34]);
    assert_eq!(decode_address(2, &address), Some("93.184.216.34".to_owned()));
}

#[test]
fn ipv6_addresses_compress_the_longest_zero_run() {
    let mut address = [0_u8; 16];
    address[0] = 0x20;
    address[1] = 0x01;
    address[2] = 0x0d;
    address[3] = 0xb8;
    address[15] = 1;
    assert_eq!(decode_address(10, &address), Some("2001:db8::1".to_owned()));
    assert_eq!(decode_address(10, &[0_u8; 16]), Some("::".to_owned()));
    let mut mapped = [0_u8; 16];
    mapped[10] = 0xff;
    mapped[11] = 0xff;
    mapped[12..].copy_from_slice(&[10, 0, 0, 1]);
    assert_eq!(decode_address(10, &mapped), Some("::ffff:10.0.0.1".to_owned()));
    assert_eq!(decode_address(7, &address), None);
}

const EXAMPLE_RESPONSE: [u8; 45] = [
    0x12, 0x34, 0x81, 0x80, 0x00, 0x01, 0x00, 0x01, 0x00, 0x00, 0x00, 0x00, 0x07, b'e', b'x',
    b'a', b'm', b'p', b'l', b'e', 0x03, b'c', b'o', b'm', 0x00, 0x00, 0x01, 0x00, 0x01, 0xc0,
    0x0c, 0x00, 0x01, 0x00, 0x01, 0x00, 0x00, 0x00, 0x3c, 0x00, 0x04, 0x5d, 0xb8, 0xd8, 0x22,
];

#[test]
fn dns_response_extracts_ipv4_answer() {
    let packet = EXAMPLE_RESPONSE;
    let parsed = parse_dns_message(&packet, true).expect("valid DNS response");
    assert_eq!(parsed.domain, "example.com");
    assert_eq!(parsed.addresses, vec!["93.184.216.34"]);
    assert_eq!(parsed.ttl_secs, 60);
}

#[test]
fn dns_query_flag_must_match_the_direction() {
    assert!(parse_dns_message(&EXAMPLE_RESPONSE, false).is_none());
    let mut query = EXAMPLE_RESPONSE;
    query[2] = 0x01;
    let parsed = parse_dns_message(&query, false).expect("valid DNS query");
    assert_eq!(parsed.domain, "example.com");
    assert!(parsed.addresses.is_empty());
    assert_eq!(parsed.ttl_secs, 0);
    assert!(parse_dns_message(&EXAMPLE_RESPONSE[..11], true).is_none());
    assert!(parse_dns_message(&EXAMPLE_RESPONSE[..40], true).is_none());
}

#[test]
fn dns_names_follow_compression_pointers_once() {
    let (name, next) = read_dns_name(&EXAMPLE_RESPONSE, 29).expect("pointer name");
    assert_eq!(name, "example.com");
    assert_eq!(next, 31);
    let looping = [0xc0, 0x00];
    assert!(read_dns_name(&looping, 0).is_none());
}

#[test]
fn dns_record_decodes_into_a_dns_event() {
    let mut record = vec![0_u8; 544];
    record[0] = 6;
    record[2] = 17;
    record[4] = 42;
    record[16] = 9;
    record[24] = EXAMPLE_RESPONSE.len() as u8;
    record[28..28 + EXAMPLE_RESPONSE.len()].copy_from_slice(&EXAMPLE_RESPONSE);
    let event = decode_dns_event(&record).expect("DNS event");
    assert_eq!(event.kind, EventKind::DnsResponse);
    assert_eq!(event.source, EventSource::Kernel);
    assert_eq!(event.pid, Some(42));
    assert_eq!(event.timestamp_ns, 9);
    match event.payload {
        EventPayload::Dns { protocol, domain, addresses, ttl_secs } => {
            assert_eq!(protocol, TransportProtocol::Udp);
            assert_eq!(domain, "example.com");
            assert_eq!(addresses, vec!["93.184.216.34".to_owned()]);
            assert_eq!(ttl_secs, 60);
        }
        _ => panic!("unexpected payload"),
    }
    record[2] = 1;
    assert!(decode_dns_event(&record).is_none());
    assert!(decode_dns_event(&record[..543]).is_none());
}

#[test]
fn file_record_needs_a_pid_and_a_path() {
    let mut record = vec![0_u8; 280];
    record[0] = 12;
    record[4] = 5;
    record[16] = 7;
    record[24..33].copy_from_slice(b"/etc/host");
    let event = decode_file_event(&record).expect("file event");
    assert_eq!(event.kind, EventKind::FileOpen);
    match event.payload {
        EventPayload::File { path, bytes } => {
            assert_eq!(path, "/etc/host");
            assert_eq!(bytes, 7);
        }
        _ => panic!("unexpected payload"),
    }
    record[4] = 0;
    assert!(decode_file_event(&record).is_none());
}

#[test]
fn tcp_states_map_to_coarse_connection_states() {
    assert_eq!(tcp_state(1), Some(TcpState::Established));
    assert_eq!(tcp_state(13), None);
    assert_eq!(coarse_connection_state(tcp_state(1)), ConnectionState::Established);
    assert_eq!(coarse_connection_state(tcp_state(7)), ConnectionState::Closed);
    assert_eq!(coarse_connection_state(None), ConnectionState::Connecting);
}

#[test]
fn network_flags_follow_traffic_and_dns() {
    assert_eq!(network_feature_flags(false, false), 0);
    assert_eq!(network_feature_flags(true, false), 1);
    assert_eq!(network_feature_flags(false, true), 2);
    assert_eq!(network_feature_flags(true, true), 3);
}

#[test]
fn profile_program_counts_match_the_modular_link_budget() {
    let count = |features: CaptureFeatures| {
        usize::from(features.contains(CaptureModule::Process)) * process_programs().len()
            + usize::from(features.contains(CaptureModule::Connections))
                * connection_programs().len()
            + usize::from(
                features.contains(CaptureModule::Traffic) || features.contains(CaptureModule::Dns),
            ) * traffic_programs().len()
            + usize::from(features.contains(CaptureModule::Files)) * file_programs().len()
    };

    assert_eq!(count(CaptureProfile::Process.features()), 2);
    assert_eq!(count(CaptureProfile::Connections.features()), 6);
    assert_eq!(count(CaptureProfile::Network.features()), 18);
    assert_eq!(count(CaptureProfile::Security.features()), 19);
    assert!(traffic_programs()
        .iter()
        .all(|program| !program.starts_with("tracelens_dns_")));
}

#[test]
fn capture_scope_is_encoded_for_bpf_maps() {
    let global = kernel_capture_config(&CaptureScope::Global);
    assert_eq!(global.scope_mode, SCOPE_GLOBAL);

    let pid = kernel_capture_config(&CaptureScope::Process(4242));
    assert_eq!(pid.scope_mode, SCOPE_PID);
    assert_eq!(pid.target_pid, 4242);

    let name = kernel_capture_config(&CaptureScope::ProcessName(
        "very-long-process-name".to_owned(),
    ));
    assert_eq!(name.scope_mode, SCOPE_COMM);
    assert_eq!(&name.target_comm[..15], b"very-long-proce");
    assert_eq!(name.target_comm[15], 0);
}

#[test]
fn only_known_dns_resolvers_are_scope_dependencies() {
    assert!(is_dns_dependency_name("systemd-resolve"));
    assert!(is_dns_dependency_name("dnsmasq"));
    assert!(!is_dns_dependency_name("curl"));
}

#[test]
fn decodes_tls_metadata_from_the_shared_ring_buffer_layout() {
    assert_eq!(TLS_EVENT_SIZE, 192);
    let event = UserTlsEvent {
        event_type: 7,
        _metadata_kind: 2,
        pid: 7,
        timestamp_ns: 42,
        ssl_object: 0x1234,
        fd: 9,
        api_id: TLS_API_OPENSSL_GET_SERVERNAME as u32,
        sni: {
            let mut value = [0_u8; TLS_NAME_LEN];
            value[..11].copy_from_slice(b"example.com");
            value
        },
        version: {
            let mut value = [0_u8; TLS_VERSION_LEN];
            value[..7].copy_from_slice(b"TLSv1.3");
            value
        },
    };
    let bytes = event.to_bytes();
    assert_eq!(bytes.len(), 192);
    let decoded = decode_userspace_event(&bytes, EventSource::Kernel, "OpenSSL", "/lib/libssl.so", None)
        .expect("TLS event");
    assert_eq!(decoded.pid, Some(7));
    assert_eq!(decoded.kind, EventKind::TlsMetadata);
    assert_eq!(
        decoded
            .instrumentation
            .as_ref()
            .map(|source| source.api_function.as_str()),
        Some("SSL_get_servername")
    );
    match decoded.payload {
        EventPayload::Tls { sni, version, fd, .. } => {
            assert_eq!(sni.as_deref(), Some("example.com"));
            assert_eq!(version.as_deref(), Some("TLSv1.3"));
            assert_eq!(fd, Some(9));
        }
        _ => panic!("unexpected payload"),
    }
}

#[test]
fn decodes_bounded_plaintext_from_the_shared_ring_buffer_layout() {
    assert_eq!(PLAINTEXT_EVENT_SIZE, 40 + PLAINTEXT_MAX_LEN);
    let event = UserPlaintextEvent {
        event_type: 8,
        direction: 2 | (TLS_API_OPENSSL_WRITE << 8),
        pid: 7,
        timestamp_ns: 42,
        ssl_object: 0x1234,
        fd: 9,
        payload_size: 900,
        truncated: 0,
        payload: {
            let mut value = [0_u8; PLAINTEXT_MAX_LEN];
            value.fill(b'x');
            value[..5].copy_from_slice(b"hello");
            value
        },
    };
    let bytes = event.to_bytes();
    assert_eq!(bytes.len(), 40 + PLAINTEXT_MAX_LEN);
    let decoded = decode_userspace_event(&bytes, EventSource::Kernel, "OpenSSL", "/lib/libssl.so", None)
        .expect("plaintext event");
    assert_eq!(decoded.kind, EventKind::Plaintext);
    assert_eq!(
        decoded
            .instrumentation
            .as_ref()
            .map(|source| source.api_function.as_str()),
        Some("SSL_write")
    );
    match decoded.payload {
        EventPayload::Plaintext { data, bytes, direction, truncated, .. } => {
            assert!(data.starts_with("hello"));
            assert_eq!(data.len(), 900);
            assert_eq!(bytes, 900);
            assert_eq!(direction, PlaintextDirection::Write);
            assert!(!truncated);
        }
        _ => panic!("unexpected payload"),
    }
}

#[test]
fn decodes_http_capture_without_turning_it_into_a_plaintext_event() {
    let event = UserPlaintextEvent {
        event_type: EVENT_HTTP_CAPTURE,
        direction: 2,
        pid: 7,
        timestamp_ns: 42,
        ssl_object: 0x1234,
        fd: 9,
        payload_size: 18,
        truncated: 0,
        payload: {
            let mut value = [0_u8; PLAINTEXT_MAX_LEN];
            value[..18].copy_from_slice(b"GET / HTTP/1.1\r\n\r\n");
            value
        },
    };
    let bytes = event.to_bytes();
    let decoded = decode_userspace_event(&bytes, EventSource::Kernel, "OpenSSL", "/lib/libssl.so", None)
        .expect("HTTP capture event");
    assert_eq!(decoded.kind, EventKind::HttpCapture);
    assert!(matches!(decoded.payload, EventPayload::HttpCapture { .. }));
}

#[test]
fn short_or_unknown_userspace_records_are_dropped() {
    assert!(decode_userspace_event(&[0_u8; 10], EventSource::Kernel, "OpenSSL", "/lib/libssl.so", None)
        .is_none());
    let mut record = vec![0_u8; 192];
    record[0] = 3;
    assert!(decode_userspace_event(&record, EventSource::Kernel, "OpenSSL", "/lib/libssl.so", None)
        .is_none());
}

#[test]
fn controller_reports_attach_failure_and_can_return_to_idle() {
    assert_eq!(KernelRuntimeStatus::default().state, KernelRuntimeState::Idle);
    let features = CaptureProfile::Process.features();
    let (shown, action) = kernel_on_command(&KernelCommand::Apply { features, target: CaptureScope::Global });
    assert_eq!(shown.unwrap().state, KernelRuntimeState::Attaching);
    let target = match action {
        KernelAction::Attach { features: f, target } => {
            assert_eq!(f, features);
            target
        },
        _ => panic!("apply must attach"),
    };
    let error = "BPF object definitely-missing-bpf-objects/process.o is missing".to_owned();
    let failed = kernel_after_attach(features, &target, Err(error.clone()));
    assert_eq!(failed.state, KernelRuntimeState::Failed);
    assert_eq!(failed.link_count, 0);
    assert!(kernel_apply_reply(&failed).is_err());
    let (shown, action) = kernel_on_command(&KernelCommand::Stop);
    let stopped = match action {
        KernelAction::Reply(status) => status,
        _ => panic!("stop must answer"),
    };
    assert_eq!(shown.unwrap().state, KernelRuntimeState::Idle);
    assert_eq!(stopped.state, KernelRuntimeState::Idle);
    assert_eq!(stopped.link_count, 0);
    let (shown, action) = kernel_on_command(&KernelCommand::Shutdown);
    assert!(shown.is_none());
    assert!(matches!(action, KernelAction::Exit));
}

#[test]
fn a_successful_attach_reports_every_program_of_the_plan() {
    let features = CaptureProfile::Process.features();
    let status = kernel_after_attach(features, &CaptureScope::Process(42), Ok(()));
    assert_eq!(status.state, KernelRuntimeState::Capturing);
    assert_eq!(status.link_count, status.programs.len());
    assert_eq!(status.objects, vec!["process.o".to_owned()]);
    assert_eq!(status.capture_target.as_deref(), Some("process:42"));
    assert_eq!(kernel_apply_reply(&status), Ok(status.clone()));
}
