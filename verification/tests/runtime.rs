use tracelens::runtime::userspace::{is_global_target, probe_requests};
use tracelens::runtime::inspect::{build_id_of, nm_symbols, offers_trace, version_line};
use tracelens::capture::{CaptureFeatures, CaptureModule};
use tracelens::runtime::bpftime::{is_ssl_library_path, map_path, resolve_global_ssl_target, resolve_user_ssl_target, UserTarget};
use tracelens::runtime::provider::tls_capability;
use tracelens::observation::ObservationLevel;
use tracelens::runtime::bpftime::{
    encode_loader_attachment, loader_attachments, probe_specs, provider_key, provider_probe_specs,
};
use tracelens::runtime::provider::{
    classify_provider, looks_like_tls_library, provider_hooks, select_nss_nspr, TlsProvider,
};
use tracelens::runtime::selector::RuntimeSelector;
use tracelens::runtime::{
    probes_for_features, probes_for_level, BpftimeDiscovery, ProbeKind, RuntimeStatus, UserspaceRuntime,
};

#[test]
fn probe_dependencies_follow_capture_features() {
    let network = CaptureFeatures::legacy_level(1).expect("network features");
    assert!(probes_for_features(network).is_empty());
    let tls = CaptureFeatures::from_modules([CaptureModule::Tls]);
    assert_eq!(probes_for_features(tls), vec![ProbeKind::Tls]);
    let plaintext = CaptureFeatures::from_modules([CaptureModule::Tls, CaptureModule::Plaintext]);
    assert_eq!(
        probes_for_features(plaintext),
        vec![ProbeKind::Tls, ProbeKind::Plaintext]
    );
}

#[test]
fn runtime_names_are_stable_for_health_api() {
    assert_eq!(UserspaceRuntime::KernelUprobe.to_string(), "kernel uprobe");
}

#[test]
fn legacy_levels_map_to_probe_sets() {
    assert_eq!(probes_for_level(ObservationLevel::L2), Vec::<ProbeKind>::new());
    assert_eq!(probes_for_level(ObservationLevel::L4), vec![ProbeKind::Tls, ProbeKind::Plaintext]);
    assert_eq!(ProbeKind::Plaintext.to_string(), "plaintext");
}

#[test]
fn runtime_choice_follows_preference_and_availability() {
    let found = BpftimeDiscovery {
        executable: Some("/opt/bpftime".to_owned()),
        loader_executable: Some("/opt/loader".to_owned()),
        version: Some("0.2".to_owned()),
        detail: "ok".to_owned(),
    };
    let status = RuntimeStatus::detect(true, &found);
    assert_eq!(status.userspace_runtime, UserspaceRuntime::Bpftime);
    assert_eq!(status.detail, "bpftime detected at /opt/bpftime; userspace probe control is available");
    assert_eq!(RuntimeSelector::select(&status), UserspaceRuntime::Bpftime);
    let missing = BpftimeDiscovery { executable: None, loader_executable: None, version: None, detail: "no bpftime".to_owned() };
    let fallback = RuntimeStatus::detect(true, &missing);
    assert_eq!(fallback.userspace_runtime, UserspaceRuntime::KernelUprobe);
    assert_eq!(fallback.detail, "bpftime unavailable; using kernel uprobe fallback (no bpftime)");
    let forced = RuntimeStatus::detect_with_preference("kernel_uprobe", false, &found);
    assert_eq!(forced.userspace_runtime, UserspaceRuntime::Unavailable);
    assert_eq!(missing.executable(), "bpftime");
}

#[test]
fn provider_keys_are_build_and_target_scoped() {
    assert_eq!(
        provider_key(TlsProvider::OpenSsl, "process:42", 42, "abc123"),
        "OpenSSL::abc123::process:42::42"
    );
}

#[test]
fn tls_dependency_uses_the_unified_openssl_object() {
    let specs = probe_specs(ProbeKind::Tls);
    assert_eq!(specs.len(), 5);
    assert!(specs.iter().all(|spec| spec.object_file == "openssl.o"));
    assert_eq!(specs[1].function_name, "SSL_get_servername");
}

#[test]
fn plaintext_dependency_uses_the_unified_openssl_object() {
    let specs = probe_specs(ProbeKind::Plaintext);
    assert_eq!(specs.len(), 4);
    assert!(specs.iter().all(|spec| spec.object_file == "openssl.o"));
    assert_eq!(
        specs[0].companion_program_name,
        Some("tracelens_plaintext_read_exit")
    );
    assert_eq!(specs[1].function_name, "SSL_write");
    assert_eq!(specs[2].function_name, "SSL_read_ex");
    assert_eq!(specs[3].function_name, "SSL_write_ex");
}

#[test]
fn gnutls_catalog_uses_the_provider_specific_record_api() {
    let tls = provider_probe_specs(TlsProvider::GnuTls, ProbeKind::Tls);
    let plaintext = provider_probe_specs(TlsProvider::GnuTls, ProbeKind::Plaintext);
    assert!(tls
        .iter()
        .chain(plaintext.iter())
        .all(|spec| spec.object_file == "gnutls.o"));
    assert!(plaintext
        .iter()
        .any(|spec| spec.function_name == "gnutls_record_recv"));
    assert!(plaintext
        .iter()
        .any(|spec| spec.function_name == "gnutls_record_send"));
}

#[test]
fn nss_catalog_tracks_imported_descriptors_before_nspr_io() {
    let tls = provider_probe_specs(TlsProvider::Nss, ProbeKind::Tls);
    let plaintext = provider_probe_specs(TlsProvider::Nss, ProbeKind::Plaintext);
    assert_eq!(tls[0].function_name, "SSL_ImportFD");
    assert!(plaintext.iter().any(|spec| spec.function_name == "PR_Read"));
    assert!(plaintext
        .iter()
        .any(|spec| spec.function_name == "PR_Write"));
    assert!(plaintext
        .iter()
        .any(|spec| spec.function_name == "PR_Close"));
    assert!(tls
        .iter()
        .chain(plaintext.iter())
        .all(|spec| spec.object_file == "nss.o"));
}

#[test]
fn rustls_ffi_catalog_uses_stable_connection_functions() {
    let tls = provider_probe_specs(TlsProvider::Rustls, ProbeKind::Tls);
    let plaintext = provider_probe_specs(TlsProvider::Rustls, ProbeKind::Plaintext);
    assert_eq!(
        tls[0].function_name,
        "rustls_connection_process_new_packets"
    );
    assert_eq!(plaintext[0].function_name, "rustls_connection_read");
    assert_eq!(plaintext[1].function_name, "rustls_connection_write");
}

#[test]
fn loader_arguments_count_companion_links() {
    assert_eq!(encode_loader_attachment("prog", "SSL_read", true), "prog,SSL_read,1");
    let specs = probe_specs(ProbeKind::Plaintext);
    let args = loader_attachments(&specs);
    assert_eq!(args.len(), 7);
    assert_eq!(args[0], "tracelens_plaintext_read_enter,SSL_read,0");
    assert_eq!(args[1], "tracelens_plaintext_read_exit,SSL_read,1");
    assert!(provider_probe_specs(TlsProvider::GoTls, ProbeKind::Tls).is_empty());
    assert!(provider_probe_specs(TlsProvider::OpenSsl, ProbeKind::Http).is_empty());
}

#[test]
fn provider_classification_prefers_symbols_over_generic_names() {
    let gnutls = vec!["gnutls_record_recv".to_owned()];
    assert_eq!(
        classify_provider("libsomething.so", &gnutls),
        Some(TlsProvider::GnuTls)
    );
    let openssl = vec!["SSL_read".to_owned()];
    assert_eq!(
        classify_provider("libssl.so", &openssl),
        Some(TlsProvider::OpenSsl)
    );
    let nss = vec!["SSL_ImportFD".to_owned()];
    assert_eq!(
        classify_provider("libssl3.so", &nss),
        Some(TlsProvider::Nss)
    );
    let rustls = vec!["rustls_connection_read".to_owned()];
    assert_eq!(
        classify_provider("librustls_ffi.so", &rustls),
        Some(TlsProvider::Rustls)
    );
}

#[test]
fn nss_uses_nspr_from_the_same_runtime_directory() {
    let libraries = vec![
        "/lib/x86_64-linux-gnu/libnspr4.so".to_owned(),
        "/snap/firefox/current/usr/lib/firefox/libnspr4.so".to_owned(),
    ];
    assert_eq!(
        select_nss_nspr(
            "/snap/firefox/current/usr/lib/firefox/libssl3.so",
            false,
            &libraries,
        ),
        Some("/snap/firefox/current/usr/lib/firefox/libnspr4.so".to_owned())
    );
}

#[test]
fn library_names_and_hooks() {
    assert!(looks_like_tls_library("/usr/lib/LibSSL.so.3"));
    assert!(!looks_like_tls_library("/usr/lib/libz.so"));
    assert!(!looks_like_tls_library("/usr/lib/"));
    assert_eq!(classify_provider("/usr/lib/libjvm.so", &[]), Some(TlsProvider::Java));
    assert_eq!(
        classify_provider("/x/libssl.so.3", &["X_BORINGSSL_y".to_owned()]),
        Some(TlsProvider::BoringSsl)
    );
    assert_eq!(classify_provider("/x/libz.so", &[]), None);
    assert_eq!(provider_hooks(TlsProvider::Rustls).len(), 3);
    assert_eq!(provider_hooks(TlsProvider::Nss)[0], "SSL_ImportFD");
    assert_eq!(
        select_nss_nspr("/a/libssl3.so", false, &["/b/libnspr4.so".to_owned()]),
        Some("/b/libnspr4.so".to_owned())
    );
    assert_eq!(select_nss_nspr("/a/libssl3.so", true, &[]), Some("/a/libnspr4.so".to_owned()));
    assert_eq!(TlsProvider::GoTls.to_string(), "Go crypto/tls");
}

#[test]
fn maps_lines_name_their_mapped_file() {
    assert_eq!(
        map_path("7f1c2a000000-7f1c2a021000 r--p 00000000 08:01 1312 /usr/lib/x86_64-linux-gnu/libssl.so.3"),
        Some("/usr/lib/x86_64-linux-gnu/libssl.so.3".to_owned())
    );
    assert_eq!(map_path("7f1c2a000000-7f1c2a021000 rw-p 00000000 00:00 0"), None);
    assert_eq!(map_path("7ffd1000-7ffd2000 rw-p 00000000 00:00 0   [stack]"), None);
    assert!(is_ssl_library_path("/usr/lib/libssl.so.3"));
    assert!(!is_ssl_library_path("/usr/lib/libcrypto.so.3"));
    assert!(!is_ssl_library_path("/usr/libssl/"));
}

#[test]
fn ssl_targets_wait_for_a_mapped_libssl() {
    let target = UserTarget { pid: 42, executable: "/usr/bin/curl".to_owned(), library: "/usr/bin/curl".to_owned() };
    let resolved = resolve_user_ssl_target(42, Ok(target.clone()), Some("/lib/libssl.so.3".to_owned()), None)
        .expect("mapped libssl");
    assert_eq!(resolved.library, "/lib/libssl.so.3");
    assert_eq!(resolved.executable, "/usr/bin/curl");
    assert_eq!(
        resolve_user_ssl_target(42, Ok(target), None, None),
        Err("libssl is not mapped in process 42 yet; userspace probes will be retried".to_owned())
    );
    let global = resolve_user_ssl_target(0, Err("unused".to_owned()), None, Some("/lib/libssl.so.3".to_owned()))
        .expect("global target");
    assert_eq!(global.pid, 0);
    assert_eq!(global.executable, "/lib/libssl.so.3");
    assert!(resolve_global_ssl_target(None).is_err());
}

#[test]
fn capability_reports_missing_symbols_and_hooks() {
    let symbols = vec!["SSL_read".to_owned(), "SSL_connect".to_owned()];
    let openssl = tls_capability("/lib/libssl.so.3", TlsProvider::OpenSsl, &symbols, "abc".to_owned(), None, &[]);
    assert!(!openssl.supported);
    assert_eq!(openssl.reason.as_deref(), Some("missing symbols: SSL_write"));
    assert!(openssl.modules.is_empty());
    assert_eq!(openssl.symbols, vec!["SSL_connect".to_owned(), "SSL_read".to_owned()]);
    assert_eq!(openssl.version_hint.as_deref(), Some("libssl.so.3"));

    let nss_symbols = vec!["SSL_ImportFD".to_owned(), "SSL_SetURL".to_owned()];
    let nspr_symbols = vec!["PR_Write".to_owned(), "PR_Read".to_owned()];
    let nss = tls_capability(
        "/usr/lib/libssl3.so",
        TlsProvider::Nss,
        &nss_symbols,
        "def".to_owned(),
        Some("/usr/lib/libnspr4.so".to_owned()),
        &nspr_symbols,
    );
    assert!(nss.supported);
    assert_eq!(nss.reason, None);
    assert_eq!(nss.modules, vec![CaptureModule::Tls, CaptureModule::Http, CaptureModule::Plaintext]);
    assert_eq!(nss.symbols, vec!["PR_Read", "PR_Write", "SSL_ImportFD", "SSL_SetURL"]);
    assert_eq!(nss.auxiliary_libraries, vec!["/usr/lib/libnspr4.so".to_owned()]);

    let java = tls_capability("/usr/lib/jvm/libjvm.so", TlsProvider::Java, &[], "x".to_owned(), None, &[]);
    assert_eq!(java.reason.as_deref(), Some("Java JSSE instrumentation is not implemented"));
}

#[test]
fn build_ids_are_read_from_the_gnu_note() {
    let mut bytes = vec![0x7f, b'E', b'L', b'F', 9, 9];
    bytes.extend_from_slice(&4u32.to_le_bytes());
    bytes.extend_from_slice(&4u32.to_le_bytes());
    bytes.extend_from_slice(&3u32.to_le_bytes());
    bytes.extend_from_slice(b"GNU\0");
    bytes.extend_from_slice(&[0xab, 0xcd, 0x01, 0x02]);
    bytes.push(0);
    assert_eq!(build_id_of(&bytes).as_deref(), Some("abcd0102"));
    assert_eq!(build_id_of(&bytes[..bytes.len() - 5]), None);
    assert_eq!(build_id_of(b"no notes here at all"), None);
}

#[test]
fn nm_output_lists_unversioned_symbols_once() {
    let output = "0000000000001234 T SSL_read@@OPENSSL_3.0.0\n0000000000001240 T SSL_write\n\n0000000000001234 T SSL_read\n";
    assert_eq!(nm_symbols(output), vec!["SSL_read".to_owned(), "SSL_write".to_owned()]);
    assert!(nm_symbols("").is_empty());
}

#[test]
fn bpftime_version_and_trace_support_are_read_from_its_output() {
    assert_eq!(version_line("", "\n  bpftime v0.2.0  \nmore"), "bpftime v0.2.0");
    assert_eq!(version_line("bpftime 1.0\r\n", "ignored"), "bpftime 1.0");
    assert_eq!(version_line(" \n", ""), "bpftime");
    assert!(offers_trace("Commands:\n  load   start\n  trace  run a program\n"));
    assert!(!offers_trace("Commands: tracer traced"));
}

#[test]
fn probe_requests_keep_the_functions_a_library_defines() {
    let symbols = vec!["SSL_read".to_owned(), "SSL_write".to_owned(), "SSL_connect".to_owned()];
    let requests = probe_requests(TlsProvider::OpenSsl, &symbols, &vec![ProbeKind::Tls, ProbeKind::Plaintext]);
    let functions: Vec<(ProbeKind, &str)> = requests.iter().map(|(p, s)| (*p, s.function_name)).collect();
    assert_eq!(
        functions,
        vec![(ProbeKind::Tls, "SSL_connect"), (ProbeKind::Plaintext, "SSL_read"), (ProbeKind::Plaintext, "SSL_write")]
    );
    assert!(probe_requests(TlsProvider::OpenSsl, &Vec::new(), &vec![ProbeKind::Tls]).is_empty());
    assert!(is_global_target("global"));
    assert!(is_global_target("process-name:curl"));
    assert!(!is_global_target("process:42"));
}
