use tracelens::capture::{CaptureFeatures, CaptureModule};
use tracelens::runtime::plan::{
    attach_plan, dry_run_capability, dry_run_found, hook_library, kernel_attachments, link_count, matches_features,
    pick_runtime, record_error,
};
use tracelens::runtime::provider::{TlsCapability, TlsProvider};
use tracelens::runtime::userspace::ProbeAttachment;
use tracelens::runtime::{ProbeKind, UserspaceRuntime};

fn capability(provider: TlsProvider, library: &str, build_id: &str, symbols: &[&str], supported: bool) -> TlsCapability {
    TlsCapability {
        provider,
        library: library.to_owned(),
        build_id: build_id.to_owned(),
        version_hint: None,
        auxiliary_libraries: Vec::new(),
        modules: Vec::new(),
        symbols: symbols.iter().map(|s| s.to_string()).collect(),
        supported,
        reason: None,
    }
}

fn tls() -> CaptureFeatures {
    CaptureFeatures::from_modules([CaptureModule::Tls])
}

#[test]
fn metadata_only_features_do_not_create_an_empty_userspace_provider() {
    let features =
        CaptureFeatures::from_modules([CaptureModule::Process, CaptureModule::Connections, CaptureModule::Dns]);
    let found = dry_run_found("global", &vec![]);
    let plan = attach_plan("global", features, &found, UserspaceRuntime::KernelUprobe, true);
    assert!(plan.attaches.is_empty());
    assert!(plan.capabilities.is_empty());
    assert!(plan.errors.is_empty());
}

#[test]
fn process_name_features_use_global_probe_attachments() {
    let features = CaptureFeatures::from_modules([CaptureModule::Tls, CaptureModule::Http]);
    let found = dry_run_found("process-name:curl", &vec![]);
    let plan = attach_plan("process-name:curl", features, &found, UserspaceRuntime::KernelUprobe, true);
    assert_eq!(plan.attaches.len(), 1);
    let step = &plan.attaches[0];
    assert_eq!(step.runtime, Some(UserspaceRuntime::KernelUprobe));
    let attachments = kernel_attachments("process-name:curl", step.pid, &step.requests);
    assert_eq!(attachments.len(), 9);
    assert_eq!(link_count(&step.requests), 12);
    assert!(attachments.iter().all(|attachment| attachment.pid == 0));
    assert!(attachments.iter().all(|attachment| attachment.target == "process-name:curl"));
}

#[test]
fn global_features_use_global_probe_attachments() {
    let features = CaptureFeatures::from_modules([CaptureModule::Tls, CaptureModule::Http]);
    let found = dry_run_found("global", &vec![]);
    let plan = attach_plan("global", features, &found, UserspaceRuntime::KernelUprobe, true);
    assert_eq!(plan.attaches.len(), 1);
    let attachments = kernel_attachments("global", plan.attaches[0].pid, &plan.attaches[0].requests);
    assert_eq!(attachments.len(), 9);
    assert!(attachments.iter().all(|attachment| attachment.pid == 0));
    assert!(attachments.iter().all(|attachment| attachment.target == "global"));
}

#[test]
fn missing_process_has_no_fake_kernel_attachment() {
    let plan = attach_plan("process:999999", tls(), &vec![], UserspaceRuntime::KernelUprobe, true);
    assert!(plan.attaches.is_empty());
    assert!(!plan.errors.is_empty());
    assert_eq!(plan.errors, vec!["no supported TLS provider is currently loaded for process:999999".to_owned()]);
}

#[test]
fn kernel_fallback_tracks_tls_attachments_of_one_process() {
    let target = "process:4242";
    let found = dry_run_found(target, &vec![4242]);
    let plan = attach_plan(target, tls(), &found, UserspaceRuntime::KernelUprobe, true);
    assert_eq!(plan.attaches.len(), 1);
    let step = &plan.attaches[0];
    let attachments = kernel_attachments(target, step.pid, &step.requests);
    assert_eq!(attachments.len(), 5);
    assert_eq!(link_count(&step.requests), 5);
    assert!(attachments.iter().all(|attachment| attachment.runtime == UserspaceRuntime::KernelUprobe));
    assert!(attachments.iter().all(|attachment| attachment.pid == 4242));
    assert!(matches_features(&attachments, target, tls()));
    assert!(!matches_features(
        &attachments,
        target,
        CaptureFeatures::from_modules([CaptureModule::Tls, CaptureModule::Plaintext]),
    ));
}

#[test]
fn http_feature_plans_plaintext_capture_pairs_without_http_probes() {
    let target = "process:4242";
    let features = CaptureFeatures::from_modules([CaptureModule::Tls, CaptureModule::Http]);
    let plan = attach_plan(target, features, &dry_run_found(target, &vec![4242]), UserspaceRuntime::KernelUprobe, true);
    let requests = &plan.attaches[0].requests;
    assert_eq!(requests.len(), 9);
    assert!(requests.iter().any(|(probe, _)| *probe == ProbeKind::Plaintext));
    assert!(!requests.iter().any(|(probe, _)| *probe == ProbeKind::Http));
}

#[test]
fn dry_run_finds_one_stand_in_library_per_process() {
    let found = dry_run_found("process:7", &vec![7, 8]);
    assert_eq!(found.len(), 2);
    assert_eq!(found[0].0, 7);
    assert_eq!(found[1].0, 8);
    assert_eq!(found[0].1.library, "dry-run-libssl.so");
    assert_eq!(found[0].1.build_id, "dry-run");
    assert_eq!(found[0].1.symbols.len(), 9);
    assert!(found[1].1.supported);
    assert_eq!(dry_run_found("global", &vec![7, 8]).len(), 1);
    assert_eq!(dry_run_capability().provider, TlsProvider::OpenSsl);
}

#[test]
fn runtime_choice_prefers_bpftime_for_one_process_and_falls_back_to_kernel_uprobes() {
    let bpftime = UserspaceRuntime::Bpftime;
    assert_eq!(pick_runtime(bpftime, 42, TlsProvider::OpenSsl, true), Some(UserspaceRuntime::Bpftime));
    assert_eq!(pick_runtime(bpftime, 42, TlsProvider::OpenSsl, false), Some(UserspaceRuntime::Bpftime));
    assert_eq!(pick_runtime(bpftime, 0, TlsProvider::OpenSsl, true), Some(UserspaceRuntime::KernelUprobe));
    assert_eq!(pick_runtime(bpftime, 42, TlsProvider::Nss, true), Some(UserspaceRuntime::KernelUprobe));
    assert_eq!(pick_runtime(bpftime, 42, TlsProvider::Nss, false), None);
    assert_eq!(
        pick_runtime(UserspaceRuntime::KernelUprobe, 42, TlsProvider::OpenSsl, true),
        Some(UserspaceRuntime::KernelUprobe)
    );
    assert_eq!(pick_runtime(UserspaceRuntime::KernelUprobe, 42, TlsProvider::OpenSsl, false), None);
}

#[test]
fn plan_reports_capabilities_once_per_build_id_in_build_id_order() {
    let ssl = ["SSL_connect", "SSL_read"];
    let found = vec![
        (3, capability(TlsProvider::OpenSsl, "/lib/b/libssl.so.3", "bbbb", &ssl, true)),
        (4, capability(TlsProvider::OpenSsl, "/lib/a/libssl.so.3", "aaaa", &ssl, true)),
        (5, capability(TlsProvider::OpenSsl, "/lib/b2/libssl.so.3", "bbbb", &ssl, true)),
    ];
    let plan = attach_plan("process:3", tls(), &found, UserspaceRuntime::Bpftime, true);
    let ids: Vec<&str> = plan.capabilities.iter().map(|c| c.build_id.as_str()).collect();
    assert_eq!(ids, vec!["aaaa", "bbbb"]);
    assert_eq!(plan.capabilities[1].library, "/lib/b/libssl.so.3");
    let entries: Vec<(usize, u32)> = plan.attaches.iter().map(|a| (a.entry, a.pid)).collect();
    assert_eq!(entries, vec![(0, 3), (1, 4), (2, 5)]);
    assert!(plan.attaches.iter().all(|a| a.runtime == Some(UserspaceRuntime::Bpftime)));
    assert!(plan.errors.is_empty());
}

#[test]
fn plan_skips_unsupported_libraries_and_reports_those_without_a_catalog() {
    let found = vec![
        (9, capability(TlsProvider::OpenSsl, "/lib/libssl.so.3", "one", &["SSL_read"], false)),
        (9, capability(TlsProvider::OpenSsl, "/lib/libssl.so.1", "two", &["unrelated"], true)),
        (9, capability(TlsProvider::Nss, "/lib/libssl3.so", "three", &["SSL_ImportFD", "PR_Read"], true)),
    ];
    let plan = attach_plan("process:9", tls(), &found, UserspaceRuntime::Bpftime, false);
    assert_eq!(plan.capabilities.len(), 3);
    assert_eq!(plan.errors, vec!["OpenSSL at /lib/libssl.so.1 has no probe catalog".to_owned()]);
    assert_eq!(plan.attaches.len(), 1);
    assert_eq!(plan.attaches[0].entry, 2);
    assert_eq!(plan.attaches[0].runtime, None);
}

#[test]
fn recorded_errors_are_kept_once_and_the_newest_thirty_two_stay() {
    let mut errors = Vec::new();
    record_error(&mut errors, "a".to_owned());
    record_error(&mut errors, "b".to_owned());
    record_error(&mut errors, "a".to_owned());
    assert_eq!(errors, vec!["a".to_owned(), "b".to_owned()]);
    for i in 0..40 {
        record_error(&mut errors, format!("e{i}"));
    }
    assert_eq!(errors.len(), 32);
    assert_eq!(errors[0], "e8");
    assert_eq!(errors[31], "e39");
}

#[test]
fn coverage_needs_every_wanted_probe_and_no_other() {
    let record = |target: &str, probe: ProbeKind| ProbeAttachment {
        target: target.to_owned(),
        pid: 1,
        probe,
        hook: "SSL_read".to_owned(),
        runtime: UserspaceRuntime::KernelUprobe,
    };
    let plaintext = CaptureFeatures::from_modules([CaptureModule::Tls, CaptureModule::Plaintext]);
    let partial = vec![record("process:1", ProbeKind::Tls), record("process:2", ProbeKind::Plaintext)];
    assert!(!matches_features(&partial, "process:1", plaintext));
    assert!(matches_features(&partial, "process:1", tls()));
    let full = vec![record("process:1", ProbeKind::Tls), record("process:1", ProbeKind::Plaintext)];
    assert!(matches_features(&full, "process:1", plaintext));
    assert!(!matches_features(&full, "process:1", tls()));
    assert!(matches_features(&[].to_vec(), "process:1", CaptureFeatures::from_modules([CaptureModule::Dns])));
}

#[test]
fn kernel_records_name_the_hooked_function() {
    let plan = attach_plan("process:5", tls(), &dry_run_found("process:5", &vec![5]), UserspaceRuntime::KernelUprobe, true);
    let requests = &plan.attaches[0].requests;
    let attachments = kernel_attachments("process:5", 5, requests);
    for (attachment, (probe, spec)) in attachments.iter().zip(requests.iter()) {
        assert_eq!(attachment.hook, spec.function_name);
        assert_eq!(attachment.probe, *probe);
        assert_eq!(attachment.target, "process:5");
    }
}

#[test]
fn nspr_functions_are_hooked_in_the_nspr_library() {
    let mut nss = capability(TlsProvider::Nss, "/usr/lib/libssl3.so", "n", &["PR_Read"], true);
    assert_eq!(hook_library("SSL_ForceHandshake", &nss), Ok("/usr/lib/libssl3.so".to_owned()));
    assert_eq!(hook_library("PR_Read", &nss), Err("NSS provider is missing libnspr4.so".to_owned()));
    nss.auxiliary_libraries = vec!["/usr/lib/libplc4.so".to_owned(), "/usr/lib/libnspr4.so".to_owned()];
    assert_eq!(hook_library("PR_Read", &nss), Ok("/usr/lib/libnspr4.so".to_owned()));
}
