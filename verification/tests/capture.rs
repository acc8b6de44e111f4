use tracelens::capture::{CaptureFeatures, CaptureModule, CapturePlan, CaptureProfile, CaptureScope, CaptureState};

#[test]
fn profiles_expand_to_stable_feature_sets() {
    let network = CapturePlan::resolve(CaptureScope::Global, CaptureProfile::Network, None)
        .expect("network profile");
    assert!(network.effective.contains(CaptureModule::Dns));
    assert!(!network.effective.contains(CaptureModule::Files));
    assert!(!network.effective.contains(CaptureModule::Tls));
    assert_eq!(network.probes.expected_kernel_links, 18);
    assert_eq!(network.probes.kernel_objects, ["process.o", "network.o"]);

    let security = CapturePlan::resolve(CaptureScope::Global, CaptureProfile::Security, None)
        .expect("security profile");
    assert!(security.effective.contains(CaptureModule::Files));
    assert!(!security.effective.contains(CaptureModule::Http));
    assert_eq!(security.probes.expected_kernel_links, 19);
}

#[test]
fn dependencies_are_closed_without_enabling_files() {
    let requested = CaptureFeatures::from_modules([CaptureModule::Http]);
    let plan = CapturePlan::resolve(
        CaptureScope::Process(42),
        CaptureProfile::Custom,
        Some(requested),
    )
    .expect("custom HTTP plan");
    assert!(plan.effective.contains(CaptureModule::Process));
    assert!(plan.effective.contains(CaptureModule::Connections));
    assert!(plan.effective.contains(CaptureModule::Tls));
    assert!(plan.effective.contains(CaptureModule::Http));
    assert!(!plan.effective.contains(CaptureModule::Plaintext));
    assert!(!plan.effective.contains(CaptureModule::Files));
}

#[test]
fn legacy_levels_translate_only_at_the_compatibility_boundary() {
    let l4 = CaptureFeatures::legacy_level(4).expect("legacy L4");
    assert!(l4.contains(CaptureModule::Http));
    assert!(!l4.contains(CaptureModule::Plaintext));
    let l5 = CaptureFeatures::legacy_level(5).expect("legacy L5");
    assert!(l5.contains(CaptureModule::Http));
    assert!(l5.contains(CaptureModule::Plaintext));
    assert!(CaptureFeatures::legacy_level(6).is_none());
}

#[test]
fn closure_is_idempotent_on_a_concrete_set() {
    let once = CaptureFeatures::from_modules([CaptureModule::Plaintext]).dependency_closure();
    let twice = once.dependency_closure();
    assert!(once.same_as(twice));
    assert!(once.contains(CaptureModule::Tls));
    assert!(once.contains(CaptureModule::Process));
}

#[test]
fn custom_profile_without_features_is_refused() {
    assert!(CapturePlan::resolve(CaptureScope::Global, CaptureProfile::Custom, None).is_err());
    assert!(CapturePlan::resolve(
        CaptureScope::Global,
        CaptureProfile::Custom,
        Some(CaptureFeatures::none())
    )
    .is_err());
}

#[test]
fn scopes_and_states_render_as_text() {
    assert_eq!(CaptureScope::Process(42).to_string(), "process:42");
    assert_eq!(CaptureScope::Global.to_string(), "global");
    assert_eq!(CaptureScope::ProcessName("curl".to_owned()).to_string(), "process-name:curl");
    assert_eq!(CaptureState::Capturing.to_string(), "capturing");
}

#[test]
fn network_plan_equals_the_resolved_network_profile() {
    let plan = CapturePlan::network(CaptureScope::Global);
    assert_eq!(plan, CapturePlan::resolve(CaptureScope::Global, CaptureProfile::Network, None).unwrap());
    assert!(plan.effective.contains(CaptureModule::Dns));
    assert!(!plan.effective.contains(CaptureModule::Files));
    assert!(!plan.effective.contains(CaptureModule::Tls));
    assert_eq!(plan.probes.expected_kernel_links, 18);
    assert_eq!(plan.probes.kernel_objects, ["process.o", "network.o"]);
    assert!(plan.probes.userspace_probes.is_empty());
    assert!(plan.warnings.is_empty());
}
