use std::str::FromStr;
use tracelens::observation::{ObservationLevel, ObservationManager, ObservationRequest, ObservationTarget};

const SECOND: u64 = 1_000_000_000;

#[test]
fn target_can_be_escalated_and_downgraded() {
    let target = ObservationTarget::Process(1234);
    let mut manager = ObservationManager::default();

    assert_eq!(manager.current_level(&target), ObservationLevel::L1);

    manager.apply(ObservationRequest {
        target: target.clone(),
        level: ObservationLevel::L5,
        duration_secs: Some(300),
    });
    assert_eq!(manager.current_level(&target), ObservationLevel::L5);

    manager.downgrade(&target);
    assert_eq!(manager.current_level(&target), ObservationLevel::L1);
}

#[test]
fn expired_session_returns_to_default_and_is_swept() {
    let target = ObservationTarget::Connection("socket-1".to_owned());
    let mut manager = ObservationManager::default();
    let start: u64 = 1_000 * SECOND;
    manager.upgrade_at(target.clone(), ObservationLevel::L3, Some(5), start);

    assert_eq!(
        manager.current_level_at(&target, start + 4 * SECOND),
        ObservationLevel::L3
    );
    assert_eq!(
        manager.current_level_at(&target, start + 5 * SECOND),
        ObservationLevel::L1
    );
    assert_eq!(
        manager.sweep_expired_at(start + 5 * SECOND),
        vec![(target, ObservationLevel::L1)]
    );
    assert!(manager.active_targets().next().is_none());
}

#[test]
fn upgrades_do_not_lower_an_active_session() {
    let target = ObservationTarget::Process(42);
    let mut manager = ObservationManager::default();
    manager.upgrade(target.clone(), ObservationLevel::L5, Some(30));
    assert_eq!(
        manager.upgrade(target.clone(), ObservationLevel::L3, Some(30)),
        ObservationLevel::L5
    );
    assert_eq!(manager.current_level(&target), ObservationLevel::L5);
}

#[test]
fn global_default_is_used_for_all_targets_and_keeps_higher_overrides() {
    let process = ObservationTarget::Process(42);
    let mut manager = ObservationManager::new(ObservationLevel::L1);
    manager.set_default_level(ObservationLevel::L4);
    assert_eq!(manager.current_level(&process), ObservationLevel::L4);

    manager.upgrade(process.clone(), ObservationLevel::L5, Some(30));
    manager.set_default_level(ObservationLevel::L3);
    assert_eq!(manager.current_level(&process), ObservationLevel::L5);

    manager.set_default_level(ObservationLevel::L5);
    assert_eq!(manager.current_level(&process), ObservationLevel::L5);
    assert!(manager.statuses().is_empty());
}

#[test]
fn parses_process_name_targets() {
    let target = ObservationTarget::from_str("process-name:curl").expect("target");
    assert_eq!(target, ObservationTarget::ProcessName("curl".to_owned()));
    assert_eq!(target.to_string(), "process-name:curl");
}

#[test]
fn rejects_malformed_targets() {
    assert!(ObservationTarget::parse("process:abc").is_err());
    assert!(ObservationTarget::parse("nothing").is_err());
    assert_eq!(ObservationTarget::parse("process:7"), Ok(ObservationTarget::Process(7)));
}

#[test]
fn apply_then_read_gives_the_requested_level_until_expiry() {
    let target = ObservationTarget::Process(9);
    let mut manager = ObservationManager::new(ObservationLevel::L2);
    manager.apply_at(
        ObservationRequest { target: target.clone(), level: ObservationLevel::L4, duration_secs: Some(2) },
        10 * SECOND,
    );
    assert_eq!(manager.current_level_at(&target, 11 * SECOND), ObservationLevel::L4);
    assert_eq!(manager.current_level_at(&target, 12 * SECOND), ObservationLevel::L2);
    assert_eq!(manager.downgrade_to_default(&target), ObservationLevel::L2);
}

#[test]
fn levels_round_trip_through_numbers() {
    assert_eq!(ObservationLevel::from_number(3), Some(ObservationLevel::L3));
    assert_eq!(ObservationLevel::from_number(6), None);
    assert_eq!(ObservationLevel::L5.number(), 5);
    assert_eq!(ObservationLevel::L2.max(ObservationLevel::L4), ObservationLevel::L4);
}

#[test]
fn target_text_parses_back_to_the_same_target() {
    for target in [
        ObservationTarget::Process(1),
        ObservationTarget::Process(4_294_967_295),
        ObservationTarget::ProcessName("curl".to_owned()),
        ObservationTarget::Connection("10.0.0.1:443:tcp".to_owned()),
        ObservationTarget::Domain("example.com".to_owned()),
    ] {
        assert_eq!(ObservationTarget::parse(&target.to_string()), Ok(target));
    }
    assert!(ObservationTarget::parse(&ObservationTarget::Process(0).to_string()).is_err());
}

#[test]
fn statuses_list_each_unexpired_target_once() {
    let mut manager = ObservationManager::default();
    let a = ObservationTarget::Process(10);
    let b = ObservationTarget::Domain("example.com".to_owned());
    manager.upgrade_at(a.clone(), ObservationLevel::L3, Some(5), 0);
    manager.upgrade_at(a.clone(), ObservationLevel::L4, Some(5), 0);
    manager.upgrade_at(b.clone(), ObservationLevel::L2, None, 0);
    let statuses = manager.statuses();
    assert_eq!(statuses.len(), 2);
    assert_ne!(statuses[0].target, statuses[1].target);
}
