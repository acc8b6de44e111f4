use tracelens::dns::{DnsCache, DnsTracker};

#[test]
fn entries_expire_and_reverse_lookup_addresses() {
    let mut cache = DnsCache::default();
    cache.insert(
        "example.com",
        vec!["93.184.216.34".to_owned()],
        2,
        1_000_000_000,
    );

    assert_eq!(
        cache.domain_for_address("93.184.216.34", 1_999_999_999),
        Some("example.com".to_owned())
    );
    assert!(cache.lookup("example.com", 3_000_000_001).is_none());
    assert!(cache
        .domain_for_address("93.184.216.34", 3_000_000_001)
        .is_none());
}

#[test]
fn ignores_future_entries_and_prefers_process_scoped_mapping() {
    let mut cache = DnsCache::default();
    cache.insert_for_process(
        Some(10),
        "first.example",
        vec!["198.19.0.116".to_owned()],
        60,
        10,
    );
    cache.insert_for_process(
        Some(11),
        "second.example",
        vec!["198.19.0.116".to_owned()],
        60,
        20,
    );

    assert_eq!(
        cache.domain_for_process_address(10, "198.19.0.116", 15),
        Some("first.example".to_owned())
    );
    assert_eq!(
        cache.domain_for_process_address(11, "198.19.0.116", 25),
        Some("second.example".to_owned())
    );
    assert_eq!(
        cache.domain_for_process_address(12, "198.19.0.116", 15),
        None
    );
}

#[test]
fn empty_response_invalidates_the_previous_mapping() {
    let mut cache = DnsCache::default();
    cache.insert_for_process(
        Some(10),
        "example.test",
        vec!["203.0.113.7".to_owned()],
        60,
        1,
    );
    cache.insert_for_process(Some(10), "example.test", Vec::new(), 60, 2);

    assert!(cache
        .domain_for_process_address(10, "203.0.113.7", 3)
        .is_none());
}

#[test]
fn newest_answer_wins_and_unscoped_answers_are_the_fallback() {
    let mut cache = DnsCache::default();
    cache.insert("old.example", vec!["10.0.0.1".to_owned()], 60, 5);
    cache.insert("new.example", vec!["10.0.0.1".to_owned()], 60, 7);
    assert_eq!(cache.domain_for_address("10.0.0.1", 8), Some("new.example".to_owned()));
    assert_eq!(cache.domain_for_unscoped_address("10.0.0.1", 8), Some("new.example".to_owned()));
    assert_eq!(
        cache.domain_for_process_address(99, "10.0.0.1", 8),
        Some("new.example".to_owned())
    );
    assert_eq!(cache.lookup("old.example", 6), Some(&["10.0.0.1".to_owned()][..]));
    assert_eq!(cache.lookup_for_process(1, "old.example", 6), None);
    let mut domains: Vec<String> = cache.domains(8).collect();
    domains.sort();
    assert_eq!(domains, vec!["new.example".to_owned(), "old.example".to_owned()]);
}

#[test]
fn tracker_prunes_expired_answers_on_each_response() {
    let mut tracker = DnsTracker::default();
    tracker.observe_response("a.example", vec!["1.1.1.1".to_owned()], 1, 0);
    tracker.observe_response_for_process(4, "b.example", vec!["2.2.2.2".to_owned()], 60, 2_000_000_000);
    assert_eq!(tracker.domain_for_address("1.1.1.1", 2_000_000_000), None);
    assert!(tracker.cache().lookup("a.example", 0).is_none());
    assert_eq!(
        tracker.domain_for_process_address(4, "2.2.2.2", 2_000_000_001),
        Some("b.example".to_owned())
    );
    assert_eq!(tracker.domain_for_unscoped_address("2.2.2.2", 2_000_000_001), None);
    assert_eq!(tracker.domains(2_000_000_001).count(), 1);
}

#[test]
fn pruning_keeps_every_answer_still_in_force() {
    let mut cache = DnsCache::default();
    cache.insert_for_process(Some(7), "short.example", vec!["10.0.0.1".to_owned()], 1, 0);
    cache.insert_for_process(Some(7), "long.example", vec!["10.0.0.2".to_owned()], 10, 0);
    cache.insert("long.example", vec!["10.0.0.3".to_owned()], 10, 0);
    let later = 5_000_000_000;
    let before = (
        cache.lookup_for_process(7, "long.example", later).map(|a| a.to_vec()),
        cache.lookup("long.example", later).map(|a| a.to_vec()),
        cache.domain_for_process_address(7, "10.0.0.2", later),
    );
    cache.prune(2_000_000_000);
    let after = (
        cache.lookup_for_process(7, "long.example", later).map(|a| a.to_vec()),
        cache.lookup("long.example", later).map(|a| a.to_vec()),
        cache.domain_for_process_address(7, "10.0.0.2", later),
    );
    assert_eq!(before, after);
    assert!(cache.lookup_for_process(7, "short.example", 500_000_000).is_none());
    cache.prune(2_000_000_000);
    assert_eq!(cache.lookup_for_process(7, "long.example", later), Some(&["10.0.0.2".to_owned()][..]));
}

#[test]
fn a_process_lookup_follows_its_latest_answer() {
    let mut cache = DnsCache::default();
    cache.insert_for_process(Some(7), "a.example", vec!["10.0.0.1".to_owned()], 10, 0);
    cache.insert_for_process(Some(7), "a.example", vec!["10.0.0.9".to_owned()], 10, 1_000);
    cache.insert_for_process(Some(8), "a.example", vec!["10.0.0.5".to_owned()], 10, 2_000);
    cache.insert("a.example", vec!["10.0.0.6".to_owned()], 10, 3_000);
    assert_eq!(cache.lookup_for_process(7, "a.example", 5_000), Some(&["10.0.0.9".to_owned()][..]));
    assert!(cache.lookup_for_process(7, "a.example", 500).is_none());
    assert!(cache.lookup_for_process(9, "a.example", 5_000).is_none());
    cache.insert_for_process(Some(7), "a.example", vec![], 10, 6_000);
    assert!(cache.lookup_for_process(7, "a.example", 7_000).is_none());
}

#[test]
fn ties_between_equally_new_answers_settle_the_same_way_after_a_prune() {
    let mut cache = DnsCache::default();
    cache.insert_for_process(Some(1), "old.example", vec!["10.0.0.9".to_owned()], 1, 0);
    cache.insert_for_process(Some(1), "tie.example", vec!["10.0.0.1".to_owned()], 10, 100);
    cache.insert_for_process(Some(2), "tie.example", vec!["10.0.0.2".to_owned()], 10, 100);
    cache.insert_for_process(Some(3), "other.example", vec!["10.0.0.1".to_owned()], 10, 100);
    let later = 5_000_000_000;
    let before = (
        cache.lookup("tie.example", later).map(|a| a.to_vec()),
        cache.domain_for_address("10.0.0.1", later),
    );
    assert_eq!(before.0, Some(vec!["10.0.0.2".to_owned()]));
    assert_eq!(before.1.as_deref(), Some("other.example"));
    cache.prune(2_000_000_000);
    let after = (
        cache.lookup("tie.example", later).map(|a| a.to_vec()),
        cache.domain_for_address("10.0.0.1", later),
    );
    assert_eq!(before, after);
}
