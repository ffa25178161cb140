use johari_mirror::glob::Pattern;
use johari_mirror::ledger::CountsMap;
use johari_mirror::ledger::RestartLedger;
use johari_mirror::rules::NotificationConfig;
use johari_mirror::rules::NotificationRule;
use johari_mirror::snapshot::ContainerStatusSnapshot;
use johari_mirror::snapshot::PodSnapshot;
use johari_mirror::throttle::is_skipped_interval;
use johari_mirror::watch::WatchEngine;
use johari_mirror::watch::WatchEvent;

fn pod(uid: &str, namespace: &str, name: &str, containers: Vec<(&str, i32)>) -> PodSnapshot {
    PodSnapshot {
        uid: uid.to_owned(),
        namespace: Some(namespace.to_owned()),
        name: name.to_owned(),
        node_name: None,
        containers: containers
            .into_iter()
            .map(|(cname, count)| ContainerStatusSnapshot {
                name: cname.to_owned(),
                image: "img".to_owned(),
                restart_count: count,
                last_termination: None,
            })
            .collect(),
        spec_containers: Vec::new(),
    }
}

#[test]
fn test_is_skipped_interval() {
    for count in 1..11 {
        assert!(!is_skipped_interval(count));
    }
    for count in 11..34 {
        assert!(is_skipped_interval(count));
    }
    assert!(!is_skipped_interval(34));
}

#[test]
fn test_notification_rule_parse() {
    assert_eq!(
        NotificationRule::from_str("foo/bar/baz=qux").unwrap(),
        NotificationRule {
            namespace: Pattern::new("foo"),
            pod: Pattern::new("bar"),
            container: Pattern::new("baz"),
            channel: Some("qux".to_owned()),
        }
    );
    assert_eq!(
        NotificationRule::from_str("foo/bar/baz=").unwrap(),
        NotificationRule {
            namespace: Pattern::new("foo"),
            pod: Pattern::new("bar"),
            container: Pattern::new("baz"),
            channel: None,
        }
    );
}

#[test]
fn test_notification_config_parse() {
    assert_eq!(
        NotificationConfig::from_str("foo/bar/baz=qux").unwrap(),
        NotificationConfig {
            rules: vec![NotificationRule {
                namespace: Pattern::new("foo"),
                pod: Pattern::new("bar"),
                container: Pattern::new("baz"),
                channel: Some("qux".to_owned()),
            }],
        }
    );
    assert_eq!(
        NotificationConfig::from_str("foo/bar/baz=qux,*/*/*=default").unwrap(),
        NotificationConfig {
            rules: vec![
                NotificationRule {
                    namespace: Pattern::new("foo"),
                    pod: Pattern::new("bar"),
                    container: Pattern::new("baz"),
                    channel: Some("qux".to_owned()),
                },
                NotificationRule {
                    namespace: Pattern::new("*"),
                    pod: Pattern::new("*"),
                    container: Pattern::new("*"),
                    channel: Some("default".to_owned()),
                },
            ],
        }
    );
}

#[test]
fn test_notification_config_find_channel() {
    let config = NotificationConfig::from_str("foo/bar/baz=qux,ignore/*/*=,foo/*/*=default")
        .unwrap();
    assert_eq!(config.find_channel("foo", "bar", "baz"), Some("qux".to_owned()));
    assert_eq!(config.find_channel("foo", "bar", "qux"), Some("default".to_owned()));
    assert_eq!(config.find_channel("ignore", "bar", "baz"), None);
    assert_eq!(config.find_channel("nomatch", "bar", "baz"), None);
}

#[test]
fn test_notification_rule_parse_rejects_malformed() {
    assert!(NotificationRule::from_str("foobar").is_err());
    assert!(NotificationRule::from_str("foo/bar=baz").is_err());
    assert!(NotificationRule::from_str("foo/bar/baz").is_err());
    assert!(NotificationConfig::from_str("foo/bar/baz=qux,broken").is_err());
    assert!(NotificationConfig::from_str("").is_err());
}

#[test]
fn test_glob_matching() {
    assert!(Pattern::new("*").matches(""));
    assert!(Pattern::new("*").matches("anything"));
    assert!(Pattern::new("foo").matches("foo"));
    assert!(!Pattern::new("foo").matches("food"));
    assert!(!Pattern::new("bar").matches("foobar"));
    assert!(Pattern::new("foo*bar").matches("foobar"));
    assert!(Pattern::new("foo*bar").matches("foo-middle-bar"));
    assert!(!Pattern::new("foo*bar").matches("foo-bar-baz"));
    assert!(Pattern::new("*-suffix").matches("any-suffix"));
    assert!(!Pattern::new("Foo").matches("foo"));
}

#[test]
fn test_ledger_new_vs_update() {
    let config = NotificationConfig::from_str("*/*/*=chan").unwrap();
    let mut engine = WatchEngine::new(config);
    // A previously-unseen identity records its counts and emits no alert,
    // even for a nonzero count.
    let alerts = engine.handle_event(WatchEvent::Apply(pod("u1", "ns", "p1", vec![("app", 3)])));
    assert!(alerts.is_empty());
    // A higher count for an already-tracked container emits exactly one
    // alert when not throttled.
    let alerts = engine.handle_event(WatchEvent::Apply(pod("u1", "ns", "p1", vec![("app", 4)])));
    assert_eq!(alerts.len(), 1);
    assert_eq!(alerts[0].container.name, "app");
    assert_eq!(alerts[0].container.restart_count, 4);
    assert_eq!(alerts[0].channel, "chan");
    // An equal count is no restart: no alert.
    let alerts = engine.handle_event(WatchEvent::Apply(pod("u1", "ns", "p1", vec![("app", 4)])));
    assert!(alerts.is_empty());
    // A throttled jump updates the ledger but emits nothing; reporting the
    // same count again stays silent, which shows the update happened.
    let alerts = engine.handle_event(WatchEvent::Apply(pod("u1", "ns", "p1", vec![("app", 12)])));
    assert!(alerts.is_empty());
    let alerts = engine.handle_event(WatchEvent::Apply(pod("u1", "ns", "p1", vec![("app", 12)])));
    assert!(alerts.is_empty());
    // The next unthrottled count alerts again.
    let alerts = engine.handle_event(WatchEvent::Apply(pod("u1", "ns", "p1", vec![("app", 34)])));
    assert_eq!(alerts.len(), 1);
}

#[test]
fn test_deletion_clears_state() {
    let config = NotificationConfig::from_str("*/*/*=chan").unwrap();
    let mut engine = WatchEngine::new(config);
    assert!(engine
        .handle_event(WatchEvent::Apply(pod("u1", "ns", "p1", vec![("app", 1)])))
        .is_empty());
    assert!(engine
        .handle_event(WatchEvent::Delete(pod("u1", "ns", "p1", vec![("app", 1)])))
        .is_empty());
    assert!(!engine.ledger.contains(&"u1".to_owned()));
    // An instance reusing the identity is brand-new: no alert for its
    // current counts.
    let alerts = engine.handle_event(WatchEvent::Apply(pod("u1", "ns", "p1", vec![("app", 7)])));
    assert!(alerts.is_empty());
}

#[test]
fn test_init_reseeds_ledger() {
    let config = NotificationConfig::from_str("*/*/*=chan").unwrap();
    let mut engine = WatchEngine::new(config);
    assert!(engine
        .handle_event(WatchEvent::Apply(pod("u1", "ns", "p1", vec![("app", 2)])))
        .is_empty());
    assert!(engine.handle_event(WatchEvent::Init).is_empty());
    assert!(!engine.ledger.contains(&"u1".to_owned()));
    // InitApply seeds silently with current counts.
    assert!(engine
        .handle_event(WatchEvent::InitApply(pod("u1", "ns", "p1", vec![("app", 5)])))
        .is_empty());
    assert!(engine.handle_event(WatchEvent::InitDone).is_empty());
    // No increase relative to the seeded count: silent.
    assert!(engine
        .handle_event(WatchEvent::Apply(pod("u1", "ns", "p1", vec![("app", 5)])))
        .is_empty());
    // An increase alerts.
    let alerts = engine.handle_event(WatchEvent::Apply(pod("u1", "ns", "p1", vec![("app", 6)])));
    assert_eq!(alerts.len(), 1);
}

#[test]
fn test_router_skips_unrouted_containers() {
    let config = NotificationConfig::from_str("ns/*/app=chan,ns/*/quiet=").unwrap();
    let mut engine = WatchEngine::new(config);
    let initial = pod("u1", "ns", "p1", vec![("app", 1), ("quiet", 1), ("other", 1)]);
    assert!(engine.handle_event(WatchEvent::Apply(initial)).is_empty());
    let bumped = pod("u1", "ns", "p1", vec![("app", 2), ("quiet", 2), ("other", 2)]);
    let alerts = engine.handle_event(WatchEvent::Apply(bumped));
    assert_eq!(alerts.len(), 1);
    assert_eq!(alerts[0].container.name, "app");
}

#[test]
fn test_counts_map_operations() {
    let mut counts = CountsMap::new();
    let app = "app".to_owned();
    let side = "side".to_owned();
    assert_eq!(counts.get(&app), None);
    counts.record(&app, 2);
    counts.record(&side, 5);
    assert_eq!(counts.get(&app), Some(2));
    assert_eq!(counts.get(&side), Some(5));
    counts.record(&app, 3);
    assert_eq!(counts.get(&app), Some(3));
    let copy = counts.duplicate();
    assert_eq!(copy.get(&app), Some(3));
    assert_eq!(copy.get(&side), Some(5));
}

#[test]
fn test_restart_ledger_operations() {
    let mut ledger = RestartLedger::new();
    let u1 = "u1".to_owned();
    let u2 = "u2".to_owned();
    let app = "app".to_owned();
    assert!(!ledger.contains(&u1));
    let mut counts = CountsMap::new();
    counts.record(&app, 1);
    ledger.insert(&u1, counts);
    ledger.insert(&u2, CountsMap::new());
    assert!(ledger.contains(&u1));
    assert_eq!(ledger.count_of(&u1, &app), Some(1));
    assert_eq!(ledger.count_of(&u2, &app), None);
    ledger.update(&u1, &app, 4);
    assert_eq!(ledger.count_of(&u1, &app), Some(4));
    ledger.remove(&u1);
    assert!(!ledger.contains(&u1));
    assert!(ledger.contains(&u2));
    ledger.clear();
    assert!(!ledger.contains(&u2));
}

#[test]
fn test_ledger_get_or_init() {
    let mut ledger = RestartLedger::new();
    let u1 = "u1".to_owned();
    let app = "app".to_owned();
    let mut current = CountsMap::new();
    current.record(&app, 2);
    // Absent identity: seeded with the given counts.
    let (is_new, seeded) = ledger.get_or_init(&u1, current);
    assert!(is_new);
    assert_eq!(seeded.get(&app), Some(2));
    assert_eq!(ledger.count_of(&u1, &app), Some(2));
    // Tracked identity: untouched, the prior counts come back.
    let mut other = CountsMap::new();
    other.record(&app, 9);
    let (is_new, previous) = ledger.get_or_init(&u1, other);
    assert!(!is_new);
    assert_eq!(previous.get(&app), Some(2));
    assert_eq!(ledger.count_of(&u1, &app), Some(2));
}
