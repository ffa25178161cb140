use johari_mirror::message::build_container_stats;
use johari_mirror::message::format_name;
use johari_mirror::message::i32_string;
use johari_mirror::message::suffix;
use johari_mirror::message::ContainerLog;
use johari_mirror::message::ContainerResources;
use johari_mirror::message::ContainerState;
use johari_mirror::rules::NotificationConfig;
use johari_mirror::snapshot::ContainerSpecSnapshot;
use johari_mirror::snapshot::ContainerStatusSnapshot;
use johari_mirror::snapshot::PodSnapshot;
use johari_mirror::watch::build_restart_info;
use johari_mirror::watch::WatchEngine;
use johari_mirror::watch::WatchEvent;

#[test]
fn test_suffix() {
    assert_eq!(suffix("hello", 6), "hello");
    assert_eq!(suffix("hello", 5), "hello");
    assert_eq!(suffix("hello", 4), "ello");
    assert_eq!(suffix("hello", 3), "llo");
    assert_eq!(suffix("hello", 2), "lo");
    assert_eq!(suffix("hello", 1), "o");
    assert_eq!(suffix("hello", 0), "");
}

#[test]
fn test_suffix_multibyte() {
    assert_eq!(suffix("こんにちは", 6), "こんにちは");
    assert_eq!(suffix("こんにちは", 5), "こんにちは");
    assert_eq!(suffix("こんにちは", 4), "んにちは");
    assert_eq!(suffix("こんにちは", 3), "にちは");
    assert_eq!(suffix("こんにちは", 2), "ちは");
    assert_eq!(suffix("こんにちは", 1), "は");
    assert_eq!(suffix("こんにちは", 0), "");
}

#[test]
fn test_i32_string() {
    assert_eq!(i32_string(0), "0");
    assert_eq!(i32_string(7), "7");
    assert_eq!(i32_string(42), "42");
    assert_eq!(i32_string(1000), "1000");
    assert_eq!(i32_string(-1), "-1");
    assert_eq!(i32_string(-137), "-137");
    assert_eq!(i32_string(i32::MAX), "2147483647");
    assert_eq!(i32_string(i32::MIN), "-2147483648");
}

#[test]
fn test_format_name() {
    assert_eq!(format_name(&Some("web".to_owned())), "`web`");
    assert_eq!(format_name(&None), "unknown");
}

#[test]
fn test_container_stats_lines() {
    let bare = build_container_stats(2, &None);
    assert_eq!(bare, vec!["Restart Count: `2`".to_owned()]);
    let state = ContainerState {
        exit_code: 137,
        signal: Some(9),
        reason: Some("OOMKilled".to_owned()),
        message: None,
        started_at: Some("2024-01-01T00:00:00+00:00".to_owned()),
        finished_at: None,
    };
    let full = build_container_stats(3, &Some(state));
    assert_eq!(
        full,
        vec![
            "Restart Count: `3`".to_owned(),
            " ".to_owned(),
            "Exit Code: `137`".to_owned(),
            "Signal: `9`".to_owned(),
            "Reason: `OOMKilled`".to_owned(),
            "Message: unknown".to_owned(),
            "Started at: `2024-01-01T00:00:00+00:00`".to_owned(),
            "Finished at: unknown".to_owned(),
        ]
    );
}

#[test]
fn test_resources_lines() {
    let empty = ContainerResources { limits: Vec::new(), requests: Vec::new() };
    assert_eq!(empty.to_message(), vec!["No resource limits or requests".to_owned()]);
    let some = ContainerResources {
        limits: vec![("cpu".to_owned(), "2".to_owned()), ("memory".to_owned(), "1Gi".to_owned())],
        requests: vec![("memory".to_owned(), "512Mi".to_owned())],
    };
    assert_eq!(
        some.to_message(),
        vec![
            "cpu limit: `2`".to_owned(),
            "memory limit: `1Gi`".to_owned(),
            "memory request: `512Mi`".to_owned(),
        ]
    );
}

#[test]
fn test_log_message_variants() {
    let empty = ContainerLog(Ok(String::new()));
    assert_eq!(empty.to_message(&None), "*Container logs before restart*\n(empty)");
    let failed = ContainerLog(Err("timeout elapsed".to_owned()));
    assert_eq!(failed.to_message(&None), "Failed to get container logs: timeout elapsed");
    let short = ContainerLog(Ok("line one\nline two".to_owned()));
    assert_eq!(
        short.to_message(&Some("https://files.example/f1".to_owned())),
        "<https://files.example/f1|*Container logs before restart*>\n```\nline one\nline two\n```"
    );
}

#[test]
fn test_tail_lines_limits() {
    // More lines than the summary keeps: only the last 20 remain.
    let many: Vec<String> = (0..25).map(|i| format!("line {}", i)).collect();
    let joined = many.join("\n");
    let tail = ContainerLog::tail_lines(&joined);
    let kept: Vec<&str> = tail.lines().collect();
    assert_eq!(kept.len(), 20);
    assert_eq!(kept[0], "line 5");
    assert_eq!(kept[19], "line 24");
    // Windows-style line endings lose their carriage returns.
    assert_eq!(ContainerLog::tail_lines("a\r\nb\r\n"), "a\nb");
    // A trailing newline adds no empty line.
    assert_eq!(ContainerLog::tail_lines("a\nb\n"), "a\nb");
    // Few long lines: the character limit cuts from the front.
    let long = "x".repeat(3000);
    let tail = ContainerLog::tail_lines(&long);
    assert_eq!(tail.chars().count(), 2800);
    // Multi-byte text is truncated on character boundaries.
    let wide = "あ".repeat(2900);
    let tail = ContainerLog::tail_lines(&wide);
    assert_eq!(tail.chars().count(), 2800);
    assert!(tail.chars().all(|c| c == 'あ'));
}

#[test]
fn test_end_to_end_scenario() {
    let config = NotificationConfig::from_str("ns1/*/*=alerts").unwrap();
    let mut engine = WatchEngine::new(config);
    let instance = |count: i32| PodSnapshot {
        uid: "uid-pod1".to_owned(),
        namespace: Some("ns1".to_owned()),
        name: "pod1".to_owned(),
        node_name: Some("node-a".to_owned()),
        containers: vec![ContainerStatusSnapshot {
            name: "app".to_owned(),
            image: "app:1.0".to_owned(),
            restart_count: count,
            last_termination: None,
        }],
        spec_containers: Vec::new(),
    };
    // Newly observed at restart count 1: no alert.
    assert!(engine.handle_event(WatchEvent::Apply(instance(1))).is_empty());
    // Reported again at count 2: prior count 1 < 2, throttle notifies,
    // the router resolves channel `alerts`.
    let applied = instance(2);
    let alerts = engine.handle_event(WatchEvent::Apply(instance(2)));
    assert_eq!(alerts.len(), 1);
    assert_eq!(alerts[0].channel, "alerts");
    let info = build_restart_info(
        &applied,
        &alerts[0].container,
        alerts[0].channel.clone(),
        ContainerLog(Ok(String::new())),
    );
    assert_eq!(info.restart_count, 2);
    assert_eq!(info.namespace.as_deref(), Some("ns1"));
    assert_eq!(info.pod_name, "pod1");
    assert_eq!(info.container_name, "app");
    assert_eq!(info.channel, "alerts");
    assert_eq!(info.logs.to_message(&None), "*Container logs before restart*\n(empty)");
    assert_eq!(
        info.identity_text(),
        "Namespace: `ns1`\nPod: `pod1`\nContainer Name: `app`\nContainer Image: `app:1.0`"
    );
    assert_eq!(info.display_line(), "ns1/pod1 - app");
}

#[test]
fn test_build_restart_info_resources() {
    let pod = PodSnapshot {
        uid: "u1".to_owned(),
        namespace: None,
        name: "p1".to_owned(),
        node_name: None,
        containers: vec![ContainerStatusSnapshot {
            name: "app".to_owned(),
            image: "img".to_owned(),
            restart_count: 1,
            last_termination: Some(ContainerState {
                exit_code: 1,
                signal: None,
                reason: Some("Error".to_owned()),
                message: None,
                started_at: None,
                finished_at: None,
            }),
        }],
        spec_containers: vec![
            ContainerSpecSnapshot { name: "other".to_owned(), resources: None },
            ContainerSpecSnapshot {
                name: "app".to_owned(),
                resources: Some(ContainerResources {
                    limits: vec![("cpu".to_owned(), "1".to_owned())],
                    requests: Vec::new(),
                }),
            },
        ],
    };
    let info = build_restart_info(
        &pod,
        &pod.containers[0],
        "chan".to_owned(),
        ContainerLog(Err("boom".to_owned())),
    );
    assert_eq!(info.resources.limits, vec![("cpu".to_owned(), "1".to_owned())]);
    assert!(info.resources.requests.is_empty());
    assert_eq!(info.last_state.as_ref().unwrap().exit_code, 1);
    assert_eq!(info.last_state.as_ref().unwrap().reason.as_deref(), Some("Error"));
    assert_eq!(info.logs.to_message(&None), "Failed to get container logs: boom");
    assert_eq!(info.display_line(), "/p1 - app");
}
