use johari_mirror::delivery::response_ok;
use johari_mirror::delivery::trim_end;
use johari_mirror::delivery::upload_plan;
use johari_mirror::message::ContainerLog;
use johari_mirror::message::ContainerResources;
use johari_mirror::message::ContainerRestartInfo;

fn info(namespace: Option<&str>, logs: Result<&str, &str>) -> ContainerRestartInfo {
    ContainerRestartInfo {
        namespace: namespace.map(|s| s.to_owned()),
        pod_name: "pod1".to_owned(),
        container_name: "app".to_owned(),
        container_image: "img".to_owned(),
        node_name: None,
        restart_count: 2,
        last_state: None,
        resources: ContainerResources { limits: Vec::new(), requests: Vec::new() },
        logs: ContainerLog(match logs {
            Ok(l) => Ok(l.to_owned()),
            Err(e) => Err(e.to_owned()),
        }),
        channel: "chan".to_owned(),
    }
}

#[test]
fn test_trim_end() {
    assert_eq!(trim_end("hello \n\t "), "hello");
    assert_eq!(trim_end("  hello"), "  hello");
    assert_eq!(trim_end(" \n "), "");
    assert_eq!(trim_end(""), "");
    assert_eq!(trim_end("log line\u{a0}\u{3000}"), "log line");
}

#[test]
fn test_upload_plan() {
    // Non-blank logs are uploaded, trimmed, under namespace_pod_container.
    let plan = upload_plan(&info(Some("ns1"), Ok("some log\n"))).unwrap();
    assert_eq!(plan.0, "some log");
    assert_eq!(plan.1, "ns1_pod1_app");
    // A missing namespace leaves its slot empty.
    let plan = upload_plan(&info(None, Ok("x"))).unwrap();
    assert_eq!(plan.1, "_pod1_app");
    // Blank logs and failed fetches upload nothing.
    assert!(upload_plan(&info(Some("ns1"), Ok(""))).is_none());
    assert!(upload_plan(&info(Some("ns1"), Ok(" \n \n"))).is_none());
    assert!(upload_plan(&info(Some("ns1"), Err("timeout elapsed"))).is_none());
}

#[test]
fn test_response_ok_flag() {
    assert!(response_ok(Some(true)));
    assert!(!response_ok(Some(false)));
    assert!(!response_ok(None));
}
