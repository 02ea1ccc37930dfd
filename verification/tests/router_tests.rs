use kairos_proxy::codec::{parse_backend_results, parse_query_request};
use kairos_proxy::config::Backend;
use kairos_proxy::dispatch::build_split_plan;
use kairos_proxy::errors::GatewayError;
use kairos_proxy::merge::merge_results;
use kairos_proxy::registry::Registry;
use kairos_proxy::router::resolve_single_target;

fn cpu_mem_registry() -> Registry {
    let backends = vec![
        Backend {
            pattern: "^cpu\\.".to_string(),
            url: "http://127.0.0.1:9001".to_string(),
            token: None,
        },
        Backend {
            pattern: "^mem\\.".to_string(),
            url: "http://127.0.0.1:9002".to_string(),
            token: None,
        },
    ];
    Registry::from_backends(&backends).expect("registry should build")
}

#[test]
fn split_mode_builds_one_subrequest_per_matched_backend() {
    // registry = [^cpu\. -> A, ^mem\. -> B], metrics [cpu.x, mem.y]:
    // two outbound calls, A gets [cpu.x], B gets [mem.y]
    let reg = cpu_mem_registry();
    let body = br#"{"start": 123, "metrics": [{"name": "cpu.x"}, {"name": "mem.y"}]}"#;
    let req = parse_query_request(body).expect("request should parse");
    let plan = build_split_plan(&req, &reg).expect("plan should build");
    assert_eq!(plan.len(), 2, "two matched backends, two sub-requests");
    assert_eq!(plan[0].backend, 0);
    assert_eq!(plan[1].backend, 1);

    let a: serde_json::Value = serde_json::from_slice(&plan[0].body).expect("payload A");
    let b: serde_json::Value = serde_json::from_slice(&plan[1].body).expect("payload B");
    let a_names: Vec<&str> = a["metrics"]
        .as_array()
        .unwrap()
        .iter()
        .map(|m| m["name"].as_str().unwrap())
        .collect();
    let b_names: Vec<&str> = b["metrics"]
        .as_array()
        .unwrap()
        .iter()
        .map(|m| m["name"].as_str().unwrap())
        .collect();
    assert_eq!(a_names, vec!["cpu.x"]);
    assert_eq!(b_names, vec!["mem.y"]);
    // every non-metrics top-level field rides along unmodified
    assert_eq!(a["start"], serde_json::Value::from(123));
    assert_eq!(b["start"], serde_json::Value::from(123));
}

#[test]
fn split_and_merge_scenario() {
    // the fan-out/fan-in round trip: plan, fake one response per
    // backend as a real backend would answer, merge
    let reg = cpu_mem_registry();
    let body = br#"{"metrics": [{"name": "cpu.x"}, {"name": "mem.y"}]}"#;
    let req = parse_query_request(body).expect("request should parse");
    let plan = build_split_plan(&req, &reg).expect("plan should build");
    assert_eq!(plan.len(), 2);

    let mut flat = Vec::new();
    // one response per backend, shaped as a real backend would answer
    let resp_a = br#"{"queries": [{"results": [{"name": "cpu.x", "tags": {}, "values": []}]}]}"#;
    let resp_b = br#"{"queries": [{"results": [{"name": "mem.y", "tags": {}, "values": []}]}]}"#;
    for resp in [&resp_a[..], &resp_b[..]] {
        let parsed = parse_backend_results(resp).expect("response should parse");
        flat.extend(parsed);
    }
    let merged = merge_results(&flat);
    let names: Vec<&str> = merged.iter().map(|m| m.name.as_str()).collect();
    assert_eq!(names, vec!["cpu.x", "mem.y"]);
}

#[test]
fn unroutable_metric_fails_whole_request_before_dispatch() {
    // metric disk.z matches no registered pattern: gateway error, no plan
    let reg = cpu_mem_registry();
    let body = br#"{"metrics": [{"name": "cpu.x"}, {"name": "disk.z"}]}"#;
    let req = parse_query_request(body).expect("request should parse");
    let r = build_split_plan(&req, &reg);
    assert_eq!(r.err(), Some(GatewayError::BadGateway));
}

#[test]
fn metric_without_name_fails_split_request() {
    let reg = cpu_mem_registry();
    let body = br#"{"metrics": [{"name": "cpu.x"}, {"other": 1}]}"#;
    let req = parse_query_request(body).expect("request should parse");
    let r = build_split_plan(&req, &reg);
    assert_eq!(r.err(), Some(GatewayError::BadGateway));
}

#[test]
fn single_target_header_takes_precedence_over_body() {
    // header says mem.y while the body's first metric is cpu.x:
    // the mem backend owns the request, the cpu backend gets nothing
    let reg = cpu_mem_registry();
    let body = br#"{"metrics": [{"name": "cpu.x"}]}"#;
    let header = Some("mem.y".to_string());
    let target = resolve_single_target(&header, body, &reg).expect("should resolve");
    assert_eq!(target, 1, "the mem backend owns the routing key");
}

#[test]
fn single_target_falls_back_to_first_body_metric() {
    let reg = cpu_mem_registry();
    let body = br#"{"metrics": [{"name": "cpu.x"}, {"name": "mem.y"}]}"#;
    let target = resolve_single_target(&None, body, &reg).expect("should resolve");
    assert_eq!(target, 0, "first metric routes the whole request");
}

#[test]
fn single_target_unmatched_key_is_bad_gateway() {
    let reg = cpu_mem_registry();
    let body = br#"{"metrics": [{"name": "disk.z"}]}"#;
    let r = resolve_single_target(&None, body, &reg);
    assert_eq!(r.err(), Some(GatewayError::BadGateway));
    let r2 = resolve_single_target(&Some("disk.z".to_string()), body, &reg);
    assert_eq!(r2.err(), Some(GatewayError::BadGateway));
}

#[test]
fn single_target_bad_body_without_header_is_bad_request() {
    let reg = cpu_mem_registry();
    assert_eq!(
        resolve_single_target(&None, b"not json", &reg).err(),
        Some(GatewayError::BadRequest)
    );
    assert_eq!(
        resolve_single_target(&None, br#"{"metrics": []}"#, &reg).err(),
        Some(GatewayError::BadRequest)
    );
}

#[test]
fn duplicate_metric_names_stay_in_one_group_in_order() {
    let reg = cpu_mem_registry();
    let body =
        br#"{"metrics": [{"name": "cpu.a", "k": 1}, {"name": "mem.b"}, {"name": "cpu.a", "k": 2}]}"#;
    let req = parse_query_request(body).expect("request should parse");
    let plan = build_split_plan(&req, &reg).expect("plan should build");
    assert_eq!(plan.len(), 2);
    assert_eq!(plan[0].members, vec![0, 2], "both cpu metrics, in request order");
    assert_eq!(plan[1].members, vec![1]);
    let a: serde_json::Value = serde_json::from_slice(&plan[0].body).expect("payload A");
    let ks: Vec<i64> = a["metrics"]
        .as_array()
        .unwrap()
        .iter()
        .map(|m| m["k"].as_i64().unwrap())
        .collect();
    assert_eq!(ks, vec![1, 2], "metric objects carried through untouched, in order");
}
