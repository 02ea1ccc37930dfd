use kairos_proxy::codec::{
    parse_backend_results, parse_first_metric_name, parse_query_request, results_to_json,
};
use kairos_proxy::errors::GatewayError;
use kairos_proxy::headers::{filter_request_headers, filter_response_headers, find_metric_header, method_allowed};
use kairos_proxy::model::{MetricResult, TagEntry};
use kairos_proxy::upstream::{bearer_value, join_url};

#[test]
fn parse_query_request_extracts_metrics_and_extra_fields() {
    let body = br#"{"start": 1, "metrics": [{"name": "cpu.x"}, {"name": "mem.y"}], "end": 2}"#;
    let req = parse_query_request(body).expect("should parse");
    assert_eq!(req.metrics.len(), 2);
    assert_eq!(req.metrics[0].name.as_deref(), Some("cpu.x"));
    assert_eq!(req.metrics[1].name.as_deref(), Some("mem.y"));
    let keys: Vec<&str> = req.extra.iter().map(|(k, _)| k.as_str()).collect();
    assert!(keys.contains(&"start") && keys.contains(&"end"));
    assert!(!keys.contains(&"metrics"));
}

#[test]
fn parse_query_request_rejects_bad_bodies() {
    assert_eq!(
        parse_query_request(b"{not json").err(),
        Some(GatewayError::BadRequest)
    );
    assert_eq!(
        parse_query_request(br#"[1, 2]"#).err(),
        Some(GatewayError::BadRequest)
    );
    assert_eq!(
        parse_query_request(br#"{"metrics": []}"#).err(),
        Some(GatewayError::BadRequest)
    );
    assert_eq!(
        parse_query_request(br#"{"metrics": 5}"#).err(),
        Some(GatewayError::BadRequest)
    );
    assert_eq!(
        parse_query_request(br#"{"other": 1}"#).err(),
        Some(GatewayError::BadRequest)
    );
}

#[test]
fn first_metric_name_partial_parse() {
    let body = br#"{"metrics": [{"name": "cpu.first"}, {"name": "mem.other"}]}"#;
    assert_eq!(parse_first_metric_name(body).unwrap(), "cpu.first");
    assert_eq!(
        parse_first_metric_name(br#"{"metrics": [{"x": 1}]}"#).err(),
        Some(GatewayError::BadRequest)
    );
    assert_eq!(
        parse_first_metric_name(br#"{"metrics": [{"name": 7}]}"#).err(),
        Some(GatewayError::BadRequest)
    );
}

#[test]
fn backend_response_parses_leniently() {
    let resp = br#"{
        "queries": [
            {"results": [
                {"name": "cpu.x", "tags": {"host": ["a", "b"]}, "values": [[1, 2]]},
                {"tags": {}, "values": []},
                {"name": "mem.y", "tags": {"host": "notanarray"}, "values": "bad"}
            ]},
            {"results": [{"name": "disk.z"}]}
        ]
    }"#;
    let flat = parse_backend_results(resp).expect("should parse");
    let names: Vec<&str> = flat.iter().map(|m| m.name.as_str()).collect();
    assert_eq!(names, vec!["cpu.x", "mem.y", "disk.z"]);
    assert_eq!(flat[0].tags.len(), 1);
    assert_eq!(flat[0].tags[0].key, "host");
    assert_eq!(flat[0].tags[0].values, vec!["a".to_string(), "b".to_string()]);
    assert_eq!(flat[0].values.len(), 1);
    assert!(flat[1].tags.is_empty(), "non-array tag value contributes nothing");
    assert!(flat[1].values.is_empty(), "non-array values contribute nothing");
    assert!(parse_backend_results(b"garbage").is_none());
}

#[test]
fn results_round_trip_through_envelope() {
    let one = MetricResult {
        name: "cpu.x".to_string(),
        tags: vec![TagEntry {
            key: "host".to_string(),
            values: vec!["a".to_string()],
        }],
        values: vec![serde_json::from_str("[1, 2]").unwrap()],
    };
    let bytes = results_to_json(vec![one]).expect("should serialize");
    let v: serde_json::Value = serde_json::from_slice(&bytes).expect("envelope is JSON");
    let queries = v["queries"].as_array().expect("queries array");
    assert_eq!(queries.len(), 1, "exactly one queries entry");
    let results = queries[0]["results"].as_array().expect("results array");
    assert_eq!(results.len(), 1);
    assert_eq!(results[0]["name"], "cpu.x");
    assert_eq!(results[0]["tags"]["host"][0], "a");
    assert_eq!(results[0]["values"][0][1], 2);

    // and back through the lenient response parser
    let flat = parse_backend_results(&bytes).expect("round trip");
    assert_eq!(flat.len(), 1);
    assert_eq!(flat[0].name, "cpu.x");
    assert_eq!(flat[0].tags[0].values, vec!["a".to_string()]);
}

#[test]
fn metric_header_found_case_insensitively() {
    let headers = vec![
        ("content-type".to_string(), "application/json".to_string()),
        ("X-MetricName".to_string(), "mem.test".to_string()),
    ];
    assert_eq!(find_metric_header(&headers), Some("mem.test".to_string()));
    let headers2 = vec![("x-metricname".to_string(), "cpu.a".to_string())];
    assert_eq!(find_metric_header(&headers2), Some("cpu.a".to_string()));
    let headers3 = vec![("X-METRICNAME".to_string(), "mem.b".to_string())];
    assert_eq!(find_metric_header(&headers3), Some("mem.b".to_string()));
    let none = vec![("content-type".to_string(), "application/json".to_string())];
    assert_eq!(find_metric_header(&none), None);
}

#[test]
fn hop_by_hop_headers_are_stripped_from_relayed_responses() {
    let headers = vec![
        ("Content-Type".to_string(), "application/json".to_string()),
        ("Connection".to_string(), "keep-alive".to_string()),
        ("keep-alive".to_string(), "timeout=5".to_string()),
        ("Transfer-Encoding".to_string(), "chunked".to_string()),
        ("x-custom".to_string(), "yes".to_string()),
        ("Host".to_string(), "upstream".to_string()),
    ];
    let kept = filter_response_headers(&headers);
    let names: Vec<&str> = kept.iter().map(|(n, _)| n.as_str()).collect();
    assert_eq!(names, vec!["Content-Type", "x-custom"]);
}

#[test]
fn outbound_requests_drop_only_the_host_header() {
    let headers = vec![
        ("Host".to_string(), "gateway".to_string()),
        ("content-type".to_string(), "application/json".to_string()),
        ("connection".to_string(), "close".to_string()),
    ];
    let kept = filter_request_headers(&headers);
    let names: Vec<&str> = kept.iter().map(|(n, _)| n.as_str()).collect();
    assert_eq!(names, vec!["content-type", "connection"]);
}

#[test]
fn only_post_is_allowed() {
    assert!(method_allowed("POST"));
    assert!(!method_allowed("GET"));
    assert!(!method_allowed("post"));
}

#[test]
fn join_url_trims_trailing_slashes() {
    assert_eq!(
        join_url("http://h:9000", "/api/v1/datapoints/query"),
        "http://h:9000/api/v1/datapoints/query"
    );
    assert_eq!(
        join_url("http://h:9000/", "/api/v1/datapoints/query/tags"),
        "http://h:9000/api/v1/datapoints/query/tags"
    );
    assert_eq!(join_url("http://h///", "/x"), "http://h/x");
}

#[test]
fn bearer_header_value() {
    assert_eq!(bearer_value("tok"), "Bearer tok");
}
