use kairos_proxy::config::{Backend, Config, Mode};
use kairos_proxy::registry::Registry;

fn base_config() -> Config {
    Config {
        listen: None,
        backends: Vec::new(),
        timeout_secs: None,
        max_outbound_concurrency: None,
        mode: None,
        max_request_body_bytes: None,
        connect_timeout_secs: None,
        pool_max_idle_per_host: None,
        tcp_keepalive_secs: None,
        routing_cache_capacity: None,
    }
}

#[test]
fn mode_default_is_multi() {
    let m = Mode::default();
    match m {
        Mode::Multi => {}
        _ => panic!("Mode default should be Multi"),
    }
}

#[test]
fn appstate_from_config_sets_mode_and_backends() {
    let cfg = Config {
        listen: None,
        backends: vec![Backend {
            pattern: "^a".to_string(),
            url: "http://127.0.0.1:9000".to_string(),
            token: None,
        }],
        timeout_secs: Some(1),
        max_outbound_concurrency: Some(4),
        mode: Some(Mode::Simple),
        max_request_body_bytes: None,
        connect_timeout_secs: None,
        pool_max_idle_per_host: None,
        tcp_keepalive_secs: None,
        routing_cache_capacity: None,
    };
    let reg = Registry::from_backends(&cfg.backends).expect("build state");
    match cfg.effective_mode() {
        Mode::Simple => {}
        _ => panic!("expected Simple mode"),
    }
    assert_eq!(reg.len(), 1, "should have one backend compiled");
}

#[test]
fn appstate_rejects_invalid_backend_url() {
    let cfg = Config {
        listen: None,
        backends: vec![Backend {
            pattern: "^test".to_string(),
            url: "not-a-valid-url".to_string(),
            token: None,
        }],
        timeout_secs: Some(1),
        max_outbound_concurrency: Some(4),
        mode: Some(Mode::Multi),
        max_request_body_bytes: None,
        connect_timeout_secs: None,
        pool_max_idle_per_host: None,
        tcp_keepalive_secs: None,
        routing_cache_capacity: None,
    };
    let result = Registry::from_backends(&cfg.backends);
    assert!(result.is_err(), "should fail with invalid URL");
    if let Err(e) = result {
        let err_msg = e.message();
        assert!(
            err_msg.contains("Invalid backend URL"),
            "error message should mention invalid URL: {}",
            err_msg
        );
    }
}

#[test]
fn appstate_builds_client_with_tuning_options() {
    let cfg = Config {
        listen: None,
        backends: vec![Backend {
            pattern: "^test".to_string(),
            url: "http://127.0.0.1:8080".to_string(),
            token: None,
        }],
        timeout_secs: Some(10),
        max_outbound_concurrency: Some(16),
        mode: Some(Mode::Multi),
        max_request_body_bytes: None,
        connect_timeout_secs: Some(2),
        pool_max_idle_per_host: Some(32),
        tcp_keepalive_secs: Some(60),
        routing_cache_capacity: None,
    };
    let reg = Registry::from_backends(&cfg.backends).expect("build state with tuning options");
    assert_eq!(reg.len(), 1, "should have one backend");
}

#[test]
fn appstate_works_without_tuning_options() {
    let cfg = Config {
        listen: None,
        backends: vec![Backend {
            pattern: "^test".to_string(),
            url: "http://127.0.0.1:8080".to_string(),
            token: None,
        }],
        timeout_secs: Some(5),
        max_outbound_concurrency: Some(8),
        mode: None,
        max_request_body_bytes: None,
        connect_timeout_secs: None,
        pool_max_idle_per_host: None,
        tcp_keepalive_secs: None,
        routing_cache_capacity: None,
    };
    let reg = Registry::from_backends(&cfg.backends).expect("build state without tuning options");
    assert_eq!(reg.len(), 1, "should have one backend");
}

#[test]
fn effective_defaults() {
    let cfg = base_config();
    assert_eq!(cfg.effective_timeout_secs(), 5);
    assert_eq!(cfg.effective_max_outbound(), 32);
    assert_eq!(cfg.effective_max_body_bytes(), 5_242_880);
    assert_eq!(cfg.effective_cache_capacity(), 0);
    match cfg.effective_mode() {
        Mode::Multi => {}
        _ => panic!("default mode should be Multi"),
    }
}

#[test]
fn invalid_pattern_is_rejected_with_message() {
    let backends = vec![Backend {
        pattern: "foo(bar".to_string(),
        url: "http://127.0.0.1:8080".to_string(),
        token: None,
    }];
    let result = Registry::from_backends(&backends);
    assert!(result.is_err(), "unclosed group should fail to compile");
    let msg = result.err().unwrap().message();
    assert!(msg.contains("Invalid backend pattern"), "got: {}", msg);
    assert!(msg.contains("foo(bar"), "got: {}", msg);
}
