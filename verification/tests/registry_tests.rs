use kairos_proxy::config::Backend;
use kairos_proxy::errors::GatewayError;
use kairos_proxy::registry::Registry;

fn two_backend_registry() -> Registry {
    let backends = vec![
        Backend {
            pattern: "^cpu\\..*".to_string(),
            url: "http://127.0.0.1:9001".to_string(),
            token: None,
        },
        Backend {
            pattern: "^mem\\..*".to_string(),
            url: "http://127.0.0.1:9002".to_string(),
            token: Some("token-abc".to_string()),
        },
    ];
    Registry::from_backends(&backends).expect("registry should build")
}

#[test]
fn lookup_routes_by_pattern() {
    let reg = two_backend_registry();
    assert_eq!(reg.lookup("cpu.total"), Some(0));
    assert_eq!(reg.lookup("mem.free"), Some(1));
    assert_eq!(reg.lookup("disk.io"), None);
}

#[test]
fn lookup_is_first_match_over_registry_order() {
    // both patterns match "aa.x"; the earlier-registered one must win
    let backends = vec![
        Backend {
            pattern: "^aa\\.".to_string(),
            url: "http://127.0.0.1:9001".to_string(),
            token: None,
        },
        Backend {
            pattern: "^a".to_string(),
            url: "http://127.0.0.1:9002".to_string(),
            token: None,
        },
    ];
    let reg = Registry::from_backends(&backends).expect("registry should build");
    assert_eq!(reg.lookup("aa.x"), Some(0));
    // the broader pattern still owns what only it matches
    assert_eq!(reg.lookup("ab.x"), Some(1));

    // same patterns registered in the other order: the broad one wins everything
    let reversed = vec![
        Backend {
            pattern: "^a".to_string(),
            url: "http://127.0.0.1:9002".to_string(),
            token: None,
        },
        Backend {
            pattern: "^aa\\.".to_string(),
            url: "http://127.0.0.1:9001".to_string(),
            token: None,
        },
    ];
    let reg2 = Registry::from_backends(&reversed).expect("registry should build");
    assert_eq!(reg2.lookup("aa.x"), Some(0));
}

#[test]
fn route_carries_url_and_token() {
    let reg = two_backend_registry();
    let a = reg.route(0);
    assert_eq!(a.base_url, "http://127.0.0.1:9001");
    assert!(a.token.is_none());
    let b = reg.route(1);
    assert_eq!(b.base_url, "http://127.0.0.1:9002");
    assert_eq!(b.token.as_deref(), Some("token-abc"));
}

#[test]
fn status_codes_match_error_taxonomy() {
    assert_eq!(GatewayError::MethodNotAllowed.status_code(), 405);
    assert_eq!(GatewayError::BadRequest.status_code(), 400);
    assert_eq!(GatewayError::PayloadTooLarge.status_code(), 413);
    assert_eq!(GatewayError::BadGateway.status_code(), 502);
    assert_eq!(GatewayError::Internal.status_code(), 500);
}
