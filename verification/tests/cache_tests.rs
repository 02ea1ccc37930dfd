use kairos_proxy::cache::{cached_lookup, RoutingCache};
use kairos_proxy::config::Backend;
use kairos_proxy::registry::Registry;

fn registry() -> Registry {
    let backends = vec![
        Backend {
            pattern: "^cpu\\.".to_string(),
            url: "http://127.0.0.1:9001".to_string(),
            token: None,
        },
        Backend {
            pattern: "^mem\\.".to_string(),
            url: "http://127.0.0.1:9002".to_string(),
            token: None,
        },
    ];
    Registry::from_backends(&backends).expect("registry should build")
}

#[test]
fn cache_get_and_insert_roundtrip() {
    let mut c = RoutingCache::new(4);
    assert_eq!(c.get("cpu.x"), None);
    c.insert("cpu.x", 0);
    assert_eq!(c.get("cpu.x"), Some(0));
    c.insert("cpu.x", 1);
    assert_eq!(c.get("cpu.x"), Some(1), "re-insert replaces the binding");
}

#[test]
fn cache_evicts_least_recently_used_at_capacity() {
    let mut c = RoutingCache::new(2);
    c.insert("a", 0);
    c.insert("b", 1);
    // touch "a" so "b" becomes least recently used
    assert_eq!(c.get("a"), Some(0));
    c.insert("c", 0);
    assert_eq!(c.get("b"), None, "least recently used entry fell off");
    assert_eq!(c.get("a"), Some(0));
    assert_eq!(c.get("c"), Some(0));
}

#[test]
fn zero_capacity_cache_stores_nothing() {
    let mut c = RoutingCache::new(0);
    c.insert("a", 0);
    assert_eq!(c.get("a"), None);
}

#[test]
fn cached_lookup_agrees_with_registry() {
    let reg = registry();
    let mut c = RoutingCache::new(8);
    // miss, then hit, same answers as a direct lookup
    assert_eq!(cached_lookup(&mut c, &reg, "cpu.x"), Some(0));
    assert_eq!(cached_lookup(&mut c, &reg, "cpu.x"), Some(0));
    assert_eq!(cached_lookup(&mut c, &reg, "mem.y"), Some(1));
    assert_eq!(cached_lookup(&mut c, &reg, "disk.z"), None);
    assert_eq!(reg.lookup("cpu.x"), Some(0));
    assert_eq!(reg.lookup("mem.y"), Some(1));
    assert_eq!(reg.lookup("disk.z"), None);
}

#[test]
fn capacity_one_cache_keeps_only_the_newest_entry() {
    let mut c = RoutingCache::new(1);
    c.insert("a", 0);
    c.insert("b", 1);
    assert_eq!(c.get("a"), None);
    assert_eq!(c.get("b"), Some(1));
}
