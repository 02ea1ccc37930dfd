use kairos_proxy::merge::merge_results;
use kairos_proxy::model::{MetricResult, TagEntry};

fn val(s: &str) -> serde_json::Value {
    serde_json::from_str(s).expect("literal should parse")
}

fn result(name: &str, tags: Vec<(&str, Vec<&str>)>, values: Vec<serde_json::Value>) -> MetricResult {
    MetricResult {
        name: name.to_string(),
        tags: tags
            .into_iter()
            .map(|(k, vs)| TagEntry {
                key: k.to_string(),
                values: vs.into_iter().map(|v| v.to_string()).collect(),
            })
            .collect(),
        values,
    }
}

#[test]
fn tag_merge_deduplicates_preserving_first_seen_order() {
    // merging {a:[x]} then {a:[x,y]} yields {a:[x,y]}
    let flat = vec![
        result("m", vec![("a", vec!["x"])], vec![]),
        result("m", vec![("a", vec!["x", "y"])], vec![]),
    ];
    let merged = merge_results(&flat);
    assert_eq!(merged.len(), 1);
    assert_eq!(merged[0].tags.len(), 1);
    assert_eq!(merged[0].tags[0].key, "a");
    assert_eq!(merged[0].tags[0].values, vec!["x".to_string(), "y".to_string()]);
}

#[test]
fn tag_merge_reverse_order_yields_same_value_set() {
    let forward = vec![
        result("m", vec![("a", vec!["x"])], vec![]),
        result("m", vec![("a", vec!["x", "y"])], vec![]),
    ];
    let backward = vec![
        result("m", vec![("a", vec!["x", "y"])], vec![]),
        result("m", vec![("a", vec!["x"])], vec![]),
    ];
    let mf = merge_results(&forward);
    let mb = merge_results(&backward);
    let mut sf: Vec<String> = mf[0].tags[0].values.clone();
    let mut sb: Vec<String> = mb[0].tags[0].values.clone();
    // no duplicates either way
    assert_eq!(sf.len(), 2);
    assert_eq!(sb.len(), 2);
    sf.sort();
    sb.sort();
    assert_eq!(sf, sb, "same set of tag values regardless of merge order");
    // first-seen order across the actual merge sequence
    assert_eq!(mb[0].tags[0].values, vec!["x".to_string(), "y".to_string()]);
}

#[test]
fn value_merge_is_multiset_union() {
    // a 2-element and a 3-element value list for one name give 5 values
    let flat = vec![
        result("m", vec![], vec![val("[1, 10]"), val("[2, 20]")]),
        result("m", vec![], vec![val("[3, 30]"), val("[4, 40]"), val("[2, 20]")]),
    ];
    let merged = merge_results(&flat);
    assert_eq!(merged.len(), 1);
    assert_eq!(merged[0].values.len(), 5);
    let expect = vec![
        val("[1, 10]"),
        val("[2, 20]"),
        val("[3, 30]"),
        val("[4, 40]"),
        val("[2, 20]"),
    ];
    for e in &expect {
        let count = merged[0].values.iter().filter(|v| *v == e).count();
        let expected_count = expect.iter().filter(|v| *v == e).count();
        assert_eq!(count, expected_count, "multiplicity of {} preserved", e);
    }
}

#[test]
fn merge_groups_by_name_sorted_ascending() {
    let flat = vec![
        result("zeta", vec![], vec![val("[1, 1]")]),
        result("alpha", vec![], vec![val("[2, 2]")]),
        result("mid", vec![], vec![val("[3, 3]")]),
        result("alpha", vec![], vec![val("[4, 4]")]),
    ];
    let merged = merge_results(&flat);
    let names: Vec<&str> = merged.iter().map(|m| m.name.as_str()).collect();
    assert_eq!(names, vec!["alpha", "mid", "zeta"]);
    // alpha's values concatenate in arrival order
    assert_eq!(merged[0].values, vec![val("[2, 2]"), val("[4, 4]")]);
}

#[test]
fn merge_tag_keys_come_out_sorted_with_values_in_first_seen_order() {
    let flat = vec![
        result("m", vec![("z", vec!["q"]), ("b", vec!["v2", "v1"])], vec![]),
        result("m", vec![("a", vec!["w"]), ("b", vec!["v3", "v1"])], vec![]),
    ];
    let merged = merge_results(&flat);
    let keys: Vec<&str> = merged[0].tags.iter().map(|t| t.key.as_str()).collect();
    assert_eq!(keys, vec!["a", "b", "z"]);
    let b = &merged[0].tags[1];
    assert_eq!(
        b.values,
        vec!["v2".to_string(), "v1".to_string(), "v3".to_string()],
        "per-key values deduplicate in first-seen order"
    );
}

#[test]
fn merge_of_empty_input_is_empty() {
    let merged = merge_results(&Vec::new());
    assert!(merged.is_empty());
}

#[test]
fn merge_orders_names_by_code_point() {
    // "é" (U+00E9) sorts after "z" by code point, matching byte-wise
    // UTF-8 string order
    let flat = vec![
        result("é.metric", vec![], vec![]),
        result("z.metric", vec![], vec![]),
        result("a.metric", vec![], vec![]),
    ];
    let merged = merge_results(&flat);
    let names: Vec<&str> = merged.iter().map(|m| m.name.as_str()).collect();
    assert_eq!(names, vec!["a.metric", "z.metric", "é.metric"]);
}
