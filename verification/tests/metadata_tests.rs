use grpc_web_rust::Metadata;

#[test]
fn insert_then_get() {
    let mut m = Metadata::new();
    m.insert("authorization", "Bearer token");
    assert_eq!(m.get("authorization").map(|s| s.as_str()), Some("Bearer token"));
    assert_eq!(m.get("other"), None);
}

#[test]
fn insert_replaces() {
    let mut m = Metadata::new();
    m.insert("k", "1");
    m.insert("k", "2");
    assert_eq!(m.get("k").unwrap(), "2");
    assert_eq!(m.to_headers(), vec![("k", "2")]);
}

#[test]
fn headers_in_key_order() {
    let mut m = Metadata::new();
    m.insert("b", "2");
    m.insert("a", "1");
    m.insert("B", "3");
    m.insert("ab", "4");
    m.insert("é", "5");
    assert_eq!(m.to_headers(), vec![("B", "3"), ("a", "1"), ("ab", "4"), ("b", "2"), ("é", "5")]);
    assert_eq!(m.iter(), m.to_headers());
}

#[test]
fn order_matches_btree_map() {
    let keys = ["zeta", "alpha", "Alpha", "al", "", "ä", "a\u{0}", "x-trace-id", "alpha"];
    let mut m = Metadata::new();
    let mut reference = std::collections::BTreeMap::new();
    for (i, k) in keys.iter().enumerate() {
        let v = i.to_string();
        m.insert(k, &v);
        reference.insert(k.to_string(), v);
    }
    let ours: Vec<(String, String)> =
        m.to_headers().into_iter().map(|(k, v)| (k.to_string(), v.to_string())).collect();
    let theirs: Vec<(String, String)> = reference.into_iter().collect();
    assert_eq!(ours, theirs);
}

#[test]
fn merged_prefers_extra() {
    let mut base = Metadata::new();
    base.insert("a", "1");
    base.insert("b", "2");
    let mut extra = Metadata::new();
    extra.insert("b", "20");
    extra.insert("c", "30");
    let merged = base.merged_with(&extra);
    assert_eq!(merged.to_headers(), vec![("a", "1"), ("b", "20"), ("c", "30")]);
    assert_eq!(base.to_headers(), vec![("a", "1"), ("b", "2")]);
}

#[test]
fn from_entries_last_wins() {
    let m = Metadata::from_entries(vec![
        ("x".to_string(), "1".to_string()),
        ("y".to_string(), "2".to_string()),
        ("x".to_string(), "3".to_string()),
    ]);
    assert_eq!(m.to_headers(), vec![("x", "3"), ("y", "2")]);
}

#[test]
fn copy_and_default() {
    let mut m = Metadata::default();
    assert!(m.to_headers().is_empty());
    m.insert("k", "v");
    let c = m.copy();
    assert_eq!(c.to_headers(), vec![("k", "v")]);
}

#[test]
fn clone_keeps_entries() {
    let mut m = Metadata::new();
    m.insert("a", "1");
    let c = m.clone();
    m.insert("a", "2");
    assert_eq!(c.get("a").unwrap(), "1");
    assert_eq!(m.get("a").unwrap(), "2");
}
