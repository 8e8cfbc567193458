use rpc_gateway::QueryAnalysis;
use rpc_gateway::QueryAnalysisDefaultImpl;
use rpc_gateway::StrMap;

fn parse(q: &str) -> Option<StrMap> {
    QueryAnalysisDefaultImpl.analysis(q)
}

#[test]
fn analysis_two_pairs() {
    let m = parse("a=1&b=2").unwrap();
    assert_eq!(m.get("a"), Some("1".to_string()));
    assert_eq!(m.get("b"), Some("2".to_string()));
    assert_eq!(m.len(), 2);
}

#[test]
fn analysis_empty_is_absent() {
    assert!(parse("").is_none());
}

#[test]
fn analysis_percent_decodes_value() {
    let m = parse("a=%20b").unwrap();
    assert_eq!(m.get("a"), Some(" b".to_string()));
}

#[test]
fn analysis_percent_decodes_key() {
    let m = parse("%41=x").unwrap();
    assert_eq!(m.get("A"), Some("x".to_string()));
}

#[test]
fn analysis_duplicate_key_last_wins() {
    let m = parse("a=1&a=2").unwrap();
    assert_eq!(m.get("a"), Some("2".to_string()));
    assert_eq!(m.len(), 1);
}

#[test]
fn analysis_malformed_escape_drops_token() {
    let m = parse("a=%zz&b=2").unwrap();
    assert_eq!(m.get("a"), None);
    assert_eq!(m.get("b"), Some("2".to_string()));
    assert_eq!(m.len(), 1);
}

#[test]
fn analysis_truncated_escape_drops_token() {
    let m = parse("a=%2&b=2").unwrap();
    assert_eq!(m.get("a"), None);
    assert_eq!(m.get("b"), Some("2".to_string()));
}

#[test]
fn analysis_non_ascii_escape_drops_token() {
    let m = parse("a=%ff").unwrap();
    assert_eq!(m.get("a"), None);
    assert_eq!(m.len(), 0);
}

#[test]
fn analysis_token_without_equals_dropped() {
    let m = parse("abc&b=2").unwrap();
    assert_eq!(m.get("abc"), None);
    assert_eq!(m.get("b"), Some("2".to_string()));
}

#[test]
fn analysis_empty_key_dropped() {
    let m = parse("=1&b=2").unwrap();
    assert_eq!(m.len(), 1);
    assert_eq!(m.get("b"), Some("2".to_string()));
}

#[test]
fn analysis_empty_value_kept() {
    let m = parse("a=").unwrap();
    assert_eq!(m.get("a"), Some("".to_string()));
}

#[test]
fn analysis_value_with_equals_kept_whole() {
    let m = parse("a=b=c").unwrap();
    assert_eq!(m.get("a"), Some("b=c".to_string()));
}

#[test]
fn strmap_insert_replaces() {
    let mut m = StrMap::new();
    m.insert("k".to_string(), "1".to_string());
    m.insert("k".to_string(), "2".to_string());
    assert_eq!(m.len(), 1);
    assert_eq!(m.get("k"), Some("2".to_string()));
    assert!(m.contains_key("k"));
    assert!(!m.contains_key("other"));
}
