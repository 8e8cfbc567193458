use rpc_gateway::MetadataAnalysis;
use rpc_gateway::MetadataAnalysisDefaultImpl;
use rpc_gateway::StrMap;

fn filter_with(allow: &[&str], pairs: &[(&str, &str)]) -> StrMap {
    let f = MetadataAnalysisDefaultImpl::from_lists(
        allow.iter().map(|s| s.to_string()).collect(),
        Vec::new(),
    );
    let mut h = StrMap::new();
    for (k, v) in pairs {
        h.insert(k.to_string(), v.to_string());
    }
    f.request(&h)
}

#[test]
fn request_keeps_allowed_drops_host() {
    let r = filter_with(&["X-Foo"], &[("X-Foo", "1"), ("Host", "x")]);
    assert_eq!(r.get("X-Foo"), Some("1".to_string()));
    assert_eq!(r.get("Host"), None);
    assert_eq!(r.len(), 1);
}

#[test]
fn request_host_blocked_even_when_allowed() {
    let r = filter_with(&["Host"], &[("Host", "x")]);
    assert_eq!(r.len(), 0);
}

#[test]
fn request_transport_headers_blocked() {
    let r = filter_with(
        &["Connection", "Content-Length", "Transfer-Encoding", "Upgrade"],
        &[
            ("Connection", "close"),
            ("Content-Length", "12"),
            ("Transfer-Encoding", "chunked"),
            ("Upgrade", "h2c"),
        ],
    );
    assert_eq!(r.len(), 0);
}

#[test]
fn request_match_is_case_insensitive() {
    let r = filter_with(&["x-foo"], &[("X-FOO", "1")]);
    assert_eq!(r.get("X-FOO"), Some("1".to_string()));
}

#[test]
fn request_unlisted_header_dropped() {
    let r = filter_with(&["X-Foo"], &[("X-Bar", "2")]);
    assert_eq!(r.len(), 0);
}

#[test]
fn response_uses_its_own_list() {
    let f = MetadataAnalysisDefaultImpl::from_lists(
        vec!["X-Req".to_string()],
        vec!["X-Resp".to_string()],
    );
    let mut md = StrMap::new();
    md.insert("X-Resp".to_string(), "a".to_string());
    md.insert("X-Req".to_string(), "b".to_string());
    md.insert("Connection".to_string(), "close".to_string());
    let r = f.response(md);
    assert_eq!(r.get("X-Resp"), Some("a".to_string()));
    assert_eq!(r.get("X-Req"), None);
    assert_eq!(r.get("Connection"), None);
}

#[test]
fn request_value_passes_unchanged() {
    let r = filter_with(&["X-Trace"], &[("X-Trace", "abc=42;q")]);
    assert_eq!(r.get("X-Trace"), Some("abc=42;q".to_string()));
}
