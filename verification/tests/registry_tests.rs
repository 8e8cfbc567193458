use rpc_gateway::CallKind;
use rpc_gateway::DynClient;
use rpc_gateway::DynMap;
use rpc_gateway::DynMapDefault;
use rpc_gateway::FieldKind;
use rpc_gateway::FieldSchema;
use rpc_gateway::MethodSchema;
use rpc_gateway::SharedRegistry;
use rpc_gateway::StrMap;

fn echo_client(addr: &str) -> DynClient {
    DynClient::new(
        "svc".to_string(),
        addr.to_string(),
        vec![MethodSchema {
            path: "/svc/Echo".to_string(),
            input_type: "EchoRequest".to_string(),
            output_type: "EchoReply".to_string(),
            input: vec![FieldSchema { name: "msg".to_string(), kind: FieldKind::Text }],
            output: vec![FieldSchema { name: "msg".to_string(), kind: FieldKind::Text }],
            kind: CallKind::Unary,
        }],
    )
    .unwrap()
}

#[test]
fn get_miss_is_absent() {
    let r = DynMapDefault::new();
    assert!(r.get("svc".to_string()).is_none());
    assert_eq!(r.len(), 0);
}

#[test]
fn get_twice_same_identity() {
    let mut r = DynMapDefault::new();
    r.set("svc".to_string(), "svc".to_string(), echo_client("a:1"));
    let c1 = r.get("svc".to_string()).unwrap();
    let c2 = r.get("svc".to_string()).unwrap();
    assert_eq!(c1.name(), c2.name());
    assert_eq!(c1.addr(), c2.addr());
    assert_eq!(c1.method_list(), c2.method_list());
}

#[test]
fn set_replaces_and_old_handle_stays_valid() {
    let mut r = DynMapDefault::new();
    r.set("svc".to_string(), "svc".to_string(), echo_client("a:1"));
    let held = r.get("svc".to_string()).unwrap();
    r.set("svc".to_string(), "svc".to_string(), echo_client("b:2"));
    // the handle obtained before the replacement still works in full
    assert_eq!(held.addr(), "a:1");
    let plan = held.begin_invoke("/svc/Echo", &StrMap::new(), StrMap::new()).unwrap();
    assert_eq!(plan.path, "/svc/Echo");
    // a lookup after the replacement sees the new client
    let fresh = r.get("svc".to_string()).unwrap();
    assert_eq!(fresh.addr(), "b:2");
    assert_eq!(r.len(), 1);
}

#[test]
fn set_keeps_other_keys() {
    let mut r = DynMapDefault::new();
    r.set("svc".to_string(), "svc".to_string(), echo_client("a:1"));
    r.set("other".to_string(), "other".to_string(), echo_client("c:3"));
    r.set("svc".to_string(), "svc".to_string(), echo_client("b:2"));
    assert_eq!(r.get("other".to_string()).unwrap().addr(), "c:3");
    assert_eq!(r.get("svc".to_string()).unwrap().addr(), "b:2");
    assert_eq!(r.len(), 2);
}

#[test]
fn shared_registry_lookup_and_replace() {
    let r = SharedRegistry::new();
    assert!(r.get("svc".to_string()).is_none());
    r.set("svc".to_string(), "svc".to_string(), echo_client("a:1"));
    let held = r.get("svc".to_string()).unwrap();
    assert_eq!(held.addr(), "a:1");
    r.set("svc".to_string(), "svc".to_string(), echo_client("b:2"));
    // the earlier handle is untouched; a fresh lookup sees the replacement
    assert_eq!(held.addr(), "a:1");
    assert_eq!(r.get("svc".to_string()).unwrap().addr(), "b:2");
}
