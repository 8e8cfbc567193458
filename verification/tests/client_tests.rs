use rpc_gateway::CallFailure;
use rpc_gateway::CallKind;
use rpc_gateway::CallOutcome;
use rpc_gateway::DynClient;
use rpc_gateway::DynValue;
use rpc_gateway::FieldKind;
use rpc_gateway::FieldSchema;
use rpc_gateway::MethodSchema;
use rpc_gateway::StrMap;

fn field(name: &str, kind: FieldKind) -> FieldSchema {
    FieldSchema { name: name.to_string(), kind }
}

fn method(path: &str, input: Vec<FieldSchema>, output: Vec<FieldSchema>) -> MethodSchema {
    MethodSchema {
        path: path.to_string(),
        input_type: format!("{}Request", path),
        output_type: format!("{}Reply", path),
        input,
        output,
        kind: CallKind::Unary,
    }
}

fn typed_client() -> DynClient {
    DynClient::new(
        "svc".to_string(),
        "127.0.0.1:50051".to_string(),
        vec![method(
            "/svc/Put",
            vec![
                field("name", FieldKind::Text),
                field("count", FieldKind::Integer),
                field("fast", FieldKind::Boolean),
            ],
            vec![field("ok", FieldKind::Boolean)],
        )],
    )
    .unwrap()
}

fn args(pairs: &[(&str, &str)]) -> StrMap {
    let mut m = StrMap::new();
    for (k, v) in pairs {
        m.insert(k.to_string(), v.to_string());
    }
    m
}

#[test]
fn new_rejects_duplicate_paths() {
    let dup = DynClient::new(
        "svc".to_string(),
        "a".to_string(),
        vec![method("/svc/A", vec![], vec![]), method("/svc/A", vec![], vec![])],
    );
    assert!(dup.is_none());
}

#[test]
fn method_list_triples() {
    let c = typed_client();
    let l = c.method_list();
    assert_eq!(l.len(), 1);
    assert_eq!(l[0].0, "/svc/Put");
    assert_eq!(l[0].1, "/svc/PutRequest");
    assert_eq!(l[0].2, "/svc/PutReply");
}

#[test]
fn begin_invoke_unknown_method() {
    let c = typed_client();
    let r = c.begin_invoke("/svc/Nope", &args(&[]), StrMap::new());
    assert!(matches!(r, Err(CallFailure::MethodNotFound)));
}

#[test]
fn begin_invoke_coerces_each_kind() {
    let c = typed_client();
    let plan = c
        .begin_invoke(
            "/svc/Put",
            &args(&[("name", "box"), ("count", "42"), ("fast", "true")]),
            StrMap::new(),
        )
        .unwrap();
    assert_eq!(plan.path, "/svc/Put");
    assert_eq!(plan.message[0], ("name".to_string(), DynValue::Text("box".to_string())));
    assert_eq!(plan.message[1], ("count".to_string(), DynValue::Integer(42)));
    assert_eq!(plan.message[2], ("fast".to_string(), DynValue::Boolean(true)));
}

#[test]
fn begin_invoke_absent_fields_take_defaults() {
    let c = typed_client();
    let plan = c.begin_invoke("/svc/Put", &args(&[]), StrMap::new()).unwrap();
    assert_eq!(plan.message[0].1, DynValue::Text("".to_string()));
    assert_eq!(plan.message[1].1, DynValue::Integer(0));
    assert_eq!(plan.message[2].1, DynValue::Boolean(false));
}

#[test]
fn begin_invoke_bad_integer_names_field() {
    let c = typed_client();
    let r = c.begin_invoke("/svc/Put", &args(&[("count", "abc")]), StrMap::new());
    match r {
        Err(CallFailure::FieldTypeMismatch(name)) => assert_eq!(name, "count"),
        other => panic!("expected a field type mismatch, got {:?}", other.map(|p| p.path)),
    }
}

#[test]
fn begin_invoke_integer_bounds() {
    let c = typed_client();
    let ok = c
        .begin_invoke("/svc/Put", &args(&[("count", "-9223372036854775808")]), StrMap::new())
        .unwrap();
    assert_eq!(ok.message[1].1, DynValue::Integer(i64::MIN));
    let big = c.begin_invoke("/svc/Put", &args(&[("count", "9223372036854775808")]), StrMap::new());
    assert!(matches!(big, Err(CallFailure::FieldTypeMismatch(_))));
    let junk = c.begin_invoke("/svc/Put", &args(&[("count", "-")]), StrMap::new());
    assert!(matches!(junk, Err(CallFailure::FieldTypeMismatch(_))));
}

#[test]
fn begin_invoke_bad_boolean() {
    let c = typed_client();
    let r = c.begin_invoke("/svc/Put", &args(&[("fast", "maybe")]), StrMap::new());
    assert!(matches!(r, Err(CallFailure::FieldTypeMismatch(_))));
}

#[test]
fn begin_invoke_carries_metadata() {
    let c = typed_client();
    let mut md = StrMap::new();
    md.insert("x-trace".to_string(), "t1".to_string());
    let plan = c.begin_invoke("/svc/Put", &args(&[]), md).unwrap();
    assert_eq!(plan.metadata.get("x-trace"), Some("t1".to_string()));
}

#[test]
fn finish_mirrors_reply_through_output_schema() {
    let c = typed_client();
    let plan = c.begin_invoke("/svc/Put", &args(&[]), StrMap::new()).unwrap();
    let reply = vec![
        ("ignored".to_string(), DynValue::Text("x".to_string())),
        ("ok".to_string(), DynValue::Boolean(true)),
    ];
    let (fields, _md) = plan
        .finish(CallOutcome::Reply { fields: reply, metadata: StrMap::new() })
        .unwrap();
    assert_eq!(fields, vec![("ok".to_string(), DynValue::Boolean(true))]);
}

#[test]
fn finish_wrong_kind_reply_field_takes_default() {
    let c = typed_client();
    let plan = c.begin_invoke("/svc/Put", &args(&[]), StrMap::new()).unwrap();
    let reply = vec![("ok".to_string(), DynValue::Text("yes".to_string()))];
    let (fields, _md) = plan
        .finish(CallOutcome::Reply { fields: reply, metadata: StrMap::new() })
        .unwrap();
    assert_eq!(fields, vec![("ok".to_string(), DynValue::Boolean(false))]);
}

#[test]
fn finish_surfaces_backend_status() {
    let c = typed_client();
    let plan = c.begin_invoke("/svc/Put", &args(&[]), StrMap::new()).unwrap();
    let r = plan.finish(CallOutcome::Status { code: 5, message: "missing".to_string() });
    match r {
        Err(CallFailure::Invoke { code, message }) => {
            assert_eq!(code, 5);
            assert_eq!(message, "missing");
        },
        _ => panic!("expected the backend status to surface"),
    }
}

#[test]
fn finish_surfaces_transport_failure() {
    let c = typed_client();
    let plan = c.begin_invoke("/svc/Put", &args(&[]), StrMap::new()).unwrap();
    let r = plan.finish(CallOutcome::Transport);
    assert!(matches!(r, Err(CallFailure::Transport)));
}

#[test]
fn begin_invoke_keeps_call_kind() {
    let c = DynClient::new(
        "svc".to_string(),
        "a".to_string(),
        vec![MethodSchema {
            path: "/svc/Watch".to_string(),
            input_type: "WatchRequest".to_string(),
            output_type: "WatchReply".to_string(),
            input: vec![],
            output: vec![],
            kind: CallKind::Streaming,
        }],
    )
    .unwrap();
    let plan = c.begin_invoke("/svc/Watch", &args(&[]), StrMap::new()).unwrap();
    assert_eq!(plan.kind, CallKind::Streaming);
}
