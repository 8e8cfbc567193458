use rpc_gateway::AppEntity;
use rpc_gateway::CallKind;
use rpc_gateway::CallOutcome;
use rpc_gateway::DynClient;
use rpc_gateway::DynMap;
use rpc_gateway::DynMapDefault;
use rpc_gateway::DynValue;
use rpc_gateway::FieldKind;
use rpc_gateway::FieldSchema;
use rpc_gateway::HandleStep;
use rpc_gateway::MetadataAnalysisDefaultImpl;
use rpc_gateway::MethodSchema;
use rpc_gateway::QueryAnalysisDefaultImpl;
use rpc_gateway::StrMap;

type Gateway = AppEntity<DynMapDefault, QueryAnalysisDefaultImpl, MetadataAnalysisDefaultImpl>;

fn echo_backend() -> DynClient {
    DynClient::new(
        "svc".to_string(),
        "127.0.0.1:50051".to_string(),
        vec![
            MethodSchema {
                path: "/svc/Echo".to_string(),
                input_type: "EchoRequest".to_string(),
                output_type: "EchoReply".to_string(),
                input: vec![FieldSchema { name: "msg".to_string(), kind: FieldKind::Text }],
                output: vec![FieldSchema { name: "msg".to_string(), kind: FieldKind::Text }],
                kind: CallKind::Unary,
            },
            MethodSchema {
                path: "/svc/Count".to_string(),
                input_type: "CountRequest".to_string(),
                output_type: "CountReply".to_string(),
                input: vec![FieldSchema { name: "n".to_string(), kind: FieldKind::Integer }],
                output: vec![FieldSchema { name: "n".to_string(), kind: FieldKind::Integer }],
                kind: CallKind::Unary,
            },
        ],
    )
    .unwrap()
}

fn gateway(request_allow: &[&str], response_allow: &[&str]) -> Gateway {
    let mut map = DynMapDefault::new();
    map.set("svc".to_string(), "svc".to_string(), echo_backend());
    AppEntity::new(
        map,
        QueryAnalysisDefaultImpl,
        MetadataAnalysisDefaultImpl::from_lists(
            request_allow.iter().map(|s| s.to_string()).collect(),
            response_allow.iter().map(|s| s.to_string()).collect(),
        ),
    )
}

// A backend that answers an echo by returning the request message as is.
fn echo_transport(plan_message: Vec<(String, DynValue)>, metadata: StrMap) -> CallOutcome {
    CallOutcome::Reply { fields: plan_message, metadata }
}

#[test]
fn echo_round_trip() {
    let app = gateway(&[], &[]);
    let step = app.prepare("/svc/Echo", "msg=hello", &StrMap::new(), &StrMap::new());
    match step {
        HandleStep::Dispatch { client, plan } => {
            assert_eq!(client.addr(), "127.0.0.1:50051");
            let outcome = echo_transport(plan.message.clone(), StrMap::new());
            let resp = app.complete(&plan, outcome);
            assert_eq!(resp.status, 200);
            assert_eq!(resp.body, "{\"msg\":\"hello\"}");
        },
        HandleStep::Respond { response } => {
            panic!("expected a dispatch, got status {}", response.status)
        },
    }
}

#[test]
fn unknown_route_is_404_and_registry_untouched() {
    let app = gateway(&[], &[]);
    let step = app.prepare("/unknown/Method", "", &StrMap::new(), &StrMap::new());
    match step {
        HandleStep::Respond { response } => {
            assert_eq!(response.status, 404);
            assert_eq!(response.body, "{\"code\":404,\"message\":\"route not found\"}");
            assert_eq!(response.headers.len(), 0);
        },
        HandleStep::Dispatch { .. } => panic!("a route miss must not contact a backend"),
    }
    assert_eq!(app.map.len(), 1);
    assert!(app.map.get("svc".to_string()).is_some());
}

#[test]
fn unknown_method_is_404() {
    let app = gateway(&[], &[]);
    let step = app.prepare("/svc/Nope", "", &StrMap::new(), &StrMap::new());
    match step {
        HandleStep::Respond { response } => {
            assert_eq!(response.status, 404);
            assert_eq!(response.body, "{\"code\":404,\"message\":\"method not found\"}");
        },
        HandleStep::Dispatch { .. } => panic!("an unknown method must not be dispatched"),
    }
}

#[test]
fn bad_argument_is_400() {
    let app = gateway(&[], &[]);
    let step = app.prepare("/svc/Count", "n=abc", &StrMap::new(), &StrMap::new());
    match step {
        HandleStep::Respond { response } => {
            assert_eq!(response.status, 400);
            assert_eq!(response.body, "{\"code\":400,\"message\":\"cannot coerce argument: n\"}");
        },
        HandleStep::Dispatch { .. } => panic!("a bad argument must not be dispatched"),
    }
}

#[test]
fn transport_failure_is_502_and_entry_stays() {
    let app = gateway(&[], &[]);
    let step = app.prepare("/svc/Echo", "msg=x", &StrMap::new(), &StrMap::new());
    match step {
        HandleStep::Dispatch { client: _, plan } => {
            let resp = app.complete(&plan, CallOutcome::Transport);
            assert_eq!(resp.status, 502);
            assert_eq!(resp.body, "{\"code\":502,\"message\":\"transport failure\"}");
        },
        HandleStep::Respond { .. } => panic!("expected a dispatch"),
    }
    // no automatic eviction: the route still resolves
    assert!(app.map.get("svc".to_string()).is_some());
}

#[test]
fn backend_status_maps_through_fixed_table() {
    let app = gateway(&[], &[]);
    let cases: Vec<(u32, u16)> = vec![(5, 404), (3, 400), (14, 503), (2, 500), (13, 500)];
    for (code, http) in cases {
        let step = app.prepare("/svc/Echo", "", &StrMap::new(), &StrMap::new());
        match step {
            HandleStep::Dispatch { client: _, plan } => {
                let resp = app.complete(
                    &plan,
                    CallOutcome::Status { code, message: "why".to_string() },
                );
                assert_eq!(resp.status, http);
                assert_eq!(resp.body, format!("{{\"code\":{},\"message\":\"why\"}}", http));
            },
            HandleStep::Respond { .. } => panic!("expected a dispatch"),
        }
    }
}

#[test]
fn request_metadata_filtered_into_plan() {
    let app = gateway(&["X-Foo"], &[]);
    let mut headers = StrMap::new();
    headers.insert("X-Foo".to_string(), "1".to_string());
    headers.insert("Host".to_string(), "x".to_string());
    headers.insert("X-Other".to_string(), "2".to_string());
    let step = app.prepare("/svc/Echo", "", &headers, &StrMap::new());
    match step {
        HandleStep::Dispatch { client: _, plan } => {
            assert_eq!(plan.metadata.get("X-Foo"), Some("1".to_string()));
            assert_eq!(plan.metadata.get("Host"), None);
            assert_eq!(plan.metadata.get("X-Other"), None);
            assert_eq!(plan.metadata.len(), 1);
        },
        HandleStep::Respond { .. } => panic!("expected a dispatch"),
    }
}

#[test]
fn response_metadata_filtered_into_headers() {
    let app = gateway(&[], &["X-Resp"]);
    let step = app.prepare("/svc/Echo", "", &StrMap::new(), &StrMap::new());
    match step {
        HandleStep::Dispatch { client: _, plan } => {
            let mut md = StrMap::new();
            md.insert("X-Resp".to_string(), "ok".to_string());
            md.insert("X-Hidden".to_string(), "no".to_string());
            md.insert("Connection".to_string(), "close".to_string());
            let resp = app.complete(&plan, echo_transport(plan.message.clone(), md));
            assert_eq!(resp.status, 200);
            assert_eq!(resp.headers.get("X-Resp"), Some("ok".to_string()));
            assert_eq!(resp.headers.get("X-Hidden"), None);
            assert_eq!(resp.headers.get("Connection"), None);
            assert_eq!(resp.headers.len(), 1);
        },
        HandleStep::Respond { .. } => panic!("expected a dispatch"),
    }
}

#[test]
fn query_overrides_body_fields() {
    let app = gateway(&[], &[]);
    let mut body = StrMap::new();
    body.insert("msg".to_string(), "frombody".to_string());
    let step = app.prepare("/svc/Echo", "msg=fromquery", &StrMap::new(), &body);
    match step {
        HandleStep::Dispatch { client: _, plan } => {
            assert_eq!(plan.message[0].1, DynValue::Text("fromquery".to_string()));
        },
        HandleStep::Respond { .. } => panic!("expected a dispatch"),
    }
}

#[test]
fn body_fields_used_when_query_silent() {
    let app = gateway(&[], &[]);
    let mut body = StrMap::new();
    body.insert("msg".to_string(), "frombody".to_string());
    let step = app.prepare("/svc/Echo", "", &StrMap::new(), &body);
    match step {
        HandleStep::Dispatch { client: _, plan } => {
            assert_eq!(plan.message[0].1, DynValue::Text("frombody".to_string()));
        },
        HandleStep::Respond { .. } => panic!("expected a dispatch"),
    }
}

#[test]
fn integer_echo_round_trip() {
    let app = gateway(&[], &[]);
    let step = app.prepare("/svc/Count", "n=-7", &StrMap::new(), &StrMap::new());
    match step {
        HandleStep::Dispatch { client: _, plan } => {
            let resp = app.complete(&plan, echo_transport(plan.message.clone(), StrMap::new()));
            assert_eq!(resp.status, 200);
            assert_eq!(resp.body, "{\"n\":-7}");
        },
        HandleStep::Respond { .. } => panic!("expected a dispatch"),
    }
}
