use rpc_gateway::DynValue;
use rpc_gateway::render_error;
use rpc_gateway::render_object;

#[test]
fn render_empty_object() {
    let r = render_object(&Vec::new());
    assert_eq!(r, "{}");
}

#[test]
fn render_text_field() {
    let r = render_object(&vec![("msg".to_string(), DynValue::Text("hello".to_string()))]);
    assert_eq!(r, "{\"msg\":\"hello\"}");
}

#[test]
fn render_several_fields_in_order() {
    let r = render_object(&vec![
        ("a".to_string(), DynValue::Integer(-42)),
        ("b".to_string(), DynValue::Boolean(true)),
        ("c".to_string(), DynValue::Boolean(false)),
    ]);
    assert_eq!(r, "{\"a\":-42,\"b\":true,\"c\":false}");
}

#[test]
fn render_escapes_quote_and_backslash() {
    let r = render_object(&vec![("m".to_string(), DynValue::Text("a\"b\\c".to_string()))]);
    assert_eq!(r, "{\"m\":\"a\\\"b\\\\c\"}");
}

#[test]
fn render_integer_bounds() {
    let r = render_object(&vec![
        ("lo".to_string(), DynValue::Integer(i64::MIN)),
        ("hi".to_string(), DynValue::Integer(i64::MAX)),
        ("zero".to_string(), DynValue::Integer(0)),
    ]);
    assert_eq!(
        r,
        "{\"lo\":-9223372036854775808,\"hi\":9223372036854775807,\"zero\":0}"
    );
}

#[test]
fn render_error_body() {
    let r = render_error(404, "route not found");
    assert_eq!(r, "{\"code\":404,\"message\":\"route not found\"}");
}

#[test]
fn render_error_escapes_message() {
    let r = render_error(500, "broken \"pipe\"");
    assert_eq!(r, "{\"code\":500,\"message\":\"broken \\\"pipe\\\"\"}");
}
