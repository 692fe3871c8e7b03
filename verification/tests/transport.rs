use lspgraph::error::Error;
use lspgraph::json::{JsonNumber, JsonValue};
use lspgraph::transport::{notification_message, reply_message, request_message, response_outcome, route, Route};

fn s(v: &str) -> JsonValue {
    JsonValue::String(v.to_string())
}

fn num(v: i64) -> JsonValue {
    if v >= 0 {
        JsonValue::Number(JsonNumber::PosInt(v as u64))
    } else {
        JsonValue::Number(JsonNumber::NegInt(v))
    }
}

fn obj(members: Vec<(&str, JsonValue)>) -> JsonValue {
    JsonValue::Object(members.into_iter().map(|(k, v)| (k.to_string(), v)).collect())
}

fn members(v: &JsonValue) -> Vec<(String, &JsonValue)> {
    match v {
        JsonValue::Object(m) => m.iter().map(|(k, v)| (k.clone(), v)).collect(),
        _ => panic!("not an object"),
    }
}

#[test]
fn resolves_a_response_by_id() {
    let msg = obj(vec![("id", num(1)), ("jsonrpc", s("2.0")), ("result", obj(vec![("ok", JsonValue::Bool(true))]))]);
    assert!(matches!(route(&msg), Route::Response(1)));
    let got = response_outcome("x", msg).unwrap();
    match got {
        JsonValue::Object(m) => {
            assert_eq!(m.len(), 1);
            assert_eq!(m[0].0, "ok");
            assert!(matches!(m[0].1, JsonValue::Bool(true)));
        }
        _ => panic!("expected the result object"),
    }
}

#[test]
fn surfaces_an_error_response() {
    let msg = obj(vec![
        ("error", obj(vec![("code", num(-32601)), ("message", s("no such method"))])),
        ("id", num(1)),
        ("jsonrpc", s("2.0")),
    ]);
    let err = response_outcome("x", msg).unwrap_err();
    assert!(matches!(err, Error::Protocol(m) if m.contains("no such method")));
}

#[test]
fn content_modified_error_code_is_distinguished_from_protocol_errors() {
    let msg = obj(vec![
        ("error", obj(vec![("code", num(-32801)), ("message", s("content modified"))])),
        ("id", num(1)),
        ("jsonrpc", s("2.0")),
    ]);
    let err = response_outcome("x", msg).unwrap_err();
    assert!(matches!(err, Error::ContentModified { method } if method == "x"));
}

#[test]
fn other_error_codes_still_surface_as_protocol_errors() {
    let msg = obj(vec![
        ("error", obj(vec![("code", num(-32601)), ("message", s("no such method"))])),
        ("id", num(1)),
    ]);
    let err = response_outcome("x", msg).unwrap_err();
    assert!(matches!(err, Error::Protocol(_)));
}

#[test]
fn an_error_without_a_message_reads_unknown_and_names_the_method() {
    let msg = obj(vec![("error", obj(vec![("code", num(1))])), ("id", num(1))]);
    match response_outcome("textDocument/x", msg) {
        Err(Error::Protocol(m)) => assert_eq!(m, "textDocument/x: unknown"),
        _ => panic!("expected a protocol error"),
    }
}

#[test]
fn a_response_without_a_result_is_null() {
    let msg = obj(vec![("id", num(3)), ("result", JsonValue::Null)]);
    assert!(matches!(response_outcome("x", msg), Ok(JsonValue::Null)));
    let bare = obj(vec![("id", num(3))]);
    assert!(matches!(response_outcome("x", bare), Ok(JsonValue::Null)));
}

#[test]
fn routes_notifications_to_the_channel() {
    let msg = obj(vec![
        ("jsonrpc", s("2.0")),
        ("method", s("window/logMessage")),
        ("params", obj(vec![("message", s("hi"))])),
    ]);
    match route(&msg) {
        Route::Notification(m, Some(JsonValue::Object(p))) => {
            assert_eq!(m, "window/logMessage");
            assert_eq!(p[0].0, "message");
        }
        _ => panic!("expected a notification with parameters"),
    }
}

#[test]
fn answers_server_initiated_requests() {
    let msg = obj(vec![
        ("id", num(99)),
        ("jsonrpc", s("2.0")),
        ("method", s("workspace/configuration")),
        ("params", obj(vec![])),
    ]);
    let id = match route(&msg) {
        Route::ServerRequest(JsonValue::Number(JsonNumber::PosInt(n))) => *n,
        _ => panic!("a server request must be answered"),
    };
    assert_eq!(id, 99);
    let reply = reply_message(num(99));
    let m = members(&reply);
    assert_eq!(m[0].0, "jsonrpc");
    assert_eq!(m[1].0, "id");
    assert!(matches!(m[1].1, JsonValue::Number(JsonNumber::PosInt(99))));
    assert_eq!(m[2].0, "result");
    assert!(matches!(m[2].1, JsonValue::Null));
}

#[test]
fn answers_a_server_request_carrying_a_string_id() {
    let msg = obj(vec![
        ("id", s("cfg-7")),
        ("jsonrpc", s("2.0")),
        ("method", s("workspace/configuration")),
        ("params", obj(vec![])),
    ]);
    match route(&msg) {
        Route::ServerRequest(JsonValue::String(id)) => assert_eq!(id, "cfg-7"),
        _ => panic!("a string id must be echoed back, not mistaken for a notification"),
    }
}

#[test]
fn a_null_id_is_treated_as_a_notification() {
    let msg = obj(vec![
        ("id", JsonValue::Null),
        ("jsonrpc", s("2.0")),
        ("method", s("window/logMessage")),
        ("params", obj(vec![])),
    ]);
    assert!(matches!(route(&msg), Route::Notification(m, _) if m == "window/logMessage"));
}

#[test]
fn a_response_with_a_string_id_is_not_ours() {
    let msg = obj(vec![("id", s("x")), ("result", JsonValue::Null)]);
    assert!(matches!(route(&msg), Route::Ignore));
    assert!(matches!(route(&JsonValue::Null), Route::Ignore));
}

#[test]
fn requests_and_notifications_carry_version_method_and_params() {
    let r = request_message(7, "initialize", JsonValue::Null);
    let m = members(&r);
    assert_eq!(m.iter().map(|(k, _)| k.as_str()).collect::<Vec<_>>(), vec!["jsonrpc", "id", "method", "params"]);
    assert!(matches!(m[0].1, JsonValue::String(v) if v == "2.0"));
    assert!(matches!(m[1].1, JsonValue::Number(JsonNumber::PosInt(7))));
    assert!(matches!(m[2].1, JsonValue::String(v) if v == "initialize"));
    let n = notification_message("exit", JsonValue::Null);
    let m = members(&n);
    assert_eq!(m.iter().map(|(k, _)| k.as_str()).collect::<Vec<_>>(), vec!["jsonrpc", "method", "params"]);
}
