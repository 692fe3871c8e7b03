use lspgraph::error::Error;
use lspgraph::json::{JsonNumber, JsonValue};
use lspgraph::server::{
    call_endpoints, check_call_hierarchy, initialize_params, position_params, supports, supports_workspace_symbol,
};
use lspgraph::symbols::Position;
use lspgraph::uri::{path_to_uri, uri_to_file_path};

fn s(v: &str) -> JsonValue {
    JsonValue::String(v.to_string())
}

fn obj(members: Vec<(&str, JsonValue)>) -> JsonValue {
    JsonValue::Object(members.into_iter().map(|(k, v)| (k.to_string(), v)).collect())
}

#[test]
fn unwraps_incoming_call_endpoints() {
    let v = JsonValue::Array(vec![obj(vec![
        ("from", obj(vec![("kind", JsonValue::Number(JsonNumber::PosInt(12))), ("name", s("caller")), ("uri", s("file:///a.rs"))])),
        ("fromRanges", JsonValue::Array(vec![])),
    ])]);
    let items = call_endpoints(&v, "from");
    assert_eq!(items.len(), 1);
    assert!(matches!(items[0].get("name"), Some(JsonValue::String(n)) if n == "caller"));
}

#[test]
fn unwrapping_a_non_array_yields_nothing() {
    assert!(call_endpoints(&JsonValue::Null, "from").is_empty());
}

#[test]
fn entries_without_the_endpoint_are_skipped() {
    let v = JsonValue::Array(vec![obj(vec![("to", s("a"))]), obj(vec![("from", s("b"))])]);
    assert_eq!(call_endpoints(&v, "to").len(), 1);
}

#[test]
fn builds_a_file_uri() {
    let u = path_to_uri("/tmp/x.rs").unwrap();
    assert_eq!(u, "file:///tmp/x.rs");
    assert_eq!(path_to_uri("/a b/ü.rs").unwrap(), "file:///a%20b/%C3%BC.rs");
}

fn caps(name: &str, v: JsonValue) -> JsonValue {
    obj(vec![("capabilities", obj(vec![(name, v)]))])
}

#[test]
fn a_capability_counts_unless_absent_false_or_null() {
    assert!(supports(&caps("callHierarchyProvider", JsonValue::Bool(true)), "callHierarchyProvider"));
    assert!(supports(&caps("callHierarchyProvider", obj(vec![])), "callHierarchyProvider"));
    assert!(!supports(&caps("callHierarchyProvider", JsonValue::Bool(false)), "callHierarchyProvider"));
    assert!(!supports(&caps("callHierarchyProvider", JsonValue::Null), "callHierarchyProvider"));
    assert!(!supports(&caps("other", JsonValue::Bool(true)), "callHierarchyProvider"));
    assert!(!supports(&JsonValue::Null, "callHierarchyProvider"));
    assert!(supports_workspace_symbol(&caps("workspaceSymbolProvider", JsonValue::Bool(true))));
}

#[test]
fn a_server_without_call_hierarchy_is_refused_by_name() {
    assert!(check_call_hierarchy("ra", &caps("callHierarchyProvider", JsonValue::Bool(true))).is_ok());
    match check_call_hierarchy("fake", &JsonValue::Null) {
        Err(e @ Error::NoCallHierarchy { .. }) => {
            assert_eq!(e.to_string(), "language server fake does not advertise callHierarchyProvider")
        }
        _ => panic!("expected NoCallHierarchy"),
    }
}

#[test]
fn initialize_names_the_root_and_asks_for_hierarchical_symbols() {
    let p = initialize_params(42, "file:///repo");
    assert!(matches!(p.get("processId"), Some(JsonValue::Number(JsonNumber::PosInt(42)))));
    assert!(matches!(p.get("rootUri"), Some(JsonValue::String(u)) if u == "file:///repo"));
    let doc = p.get("capabilities").and_then(|c| c.get("textDocument")).and_then(|t| t.get("documentSymbol"));
    assert!(matches!(doc.and_then(|d| d.get("hierarchicalDocumentSymbolSupport")), Some(JsonValue::Bool(true))));
}

#[test]
fn a_position_request_carries_document_and_position() {
    let p = position_params("file:///a.rs", Position { line: 4, character: 7 });
    assert!(matches!(p.get("textDocument").and_then(|t| t.get("uri")), Some(JsonValue::String(u)) if u == "file:///a.rs"));
    assert!(matches!(
        p.get("position").and_then(|t| t.get("character")),
        Some(JsonValue::Number(JsonNumber::PosInt(7)))
    ));
}

#[test]
fn a_relative_path_has_no_file_uri() {
    assert!(path_to_uri("relative/x.rs").is_none());
}

#[test]
fn a_file_uri_names_its_path_and_other_text_names_none() {
    assert_eq!(uri_to_file_path("file:///tmp/x.rs").as_deref(), Some("/tmp/x.rs"));
    assert_eq!(uri_to_file_path("file:///a%20b/x.rs").as_deref(), Some("/a b/x.rs"));
    assert!(uri_to_file_path("not a uri").is_none());
}
