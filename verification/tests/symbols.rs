use lspgraph::json::{JsonNumber, JsonValue};
use lspgraph::symbols::{
    collect_named_callables, function_kind, is_named_callable, is_plain_identifier, parse_workspace_symbols,
    undecorate, DocumentSymbol, NamedCallable, Position, SymbolKind,
};

#[test]
fn accepts_plain_identifiers() {
    for n in ["types", "handle_request", "_custom", "$ref", "catchall", "uuid"] {
        assert!(is_named_callable(n, SymbolKind::FUNCTION), "should accept {n}");
    }
}

#[test]
fn rejects_synthesized_callback_names() {
    for n in [
        "expect() callback",
        "test(\"check any inference\") callback",
        "on(\"cycle\") callback",
        "_def.checks.find() callback",
        "patternKeys.map() callback",
        "z.custom() callback",
    ] {
        assert!(!is_named_callable(n, SymbolKind::FUNCTION), "should reject {n}");
    }
}

#[test]
fn accepts_qualified_method_names() {
    for n in ["counter.bump", "(*counter).bump", "(counter).bump", "pkg.Type.method"] {
        assert!(is_named_callable(n, SymbolKind::METHOD), "should accept {n}");
    }
}

#[test]
fn a_qualified_name_still_rejects_callback_noise() {
    for n in ["_def.checks.find() callback", "patternKeys.map() callback", "z.custom() callback"] {
        assert!(!is_named_callable(n, SymbolKind::FUNCTION), "should reject {n}");
    }
}

#[test]
fn rejects_empty_segments_and_stray_punctuation() {
    for n in [".bump", "counter.", "a..b", "(unclosed.bump", "()"] {
        assert!(!is_named_callable(n, SymbolKind::METHOD), "should reject {n}");
    }
}

#[test]
fn rejects_non_callable_kinds() {
    assert!(!is_named_callable("Config", SymbolKind::STRUCT));
    assert!(!is_named_callable("Color", SymbolKind::ENUM));
    assert!(!is_named_callable("MAX", SymbolKind::CONSTANT));
}

#[test]
fn accepts_methods() {
    assert!(is_named_callable("pipe", SymbolKind::METHOD));
}

#[test]
fn rejects_empty_and_leading_digit() {
    assert!(!is_named_callable("", SymbolKind::FUNCTION));
    assert!(!is_named_callable("2fast", SymbolKind::FUNCTION));
}

#[test]
fn accepts_unicode_identifiers() {
    for n in ["validar_configuración", "Añadir", "日本語関数", "переменная"] {
        assert!(is_named_callable(n, SymbolKind::FUNCTION), "should accept {n}");
    }
}

#[test]
fn a_receiver_must_itself_be_an_identifier() {
    assert!(!is_named_callable("(*2x).bump", SymbolKind::METHOD));
    assert!(!is_named_callable("(a b).bump", SymbolKind::METHOD));
    assert!(!is_named_callable("(counter)", SymbolKind::METHOD));
    assert!(is_plain_identifier("digits_9_ok"));
    assert!(!is_plain_identifier("a-b"));
}

fn sym(name: &str, kind: SymbolKind, line: u32, children: Option<Vec<DocumentSymbol>>) -> DocumentSymbol {
    DocumentSymbol { name: name.to_string(), kind, selection_start: Position { line, character: 0 }, children }
}

#[test]
fn collects_recursively_and_filters() {
    let uri = "file:///a.ts";
    let tree = vec![sym(
        "Outer",
        SymbolKind::CLASS,
        1,
        Some(vec![
            sym("method", SymbolKind::METHOD, 2, None),
            sym("expect() callback", SymbolKind::FUNCTION, 3, None),
        ]),
    )];
    let mut out = Vec::new();
    collect_named_callables(&tree, uri, &mut out);
    assert_eq!(out.len(), 1);
    assert_eq!(out[0].name, "method");
    assert_eq!(out[0].position.line, 2);
}

#[test]
fn collects_a_symbol_before_its_children_and_appends() {
    let tree = vec![
        sym("outer", SymbolKind::FUNCTION, 1, Some(vec![sym("inner", SymbolKind::FUNCTION, 2, None)])),
        sym("next", SymbolKind::FUNCTION, 5, None),
    ];
    let mut out = vec![NamedCallable { name: "kept".into(), uri: "file:///k.rs".into(), position: Position::default() }];
    collect_named_callables(&tree, "file:///b.rs", &mut out);
    let names: Vec<&str> = out.iter().map(|c| c.name.as_str()).collect();
    assert_eq!(names, vec!["kept", "outer", "inner", "next"]);
    assert_eq!(out[1].uri, "file:///b.rs");
}

fn s(v: &str) -> JsonValue {
    JsonValue::String(v.to_string())
}

fn n(v: u64) -> JsonValue {
    JsonValue::Number(JsonNumber::PosInt(v))
}

fn obj(members: Vec<(&str, JsonValue)>) -> JsonValue {
    JsonValue::Object(members.into_iter().map(|(k, v)| (k.to_string(), v)).collect())
}

fn range(line: u64, character: u64, end: u64) -> JsonValue {
    obj(vec![
        ("end", obj(vec![("character", n(end)), ("line", n(line))])),
        ("start", obj(vec![("character", n(character)), ("line", n(line))])),
    ])
}

fn entry(name: &str, kind: u64, container: Option<&str>, uri: &str, line: u64, character: u64) -> JsonValue {
    let mut members = vec![];
    if let Some(c) = container {
        members.push(("containerName", s(c)));
    }
    members.push(("kind", n(kind)));
    members.push(("location", obj(vec![("range", range(line, character, character + 5)), ("uri", s(uri))])));
    members.push(("name", s(name)));
    obj(members)
}

fn sample() -> JsonValue {
    JsonValue::Array(vec![
        entry("send_request", 12, Some("transport"), "file:///r/src/transport.rs", 87, 3),
        entry("expect() callback", 12, None, "file:///r/src/t.ts", 4, 2),
        entry("Config", 23, None, "file:///r/src/cfg.rs", 1, 0),
    ])
}

#[test]
fn keeps_named_callables() {
    let out = parse_workspace_symbols(&sample());
    assert_eq!(out.len(), 1);
    assert_eq!(out[0].name, "send_request");
    assert_eq!(out[0].container.as_deref(), Some("transport"));
    assert_eq!(out[0].position.line, 87);
    assert_eq!(out[0].position.character, 3);
    assert_eq!(out[0].uri, "file:///r/src/transport.rs");
    assert_eq!(out[0].kind, SymbolKind::FUNCTION);
}

#[test]
fn rejects_synthesized_callbacks_and_non_callables() {
    let names: Vec<String> = parse_workspace_symbols(&sample()).into_iter().map(|m| m.name).collect();
    assert!(!names.iter().any(|n| n.contains("callback")));
    assert!(!names.contains(&"Config".to_string()));
}

#[test]
fn a_null_or_non_array_result_is_empty_not_a_panic() {
    assert!(parse_workspace_symbols(&JsonValue::Null).is_empty());
    assert!(parse_workspace_symbols(&obj(vec![("unexpected", JsonValue::Bool(true))])).is_empty());
}

#[test]
fn vtsls_decorated_names_are_accepted_and_normalized() {
    let v = JsonValue::Array(vec![entry("middle()", 12, None, "file:///r/src/mid.ts", 2, 0)]);
    let out = parse_workspace_symbols(&v);
    assert_eq!(out.len(), 1);
    assert_eq!(out[0].name, "middle");
}

#[test]
fn a_decorated_name_still_rejects_callback_noise() {
    let v = JsonValue::Array(vec![entry("expect() callback", 12, None, "file:///r/src/t.ts", 4, 2)]);
    assert!(parse_workspace_symbols(&v).is_empty());
}

#[test]
fn undecorating_is_a_no_op_for_plain_names() {
    let v = JsonValue::Array(vec![entry("middle", 12, None, "file:///r/src/mid.rs", 2, 0)]);
    let out = parse_workspace_symbols(&v);
    assert_eq!(out.len(), 1);
    assert_eq!(out[0].name, "middle");
    assert_eq!(undecorate("middle()"), "middle");
    assert_eq!(undecorate("()"), "");
    assert_eq!(undecorate("expect() callback"), "expect() callback");
}

#[test]
fn converts_to_a_named_callable() {
    let m = &parse_workspace_symbols(&sample())[0];
    let c = NamedCallable::from_match(m);
    assert_eq!(c.name, "send_request");
    assert_eq!(c.position, m.position);
    assert_eq!(c.uri, m.uri);
}

#[test]
fn a_method_kind_and_a_missing_range_parse_as_method_at_the_origin() {
    let v = JsonValue::Array(vec![obj(vec![
        ("containerName", s("")),
        ("kind", n(6)),
        ("location", obj(vec![("uri", s("file:///r/x.go"))])),
        ("name", s("counter.bump")),
    ])]);
    let out = parse_workspace_symbols(&v);
    assert_eq!(out.len(), 1);
    assert_eq!(out[0].kind, SymbolKind::METHOD);
    assert_eq!(out[0].position, Position { line: 0, character: 0 });
    assert_eq!(out[0].container, None, "an empty container is no container");
}

#[test]
fn an_unparsable_uri_drops_the_entry() {
    let v = JsonValue::Array(vec![entry("f", 12, None, "not a uri", 1, 1)]);
    assert!(parse_workspace_symbols(&v).is_empty());
}

#[test]
fn a_uri_is_kept_in_its_normal_form() {
    let v = JsonValue::Array(vec![entry("f", 12, None, "FILE:///r/a%20b.rs", 1, 1)]);
    let out = parse_workspace_symbols(&v);
    assert_eq!(out[0].uri, "file:///r/a%20b.rs");
}

#[test]
fn the_function_kind_is_function() {
    assert_eq!(function_kind(), SymbolKind::FUNCTION);
}
