use lspgraph::graph::{Node, NodeId, NodeState, UnresolvedReason};
use lspgraph::symbols::{function_kind, Position, SymbolMatch};
use lspgraph::tui::protocol::{Event, ResolvedExpansion};
use lspgraph::tui::state::{App, Pane};
use lspgraph::tui::view::{
    breadcrumb_line, error_rect, error_text, focus_body, focus_title, label, query_line, search_body,
    short_location, side_pane, status_line, Rect, SearchBody, FAILED_LINE, IDLE_HINT, NO_MATCHES_MSG,
    NO_SEARCH_MSG, SPINNER, UNRESOLVED_MARK,
};

fn nid(name: &str) -> NodeId {
    NodeId { uri: "file:///a.rs".into(), line: 1, character: 3, name: name.into() }
}

fn node(name: &str) -> Node {
    Node { id: nid(name), kind_name: "Function".into(), detail: None, state: NodeState::Unexpanded }
}

fn texts(app: &App, pane: Pane) -> Vec<String> {
    side_pane(app, pane).into_iter().map(|(t, _)| t).collect()
}

fn graph_text(app: &App) -> String {
    let mut parts = vec![breadcrumb_line(app), focus_title(app), focus_body(app), status_line(app)];
    parts.extend(texts(app, Pane::Callers));
    parts.extend(texts(app, Pane::Callees));
    parts.join("\n")
}

fn app_with_expansion() -> App {
    let mut a = App::new();
    a.on_event(Event::Ready { can_search: true });
    a.on_event(Event::Seeded(Some(node("send_request"))));
    a.on_event(Event::Expanded(
        nid("send_request"),
        ResolvedExpansion { callers: vec![node("handle_request")], callees: vec![node("validate")] },
    ));
    a
}

#[test]
fn shows_both_directions_and_the_focus() {
    let a = app_with_expansion();
    assert_eq!(texts(&a, Pane::Callers), vec!["handle_request".to_string()]);
    assert_eq!(texts(&a, Pane::Callees), vec!["validate".to_string()]);
    assert_eq!(focus_title(&a), "send_request");
}

#[test]
fn shows_the_breadcrumb() {
    let mut a = app_with_expansion();
    assert_eq!(breadcrumb_line(&a), "send_request");
    a.recentre();
    assert_eq!(breadcrumb_line(&a), "send_request › handle_request");
}

#[test]
fn a_pending_pane_shows_a_spinner_not_an_empty_list() {
    let mut a = App::new();
    a.on_event(Event::Ready { can_search: true });
    a.on_event(Event::Seeded(Some(node("f"))));
    assert!(a.is_pending());
    assert_eq!(texts(&a, Pane::Callers), vec![SPINNER.to_string()]);
}

#[test]
fn an_empty_expansion_renders_no_spinner() {
    let mut a = App::new();
    a.on_event(Event::Ready { can_search: true });
    a.on_event(Event::Seeded(Some(node("f"))));
    a.on_event(Event::Expanded(nid("f"), ResolvedExpansion { callers: vec![], callees: vec![] }));
    assert!(!graph_text(&a).contains(SPINNER));
    assert!(texts(&a, Pane::Callers).is_empty());
}

#[test]
fn the_centre_pane_shows_a_short_location_not_a_raw_uri() {
    let mut a = App::new();
    a.on_event(Event::Ready { can_search: true });
    let n = Node {
        id: NodeId { uri: "file:///home/user/project/src/lib.rs".into(), line: 4, character: 0, name: "middle".into() },
        kind_name: "Function".into(),
        detail: Some("fn middle(x: i32) -> i32".into()),
        state: NodeState::Unexpanded,
    };
    a.on_event(Event::Seeded(Some(n)));
    let body = focus_body(&a);
    assert_eq!(body, "fn middle(x: i32) -> i32\nlib.rs:5");
    assert!(!graph_text(&a).contains("file://"));
}

#[test]
fn a_location_without_a_file_part_shows_the_whole_uri() {
    let mut id = nid("f");
    id.uri = "file:///dir/".into();
    assert_eq!(short_location(&id), "file:///dir/:2");
    id.uri = "untitled".into();
    assert_eq!(short_location(&id), "untitled:2");
}

#[test]
fn an_unresolved_node_is_marked() {
    let n = Node {
        id: nid("over"),
        kind_name: "Function".into(),
        detail: None,
        state: NodeState::Unresolved(UnresolvedReason::NoCallHierarchyItem),
    };
    assert!(label(&n).starts_with(UNRESOLVED_MARK));
}

#[test]
fn an_unresolved_node_is_marked_in_the_rendered_pane() {
    let mut a = App::new();
    a.on_event(Event::Ready { can_search: true });
    a.on_event(Event::Seeded(Some(node("f"))));
    let mut over = node("over");
    over.state = NodeState::Unresolved(UnresolvedReason::NoCallHierarchyItem);
    a.on_event(Event::Expanded(nid("f"), ResolvedExpansion { callers: vec![over], callees: vec![] }));
    assert_eq!(texts(&a, Pane::Callers), vec![format!("{UNRESOLVED_MARK} over")]);
}

#[test]
fn a_failed_expansion_looks_like_neither_pending_nor_empty() {
    let mut pend = App::new();
    pend.on_event(Event::Ready { can_search: true });
    pend.on_event(Event::Seeded(Some(node("middle"))));
    let pending_out = graph_text(&pend);

    let mut empty = App::new();
    empty.on_event(Event::Ready { can_search: true });
    empty.on_event(Event::Seeded(Some(node("middle"))));
    empty.on_event(Event::Expanded(nid("middle"), ResolvedExpansion { callers: vec![], callees: vec![] }));
    let empty_out = graph_text(&empty);

    let mut fail = App::new();
    fail.on_event(Event::Ready { can_search: true });
    fail.on_event(Event::Seeded(Some(node("middle"))));
    fail.on_event(Event::Failed(nid("middle"), "content modified".into()));
    fail.dismiss_error();
    let failed_out = graph_text(&fail);

    assert!(failed_out.contains(FAILED_LINE), "a failed expansion must say so:\n{failed_out}");
    assert!(!failed_out.contains(SPINNER), "a failure is not still loading");
    assert!(!empty_out.contains(FAILED_LINE));
    assert!(!pending_out.contains(FAILED_LINE));
    assert_ne!(failed_out, empty_out, "failed must not look like no-callers");
    assert_ne!(failed_out, pending_out, "failed must not look like loading");
}

#[test]
fn a_resolved_node_is_not_marked() {
    let n = Node { id: nid("ok"), kind_name: "Function".into(), detail: None, state: NodeState::Expanded };
    assert_eq!(label(&n), "ok");
}

#[test]
fn the_selected_entry_of_the_active_pane_is_highlighted() {
    let a = app_with_expansion();
    assert_eq!(side_pane(&a, Pane::Callers), vec![("handle_request".to_string(), true)]);
    assert_eq!(side_pane(&a, Pane::Callees), vec![("validate".to_string(), false)]);
    assert!(status_line(&a).contains("q quit"));
}

fn a_match(name: &str, container: Option<&str>) -> SymbolMatch {
    SymbolMatch {
        name: name.into(),
        container: container.map(String::from),
        uri: "file:///tmp/a.rs".into(),
        position: Position::default(),
        kind: function_kind(),
    }
}

fn ready(can_search: bool) -> App {
    let mut a = App::new();
    a.on_event(Event::Ready { can_search });
    a
}

#[test]
fn the_idle_screen_says_what_to_do_instead_of_showing_an_empty_list() {
    let a = ready(true);
    assert!(matches!(search_body(&a), SearchBody::Prompt(p) if p == IDLE_HINT));
}

#[test]
fn a_typed_but_unsubmitted_query_says_enter_runs_it() {
    let mut a = ready(true);
    a.push_query_char('z');
    a.push_query_char('e');
    assert!(matches!(search_body(&a), SearchBody::Prompt(p) if p == "press Enter to search for \"ze\""));
}

#[test]
fn shows_the_query_being_typed() {
    let mut a = ready(true);
    a.push_query_char('s');
    a.push_query_char('e');
    assert_eq!(query_line(&a), "> se");
}

#[test]
fn a_server_without_search_says_so_explicitly() {
    let a = ready(false);
    assert!(matches!(search_body(&a), SearchBody::NoSearch));
    assert!(NO_SEARCH_MSG.contains("does not support"));
}

#[test]
fn a_non_empty_query_with_no_matches_says_so_without_claiming_the_repository_is_covered() {
    let mut a = ready(true);
    a.push_query_char('z');
    a.on_event(Event::Matches(vec![]));
    assert!(matches!(search_body(&a), SearchBody::NoMatches));
    assert!(!NO_MATCHES_MSG.contains("repository"));
}

#[test]
fn typing_without_submitting_does_not_claim_there_are_no_matches() {
    let mut a = ready(true);
    a.push_query_char('z');
    a.push_query_char('e');
    assert!(!matches!(search_body(&a), SearchBody::NoMatches));
}

#[test]
fn editing_the_query_after_a_search_stops_claiming_there_are_no_matches() {
    let mut a = ready(true);
    a.push_query_char('z');
    a.on_event(Event::Matches(vec![]));
    assert!(matches!(search_body(&a), SearchBody::NoMatches));
    a.push_query_char('e');
    assert!(!matches!(search_body(&a), SearchBody::NoMatches));
}

#[test]
fn matches_present_do_not_show_the_no_matches_message() {
    let mut a = ready(true);
    a.push_query_char('z');
    a.on_event(Event::Matches(vec![a_match("zed", Some("mod")), a_match("zap", None)]));
    match search_body(&a) {
        SearchBody::Matches(lines) => {
            assert_eq!(lines, vec![("zed  (mod)".to_string(), true), ("zap".to_string(), false)]);
        }
        _ => panic!("matches were found"),
    }
}

#[test]
fn shows_the_message() {
    assert!(error_text("server not ready after 300s").contains("not ready"));
}

#[test]
fn mentions_how_to_dismiss() {
    assert!(error_text("boom").to_lowercase().contains("esc"));
}

#[test]
fn the_restart_hint_does_not_promise_a_restart() {
    let out = error_text("boom");
    assert!(!out.contains("restart server"));
    assert!(out.to_lowercase().contains("relaunch"));
}

#[test]
fn the_overlay_is_centred_and_clamped() {
    let area = Rect { x: 0, y: 0, width: 60, height: 10 };
    assert_eq!(error_rect(area), Rect { x: 4, y: 1, width: 52, height: 7 });
    let narrow = Rect { x: 2, y: 3, width: 10, height: 4 };
    assert_eq!(error_rect(narrow), Rect { x: 2, y: 3, width: 20, height: 4 });
    let wide = Rect { x: 0, y: 0, width: 200, height: 50 };
    assert_eq!(error_rect(wide), Rect { x: 65, y: 21, width: 70, height: 7 });
}
