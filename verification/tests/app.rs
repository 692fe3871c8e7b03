use lspgraph::graph::{Node, NodeId, NodeState, UnresolvedReason};
use lspgraph::symbols::{function_kind, Position, SymbolMatch};
use lspgraph::tui::keys::{handle_key, KeyCode, KeyEvent};
use lspgraph::tui::protocol::{Event, Request, ResolvedExpansion};
use lspgraph::tui::state::{App, Pane, Screen};

fn nid(name: &str) -> NodeId {
    NodeId { uri: "file:///a.rs".into(), line: 1, character: 3, name: name.into() }
}

fn node(name: &str) -> Node {
    Node { id: nid(name), kind_name: "Function".into(), detail: None, state: NodeState::Unexpanded }
}

fn node_in(name: &str, state: NodeState) -> Node {
    Node { id: nid(name), kind_name: "Function".into(), detail: None, state }
}

fn exp(callers: &[&str], callees: &[&str]) -> ResolvedExpansion {
    ResolvedExpansion {
        callers: callers.iter().map(|n| node(n)).collect(),
        callees: callees.iter().map(|n| node(n)).collect(),
    }
}

fn a_ready(can_search: bool) -> App {
    let mut a = App::new();
    a.on_event(Event::Ready { can_search });
    a
}

fn a_match(name: &str) -> SymbolMatch {
    SymbolMatch {
        name: name.into(),
        container: None,
        uri: "file:///tmp/a.rs".into(),
        position: Position::default(),
        kind: function_kind(),
    }
}

#[test]
fn starts_on_the_starting_screen() {
    let a = App::new();
    assert_eq!(a.screen(), Screen::Starting);
    assert!(!a.progress().is_empty(), "a 28s wait must show what it is waiting for");
}

#[test]
fn progress_events_update_the_starting_screen() {
    let mut a = App::new();
    a.on_event(Event::Progress("indexing".into()));
    assert_eq!(a.progress(), "indexing");
    assert_eq!(a.screen(), Screen::Starting);
}

#[test]
fn ready_moves_to_search_and_records_search_availability() {
    let mut a = App::new();
    a.on_event(Event::Ready { can_search: false });
    assert_eq!(a.screen(), Screen::Search);
    assert!(!a.can_search(), "must remember the server cannot search");
}

#[test]
fn seeding_moves_to_the_graph_and_requests_an_expansion() {
    let mut a = a_ready(true);
    let reqs = a.on_event(Event::Seeded(Some(node("f"))));
    assert_eq!(a.screen(), Screen::Graph);
    assert_eq!(reqs, vec![Request::Expand(nid("f"))]);
    assert!(a.is_pending(), "expansion in flight must read as pending");
}

#[test]
fn seeding_nothing_explains_itself() {
    let mut a = a_ready(true);
    let reqs = a.on_event(Event::Seeded(None));
    assert!(reqs.is_empty());
    assert_eq!(a.error(), Some("that symbol has no call hierarchy"));
}

#[test]
fn an_expansion_clears_pending_and_fills_both_panes() {
    let mut a = a_ready(true);
    a.on_event(Event::Seeded(Some(node("f"))));
    a.on_event(Event::Expanded(nid("f"), exp(&["up"], &["down"])));
    assert!(!a.is_pending());
    assert_eq!(a.callers().len(), 1);
    assert_eq!(a.callees().len(), 1);
}

#[test]
fn an_empty_expansion_is_not_pending() {
    let mut a = a_ready(true);
    a.on_event(Event::Seeded(Some(node("f"))));
    a.on_event(Event::Expanded(nid("f"), exp(&[], &[])));
    assert!(!a.is_pending(), "an empty result is resolved, not pending");
    assert!(a.callers().is_empty());
}

#[test]
fn recentring_pushes_history_and_asks_for_the_new_expansion() {
    let mut a = a_ready(true);
    a.on_event(Event::Seeded(Some(node("f"))));
    a.on_event(Event::Expanded(nid("f"), exp(&["up"], &[])));
    let req = a.recentre().expect("a caller is selected");
    assert_eq!(req, Request::Expand(nid("up")));
    assert_eq!(a.breadcrumb(), vec!["f", "up"]);
}

#[test]
fn back_pops_history() {
    let mut a = a_ready(true);
    a.on_event(Event::Seeded(Some(node("f"))));
    a.on_event(Event::Expanded(nid("f"), exp(&["up"], &[])));
    a.recentre();
    a.back();
    assert_eq!(a.breadcrumb(), vec!["f"]);
}

#[test]
fn back_at_the_root_does_nothing() {
    let mut a = a_ready(true);
    a.on_event(Event::Seeded(Some(node("f"))));
    assert!(a.back().is_none());
    assert_eq!(a.breadcrumb(), vec!["f"]);
}

#[test]
fn recentring_on_the_focus_pane_does_nothing() {
    let mut a = a_ready(true);
    a.on_event(Event::Seeded(Some(node("f"))));
    a.on_event(Event::Expanded(nid("f"), exp(&["up"], &[])));
    a.move_pane(true);
    assert_eq!(a.pane(), Pane::Focus);
    assert!(a.recentre().is_none());
    assert_eq!(a.breadcrumb(), vec!["f"]);
}

#[test]
fn a_failed_node_shows_an_error_without_quitting() {
    let mut a = a_ready(true);
    a.on_event(Event::Failed(nid("f"), "boom".into()));
    assert!(a.error().unwrap().contains("boom"));
    assert_eq!(a.error(), Some("f: boom"));
    assert!(!a.should_quit);
}

#[test]
fn a_failure_of_the_pending_expansion_is_remembered() {
    let mut a = a_ready(true);
    a.on_event(Event::Seeded(Some(node("f"))));
    a.on_event(Event::Failed(nid("f"), "content modified".into()));
    assert!(!a.is_pending());
    assert!(a.expansion_failed());
    a.dismiss_error();
    assert!(a.error().is_none());
    assert!(a.expansion_failed(), "dismissing the overlay leaves the panes as they were");
}

#[test]
fn a_warning_shows_an_error_without_quitting() {
    let mut a = a_ready(true);
    a.on_event(Event::Warning("search failed".into()));
    assert!(a.error().unwrap().contains("search failed"));
    assert!(!a.should_quit, "a recoverable warning must not end the session");
}

#[test]
fn fatal_sets_error_and_quits() {
    let mut a = App::new();
    a.on_event(Event::Fatal("server died".into()));
    assert!(a.error().unwrap().contains("server died"));
    assert!(a.should_quit);
}

#[test]
fn an_unresolved_focus_explains_itself_in_the_status_line() {
    let mut a = a_ready(true);
    a.on_event(Event::Seeded(Some(node("over"))));
    a.set_focus_for_test(node_in("over", NodeState::Unresolved(UnresolvedReason::NoCallHierarchyItem)));
    let s = a.status();
    assert!(s.contains("overload signature") || s.contains("anonymous"), "unresolved reason must be explained, got {s:?}");
}

#[test]
fn a_transient_unresolved_focus_says_it_may_resolve_later() {
    let mut a = a_ready(true);
    a.on_event(Event::Seeded(Some(node("x"))));
    a.set_focus_for_test(node_in("x", NodeState::Unresolved(UnresolvedReason::TransientContentModified)));
    assert!(a.status().to_lowercase().contains("later"));
}

#[test]
fn selection_is_clamped_at_both_ends() {
    let mut a = a_ready(true);
    a.on_event(Event::Seeded(Some(node("f"))));
    a.on_event(Event::Expanded(nid("f"), exp(&["a", "b"], &[])));
    a.select_prev();
    assert_eq!(a.selected_index(Pane::Callers), 0);
    a.select_next();
    a.select_next();
    a.select_next();
    assert_eq!(a.selected_index(Pane::Callers), 1, "must not run past the end");
}

#[test]
fn pane_movement_stops_at_the_edges() {
    let mut a = App::new();
    a.move_pane(false);
    assert_eq!(a.pane(), Pane::Callers);
    a.move_pane(true);
    a.move_pane(true);
    a.move_pane(true);
    assert_eq!(a.pane(), Pane::Callees);
}

#[test]
fn a_stale_expansion_does_not_overwrite_the_current_panes() {
    let mut a = a_ready(true);
    a.on_event(Event::Seeded(Some(node("f"))));
    a.on_event(Event::Expanded(nid("f"), exp(&["up"], &[])));
    a.recentre();
    a.back();
    a.on_event(Event::Expanded(nid("up"), exp(&["ghost"], &["ghost2"])));
    assert_eq!(a.focus().unwrap().id.name, "f", "focus must still be f");
    assert!(!a.callers().iter().any(|n| n.id.name == "ghost"));
    assert!(!a.callees().iter().any(|n| n.id.name == "ghost2"));
    assert!(
        a.is_pending(),
        "f's own expansion has not arrived; the stale reply for up must not be mistaken for it"
    );
}

#[test]
fn typing_builds_a_query_and_submits_it() {
    let mut a = a_ready(true);
    a.push_query_char('s');
    a.push_query_char('e');
    a.pop_query_char();
    assert_eq!(a.query(), "s");
    assert_eq!(a.submit_query(), Some(Request::Search("s".into())));
}

#[test]
fn a_server_that_cannot_search_never_issues_a_search() {
    let mut a = a_ready(false);
    a.push_query_char('s');
    assert_eq!(a.submit_query(), None, "must not send a doomed request");
}

#[test]
fn an_empty_query_is_not_submitted() {
    let mut a = a_ready(true);
    assert_eq!(a.submit_query(), None);
}

#[test]
fn matches_are_chosen_by_selection() {
    let mut a = a_ready(true);
    a.on_event(Event::Matches(vec![a_match("one"), a_match("two")]));
    assert!(a.searched());
    a.select_match_next();
    a.select_match_next();
    assert_eq!(a.selected_match(), 1);
    assert_eq!(a.chosen_match(), Some(Request::Seed(a_match("two"))));
    a.select_match_prev();
    a.select_match_prev();
    assert_eq!(a.selected_match(), 0);
    a.push_query_char('x');
    assert!(!a.searched(), "an edited query has not been answered");
}

#[test]
fn requests_compare_by_value() {
    assert_eq!(Request::Expand(nid("f")), Request::Expand(nid("f")));
    assert_ne!(Request::Expand(nid("f")), Request::Expand(nid("g")));
}

#[test]
fn ready_carries_whether_search_is_available() {
    assert_ne!(Event::Ready { can_search: true }, Event::Ready { can_search: false });
}

#[test]
fn a_failed_node_is_not_fatal() {
    let f = Event::Failed(nid("f"), "boom".into());
    assert!(!matches!(f, Event::Fatal(_)));
}

fn k(code: KeyCode) -> KeyEvent {
    KeyEvent::from(code)
}

fn graph_app() -> App {
    let mut a = a_ready(true);
    a.on_event(Event::Seeded(Some(node("f"))));
    a.on_event(Event::Expanded(nid("f"), exp(&["up"], &["down"])));
    a
}

#[test]
fn q_quits_from_the_graph() {
    let mut a = graph_app();
    handle_key(&mut a, k(KeyCode::Char('q')));
    assert!(a.should_quit);
}

#[test]
fn enter_recentres_and_requests_an_expansion() {
    let mut a = graph_app();
    let reqs = handle_key(&mut a, k(KeyCode::Enter));
    assert_eq!(reqs, vec![Request::Expand(nid("up"))]);
    assert_eq!(a.breadcrumb(), vec!["f", "up"]);
}

#[test]
fn u_goes_back() {
    let mut a = graph_app();
    handle_key(&mut a, k(KeyCode::Enter));
    handle_key(&mut a, k(KeyCode::Char('u')));
    assert_eq!(a.breadcrumb(), vec!["f"]);
}

#[test]
fn slash_opens_search() {
    let mut a = graph_app();
    handle_key(&mut a, k(KeyCode::Char('/')));
    assert_eq!(a.screen(), Screen::Search);
}

#[test]
fn typing_in_search_does_not_quit_on_q() {
    let mut a = a_ready(true);
    handle_key(&mut a, k(KeyCode::Char('q')));
    assert!(!a.should_quit, "'q' is a query character in search, not a quit");
    assert_eq!(a.query(), "q");
}

#[test]
fn esc_leaves_search_without_quitting() {
    let mut a = a_ready(true);
    handle_key(&mut a, k(KeyCode::Esc));
    assert!(!a.should_quit);
}

#[test]
fn esc_returns_from_search_to_the_graph() {
    let mut a = graph_app();
    handle_key(&mut a, k(KeyCode::Char('/')));
    handle_key(&mut a, k(KeyCode::Esc));
    assert_eq!(a.screen(), Screen::Graph);
}

#[test]
fn enter_in_search_submits_then_seeds() {
    let mut a = a_ready(true);
    handle_key(&mut a, k(KeyCode::Char('f')));
    assert_eq!(handle_key(&mut a, k(KeyCode::Enter)), vec![Request::Search("f".into())]);
    a.on_event(Event::Matches(vec![a_match("f")]));
    assert_eq!(handle_key(&mut a, k(KeyCode::Enter)), vec![Request::Seed(a_match("f"))]);
}

#[test]
fn while_an_error_shows_only_its_keys_work() {
    let mut a = graph_app();
    a.on_event(Event::Warning("w".into()));
    assert!(handle_key(&mut a, k(KeyCode::Enter)).is_empty());
    assert_eq!(a.breadcrumb(), vec!["f"]);
    assert_eq!(handle_key(&mut a, k(KeyCode::Char('r'))), vec![Request::Restart]);
    assert!(a.error().is_none());
    a.on_event(Event::Warning("w".into()));
    handle_key(&mut a, k(KeyCode::Esc));
    assert!(a.error().is_none());
    assert!(!a.should_quit);
}

#[test]
fn arrows_move_between_and_within_panes() {
    let mut a = a_ready(true);
    a.on_event(Event::Seeded(Some(node("f"))));
    a.on_event(Event::Expanded(nid("f"), exp(&["a"], &["x", "y"])));
    handle_key(&mut a, k(KeyCode::Right));
    handle_key(&mut a, k(KeyCode::Right));
    assert_eq!(a.pane(), Pane::Callees);
    handle_key(&mut a, k(KeyCode::Down));
    assert_eq!(a.selected_index(Pane::Callees), 1);
    handle_key(&mut a, k(KeyCode::Up));
    assert_eq!(a.selected_index(Pane::Callees), 0);
    handle_key(&mut a, k(KeyCode::Left));
    assert_eq!(a.pane(), Pane::Focus);
}
