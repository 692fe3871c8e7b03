use lspgraph::engine::{Engine, ExpandPlan};
use lspgraph::error::Error;
use lspgraph::graph::{CallGraph, CallItem, Node, NodeId, NodeState, UnresolvedReason};
use lspgraph::symbols::{NamedCallable, Position};

fn item(name: &str, line: u32) -> CallItem<u32> {
    CallItem {
        name: name.into(),
        kind_name: "Function".into(),
        detail: Some(format!("fn {name}()")),
        uri: "file:///a.rs".into(),
        selection_line: line,
        selection_character: 3,
        payload: line,
    }
}

fn nid(name: &str, line: u32) -> NodeId {
    NodeId { uri: "file:///a.rs".into(), line, character: 3, name: name.into() }
}

fn cand(name: &str) -> NamedCallable {
    NamedCallable { name: name.into(), uri: "file:///a.ts".into(), position: Position { line: 4, character: 9 } }
}

#[test]
fn unresolved_nodes_are_recorded_not_dropped() {
    let mut g = CallGraph::new();
    let id = NodeId { uri: "file:///a.ts".into(), line: 4, character: 9, name: "gt".into() };
    g.upsert(Node {
        id: id.clone(),
        kind_name: "Function".into(),
        detail: None,
        state: NodeState::Unresolved(UnresolvedReason::NoCallHierarchyItem),
    });
    assert_eq!(g.len(), 1);
    assert!(matches!(g.get(&id).unwrap().state, NodeState::Unresolved(UnresolvedReason::NoCallHierarchyItem)));
}

#[test]
fn seeding_with_no_item_records_an_unresolved_node() {
    let mut e: Engine<u32> = Engine::new();
    let r = e.seed(&cand("gt"), Some(Ok(vec![])));
    assert!(matches!(r, Ok(None)));
    let id = NodeId { uri: "file:///a.ts".into(), line: 4, character: 9, name: "gt".into() };
    let n = e.graph().get(&id).expect("recorded");
    assert_eq!(n.state, NodeState::Unresolved(UnresolvedReason::NoCallHierarchyItem));
    assert_eq!(n.kind_name, "Unknown");
}

#[test]
fn content_modified_while_seeding_is_recorded_as_transient() {
    let mut e: Engine<u32> = Engine::new();
    let r = e.seed(&cand("gt"), Some(Err(Error::ContentModified { method: "m".into() })));
    assert!(matches!(r, Ok(None)));
    let id = NodeId { uri: "file:///a.ts".into(), line: 4, character: 9, name: "gt".into() };
    assert_eq!(
        e.graph().get(&id).unwrap().state,
        NodeState::Unresolved(UnresolvedReason::TransientContentModified)
    );
}

#[test]
fn other_seeding_errors_pass_through_and_record_nothing() {
    let mut e: Engine<u32> = Engine::new();
    let r = e.seed(&cand("gt"), Some(Err(Error::ServerExited)));
    assert!(matches!(r, Err(Error::ServerExited)));
    assert!(e.graph().is_empty());
    let r = e.seed(&cand("gt"), None);
    assert!(matches!(r, Ok(None)));
    assert!(e.graph().is_empty());
}

#[test]
fn seeding_interns_the_first_item() {
    let mut e: Engine<u32> = Engine::new();
    let r = e.seed(&cand("f"), Some(Ok(vec![item("f", 1), item("other", 2)])));
    assert_eq!(r.unwrap(), Some(nid("f", 1)));
    assert_eq!(e.graph().len(), 1);
    assert_eq!(e.graph().get(&nid("f", 1)).unwrap().detail.as_deref(), Some("fn f()"));
}

#[test]
fn an_expansion_is_fetched_once_then_memoized() {
    let mut e: Engine<u32> = Engine::new();
    e.seed(&cand("f"), Some(Ok(vec![item("f", 1)]))).unwrap();
    let payload = match e.expand_plan(&nid("f", 1)) {
        ExpandPlan::Fetch(p) => *p,
        ExpandPlan::Known(_) => panic!("a fresh node must be fetched"),
    };
    assert_eq!(payload, 1);
    let exp = e.expand_finish(&nid("f", 1), Ok((vec![item("up", 5)], vec![item("down", 9)]))).unwrap();
    assert_eq!(exp.callers, vec![nid("up", 5)]);
    assert_eq!(exp.callees, vec![nid("down", 9)]);
    assert_eq!(e.expansions_performed(), 1);
    match e.expand_plan(&nid("f", 1)) {
        ExpandPlan::Known(again) => assert_eq!(again, exp),
        ExpandPlan::Fetch(_) => panic!("an expanded node must not reach the server again"),
    }
    assert_eq!(e.expansions_performed(), 1);
}

#[test]
fn a_node_without_an_item_expands_to_nothing() {
    let e: Engine<u32> = Engine::new();
    match e.expand_plan(&nid("nowhere", 3)) {
        ExpandPlan::Known(exp) => {
            assert!(exp.callers.is_empty());
            assert!(exp.callees.is_empty());
        }
        ExpandPlan::Fetch(_) => panic!("nothing to fetch"),
    }
}

#[test]
fn a_failed_fetch_changes_nothing() {
    let mut e: Engine<u32> = Engine::new();
    e.seed(&cand("f"), Some(Ok(vec![item("f", 1)]))).unwrap();
    let r = e.expand_finish(&nid("f", 1), Err(Error::ServerExited));
    assert!(matches!(r, Err(Error::ServerExited)));
    assert_eq!(e.expansions_performed(), 0);
    assert_eq!(e.graph().get(&nid("f", 1)).unwrap().state, NodeState::Unexpanded);
}

#[test]
fn invalidating_a_file_forgets_its_nodes_and_items() {
    let mut e: Engine<u32> = Engine::new();
    e.seed(&cand("f"), Some(Ok(vec![item("f", 1)]))).unwrap();
    e.invalidate_file("file:///a.rs");
    assert!(e.graph().is_empty());
    assert!(matches!(e.expand_plan(&nid("f", 1)), ExpandPlan::Known(_)));
}
