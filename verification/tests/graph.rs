use lspgraph::graph::{CallGraph, Expansion, Node, NodeId, NodeState, UnresolvedReason};

fn id(name: &str, line: u32) -> NodeId {
    NodeId { uri: "file:///a.rs".into(), line, character: 3, name: name.into() }
}

fn node(name: &str, line: u32) -> Node {
    Node { id: id(name, line), kind_name: "Function".into(), detail: None, state: NodeState::Unexpanded }
}

#[test]
fn identity_distinguishes_same_name_at_different_positions() {
    assert_ne!(id("f", 1), id("f", 2));
    assert_eq!(id("f", 1), id("f", 1));
}

#[test]
fn upsert_preserves_existing_state() {
    let mut g = CallGraph::new();
    g.upsert(node("f", 1));
    g.set_state(&id("f", 1), NodeState::Expanded);
    g.upsert(node("f", 1));
    assert_eq!(g.get(&id("f", 1)).unwrap().state, NodeState::Expanded);
    assert_eq!(g.len(), 1);
}

#[test]
fn upsert_refreshes_kind_and_detail() {
    let mut g = CallGraph::new();
    g.upsert(node("f", 1));
    let mut again = node("f", 1);
    again.kind_name = "Method".into();
    again.detail = Some("fn f()".into());
    g.upsert(again);
    let n = g.get(&id("f", 1)).unwrap();
    assert_eq!(n.kind_name, "Method");
    assert_eq!(n.detail.as_deref(), Some("fn f()"));
}

#[test]
fn records_edges_in_both_directions() {
    let mut g = CallGraph::new();
    g.upsert(node("f", 1));
    let exp = Expansion { callers: vec![id("a", 5)], callees: vec![id("b", 9)] };
    g.record_expansion(&id("f", 1), &exp);
    assert_eq!(g.callers_of(&id("f", 1)).unwrap(), &[id("a", 5)]);
    assert_eq!(g.callees_of(&id("f", 1)).unwrap(), &[id("b", 9)]);
    assert_eq!(g.get(&id("f", 1)).unwrap().state, NodeState::Expanded);
}

#[test]
fn unexpanded_node_has_no_edge_entries() {
    let mut g = CallGraph::new();
    g.upsert(node("f", 1));
    assert!(g.callers_of(&id("f", 1)).is_none());
}

#[test]
fn set_state_of_an_unknown_node_adds_nothing() {
    let mut g = CallGraph::new();
    g.set_state(&id("ghost", 1), NodeState::Expanded);
    assert!(g.is_empty());
    assert!(g.get(&id("ghost", 1)).is_none());
}

#[test]
fn remove_file_drops_nodes_and_their_edges() {
    let mut g = CallGraph::new();
    g.upsert(node("f", 1));
    g.upsert(node("g", 2));
    g.record_expansion(&id("f", 1), &Expansion { callers: vec![], callees: vec![id("g", 2)] });
    g.remove_file("file:///a.rs");
    assert_eq!(g.len(), 0);
    assert!(g.callees_of(&id("f", 1)).is_none());
}

#[test]
fn remove_file_leaves_other_files_alone() {
    let mut g = CallGraph::new();
    g.upsert(node("f", 1));
    let mut other = node("h", 1);
    other.id.uri = "file:///b.rs".into();
    g.upsert(other);
    g.remove_file("file:///a.rs");
    assert_eq!(g.len(), 1);
}

#[test]
fn remove_file_strips_dangling_references_from_surviving_nodes() {
    let mut g = CallGraph::new();

    let mut survivor = node("h", 1);
    survivor.id.uri = "file:///b.rs".into();
    let survivor_id = survivor.id.clone();
    g.upsert(survivor);

    let mut bystander = node("k", 7);
    bystander.id.uri = "file:///b.rs".into();
    let bystander_id = bystander.id.clone();
    g.upsert(bystander);

    g.upsert(node("f", 1));
    g.upsert(node("g", 2));

    g.record_expansion(
        &survivor_id,
        &Expansion { callers: vec![id("f", 1)], callees: vec![id("g", 2), bystander_id.clone()] },
    );

    g.remove_file("file:///a.rs");

    assert_eq!(g.len(), 2, "only the two b.rs nodes should survive");
    assert_eq!(
        g.callers_of(&survivor_id).unwrap(),
        &[] as &[NodeId],
        "dangling caller reference into the removed file survived"
    );
    assert_eq!(
        g.callees_of(&survivor_id).unwrap(),
        &[bystander_id],
        "removal should strip only the references into the removed file"
    );
}

#[test]
fn nodes_in_file_lists_only_that_file_in_insertion_order() {
    let mut g = CallGraph::new();
    g.upsert(node("f", 1));
    let mut other = node("h", 1);
    other.id.uri = "file:///b.rs".into();
    g.upsert(other);
    g.upsert(node("g", 2));
    assert_eq!(g.nodes_in_file("file:///a.rs"), vec![id("f", 1), id("g", 2)]);
    assert!(g.nodes_in_file("file:///c.rs").is_empty());
}

#[test]
fn unresolved_reason_is_human_readable() {
    let text = UnresolvedReason::NoCallHierarchyItem.to_string();
    assert!(text.contains("overload signature"));
}

#[test]
fn transient_content_modified_has_distinct_display_text() {
    let a = UnresolvedReason::NoCallHierarchyItem.to_string();
    let b = UnresolvedReason::TransientContentModified.to_string();
    assert_ne!(a, b);
    assert!(b.contains("content modified"));
}

#[test]
fn call_graph_round_trips_through_json() {
    // The saved form of a graph is its parts; rebuilding from them gives the
    // same graph back.
    let mut g = CallGraph::new();
    g.upsert(node("f", 1));
    let exp = Expansion { callers: vec![id("a", 5)], callees: vec![id("b", 9)] };
    g.record_expansion(&id("f", 1), &exp);

    let (nodes, callers, callees) = g.to_parts();
    let restored = CallGraph::from_parts(nodes, callers, callees);

    let restored_node = restored.get(&id("f", 1)).expect("node survives round trip");
    assert_eq!(restored_node.state, NodeState::Expanded);
    assert_eq!(restored.callers_of(&id("f", 1)).unwrap(), &[id("a", 5)]);
    assert_eq!(restored.callees_of(&id("f", 1)).unwrap(), &[id("b", 9)]);
}

#[test]
fn rebuilding_from_parts_keeps_the_last_of_a_repeated_key() {
    let mut first = node("f", 1);
    first.kind_name = "Old".into();
    let second = node("f", 1);
    let g = CallGraph::from_parts(vec![first, second, node("g", 2)], vec![], vec![]);
    assert_eq!(g.len(), 2);
    assert_eq!(g.get(&id("f", 1)).unwrap().kind_name, "Function");
}

#[test]
fn removing_a_file_twice_changes_nothing_more() {
    let mut g = CallGraph::new();
    g.upsert(node("f", 1));
    let mut other = node("h", 2);
    other.id.uri = "file:///b.rs".into();
    g.upsert(other.clone());
    g.record_expansion(&other.id, &Expansion { callers: vec![id("f", 1)], callees: vec![] });
    let before = g.len();
    let in_file = g.nodes_in_file("file:///a.rs").len();
    g.remove_file("file:///a.rs");
    assert_eq!(g.len(), before - in_file);
    let once = g.clone();
    g.remove_file("file:///a.rs");
    assert_eq!(g.len(), once.len());
    assert_eq!(g.callers_of(&other.id), once.callers_of(&other.id));
    assert_eq!(g.callers_of(&other.id).map(|v| v.len()), Some(0));
}

#[test]
fn remove_file_prunes_the_lists_of_ids_that_are_not_nodes() {
    let mut g = CallGraph::new();
    let mut b = node("h", 2);
    b.id.uri = "file:///b.rs".into();
    g.upsert(b.clone());
    g.upsert(node("f", 1));
    let ghost = id("ghost", 9);
    g.record_expansion(&ghost, &Expansion { callers: vec![b.id.clone(), id("f", 1)], callees: vec![] });
    g.record_expansion(&id("f", 1), &Expansion { callers: vec![b.id.clone()], callees: vec![] });
    g.remove_file("file:///a.rs");
    assert_eq!(g.callers_of(&ghost).map(|v| v.to_vec()), Some(vec![b.id.clone()]));
    assert!(g.callers_of(&id("f", 1)).is_none());
    assert_eq!(g.len(), 1);
}
