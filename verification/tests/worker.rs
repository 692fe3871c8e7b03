use lspgraph::error::Error;
use lspgraph::graph::{Node, NodeId, NodeState};
use lspgraph::tui::protocol::{Event, Request, ResolvedExpansion};
use lspgraph::tui::worker::{expand_event, resolve, restart_event, search_event, seed_event, worker_step, WorkerStep};

fn id(name: &str) -> NodeId {
    NodeId { uri: "file:///a.rs".into(), line: 1, character: 3, name: name.into() }
}

#[test]
fn a_failed_search_warns_rather_than_killing_the_session() {
    match search_event(Err(Error::Protocol("nope".into()))) {
        Event::Warning(w) => assert_eq!(w, "protocol: nope"),
        other => panic!("expected Warning, got {other:?}"),
    }
    assert_eq!(search_event(Ok(vec![])), Event::Matches(vec![]));
}

#[test]
fn a_failed_expansion_is_reported_against_its_node() {
    match expand_event(id("f"), Err(Error::ServerExited)) {
        Event::Failed(n, w) => {
            assert_eq!(n, id("f"));
            assert_eq!(w, "language server exited");
        }
        other => panic!("expected Failed, got {other:?}"),
    }
    let ok = expand_event(id("f"), Ok(ResolvedExpansion { callers: vec![], callees: vec![] }));
    assert!(matches!(ok, Event::Expanded(_, _)));
}

#[test]
fn an_unknown_endpoint_still_becomes_a_node() {
    let n = resolve(None, id("g"));
    assert_eq!(n.id, id("g"));
    assert_eq!(n.kind_name, "Function");
    assert_eq!(n.state, NodeState::Unexpanded);
    let known = Node { id: id("h"), kind_name: "Method".into(), detail: Some("fn h()".into()), state: NodeState::Expanded };
    assert_eq!(resolve(Some(known.clone()), id("h")), known);
}

#[test]
fn restart_reports_clearly() {
    assert!(matches!(restart_event(), Event::Fatal(w) if w.contains("relaunching")));
    assert!(matches!(seed_event(Ok(None)), Event::Seeded(None)));
    assert!(matches!(seed_event(Err(Error::ServerExited)), Event::Warning(_)));
}

#[test]
fn the_worker_serves_requests_and_stops_on_shutdown_or_restart() {
    assert!(matches!(worker_step(&Request::Search("q".into())), WorkerStep::Serve));
    assert!(matches!(worker_step(&Request::Expand(id("f"))), WorkerStep::Serve));
    assert!(matches!(worker_step(&Request::Shutdown), WorkerStep::Stop(None)));
    match worker_step(&Request::Restart) {
        WorkerStep::Stop(Some(Event::Fatal(w))) => {
            assert_eq!(w, "language server restart requires relaunching lspgraph")
        }
        _ => panic!("a restart ends the session with a fatal report"),
    }
}
