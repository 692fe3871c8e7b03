//! What the worker that owns the engine reports for each request. The
//! worker's thread, its channels and the engine calls belong to the program.

use crate::error::{error_text, Result};
use crate::graph::{Node, NodeId, NodeState};
use crate::symbols::SymbolMatch;
use crate::text::push_str;
use crate::tui::protocol::{Event, Request, RequestView, ResolvedExpansion};
use vstd::prelude::*;

verus! {

/// An endpoint as the graph knows it; an id the graph somehow does not know
/// still becomes a usable (if detail-less) node rather than being dropped.
pub fn resolve(found: Option<Node>, id: NodeId) -> (r: Node)
    ensures
        match found {
            Some(n) => r == n,
            None => r@ == (id@, "Function"@, None::<Seq<char>>, NodeState::Unexpanded),
        },
{
    match found {
        Some(n) => n,
        None => {
            let mut kind = String::new();
            push_str(&mut kind, "Function");
            Node { id, kind_name: kind, detail: None, state: NodeState::Unexpanded }
        },
    }
}

/// A search's report: the matches, or a warning (the session continues).
pub fn search_event(r: Result<Vec<SymbolMatch>>) -> (e: Event)
    ensures
        match r {
            Ok(ms) => e == Event::Matches(ms),
            Err(err) => e matches Event::Warning(w) && w@ == error_text(err),
        },
{
    match r {
        Ok(ms) => Event::Matches(ms),
        Err(err) => Event::Warning(err.to_string()),
    }
}

/// A seed's report: the resolved node (or that there is none), or a warning.
pub fn seed_event(r: Result<Option<Node>>) -> (e: Event)
    ensures
        match r {
            Ok(n) => e == Event::Seeded(n),
            Err(err) => e matches Event::Warning(w) && w@ == error_text(err),
        },
{
    match r {
        Ok(n) => Event::Seeded(n),
        Err(err) => Event::Warning(err.to_string()),
    }
}

/// An expansion's report: the resolved expansion, or a per-node failure
/// (the session continues).
pub fn expand_event(id: NodeId, r: Result<ResolvedExpansion>) -> (e: Event)
    ensures
        match r {
            Ok(x) => e == Event::Expanded(id, x),
            Err(err) => e matches Event::Failed(i, w) && i == id && w@ == error_text(err),
        },
{
    match r {
        Ok(x) => Event::Expanded(id, x),
        Err(err) => Event::Failed(id, err.to_string()),
    }
}

/// The worker owns an engine but not the recipe for building one, so a
/// restart request ends the session with this report.
pub fn restart_event() -> (e: Event)
    ensures
        e matches Event::Fatal(w) && w@ == "language server restart requires relaunching lspgraph"@,
{
    let mut s = String::new();
    push_str(&mut s, "language server restart requires relaunching lspgraph");
    Event::Fatal(s)
}

/// What the worker does with a request it receives.
pub enum WorkerStep {
    /// Serve it: one report, and the session goes on.
    Serve,
    /// End the session, after sending the report if there is one.
    Stop(Option<Event>),
}

/// Does the worker serve a request of this kind (rather than end on it)?
pub open spec fn is_served(r: RequestView) -> bool {
    r is Search || r is Seed || r is Expand
}

/// The worker's decision for one request: a search, a seed or an expansion
/// is served; a shutdown ends the session; a restart ends it with a fatal
/// report, since the worker cannot build a new engine.
pub fn worker_step(req: &Request) -> (r: WorkerStep)
    ensures
        is_served(crate::tui::protocol::request_view(*req)) ==> r is Serve,
        *req is Shutdown ==> r matches WorkerStep::Stop(None),
        *req is Restart ==> (r matches WorkerStep::Stop(Some(Event::Fatal(w)))
            && w@ == "language server restart requires relaunching lspgraph"@),
{
    match req {
        Request::Search(_) | Request::Seed(_) | Request::Expand(_) => WorkerStep::Serve,
        Request::Shutdown => WorkerStep::Stop(None),
        Request::Restart => WorkerStep::Stop(Some(restart_event())),
    }
}

/// How many requests of a run the worker serves: those before the first
/// shutdown or restart.
pub open spec fn served_count(reqs: Seq<RequestView>) -> nat
    decreases reqs.len(),
{
    if reqs.len() == 0 || !is_served(reqs[0]) {
        0
    } else {
        1 + served_count(reqs.drop_first())
    }
}

/// Over a run of requests, the worker serves each request before the first
/// shutdown or restart, once and in order, and ends the session at that
/// request; a run that has none is served to its end.
pub proof fn lemma_run_serves_until_stop(reqs: Seq<RequestView>)
    ensures
        served_count(reqs) <= reqs.len(),
        forall|i: int| 0 <= i < served_count(reqs) ==> is_served(#[trigger] reqs[i]),
        served_count(reqs) < reqs.len() ==> !is_served(reqs[served_count(reqs) as int]),
    decreases reqs.len(),
{
    if reqs.len() > 0 && is_served(reqs[0]) {
        let rest = reqs.drop_first();
        lemma_run_serves_until_stop(rest);
        assert forall|i: int| 0 <= i < served_count(reqs) implies is_served(#[trigger] reqs[i]) by {
            if i > 0 {
                assert(reqs[i] == rest[i - 1]);
            }
        }
        if served_count(reqs) < reqs.len() {
            assert(reqs[served_count(reqs) as int] == rest[served_count(rest) as int]);
        }
    }
}

} // verus!
