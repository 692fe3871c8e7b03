//! The interface and the worker that owns the engine speak only these
//! types: plain data, no terminal and no language server.

use crate::graph::{IdView, Node, NodeId};
use crate::symbols::{MatchView, SymbolMatch};
use vstd::prelude::*;

verus! {

#[derive(Debug, Clone, PartialEq)]
pub enum Request {
    Search(String),
    Seed(SymbolMatch),
    Expand(NodeId),
    Restart,
    Shutdown,
}

#[derive(Debug, Clone, PartialEq)]
pub enum Event {
    /// What the worker is waiting for while the server starts.
    Progress(String),
    /// The server is ready. `can_search` is false when it does not advertise
    /// `workspaceSymbolProvider`.
    Ready { can_search: bool },
    Matches(Vec<SymbolMatch>),
    /// The seeded symbol, resolved to its full `Node` (signature and all) so
    /// the interface never has to fall back to a bare name.
    Seeded(Option<Node>),
    Expanded(NodeId, ResolvedExpansion),
    /// A per-node failure. The session continues.
    Failed(NodeId, String),
    /// A recoverable failure with no particular node to blame: a failed
    /// search, or a failed seed. The session continues.
    Warning(String),
    /// The session cannot continue.
    Fatal(String),
}

/// An expansion whose endpoints have been resolved to full `Node`s, so the
/// interface can show each symbol's signature rather than just its name.
#[derive(Debug, Clone, PartialEq)]
pub struct ResolvedExpansion {
    pub callers: Vec<Node>,
    pub callees: Vec<Node>,
}

/// A request as a value.
pub enum RequestView {
    Search(Seq<char>),
    Seed(MatchView),
    Expand(IdView),
    Restart,
    Shutdown,
}

pub open spec fn request_view(r: Request) -> RequestView {
    match r {
        Request::Search(q) => RequestView::Search(q@),
        Request::Seed(m) => RequestView::Seed(m@),
        Request::Expand(i) => RequestView::Expand(i@),
        Request::Restart => RequestView::Restart,
        Request::Shutdown => RequestView::Shutdown,
    }
}

pub open spec fn requests_view(rs: Seq<Request>) -> Seq<RequestView> {
    rs.map_values(|r: Request| request_view(r))
}

} // verus!
