//! All interface behaviour, with no rendering and no engine.

use crate::graph::{
    clone_id, clone_node, nodes_view, same_id, unresolved_text, IdView, Node, NodeId,
    NodeState, NodeView,
};
use crate::symbols::{clone_match, matches_view, MatchView, SymbolMatch};
use crate::text::{push_char, push_str, str_chars, string_from_chars};
use crate::tui::protocol::{Event, Request};
use vstd::prelude::*;
use vstd::slice::slice_subrange;

verus! {

#[derive(Debug, Clone, Copy, PartialEq, Eq, Structural)]
pub enum Screen {
    Starting,
    Search,
    Graph,
}

#[derive(Debug, Clone, Copy, PartialEq, Eq, Structural)]
pub enum Pane {
    Callers,
    Focus,
    Callees,
}

/// The interface's state as values.
#[verifier::ext_equal]
pub struct AppView {
    pub screen: Screen,
    pub progress: Seq<char>,
    pub can_search: bool,
    pub query: Seq<char>,
    pub matches: Seq<MatchView>,
    pub match_sel: nat,
    pub focus: Option<NodeView>,
    pub callers: Seq<NodeView>,
    pub callees: Seq<NodeView>,
    /// The node whose expansion is in flight.
    pub pending: Option<IdView>,
    /// The foci re-centred away from, oldest first.
    pub history: Seq<NodeView>,
    pub pane: Pane,
    pub caller_sel: nat,
    pub callee_sel: nat,
    pub error: Option<Seq<char>>,
    pub should_quit: bool,
    /// Has the current query been answered?
    pub searched: bool,
    /// Did the focused node's expansion fail?
    pub failed: bool,
}

pub struct App {
    screen: Screen,
    progress: String,
    can_search: bool,
    query: String,
    matches: Vec<SymbolMatch>,
    match_sel: usize,
    focus: Option<Node>,
    callers: Vec<Node>,
    callees: Vec<Node>,
    pending: Option<NodeId>,
    history: Vec<Node>,
    pane: Pane,
    caller_sel: usize,
    callee_sel: usize,
    error: Option<String>,
    pub should_quit: bool,
    searched: bool,
    failed: bool,
}

pub open spec fn opt_node_view(o: Option<Node>) -> Option<NodeView> {
    match o {
        Some(n) => Some(n@),
        None => None,
    }
}

pub open spec fn opt_id_view(o: Option<NodeId>) -> Option<IdView> {
    match o {
        Some(n) => Some(n@),
        None => None,
    }
}

impl View for App {
    type V = AppView;

    closed spec fn view(&self) -> AppView {
        AppView {
            screen: self.screen,
            progress: self.progress@,
            can_search: self.can_search,
            query: self.query@,
            matches: matches_view(self.matches@),
            match_sel: self.match_sel as nat,
            focus: opt_node_view(self.focus),
            callers: nodes_view(self.callers@),
            callees: nodes_view(self.callees@),
            pending: opt_id_view(self.pending),
            history: nodes_view(self.history@),
            pane: self.pane,
            caller_sel: self.caller_sel as nat,
            callee_sel: self.callee_sel as nat,
            error: crate::graph::opt_view(self.error),
            should_quit: self.should_quit,
            searched: self.searched,
            failed: self.failed,
        }
    }
}

/// A selection is either at the top of an empty list or on an entry.
pub open spec fn sel_ok(sel: nat, len: nat) -> bool {
    sel == 0 || sel < len
}

/// Every selection points into its list.
pub open spec fn app_wf(v: AppView) -> bool {
    &&& sel_ok(v.match_sel, v.matches.len())
    &&& sel_ok(v.caller_sel, v.callers.len())
    &&& sel_ok(v.callee_sel, v.callees.len())
}

/// The state before the server is ready.
pub open spec fn initial_view() -> AppView {
    AppView {
        screen: Screen::Starting,
        progress: "starting language server"@,
        can_search: false,
        query: Seq::empty(),
        matches: Seq::empty(),
        match_sel: 0,
        focus: None,
        callers: Seq::empty(),
        callees: Seq::empty(),
        pending: None,
        history: Seq::empty(),
        pane: Pane::Callers,
        caller_sel: 0,
        callee_sel: 0,
        error: None,
        should_quit: false,
        searched: false,
        failed: false,
    }
}

/// One step down a list of `len` entries, stopping at the last.
pub open spec fn step_down(sel: nat, len: nat) -> nat {
    if len == 0 {
        sel
    } else if sel + 1 < len {
        sel + 1
    } else {
        (len - 1) as nat
    }
}

/// One step up, stopping at the first.
pub open spec fn step_up(sel: nat) -> nat {
    if sel == 0 {
        0
    } else {
        (sel - 1) as nat
    }
}

/// The pane one step left or right, stopping at the edges.
pub open spec fn moved_pane(p: Pane, right: bool) -> Pane {
    match (p, right) {
        (Pane::Callers, true) => Pane::Focus,
        (Pane::Focus, true) => Pane::Callees,
        (Pane::Callees, true) => Pane::Callees,
        (Pane::Callees, false) => Pane::Focus,
        (Pane::Focus, false) => Pane::Callers,
        (Pane::Callers, false) => Pane::Callers,
    }
}

/// The node that re-centring would move to: the selected caller or callee.
pub open spec fn recentre_target(v: AppView) -> Option<NodeView> {
    match v.pane {
        Pane::Callers => if v.caller_sel < v.callers.len() {
            Some(v.callers[v.caller_sel as int])
        } else {
            None
        },
        Pane::Callees => if v.callee_sel < v.callees.len() {
            Some(v.callees[v.callee_sel as int])
        } else {
            None
        },
        Pane::Focus => None,
    }
}

/// `v` focused on `n`, its expansion asked for, both panes emptied.
pub open spec fn refocused(v: AppView, n: NodeView) -> AppView {
    AppView {
        focus: Some(n),
        callers: Seq::empty(),
        callees: Seq::empty(),
        caller_sel: 0,
        callee_sel: 0,
        pending: Some(n.0),
        failed: false,
        ..v
    }
}

/// Re-centring on `next`: the old focus goes onto the history.
pub open spec fn after_recentre(v: AppView, next: NodeView) -> AppView {
    refocused(
        AppView {
            history: match v.focus {
                Some(f) => v.history.push(f),
                None => v.history,
            },
            ..v
        },
        next,
    )
}

/// Going back: the last focus in the history becomes the focus again.
pub open spec fn after_back(v: AppView) -> Option<AppView> {
    if v.history.len() == 0 {
        None
    } else {
        Some(refocused(AppView { history: v.history.drop_last(), ..v }, v.history.last()))
    }
}

/// The names along the way to the focus, oldest first, the focus last.
pub open spec fn breadcrumb_names(v: AppView) -> Seq<Seq<char>> {
    v.history.map_values(|n: NodeView| n.0.3) + match v.focus {
        Some(f) => seq![f.0.3],
        None => Seq::empty(),
    }
}

/// The explanation shown for an unresolved focus; empty otherwise.
pub open spec fn status_text(v: AppView) -> Seq<char> {
    match v.focus {
        Some(n) => match n.3 {
            NodeState::Unresolved(r) => unresolved_text(r),
            _ => Seq::empty(),
        },
        None => Seq::empty(),
    }
}

/// Is the in-flight expansion the one for `id`?
pub open spec fn awaits(v: AppView, id: IdView) -> bool {
    v.pending == Some(id)
}

fn one_expand(id: NodeId) -> (r: Vec<Request>)
    ensures
        r@.len() == 1,
        r@[0] matches Request::Expand(i) && i@ == id@,
{
    let mut v: Vec<Request> = Vec::new();
    v.push(Request::Expand(id));
    v
}

impl App {
    pub fn new() -> (a: App)
        ensures
            a@ == initial_view(),
            app_wf(a@),
    {
        let mut progress = String::new();
        push_str(&mut progress, "starting language server");
        let a = App {
            screen: Screen::Starting,
            progress,
            can_search: false,
            query: String::new(),
            matches: Vec::new(),
            match_sel: 0,
            focus: None,
            callers: Vec::new(),
            callees: Vec::new(),
            pending: None,
            history: Vec::new(),
            pane: Pane::Callers,
            caller_sel: 0,
            callee_sel: 0,
            error: None,
            should_quit: false,
            searched: false,
            failed: false,
        };
        proof {
            assert(a@ =~= initial_view());
        }
        a
    }

    pub fn screen(&self) -> (r: Screen)
        ensures
            r == self@.screen,
    {
        self.screen
    }

    pub fn progress(&self) -> (r: &str)
        ensures
            r@ == self@.progress,
    {
        self.progress.as_str()
    }

    pub fn can_search(&self) -> (r: bool)
        ensures
            r == self@.can_search,
    {
        self.can_search
    }

    pub fn query(&self) -> (r: &str)
        ensures
            r@ == self@.query,
    {
        self.query.as_str()
    }

    pub fn matches(&self) -> (r: &[SymbolMatch])
        ensures
            matches_view(r@) == self@.matches,
    {
        self.matches.as_slice()
    }

    pub fn focus(&self) -> (r: Option<&Node>)
        ensures
            match r {
                Some(n) => self@.focus == Some(n@),
                None => self@.focus is None,
            },
    {
        match &self.focus {
            Some(n) => Some(n),
            None => None,
        }
    }

    pub fn callers(&self) -> (r: &[Node])
        ensures
            nodes_view(r@) == self@.callers,
    {
        self.callers.as_slice()
    }

    pub fn callees(&self) -> (r: &[Node])
        ensures
            nodes_view(r@) == self@.callees,
    {
        self.callees.as_slice()
    }

    pub fn error(&self) -> (r: Option<&str>)
        ensures
            match r {
                Some(e) => self@.error == Some(e@),
                None => self@.error is None,
            },
    {
        match &self.error {
            Some(e) => Some(e.as_str()),
            None => None,
        }
    }

    pub fn pane(&self) -> (r: Pane)
        ensures
            r == self@.pane,
    {
        self.pane
    }

    /// Has the current query been answered?
    pub fn searched(&self) -> (r: bool)
        ensures
            r == self@.searched,
    {
        self.searched
    }

    /// Did the focused node's expansion come back as a failure?
    pub fn expansion_failed(&self) -> (r: bool)
        ensures
            r == self@.failed,
    {
        self.failed
    }

    pub fn push_query_char(&mut self, c: char)
        requires
            app_wf(old(self)@),
        ensures
            app_wf(final(self)@),
            final(self)@ == (AppView { query: old(self)@.query.push(c), searched: false, ..old(self)@ }),
    {
        push_char(&mut self.query, c);
        self.searched = false;
        proof {
            assert(self@ =~= (AppView { query: old(self)@.query.push(c), searched: false, ..old(self)@ }));
        }
    }

    pub fn pop_query_char(&mut self)
        requires
            app_wf(old(self)@),
        ensures
            app_wf(final(self)@),
            final(self)@ == (AppView {
                query: if old(self)@.query.len() > 0 {
                    old(self)@.query.drop_last()
                } else {
                    old(self)@.query
                },
                searched: false,
                ..old(self)@
            }),
    {
        let cs = str_chars(self.query.as_str());
        if cs.len() > 0 {
            let kept = slice_subrange(cs.as_slice(), 0, cs.len() - 1);
            self.query = string_from_chars(kept);
            proof {
                assert(kept@ =~= old(self)@.query.drop_last());
            }
        }
        self.searched = false;
        proof {
            assert(self@ =~= (AppView {
                query: if old(self)@.query.len() > 0 {
                    old(self)@.query.drop_last()
                } else {
                    old(self)@.query
                },
                searched: false,
                ..old(self)@
            }));
        }
    }

    /// Ask the worker to search. `None` when the server cannot search, so
    /// the caller can leave the explanatory message on screen, or when there
    /// is nothing to search for.
    pub fn submit_query(&mut self) -> (r: Option<Request>)
        ensures
            final(self)@ == old(self)@,
            r is None <==> (!old(self)@.can_search || old(self)@.query.len() == 0),
            r matches Some(q) ==> (q matches Request::Search(s) && s@ == old(self)@.query),
    {
        if !self.can_search || str_chars(self.query.as_str()).len() == 0 {
            return None;
        }
        Some(Request::Search(self.query.clone()))
    }

    pub fn select_match_next(&mut self)
        requires
            app_wf(old(self)@),
        ensures
            app_wf(final(self)@),
            final(self)@ == (AppView {
                match_sel: step_down(old(self)@.match_sel, old(self)@.matches.len()),
                ..old(self)@
            }),
    {
        if self.matches.len() > 0 {
            if self.match_sel + 1 < self.matches.len() {
                self.match_sel = self.match_sel + 1;
            } else {
                self.match_sel = self.matches.len() - 1;
            }
        }
        proof {
            assert(self@ =~= (AppView {
                match_sel: step_down(old(self)@.match_sel, old(self)@.matches.len()),
                ..old(self)@
            }));
        }
    }

    pub fn select_match_prev(&mut self)
        requires
            app_wf(old(self)@),
        ensures
            app_wf(final(self)@),
            final(self)@ == (AppView { match_sel: step_up(old(self)@.match_sel), ..old(self)@ }),
    {
        if self.match_sel > 0 {
            self.match_sel = self.match_sel - 1;
        }
        proof {
            assert(self@ =~= (AppView { match_sel: step_up(old(self)@.match_sel), ..old(self)@ }));
        }
    }

    pub fn selected_match(&self) -> (r: usize)
        ensures
            r == self@.match_sel,
    {
        self.match_sel
    }

    /// Seed the highlighted match, if there is one.
    pub fn chosen_match(&mut self) -> (r: Option<Request>)
        ensures
            final(self)@ == old(self)@,
            r is Some <==> old(self)@.match_sel < old(self)@.matches.len(),
            r matches Some(q) ==> (q matches Request::Seed(m) && m@ == old(self)@.matches[old(
                self,
            )@.match_sel as int]),
    {
        if self.match_sel < self.matches.len() {
            Some(Request::Seed(clone_match(&self.matches[self.match_sel])))
        } else {
            None
        }
    }

    /// True while the focused node's expansion is still in flight. The views
    /// use this to draw a spinner instead of an empty list.
    pub fn is_pending(&self) -> (r: bool)
        ensures
            r == self@.pending is Some,
    {
        self.pending.is_some()
    }

    pub fn breadcrumb(&self) -> (r: Vec<&str>)
        ensures
            r@.len() == breadcrumb_names(self@).len(),
            forall|i: int| 0 <= i < r@.len() ==> #[trigger] r@[i]@ == breadcrumb_names(self@)[i],
    {
        let mut out: Vec<&str> = Vec::new();
        let mut i: usize = 0;
        while i < self.history.len()
            invariant
                i <= self.history@.len(),
                out@.len() == i,
                forall|j: int| 0 <= j < i ==> #[trigger] out@[j]@ == self.history@[j].id.name@,
            decreases self.history.len() - i,
        {
            out.push(self.history[i].id.name.as_str());
            i = i + 1;
        }
        match &self.focus {
            Some(f) => out.push(f.id.name.as_str()),
            None => {},
        }
        proof {
            let b = breadcrumb_names(self@);
            assert forall|j: int| 0 <= j < out@.len() implies #[trigger] out@[j]@ == b[j] by {
                if j < self.history@.len() {
                    assert(nodes_view(self.history@)[j] == self.history@[j]@);
                }
            }
        }
        out
    }

    pub fn dismiss_error(&mut self)
        requires
            app_wf(old(self)@),
        ensures
            app_wf(final(self)@),
            final(self)@ == (AppView { error: None, ..old(self)@ }),
    {
        self.error = None;
        proof {
            assert(self@ =~= (AppView { error: None, ..old(self)@ }));
        }
    }

    /// End the session.
    pub fn quit(&mut self)
        requires
            app_wf(old(self)@),
        ensures
            app_wf(final(self)@),
            final(self)@ == (AppView { should_quit: true, ..old(self)@ }),
    {
        self.should_quit = true;
        proof {
            assert(self@ =~= (AppView { should_quit: true, ..old(self)@ }));
        }
    }

    /// Open the search screen afresh.
    pub fn enter_search(&mut self)
        requires
            app_wf(old(self)@),
        ensures
            app_wf(final(self)@),
            final(self)@ == (AppView {
                screen: Screen::Search,
                query: Seq::empty(),
                matches: Seq::empty(),
                match_sel: 0,
                searched: false,
                ..old(self)@
            }),
    {
        self.screen = Screen::Search;
        self.query = String::new();
        self.matches = Vec::new();
        self.match_sel = 0;
        self.searched = false;
        proof {
            assert(self@ =~= (AppView {
                screen: Screen::Search,
                query: Seq::empty(),
                matches: Seq::empty(),
                match_sel: 0,
                searched: false,
                ..old(self)@
            }));
        }
    }

    /// Leave the search screen for the graph, when there is a graph to go
    /// back to.
    pub fn leave_search(&mut self)
        requires
            app_wf(old(self)@),
        ensures
            app_wf(final(self)@),
            final(self)@ == (AppView {
                screen: if old(self)@.focus is Some {
                    Screen::Graph
                } else {
                    old(self)@.screen
                },
                ..old(self)@
            }),
    {
        if self.focus.is_some() {
            self.screen = Screen::Graph;
        }
        proof {
            assert(self@ =~= (AppView {
                screen: if old(self)@.focus is Some {
                    Screen::Graph
                } else {
                    old(self)@.screen
                },
                ..old(self)@
            }));
        }
    }

    fn refocus(&mut self, n: Node) -> (r: Vec<Request>)
        requires
            app_wf(old(self)@),
        ensures
            app_wf(final(self)@),
            final(self)@ == refocused(old(self)@, n@),
            r@.len() == 1,
            r@[0] matches Request::Expand(i) && i@ == n.id@,
    {
        let id = clone_id(&n.id);
        let pid = clone_id(&n.id);
        self.focus = Some(n);
        self.callers = Vec::new();
        self.callees = Vec::new();
        self.caller_sel = 0;
        self.callee_sel = 0;
        self.pending = Some(pid);
        self.failed = false;
        proof {
            assert(self@ =~= refocused(old(self)@, n@));
        }
        one_expand(id)
    }

    /// Apply what the worker reports. A stale expansion, for a node that is
    /// no longer the one asked about (the user re-centred or went back before
    /// it arrived), is discarded whole.
    pub fn on_event(&mut self, ev: Event) -> (r: Vec<Request>)
        requires
            app_wf(old(self)@),
        ensures
            app_wf(final(self)@),
            match ev {
                Event::Progress(p) => final(self)@ == (AppView { progress: p@, ..old(self)@ }) && r@.len()
                    == 0,
                Event::Ready { can_search } => final(self)@ == (AppView {
                    can_search: can_search,
                    screen: Screen::Search,
                    ..old(self)@
                }) && r@.len() == 0,
                Event::Matches(ms) => final(self)@ == (AppView {
                    matches: matches_view(ms@),
                    match_sel: 0,
                    searched: true,
                    ..old(self)@
                }) && r@.len() == 0,
                Event::Seeded(Some(n)) => final(self)@ == refocused(
                    AppView { screen: Screen::Graph, ..old(self)@ },
                    n@,
                ) && r@.len() == 1 && (r@[0] matches Request::Expand(i) && i@ == n.id@),
                Event::Seeded(None) => final(self)@ == (AppView {
                    error: Some("that symbol has no call hierarchy"@),
                    ..old(self)@
                }) && r@.len() == 0,
                Event::Expanded(id, exp) => r@.len() == 0 && if awaits(old(self)@, id@) {
                    final(self)@ == (AppView {
                        pending: None,
                        callers: nodes_view(exp.callers@),
                        callees: nodes_view(exp.callees@),
                        caller_sel: 0,
                        callee_sel: 0,
                        failed: false,
                        ..old(self)@
                    })
                } else {
                    final(self)@ == old(self)@
                },
                Event::Failed(id, why) => r@.len() == 0 && final(self)@ == (AppView {
                    pending: if awaits(old(self)@, id@) {
                        None
                    } else {
                        old(self)@.pending
                    },
                    failed: if awaits(old(self)@, id@) {
                        true
                    } else {
                        old(self)@.failed
                    },
                    error: Some(id.name@ + ": "@ + why@),
                    ..old(self)@
                }),
                Event::Warning(why) => r@.len() == 0 && final(self)@ == (AppView {
                    error: Some(why@),
                    ..old(self)@
                }),
                Event::Fatal(why) => r@.len() == 0 && final(self)@ == (AppView {
                    error: Some(why@),
                    should_quit: true,
                    ..old(self)@
                }),
            },
    {
        match ev {
            Event::Progress(p) => {
                self.progress = p;
                proof {
                    assert(self@ =~= (AppView { progress: p@, ..old(self)@ }));
                }
                Vec::new()
            },
            Event::Ready { can_search } => {
                self.can_search = can_search;
                self.screen = Screen::Search;
                proof {
                    assert(self@ =~= (AppView {
                        can_search: can_search,
                        screen: Screen::Search,
                        ..old(self)@
                    }));
                }
                Vec::new()
            },
            Event::Matches(ms) => {
                let ghost msv = matches_view(ms@);
                self.matches = ms;
                self.match_sel = 0;
                self.searched = true;
                proof {
                    assert(self@ =~= (AppView {
                        matches: msv,
                        match_sel: 0,
                        searched: true,
                        ..old(self)@
                    }));
                }
                Vec::new()
            },
            Event::Seeded(Some(n)) => {
                self.screen = Screen::Graph;
                self.refocus(n)
            },
            Event::Seeded(None) => {
                let mut e = String::new();
                push_str(&mut e, "that symbol has no call hierarchy");
                self.error = Some(e);
                proof {
                    assert(self@ =~= (AppView {
                        error: Some("that symbol has no call hierarchy"@),
                        ..old(self)@
                    }));
                }
                Vec::new()
            },
            Event::Expanded(id, exp) => {
                let current = match &self.pending {
                    Some(p) => same_id(p, &id),
                    None => false,
                };
                if current {
                    let ghost cv = nodes_view(exp.callers@);
                    let ghost dv = nodes_view(exp.callees@);
                    self.pending = None;
                    self.callers = exp.callers;
                    self.callees = exp.callees;
                    self.caller_sel = 0;
                    self.callee_sel = 0;
                    self.failed = false;
                    proof {
                        assert(self@ =~= (AppView {
                            pending: None,
                            callers: cv,
                            callees: dv,
                            caller_sel: 0,
                            callee_sel: 0,
                            failed: false,
                            ..old(self)@
                        }));
                    }
                }
                Vec::new()
            },
            Event::Failed(id, why) => {
                let current = match &self.pending {
                    Some(p) => same_id(p, &id),
                    None => false,
                };
                if current {
                    self.pending = None;
                    self.failed = true;
                }
                let mut e = String::new();
                push_str(&mut e, id.name.as_str());
                push_str(&mut e, ": ");
                push_str(&mut e, why.as_str());
                self.error = Some(e);
                proof {
                    assert(self@ =~= (AppView {
                        pending: if awaits(old(self)@, id@) {
                            None
                        } else {
                            old(self)@.pending
                        },
                        failed: if awaits(old(self)@, id@) {
                            true
                        } else {
                            old(self)@.failed
                        },
                        error: Some(id.name@ + ": "@ + why@),
                        ..old(self)@
                    }));
                }
                Vec::new()
            },
            Event::Warning(why) => {
                let ghost w = why@;
                self.error = Some(why);
                proof {
                    assert(self@ =~= (AppView { error: Some(w), ..old(self)@ }));
                }
                Vec::new()
            },
            Event::Fatal(why) => {
                let ghost w = why@;
                self.error = Some(why);
                self.should_quit = true;
                proof {
                    assert(self@ =~= (AppView { error: Some(w), should_quit: true, ..old(self)@ }));
                }
                Vec::new()
            },
        }
    }

    /// Re-centre on the selected caller or callee, remembering the current
    /// focus so `back` can return to it.
    pub fn recentre(&mut self) -> (r: Option<Request>)
        requires
            app_wf(old(self)@),
        ensures
            app_wf(final(self)@),
            match recentre_target(old(self)@) {
                None => r is None && final(self)@ == old(self)@,
                Some(next) => final(self)@ == after_recentre(old(self)@, next) && (r matches Some(
                    q,
                ) && q matches Request::Expand(i) && i@ == next.0),
            },
    {
        let next = match self.pane {
            Pane::Callers => if self.caller_sel < self.callers.len() {
                clone_node(&self.callers[self.caller_sel])
            } else {
                return None;
            },
            Pane::Callees => if self.callee_sel < self.callees.len() {
                clone_node(&self.callees[self.callee_sel])
            } else {
                return None;
            },
            Pane::Focus => {
                return None;
            },
        };
        proof {
            assert(nodes_view(self.callers@).len() == self.callers@.len());
        }
        let ghost mid = AppView {
            history: match old(self)@.focus {
                Some(f) => old(self)@.history.push(f),
                None => old(self)@.history,
            },
            ..old(self)@
        };
        match self.focus.take() {
            Some(cur) => {
                let ghost h = self.history@;
                self.history.push(cur);
                proof {
                    crate::graph::lemma_map_values_push(h, cur, crate::graph::node_view());
                }
            },
            None => {},
        }
        let ghost before = self@;
        assert(before =~= (AppView { focus: None, ..mid }));
        let reqs = self.refocus(next);
        proof {
            assert(self@ =~= after_recentre(old(self)@, next@));
        }
        let mut reqs = reqs;
        reqs.pop()
    }

    /// Return to the previous focus, if there is one.
    pub fn back(&mut self) -> (r: Option<Request>)
        requires
            app_wf(old(self)@),
        ensures
            app_wf(final(self)@),
            match after_back(old(self)@) {
                None => r is None && final(self)@ == old(self)@,
                Some(w) => final(self)@ == w && (r matches Some(q) && q matches Request::Expand(i)
                    && i@ == old(self)@.history.last().0),
            },
    {
        let ghost h = self.history@;
        match self.history.pop() {
            None => {
                proof {
                    assert(nodes_view(h).len() == 0);
                }
                None
            },
            Some(prev) => {
                proof {
                    assert(h.drop_last() =~= self.history@);
                    assert(nodes_view(h).drop_last() =~= nodes_view(self.history@));
                    assert(nodes_view(h).last() == prev@);
                }
                let mut reqs = self.refocus(prev);
                proof {
                    assert(self@ =~= refocused(
                        AppView { history: old(self)@.history.drop_last(), ..old(self)@ },
                        old(self)@.history.last(),
                    ));
                }
                reqs.pop()
            },
        }
    }

    /// The reason text shown when an unresolved node is focused.
    pub fn status(&self) -> (r: String)
        ensures
            r@ == status_text(self@),
    {
        match &self.focus {
            Some(n) => match n.state {
                NodeState::Unresolved(reason) => reason.to_string(),
                _ => String::new(),
            },
            None => String::new(),
        }
    }

    pub fn move_pane(&mut self, right: bool)
        requires
            app_wf(old(self)@),
        ensures
            app_wf(final(self)@),
            final(self)@ == (AppView { pane: moved_pane(old(self)@.pane, right), ..old(self)@ }),
    {
        self.pane = match (self.pane, right) {
            (Pane::Callers, true) => Pane::Focus,
            (Pane::Focus, true) => Pane::Callees,
            (Pane::Callees, true) => Pane::Callees,
            (Pane::Callees, false) => Pane::Focus,
            (Pane::Focus, false) => Pane::Callers,
            (Pane::Callers, false) => Pane::Callers,
        };
        proof {
            assert(self@ =~= (AppView { pane: moved_pane(old(self)@.pane, right), ..old(self)@ }));
        }
    }

    pub fn select_next(&mut self)
        requires
            app_wf(old(self)@),
        ensures
            app_wf(final(self)@),
            final(self)@ == match old(self)@.pane {
                Pane::Callers => AppView {
                    caller_sel: step_down(old(self)@.caller_sel, old(self)@.callers.len()),
                    ..old(self)@
                },
                Pane::Callees => AppView {
                    callee_sel: step_down(old(self)@.callee_sel, old(self)@.callees.len()),
                    ..old(self)@
                },
                Pane::Focus => old(self)@,
            },
    {
        match self.pane {
            Pane::Callers => {
                if self.callers.len() > 0 {
                    if self.caller_sel + 1 < self.callers.len() {
                        self.caller_sel = self.caller_sel + 1;
                    } else {
                        self.caller_sel = self.callers.len() - 1;
                    }
                }
            },
            Pane::Callees => {
                if self.callees.len() > 0 {
                    if self.callee_sel + 1 < self.callees.len() {
                        self.callee_sel = self.callee_sel + 1;
                    } else {
                        self.callee_sel = self.callees.len() - 1;
                    }
                }
            },
            Pane::Focus => {},
        }
        proof {
            assert(self@ =~= match old(self)@.pane {
                Pane::Callers => AppView {
                    caller_sel: step_down(old(self)@.caller_sel, old(self)@.callers.len()),
                    ..old(self)@
                },
                Pane::Callees => AppView {
                    callee_sel: step_down(old(self)@.callee_sel, old(self)@.callees.len()),
                    ..old(self)@
                },
                Pane::Focus => old(self)@,
            });
        }
    }

    pub fn select_prev(&mut self)
        requires
            app_wf(old(self)@),
        ensures
            app_wf(final(self)@),
            final(self)@ == match old(self)@.pane {
                Pane::Callers => AppView { caller_sel: step_up(old(self)@.caller_sel), ..old(self)@ },
                Pane::Callees => AppView { callee_sel: step_up(old(self)@.callee_sel), ..old(self)@ },
                Pane::Focus => old(self)@,
            },
    {
        match self.pane {
            Pane::Callers => {
                if self.caller_sel > 0 {
                    self.caller_sel = self.caller_sel - 1;
                }
            },
            Pane::Callees => {
                if self.callee_sel > 0 {
                    self.callee_sel = self.callee_sel - 1;
                }
            },
            Pane::Focus => {},
        }
        proof {
            assert(self@ =~= match old(self)@.pane {
                Pane::Callers => AppView { caller_sel: step_up(old(self)@.caller_sel), ..old(self)@ },
                Pane::Callees => AppView { callee_sel: step_up(old(self)@.callee_sel), ..old(self)@ },
                Pane::Focus => old(self)@,
            });
        }
    }

    pub fn selected_index(&self, pane: Pane) -> (r: usize)
        ensures
            r == match pane {
                Pane::Callers => self@.caller_sel,
                Pane::Callees => self@.callee_sel,
                Pane::Focus => 0,
            },
    {
        match pane {
            Pane::Callers => self.caller_sel,
            Pane::Callees => self.callee_sel,
            Pane::Focus => 0,
        }
    }

    /// Put a node in focus directly, as a test would.
    pub fn set_focus_for_test(&mut self, n: Node)
        requires
            app_wf(old(self)@),
        ensures
            app_wf(final(self)@),
            final(self)@ == (AppView { focus: Some(n@), ..old(self)@ }),
    {
        let ghost nv = n@;
        self.focus = Some(n);
        proof {
            assert(self@ =~= (AppView { focus: Some(nv), ..old(self)@ }));
        }
    }
}

/// Going back right after re-centring returns to the focus and the history
/// from before, and asks for that focus's expansion again.
pub proof fn lemma_back_undoes_recentre(v: AppView, next: NodeView)
    requires
        v.focus is Some,
    ensures
        after_back(after_recentre(v, next)) matches Some(w) && w.focus == v.focus && w.history
            == v.history && (v.focus matches Some(f) && w.pending == Some(f.0)),
{
    let f = v.focus->0;
    let u = after_recentre(v, next);
    assert(u.history == v.history.push(f));
    assert(u.history.drop_last() =~= v.history);
}

/// Re-centring moves to the entry at the active pane's own selection: for
/// every selection inside the list, the selected caller in the Callers
/// pane and the selected callee in the Callees pane; the focus pane has
/// nothing to move to. The entry moved to becomes the focus, its expansion
/// is asked for, and the old focus is remembered last.
pub proof fn lemma_recentre_takes_the_selected_entry(v: AppView, k: nat)
    ensures
        k < v.callers.len() ==> recentre_target(AppView { pane: Pane::Callers, caller_sel: k, ..v }) == Some(
            v.callers[k as int],
        ),
        k < v.callees.len() ==> recentre_target(AppView { pane: Pane::Callees, callee_sel: k, ..v }) == Some(
            v.callees[k as int],
        ),
        recentre_target(AppView { pane: Pane::Focus, ..v }) is None,
        k < v.callers.len() ==> ({
            let w = after_recentre(v, v.callers[k as int]);
            &&& w.focus == Some(v.callers[k as int])
            &&& w.pending == Some(v.callers[k as int].0)
            &&& w.history == match v.focus {
                Some(f) => v.history.push(f),
                None => v.history,
            }
        }),
{
}

} // verus!
