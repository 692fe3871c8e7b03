//! Keyboard handling, separated from rendering so bindings are testable.

use crate::tui::protocol::{request_view, requests_view, Request, RequestView};
use crate::tui::state::{
    after_back, after_recentre, moved_pane, recentre_target, step_down, step_up, App, AppView,
    Screen, Pane, app_wf,
};
use vstd::prelude::*;
use vstd::std_specs::convert::FromSpecImpl;

verus! {

/// The keys the interface tells apart.
#[derive(Debug, Clone, Copy, PartialEq, Eq, Structural)]
pub enum KeyCode {
    Esc,
    Enter,
    Backspace,
    Left,
    Right,
    Up,
    Down,
    Char(char),
    /// Any other key.
    Other,
}

/// A key press, as the interface reads it.
#[derive(Debug, Clone, Copy, PartialEq, Eq, Structural)]
pub struct KeyEvent {
    pub code: KeyCode,
}

impl From<KeyCode> for KeyEvent {
    fn from(code: KeyCode) -> (r: KeyEvent) {
        KeyEvent { code }
    }
}

impl FromSpecImpl<KeyCode> for KeyEvent {
    open spec fn obeys_from_spec() -> bool {
        true
    }

    open spec fn from_spec(code: KeyCode) -> KeyEvent {
        KeyEvent { code }
    }
}

/// The search request for the current query, when one can be made.
pub open spec fn submitted(v: AppView) -> Seq<RequestView> {
    if !v.can_search || v.query.len() == 0 {
        Seq::empty()
    } else {
        seq![RequestView::Search(v.query)]
    }
}

/// The seed request for the highlighted match, when there is one.
pub open spec fn chosen(v: AppView) -> Seq<RequestView> {
    if v.match_sel < v.matches.len() {
        seq![RequestView::Seed(v.matches[v.match_sel as int])]
    } else {
        Seq::empty()
    }
}

/// What a key does, given the interface's state: the state after it, and
/// the requests it sends.
pub open spec fn key_outcome(v: AppView, code: KeyCode) -> (AppView, Seq<RequestView>) {
    if v.error is Some {
        match code {
            KeyCode::Esc => (AppView { error: None, ..v }, Seq::empty()),
            KeyCode::Char('r') => (AppView { error: None, ..v }, seq![RequestView::Restart]),
            KeyCode::Char('q') => (AppView { should_quit: true, ..v }, Seq::empty()),
            _ => (v, Seq::empty()),
        }
    } else {
        match v.screen {
            Screen::Starting => (v, Seq::empty()),
            Screen::Search => match code {
                KeyCode::Esc => (
                    AppView {
                        screen: if v.focus is Some {
                            Screen::Graph
                        } else {
                            v.screen
                        },
                        ..v
                    },
                    Seq::empty(),
                ),
                KeyCode::Enter => if v.matches.len() == 0 {
                    (v, submitted(v))
                } else {
                    (v, chosen(v))
                },
                KeyCode::Backspace => (
                    AppView {
                        query: if v.query.len() > 0 {
                            v.query.drop_last()
                        } else {
                            v.query
                        },
                        searched: false,
                        ..v
                    },
                    Seq::empty(),
                ),
                KeyCode::Down => (
                    AppView { match_sel: step_down(v.match_sel, v.matches.len()), ..v },
                    Seq::empty(),
                ),
                KeyCode::Up => (AppView { match_sel: step_up(v.match_sel), ..v }, Seq::empty()),
                KeyCode::Char(c) => (AppView { query: v.query.push(c), searched: false, ..v }, Seq::empty()),
                _ => (v, Seq::empty()),
            },
            Screen::Graph => match code {
                KeyCode::Char('q') => (AppView { should_quit: true, ..v }, Seq::empty()),
                KeyCode::Char('/') => (
                    AppView {
                        screen: Screen::Search,
                        query: Seq::empty(),
                        matches: Seq::empty(),
                        match_sel: 0,
                        searched: false,
                        ..v
                    },
                    Seq::empty(),
                ),
                KeyCode::Char('u') => match after_back(v) {
                    None => (v, Seq::empty()),
                    Some(w) => (w, seq![RequestView::Expand(v.history.last().0)]),
                },
                KeyCode::Enter => match recentre_target(v) {
                    None => (v, Seq::empty()),
                    Some(next) => (after_recentre(v, next), seq![RequestView::Expand(next.0)]),
                },
                KeyCode::Left => (AppView { pane: moved_pane(v.pane, false), ..v }, Seq::empty()),
                KeyCode::Right => (AppView { pane: moved_pane(v.pane, true), ..v }, Seq::empty()),
                KeyCode::Down => (
                    match v.pane {
                        Pane::Callers => AppView {
                            caller_sel: step_down(v.caller_sel, v.callers.len()),
                            ..v
                        },
                        Pane::Callees => AppView {
                            callee_sel: step_down(v.callee_sel, v.callees.len()),
                            ..v
                        },
                        Pane::Focus => v,
                    },
                    Seq::empty(),
                ),
                KeyCode::Up => (
                    match v.pane {
                        Pane::Callers => AppView { caller_sel: step_up(v.caller_sel), ..v },
                        Pane::Callees => AppView { callee_sel: step_up(v.callee_sel), ..v },
                        Pane::Focus => v,
                    },
                    Seq::empty(),
                ),
                _ => (v, Seq::empty()),
            },
        }
    }
}

fn no_requests() -> (r: Vec<Request>)
    ensures
        requests_view(r@) == Seq::<RequestView>::empty(),
{
    let r: Vec<Request> = Vec::new();
    proof {
        assert(requests_view(r@) =~= Seq::<RequestView>::empty());
    }
    r
}

fn requests_of(o: Option<Request>) -> (r: Vec<Request>)
    ensures
        requests_view(r@) == match o {
            Some(q) => seq![request_view(q)],
            None => Seq::<RequestView>::empty(),
        },
{
    let mut r: Vec<Request> = Vec::new();
    match o {
        Some(q) => r.push(q),
        None => {},
    }
    proof {
        assert(requests_view(r@) =~= match o {
            Some(q) => seq![request_view(q)],
            None => Seq::<RequestView>::empty(),
        });
    }
    r
}

/// Apply a key press. While an error is shown, only Esc (dismiss), `r`
/// (restart) and `q` (quit) do anything. In search, every character goes
/// into the query (`q` included); in the graph, `q` quits, `/` searches, `u`
/// goes back, Enter re-centres, and the arrows move between and within the
/// panes.
pub fn handle_key(app: &mut App, key: KeyEvent) -> (r: Vec<Request>)
    requires
        app_wf(old(app)@),
    ensures
        app_wf(final(app)@),
        (final(app)@, requests_view(r@)) == key_outcome(old(app)@, key.code),
{
    if app.error().is_some() {
        match key.code {
            KeyCode::Esc => {
                app.dismiss_error();
                return no_requests();
            },
            KeyCode::Char('r') => {
                app.dismiss_error();
                let r = requests_of(Some(Request::Restart));
                return r;
            },
            KeyCode::Char('q') => {
                app.quit();
                return no_requests();
            },
            _ => {
                return no_requests();
            },
        }
    }
    match app.screen() {
        Screen::Starting => no_requests(),
        Screen::Search => match key.code {
            KeyCode::Esc => {
                app.leave_search();
                no_requests()
            },
            KeyCode::Enter => {
                // Enter submits the query; a second Enter on a highlighted
                // match seeds it.
                if app.matches().len() == 0 {
                    let q = app.submit_query();
                    requests_of(q)
                } else {
                    let q = app.chosen_match();
                    requests_of(q)
                }
            },
            KeyCode::Backspace => {
                app.pop_query_char();
                no_requests()
            },
            KeyCode::Down => {
                app.select_match_next();
                no_requests()
            },
            KeyCode::Up => {
                app.select_match_prev();
                no_requests()
            },
            KeyCode::Char(c) => {
                app.push_query_char(c);
                no_requests()
            },
            _ => no_requests(),
        },
        Screen::Graph => match key.code {
            KeyCode::Char('q') => {
                app.quit();
                no_requests()
            },
            KeyCode::Char('/') => {
                app.enter_search();
                no_requests()
            },
            KeyCode::Char('u') => {
                let q = app.back();
                requests_of(q)
            },
            KeyCode::Enter => {
                let q = app.recentre();
                requests_of(q)
            },
            KeyCode::Left => {
                app.move_pane(false);
                no_requests()
            },
            KeyCode::Right => {
                app.move_pane(true);
                no_requests()
            },
            KeyCode::Down => {
                app.select_next();
                no_requests()
            },
            KeyCode::Up => {
                app.select_prev();
                no_requests()
            },
            _ => no_requests(),
        },
    }
}

/// In the graph screen, Enter asks to expand exactly the entry the active
/// pane's selection points at, and focuses it; after Down in a non-empty
/// pane, Enter takes the entry one below the old selection (the last one
/// at the end of the list).
pub proof fn lemma_enter_expands_the_selected_entry(v: AppView)
    requires
        v.error is None,
        v.screen == Screen::Graph,
    ensures
        v.pane == Pane::Callers && v.caller_sel < v.callers.len() ==> key_outcome(v, KeyCode::Enter).1 == seq![
            RequestView::Expand(v.callers[v.caller_sel as int].0),
        ] && key_outcome(v, KeyCode::Enter).0.focus == Some(v.callers[v.caller_sel as int]),
        v.pane == Pane::Callees && v.callee_sel < v.callees.len() ==> key_outcome(v, KeyCode::Enter).1 == seq![
            RequestView::Expand(v.callees[v.callee_sel as int].0),
        ] && key_outcome(v, KeyCode::Enter).0.focus == Some(v.callees[v.callee_sel as int]),
        v.pane == Pane::Callers && v.caller_sel < v.callers.len() ==> ({
            let below: int = if v.caller_sel + 1 < v.callers.len() {
                v.caller_sel + 1int
            } else {
                v.callers.len() - 1
            };
            key_outcome(key_outcome(v, KeyCode::Down).0, KeyCode::Enter).1 == seq![
                RequestView::Expand(v.callers[below].0),
            ]
        }),
        v.pane == Pane::Callees && v.callee_sel < v.callees.len() ==> ({
            let below: int = if v.callee_sel + 1 < v.callees.len() {
                v.callee_sel + 1int
            } else {
                v.callees.len() - 1
            };
            key_outcome(key_outcome(v, KeyCode::Down).0, KeyCode::Enter).1 == seq![
                RequestView::Expand(v.callees[below].0),
            ]
        }),
{
}

} // verus!
