//! What each screen shows, as text: the program draws these with a
//! terminal library, and decides nothing itself.

use crate::graph::{Node, NodeId, NodeState, NodeView, IdView};
use crate::symbols::MatchView;
use crate::text::{decimal_chars, push_str, str_chars, string_from_chars, u64_to_string};
use crate::tui::state::{breadcrumb_names, recentre_target, status_text, App, AppView, Pane};
use vstd::prelude::*;
use vstd::slice::slice_subrange;

verus! {

/// Marker for a symbol the language server could not resolve: these are
/// shown, never hidden.
pub const UNRESOLVED_MARK: &'static str = "⊘";

pub const SPINNER: &'static str = "…";

/// Shown in both side panes when an expansion came back as a failure. The
/// panes are empty either way, and an empty list is this interface's way of
/// saying "this symbol genuinely has no callers", so a failure has to say so
/// itself, or a transient server error teaches the user something false.
pub const FAILED_LINE: &'static str = "expansion failed";

pub const FAILED_HINT: &'static str = "u to go back";

/// The keys the graph screen answers to.
pub const GRAPH_KEYS: &'static str = "←/→ pane · ↑/↓ select · ⏎ re-centre · u back · / search · q quit";

/// Shown when the language server does not advertise
/// `workspaceSymbolProvider`. An empty list here would be indistinguishable
/// from "nothing matched".
pub const NO_SEARCH_MSG: &'static str = "this language server does not support workspace symbol search";

/// Shown when a query returns nothing. Deliberately not phrased as "no
/// matches in this repository": some servers (vtsls observed) only return
/// `workspace/symbol` results for files already opened, so an empty list is
/// never authoritative about the whole repository.
pub const NO_MATCHES_MSG: &'static str = "no matches among the files opened so far";

/// Shown before anything has been searched for.
pub const IDLE_HINT: &'static str = "type a symbol name, then press Enter to search";

/// The keys the search screen answers to. `q` is absent on purpose: it is a
/// character and goes into the query box, so Esc and ctrl-c are the ways out.
pub const KEY_HINT: &'static str = "Enter search · ↑/↓ select · Esc back · ctrl-c quit";

/// What the error overlay says beneath the message.
pub const ERROR_HINT: &'static str = "esc dismiss · r exit to relaunch · q quit";

/// A node's label: its name, marked when it did not resolve.
pub open spec fn label_text(n: NodeView) -> Seq<char> {
    match n.3 {
        NodeState::Unresolved(_) => UNRESOLVED_MARK@ + " "@ + n.0.3,
        _ => n.0.3,
    }
}

pub fn label(n: &Node) -> (r: String)
    ensures
        r@ == label_text(n@),
{
    match n.state {
        NodeState::Unresolved(_) => {
            let mut s = String::new();
            push_str(&mut s, UNRESOLVED_MARK);
            push_str(&mut s, " ");
            push_str(&mut s, n.id.name.as_str());
            s
        },
        _ => n.id.name.clone(),
    }
}

/// Position of the last `c` in `s`.
pub open spec fn last_index_of(s: Seq<char>, c: char) -> Option<nat>
    decreases s.len(),
{
    if s.len() == 0 {
        None
    } else if s.last() == c {
        Some((s.len() - 1) as nat)
    } else {
        last_index_of(s.drop_last(), c)
    }
}

/// The file part of a uri: what follows its last `/`, or the whole uri when
/// that is empty.
pub open spec fn file_part(uri: Seq<char>) -> Seq<char> {
    match last_index_of(uri, '/') {
        Some(i) => if i + 1 < uri.len() {
            uri.skip(i + 1 as int)
        } else {
            uri
        },
        None => uri,
    }
}

/// A location the way the interface shows it: `transport.rs:88`, the file
/// and the one-based line, not the raw `file://` uri.
pub open spec fn location_text(id: IdView) -> Seq<char> {
    file_part(id.0) + ":"@ + decimal_chars((id.1 + 1) as nat)
}

proof fn lemma_last_index_of(s: Seq<char>, c: char)
    ensures
        last_index_of(s, c) matches Some(i) ==> i < s.len() && s[i as int] == c,
    decreases s.len(),
{
    if s.len() > 0 && s.last() != c {
        lemma_last_index_of(s.drop_last(), c);
    }
}

fn file_of(uri: &str) -> (r: String)
    ensures
        r@ == file_part(uri@),
{
    let cs = str_chars(uri);
    let mut i: usize = cs.len();
    proof {
        assert(cs@.take(i as int) =~= cs@);
    }
    while i > 0
        invariant
            i <= cs@.len(),
            cs@ == uri@,
            last_index_of(cs@, '/') == last_index_of(cs@.take(i as int), '/'),
        decreases i,
    {
        if cs[i - 1] == '/' {
            proof {
                assert(cs@.take(i as int).last() == cs@[i - 1]);
            }
            if i < cs.len() {
                let tail = slice_subrange(cs.as_slice(), i, cs.len());
                proof {
                    assert(tail@ =~= uri@.skip(i as int));
                }
                return string_from_chars(tail);
            }
            return string_from_chars(cs.as_slice());
        }
        proof {
            assert(cs@.take(i as int).drop_last() =~= cs@.take(i - 1));
        }
        i = i - 1;
    }
    proof {
        assert(cs@.take(0) =~= Seq::<char>::empty());
    }
    string_from_chars(cs.as_slice())
}

/// Renders a location as `file:line`, the line one-based.
pub fn short_location(id: &NodeId) -> (r: String)
    requires
        id.line < u32::MAX,
    ensures
        r@ == location_text(id@),
{
    let mut s = file_of(id.uri.as_str());
    push_str(&mut s, ":");
    let n = u64_to_string((id.line + 1) as u64);
    push_str(&mut s, n.as_str());
    s
}

/// The names along the way, joined by ` › `.
pub open spec fn joined_names(names: Seq<Seq<char>>) -> Seq<char>
    decreases names.len(),
{
    if names.len() == 0 {
        Seq::empty()
    } else if names.len() == 1 {
        names[0]
    } else {
        joined_names(names.drop_last()) + " › "@ + names.last()
    }
}

/// The breadcrumb line of the graph screen.
pub fn breadcrumb_line(app: &App) -> (r: String)
    ensures
        r@ == joined_names(breadcrumb_names(app@)),
{
    let names = app.breadcrumb();
    let ghost b = breadcrumb_names(app@);
    let mut s = String::new();
    let mut i: usize = 0;
    while i < names.len()
        invariant
            i <= names@.len(),
            names@.len() == b.len(),
            forall|j: int| 0 <= j < names@.len() ==> #[trigger] names@[j]@ == b[j],
            s@ == joined_names(b.take(i as int)),
        decreases names.len() - i,
    {
        proof {
            assert(b.take(i + 1).drop_last() =~= b.take(i as int));
            assert(b.take(i + 1).last() == b[i as int]);
        }
        if i > 0 {
            push_str(&mut s, " › ");
        } else {
            proof {
                assert(b.take(i + 1) =~= seq![b[0]]);
                assert(s@ =~= Seq::<char>::empty());
            }
        }
        push_str(&mut s, names[i]);
        proof {
            if i == 0 {
                assert(s@ =~= joined_names(b.take(i + 1)));
            }
        }
        i = i + 1;
    }
    proof {
        assert(b.take(i as int) =~= b);
    }
    s
}

/// One line of a list pane: its text, and whether it is highlighted.
pub type Line = (String, bool);

pub open spec fn line_view() -> spec_fn(Line) -> (Seq<char>, bool) {
    |l: Line| (l.0@, l.1)
}

/// The lines of a side pane (`Callers` or `Callees`): a spinner while the
/// expansion is in flight, the failure note when it failed, otherwise one
/// label per node, the selected one highlighted when the pane is active.
pub open spec fn side_lines(v: AppView, pane: Pane) -> Seq<(Seq<char>, bool)> {
    if v.pending is Some {
        seq![(SPINNER@, false)]
    } else if v.failed {
        seq![(FAILED_LINE@, false), (FAILED_HINT@, false)]
    } else {
        let nodes = if pane == Pane::Callers {
            v.callers
        } else {
            v.callees
        };
        let sel = if pane == Pane::Callers {
            v.caller_sel
        } else {
            v.callee_sel
        };
        Seq::new(nodes.len(), |i: int| (label_text(nodes[i]), v.pane == pane && i == sel))
    }
}

fn text_line(t: &str, highlighted: bool) -> (r: Line)
    ensures
        r.0@ == t@,
        r.1 == highlighted,
{
    let mut s = String::new();
    push_str(&mut s, t);
    (s, highlighted)
}

pub fn side_pane(app: &App, pane: Pane) -> (r: Vec<Line>)
    requires
        pane != Pane::Focus,
    ensures
        r@.map_values(line_view()) == side_lines(app@, pane),
{
    let mut out: Vec<Line> = Vec::new();
    if app.is_pending() {
        out.push(text_line(SPINNER, false));
        proof {
            assert(out@.map_values(line_view()) =~= side_lines(app@, pane));
        }
        return out;
    }
    if app.expansion_failed() {
        out.push(text_line(FAILED_LINE, false));
        out.push(text_line(FAILED_HINT, false));
        proof {
            assert(out@.map_values(line_view()) =~= side_lines(app@, pane));
        }
        return out;
    }
    let nodes = if pane == Pane::Callers {
        app.callers()
    } else {
        app.callees()
    };
    let sel = app.selected_index(pane);
    let active = app.pane() == pane;
    let mut i: usize = 0;
    while i < nodes.len()
        invariant
            i <= nodes@.len(),
            out@.len() == i,
            active == (app@.pane == pane),
            sel == (if pane == Pane::Callers {
                app@.caller_sel
            } else {
                app@.callee_sel
            }),
            crate::graph::nodes_view(nodes@) == (if pane == Pane::Callers {
                app@.callers
            } else {
                app@.callees
            }),
            forall|j: int| 0 <= j < i ==> (#[trigger] out@[j]).0@ == label_text(nodes@[j]@) && out@[j].1 == (
            active && j == sel),
        decreases nodes.len() - i,
    {
        let l = label(&nodes[i]);
        out.push((l, active && i == sel));
        i = i + 1;
    }
    proof {
        assert(out@.map_values(line_view()) =~= side_lines(app@, pane));
    }
    out
}

/// The centre pane's title: the focus's name.
pub fn focus_title(app: &App) -> (r: String)
    ensures
        r@ == match app@.focus {
            Some(n) => n.0.3,
            None => Seq::empty(),
        },
{
    match app.focus() {
        Some(n) => n.id.name.clone(),
        None => String::new(),
    }
}

/// The centre pane's text: the focus's detail (its signature), or its kind
/// when there is none, and its location.
pub open spec fn focus_text(v: AppView) -> Seq<char> {
    match v.focus {
        Some(n) => (match n.2 {
            Some(d) => d,
            None => n.1,
        }) + "\n"@ + location_text(n.0),
        None => Seq::empty(),
    }
}

pub fn focus_body(app: &App) -> (r: String)
    requires
        app@.focus matches Some(n) ==> n.0.1 < u32::MAX,
    ensures
        r@ == focus_text(app@),
{
    match app.focus() {
        Some(n) => {
            let mut s = String::new();
            match &n.detail {
                Some(d) => push_str(&mut s, d.as_str()),
                None => push_str(&mut s, n.kind_name.as_str()),
            }
            push_str(&mut s, "\n");
            let loc = short_location(&n.id);
            push_str(&mut s, loc.as_str());
            s
        },
        None => String::new(),
    }
}

/// The graph screen's bottom line: why the focus is unresolved, or the keys.
pub fn status_line(app: &App) -> (r: String)
    ensures
        r@ == if status_text(app@).len() == 0 {
            GRAPH_KEYS@
        } else {
            status_text(app@)
        },
{
    let st = app.status();
    if str_chars(st.as_str()).len() == 0 {
        let mut s = String::new();
        push_str(&mut s, GRAPH_KEYS);
        s
    } else {
        st
    }
}

/// The query box: `> ` and the query.
pub fn query_line(app: &App) -> (r: String)
    ensures
        r@ == "> "@ + app@.query,
{
    let mut s = String::new();
    push_str(&mut s, "> ");
    push_str(&mut s, app.query());
    s
}

/// What the search screen shows beneath the query box.
pub enum SearchBody {
    /// The server cannot search.
    NoSearch,
    /// A search was answered with nothing.
    NoMatches,
    /// Nothing asked yet: what to do.
    Prompt(String),
    /// The matches, the selected one highlighted.
    Matches(Vec<Line>),
}

/// How a match is listed: its name, and its container in parentheses.
pub open spec fn match_text(m: MatchView) -> Seq<char> {
    match m.1 {
        Some(c) => if c.len() > 0 {
            m.0 + "  ("@ + c + ")"@
        } else {
            m.0
        },
        None => m.0,
    }
}

/// The prompt before a search: the idle hint, or how to run the typed query.
pub open spec fn prompt_text(v: AppView) -> Seq<char> {
    if v.query.len() == 0 {
        IDLE_HINT@
    } else {
        "press Enter to search for \""@ + v.query + "\""@
    }
}

/// The search screen's body: that the server cannot search; that an
/// answered search found nothing (only once it was answered, so a first
/// keystroke does not read as "no matches"); a prompt while nothing has been
/// asked; or the matches.
pub fn search_body(app: &App) -> (r: SearchBody)
    ensures
        match r {
            SearchBody::NoSearch => !app@.can_search,
            SearchBody::NoMatches => app@.can_search && app@.searched && app@.matches.len() == 0,
            SearchBody::Prompt(p) => app@.can_search && !app@.searched && app@.matches.len() == 0 && p@
                == prompt_text(app@),
            SearchBody::Matches(ls) => app@.can_search && app@.matches.len() > 0 && ls@.map_values(
                line_view(),
            ) == Seq::new(
                app@.matches.len(),
                |i: int| (match_text(app@.matches[i]), i == app@.match_sel),
            ),
        },
{
    if !app.can_search() {
        return SearchBody::NoSearch;
    }
    let ms = app.matches();
    if app.searched() && ms.len() == 0 {
        return SearchBody::NoMatches;
    }
    if ms.len() == 0 {
        let mut s = String::new();
        if str_chars(app.query()).len() == 0 {
            push_str(&mut s, IDLE_HINT);
        } else {
            push_str(&mut s, "press Enter to search for \"");
            push_str(&mut s, app.query());
            push_str(&mut s, "\"");
        }
        return SearchBody::Prompt(s);
    }
    let sel = app.selected_match();
    let mut out: Vec<Line> = Vec::new();
    let mut i: usize = 0;
    while i < ms.len()
        invariant
            i <= ms@.len(),
            out@.len() == i,
            sel == app@.match_sel,
            crate::symbols::matches_view(ms@) == app@.matches,
            forall|j: int| 0 <= j < i ==> (#[trigger] out@[j]).0@ == match_text(ms@[j]@) && out@[j].1 == (j
                == sel),
        decreases ms.len() - i,
    {
        let m = &ms[i];
        let mut s = String::new();
        push_str(&mut s, m.name.as_str());
        match &m.container {
            Some(c) => {
                if str_chars(c.as_str()).len() > 0 {
                    push_str(&mut s, "  (");
                    push_str(&mut s, c.as_str());
                    push_str(&mut s, ")");
                }
            },
            None => {},
        }
        out.push((s, i == sel));
        i = i + 1;
    }
    proof {
        assert(out@.map_values(line_view()) =~= Seq::new(
            app@.matches.len(),
            |i: int| (match_text(app@.matches[i]), i == app@.match_sel),
        ));
    }
    SearchBody::Matches(out)
}

/// A rectangle of the terminal, in cells.
#[derive(Debug, Clone, Copy, PartialEq, Eq, Structural)]
pub struct Rect {
    pub x: u16,
    pub y: u16,
    pub width: u16,
    pub height: u16,
}

/// Where the error overlay goes in `area`: centred, 20 to 70 cells wide
/// (eight fewer than the area, when that is in range), 7 rows high or the
/// whole height when the area is lower.
pub open spec fn error_area(area: Rect) -> Rect {
    let inner: int = if area.width >= 8 {
        area.width - 8
    } else {
        0
    };
    let w: int = if inner > 70 {
        70
    } else if inner < 20 {
        20
    } else {
        inner
    };
    let h: int = if area.height < 7 {
        area.height as int
    } else {
        7
    };
    let free_w: int = if area.width >= w {
        area.width - w
    } else {
        0
    };
    let free_h: int = if area.height >= h {
        area.height - h
    } else {
        0
    };
    Rect {
        x: (area.x + free_w / 2) as u16,
        y: (area.y + free_h / 2) as u16,
        width: w as u16,
        height: h as u16,
    }
}

pub fn error_rect(area: Rect) -> (r: Rect)
    requires
        area.x + area.width <= u16::MAX,
        area.y + area.height <= u16::MAX,
    ensures
        r == error_area(area),
{
    let w = area.width.saturating_sub(8);
    let w = if w > 70 {
        70
    } else if w < 20 {
        20
    } else {
        w
    };
    let h: u16 = if area.height < 7 {
        area.height
    } else {
        7
    };
    Rect {
        x: area.x + area.width.saturating_sub(w) / 2,
        y: area.y + area.height.saturating_sub(h) / 2,
        width: w,
        height: h,
    }
}

/// The overlay's text: the message, a blank line, and the keys.
pub fn error_text(msg: &str) -> (r: String)
    ensures
        r@ == msg@ + "\n\n"@ + ERROR_HINT@,
{
    let mut s = String::new();
    push_str(&mut s, msg);
    push_str(&mut s, "\n\n");
    push_str(&mut s, ERROR_HINT);
    s
}

/// A side pane listing its entries has one line per entry, the entry's
/// label; the highlighted line is the one at that pane's own selection (the
/// callee selection for Callees, the caller selection for Callers), and only
/// while the pane is active. The highlighted line is the entry that
/// re-centring would move to.
pub proof fn lemma_highlight_is_the_pane_selection(v: AppView, pane: Pane)
    requires
        pane != Pane::Focus,
        v.pending is None,
        !v.failed,
    ensures
        pane == Pane::Callers ==> side_lines(v, pane).len() == v.callers.len() && forall|i: int|
            0 <= i < v.callers.len() ==> #[trigger] side_lines(v, pane)[i] == (
                label_text(v.callers[i]),
                v.pane == Pane::Callers && i == v.caller_sel,
            ),
        pane == Pane::Callees ==> side_lines(v, pane).len() == v.callees.len() && forall|i: int|
            0 <= i < v.callees.len() ==> #[trigger] side_lines(v, pane)[i] == (
                label_text(v.callees[i]),
                v.pane == Pane::Callees && i == v.callee_sel,
            ),
        forall|i: int|
            0 <= i < side_lines(v, pane).len() && (#[trigger] side_lines(v, pane)[i]).1 ==> recentre_target(v)
                == Some(
                if pane == Pane::Callers {
                    v.callers[i]
                } else {
                    v.callees[i]
                },
            ),
{
}

} // verus!
