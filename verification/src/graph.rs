//! The call graph: identity, nodes, edges, and per-file invalidation.
//!
//! Nodes and edge lists are kept as sequences with pairwise distinct keys,
//! in the order they were first inserted; a key is found by its first (and
//! only) occurrence.

use crate::text::{push_str, string_eq_str};
use vstd::prelude::*;
use vstd::std_specs::cmp::PartialEqSpecImpl;

verus! {

broadcast use vstd::seq_lib::group_seq_properties;

/// A symbol's identity: `(uri, selectionRange.start, name)`.
#[derive(Debug, Clone, Hash)]
pub struct NodeId {
    pub uri: String,
    pub line: u32,
    pub character: u32,
    pub name: String,
}

/// The mathematical identity of a node.
pub type IdView = (Seq<char>, u32, u32, Seq<char>);

impl View for NodeId {
    type V = IdView;

    open spec fn view(&self) -> IdView {
        (self.uri@, self.line, self.character, self.name@)
    }
}

impl PartialEq for NodeId {
    fn eq(&self, other: &NodeId) -> (r: bool) {
        self.line == other.line && self.character == other.character && self.uri == other.uri
            && self.name == other.name
    }
}

impl PartialEqSpecImpl for NodeId {
    open spec fn obeys_eq_spec() -> bool {
        true
    }

    open spec fn eq_spec(&self, other: &NodeId) -> bool {
        self@ == other@
    }
}

impl Eq for NodeId {

}

/// Identity equality.
pub fn same_id(a: &NodeId, b: &NodeId) -> (r: bool)
    ensures
        r == (a@ == b@),
{
    a.line == b.line && a.character == b.character && a.uri == b.uri && a.name == b.name
}

pub fn clone_id(a: &NodeId) -> (r: NodeId)
    ensures
        r@ == a@,
{
    NodeId { uri: a.uri.clone(), line: a.line, character: a.character, name: a.name.clone() }
}

/// A call-hierarchy item as the server reported it: what identity and
/// display need, plus the item itself (`payload`), which the server wants
/// back when asked for its callers and callees.
#[derive(Debug, Clone)]
pub struct CallItem<T> {
    pub name: String,
    /// The item's kind, as its name (`"Function"`, `"Method"`, ...).
    pub kind_name: String,
    pub detail: Option<String>,
    pub uri: String,
    pub selection_line: u32,
    pub selection_character: u32,
    pub payload: T,
}

impl NodeId {
    /// A call-hierarchy item's identity.
    pub fn from_item<T>(item: &CallItem<T>) -> (r: NodeId)
        ensures
            r@ == (item.uri@, item.selection_line, item.selection_character, item.name@),
    {
        NodeId {
            uri: item.uri.clone(),
            line: item.selection_line,
            character: item.selection_character,
            name: item.name.clone(),
        }
    }
}

#[derive(Debug, Clone, Copy, PartialEq, Eq, Structural)]
pub enum UnresolvedReason {
    /// prepareCallHierarchy returned nothing. Legitimate for overload
    /// signatures and arrow-function assignments.
    NoCallHierarchyItem,
    /// The server kept reporting ContentModified; the symbol may resolve later.
    TransientContentModified,
}

pub open spec fn unresolved_text(r: UnresolvedReason) -> Seq<char> {
    match r {
        UnresolvedReason::NoCallHierarchyItem =>
            "no call hierarchy: likely an overload signature or an anonymous function"@,
        UnresolvedReason::TransientContentModified =>
            "server repeatedly reported content modified; the symbol may resolve on a later attempt"@,
    }
}

impl UnresolvedReason {
    /// The explanation shown beside an unresolved node.
    pub fn to_string(&self) -> (r: String)
        ensures
            r@ == unresolved_text(*self),
    {
        let mut s = String::new();
        match self {
            UnresolvedReason::NoCallHierarchyItem => push_str(
                &mut s,
                "no call hierarchy: likely an overload signature or an anonymous function",
            ),
            UnresolvedReason::TransientContentModified => push_str(
                &mut s,
                "server repeatedly reported content modified; the symbol may resolve on a later attempt",
            ),
        }
        s
    }
}

#[derive(Debug, Clone, Copy, PartialEq, Eq, Structural)]
pub enum NodeState {
    Unexpanded,
    Expanded,
    Unresolved(UnresolvedReason),
}

#[derive(Debug, Clone, PartialEq)]
pub struct Node {
    pub id: NodeId,
    pub kind_name: String,
    pub detail: Option<String>,
    pub state: NodeState,
}

pub open spec fn opt_view(o: Option<String>) -> Option<Seq<char>> {
    match o {
        Some(s) => Some(s@),
        None => None,
    }
}

/// A node as a value: identity, kind, detail, state.
pub type NodeView = (IdView, Seq<char>, Option<Seq<char>>, NodeState);

impl View for Node {
    type V = NodeView;

    open spec fn view(&self) -> NodeView {
        (self.id@, self.kind_name@, opt_view(self.detail), self.state)
    }
}

pub fn clone_opt_string(o: &Option<String>) -> (r: Option<String>)
    ensures
        opt_view(r) == opt_view(*o),
{
    match o {
        Some(s) => Some(s.clone()),
        None => None,
    }
}

pub fn clone_node(n: &Node) -> (r: Node)
    ensures
        r@ == n@,
{
    Node {
        id: clone_id(&n.id),
        kind_name: n.kind_name.clone(),
        detail: clone_opt_string(&n.detail),
        state: n.state,
    }
}

pub open spec fn node_view() -> spec_fn(Node) -> NodeView {
    |n: Node| n@
}

pub open spec fn nodes_view(v: Seq<Node>) -> Seq<NodeView> {
    v.map_values(node_view())
}

#[derive(Debug, Clone, PartialEq, Eq)]
pub struct Expansion {
    pub callers: Vec<NodeId>,
    pub callees: Vec<NodeId>,
}

pub open spec fn id_view() -> spec_fn(NodeId) -> IdView {
    |i: NodeId| i@
}

pub open spec fn ids_view(v: Seq<NodeId>) -> Seq<IdView> {
    v.map_values(id_view())
}

/// Mapping keeps up with one more element.
pub proof fn lemma_map_values_push<A, B>(s: Seq<A>, a: A, g: spec_fn(A) -> B)
    ensures
        s.push(a).map_values(g) == s.map_values(g).push(g(a)),
{
    assert(s.push(a).map_values(g) =~= s.map_values(g).push(g(a)));
}

impl View for Expansion {
    type V = (Seq<IdView>, Seq<IdView>);

    open spec fn view(&self) -> (Seq<IdView>, Seq<IdView>) {
        (ids_view(self.callers@), ids_view(self.callees@))
    }
}

impl Default for Expansion {
    fn default() -> (r: Expansion)
        ensures
            r@ == (Seq::<IdView>::empty(), Seq::<IdView>::empty()),
    {
        let r = Expansion { callers: Vec::new(), callees: Vec::new() };
        proof {
            assert(ids_view(r.callers@) =~= Seq::<IdView>::empty());
        }
        r
    }
}

pub fn clone_ids(v: &[NodeId]) -> (r: Vec<NodeId>)
    ensures
        ids_view(r@) == ids_view(v@),
{
    let mut out: Vec<NodeId> = Vec::new();
    let mut i: usize = 0;
    while i < v.len()
        invariant
            i <= v@.len(),
            out@.len() == i,
            forall|j: int| 0 <= j < i ==> out@[j]@ == v@[j]@,
        decreases v.len() - i,
    {
        out.push(clone_id(&v[i]));
        i = i + 1;
    }
    proof {
        assert(ids_view(out@) =~= ids_view(v@));
    }
    out
}


/// Position of the first entry whose key is `k`, searching from `i`.
pub open spec fn key_index_from<V>(s: Seq<(IdView, V)>, k: IdView, i: nat) -> Option<nat>
    decreases s.len() - i,
{
    if i >= s.len() {
        None
    } else if s[i as int].0 == k {
        Some(i)
    } else {
        key_index_from(s, k, i + 1)
    }
}

pub open spec fn key_index<V>(s: Seq<(IdView, V)>, k: IdView) -> Option<nat> {
    key_index_from(s, k, 0)
}

/// The value stored under `k`.
pub open spec fn lookup<V>(s: Seq<(IdView, V)>, k: IdView) -> Option<V> {
    match key_index(s, k) {
        Some(i) => Some(s[i as int].1),
        None => None,
    }
}

/// Keys occur at most once.
pub open spec fn distinct_keys<V>(s: Seq<(IdView, V)>) -> bool {
    forall|i: int, j: int| 0 <= i < j < s.len() ==> s[i].0 != s[j].0
}

/// `s` with `k` bound to `v`: replaced in place, or appended.
pub open spec fn insert_entry<V>(s: Seq<(IdView, V)>, k: IdView, v: V) -> Seq<(IdView, V)> {
    match key_index(s, k) {
        Some(i) => s.update(i as int, (k, v)),
        None => s.push((k, v)),
    }
}

/// Entries bound one after another, the last binding of a key winning.
pub open spec fn insert_all<V>(s: Seq<(IdView, V)>, entries: Seq<(IdView, V)>) -> Seq<(IdView, V)>
    decreases entries.len(),
{
    if entries.len() == 0 {
        s
    } else {
        insert_all(insert_entry(s, entries[0].0, entries[0].1), entries.drop_first())
    }
}

pub proof fn lemma_key_index_from<V>(s: Seq<(IdView, V)>, k: IdView, i: nat)
    ensures
        key_index_from(s, k, i) matches Some(p) ==> i <= p < s.len() && s[p as int].0 == k
            && forall|j: int| i <= j < p ==> s[j].0 != k,
        key_index_from(s, k, i) is None ==> forall|j: int| i <= j < s.len() ==> s[j].0 != k,
    decreases s.len() - i,
{
    if i < s.len() && s[i as int].0 != k {
        lemma_key_index_from(s, k, i + 1);
    }
}

pub proof fn lemma_key_index<V>(s: Seq<(IdView, V)>, k: IdView)
    ensures
        key_index(s, k) matches Some(p) ==> p < s.len() && s[p as int].0 == k && forall|j: int|
            0 <= j < p ==> s[j].0 != k,
        key_index(s, k) is None ==> forall|j: int| 0 <= j < s.len() ==> s[j].0 != k,
{
    lemma_key_index_from(s, k, 0);
}

/// In a sequence with distinct keys, any position holding `k` is the one found.
pub proof fn lemma_key_index_unique<V>(s: Seq<(IdView, V)>, k: IdView, p: int)
    requires
        distinct_keys(s),
        0 <= p < s.len(),
        s[p].0 == k,
    ensures
        key_index(s, k) == Some(p as nat),
{
    lemma_key_index(s, k);
}

pub proof fn lemma_insert_entry_distinct<V>(s: Seq<(IdView, V)>, k: IdView, v: V)
    requires
        distinct_keys(s),
    ensures
        distinct_keys(insert_entry(s, k, v)),
        lookup(insert_entry(s, k, v), k) == Some(v),
        forall|k2: IdView| k2 != k ==> lookup(insert_entry(s, k, v), k2) == lookup(s, k2),
{
    lemma_key_index(s, k);
    let t = insert_entry(s, k, v);
    match key_index(s, k) {
        Some(p) => {
            assert forall|i: int, j: int| 0 <= i < j < t.len() implies t[i].0 != t[j].0 by {
                if i != p && j != p {
                    assert(t[i] == s[i] && t[j] == s[j]);
                }
            }
            lemma_key_index_unique(t, k, p as int);
        },
        None => {
            assert forall|i: int, j: int| 0 <= i < j < t.len() implies t[i].0 != t[j].0 by {
                if j < s.len() {
                    assert(t[i] == s[i] && t[j] == s[j]);
                } else {
                    assert(t[i] == s[i]);
                }
            }
            lemma_key_index_unique(t, k, s.len() as int);
        },
    }
    assert forall|k2: IdView| k2 != k implies lookup(t, k2) == lookup(s, k2) by {
        lemma_key_index(s, k2);
        lemma_key_index(t, k2);
        match key_index(s, k2) {
            Some(p) => {
                lemma_key_index_unique(t, k2, p as int);
            },
            None => {
                match key_index(t, k2) {
                    Some(q) => {
                        if q < s.len() {
                            assert(t[q as int] == s[q as int] || t[q as int].0 == k);
                        }
                    },
                    None => {},
                }
            },
        }
    }
}

/// One more element read: the filter grows by it exactly when it passes.
pub proof fn lemma_filter_step<A>(s: Seq<A>, p: spec_fn(A) -> bool, i: int)
    requires
        0 <= i < s.len(),
    ensures
        s.take(i + 1).filter(p) == (if p(s[i]) {
            s.take(i).filter(p).push(s[i])
        } else {
            s.take(i).filter(p)
        }),
{
    reveal(Seq::filter);
    assert(s.take(i + 1).drop_last() =~= s.take(i));
    assert(s.take(i + 1).last() == s[i]);
}

/// Searching for the edge list of `k` in a vector of entries.
fn find_entry(v: &Vec<(NodeId, Vec<NodeId>)>, k: &NodeId) -> (r: Option<usize>)
    ensures
        match (r, key_index(edges_view(v@), k@)) {
            (Some(i), Some(j)) => i == j,
            (None, None) => true,
            _ => false,
        },
{
    let ghost s = edges_view(v@);
    let mut i: usize = 0;
    while i < v.len()
        invariant
            i <= v@.len(),
            s == edges_view(v@),
            key_index(s, k@) == key_index_from(s, k@, i as nat),
        decreases v.len() - i,
    {
        if same_id(&v[i].0, k) {
            return Some(i);
        }
        i = i + 1;
    }
    None
}

fn find_node(v: &Vec<Node>, k: &NodeId) -> (r: Option<usize>)
    ensures
        match (r, key_index(nodes_entries(v@), k@)) {
            (Some(i), Some(j)) => i == j,
            (None, None) => true,
            _ => false,
        },
{
    let ghost s = nodes_entries(v@);
    let mut i: usize = 0;
    while i < v.len()
        invariant
            i <= v@.len(),
            s == nodes_entries(v@),
            key_index(s, k@) == key_index_from(s, k@, i as nat),
        decreases v.len() - i,
    {
        if same_id(&v[i].id, k) {
            return Some(i);
        }
        i = i + 1;
    }
    None
}

/// Edge lists as `(key, neighbours)` values.
pub open spec fn edge_view() -> spec_fn((NodeId, Vec<NodeId>)) -> (IdView, Seq<IdView>) {
    |e: (NodeId, Vec<NodeId>)| (e.0@, ids_view(e.1@))
}

pub open spec fn edges_view(v: Seq<(NodeId, Vec<NodeId>)>) -> Seq<(IdView, Seq<IdView>)> {
    v.map_values(edge_view())
}

pub open spec fn node_entry() -> spec_fn(Node) -> (IdView, NodeView) {
    |n: Node| (n.id@, n@)
}

/// Nodes keyed by their identity.
pub open spec fn nodes_entries(v: Seq<Node>) -> Seq<(IdView, NodeView)> {
    v.map_values(node_entry())
}

#[derive(Debug, Clone)]
pub struct CallGraph {
    nodes: Vec<Node>,
    callers: Vec<(NodeId, Vec<NodeId>)>,
    callees: Vec<(NodeId, Vec<NodeId>)>,
}

/// Does an edge list refer to a node of file `uri`?
pub open spec fn edges_mention_file(s: Seq<(IdView, Seq<IdView>)>, uri: Seq<char>) -> bool {
    exists|i: int, j: int| 0 <= i < s.len() && 0 <= j < s[i].1.len() && in_file(#[trigger] s[i].1[j], uri)
}

/// The node entries after `upsert(n)`: a new node is added; a known one
/// takes the new kind and detail and keeps its state.
pub open spec fn upserted(s: Seq<(IdView, NodeView)>, n: NodeView) -> Seq<(IdView, NodeView)> {
    insert_entry(
        s,
        n.0,
        match lookup(s, n.0) {
            Some(e) => (n.0, n.1, n.2, e.3),
            None => n,
        },
    )
}

/// Upserting a node records it: afterwards it is present with the new kind
/// and detail, and with the state it already had, or its own when it is new.
pub proof fn lemma_upserted_records(s: Seq<(IdView, NodeView)>, n: NodeView)
    requires
        distinct_keys(s),
    ensures
        distinct_keys(upserted(s, n)),
        lookup(upserted(s, n), n.0) matches Some(e) && e.0 == n.0 && e.1 == n.1 && e.2 == n.2 && e.3 == match lookup(
            s,
            n.0,
        ) {
            Some(old) => old.3,
            None => n.3,
        },
{
    lemma_insert_entry_distinct(
        s,
        n.0,
        match lookup(s, n.0) {
            Some(e) => (n.0, n.1, n.2, e.3),
            None => n,
        },
    );
}

/// The node entries with the state of `id` set, when it is present.
pub open spec fn with_state(s: Seq<(IdView, NodeView)>, id: IdView, st: NodeState) -> Seq<(IdView, NodeView)> {
    match lookup(s, id) {
        Some(e) => insert_entry(s, id, (e.0, e.1, e.2, st)),
        None => s,
    }
}

/// Does this node belong to file `uri`?
pub open spec fn in_file(id: IdView, uri: Seq<char>) -> bool {
    id.0 == uri
}

pub open spec fn outside_file(uri: Seq<char>) -> spec_fn(IdView) -> bool {
    |x: IdView| !in_file(x, uri)
}

pub open spec fn entry_in_file<V>(uri: Seq<char>) -> spec_fn((IdView, V)) -> bool {
    |e: (IdView, V)| in_file(e.0, uri)
}

pub open spec fn entry_outside_file<V>(uri: Seq<char>) -> spec_fn((IdView, V)) -> bool {
    |e: (IdView, V)| !in_file(e.0, uri)
}

/// Is an edge list kept when file `uri` is removed from a graph with node
/// entries `nodes`? Only the lists of the file's nodes go.
pub open spec fn edges_kept<V>(uri: Seq<char>, nodes: Seq<(IdView, NodeView)>) -> spec_fn((IdView, V)) -> bool {
    |e: (IdView, V)| !(in_file(e.0, uri) && lookup(nodes, e.0) is Some)
}

pub open spec fn entry_key<V>() -> spec_fn((IdView, V)) -> IdView {
    |e: (IdView, V)| e.0
}

/// An edge list with the references into file `uri` removed.
pub open spec fn prune_entry(uri: Seq<char>) -> spec_fn((IdView, Seq<IdView>)) -> (IdView, Seq<IdView>) {
    |e: (IdView, Seq<IdView>)| (e.0, e.1.filter(outside_file(uri)))
}

impl CallGraph {
    /// The nodes, keyed by identity, in insertion order.
    pub closed spec fn node_entries(&self) -> Seq<(IdView, NodeView)> {
        nodes_entries(self.nodes@)
    }

    /// Recorded callers, keyed by the node they were recorded for.
    pub closed spec fn caller_entries(&self) -> Seq<(IdView, Seq<IdView>)> {
        edges_view(self.callers@)
    }

    /// Recorded callees, keyed by the node they were recorded for.
    pub closed spec fn callee_entries(&self) -> Seq<(IdView, Seq<IdView>)> {
        edges_view(self.callees@)
    }

    /// Every key occurs once, and a node is keyed by its own identity.
    pub open spec fn wf(&self) -> bool {
        &&& distinct_keys(self.node_entries())
        &&& distinct_keys(self.caller_entries())
        &&& distinct_keys(self.callee_entries())
        &&& forall|i: int| 0 <= i < self.node_entries().len() ==> #[trigger] self.node_entries()[i].0
            == self.node_entries()[i].1.0
    }

    /// Does a node of the graph belong to file `uri`, or does an edge list
    /// refer to one?
    pub open spec fn mentions_file(&self, uri: Seq<char>) -> bool {
        ||| exists|i: int| 0 <= i < self.node_entries().len() && in_file(#[trigger] self.node_entries()[i].0, uri)
        ||| edges_mention_file(self.caller_entries(), uri)
        ||| edges_mention_file(self.callee_entries(), uri)
    }

    pub open spec fn node(&self, id: IdView) -> Option<NodeView> {
        lookup(self.node_entries(), id)
    }

    pub fn new() -> (g: CallGraph)
        ensures
            g.wf(),
            g.node_entries() == Seq::<(IdView, NodeView)>::empty(),
            g.caller_entries() == Seq::<(IdView, Seq<IdView>)>::empty(),
            g.callee_entries() == Seq::<(IdView, Seq<IdView>)>::empty(),
    {
        let g = CallGraph { nodes: Vec::new(), callers: Vec::new(), callees: Vec::new() };
        proof {
            assert(g.node_entries() =~= Seq::<(IdView, NodeView)>::empty());
            assert(g.caller_entries() =~= Seq::<(IdView, Seq<IdView>)>::empty());
            assert(g.callee_entries() =~= Seq::<(IdView, Seq<IdView>)>::empty());
        }
        g
    }

    /// Number of nodes.
    pub fn len(&self) -> (r: usize)
        ensures
            r == self.node_entries().len(),
    {
        self.nodes.len()
    }

    pub fn is_empty(&self) -> (r: bool)
        ensures
            r == (self.node_entries().len() == 0),
    {
        self.nodes.len() == 0
    }

    /// Insert a node, preserving the existing state if already present:
    /// re-seeing a node must not discard the fact that it was already
    /// expanded. Kind and detail are refreshed.
    pub fn upsert(&mut self, node: Node)
        requires
            old(self).wf(),
        ensures
            final(self).wf(),
            final(self).caller_entries() == old(self).caller_entries(),
            final(self).callee_entries() == old(self).callee_entries(),
            final(self).node_entries() == upserted(old(self).node_entries(), node@),
    {
        let ghost old_entries = self.node_entries();
        let ghost nv = node@;
        proof {
            lemma_key_index(old_entries, node.id@);
        }
        match find_node(&self.nodes, &node.id) {
            Some(i) => {
                let state = self.nodes[i].state;
                let id = clone_id(&self.nodes[i].id);
                let updated = Node { id, kind_name: node.kind_name, detail: node.detail, state };
                self.nodes.set(i, updated);
                proof {
                    assert(self.node_entries() =~= old_entries.update(
                        i as int,
                        (nv.0, (nv.0, nv.1, nv.2, old_entries[i as int].1.3)),
                    ));
                }
            },
            None => {
                self.nodes.push(node);
                proof {
                    assert(self.node_entries() =~= old_entries.push((nv.0, nv)));
                }
            },
        }
        proof {
            lemma_insert_entry_distinct(
                old_entries,
                nv.0,
                match lookup(old_entries, nv.0) {
                    Some(e) => (nv.0, nv.1, nv.2, e.3),
                    None => nv,
                },
            );
            assert forall|j: int| 0 <= j < self.node_entries().len() implies #[trigger] self.node_entries()[j].0
                == self.node_entries()[j].1.0 by {
                if j < old_entries.len() {
                    assert(old_entries[j].0 == old_entries[j].1.0);
                }
            }
        }
    }

    /// The node with this identity, if any.
    pub fn get(&self, id: &NodeId) -> (r: Option<&Node>)
        ensures
            match (r, self.node(id@)) {
                (Some(n), Some(v)) => n@ == v,
                (None, None) => true,
                _ => false,
            },
    {
        proof {
            lemma_key_index(nodes_entries(self.nodes@), id@);
        }
        match find_node(&self.nodes, id) {
            Some(i) => Some(&self.nodes[i]),
            None => None,
        }
    }

    /// Set a node's state; a node that is not present is left absent.
    pub fn set_state(&mut self, id: &NodeId, state: NodeState)
        requires
            old(self).wf(),
        ensures
            final(self).wf(),
            final(self).caller_entries() == old(self).caller_entries(),
            final(self).callee_entries() == old(self).callee_entries(),
            final(self).node_entries() == with_state(old(self).node_entries(), id@, state),
    {
        let ghost old_entries = self.node_entries();
        proof {
            lemma_key_index(old_entries, id@);
        }
        match find_node(&self.nodes, id) {
            Some(i) => {
                let n = clone_node(&self.nodes[i]);
                let updated = Node { id: n.id, kind_name: n.kind_name, detail: n.detail, state };
                self.nodes.set(i, updated);
                proof {
                    let e = old_entries[i as int].1;
                    assert(self.node_entries() =~= old_entries.update(
                        i as int,
                        (id@, (e.0, e.1, e.2, state)),
                    ));
                    lemma_insert_entry_distinct(old_entries, id@, (e.0, e.1, e.2, state));
                    assert forall|j: int| 0 <= j < self.node_entries().len() implies #[trigger] self.node_entries()[j].0
                        == self.node_entries()[j].1.0 by {
                        assert(old_entries[j].0 == old_entries[j].1.0);
                    }
                }
            },
            None => {},
        }
    }

    /// Record a node's callers and callees, and mark it expanded.
    pub fn record_expansion(&mut self, id: &NodeId, exp: &Expansion)
        requires
            old(self).wf(),
        ensures
            final(self).wf(),
            final(self).caller_entries() == insert_entry(old(self).caller_entries(), id@, exp@.0),
            final(self).callee_entries() == insert_entry(old(self).callee_entries(), id@, exp@.1),
            final(self).node_entries() == with_state(old(self).node_entries(), id@, NodeState::Expanded),
    {
        insert_edges(&mut self.callers, id, &exp.callers);
        insert_edges(&mut self.callees, id, &exp.callees);
        self.set_state(id, NodeState::Expanded);
    }

    pub fn callers_of(&self, id: &NodeId) -> (r: Option<&[NodeId]>)
        ensures
            match (r, lookup(self.caller_entries(), id@)) {
                (Some(s), Some(v)) => ids_view(s@) == v,
                (None, None) => true,
                _ => false,
            },
    {
        proof {
            lemma_key_index(edges_view(self.callers@), id@);
        }
        match find_entry(&self.callers, id) {
            Some(i) => Some(self.callers[i].1.as_slice()),
            None => None,
        }
    }

    pub fn callees_of(&self, id: &NodeId) -> (r: Option<&[NodeId]>)
        ensures
            match (r, lookup(self.callee_entries(), id@)) {
                (Some(s), Some(v)) => ids_view(s@) == v,
                (None, None) => true,
                _ => false,
            },
    {
        proof {
            lemma_key_index(edges_view(self.callees@), id@);
        }
        match find_entry(&self.callees, id) {
            Some(i) => Some(self.callees[i].1.as_slice()),
            None => None,
        }
    }

    /// Identities of the nodes that belong to file `uri`.
    pub fn nodes_in_file(&self, uri: &str) -> (r: Vec<NodeId>)
        ensures
            ids_view(r@) == self.node_entries().filter(entry_in_file(uri@)).map_values(entry_key()),
    {
        let ghost p = entry_in_file::<NodeView>(uri@);
        let ghost key = entry_key::<NodeView>();
        let mut out: Vec<NodeId> = Vec::new();
        let mut i: usize = 0;
        while i < self.nodes.len()
            invariant
                i <= self.nodes@.len(),
                p == entry_in_file::<NodeView>(uri@),
                key == entry_key::<NodeView>(),
                ids_view(out@) == nodes_entries(self.nodes@).take(i as int).filter(p).map_values(key),
            decreases self.nodes.len() - i,
        {
            let ghost s = nodes_entries(self.nodes@);
            proof {
                lemma_filter_step(s, p, i as int);
                assert(s[i as int] == (self.nodes@[i as int].id@, self.nodes@[i as int]@));
            }
            if string_eq_str(&self.nodes[i].id.uri, uri) {
                let ghost before = out@;
                let c = clone_id(&self.nodes[i].id);
                out.push(c);
                proof {
                    lemma_map_values_push(before, c, id_view());
                    lemma_map_values_push(s.take(i as int).filter(p), s[i as int], key);
                }
            }
            i = i + 1;
        }
        proof {
            assert(nodes_entries(self.nodes@).take(i as int) =~= nodes_entries(self.nodes@));
        }
        out
    }

    /// Drop every node of file `uri`, their edge lists, and every reference
    /// to them from the edge lists that remain: an edited file invalidates
    /// all of its nodes wholesale.
    pub fn remove_file(&mut self, uri: &str)
        requires
            old(self).wf(),
        ensures
            final(self).wf(),
            final(self).node_entries() == old(self).node_entries().filter(entry_outside_file(uri@)),
            final(self).caller_entries() == prune_edges(old(self).caller_entries(), uri@, old(self).node_entries()),
            final(self).callee_entries() == prune_edges(old(self).callee_entries(), uri@, old(self).node_entries()),
            !final(self).mentions_file(uri@),
    {
        let ghost old_nodes = self.node_entries();
        let mut kept: Vec<Node> = Vec::new();
        let ghost p = entry_outside_file::<NodeView>(uri@);
        let mut i: usize = 0;
        while i < self.nodes.len()
            invariant
                i <= self.nodes@.len(),
                p == entry_outside_file::<NodeView>(uri@),
                old_nodes == nodes_entries(self.nodes@),
                nodes_entries(kept@) == old_nodes.take(i as int).filter(p),
            decreases self.nodes.len() - i,
        {
            proof {
                lemma_filter_step(old_nodes, p, i as int);
                assert(old_nodes[i as int] == (self.nodes@[i as int].id@, self.nodes@[i as int]@));
            }
            if !string_eq_str(&self.nodes[i].id.uri, uri) {
                let ghost before = kept@;
                let c = clone_node(&self.nodes[i]);
                kept.push(c);
                proof {
                    lemma_map_values_push(before, c, node_entry());
                }
            }
            i = i + 1;
        }
        proof {
            assert(old_nodes.take(i as int) =~= old_nodes);
            lemma_filter_keeps_distinct(old_nodes, p);
            lemma_filter_keeps_self_keyed(old_nodes, p);
        }
        let callers = prune_edge_vec(&self.callers, uri, &self.nodes);
        let callees = prune_edge_vec(&self.callees, uri, &self.nodes);
        self.nodes = kept;
        self.callers = callers;
        self.callees = callees;
        proof {
            lemma_pruned_edges_avoid_file(old(self).caller_entries(), uri@, old_nodes);
            lemma_pruned_edges_avoid_file(old(self).callee_entries(), uri@, old_nodes);
            let f = old_nodes.filter(p);
            assert forall|k: int| 0 <= k < f.len() implies !in_file(#[trigger] f[k].0, uri@) by {
                old_nodes.lemma_filter_pred(p, k);
            }
        }
    }

    /// The graph as plain parts: nodes, callers and callees, each in
    /// insertion order. This is the shape the graph is saved in.
    pub fn to_parts(&self) -> (r: (Vec<Node>, Vec<(NodeId, Vec<NodeId>)>, Vec<(NodeId, Vec<NodeId>)>))
        ensures
            nodes_entries(r.0@) == self.node_entries(),
            edges_view(r.1@) == self.caller_entries(),
            edges_view(r.2@) == self.callee_entries(),
    {
        let mut nodes: Vec<Node> = Vec::new();
        let mut i: usize = 0;
        while i < self.nodes.len()
            invariant
                i <= self.nodes@.len(),
                nodes_entries(nodes@) == nodes_entries(self.nodes@).take(i as int),
            decreases self.nodes.len() - i,
        {
            let ghost before = nodes@;
            let c = clone_node(&self.nodes[i]);
            nodes.push(c);
            proof {
                lemma_map_values_push(before, c, node_entry());
                assert(nodes_entries(self.nodes@).take(i + 1) =~= nodes_entries(self.nodes@).take(i as int).push(
                    nodes_entries(self.nodes@)[i as int],
                ));
            }
            i = i + 1;
        }
        proof {
            assert(nodes_entries(self.nodes@).take(i as int) =~= nodes_entries(self.nodes@));
        }
        (nodes, clone_edge_vec(&self.callers), clone_edge_vec(&self.callees))
    }

    /// Rebuild a graph from its parts. A key given more than once keeps its
    /// last value, at the place of its first.
    pub fn from_parts(
        nodes: Vec<Node>,
        callers: Vec<(NodeId, Vec<NodeId>)>,
        callees: Vec<(NodeId, Vec<NodeId>)>,
    ) -> (g: CallGraph)
        ensures
            g.wf(),
            g.node_entries() == insert_all(Seq::<(IdView, NodeView)>::empty(), nodes_entries(nodes@)),
            g.caller_entries() == insert_all(Seq::<(IdView, Seq<IdView>)>::empty(), edges_view(callers@)),
            g.callee_entries() == insert_all(Seq::<(IdView, Seq<IdView>)>::empty(), edges_view(callees@)),
    {
        let mut g = CallGraph::new();
        let mut i: usize = 0;
        let ghost all = nodes_entries(nodes@);
        while i < nodes.len()
            invariant
                i <= nodes@.len(),
                all == nodes_entries(nodes@),
                g.wf(),
                g.caller_entries() == Seq::<(IdView, Seq<IdView>)>::empty(),
                g.callee_entries() == Seq::<(IdView, Seq<IdView>)>::empty(),
                insert_all(Seq::<(IdView, NodeView)>::empty(), all) == insert_all(g.node_entries(), all.skip(i as int)),
            decreases nodes.len() - i,
        {
            let n = clone_node(&nodes[i]);
            let ghost before = g.node_entries();
            proof {
                assert(all.skip(i as int).drop_first() =~= all.skip(i + 1));
                assert(all.skip(i as int)[0] == (n.id@, n@));
            }
            g.insert_node(n);
            i = i + 1;
        }
        proof {
            assert(all.skip(i as int) =~= Seq::<(IdView, NodeView)>::empty());
        }
        let c = build_edges(&callers);
        let d = build_edges(&callees);
        g.callers = c;
        g.callees = d;
        g
    }

    /// Bind a node under its identity, replacing any node already there.
    fn insert_node(&mut self, node: Node)
        requires
            old(self).wf(),
        ensures
            final(self).wf(),
            final(self).caller_entries() == old(self).caller_entries(),
            final(self).callee_entries() == old(self).callee_entries(),
            final(self).node_entries() == insert_entry(old(self).node_entries(), node.id@, node@),
    {
        let ghost old_entries = self.node_entries();
        let ghost nv = node@;
        proof {
            lemma_key_index(old_entries, node.id@);
            lemma_insert_entry_distinct(old_entries, nv.0, nv);
        }
        match find_node(&self.nodes, &node.id) {
            Some(i) => {
                self.nodes.set(i, node);
                proof {
                    assert(self.node_entries() =~= old_entries.update(i as int, (nv.0, nv)));
                }
            },
            None => {
                self.nodes.push(node);
                proof {
                    assert(self.node_entries() =~= old_entries.push((nv.0, nv)));
                }
            },
        }
        proof {
            assert forall|j: int| 0 <= j < self.node_entries().len() implies #[trigger] self.node_entries()[j].0
                == self.node_entries()[j].1.0 by {
                if j < old_entries.len() && self.node_entries()[j] == old_entries[j] {
                    assert(old_entries[j].0 == old_entries[j].1.0);
                }
            }
        }
    }
}

/// Binding entries whose keys are new, in order, appends them.
pub proof fn lemma_insert_all_fresh<V>(t: Seq<(IdView, V)>, s: Seq<(IdView, V)>)
    requires
        distinct_keys(t + s),
    ensures
        insert_all(t, s) == t + s,
    decreases s.len(),
{
    if s.len() > 0 {
        let u = t + s;
        lemma_key_index(t, s[0].0);
        assert forall|j: int| 0 <= j < t.len() implies t[j].0 != s[0].0 by {
            assert(u[j] == t[j] && u[t.len() as int] == s[0]);
        }
        let t2 = t.push(s[0]);
        assert(insert_entry(t, s[0].0, s[0].1) == t2);
        assert(t2 + s.drop_first() =~= u);
        lemma_insert_all_fresh(t2, s.drop_first());
    } else {
        assert(t + s =~= t);
    }
}

/// Rebuilding a graph from its own parts gives back the same graph: a
/// well-formed graph's entries are what binding them one by one, from
/// nothing, produces.
pub proof fn lemma_rebuild_from_parts(g: CallGraph)
    requires
        g.wf(),
    ensures
        insert_all(Seq::<(IdView, NodeView)>::empty(), g.node_entries()) == g.node_entries(),
        insert_all(Seq::<(IdView, Seq<IdView>)>::empty(), g.caller_entries()) == g.caller_entries(),
        insert_all(Seq::<(IdView, Seq<IdView>)>::empty(), g.callee_entries()) == g.callee_entries(),
{
    assert(Seq::<(IdView, NodeView)>::empty() + g.node_entries() =~= g.node_entries());
    assert(Seq::<(IdView, Seq<IdView>)>::empty() + g.caller_entries() =~= g.caller_entries());
    assert(Seq::<(IdView, Seq<IdView>)>::empty() + g.callee_entries() =~= g.callee_entries());
    lemma_insert_all_fresh(Seq::<(IdView, NodeView)>::empty(), g.node_entries());
    lemma_insert_all_fresh(Seq::<(IdView, Seq<IdView>)>::empty(), g.caller_entries());
    lemma_insert_all_fresh(Seq::<(IdView, Seq<IdView>)>::empty(), g.callee_entries());
}

/// Edge lists after file `uri` is removed from a graph with node entries
/// `nodes`: the lists of the file's nodes are dropped, and every reference
/// into `uri` is removed from the lists that remain.
pub open spec fn prune_edges(
    s: Seq<(IdView, Seq<IdView>)>,
    uri: Seq<char>,
    nodes: Seq<(IdView, NodeView)>,
) -> Seq<(IdView, Seq<IdView>)> {
    s.filter(edges_kept(uri, nodes)).map_values(prune_entry(uri))
}

/// Pruned edge lists do not refer to the pruned file.
pub proof fn lemma_pruned_edges_avoid_file(
    s: Seq<(IdView, Seq<IdView>)>,
    uri: Seq<char>,
    nodes: Seq<(IdView, NodeView)>,
)
    ensures
        !edges_mention_file(prune_edges(s, uri, nodes), uri),
{
    let p = edges_kept::<Seq<IdView>>(uri, nodes);
    let f = s.filter(p);
    let t = prune_edges(s, uri, nodes);
    assert forall|i: int, j: int| 0 <= i < t.len() && 0 <= j < t[i].1.len() implies !in_file(
        #[trigger] t[i].1[j],
        uri,
    ) by {
        s.lemma_filter_pred(p, i);
        let q = outside_file(uri);
        assert(t[i] == prune_entry(uri)(f[i]));
        f[i].1.lemma_filter_pred(q, j);
    }
}

/// Filtering keeps only elements of the input, and keeps keys distinct.
pub proof fn lemma_filter_keeps_distinct<V>(s: Seq<(IdView, V)>, p: spec_fn((IdView, V)) -> bool)
    requires
        distinct_keys(s),
    ensures
        distinct_keys(s.filter(p)),
        forall|i: int| 0 <= i < s.filter(p).len() ==> s.contains(#[trigger] s.filter(p)[i]),
    decreases s.len(),
{
    reveal(Seq::filter);
    if s.len() > 0 {
        let t = s.drop_last();
        let l = s.last();
        assert(distinct_keys(t)) by {
            assert forall|i: int, j: int| 0 <= i < j < t.len() implies t[i].0 != t[j].0 by {
                assert(t[i] == s[i] && t[j] == s[j]);
            }
        }
        lemma_filter_keeps_distinct(t, p);
        let f = t.filter(p);
        assert forall|i: int| 0 <= i < f.len() implies s.contains(#[trigger] f[i]) && f[i].0 != l.0 by {
            assert(t.contains(f[i]));
            let k = choose|k: int| 0 <= k < t.len() && t[k] == f[i];
            assert(s[k] == t[k]);
            assert(s[s.len() - 1] == l);
        }
        if p(l) {
            let g = f.push(l);
            assert(s.filter(p) == g);
            assert forall|i: int, j: int| 0 <= i < j < g.len() implies g[i].0 != g[j].0 by {
                assert(g[i] == f[i]);
                if j < f.len() {
                    assert(g[j] == f[j]);
                }
            }
            assert forall|i: int| 0 <= i < g.len() implies s.contains(#[trigger] g[i]) by {
                if i < f.len() {
                    assert(g[i] == f[i]);
                } else {
                    assert(s[s.len() - 1] == l);
                }
            }
        }
    }
}

proof fn lemma_filter_keeps_self_keyed(s: Seq<(IdView, NodeView)>, p: spec_fn((IdView, NodeView)) -> bool)
    requires
        forall|i: int| 0 <= i < s.len() ==> #[trigger] s[i].0 == s[i].1.0,
    ensures
        forall|i: int| 0 <= i < s.filter(p).len() ==> #[trigger] s.filter(p)[i].0 == s.filter(p)[i].1.0,
    decreases s.len(),
{
    reveal(Seq::filter);
    if s.len() > 0 {
        let t = s.drop_last();
        assert forall|i: int| 0 <= i < t.len() implies #[trigger] t[i].0 == t[i].1.0 by {
            assert(t[i] == s[i]);
        }
        lemma_filter_keeps_self_keyed(t, p);
        let f = t.filter(p);
        assert(s[s.len() - 1] == s.last());
        if p(s.last()) {
            let g = f.push(s.last());
            assert forall|i: int| 0 <= i < g.len() implies #[trigger] g[i].0 == g[i].1.0 by {
                if i < f.len() {
                    assert(g[i] == f[i]);
                }
            }
        }
    }
}

fn clone_edge_vec(v: &Vec<(NodeId, Vec<NodeId>)>) -> (r: Vec<(NodeId, Vec<NodeId>)>)
    ensures
        edges_view(r@) == edges_view(v@),
{
    let mut out: Vec<(NodeId, Vec<NodeId>)> = Vec::new();
    let mut i: usize = 0;
    while i < v.len()
        invariant
            i <= v@.len(),
            edges_view(out@) == edges_view(v@).take(i as int),
        decreases v.len() - i,
    {
        let ghost before = out@;
        let c = (clone_id(&v[i].0), clone_ids(v[i].1.as_slice()));
        out.push(c);
        proof {
            lemma_map_values_push(before, c, edge_view());
            assert(edges_view(v@).take(i + 1) =~= edges_view(v@).take(i as int).push(edges_view(v@)[i as int]));
        }
        i = i + 1;
    }
    proof {
        assert(edges_view(v@).take(i as int) =~= edges_view(v@));
    }
    out
}

/// Bind `k` to a copy of `ids` in an edge-list vector.
fn insert_edges(v: &mut Vec<(NodeId, Vec<NodeId>)>, k: &NodeId, ids: &Vec<NodeId>)
    requires
        distinct_keys(edges_view(old(v)@)),
    ensures
        distinct_keys(edges_view(final(v)@)),
        edges_view(final(v)@) == insert_entry(edges_view(old(v)@), k@, ids_view(ids@)),
{
    let ghost s = edges_view(v@);
    proof {
        lemma_key_index(s, k@);
        lemma_insert_entry_distinct(s, k@, ids_view(ids@));
    }
    let entry = (clone_id(k), clone_ids(ids.as_slice()));
    match find_entry(v, k) {
        Some(i) => {
            v.set(i, entry);
            proof {
                assert(edges_view(v@) =~= s.update(i as int, (k@, ids_view(ids@))));
            }
        },
        None => {
            v.push(entry);
            proof {
                assert(edges_view(v@) =~= s.push((k@, ids_view(ids@))));
            }
        },
    }
}

fn build_edges(entries: &Vec<(NodeId, Vec<NodeId>)>) -> (r: Vec<(NodeId, Vec<NodeId>)>)
    ensures
        distinct_keys(edges_view(r@)),
        edges_view(r@) == insert_all(Seq::<(IdView, Seq<IdView>)>::empty(), edges_view(entries@)),
{
    let ghost all = edges_view(entries@);
    let mut out: Vec<(NodeId, Vec<NodeId>)> = Vec::new();
    let mut i: usize = 0;
    proof {
        assert(all.skip(0) =~= all);
        assert(edges_view(out@) =~= Seq::<(IdView, Seq<IdView>)>::empty());
    }
    while i < entries.len()
        invariant
            i <= entries@.len(),
            all == edges_view(entries@),
            distinct_keys(edges_view(out@)),
            insert_all(Seq::<(IdView, Seq<IdView>)>::empty(), all) == insert_all(edges_view(out@), all.skip(i as int)),
        decreases entries.len() - i,
    {
        proof {
            assert(all.skip(i as int).drop_first() =~= all.skip(i + 1));
            assert(all.skip(i as int)[0] == (entries@[i as int].0@, ids_view(entries@[i as int].1@)));
        }
        insert_edges(&mut out, &entries[i].0, &entries[i].1);
        i = i + 1;
    }
    proof {
        assert(all.skip(i as int) =~= Seq::<(IdView, Seq<IdView>)>::empty());
    }
    out
}

/// Drop the entries of file `uri` and the references into it.
fn prune_edge_vec(v: &Vec<(NodeId, Vec<NodeId>)>, uri: &str, nodes: &Vec<Node>) -> (r: Vec<(NodeId, Vec<NodeId>)>)
    requires
        distinct_keys(edges_view(v@)),
    ensures
        distinct_keys(edges_view(r@)),
        edges_view(r@) == prune_edges(edges_view(v@), uri@, nodes_entries(nodes@)),
{
    let ghost s = edges_view(v@);
    let ghost p = edges_kept::<Seq<IdView>>(uri@, nodes_entries(nodes@));
    let ghost f = prune_entry(uri@);
    let mut out: Vec<(NodeId, Vec<NodeId>)> = Vec::new();
    let mut i: usize = 0;
    while i < v.len()
        invariant
            i <= v@.len(),
            p == edges_kept::<Seq<IdView>>(uri@, nodes_entries(nodes@)),
            f == prune_entry(uri@),
            s == edges_view(v@),
            edges_view(out@) == s.take(i as int).filter(p).map_values(f),
        decreases v.len() - i,
    {
        proof {
            lemma_filter_step(s, p, i as int);
            assert(s[i as int] == (v@[i as int].0@, ids_view(v@[i as int].1@)));
        }
        let doomed = string_eq_str(&v[i].0.uri, uri) && find_node(nodes, &v[i].0).is_some();
        if !doomed {
            let kept = retain_outside(v[i].1.as_slice(), uri);
            let ghost before = out@;
            let c = (clone_id(&v[i].0), kept);
            out.push(c);
            proof {
                lemma_map_values_push(before, c, edge_view());
                lemma_map_values_push(s.take(i as int).filter(p), s[i as int], f);
            }
        }
        i = i + 1;
    }
    proof {
        assert(s.take(i as int) =~= s);
        lemma_filter_keeps_distinct(s, p);
        let fs = s.filter(p);
        assert forall|a: int, b: int| 0 <= a < b < fs.map_values(f).len() implies fs.map_values(f)[a].0
            != fs.map_values(f)[b].0 by {
            assert(fs.map_values(f)[a].0 == fs[a].0);
            assert(fs.map_values(f)[b].0 == fs[b].0);
        }
    }
    out
}

/// The identities in `ids` that are not in file `uri`, in order.
fn retain_outside(ids: &[NodeId], uri: &str) -> (r: Vec<NodeId>)
    ensures
        ids_view(r@) == ids_view(ids@).filter(outside_file(uri@)),
{
    let ghost s = ids_view(ids@);
    let ghost p = outside_file(uri@);
    let mut out: Vec<NodeId> = Vec::new();
    let mut i: usize = 0;
    while i < ids.len()
        invariant
            i <= ids@.len(),
            p == outside_file(uri@),
            s == ids_view(ids@),
            ids_view(out@) == s.take(i as int).filter(p),
        decreases ids.len() - i,
    {
        proof {
            lemma_filter_step(s, p, i as int);
            assert(s[i as int] == ids@[i as int]@);
        }
        if !string_eq_str(&ids[i].uri, uri) {
            let ghost before = out@;
            let c = clone_id(&ids[i]);
            out.push(c);
            proof {
                lemma_map_values_push(before, c, id_view());
            }
        }
        i = i + 1;
    }
    proof {
        assert(s.take(i as int) =~= s);
    }
    out
}

/// Filtering by a predicate that every element meets keeps the sequence.
proof fn lemma_filter_all<A>(s: Seq<A>, p: spec_fn(A) -> bool)
    requires
        forall|i: int| 0 <= i < s.len() ==> #[trigger] p(s[i]),
    ensures
        s.filter(p) == s,
    decreases s.len(),
{
    reveal(Seq::filter);
    if s.len() > 0 {
        lemma_filter_all(s.drop_last(), p);
        assert(s.drop_last() + seq![s.last()] =~= s);
    }
}

/// Filtering by a predicate and by its negation splits the sequence.
proof fn lemma_filter_split_len<A>(s: Seq<A>, p: spec_fn(A) -> bool, q: spec_fn(A) -> bool)
    requires
        forall|x: A| #[trigger] q(x) == !p(x),
    ensures
        s.filter(p).len() + s.filter(q).len() == s.len(),
    decreases s.len(),
{
    reveal(Seq::filter);
    if s.len() > 0 {
        lemma_filter_split_len(s.drop_last(), p, q);
        assert(q(s.last()) == !p(s.last()));
    }
}

/// Removing a file drops exactly that file's nodes: the nodes left and the
/// nodes of the file (those `nodes_in_file` lists) together are all the
/// nodes there were.
pub proof fn lemma_remove_file_count(g: CallGraph, uri: Seq<char>)
    ensures
        g.node_entries().filter(entry_outside_file(uri)).len() + g.node_entries().filter(
            entry_in_file(uri),
        ).len() == g.node_entries().len(),
{
    let p = entry_in_file::<NodeView>(uri);
    let q = entry_outside_file::<NodeView>(uri);
    assert forall|x: (IdView, NodeView)| #[trigger] q(x) == !p(x) by {}
    lemma_filter_split_len(g.node_entries(), p, q);
}

/// Removing a file that the graph does not mention changes nothing. Since
/// `remove_file(uri)` leaves no mention of `uri`, a second `remove_file(uri)`
/// right after it leaves the graph as it is.
pub proof fn lemma_remove_unmentioned_file(g: CallGraph, uri: Seq<char>)
    requires
        !g.mentions_file(uri),
    ensures
        g.node_entries().filter(entry_outside_file(uri)) == g.node_entries(),
        prune_edges(g.caller_entries(), uri, g.node_entries()) == g.caller_entries(),
        prune_edges(g.callee_entries(), uri, g.node_entries()) == g.callee_entries(),
{
    let n = g.node_entries();
    assert forall|i: int| 0 <= i < n.len() implies #[trigger] entry_outside_file::<NodeView>(uri)(n[i]) by {
        if in_file(n[i].0, uri) {
            assert(g.mentions_file(uri));
        }
    }
    lemma_filter_all(n, entry_outside_file::<NodeView>(uri));
    lemma_prune_unmentioned(g.caller_entries(), uri, n);
    lemma_prune_unmentioned(g.callee_entries(), uri, n);
}

/// Pruning edge lists that do not mention a file keeps them as they are.
proof fn lemma_prune_unmentioned(s: Seq<(IdView, Seq<IdView>)>, uri: Seq<char>, nodes: Seq<(IdView, NodeView)>)
    requires
        !edges_mention_file(s, uri),
        forall|i: int| 0 <= i < nodes.len() ==> !in_file(#[trigger] nodes[i].0, uri),
    ensures
        prune_edges(s, uri, nodes) == s,
{
    assert forall|i: int| 0 <= i < s.len() implies #[trigger] edges_kept::<Seq<IdView>>(uri, nodes)(s[i]) by {
        lemma_key_index(nodes, s[i].0);
    }
    lemma_filter_all(s, edges_kept::<Seq<IdView>>(uri, nodes));
    let m = s.map_values(prune_entry(uri));
    assert forall|i: int| 0 <= i < s.len() implies m[i] == s[i] by {
        let l = s[i].1;
        assert forall|j: int| 0 <= j < l.len() implies #[trigger] outside_file(uri)(l[j]) by {
            if in_file(l[j], uri) {
                assert(edges_mention_file(s, uri));
            }
        }
        lemma_filter_all(l, outside_file(uri));
    }
    assert(m =~= s);
}

} // verus!
