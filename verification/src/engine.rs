//! Lazy, memoized call graph expansion.
//!
//! There is deliberately no "index the repository" entry point: expanding
//! from the cursor is imperceptible, while a full crawl costs minutes.
//!
//! The engine decides; its caller talks to the language server. `seed` takes
//! what `prepareCallHierarchy` answered, and an expansion is planned by
//! [`Engine::expand_plan`] (answered from the graph, or the item to ask the
//! server about) and completed by [`Engine::expand_finish`] with what the
//! server answered.

use crate::error::{Error, Result};
use crate::graph::{
    clone_id, clone_ids, distinct_keys, entry_outside_file, ids_view, insert_entry, key_index,
    lemma_insert_entry_distinct, lemma_key_index, lemma_map_values_push, lookup,
    opt_view, prune_edges, same_id, upserted, with_state, CallGraph, CallItem, Expansion, IdView,
    Node, NodeId, NodeState, NodeView, UnresolvedReason,
};
use crate::symbols::{CallableView, NamedCallable};
use crate::text::{push_str, string_eq_str};
use vstd::prelude::*;

verus! {

broadcast use vstd::seq_lib::group_seq_properties;

pub struct Engine<T> {
    graph: CallGraph,
    items: Vec<(NodeId, CallItem<T>)>,
    expansions: usize,
}

/// What an expansion needs: nothing more (the answer is known), or the
/// server's answer about this item.
pub enum ExpandPlan<'a, T> {
    Known(Expansion),
    Fetch(&'a T),
}

/// The node a call-hierarchy item becomes, not yet expanded.
pub open spec fn item_node<T>(item: CallItem<T>) -> NodeView {
    (
        (item.uri@, item.selection_line, item.selection_character, item.name@),
        item.kind_name@,
        opt_view(item.detail),
        NodeState::Unexpanded,
    )
}

pub open spec fn item_id<T>() -> spec_fn(CallItem<T>) -> IdView {
    |i: CallItem<T>| item_node(i).0
}

/// The identities of a list of items, in order.
pub open spec fn item_ids<T>(items: Seq<CallItem<T>>) -> Seq<IdView> {
    items.map_values(item_id())
}

/// Node entries after upserting each item's node in turn.
pub open spec fn upserted_all<T>(s: Seq<(IdView, NodeView)>, items: Seq<CallItem<T>>) -> Seq<(IdView, NodeView)>
    decreases items.len(),
{
    if items.len() == 0 {
        s
    } else {
        upserted(upserted_all(s, items.drop_last()), item_node(items.last()))
    }
}

/// Item entries after binding each item under its identity in turn.
pub open spec fn items_bound<T>(s: Seq<(IdView, CallItem<T>)>, items: Seq<CallItem<T>>) -> Seq<(IdView, CallItem<T>)>
    decreases items.len(),
{
    if items.len() == 0 {
        s
    } else {
        let i = items.last();
        insert_entry(items_bound(s, items.drop_last()), item_node(i).0, i)
    }
}

/// The node recorded for a candidate that did not resolve.
pub open spec fn unresolved_node(c: CallableView, reason: UnresolvedReason) -> NodeView {
    ((c.1, c.2.line, c.2.character, c.0), "Unknown"@, None, NodeState::Unresolved(reason))
}

/// The edge list stored for `id`, or none.
pub open spec fn edges_or_empty(s: Seq<(IdView, Seq<IdView>)>, id: IdView) -> Seq<IdView> {
    match lookup(s, id) {
        Some(v) => v,
        None => Seq::empty(),
    }
}

/// The expansion the graph already holds for `id`: present once the node is
/// marked expanded.
pub open spec fn recorded_expansion(
    nodes: Seq<(IdView, NodeView)>,
    callers: Seq<(IdView, Seq<IdView>)>,
    callees: Seq<(IdView, Seq<IdView>)>,
    id: IdView,
) -> Option<(Seq<IdView>, Seq<IdView>)> {
    match lookup(nodes, id) {
        Some(n) => if n.3 == NodeState::Expanded {
            Some((edges_or_empty(callers, id), edges_or_empty(callees, id)))
        } else {
            None
        },
        None => None,
    }
}

pub open spec fn item_entry<T>() -> spec_fn((NodeId, CallItem<T>)) -> (IdView, CallItem<T>) {
    |e: (NodeId, CallItem<T>)| (e.0@, e.1)
}

impl<T> Engine<T> {
    pub closed spec fn spec_graph(&self) -> CallGraph {
        self.graph
    }

    /// The items the server handed out, by the identity of their node.
    pub closed spec fn item_entries(&self) -> Seq<(IdView, CallItem<T>)> {
        self.items@.map_values(item_entry())
    }

    pub closed spec fn spec_expansions(&self) -> nat {
        self.expansions as nat
    }

    pub open spec fn wf(&self) -> bool {
        self.spec_graph().wf() && distinct_keys(self.item_entries())
    }

    pub fn new() -> (e: Engine<T>)
        ensures
            e.wf(),
            e.spec_graph().node_entries() == Seq::<(IdView, NodeView)>::empty(),
            e.spec_graph().caller_entries() == Seq::<(IdView, Seq<IdView>)>::empty(),
            e.spec_graph().callee_entries() == Seq::<(IdView, Seq<IdView>)>::empty(),
            e.item_entries() == Seq::<(IdView, CallItem<T>)>::empty(),
            e.spec_expansions() == 0,
    {
        let e = Engine { graph: CallGraph::new(), items: Vec::new(), expansions: 0 };
        proof {
            assert(e.item_entries() =~= Seq::<(IdView, CallItem<T>)>::empty());
        }
        e
    }

    pub fn graph(&self) -> (r: &CallGraph)
        ensures
            *r == self.spec_graph(),
    {
        &self.graph
    }

    /// How many expansions went to the server.
    pub fn expansions_performed(&self) -> (r: usize)
        ensures
            r == self.spec_expansions(),
    {
        self.expansions
    }

    /// Forget everything learnt about file `uri`: its nodes, their edges,
    /// the references to them, and their items.
    pub fn invalidate_file(&mut self, uri: &str)
        requires
            old(self).wf(),
        ensures
            final(self).wf(),
            final(self).spec_graph().node_entries() == old(self).spec_graph().node_entries().filter(
                entry_outside_file(uri@),
            ),
            final(self).spec_graph().caller_entries() == prune_edges(
                old(self).spec_graph().caller_entries(),
                uri@,
                old(self).spec_graph().node_entries(),
            ),
            final(self).spec_graph().callee_entries() == prune_edges(
                old(self).spec_graph().callee_entries(),
                uri@,
                old(self).spec_graph().node_entries(),
            ),
            final(self).item_entries() == old(self).item_entries().filter(entry_outside_file(uri@)),
            final(self).spec_expansions() == old(self).spec_expansions(),
    {
        self.graph.remove_file(uri);
        let ghost s = self.item_entries();
        let ghost p = entry_outside_file::<CallItem<T>>(uri@);
        let mut kept: Vec<(NodeId, CallItem<T>)> = Vec::new();
        let mut rest: Vec<(NodeId, CallItem<T>)> = Vec::new();
        core::mem::swap(&mut rest, &mut self.items);
        let ghost all = rest@;
        let mut i: usize = 0;
        let total = rest.len();
        while rest.len() > 0
            invariant
                all.len() == total,
                p == entry_outside_file::<CallItem<T>>(uri@),
                s == all.map_values(item_entry()),
                i + rest@.len() == all.len(),
                rest@ == all.skip(i as int),
                kept@.map_values(item_entry()) == s.take(i as int).filter(p),
            decreases rest.len(),
        {
            let e = rest.remove(0);
            proof {
                crate::graph::lemma_filter_step(s, p, i as int);
                assert(all[i as int] == e);
                assert(rest@ =~= all.skip(i + 1));
            }
            if !string_eq_str(&e.0.uri, uri) {
                let ghost before = kept@;
                kept.push(e);
                proof {
                    lemma_map_values_push(before, e, item_entry());
                }
            }
            i = i + 1;
        }
        proof {
            assert(s.take(i as int) =~= s);
            crate::graph::lemma_filter_keeps_distinct(s, p);
        }
        self.items = kept;
    }

    /// Where the item of `id` is kept, if it is.
    fn find_item(&self, id: &NodeId) -> (r: Option<usize>)
        ensures
            match (r, key_index(self.item_entries(), id@)) {
                (Some(i), Some(j)) => i == j,
                (None, None) => true,
                _ => false,
            },
    {
        let ghost s = self.item_entries();
        let mut i: usize = 0;
        while i < self.items.len()
            invariant
                i <= self.items@.len(),
                s == self.items@.map_values(item_entry()),
                s == self.item_entries(),
                key_index(s, id@) == crate::graph::key_index_from(s, id@, i as nat),
            decreases self.items.len() - i,
        {
            if same_id(&self.items[i].0, id) {
                return Some(i);
            }
            i = i + 1;
        }
        None
    }

    /// Bind `item` under its identity, replacing an item already there.
    fn bind_item(&mut self, id: NodeId, item: CallItem<T>)
        requires
            distinct_keys(old(self).item_entries()),
        ensures
            distinct_keys(final(self).item_entries()),
            final(self).item_entries() == insert_entry(old(self).item_entries(), id@, item),
            final(self).spec_graph() == old(self).spec_graph(),
            final(self).spec_expansions() == old(self).spec_expansions(),
    {
        let ghost s = self.item_entries();
        proof {
            lemma_key_index(s, id@);
            lemma_insert_entry_distinct(s, id@, item);
        }
        match self.find_item(&id) {
            Some(i) => {
                let ghost idv = id@;
                self.items.set(i, (id, item));
                proof {
                    assert(self.items@.map_values(item_entry()) =~= s.update(i as int, (idv, item)));
                }
            },
            None => {
                let ghost v = self.items@;
                let ghost pair = (id, item);
                self.items.push((id, item));
                proof {
                    lemma_map_values_push(v, pair, item_entry());
                }
            },
        }
    }

    /// Record a call-hierarchy item: its node (keeping a known node's state)
    /// and the item itself.
    fn intern(&mut self, item: CallItem<T>) -> (r: NodeId)
        requires
            old(self).wf(),
        ensures
            final(self).wf(),
            r@ == item_node(item).0,
            final(self).spec_graph().node_entries() == upserted(old(self).spec_graph().node_entries(), item_node(item)),
            final(self).spec_graph().caller_entries() == old(self).spec_graph().caller_entries(),
            final(self).spec_graph().callee_entries() == old(self).spec_graph().callee_entries(),
            final(self).item_entries() == insert_entry(old(self).item_entries(), item_node(item).0, item),
            final(self).spec_expansions() == old(self).spec_expansions(),
    {
        let id = NodeId::from_item(&item);
        let node = Node {
            id: clone_id(&id),
            kind_name: item.kind_name.clone(),
            detail: crate::graph::clone_opt_string(&item.detail),
            state: NodeState::Unexpanded,
        };
        self.graph.upsert(node);
        let key = clone_id(&id);
        self.bind_item(key, item);
        id
    }

    fn record_unresolved(&mut self, cand: &NamedCallable, reason: UnresolvedReason)
        requires
            old(self).wf(),
        ensures
            final(self).wf(),
            final(self).spec_graph().node_entries() == upserted(
                old(self).spec_graph().node_entries(),
                unresolved_node(cand@, reason),
            ),
            final(self).spec_graph().caller_entries() == old(self).spec_graph().caller_entries(),
            final(self).spec_graph().callee_entries() == old(self).spec_graph().callee_entries(),
            final(self).item_entries() == old(self).item_entries(),
            final(self).spec_expansions() == old(self).spec_expansions(),
    {
        let mut kind = String::new();
        push_str(&mut kind, "Unknown");
        let node = Node {
            id: NodeId {
                uri: cand.uri.clone(),
                line: cand.position.line,
                character: cand.position.character,
                name: cand.name.clone(),
            },
            kind_name: kind,
            detail: None,
            state: NodeState::Unresolved(reason),
        };
        self.graph.upsert(node);
    }

    /// Resolve a candidate into a graph node, given what
    /// `prepareCallHierarchy` answered for it: `None` when
    /// [`crate::uri::uri_to_file_path`] finds no file path in its uri, so
    /// nothing could be asked.
    ///
    /// `Ok(None)` means the symbol could not be resolved; an `Unresolved` node
    /// is still recorded for it, because silently dropping ~30% of a
    /// TypeScript codebase would make the tool lie. A server that kept
    /// answering `ContentModified` leaves a node that may resolve on a later
    /// attempt; any other error is passed on.
    pub fn seed(&mut self, cand: &NamedCallable, prepared: Option<Result<Vec<CallItem<T>>>>) -> (r: Result<Option<NodeId>>)
        requires
            old(self).wf(),
        ensures
            final(self).wf(),
            final(self).spec_graph().caller_entries() == old(self).spec_graph().caller_entries(),
            final(self).spec_graph().callee_entries() == old(self).spec_graph().callee_entries(),
            final(self).spec_expansions() == old(self).spec_expansions(),
            match prepared {
                None => r == Ok::<Option<NodeId>, Error>(None) && final(self).spec_graph().node_entries()
                    == old(self).spec_graph().node_entries() && final(self).item_entries() == old(self).item_entries(),
                Some(Err(e)) => if e is ContentModified {
                    r == Ok::<Option<NodeId>, Error>(None) && final(self).spec_graph().node_entries() == upserted(
                        old(self).spec_graph().node_entries(),
                        unresolved_node(cand@, UnresolvedReason::TransientContentModified),
                    ) && final(self).item_entries() == old(self).item_entries()
                } else {
                    r == Err::<Option<NodeId>, Error>(e) && final(self).spec_graph().node_entries()
                        == old(self).spec_graph().node_entries() && final(self).item_entries()
                        == old(self).item_entries()
                },
                Some(Ok(items)) => if items@.len() == 0 {
                    r == Ok::<Option<NodeId>, Error>(None) && final(self).spec_graph().node_entries() == upserted(
                        old(self).spec_graph().node_entries(),
                        unresolved_node(cand@, UnresolvedReason::NoCallHierarchyItem),
                    ) && final(self).item_entries() == old(self).item_entries()
                } else {
                    (r matches Ok(Some(id)) && id@ == item_node(items@[0]).0) && final(self).spec_graph().node_entries()
                        == upserted(old(self).spec_graph().node_entries(), item_node(items@[0]))
                        && final(self).item_entries() == insert_entry(
                        old(self).item_entries(),
                        item_node(items@[0]).0,
                        items@[0],
                    )
                },
            },
    {
        match prepared {
            None => Ok(None),
            Some(Err(e)) => match e {
                Error::ContentModified { .. } => {
                    // The server kept saying ContentModified: record it, do
                    // not drop it.
                    self.record_unresolved(cand, UnresolvedReason::TransientContentModified);
                    Ok(None)
                },
                _ => Err(e),
            },
            Some(Ok(items)) => {
                let mut items = items;
                if items.len() == 0 {
                    self.record_unresolved(cand, UnresolvedReason::NoCallHierarchyItem);
                    Ok(None)
                } else {
                    let first = items.remove(0);
                    Ok(Some(self.intern(first)))
                }
            },
        }
    }

    /// Intern items one after another; their identities, in order.
    fn intern_all(&mut self, items: Vec<CallItem<T>>) -> (r: Vec<NodeId>)
        requires
            old(self).wf(),
        ensures
            final(self).wf(),
            ids_view(r@) == item_ids(items@),
            final(self).spec_graph().node_entries() == upserted_all(old(self).spec_graph().node_entries(), items@),
            final(self).spec_graph().caller_entries() == old(self).spec_graph().caller_entries(),
            final(self).spec_graph().callee_entries() == old(self).spec_graph().callee_entries(),
            final(self).item_entries() == items_bound(old(self).item_entries(), items@),
            final(self).spec_expansions() == old(self).spec_expansions(),
    {
        let ghost all = items@;
        let mut rest = items;
        let mut ids: Vec<NodeId> = Vec::new();
        let mut i: usize = 0;
        let total = rest.len();
        proof {
            assert(all.take(0) =~= Seq::<CallItem<T>>::empty());
            assert(ids_view(ids@) =~= item_ids(all.take(0)));
        }
        while rest.len() > 0
            invariant
                all.len() == total,
                self.wf(),
                i + rest@.len() == all.len(),
                rest@ == all.skip(i as int),
                ids_view(ids@) == item_ids(all.take(i as int)),
                self.spec_graph().node_entries() == upserted_all(
                    old(self).spec_graph().node_entries(),
                    all.take(i as int),
                ),
                self.spec_graph().caller_entries() == old(self).spec_graph().caller_entries(),
                self.spec_graph().callee_entries() == old(self).spec_graph().callee_entries(),
                self.item_entries() == items_bound(old(self).item_entries(), all.take(i as int)),
                self.spec_expansions() == old(self).spec_expansions(),
            decreases rest.len(),
        {
            let item = rest.remove(0);
            proof {
                assert(all[i as int] == item);
                assert(rest@ =~= all.skip(i + 1));
                assert(all.take(i + 1).drop_last() =~= all.take(i as int));
                assert(all.take(i + 1).last() == item);
                assert(item_ids(all.take(i + 1)) =~= item_ids(all.take(i as int)).push(item_node(item).0));
            }
            let id = self.intern(item);
            let ghost before = ids@;
            ids.push(id);
            proof {
                lemma_map_values_push(before, id, crate::graph::id_view());
            }
            i = i + 1;
        }
        proof {
            assert(all.take(i as int) =~= all);
        }
        ids
    }

    /// How an expansion of `id` proceeds. Memoized: an already-expanded
    /// node is answered from the graph and never reaches the server again. A
    /// node without an item (the server never handed one out) expands to
    /// nothing.
    pub fn expand_plan(&self, id: &NodeId) -> (r: ExpandPlan<'_, T>)
        requires
            self.wf(),
        ensures
            match recorded_expansion(
                self.spec_graph().node_entries(),
                self.spec_graph().caller_entries(),
                self.spec_graph().callee_entries(),
                id@,
            ) {
                Some(known) => r matches ExpandPlan::Known(e) && e@ == known,
                None => match lookup(self.item_entries(), id@) {
                    None => r matches ExpandPlan::Known(e) && e@ == (Seq::<IdView>::empty(), Seq::<IdView>::empty()),
                    Some(item) => r matches ExpandPlan::Fetch(p) && *p == item.payload,
                },
            },
    {
        let expanded = match self.graph.get(id) {
            Some(n) => n.state == NodeState::Expanded,
            None => false,
        };
        if expanded {
            let callers = match self.graph.callers_of(id) {
                Some(c) => clone_ids(c),
                None => Vec::new(),
            };
            let callees = match self.graph.callees_of(id) {
                Some(c) => clone_ids(c),
                None => Vec::new(),
            };
            let e = Expansion { callers, callees };
            proof {
                assert(ids_view(Seq::<NodeId>::empty()) =~= Seq::<IdView>::empty());
            }
            return ExpandPlan::Known(e);
        }
        proof {
            lemma_key_index(self.item_entries(), id@);
        }
        match self.find_item(id) {
            Some(i) => {
                return ExpandPlan::Fetch(&self.items[i].1.payload);
            },
            None => {},
        }
        let e = Expansion { callers: Vec::new(), callees: Vec::new() };
        proof {
            assert(ids_view(e.callers@) =~= Seq::<IdView>::empty());
        }
        ExpandPlan::Known(e)
    }

    /// Complete an expansion of `id` with what the server answered: the
    /// items calling it and the items it calls. Each is interned, the edges
    /// are recorded and the node is marked expanded. A server error is
    /// passed on and changes nothing.
    pub fn expand_finish(
        &mut self,
        id: &NodeId,
        fetched: Result<(Vec<CallItem<T>>, Vec<CallItem<T>>)>,
    ) -> (r: Result<Expansion>)
        requires
            old(self).wf(),
            old(self).spec_expansions() < usize::MAX,
        ensures
            final(self).wf(),
            match fetched {
                Err(e) => r == Err::<Expansion, Error>(e) && *final(self) == *old(self),
                Ok((incoming, outgoing)) => (r matches Ok(exp) && exp@ == (item_ids(incoming@), item_ids(outgoing@)))
                    && final(self).spec_expansions() == old(self).spec_expansions() + 1
                    && final(self).spec_graph().node_entries() == with_state(
                    upserted_all(upserted_all(old(self).spec_graph().node_entries(), incoming@), outgoing@),
                    id@,
                    NodeState::Expanded,
                ) && final(self).spec_graph().caller_entries() == insert_entry(
                    old(self).spec_graph().caller_entries(),
                    id@,
                    item_ids(incoming@),
                ) && final(self).spec_graph().callee_entries() == insert_entry(
                    old(self).spec_graph().callee_entries(),
                    id@,
                    item_ids(outgoing@),
                ) && final(self).item_entries() == items_bound(
                    items_bound(old(self).item_entries(), incoming@),
                    outgoing@,
                ),
            },
    {
        match fetched {
            Err(e) => Err(e),
            Ok((incoming, outgoing)) => {
                self.expansions = self.expansions + 1;
                let callers = self.intern_all(incoming);
                let callees = self.intern_all(outgoing);
                let exp = Expansion { callers, callees };
                self.graph.record_expansion(id, &exp);
                Ok(exp)
            },
        }
    }
}

/// Upserting never loses a node, and keeps keys distinct.
pub proof fn lemma_upserted_all_keeps<T>(s: Seq<(IdView, NodeView)>, items: Seq<CallItem<T>>, id: IdView)
    requires
        distinct_keys(s),
    ensures
        distinct_keys(upserted_all(s, items)),
        lookup(s, id) is Some ==> lookup(upserted_all(s, items), id) is Some,
    decreases items.len(),
{
    if items.len() > 0 {
        lemma_upserted_all_keeps(s, items.drop_last(), id);
        let t = upserted_all(s, items.drop_last());
        let n = item_node(items.last());
        lemma_insert_entry_distinct(
            t,
            n.0,
            match lookup(t, n.0) {
                Some(e) => (n.0, n.1, n.2, e.3),
                None => n,
            },
        );
    }
}

/// Once a known node has been expanded, expanding it again is answered from
/// the graph, with exactly the callers and callees the server reported.
pub proof fn lemma_expansion_memoized<T>(
    nodes: Seq<(IdView, NodeView)>,
    callers: Seq<(IdView, Seq<IdView>)>,
    callees: Seq<(IdView, Seq<IdView>)>,
    id: IdView,
    incoming: Seq<CallItem<T>>,
    outgoing: Seq<CallItem<T>>,
)
    requires
        distinct_keys(nodes),
        distinct_keys(callers),
        distinct_keys(callees),
        lookup(nodes, id) is Some,
    ensures
        recorded_expansion(
            with_state(upserted_all(upserted_all(nodes, incoming), outgoing), id, NodeState::Expanded),
            insert_entry(callers, id, item_ids(incoming)),
            insert_entry(callees, id, item_ids(outgoing)),
            id,
        ) == Some((item_ids(incoming), item_ids(outgoing))),
{
    lemma_upserted_all_keeps(nodes, incoming, id);
    let a = upserted_all(nodes, incoming);
    lemma_upserted_all_keeps(a, outgoing, id);
    let b = upserted_all(a, outgoing);
    let e = lookup(b, id)->0;
    lemma_insert_entry_distinct(b, id, (e.0, e.1, e.2, NodeState::Expanded));
    lemma_insert_entry_distinct(callers, id, item_ids(incoming));
    lemma_insert_entry_distinct(callees, id, item_ids(outgoing));
}

} // verus!
