//! A single graph vertex: its id, its copy-on-write shared payload, and its
//! adjacency table.

use vstd::prelude::*;
use std::sync::Arc;

use crate::id::Id;
use crate::sharing::arc_clone;
use crate::sharing::arc_make_mut;
use super::adj::AdjList;
use super::adj::table_has_edge;
use super::adj::table_weight;
use super::adj::table_entry_seq;

verus! {

use vstd::pervasive::cloned;

/// Holds the data for a single graph vertex: the vertex id, the vertex's
/// payload, and the vertex's neighbors.
pub struct Vertex<V, E> {
    id: Id,
    data: Arc<V>,
    adj: AdjList<E>,
}

/// The mathematical content of a vertex: its id, its payload value, and its
/// sparse adjacency table (position `p` describes the edge to the vertex in
/// slot `p`, if any).
#[verifier::ext_equal]
pub struct VertexView<V, E> {
    pub vid: Id,
    pub data: V,
    pub adj: Seq<Option<(Id, E)>>,
}

impl<V, E> View for Vertex<V, E> {
    type V = VertexView<V, E>;

    closed spec fn view(&self) -> VertexView<V, E> {
        VertexView { vid: self.id, data: *self.data, adj: self.adj@ }
    }
}

impl<V, E> Vertex<V, E> {
    /// A reference to the data on this vertex.
    #[must_use]
    pub fn data(&self) -> (r: &V)
        ensures
            *r == self@.data,
    {
        &self.data
    }

    /// This vertex's id.
    #[must_use]
    pub fn id(&self) -> (r: Id)
        ensures
            r == self@.vid,
    {
        self.id
    }

    /// The weight of the edge from this vertex to `sink`, or `None` if no such
    /// edge exists.
    #[must_use]
    pub fn weight(&self, sink: Id) -> (r: Option<&E>)
        ensures
            (match r {
                Some(w) => table_has_edge(self@.adj, sink) && *w == table_weight(self@.adj, sink),
                None => !table_has_edge(self@.adj, sink),
            }),
    {
        self.adj.weight(sink)
    }

    /// The weight of the edge from this vertex to `sink`, which the caller
    /// must already know to exist.
    #[must_use]
    pub fn index_weight(&self, sink: Id) -> (r: &E)
        requires
            table_has_edge(self@.adj, sink),
        ensures
            *r == table_weight(self@.adj, sink),
    {
        match self.adj.weight(sink) {
            Some(w) => w,
            None => vstd::pervasive::unreached(),
        }
    }

    /// Returns true iff there exists an edge from this vertex to `sink`.
    #[must_use]
    pub fn is_connected(&self, sink: Id) -> (r: bool)
        ensures
            r == table_has_edge(self@.adj, sink),
    {
        self.adj.has_edge(sink)
    }

    /// The number of outgoing edges this vertex has.
    #[must_use]
    pub fn len_neighbors(&self) -> (r: usize)
        ensures
            r == table_entry_seq(self@.adj).len(),
    {
        self.adj.len()
    }

    /// This vertex's outgoing edges in sink-slot order, each as the sink id
    /// and a reference to the weight.
    #[must_use]
    pub fn edges(&self) -> (r: Vec<(Id, &E)>)
        ensures
            r@.len() == table_entry_seq(self@.adj).len(),
            forall|k: int|
                0 <= k < r@.len() ==> #[trigger] r@[k].0 == table_entry_seq(self@.adj)[k].0
                    && *r@[k].1 == table_entry_seq(self@.adj)[k].1,
    {
        self.adj.entries()
    }

    /// Creates a vertex from an id and its data, with no neighbors yet.
    #[must_use]
    pub(crate) fn from(id: Id, data: V) -> (r: Self)
        ensures
            r@.vid == id,
            r@.data == data,
            r@.adj.len() == 0,
    {
        Vertex { id, data: Arc::new(data), adj: AdjList::new() }
    }

    /// Checks whether the given id equals this vertex's id, generation
    /// included.
    #[must_use]
    pub(crate) fn same_id(&self, id: Id) -> (r: bool)
        ensures
            r == (id == self@.vid),
    {
        id == self.id
    }

    /// Creates an edge to `sink` with the given weight, replacing any edge at
    /// that slot. The vertex cannot check that `sink` is live; the graph does.
    pub(crate) fn connect_to(&mut self, sink: Id, weight: E)
        ensures
            final(self)@.vid == old(self)@.vid,
            final(self)@.data == old(self)@.data,
            final(self)@.adj.len() == (if old(self)@.adj.len() > sink.spec_index() {
                old(self)@.adj.len() as int
            } else {
                sink.spec_index() + 1
            }),
            final(self)@.adj[sink.spec_index() as int] == Some((sink, weight)),
            forall|p: int|
                0 <= p < final(self)@.adj.len() && p != sink.spec_index()
                    ==> #[trigger] final(self)@.adj[p] == (if p < old(self)@.adj.len() {
                    old(self)@.adj[p]
                } else {
                    Option::<(Id, E)>::None
                }),
    {
        self.adj.add_edge(sink, weight);
    }

    /// The ids of this vertex's neighbors, in sink-slot order.
    #[must_use]
    pub(crate) fn neighbor_ids(&self) -> (r: Vec<Id>)
        ensures
            r@.len() == table_entry_seq(self@.adj).len(),
            forall|k: int|
                0 <= k < r@.len() ==> #[trigger] r@[k] == table_entry_seq(self@.adj)[k].0,
    {
        let entries = self.adj.entries();
        let mut out: Vec<Id> = Vec::new();
        let mut i: usize = 0;
        while i < entries.len()
            invariant
                i <= entries@.len(),
                out@.len() == i,
                entries@.len() == table_entry_seq(self@.adj).len(),
                forall|k: int|
                    0 <= k < entries@.len() ==> #[trigger] entries@[k].0 == table_entry_seq(
                        self@.adj,
                    )[k].0,
                forall|k: int| 0 <= k < i ==> #[trigger] out@[k] == table_entry_seq(self@.adj)[k].0,
            decreases entries@.len() - i,
        {
            out.push(entries[i].0);
            i += 1;
        }
        out
    }

    /// Applies `f` to the weight of the edge to `sink` in place if one exists;
    /// does nothing when it does not.
    pub(crate) fn modify_weight<F: FnOnce(&E) -> E>(&mut self, sink: Id, f: F)
        requires
            table_has_edge(old(self)@.adj, sink) ==> f.requires(
                (&table_weight(old(self)@.adj, sink),),
            ),
        ensures
            final(self)@.vid == old(self)@.vid,
            final(self)@.data == old(self)@.data,
            (if table_has_edge(old(self)@.adj, sink) {
                &&& final(self)@.adj.len() == old(self)@.adj.len()
                &&& table_has_edge(final(self)@.adj, sink)
                &&& f.ensures(
                    (&table_weight(old(self)@.adj, sink),),
                    table_weight(final(self)@.adj, sink),
                )
                &&& forall|p: int|
                    0 <= p < final(self)@.adj.len() && p != sink.spec_index()
                        ==> #[trigger] final(self)@.adj[p] == old(self)@.adj[p]
            } else {
                final(self)@.adj == old(self)@.adj
            }),
    {
        self.adj.modify_edge(sink, f);
    }

    /// Removes the edge from this vertex to `sink`. Returns true iff the edge
    /// existed to be removed.
    pub fn disconnect(&mut self, sink: Id) -> (r: bool)
        ensures
            r == table_has_edge(old(self)@.adj, sink),
            final(self)@.vid == old(self)@.vid,
            final(self)@.data == old(self)@.data,
            final(self)@.adj.len() == old(self)@.adj.len(),
            (forall|p: int|
                0 <= p < final(self)@.adj.len() && p != sink.spec_index()
                    ==> #[trigger] final(self)@.adj[p] == old(self)@.adj[p]),
            (if table_has_edge(old(self)@.adj, sink) {
                final(self)@.adj[sink.spec_index() as int] is None
            } else {
                final(self)@.adj == old(self)@.adj
            }),
    {
        self.adj.disconnect_edge(sink)
    }
}

impl<V: Clone, E> Vertex<V, E> {
    /// A mutable view of the data on this vertex. The shared payload is copied
    /// first when other graph versions still hold it.
    #[must_use]
    pub fn data_mut(&mut self) -> (r: &mut V)
        ensures
            cloned::<V>(old(self)@.data, *r),
            final(self)@.vid == old(self)@.vid,
            final(self)@.adj == old(self)@.adj,
            final(self)@.data == *final(r),
    {
        arc_make_mut(&mut self.data)
    }
}

impl<V, E: Clone> Vertex<V, E> {
    /// A mutable view of the weight of the edge from this vertex to `sink`, or
    /// `None` if no such edge exists.
    #[must_use]
    pub fn weight_mut(&mut self, sink: Id) -> (r: Option<&mut E>)
        ensures
            final(self)@.vid == old(self)@.vid,
            final(self)@.data == old(self)@.data,
            (match r {
                Some(m) => {
                    &&& table_has_edge(old(self)@.adj, sink)
                    &&& cloned::<E>(table_weight(old(self)@.adj, sink), *m)
                    &&& final(self)@.adj.len() == old(self)@.adj.len()
                    &&& final(self)@.adj[sink.spec_index() as int] == Some((sink, *final(m)))
                    &&& forall|p: int|
                        0 <= p < final(self)@.adj.len() && p != sink.spec_index()
                            ==> #[trigger] final(self)@.adj[p] == old(self)@.adj[p]
                },
                None => !table_has_edge(old(self)@.adj, sink) && final(self)@.adj == old(
                    self,
                )@.adj,
            }),
    {
        self.adj.weight_mut(sink)
    }

    /// A mutable view of the weight of the edge to `sink`, creating the edge
    /// with the given weight first when no such edge exists.
    pub(crate) fn or_insert_weight(&mut self, sink: Id, default: E) -> (r: &mut E)
        ensures
            final(self)@.vid == old(self)@.vid,
            final(self)@.data == old(self)@.data,
            cloned::<E>(
                if table_has_edge(old(self)@.adj, sink) {
                    table_weight(old(self)@.adj, sink)
                } else {
                    default
                },
                *r,
            ),
            final(self)@.adj.len() == (if old(self)@.adj.len() > sink.spec_index() {
                old(self)@.adj.len() as int
            } else {
                sink.spec_index() + 1
            }),
            final(self)@.adj[sink.spec_index() as int] == Some((sink, *final(r))),
            forall|p: int|
                0 <= p < final(self)@.adj.len() && p != sink.spec_index()
                    ==> #[trigger] final(self)@.adj[p] == (if p < old(self)@.adj.len() {
                    old(self)@.adj[p]
                } else {
                    Option::<(Id, E)>::None
                }),
    {
        self.adj.or_insert_edge(sink, default)
    }

}

impl<V, E> Clone for Vertex<V, E> {
    /// The clone carries the same id, shares the same payload, and holds the
    /// same edges.
    fn clone(&self) -> (res: Self)
        ensures
            res@ == self@,
    {
        Vertex { id: self.id, data: arc_clone(&self.data), adj: self.adj.clone() }
    }
}

} // verus!
