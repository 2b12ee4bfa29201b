//! The entry builder for a single edge: bound to one `(source, sink)` pair
//! inside a mutably borrowed graph, it offers insert-if-absent and
//! modify-if-present composition without a redundant lookup.

use vstd::prelude::*;

use crate::id::Id;
use super::adj::table_has_edge;
use super::adj::table_weight;
use super::vertex::Vertex;

verus! {

use vstd::pervasive::cloned;

/// A builder bound to the edge from one source vertex to `sink`. Constructed
/// by [`crate::PGraph::edge`], which checks that both endpoints are live.
pub struct Edge<'a, V, E> {
    pub source: &'a mut Vertex<V, E>,
    pub sink: Id,
}

impl<'a, V, E> Edge<'a, V, E> {
    /// The id of the source vertex this builder is bound to.
    #[must_use]
    pub fn source(&self) -> (r: Id)
        ensures
            r == (*old(self.source))@.vid,
    {
        self.source.id()
    }

    /// The id of the sink vertex this builder is bound to.
    #[must_use]
    pub fn sink(&self) -> (r: Id)
        ensures
            r == self.sink,
    {
        self.sink
    }

    /// Applies `f` to the existing weight in place if the bound edge exists;
    /// creates nothing and changes nothing when it does not, and hands the
    /// builder back either way.
    #[must_use]
    pub fn and_modify<F: FnOnce(&E) -> E>(self, f: F) -> (r: Self)
        requires
            table_has_edge((*old(self.source))@.adj, self.sink) ==> f.requires(
                (&table_weight((*old(self.source))@.adj, self.sink),),
            ),
        ensures
            r.sink == self.sink,
            *final(self.source) == *final(r.source),
            (*r.source)@.vid == (*old(self.source))@.vid,
            (*r.source)@.data == (*old(self.source))@.data,
            (if table_has_edge((*old(self.source))@.adj, self.sink) {
                &&& (*r.source)@.adj.len() == (*old(self.source))@.adj.len()
                &&& table_has_edge((*r.source)@.adj, self.sink)
                &&& f.ensures(
                    (&table_weight((*old(self.source))@.adj, self.sink),),
                    table_weight((*r.source)@.adj, self.sink),
                )
                &&& forall|p: int|
                    0 <= p < (*r.source)@.adj.len() && p != self.sink.spec_index()
                        ==> #[trigger] (*r.source)@.adj[p] == (*old(self.source))@.adj[p]
            } else {
                (*r.source)@.adj == (*old(self.source))@.adj
            }),
    {
        let Edge { source, sink } = self;
        source.modify_weight(sink, f);
        Edge { source, sink }
    }
}

impl<'a, V, E: Clone> Edge<'a, V, E> {
    /// Ensures the bound edge exists by inserting `default` when it is
    /// absent, and hands back a mutable view of the weight. An existing
    /// weight is kept, not overwritten.
    #[must_use]
    pub fn or_insert(self, default: E) -> (r: &'a mut E)
        ensures
            cloned::<E>(
                if table_has_edge((*old(self.source))@.adj, self.sink) {
                    table_weight((*old(self.source))@.adj, self.sink)
                } else {
                    default
                },
                *r,
            ),
            (*final(self.source))@.vid == (*old(self.source))@.vid,
            (*final(self.source))@.data == (*old(self.source))@.data,
            (*final(self.source))@.adj.len() == (if (*old(self.source))@.adj.len() > self.sink.spec_index() {
                (*old(self.source))@.adj.len() as int
            } else {
                self.sink.spec_index() + 1
            }),
            (*final(self.source))@.adj[self.sink.spec_index() as int] == Some(
                (self.sink, *final(r)),
            ),
            forall|p: int|
                0 <= p < (*final(self.source))@.adj.len() && p != self.sink.spec_index()
                    ==> #[trigger] (*final(self.source))@.adj[p] == (if p < (*old(self.source))@.adj.len() {
                    (*old(self.source))@.adj[p]
                } else {
                    Option::<(Id, E)>::None
                }),
    {
        let Edge { source, sink } = self;
        source.or_insert_weight(sink, default)
    }

    /// Ensures the bound edge exists by inserting the result of `f` when it
    /// is absent, and hands back a mutable view of the weight. `f` is called
    /// only when its result is needed.
    #[must_use]
    pub fn or_insert_with<F: FnOnce() -> E>(self, f: F) -> (r: &'a mut E)
        requires
            !table_has_edge((*old(self.source))@.adj, self.sink) ==> f.requires(()),
        ensures
            (if table_has_edge((*old(self.source))@.adj, self.sink) {
                cloned::<E>(table_weight((*old(self.source))@.adj, self.sink), *r)
            } else {
                exists|w: E| #[trigger] f.ensures((), w) && cloned::<E>(w, *r)
            }),
            (*final(self.source))@.vid == (*old(self.source))@.vid,
            (*final(self.source))@.data == (*old(self.source))@.data,
            (*final(self.source))@.adj.len() == (if (*old(self.source))@.adj.len() > self.sink.spec_index() {
                (*old(self.source))@.adj.len() as int
            } else {
                self.sink.spec_index() + 1
            }),
            (*final(self.source))@.adj[self.sink.spec_index() as int] matches Some(pr)
                && pr.0 == self.sink && pr.1 == *final(r),
            forall|p: int|
                0 <= p < (*final(self.source))@.adj.len() && p != self.sink.spec_index()
                    ==> #[trigger] (*final(self.source))@.adj[p] == (if p < (*old(self.source))@.adj.len() {
                    (*old(self.source))@.adj[p]
                } else {
                    Option::<(Id, E)>::None
                }),
    {
        let Edge { source, sink } = self;
        let has = source.is_connected(sink);
        if has {
            match source.weight_mut(sink) {
                Some(m) => m,
                None => vstd::pervasive::unreached(),
            }
        } else {
            let d = f();
            source.or_insert_weight(sink, d)
        }
    }
}

impl<'a, V, E: Clone + Default> Edge<'a, V, E> {
    /// Ensures the bound edge exists by inserting the weight type's default
    /// value when it is absent, and hands back a mutable view of the weight.
    #[must_use]
    pub fn or_default(self) -> (r: &'a mut E)
        ensures
            (if table_has_edge((*old(self.source))@.adj, self.sink) {
                cloned::<E>(table_weight((*old(self.source))@.adj, self.sink), *r)
            } else {
                exists|w: E| #[trigger] E::default.ensures((), w) && cloned::<E>(w, *r)
            }),
            (*final(self.source))@.vid == (*old(self.source))@.vid,
            (*final(self.source))@.data == (*old(self.source))@.data,
            (*final(self.source))@.adj.len() == (if (*old(self.source))@.adj.len() > self.sink.spec_index() {
                (*old(self.source))@.adj.len() as int
            } else {
                self.sink.spec_index() + 1
            }),
            (*final(self.source))@.adj[self.sink.spec_index() as int] matches Some(pr)
                && pr.0 == self.sink && pr.1 == *final(r),
            forall|p: int|
                0 <= p < (*final(self.source))@.adj.len() && p != self.sink.spec_index()
                    ==> #[trigger] (*final(self.source))@.adj[p] == (if p < (*old(self.source))@.adj.len() {
                    (*old(self.source))@.adj[p]
                } else {
                    Option::<(Id, E)>::None
                }),
    {
        let Edge { source, sink } = self;
        let has = source.is_connected(sink);
        if has {
            match source.weight_mut(sink) {
                Some(m) => m,
                None => vstd::pervasive::unreached(),
            }
        } else {
            let d = E::default();
            source.or_insert_weight(sink, d)
        }
    }
}

} // verus!
