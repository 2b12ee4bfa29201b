//! The graph container and its query, mutation and entry-builder surface.
//!
//! A [`PGraph`] is a sequence of optional vertices ("slots"), a set of the
//! currently empty slots, and a generation source. Cloning shares the vertex
//! payloads and the free-slot set; the in-place (`*_mut`) and value-returning
//! mutation families sit side by side, and the checked (`try_*`) family never
//! panics. Everything observable is stated over [`GraphView`].

mod adj;
mod edge;
mod vertex;

use vstd::prelude::*;

use crate::freeset::ordset_clone;
use crate::freeset::ordset_elems;
use crate::freeset::ordset_get_min;
use crate::freeset::ordset_insert;
use crate::freeset::ordset_len;
use crate::freeset::ordset_new;
use crate::freeset::ordset_remove;
use crate::id::Id;
use crate::id::IdGen;

pub use self::adj::lemma_table_entries_upto_props;
pub use self::adj::lemma_table_entry_seq_props;
pub use self::adj::table_entries_upto;
pub use self::adj::table_entry_seq;
pub use self::adj::table_has_edge;
pub use self::adj::table_weight;
pub use self::adj::table_wf;
pub use self::edge::Edge;
pub use self::vertex::Vertex;
pub use self::vertex::VertexView;

verus! {

use vstd::pervasive::cloned;

/// Represents a persistent graph with data on each vertex (of type `V`) and
/// directed, weighted edges (weights of type `E`), addressed by [`Id`]s.
///
/// The `*_mut` methods mutate in place; their unsuffixed counterparts clone
/// the graph (cheaply, the structure is shared) and return the modified
/// version; the `try_*` family returns `None`/`false` instead of panicking.
pub struct PGraph<V, E> {
    guts: Vec<Option<Vertex<V, E>>>,
    empties: im::OrdSet<usize>,
    idgen: IdGen,
}

/// The mathematical content of a graph: its slot sequence, the set of empty
/// slot indices, and the current generation.
#[verifier::ext_equal]
pub struct GraphView<V, E> {
    pub slots: Seq<Option<VertexView<V, E>>>,
    pub holes: Set<usize>,
    pub generation: usize,
}

impl<V, E> GraphView<V, E> {
    /// Whether slot `i` currently holds a vertex.
    pub open spec fn occupied(&self, i: int) -> bool {
        0 <= i < self.slots.len() && self.slots[i] is Some
    }

    /// Whether `id` names a live vertex: its slot holds a vertex whose stored
    /// id matches `id` exactly, generation included.
    pub open spec fn live(&self, id: Id) -> bool {
        &&& 0 <= id.spec_index() < self.slots.len()
        &&& match self.slots[id.spec_index() as int] {
            Some(v) => v.vid == id,
            None => false,
        }
    }

    /// The vertex stored in `id`'s slot (meaningful only when occupied).
    pub open spec fn vertex_at(&self, id: Id) -> VertexView<V, E> {
        self.slots[id.spec_index() as int]->Some_0
    }

    /// The data of the vertex `id` names (meaningful only when `live(id)`).
    pub open spec fn data_of(&self, id: Id) -> V {
        self.vertex_at(id).data
    }

    /// Whether the graph holds an edge from `source` to `sink`, both taken
    /// with their generations.
    pub open spec fn has_edge(&self, source: Id, sink: Id) -> bool {
        self.live(source) && table_has_edge(self.vertex_at(source).adj, sink)
    }

    /// The weight of the edge from `source` to `sink` (meaningful only when
    /// `has_edge(source, sink)`).
    pub open spec fn weight_of(&self, source: Id, sink: Id) -> E {
        table_weight(self.vertex_at(source).adj, sink)
    }

    /// The well-formedness of a graph: every stored vertex sits in the slot
    /// its id names and was stamped no later than the current generation; its
    /// adjacency table is well-placed and points only at live vertices; and
    /// the hole set lists exactly the empty slots.
    pub open spec fn wf(&self) -> bool {
        &&& (forall|i: int|
            0 <= i < self.slots.len() ==> match #[trigger] self.slots[i] {
                Some(v) => {
                    &&& v.vid.spec_index() == i
                    &&& v.vid.spec_gen() <= self.generation
                    &&& table_wf(v.adj)
                    &&& (forall|p: int|
                        0 <= p < v.adj.len() ==> match #[trigger] v.adj[p] {
                            Some(pr) => self.live(pr.0),
                            None => true,
                        })
                },
                None => true,
            })
        &&& (forall|i: usize|
            #[trigger] self.holes.contains(i) <==> (i < self.slots.len() && self.slots[i as int] is None))
        &&& self.holes.finite()
    }

    /// The ids of the live vertices among the first `n` slots, in slot order.
    pub open spec fn live_ids_upto(&self, n: int) -> Seq<Id>
        decreases n,
    {
        if n <= 0 {
            Seq::empty()
        } else {
            self.live_ids_upto(n - 1) + (if self.occupied(n - 1) {
                seq![self.slots[n - 1]->Some_0.vid]
            } else {
                Seq::<Id>::empty()
            })
        }
    }

    /// The ids of all live vertices, in slot order.
    pub open spec fn live_id_seq(&self) -> Seq<Id> {
        self.live_ids_upto(self.slots.len() as int)
    }

    /// The data of the live vertices among the first `n` slots, in slot order.
    pub open spec fn live_data_upto(&self, n: int) -> Seq<V>
        decreases n,
    {
        if n <= 0 {
            Seq::empty()
        } else {
            self.live_data_upto(n - 1) + (if self.occupied(n - 1) {
                seq![self.slots[n - 1]->Some_0.data]
            } else {
                Seq::<V>::empty()
            })
        }
    }

    /// The data of all live vertices, in slot order.
    pub open spec fn live_data_seq(&self) -> Seq<V> {
        self.live_data_upto(self.slots.len() as int)
    }

    /// The weights of all edges leaving the first `n` slots, in slot order,
    /// each vertex's outgoing edges in sink-slot order.
    pub open spec fn weights_upto(&self, n: int) -> Seq<E>
        decreases n,
    {
        if n <= 0 {
            Seq::empty()
        } else {
            self.weights_upto(n - 1) + (if self.occupied(n - 1) {
                table_entry_seq(self.slots[n - 1]->Some_0.adj).map_values(|pr: (Id, E)| pr.1)
            } else {
                Seq::<E>::empty()
            })
        }
    }

    /// The weights of all edges in the graph, in slot order.
    pub open spec fn weight_seq(&self) -> Seq<E> {
        self.weights_upto(self.slots.len() as int)
    }

    /// All edges leaving the first `n` slots as `(source, sink, weight)`
    /// triples, in slot order, each vertex's outgoing edges in sink-slot
    /// order.
    pub open spec fn edges_upto(&self, n: int) -> Seq<(Id, Id, E)>
        decreases n,
    {
        if n <= 0 {
            Seq::empty()
        } else {
            self.edges_upto(n - 1) + (if self.occupied(n - 1) {
                table_entry_seq(self.slots[n - 1]->Some_0.adj).map_values(
                    |pr: (Id, E)| (self.slots[n - 1]->Some_0.vid, pr.0, pr.1),
                )
            } else {
                Seq::<(Id, Id, E)>::empty()
            })
        }
    }

    /// All edges in the graph as `(source, sink, weight)` triples.
    pub open spec fn edge_seq(&self) -> Seq<(Id, Id, E)> {
        self.edges_upto(self.slots.len() as int)
    }

    /// The `(source, weight)` pairs of the edges ending at `sink` that leave
    /// the first `n` slots, in slot order.
    pub open spec fn preds_upto(&self, sink: Id, n: int) -> Seq<(Id, E)>
        decreases n,
    {
        if n <= 0 {
            Seq::empty()
        } else {
            self.preds_upto(sink, n - 1) + (if self.occupied(n - 1) && table_has_edge(
                self.slots[n - 1]->Some_0.adj,
                sink,
            ) {
                seq![
                    (
                        self.slots[n - 1]->Some_0.vid,
                        table_weight(self.slots[n - 1]->Some_0.adj, sink),
                    ),
                ]
            } else {
                Seq::<(Id, E)>::empty()
            })
        }
    }

    /// The `(source, weight)` pairs of all edges ending at `sink`, in slot
    /// order.
    pub open spec fn pred_seq(&self, sink: Id) -> Seq<(Id, E)> {
        self.preds_upto(sink, self.slots.len() as int)
    }

    /// How many of the slot indices strictly below `i` are holes.
    pub open spec fn holes_below(&self, i: int) -> nat
        decreases i,
    {
        if i <= 0 {
            0
        } else {
            self.holes_below(i - 1) + (if self.holes.contains((i - 1) as usize) {
                1nat
            } else {
                0nat
            })
        }
    }
}

/// In a graph whose first `n` slots are all occupied, the live-id sequence
/// simply lists the stored ids slot by slot.
proof fn lemma_dense_live_ids<V, E>(g: GraphView<V, E>, n: int)
    requires
        0 <= n <= g.slots.len(),
        forall|k: int| 0 <= k < n ==> (#[trigger] g.slots[k]) is Some,
    ensures
        g.live_ids_upto(n).len() == n,
        forall|k: int|
            0 <= k < n ==> #[trigger] g.live_ids_upto(n)[k] == g.slots[k]->Some_0.vid,
    decreases n,
{
    if n > 0 {
        lemma_dense_live_ids(g, n - 1);
    }
}

/// Every position of the live-id sequence is witnessed by an occupied slot
/// whose rank (number of occupied slots below it) is that position.
proof fn lemma_rank_witness<V, E>(g: GraphView<V, E>, n: int, k: int)
    requires
        0 <= n <= g.slots.len(),
        0 <= k < g.live_ids_upto(n).len(),
    ensures
        exists|a: int|
            0 <= a < n && #[trigger] g.occupied(a) && g.live_ids_upto(a).len() == k
                && g.slots[a]->Some_0.vid == g.live_ids_upto(n)[k],
    decreases n,
{
    if n > 0 {
        if k < g.live_ids_upto(n - 1).len() {
            lemma_rank_witness(g, n - 1, k);
            let a = choose|a: int|
                0 <= a < n - 1 && #[trigger] g.occupied(a) && g.live_ids_upto(a).len() == k
                    && g.slots[a]->Some_0.vid == g.live_ids_upto(n - 1)[k];
            assert(g.live_ids_upto(n)[k] == g.live_ids_upto(n - 1)[k]);
            assert(g.occupied(a));
        } else {
            assert(g.occupied(n - 1));
            assert(g.live_ids_upto(n)[k] == g.slots[n - 1]->Some_0.vid);
        }
    }
}

/// Among occupied slots, the rank strictly increases with the slot index.
proof fn lemma_rank_strict<V, E>(g: GraphView<V, E>, a: int, b: int)
    requires
        0 <= a < b,
        g.occupied(a),
    ensures
        g.live_ids_upto(a).len() < g.live_ids_upto(b).len(),
{
    lemma_live_ids_prefix(g, a + 1, b);
}

/// Each `live_ids_upto` sequence is a prefix of the later ones.
proof fn lemma_live_ids_prefix<V, E>(g: GraphView<V, E>, m: int, n: int)
    requires
        0 <= m <= n,
    ensures
        g.live_ids_upto(m).len() <= g.live_ids_upto(n).len(),
        forall|k: int|
            0 <= k < g.live_ids_upto(m).len() ==> #[trigger] g.live_ids_upto(n)[k]
                == g.live_ids_upto(m)[k],
    decreases n - m,
{
    if m < n {
        lemma_live_ids_prefix(g, m, n - 1);
    }
}

impl<V, E> View for PGraph<V, E> {
    type V = GraphView<V, E>;

    closed spec fn view(&self) -> GraphView<V, E> {
        GraphView {
            slots: Seq::new(
                self.guts@.len(),
                |i: int|
                    match self.guts@[i] {
                        Some(v) => Some(v@),
                        None => None,
                    },
            ),
            holes: ordset_elems(self.empties),
            generation: self.idgen.spec_gen(),
        }
    }
}

impl<V, E> PGraph<V, E> {
    /// Creates a new, empty graph with a fresh generation.
    #[must_use]
    pub fn new() -> (r: Self)
        ensures
            r@.wf(),
            r@.slots.len() == 0,
            r@.holes == Set::<usize>::empty(),
            r@.generation < usize::MAX,
    {
        let r = PGraph { guts: Vec::new(), empties: ordset_new(), idgen: IdGen::new() };
        proof {
            assert(r@.wf());
        }
        r
    }

    /// The generation the graph currently stamps new vertices with. Only
    /// comparisons between generations of one graph family are meaningful.
    #[must_use]
    pub fn generation(&self) -> (r: usize)
        ensures
            r == self@.generation,
    {
        self.idgen.generation()
    }

    /// Counts the empty slots in the underlying vertex sequence.
    #[must_use]
    pub fn count_empties(&self) -> (r: usize)
        ensures
            r == self@.holes.len(),
    {
        ordset_len(&self.empties)
    }

    /// The lowest-numbered empty slot, if any slot is empty.
    fn find_empty(&self) -> (r: Option<usize>)
        ensures
            (match r {
                Some(m) => self@.holes.contains(m) && forall|x: usize|
                    self@.holes.contains(x) ==> m <= x,
                None => forall|x: usize| !self@.holes.contains(x),
            }),
    {
        ordset_get_min(&self.empties)
    }

    /// Checks whether the given id points at a live vertex.
    #[must_use]
    pub fn has_vertex(&self, id: Id) -> (r: bool)
        ensures
            r == self@.live(id),
    {
        self.vertex(id).is_some()
    }

    /// The vertex the given id names, or `None` when the id is stale (its
    /// vertex was removed, or it came from a diverged graph) or its slot was
    /// never allocated.
    #[must_use]
    pub fn vertex(&self, id: Id) -> (r: Option<&Vertex<V, E>>)
        ensures
            (match r {
                Some(v) => self@.live(id) && v@ == self@.vertex_at(id),
                None => !self@.live(id),
            }),
    {
        let idx = id.get_index();
        if idx < self.guts.len() {
            match &self.guts[idx] {
                Some(v) => {
                    if v.same_id(id) {
                        Some(v)
                    } else {
                        None
                    }
                },
                None => None,
            }
        } else {
            None
        }
    }

    /// The data of the vertex the given id names, or `None` when there is no
    /// such vertex.
    #[must_use]
    pub fn vertex_data(&self, id: Id) -> (r: Option<&V>)
        ensures
            (match r {
                Some(d) => self@.live(id) && *d == self@.data_of(id),
                None => !self@.live(id),
            }),
    {
        match self.vertex(id) {
            Some(v) => Some(v.data()),
            None => None,
        }
    }

    /// Returns true iff both endpoints are live and `source` has an outgoing
    /// edge to `sink`.
    #[must_use]
    pub fn has_edge(&self, source: Id, sink: Id) -> (r: bool)
        ensures
            r == self@.has_edge(source, sink),
    {
        match self.vertex(source) {
            Some(v) => v.is_connected(sink),
            None => false,
        }
    }

    /// The weight of the edge from `source` to `sink`, or `None` when there is
    /// no such edge.
    #[must_use]
    pub fn weight(&self, source: Id, sink: Id) -> (r: Option<&E>)
        ensures
            (match r {
                Some(w) => self@.has_edge(source, sink) && *w == self@.weight_of(source, sink),
                None => !self@.has_edge(source, sink),
            }),
    {
        match self.vertex(source) {
            Some(v) => v.weight(sink),
            None => None,
        }
    }

    /// The vertex the given id names; the caller must already know the id to
    /// be live. Mirrors unchecked indexing.
    #[must_use]
    pub fn index_vertex(&self, id: Id) -> (r: &Vertex<V, E>)
        requires
            self@.live(id),
        ensures
            r@ == self@.vertex_at(id),
    {
        match self.vertex(id) {
            Some(v) => v,
            None => vstd::pervasive::unreached(),
        }
    }

    /// The data of the vertex the given id names; the caller must already know
    /// the id to be live. Mirrors unchecked indexing.
    #[must_use]
    pub fn index_data(&self, id: Id) -> (r: &V)
        requires
            self@.live(id),
        ensures
            *r == self@.data_of(id),
    {
        self.index_vertex(id).data()
    }

    /// The weight of the edge from `source` to `sink`; the caller must already
    /// know the edge to exist. Mirrors unchecked indexing.
    #[must_use]
    pub fn index_weight(&self, source: Id, sink: Id) -> (r: &E)
        requires
            self@.has_edge(source, sink),
        ensures
            *r == self@.weight_of(source, sink),
    {
        self.index_vertex(source).index_weight(sink)
    }
}

impl<V, E> PGraph<V, E> {
    /// Adds a new vertex holding `data`, in place, and returns its id. The
    /// lowest-numbered empty slot is reused when one exists; otherwise the
    /// sequence grows by one. The generation does not advance: insertion alone
    /// cannot create aliasing.
    pub fn add_mut(&mut self, data: V) -> (r: Id)
        requires
            old(self)@.wf(),
        ensures
            final(self)@.wf(),
            r.spec_gen() == old(self)@.generation,
            final(self)@.generation == old(self)@.generation,
            !old(self)@.live(r),
            final(self)@.live(r),
            final(self)@.vertex_at(r).data == data,
            final(self)@.vertex_at(r).adj.len() == 0,
            final(self)@.holes == old(self)@.holes.remove(r.spec_index()),
            old(self)@.holes.contains(r.spec_index()) || r.spec_index() == old(self)@.slots.len(),
            (old(self)@.holes.contains(r.spec_index()) ==> forall|x: usize|
                old(self)@.holes.contains(x) ==> r.spec_index() <= x),
            ((exists|x: usize| old(self)@.holes.contains(x)) ==> old(self)@.holes.contains(
                r.spec_index(),
            )),
            ((forall|x: usize| !old(self)@.holes.contains(x)) ==> r.spec_index() == old(
                self,
            )@.slots.len()),
            final(self)@.slots.len() == (if old(self)@.holes.contains(r.spec_index()) {
                old(self)@.slots.len() as int
            } else {
                old(self)@.slots.len() + 1int
            }),
            forall|j: int|
                0 <= j < final(self)@.slots.len() && j != r.spec_index()
                    ==> #[trigger] final(self)@.slots[j] == old(self)@.slots[j],
    {
        let ghost pre = self@;
        let r = match self.find_empty() {
            Some(index) => {
                proof {
                    assert(index < self.guts@.len());
                }
                let id = self.idgen.create_id(index);
                self.guts[index] = Some(Vertex::from(id, data));
                ordset_remove(&mut self.empties, index);
                id
            },
            None => {
                let id = self.idgen.create_id(self.guts.len());
                self.guts.push(Some(Vertex::from(id, data)));
                proof {
                    assert(pre.holes.remove(id.spec_index()) =~= pre.holes);
                }
                id
            },
        };
        proof {
            let post = self@;
            assert forall|i: int| 0 <= i < post.slots.len() implies match #[trigger] post.slots[i] {
                Some(v) => {
                    &&& v.vid.spec_index() == i
                    &&& v.vid.spec_gen() <= post.generation
                    &&& table_wf(v.adj)
                    &&& (forall|p: int|
                        0 <= p < v.adj.len() ==> match #[trigger] v.adj[p] {
                            Some(pr) => post.live(pr.0),
                            None => true,
                        })
                },
                None => true,
            } by {
                if i != r.spec_index() && pre.slots[i] is Some {
                    let v = pre.slots[i]->Some_0;
                    assert forall|p: int| 0 <= p < v.adj.len() implies match #[trigger] v.adj[p] {
                        Some(pr) => post.live(pr.0),
                        None => true,
                    } by {
                        if v.adj[p] is Some {
                            let pr0 = v.adj[p]->Some_0.0;
                            assert(pre.live(pr0));
                            assert(pre.slots[pr0.spec_index() as int] is Some);
                            assert(pr0.spec_index() != r.spec_index());
                        }
                    }
                }
            }
        }
        r
    }

    /// Adds a new vertex holding `data` to a clone of the graph; returns the
    /// new graph and the new vertex's id.
    #[must_use]
    pub fn add(&self, data: V) -> (r: (Self, Id))
        requires
            self@.wf(),
        ensures
            r.0@.wf(),
            r.1.spec_gen() == r.0@.generation,
            r.1.spec_gen() >= self@.generation,
            self@.generation < usize::MAX ==> r.1.spec_gen() > self@.generation,
            !self@.live(r.1),
            r.0@.live(r.1),
            r.0@.vertex_at(r.1).data == data,
            r.0@.vertex_at(r.1).adj.len() == 0,
            r.0@.holes == self@.holes.remove(r.1.spec_index()),
            self@.holes.contains(r.1.spec_index()) || r.1.spec_index() == self@.slots.len(),
            (self@.holes.contains(r.1.spec_index()) ==> forall|x: usize|
                self@.holes.contains(x) ==> r.1.spec_index() <= x),
            ((exists|x: usize| self@.holes.contains(x)) ==> self@.holes.contains(
                r.1.spec_index(),
            )),
            r.0@.slots.len() == (if self@.holes.contains(r.1.spec_index()) {
                self@.slots.len() as int
            } else {
                self@.slots.len() + 1int
            }),
            forall|j: int|
                0 <= j < r.0@.slots.len() && j != r.1.spec_index() ==> #[trigger] r.0@.slots[j]
                    == self@.slots[j],
    {
        let mut result = self.clone();
        let id = result.add_mut(data);
        (result, id)
    }

    /// Adds one vertex per element of `data`, in place. The returned ids
    /// correspond positionally to the data they were created from.
    pub fn add_all_mut(&mut self, data: Vec<V>) -> (r: Vec<Id>)
        requires
            old(self)@.wf(),
        ensures
            final(self)@.wf(),
            final(self)@.generation == old(self)@.generation,
            r@.len() == data@.len(),
            forall|k: int|
                0 <= k < r@.len() ==> final(self)@.live(#[trigger] r@[k])
                    && final(self)@.data_of(r@[k]) == data@[k],
    {
        let mut ids: Vec<Id> = Vec::new();
        let mut rest = data;
        proof {
            assert(rest@ =~= data@.subrange(0, data@.len() as int));
        }
        while rest.len() > 0
            invariant
                old(self)@.wf(),
                self@.wf(),
                self@.generation == old(self)@.generation,
                ids@.len() + rest@.len() == data@.len(),
                rest@ == data@.subrange(ids@.len() as int, data@.len() as int),
                forall|k: int|
                    0 <= k < ids@.len() ==> self@.live(#[trigger] ids@[k]) && self@.data_of(
                        ids@[k],
                    ) == data@[k],
            decreases rest@.len(),
        {
            let ghost pre = self@;
            let ghost prev_ids = ids@;
            let d = rest.remove(0);
            proof {
                assert(d == data@[prev_ids.len() as int]);
            }
            let id = self.add_mut(d);
            ids.push(id);
            proof {
                assert forall|k: int|
                    0 <= k < ids@.len() implies self@.live(#[trigger] ids@[k]) && self@.data_of(
                    ids@[k],
                ) == data@[k] by {
                    if k < prev_ids.len() {
                        let x = prev_ids[k];
                        assert(pre.live(x));
                        assert(pre.slots[x.spec_index() as int] is Some);
                        assert(x.spec_index() != id.spec_index());
                    }
                }
                assert(rest@ =~= data@.subrange(ids@.len() as int, data@.len() as int));
            }
        }
        ids
    }

    /// Adds one vertex per element of `data` to a clone of the graph; returns
    /// the new graph and the ids, positionally matching the data.
    #[must_use]
    pub fn add_all(&self, data: Vec<V>) -> (r: (Self, Vec<Id>))
        requires
            self@.wf(),
        ensures
            r.0@.wf(),
            r.1@.len() == data@.len(),
            forall|k: int|
                0 <= k < r.1@.len() ==> r.0@.live(#[trigger] r.1@[k]) && r.0@.data_of(r.1@[k])
                    == data@[k],
    {
        let mut result = self.clone();
        let ids = result.add_all_mut(data);
        (result, ids)
    }
}

impl<V, E> Clone for PGraph<V, E> {
    /// Cloning is cheap: the vertex payloads and edge weights stay shared. The
    /// clone observes the same vertices, edges and holes, but draws a fresh,
    /// strictly newer generation, so ids minted by the clone and by the
    /// original never collide.
    fn clone(&self) -> (res: Self)
        ensures
            res@.slots == self@.slots,
            res@.holes == self@.holes,
            res@.generation >= self@.generation,
            self@.generation < usize::MAX ==> res@.generation > self@.generation,
            self@.wf() ==> res@.wf(),
    {
        let mut guts: Vec<Option<Vertex<V, E>>> = Vec::new();
        let mut i: usize = 0;
        while i < self.guts.len()
            invariant
                i <= self.guts@.len(),
                guts@.len() == i,
                forall|k: int|
                    0 <= k < i ==> (#[trigger] guts@[k] is Some <==> self.guts@[k] is Some),
                forall|k: int|
                    0 <= k < i && guts@[k] is Some ==> #[trigger] guts@[k]->Some_0@
                        == self.guts@[k]->Some_0@,
            decreases self.guts@.len() - i,
        {
            match &self.guts[i] {
                Some(v) => {
                    guts.push(Some(v.clone()));
                },
                None => {
                    guts.push(None);
                },
            }
            i += 1;
        }
        let res = PGraph {
            guts,
            empties: ordset_clone(&self.empties),
            idgen: self.idgen.clone(),
        };
        proof {
            assert(res@.slots =~= self@.slots);
        }
        res
    }
}

/// Replacing the vertex in `id`'s slot preserves graph well-formedness,
/// provided the replacement keeps the stored id and its adjacency table is
/// well-placed and points only at vertices that were live before.
pub proof fn lemma_wf_after_vertex_update<V, E>(pre: GraphView<V, E>, post: GraphView<V, E>, id: Id)
    requires
        pre.wf(),
        pre.live(id),
        post.slots.len() == pre.slots.len(),
        post.holes == pre.holes,
        post.generation == pre.generation,
        forall|j: int|
            0 <= j < post.slots.len() && j != id.spec_index() ==> post.slots[j] == pre.slots[j],
        post.slots[id.spec_index() as int] is Some,
        post.vertex_at(id).vid == id,
        table_wf(post.vertex_at(id).adj),
        forall|p: int|
            0 <= p < post.vertex_at(id).adj.len() ==> ((#[trigger] post.vertex_at(id).adj[p]) is Some
                ==> pre.live(post.vertex_at(id).adj[p]->Some_0.0)),
    ensures
        post.wf(),
{
    assert forall|x: Id| pre.live(x) implies post.live(x) by {
        if x.spec_index() == id.spec_index() {
            assert(x == id);
        }
    }
    assert forall|i: int| 0 <= i < post.slots.len() implies match #[trigger] post.slots[i] {
        Some(v) => {
            &&& v.vid.spec_index() == i
            &&& v.vid.spec_gen() <= post.generation
            &&& table_wf(v.adj)
            &&& (forall|p: int|
                0 <= p < v.adj.len() ==> match #[trigger] v.adj[p] {
                    Some(pr) => post.live(pr.0),
                    None => true,
                })
        },
        None => true,
    } by {
        if i == id.spec_index() {
            let v = post.slots[i]->Some_0;
            assert(v.vid.spec_gen() <= post.generation) by {
                assert(pre.slots[i]->Some_0.vid == id);
            }
            assert forall|p: int| 0 <= p < v.adj.len() implies match #[trigger] v.adj[p] {
                Some(pr) => post.live(pr.0),
                None => true,
            } by {
                if v.adj[p] is Some {
                    assert(pre.live(v.adj[p]->Some_0.0));
                }
            }
        } else if post.slots[i] is Some {
            let v = post.slots[i]->Some_0;
            assert(pre.slots[i] == post.slots[i]);
            assert forall|p: int| 0 <= p < v.adj.len() implies match #[trigger] v.adj[p] {
                Some(pr) => post.live(pr.0),
                None => true,
            } by {
                if v.adj[p] is Some {
                    assert(pre.live(v.adj[p]->Some_0.0));
                }
            }
        }
    }
    assert forall|i: usize| #[trigger] post.holes.contains(i) <==> (i < post.slots.len()
        && post.slots[i as int] is None) by {
        if i as int == id.spec_index() {
            assert(pre.slots[i as int] is Some);
        } else {
            assert(post.slots.len() == pre.slots.len());
        }
    }
}

impl<V, E> PGraph<V, E> {
    /// Creates an edge from `source` to `sink`, in place, overwriting any
    /// existing edge; vertices may have edges to themselves. The caller must
    /// already know both endpoints to be live.
    pub fn connect_mut(&mut self, source: Id, sink: Id, weight: E)
        requires
            old(self)@.wf(),
            old(self)@.live(source),
            old(self)@.live(sink),
        ensures
            final(self)@.wf(),
            final(self)@.generation == old(self)@.generation,
            final(self)@.holes == old(self)@.holes,
            final(self)@.slots.len() == old(self)@.slots.len(),
            final(self)@.has_edge(source, sink),
            final(self)@.weight_of(source, sink) == weight,
            forall|j: int|
                0 <= j < final(self)@.slots.len() && j != source.spec_index()
                    ==> #[trigger] final(self)@.slots[j] == old(self)@.slots[j],
            final(self)@.vertex_at(source).vid == source,
            final(self)@.vertex_at(source).data == old(self)@.vertex_at(source).data,
            forall|s2: Id, t2: Id|
                !(s2 == source && t2 == sink) ==> #[trigger] final(self)@.has_edge(s2, t2) == old(
                    self,
                )@.has_edge(s2, t2),
            forall|s2: Id, t2: Id|
                old(self)@.has_edge(s2, t2) && !(s2 == source && t2 == sink)
                    ==> #[trigger] final(self)@.weight_of(s2, t2) == old(self)@.weight_of(s2, t2),
    {
        let ghost pre = self@;
        let idx = source.get_index();
        match &mut self.guts[idx] {
            Some(v) => {
                v.connect_to(sink, weight);
            },
            None => {
                vstd::pervasive::unreached()
            },
        }
        proof {
            let post = self@;
            assert(post.slots[source.spec_index() as int] is Some);
            assert(post.vertex_at(source).vid == source);
            assert(table_wf(post.vertex_at(source).adj)) by {
                let pa = post.vertex_at(source).adj;
                let oa = pre.vertex_at(source).adj;
                assert forall|p: int| 0 <= p < pa.len() implies match #[trigger] pa[p] {
                    Some(pr) => pr.0.spec_index() == p,
                    None => true,
                } by {
                    if p != sink.spec_index() && p < oa.len() {
                        assert(oa[p] == pa[p]);
                    }
                }
            }
            assert forall|p: int|
                0 <= p < post.vertex_at(source).adj.len() implies ((
            #[trigger] post.vertex_at(source).adj[p]) is Some ==> pre.live(
                post.vertex_at(source).adj[p]->Some_0.0,
            )) by {
                let pa = post.vertex_at(source).adj;
                let oa = pre.vertex_at(source).adj;
                if pa[p] is Some && p != sink.spec_index() {
                    assert(oa[p] == pa[p]);
                }
            }
            lemma_wf_after_vertex_update(pre, post, source);
            assert forall|s2: Id, t2: Id| !(s2 == source && t2 == sink)
                implies #[trigger] post.has_edge(s2, t2) == pre.has_edge(s2, t2) by {
                lemma_edge_frame_after_connect(pre, post, source, sink, s2, t2);
            }
            assert forall|s2: Id, t2: Id|
                pre.has_edge(s2, t2) && !(s2 == source && t2 == sink)
                implies #[trigger] post.weight_of(s2, t2) == pre.weight_of(s2, t2) by {
                lemma_edge_frame_after_connect(pre, post, source, sink, s2, t2);
            }
        }
    }

    /// Tries to create an edge from `source` to `sink`, in place. Returns
    /// `false`, changing nothing, iff either endpoint is not live.
    pub fn try_connect_mut(&mut self, source: Id, sink: Id, weight: E) -> (r: bool)
        requires
            old(self)@.wf(),
        ensures
            final(self)@.wf(),
            r == (old(self)@.live(source) && old(self)@.live(sink)),
            final(self)@.generation == old(self)@.generation,
            final(self)@.holes == old(self)@.holes,
            final(self)@.slots.len() == old(self)@.slots.len(),
            (if r {
                &&& final(self)@.has_edge(source, sink)
                &&& final(self)@.weight_of(source, sink) == weight
                &&& (forall|s2: Id, t2: Id|
                    !(s2 == source && t2 == sink) ==> #[trigger] final(self)@.has_edge(s2, t2)
                        == old(self)@.has_edge(s2, t2))
                &&& (forall|s2: Id, t2: Id|
                    old(self)@.has_edge(s2, t2) && !(s2 == source && t2 == sink)
                        ==> #[trigger] final(self)@.weight_of(s2, t2) == old(self)@.weight_of(
                        s2,
                        t2,
                    ))
                &&& (forall|x: Id| final(self)@.live(x) == old(self)@.live(x))
                &&& (forall|x: Id|
                    old(self)@.live(x) ==> #[trigger] final(self)@.data_of(x) == old(
                        self,
                    )@.data_of(x))
            } else {
                final(self)@ == old(self)@
            }),
    {
        let ok = self.has_vertex(sink) && self.has_vertex(source);
        if ok {
            let ghost pre = self@;
            self.connect_mut(source, sink, weight);
            proof {
                assert forall|x: Id| final(self)@.live(x) == pre.live(x) by {
                    if x.spec_index() == source.spec_index() && 0 <= x.spec_index()
                        < pre.slots.len() {
                        assert(final(self)@.vertex_at(source).vid == source);
                    }
                }
                assert forall|x: Id| pre.live(x) implies #[trigger] final(self)@.data_of(x)
                    == pre.data_of(x) by {
                    if x.spec_index() == source.spec_index() {
                        assert(x == source);
                    }
                }
            }
            true
        } else {
            false
        }
    }

    /// Creates an edge from `source` to `sink` in a clone of the graph,
    /// overwriting any existing edge, and returns the new version. The caller
    /// must already know both endpoints to be live.
    #[must_use]
    pub fn connect(&self, source: Id, sink: Id, weight: E) -> (r: Self)
        requires
            self@.wf(),
            self@.live(source),
            self@.live(sink),
        ensures
            r@.wf(),
            r@.holes == self@.holes,
            r@.slots.len() == self@.slots.len(),
            r@.generation >= self@.generation,
            r@.has_edge(source, sink),
            r@.weight_of(source, sink) == weight,
            forall|s2: Id, t2: Id|
                !(s2 == source && t2 == sink) ==> #[trigger] r@.has_edge(s2, t2) == self@.has_edge(
                    s2,
                    t2,
                ),
            forall|s2: Id, t2: Id|
                self@.has_edge(s2, t2) && !(s2 == source && t2 == sink) ==> #[trigger] r@.weight_of(
                    s2,
                    t2,
                ) == self@.weight_of(s2, t2),
            forall|j: int|
                0 <= j < r@.slots.len() && j != source.spec_index() ==> #[trigger] r@.slots[j]
                    == self@.slots[j],
    {
        let mut result = self.clone();
        result.connect_mut(source, sink, weight);
        result
    }

    /// Tries to create an edge from `source` to `sink` in a clone of the
    /// graph. Returns `None` iff either endpoint is not live.
    #[must_use]
    pub fn try_connect(&self, source: Id, sink: Id, weight: E) -> (r: Option<Self>)
        requires
            self@.wf(),
        ensures
            r is Some <==> (self@.live(source) && self@.live(sink)),
            (match r {
                Some(g) => {
                    &&& g@.wf()
                    &&& g@.holes == self@.holes
                    &&& g@.slots.len() == self@.slots.len()
                    &&& g@.has_edge(source, sink)
                    &&& g@.weight_of(source, sink) == weight
                    &&& (forall|s2: Id, t2: Id|
                        !(s2 == source && t2 == sink) ==> #[trigger] g@.has_edge(s2, t2)
                            == self@.has_edge(s2, t2))
                    &&& (forall|s2: Id, t2: Id|
                        self@.has_edge(s2, t2) && !(s2 == source && t2 == sink)
                            ==> #[trigger] g@.weight_of(s2, t2) == self@.weight_of(s2, t2))
                },
                None => true,
            }),
    {
        if self.has_vertex(source) && self.has_vertex(sink) {
            let mut result = self.clone();
            result.connect_mut(source, sink, weight);
            Some(result)
        } else {
            None
        }
    }

    /// Removes the edge from `source` to `sink`, in place, if one exists.
    /// Returns true iff the edge existed. The caller must already know
    /// `source` to be live.
    pub fn disconnect_mut(&mut self, source: Id, sink: Id) -> (r: bool)
        requires
            old(self)@.wf(),
            old(self)@.live(source),
        ensures
            final(self)@.wf(),
            r == old(self)@.has_edge(source, sink),
            final(self)@.generation == old(self)@.generation,
            final(self)@.holes == old(self)@.holes,
            final(self)@.slots.len() == old(self)@.slots.len(),
            forall|j: int|
                0 <= j < final(self)@.slots.len() && j != source.spec_index()
                    ==> #[trigger] final(self)@.slots[j] == old(self)@.slots[j],
            final(self)@.live(source),
            final(self)@.vertex_at(source).data == old(self)@.vertex_at(source).data,
            !final(self)@.has_edge(source, sink),
            !old(self)@.has_edge(source, sink) ==> final(self)@ == old(self)@,
            forall|s2: Id, t2: Id|
                !(s2 == source && t2 == sink) ==> #[trigger] final(self)@.has_edge(s2, t2) == old(
                    self,
                )@.has_edge(s2, t2),
            forall|s2: Id, t2: Id|
                old(self)@.has_edge(s2, t2) && !(s2 == source && t2 == sink)
                    ==> #[trigger] final(self)@.weight_of(s2, t2) == old(self)@.weight_of(s2, t2),
    {
        let ghost pre = self@;
        let idx = source.get_index();
        let r = match &mut self.guts[idx] {
            Some(v) => v.disconnect(sink),
            None => vstd::pervasive::unreached(),
        };
        proof {
            let post = self@;
            assert(post.slots[source.spec_index() as int] is Some);
            assert(post.vertex_at(source).vid == source);
            assert(table_wf(post.vertex_at(source).adj)) by {
                let pa = post.vertex_at(source).adj;
                let oa = pre.vertex_at(source).adj;
                assert forall|p: int| 0 <= p < pa.len() implies match #[trigger] pa[p] {
                    Some(pr) => pr.0.spec_index() == p,
                    None => true,
                } by {
                    if p != sink.spec_index() {
                        assert(oa[p] == pa[p]);
                    }
                }
            }
            assert forall|p: int|
                0 <= p < post.vertex_at(source).adj.len() implies ((
            #[trigger] post.vertex_at(source).adj[p]) is Some ==> pre.live(
                post.vertex_at(source).adj[p]->Some_0.0,
            )) by {
                let pa = post.vertex_at(source).adj;
                let oa = pre.vertex_at(source).adj;
                if pa[p] is Some && p != sink.spec_index() {
                    assert(oa[p] == pa[p]);
                }
                if pa[p] is Some && p == sink.spec_index() {
                    assert(oa[p] == pa[p] || pa[p] is None);
                }
            }
            lemma_wf_after_vertex_update(pre, post, source);
            if r {
                assert(pre.live(sink)) by {
                    let pr0 = pre.vertex_at(source).adj[sink.spec_index() as int]->Some_0.0;
                    assert(pre.live(pr0));
                }
                assert forall|s2: Id, t2: Id| !(s2 == source && t2 == sink)
                    implies #[trigger] post.has_edge(s2, t2) == pre.has_edge(s2, t2) by {
                    lemma_edge_frame_after_connect(pre, post, source, sink, s2, t2);
                }
                assert forall|s2: Id, t2: Id|
                    pre.has_edge(s2, t2) && !(s2 == source && t2 == sink)
                    implies #[trigger] post.weight_of(s2, t2) == pre.weight_of(s2, t2) by {
                    lemma_edge_frame_after_connect(pre, post, source, sink, s2, t2);
                }
            } else {
                assert(post.vertex_at(source) =~= pre.vertex_at(source));
                assert(post =~= pre);
            }
        }
        r
    }

    /// Tries to remove the edge from `source` to `sink`, in place. Returns
    /// true iff the edge existed to be removed; never panics.
    pub fn try_disconnect_mut(&mut self, source: Id, sink: Id) -> (r: bool)
        requires
            old(self)@.wf(),
        ensures
            final(self)@.wf(),
            r == old(self)@.has_edge(source, sink),
            final(self)@.generation == old(self)@.generation,
            final(self)@.holes == old(self)@.holes,
            (if r {
                &&& !final(self)@.has_edge(source, sink)
                &&& (forall|s2: Id, t2: Id|
                    !(s2 == source && t2 == sink) ==> #[trigger] final(self)@.has_edge(s2, t2)
                        == old(self)@.has_edge(s2, t2))
                &&& (forall|s2: Id, t2: Id|
                    old(self)@.has_edge(s2, t2) && !(s2 == source && t2 == sink)
                        ==> #[trigger] final(self)@.weight_of(s2, t2) == old(self)@.weight_of(
                        s2,
                        t2,
                    ))
                &&& (forall|x: Id| final(self)@.live(x) == old(self)@.live(x))
                &&& (forall|x: Id|
                    old(self)@.live(x) ==> #[trigger] final(self)@.data_of(x) == old(
                        self,
                    )@.data_of(x))
            } else {
                final(self)@ == old(self)@
            }),
    {
        if self.has_vertex(source) {
            let ghost pre = self@;
            let r = self.disconnect_mut(source, sink);
            proof {
                assert forall|x: Id| final(self)@.live(x) == pre.live(x) by {
                    if x.spec_index() == source.spec_index() && 0 <= x.spec_index()
                        < pre.slots.len() {
                        assert(final(self)@.vertex_at(source).vid == source);
                    }
                }
                assert forall|x: Id| pre.live(x) implies #[trigger] final(self)@.data_of(x)
                    == pre.data_of(x) by {
                    if x.spec_index() == source.spec_index() {
                        assert(x == source);
                    }
                }
            }
            r
        } else {
            false
        }
    }

    /// Removes the edge from `source` to `sink` in a clone of the graph, if
    /// one exists, and returns the new version. The caller must already know
    /// `source` to be live.
    #[must_use]
    pub fn disconnect(&self, source: Id, sink: Id) -> (r: Self)
        requires
            self@.wf(),
            self@.live(source),
        ensures
            r@.wf(),
            r@.holes == self@.holes,
            r@.slots.len() == self@.slots.len(),
            !r@.has_edge(source, sink),
            forall|s2: Id, t2: Id|
                !(s2 == source && t2 == sink) ==> #[trigger] r@.has_edge(s2, t2) == self@.has_edge(
                    s2,
                    t2,
                ),
            forall|s2: Id, t2: Id|
                self@.has_edge(s2, t2) && !(s2 == source && t2 == sink) ==> #[trigger] r@.weight_of(
                    s2,
                    t2,
                ) == self@.weight_of(s2, t2),
            forall|j: int|
                0 <= j < r@.slots.len() && j != source.spec_index() ==> #[trigger] r@.slots[j]
                    == self@.slots[j],
    {
        let mut result = self.clone();
        let _ = result.disconnect_mut(source, sink);
        result
    }

    /// Tries to remove the edge from `source` to `sink` in a clone of the
    /// graph. Returns `None`, cloning nothing, unless both endpoints are live
    /// and the edge existed.
    #[must_use]
    pub fn try_disconnect(&self, source: Id, sink: Id) -> (r: Option<Self>)
        requires
            self@.wf(),
        ensures
            r is Some <==> self@.has_edge(source, sink),
            (match r {
                Some(g) => {
                    &&& g@.wf()
                    &&& g@.holes == self@.holes
                    &&& g@.slots.len() == self@.slots.len()
                    &&& !g@.has_edge(source, sink)
                    &&& (forall|s2: Id, t2: Id|
                        !(s2 == source && t2 == sink) ==> #[trigger] g@.has_edge(s2, t2)
                            == self@.has_edge(s2, t2))
                    &&& (forall|s2: Id, t2: Id|
                        self@.has_edge(s2, t2) && !(s2 == source && t2 == sink)
                            ==> #[trigger] g@.weight_of(s2, t2) == self@.weight_of(s2, t2))
                },
                None => true,
            }),
    {
        proof {
            if self@.has_edge(source, sink) {
                let pr0 = self@.vertex_at(source).adj[sink.spec_index() as int]->Some_0.0;
                assert(self@.live(pr0));
            }
        }
        if self.has_vertex(source) && self.has_vertex(sink) {
            let mut result = self.clone();
            if result.disconnect_mut(source, sink) {
                Some(result)
            } else {
                None
            }
        } else {
            None
        }
    }

    /// Clears `id`'s slot, records it as a hole, and removes every edge that
    /// terminated at `id`, without advancing the generation. Callers must
    /// advance the generation before handing the graph back out.
    fn remove_vertex_slot(&mut self, id: Id)
        requires
            old(self)@.wf(),
            old(self)@.live(id),
        ensures
            final(self)@.wf(),
            final(self)@.generation == old(self)@.generation,
            final(self)@.slots.len() == old(self)@.slots.len(),
            final(self)@.holes == old(self)@.holes.insert(id.spec_index()),
            forall|x: Id| #[trigger] final(self)@.live(x) == (old(self)@.live(x) && x != id),
            forall|x: Id|
                old(self)@.live(x) && x != id ==> #[trigger] final(self)@.data_of(x) == old(
                    self,
                )@.data_of(x),
            forall|s: Id, t: Id|
                #[trigger] final(self)@.has_edge(s, t) == (old(self)@.has_edge(s, t) && s != id
                    && t != id),
            forall|s: Id, t: Id|
                final(self)@.has_edge(s, t) ==> #[trigger] final(self)@.weight_of(s, t) == old(
                    self,
                )@.weight_of(s, t),
    {
        let ghost pre = self@;
        let idx = id.get_index();
        self.guts[idx] = None;
        ordset_insert(&mut self.empties, idx);
        let mut i: usize = 0;
        while i < self.guts.len()
            invariant
                pre.wf(),
                pre.live(id),
                idx == id.spec_index(),
                0 <= idx < self@.slots.len(),
                self@.slots.len() == pre.slots.len(),
                self@.generation == pre.generation,
                self@.holes == pre.holes.insert(id.spec_index()),
                self@.slots[idx as int] is None,
                i <= self@.slots.len(),
                forall|j: int|
                    0 <= j < self@.slots.len() && j != idx ==> ((#[trigger] self@.slots[j]) is Some
                        <==> pre.slots[j] is Some),
                forall|j: int|
                    0 <= j < self@.slots.len() && j != idx && self@.slots[j] is Some
                        ==> (#[trigger] self@.slots[j])->Some_0.vid == pre.slots[j]->Some_0.vid
                        && self@.slots[j]->Some_0.data == pre.slots[j]->Some_0.data,
                forall|j: int|
                    i <= j < self@.slots.len() && j != idx ==> #[trigger] self@.slots[j]
                        == pre.slots[j],
                forall|j: int|
                    0 <= j < i && j != idx && self@.slots[j] is Some
                        ==> (#[trigger] self@.slots[j])->Some_0.adj.len()
                        == pre.slots[j]->Some_0.adj.len(),
                forall|j: int, p: int|
                    0 <= j < i && j != idx && self@.slots[j] is Some && 0 <= p
                        < self@.slots[j]->Some_0.adj.len() && p != idx
                        ==> #[trigger] self@.slots[j]->Some_0.adj[p] == pre.slots[j]->Some_0.adj[p],
                forall|j: int|
                    0 <= j < i && j != idx && self@.slots[j] is Some && idx
                        < self@.slots[j]->Some_0.adj.len() ==> (#[trigger] self@.slots[j])->Some_0.adj[idx as int] is None,
            decreases self@.slots.len() - i,
        {
            let ghost step_pre = self@;
            if i != idx {
                match &mut self.guts[i] {
                    Some(v) => {
                        proof {
                            if table_has_edge(step_pre.slots[i as int]->Some_0.adj, id) {
                            } else {
                                if idx < step_pre.slots[i as int]->Some_0.adj.len() {
                                    if step_pre.slots[i as int]->Some_0.adj[idx as int] is Some {
                                        let pr0 = step_pre.slots[i as int]->Some_0.adj[idx as int]->Some_0.0;
                                        assert(pre.slots[i as int] == step_pre.slots[i as int]);
                                        assert(pre.live(pr0));
                                        assert(pr0 == id);
                                        assert(false);
                                    }
                                }
                            }
                        }
                        let _ = v.disconnect(id);
                    },
                    None => {},
                }
                proof {
                    assert(self@.slots.len() == step_pre.slots.len());
                    assert forall|j: int|
                        0 <= j < self@.slots.len() && j != i implies #[trigger] self@.slots[j]
                        == step_pre.slots[j] by {}
                    assert((self@.slots[i as int] is Some) <==> (step_pre.slots[i as int] is Some));
                }
            }
            i += 1;
        }
        proof {
            let post = self@;
            assert forall|x: Id| #[trigger] post.live(x) == (pre.live(x) && x != id) by {
                if 0 <= x.spec_index() < pre.slots.len() {
                    if x.spec_index() == idx {
                        if pre.live(x) {
                            assert(x == id);
                        }
                    }
                }
            }
            assert forall|s: Id, t: Id| #[trigger] post.has_edge(s, t) == (pre.has_edge(s, t) && s
                != id && t != id) by {
                let si = s.spec_index() as int;
                if post.live(s) && pre.live(s) && s != id {
                    assert(post.slots[si] is Some);
                    let na = post.slots[si]->Some_0.adj;
                    let oa = pre.slots[si]->Some_0.adj;
                    if t.spec_index() == idx {
                        if table_has_edge(oa, t) {
                            let pr0 = oa[t.spec_index() as int]->Some_0.0;
                            assert(pre.live(pr0));
                            assert(pr0 == id);
                            assert(t == id);
                        }
                        if t != id && table_has_edge(na, t) {
                            assert(na[idx as int] is None);
                            assert(false);
                        }
                    } else {
                        if t.spec_index() < na.len() {
                            assert(na[t.spec_index() as int] == oa[t.spec_index() as int]);
                        }
                        if pre.has_edge(s, t) {
                            assert(t != id);
                        }
                    }
                }
            }
            assert forall|s: Id, t: Id| post.has_edge(s, t) implies #[trigger] post.weight_of(s, t)
                == pre.weight_of(s, t) by {
                let si = s.spec_index() as int;
                assert(post.slots[si] is Some);
                let na = post.slots[si]->Some_0.adj;
                let oa = pre.slots[si]->Some_0.adj;
                assert(table_has_edge(na, t));
                assert(t.spec_index() != idx);
                assert(na[t.spec_index() as int] == oa[t.spec_index() as int]);
            }
            assert forall|i2: int| 0 <= i2 < post.slots.len() implies match #[trigger] post.slots[i2] {
                Some(v) => {
                    &&& v.vid.spec_index() == i2
                    &&& v.vid.spec_gen() <= post.generation
                    &&& table_wf(v.adj)
                    &&& (forall|p: int|
                        0 <= p < v.adj.len() ==> match #[trigger] v.adj[p] {
                            Some(pr) => post.live(pr.0),
                            None => true,
                        })
                },
                None => true,
            } by {
                if i2 != idx && post.slots[i2] is Some {
                    let nv = post.slots[i2]->Some_0;
                    let ov = pre.slots[i2]->Some_0;
                    assert(nv.vid == ov.vid);
                    assert(table_wf(nv.adj)) by {
                        assert forall|p: int| 0 <= p < nv.adj.len() implies match #[trigger] nv.adj[p] {
                            Some(pr) => pr.0.spec_index() == p,
                            None => true,
                        } by {
                            if p != idx {
                                assert(nv.adj[p] == ov.adj[p]);
                            }
                        }
                    }
                    assert forall|p: int| 0 <= p < nv.adj.len() implies match #[trigger] nv.adj[p] {
                        Some(pr) => post.live(pr.0),
                        None => true,
                    } by {
                        if nv.adj[p] is Some {
                            assert(p != idx);
                            assert(nv.adj[p] == ov.adj[p]);
                            let pr0 = ov.adj[p]->Some_0.0;
                            assert(pre.live(pr0));
                            assert(pr0.spec_index() == p);
                            assert(post.live(pr0));
                        }
                    }
                }
            }
            assert forall|h: usize| #[trigger] post.holes.contains(h) <==> (h < post.slots.len()
                && post.slots[h as int] is None) by {
                if h as int == idx {
                } else {
                    assert(post.holes.contains(h) == pre.holes.contains(h));
                }
            }
        }
    }

    /// Removes the vertex `id` names, in place, together with every edge from
    /// or to it, and advances the generation so the freed slot can never
    /// resurrect the old id. Returns true iff the vertex existed.
    pub fn remove_mut(&mut self, id: Id) -> (r: bool)
        requires
            old(self)@.wf(),
        ensures
            final(self)@.wf(),
            r == old(self)@.live(id),
            !r ==> final(self)@ == old(self)@,
            final(self)@.generation >= old(self)@.generation,
            (r && old(self)@.generation < usize::MAX) ==> final(self)@.generation > old(
                self,
            )@.generation,
            (r && old(self)@.generation < usize::MAX) ==> id.spec_gen() < final(self)@.generation,
            r ==> {
                &&& final(self)@.slots.len() == old(self)@.slots.len()
                &&& final(self)@.holes == old(self)@.holes.insert(id.spec_index())
                &&& (forall|x: Id|
                    #[trigger] final(self)@.live(x) == (old(self)@.live(x) && x != id))
                &&& (forall|x: Id|
                    old(self)@.live(x) && x != id ==> #[trigger] final(self)@.data_of(x) == old(
                        self,
                    )@.data_of(x))
                &&& (forall|s: Id, t: Id|
                    #[trigger] final(self)@.has_edge(s, t) == (old(self)@.has_edge(s, t) && s != id
                        && t != id))
                &&& (forall|s: Id, t: Id|
                    final(self)@.has_edge(s, t) ==> #[trigger] final(self)@.weight_of(s, t) == old(
                        self,
                    )@.weight_of(s, t))
            },
    {
        if self.has_vertex(id) {
            self.remove_vertex_slot(id);
            let ghost mid = self@;
            self.idgen.next_gen();
            proof {
                assert(self@.slots == mid.slots);
                assert(self@.holes == mid.holes);
                assert(self@.generation >= mid.generation);
                assert forall|x: Id| #[trigger] self@.live(x) == mid.live(x) by {}
                assert forall|s: Id, t: Id| #[trigger] self@.has_edge(s, t) == mid.has_edge(
                    s,
                    t,
                ) by {}
                assert forall|x: Id| old(self)@.live(x) && x != id implies #[trigger] self@.data_of(
                    x,
                ) == old(self)@.data_of(x) by {
                    assert(mid.data_of(x) == old(self)@.data_of(x));
                    assert(self@.data_of(x) == mid.data_of(x));
                }
                assert forall|s: Id, t: Id| self@.has_edge(s, t) implies #[trigger] self@.weight_of(
                    s,
                    t,
                ) == old(self)@.weight_of(s, t) by {
                    assert(mid.has_edge(s, t));
                    assert(mid.weight_of(s, t) == old(self)@.weight_of(s, t));
                    assert(self@.weight_of(s, t) == mid.weight_of(s, t));
                }
                assert(self@.wf()) by {
                    assert forall|i2: int|
                        0 <= i2 < self@.slots.len() implies match #[trigger] self@.slots[i2] {
                        Some(v) => {
                            &&& v.vid.spec_index() == i2
                            &&& v.vid.spec_gen() <= self@.generation
                            &&& table_wf(v.adj)
                            &&& (forall|p: int|
                                0 <= p < v.adj.len() ==> match #[trigger] v.adj[p] {
                                    Some(pr) => self@.live(pr.0),
                                    None => true,
                                })
                        },
                        None => true,
                    } by {
                        assert(mid.wf());
                        if self@.slots[i2] is Some {
                            let v = self@.slots[i2]->Some_0;
                            assert(v.vid.spec_gen() <= mid.generation);
                        }
                    }
                }
            }
            true
        } else {
            false
        }
    }

    /// Removes the vertex `id` names from a clone of the graph and returns the
    /// new version, which equals the original (except for its generation) when
    /// the vertex did not exist.
    #[must_use]
    pub fn remove(&self, id: Id) -> (r: Self)
        requires
            self@.wf(),
        ensures
            r@.wf(),
            r@.generation >= self@.generation,
            self@.generation < usize::MAX ==> r@.generation > self@.generation,
            (self@.live(id) && self@.generation < usize::MAX) ==> id.spec_gen() < r@.generation,
            !self@.live(id) ==> r@.slots == self@.slots && r@.holes == self@.holes,
            self@.live(id) ==> {
                &&& r@.slots.len() == self@.slots.len()
                &&& r@.holes == self@.holes.insert(id.spec_index())
                &&& (forall|x: Id| #[trigger] r@.live(x) == (self@.live(x) && x != id))
                &&& (forall|x: Id|
                    self@.live(x) && x != id ==> #[trigger] r@.data_of(x) == self@.data_of(x))
                &&& (forall|s: Id, t: Id|
                    #[trigger] r@.has_edge(s, t) == (self@.has_edge(s, t) && s != id && t != id))
                &&& (forall|s: Id, t: Id|
                    r@.has_edge(s, t) ==> #[trigger] r@.weight_of(s, t) == self@.weight_of(s, t))
            },
    {
        let mut result = self.clone();
        let _ = result.remove_mut(id);
        result
    }

    /// Tries to remove the vertex `id` names from a clone of the graph.
    /// Returns `None`, cloning nothing, when the vertex does not exist.
    #[must_use]
    pub fn try_remove(&self, id: Id) -> (r: Option<Self>)
        requires
            self@.wf(),
        ensures
            r is Some <==> self@.live(id),
            (match r {
                Some(g) => {
                    &&& g@.wf()
                    &&& g@.generation >= self@.generation
                    &&& (self@.generation < usize::MAX ==> id.spec_gen() < g@.generation)
                    &&& g@.slots.len() == self@.slots.len()
                    &&& g@.holes == self@.holes.insert(id.spec_index())
                    &&& (forall|x: Id| #[trigger] g@.live(x) == (self@.live(x) && x != id))
                    &&& (forall|x: Id|
                        self@.live(x) && x != id ==> #[trigger] g@.data_of(x) == self@.data_of(x))
                    &&& (forall|s: Id, t: Id|
                        #[trigger] g@.has_edge(s, t) == (self@.has_edge(s, t) && s != id && t
                            != id))
                    &&& (forall|s: Id, t: Id|
                        g@.has_edge(s, t) ==> #[trigger] g@.weight_of(s, t) == self@.weight_of(
                            s,
                            t,
                        ))
                },
                None => true,
            }),
    {
        if self.has_vertex(id) {
            let mut result = self.clone();
            result.remove_vertex_slot(id);
            Some(result)
        } else {
            None
        }
    }

    /// Removes every vertex in `ids`, in place, with all their edges, and
    /// advances the generation once for the whole batch. Returns true iff at
    /// least one of them existed to be removed.
    pub fn remove_all_mut(&mut self, ids: &[Id]) -> (r: bool)
        requires
            old(self)@.wf(),
        ensures
            final(self)@.wf(),
            r == (exists|k: int| 0 <= k < ids@.len() && old(self)@.live(ids@[k])),
            !r ==> final(self)@ == old(self)@,
            final(self)@.generation >= old(self)@.generation,
            (r && old(self)@.generation < usize::MAX) ==> final(self)@.generation > old(
                self,
            )@.generation,
            final(self)@.slots.len() == old(self)@.slots.len(),
            (old(self)@.generation < usize::MAX) ==> (forall|k: int|
                0 <= k < ids@.len() && old(self)@.live(#[trigger] ids@[k]) ==> ids@[k].spec_gen()
                    < final(self)@.generation),
            forall|x: Id|
                #[trigger] final(self)@.live(x) == (old(self)@.live(x) && !ids@.contains(x)),
            forall|x: Id|
                final(self)@.live(x) ==> #[trigger] final(self)@.data_of(x) == old(self)@.data_of(
                    x,
                ),
            forall|s: Id, t: Id|
                #[trigger] final(self)@.has_edge(s, t) == (old(self)@.has_edge(s, t)
                    && !ids@.contains(s) && !ids@.contains(t)),
            forall|s: Id, t: Id|
                final(self)@.has_edge(s, t) ==> #[trigger] final(self)@.weight_of(s, t) == old(
                    self,
                )@.weight_of(s, t),
    {
        let mut changed = false;
        let mut k: usize = 0;
        proof {
            assert(ids@.subrange(0, 0) =~= Seq::<Id>::empty());
        }
        while k < ids.len()
            invariant
                old(self)@.wf(),
                self@.wf(),
                k <= ids@.len(),
                self@.generation == old(self)@.generation,
                self@.slots.len() == old(self)@.slots.len(),
                changed == (exists|j: int| 0 <= j < k && old(self)@.live(#[trigger] ids@[j])),
                !changed ==> self@ == old(self)@,
                forall|x: Id|
                    #[trigger] self@.live(x) == (old(self)@.live(x) && !ids@.subrange(
                        0,
                        k as int,
                    ).contains(x)),
                forall|x: Id|
                    self@.live(x) ==> #[trigger] self@.data_of(x) == old(self)@.data_of(x),
                forall|s: Id, t: Id|
                    #[trigger] self@.has_edge(s, t) == (old(self)@.has_edge(s, t)
                        && !ids@.subrange(0, k as int).contains(s) && !ids@.subrange(
                        0,
                        k as int,
                    ).contains(t)),
                forall|s: Id, t: Id|
                    self@.has_edge(s, t) ==> #[trigger] self@.weight_of(s, t) == old(
                        self,
                    )@.weight_of(s, t),
            decreases ids@.len() - k,
        {
            let id = ids[k];
            let ghost step_pre = self@;
            let ghost sub0 = ids@.subrange(0, k as int);
            let ghost sub1 = ids@.subrange(0, k as int + 1);
            let was_live = self.has_vertex(id);
            if was_live {
                self.remove_vertex_slot(id);
                changed = true;
            }
            proof {
                assert(sub1 =~= sub0.push(id));
                assert forall|x: Id| #[trigger] sub1.contains(x) <==> (sub0.contains(x) || x
                    == id) by {
                    if sub1.contains(x) {
                        let j = choose|j: int| 0 <= j < sub1.len() && sub1[j] == x;
                        if j < sub0.len() {
                            assert(sub0[j] == x);
                        }
                    }
                    if sub0.contains(x) {
                        let j = choose|j: int| 0 <= j < sub0.len() && sub0[j] == x;
                        assert(sub1[j] == x);
                    }
                    if x == id {
                        assert(sub1[sub0.len() as int] == x);
                    }
                }
                if was_live {
                    assert(old(self)@.live(id));
                } else {
                    assert(self@ == step_pre);
                }
                assert forall|x: Id| #[trigger] self@.live(x) == (old(self)@.live(x)
                    && !sub1.contains(x)) by {
                    if was_live {
                        assert(self@.live(x) == (step_pre.live(x) && x != id));
                    }
                }
                assert(changed == (exists|j: int|
                    0 <= j < k + 1 && old(self)@.live(#[trigger] ids@[j]))) by {
                    if changed {
                        if was_live && step_pre.live(id) {
                            assert(old(self)@.live(ids@[k as int]));
                        }
                    } else {
                        assert(!was_live);
                        assert(!step_pre.live(id));
                        assert(!old(self)@.live(ids@[k as int]));
                    }
                }
            }
            k += 1;
        }
        proof {
            assert(ids@.subrange(0, ids@.len() as int) =~= ids@);
        }
        if changed {
            let ghost mid = self@;
            self.idgen.next_gen();
            proof {
                assert(self@.slots == mid.slots);
                assert(self@.holes == mid.holes);
                assert forall|x: Id| #[trigger] self@.live(x) == mid.live(x) by {}
                assert forall|s: Id, t: Id| #[trigger] self@.has_edge(s, t) == mid.has_edge(
                    s,
                    t,
                ) by {}
                assert forall|x: Id| self@.live(x) implies #[trigger] self@.data_of(x) == old(
                    self,
                )@.data_of(x) by {
                    assert(mid.live(x));
                    assert(mid.data_of(x) == old(self)@.data_of(x));
                    assert(self@.data_of(x) == mid.data_of(x));
                }
                assert forall|s: Id, t: Id| self@.has_edge(s, t) implies #[trigger] self@.weight_of(
                    s,
                    t,
                ) == old(self)@.weight_of(s, t) by {
                    assert(mid.has_edge(s, t));
                    assert(mid.weight_of(s, t) == old(self)@.weight_of(s, t));
                    assert(self@.weight_of(s, t) == mid.weight_of(s, t));
                }
                assert(self@.wf()) by {
                    assert forall|i2: int|
                        0 <= i2 < self@.slots.len() implies match #[trigger] self@.slots[i2] {
                        Some(v) => {
                            &&& v.vid.spec_index() == i2
                            &&& v.vid.spec_gen() <= self@.generation
                            &&& table_wf(v.adj)
                            &&& (forall|p: int|
                                0 <= p < v.adj.len() ==> match #[trigger] v.adj[p] {
                                    Some(pr) => self@.live(pr.0),
                                    None => true,
                                })
                        },
                        None => true,
                    } by {
                        assert(mid.wf());
                        if self@.slots[i2] is Some {
                            let v = self@.slots[i2]->Some_0;
                            assert(v.vid.spec_gen() <= mid.generation);
                        }
                    }
                }
            }
        }
        changed
    }

    /// Removes every vertex in `ids` from a clone of the graph and returns the
    /// new version.
    #[must_use]
    pub fn remove_all(&self, ids: &[Id]) -> (r: Self)
        requires
            self@.wf(),
        ensures
            r@.wf(),
            r@.generation >= self@.generation,
            r@.slots.len() == self@.slots.len(),
            forall|x: Id| #[trigger] r@.live(x) == (self@.live(x) && !ids@.contains(x)),
            forall|x: Id| r@.live(x) ==> #[trigger] r@.data_of(x) == self@.data_of(x),
            forall|s: Id, t: Id|
                #[trigger] r@.has_edge(s, t) == (self@.has_edge(s, t) && !ids@.contains(s)
                    && !ids@.contains(t)),
            forall|s: Id, t: Id|
                r@.has_edge(s, t) ==> #[trigger] r@.weight_of(s, t) == self@.weight_of(s, t),
    {
        let mut result = self.clone();
        let _ = result.remove_all_mut(ids);
        result
    }

    /// Tries to remove every vertex in `ids` from a clone of the graph.
    /// Returns `None` when none of them existed to be removed.
    #[must_use]
    pub fn try_remove_all(&self, ids: &[Id]) -> (r: Option<Self>)
        requires
            self@.wf(),
        ensures
            r is Some <==> (exists|k: int| 0 <= k < ids@.len() && self@.live(ids@[k])),
            (match r {
                Some(g) => {
                    &&& g@.wf()
                    &&& g@.slots.len() == self@.slots.len()
                    &&& (forall|x: Id| #[trigger] g@.live(x) == (self@.live(x) && !ids@.contains(x)))
                    &&& (forall|x: Id|
                        g@.live(x) ==> #[trigger] g@.data_of(x) == self@.data_of(x))
                    &&& (forall|s: Id, t: Id|
                        #[trigger] g@.has_edge(s, t) == (self@.has_edge(s, t) && !ids@.contains(s)
                            && !ids@.contains(t)))
                    &&& (forall|s: Id, t: Id|
                        g@.has_edge(s, t) ==> #[trigger] g@.weight_of(s, t) == self@.weight_of(
                            s,
                            t,
                        ))
                },
                None => true,
            }),
    {
        let mut result = self.clone();
        if result.remove_all_mut(ids) {
            Some(result)
        } else {
            None
        }
    }

    /// A mutable view of the vertex the given id names; the caller must
    /// already know the id to be live. Mirrors unchecked indexing. Whatever
    /// the caller writes through the reference lands in that vertex's slot;
    /// [`lemma_wf_after_vertex_update`] recovers well-formedness for updates
    /// that keep the stored id and point only at live vertices.
    #[must_use]
    pub fn index_vertex_mut(&mut self, id: Id) -> (r: &mut Vertex<V, E>)
        requires
            old(self)@.live(id),
        ensures
            (*r)@ == old(self)@.vertex_at(id),
            final(self)@.slots =~= old(self)@.slots.update(
                id.spec_index() as int,
                Some((*final(r))@),
            ),
            final(self)@.holes == old(self)@.holes,
            final(self)@.generation == old(self)@.generation,
    {
        let ghost pre = self@;
        let idx = id.get_index();
        let r = match &mut self.guts[idx] {
            Some(v) => v,
            None => vstd::pervasive::unreached(),
        };
        r
    }

    /// An entry builder for the edge from `source` to `sink`: insert a weight
    /// if the edge is absent, or modify the weight in place if it exists. The
    /// caller must already know both endpoints to be live; an edge can never
    /// point at a dead vertex. The builder's operations only touch the bound
    /// entry of the borrowed vertex; [`lemma_wf_after_vertex_update`] recovers
    /// well-formedness once the borrow ends.
    #[must_use]
    pub fn edge(&mut self, source: Id, sink: Id) -> (r: Edge<'_, V, E>)
        requires
            old(self)@.live(source),
            old(self)@.live(sink),
        ensures
            r.sink == sink,
            (*r.source)@ == old(self)@.vertex_at(source),
            (*r.source)@.vid == source,
            final(self)@.slots =~= old(self)@.slots.update(
                source.spec_index() as int,
                Some((*final(r.source))@),
            ),
            final(self)@.holes == old(self)@.holes,
            final(self)@.generation == old(self)@.generation,
    {
        let v = self.index_vertex_mut(source);
        Edge { source: v, sink }
    }

    /// A mutable view of the vertex the given id names, or `None` when the id
    /// is stale or its slot was never allocated.
    #[must_use]
    pub fn vertex_mut(&mut self, id: Id) -> (r: Option<&mut Vertex<V, E>>)
        ensures
            (match r {
                Some(m) => {
                    &&& old(self)@.live(id)
                    &&& (*m)@ == old(self)@.vertex_at(id)
                    &&& final(self)@.slots =~= old(self)@.slots.update(
                        id.spec_index() as int,
                        Some((*final(m))@),
                    )
                    &&& final(self)@.holes == old(self)@.holes
                    &&& final(self)@.generation == old(self)@.generation
                },
                None => !old(self)@.live(id) && final(self)@ == old(self)@,
            }),
    {
        if self.has_vertex(id) {
            Some(self.index_vertex_mut(id))
        } else {
            None
        }
    }
}

impl<V: Clone, E> PGraph<V, E> {
    /// A mutable view of the data of the vertex the given id names; the
    /// caller must already know the id to be live. Mirrors unchecked
    /// indexing. The shared payload is copied first when other graph versions
    /// still hold it.
    #[must_use]
    pub fn index_data_mut(&mut self, id: Id) -> (r: &mut V)
        requires
            old(self)@.live(id),
        ensures
            old(self)@.wf() ==> final(self)@.wf(),
            cloned::<V>(old(self)@.data_of(id), *r),
            final(self)@.slots =~= old(self)@.slots.update(
                id.spec_index() as int,
                Some(
                    (VertexView {
                        vid: id,
                        data: *final(r),
                        adj: old(self)@.vertex_at(id).adj,
                    }),
                ),
            ),
            final(self)@.holes == old(self)@.holes,
            final(self)@.generation == old(self)@.generation,
    {
        let ghost pre = self@;
        let v = self.index_vertex_mut(id);
        let r = v.data_mut();
        r
    }

    /// A mutable view of the data of the vertex the given id names, or `None`
    /// when there is no such vertex.
    #[must_use]
    pub fn vertex_data_mut(&mut self, id: Id) -> (r: Option<&mut V>)
        ensures
            (match r {
                Some(m) => {
                    &&& old(self)@.live(id)
                    &&& (old(self)@.wf() ==> final(self)@.wf())
                    &&& cloned::<V>(old(self)@.data_of(id), *m)
                    &&& final(self)@.slots =~= old(self)@.slots.update(
                        id.spec_index() as int,
                        Some(
                            (VertexView {
                                vid: id,
                                data: *final(m),
                                adj: old(self)@.vertex_at(id).adj,
                            }),
                        ),
                    )
                    &&& final(self)@.holes == old(self)@.holes
                    &&& final(self)@.generation == old(self)@.generation
                },
                None => !old(self)@.live(id) && final(self)@ == old(self)@,
            }),
    {
        if self.has_vertex(id) {
            Some(self.index_data_mut(id))
        } else {
            None
        }
    }
}

impl<V, E: Clone> PGraph<V, E> {
    /// A mutable view of the weight of the edge from `source` to `sink`; the
    /// caller must already know the edge to exist. Mirrors unchecked
    /// indexing. The shared weight is copied first when other graph versions
    /// still hold it.
    #[must_use]
    pub fn index_weight_mut(&mut self, source: Id, sink: Id) -> (r: &mut E)
        requires
            old(self)@.has_edge(source, sink),
        ensures
            old(self)@.wf() ==> final(self)@.wf(),
            cloned::<E>(old(self)@.weight_of(source, sink), *r),
            final(self)@.slots =~~= old(self)@.slots.update(
                source.spec_index() as int,
                Some(
                    (VertexView {
                        vid: source,
                        data: old(self)@.data_of(source),
                        adj: old(self)@.vertex_at(source).adj.update(
                            sink.spec_index() as int,
                            Some((sink, *final(r))),
                        ),
                    }),
                ),
            ),
            final(self)@.holes == old(self)@.holes,
            final(self)@.generation == old(self)@.generation,
    {
        let ghost pre = self@;
        let v = self.index_vertex_mut(source);
        let r = match v.weight_mut(sink) {
            Some(m) => m,
            None => vstd::pervasive::unreached(),
        };
        r
    }

    /// A mutable view of the weight of the edge from `source` to `sink`, or
    /// `None` when there is no such edge.
    #[must_use]
    pub fn weight_mut(&mut self, source: Id, sink: Id) -> (r: Option<&mut E>)
        ensures
            (match r {
                Some(m) => {
                    &&& old(self)@.has_edge(source, sink)
                    &&& (old(self)@.wf() ==> final(self)@.wf())
                    &&& cloned::<E>(old(self)@.weight_of(source, sink), *m)
                    &&& final(self)@.slots =~~= old(self)@.slots.update(
                        source.spec_index() as int,
                        Some(
                            (VertexView {
                                vid: source,
                                data: old(self)@.data_of(source),
                                adj: old(self)@.vertex_at(source).adj.update(
                                    sink.spec_index() as int,
                                    Some((sink, *final(m))),
                                ),
                            }),
                        ),
                    )
                    &&& final(self)@.holes == old(self)@.holes
                    &&& final(self)@.generation == old(self)@.generation
                },
                None => !old(self)@.has_edge(source, sink) && final(self)@ == old(self)@,
            }),
    {
        if self.has_edge(source, sink) {
            Some(self.index_weight_mut(source, sink))
        } else {
            None
        }
    }
}

impl<V, E> PGraph<V, E> {
    /// The ids of all live vertices, in slot order, skipping holes.
    #[must_use]
    pub fn ids(&self) -> (r: Vec<Id>)
        ensures
            r@ == self@.live_id_seq(),
    {
        let mut out: Vec<Id> = Vec::new();
        let mut i: usize = 0;
        while i < self.guts.len()
            invariant
                i <= self@.slots.len(),
                out@ == self@.live_ids_upto(i as int),
            decreases self@.slots.len() - i,
        {
            match &self.guts[i] {
                Some(v) => {
                    out.push(v.id());
                },
                None => {},
            }
            i += 1;
            proof {
                assert(out@ =~= self@.live_ids_upto(i as int));
            }
        }
        out
    }

    /// The data of all live vertices, in slot order, skipping holes.
    #[must_use]
    pub fn iter_data(&self) -> (r: Vec<&V>)
        ensures
            r@.len() == self@.live_data_seq().len(),
            forall|k: int|
                0 <= k < r@.len() ==> *(#[trigger] r@[k]) == self@.live_data_seq()[k],
    {
        let mut out: Vec<&V> = Vec::new();
        let mut i: usize = 0;
        while i < self.guts.len()
            invariant
                i <= self@.slots.len(),
                out@.len() == self@.live_data_upto(i as int).len(),
                forall|k: int|
                    0 <= k < out@.len() ==> *(#[trigger] out@[k]) == self@.live_data_upto(
                        i as int,
                    )[k],
            decreases self@.slots.len() - i,
        {
            match &self.guts[i] {
                Some(v) => {
                    out.push(v.data());
                },
                None => {},
            }
            i += 1;
        }
        out
    }

    /// The weights of every edge in the graph, in slot order, each vertex's
    /// outgoing edges in sink-slot order.
    #[must_use]
    #[verifier::loop_isolation(false)]
    pub fn iter_weights(&self) -> (r: Vec<&E>)
        ensures
            r@.len() == self@.weight_seq().len(),
            forall|k: int| 0 <= k < r@.len() ==> *(#[trigger] r@[k]) == self@.weight_seq()[k],
    {
        let mut out: Vec<&E> = Vec::new();
        let mut i: usize = 0;
        while i < self.guts.len()
            invariant
                i <= self@.slots.len(),
                out@.len() == self@.weights_upto(i as int).len(),
                forall|k: int|
                    0 <= k < out@.len() ==> *(#[trigger] out@[k]) == self@.weights_upto(
                        i as int,
                    )[k],
            decreases self@.slots.len() - i,
        {
            match &self.guts[i] {
                Some(v) => {
                    let es = v.edges();
                    let ghost base = self@.weights_upto(i as int);
                    let ghost tail = table_entry_seq(self@.slots[i as int]->Some_0.adj).map_values(
                        |pr: (Id, E)| pr.1,
                    );
                    let mut j: usize = 0;
                    while j < es.len()
                        invariant
                            j <= es@.len(),
                            out@.len() == base.len() + j,
                            forall|k: int|
                                0 <= k < base.len() ==> *(#[trigger] out@[k]) == base[k],
                            forall|k: int|
                                0 <= k < j ==> *(#[trigger] out@[base.len() + k]) == tail[k],
                        decreases es@.len() - j,
                    {
                        out.push(es[j].1);
                        proof {
                            assert(self@.slots[i as int] == Some(v@));
                            assert(es@[j as int].0 == table_entry_seq(v@.adj)[j as int].0);
                            assert(*es@[j as int].1 == table_entry_seq(v@.adj)[j as int].1);
                            assert(tail[j as int] == table_entry_seq(
                                self@.slots[i as int]->Some_0.adj,
                            )[j as int].1);
                        }
                        j += 1;
                    }
                    proof {
                        assert(self@.weights_upto(i as int + 1) =~= base + tail);
                        assert forall|k: int|
                            0 <= k < out@.len() implies *(#[trigger] out@[k]) == (base + tail)[k] by {
                            if k >= base.len() {
                                assert(*out@[base.len() + (k - base.len())] == tail[k
                                    - base.len()]);
                            }
                        }
                    }
                },
                None => {
                    proof {
                        assert(self@.weights_upto(i as int + 1) =~= self@.weights_upto(i as int));
                    }
                },
            }
            i += 1;
        }
        out
    }

    /// Every edge in the graph as `(source, sink, weight reference)` triples,
    /// in slot order, each vertex's outgoing edges in sink-slot order.
    #[must_use]
    #[verifier::loop_isolation(false)]
    pub fn edges(&self) -> (r: Vec<(Id, Id, &E)>)
        ensures
            r@.len() == self@.edge_seq().len(),
            forall|k: int|
                0 <= k < r@.len() ==> (#[trigger] r@[k]).0 == self@.edge_seq()[k].0 && r@[k].1
                    == self@.edge_seq()[k].1 && *r@[k].2 == self@.edge_seq()[k].2,
    {
        let mut out: Vec<(Id, Id, &E)> = Vec::new();
        let mut i: usize = 0;
        while i < self.guts.len()
            invariant
                i <= self@.slots.len(),
                out@.len() == self@.edges_upto(i as int).len(),
                forall|k: int|
                    0 <= k < out@.len() ==> (#[trigger] out@[k]).0 == self@.edges_upto(
                        i as int,
                    )[k].0 && out@[k].1 == self@.edges_upto(i as int)[k].1 && *out@[k].2
                        == self@.edges_upto(i as int)[k].2,
            decreases self@.slots.len() - i,
        {
            match &self.guts[i] {
                Some(v) => {
                    let source = v.id();
                    let es = v.edges();
                    let ghost base = self@.edges_upto(i as int);
                    let ghost tail = table_entry_seq(self@.slots[i as int]->Some_0.adj).map_values(
                        |pr: (Id, E)| (self@.slots[i as int]->Some_0.vid, pr.0, pr.1),
                    );
                    let mut j: usize = 0;
                    while j < es.len()
                        invariant
                            j <= es@.len(),
                            out@.len() == base.len() + j,
                            forall|k: int|
                                0 <= k < base.len() ==> (#[trigger] out@[k]).0 == base[k].0
                                    && out@[k].1 == base[k].1 && *out@[k].2 == base[k].2,
                            forall|k: int|
                                0 <= k < j ==> (#[trigger] out@[base.len() + k]).0 == tail[k].0
                                    && out@[base.len() + k].1 == tail[k].1 && *out@[base.len()
                                    + k].2 == tail[k].2,
                        decreases es@.len() - j,
                    {
                        out.push((source, es[j].0, es[j].1));
                        j += 1;
                    }
                    proof {
                        assert(self@.edges_upto(i as int + 1) =~= base + tail);
                        assert forall|k: int|
                            0 <= k < out@.len() implies (#[trigger] out@[k]).0 == (base + tail)[k].0
                            && out@[k].1 == (base + tail)[k].1 && *out@[k].2 == (base
                            + tail)[k].2 by {
                            if k >= base.len() {
                                let k2 = k - base.len();
                                assert((out@[base.len() + k2]).0 == tail[k2].0);
                                assert((out@[base.len() + k2]).1 == tail[k2].1);
                                assert(*out@[base.len() + k2].2 == tail[k2].2);
                            }
                        }
                    }
                },
                None => {
                    proof {
                        assert(self@.edges_upto(i as int + 1) =~= self@.edges_upto(i as int));
                    }
                },
            }
            i += 1;
        }
        out
    }

    /// The edges leaving `source` as `(source, sink, weight reference)`
    /// triples in sink-slot order; empty when `source` is not live.
    #[must_use]
    #[verifier::loop_isolation(false)]
    pub fn outbound_edges(&self, source: Id) -> (r: Vec<(Id, Id, &E)>)
        ensures
            (if self@.live(source) {
                r@.len() == table_entry_seq(self@.vertex_at(source).adj).len() && (forall|k: int|
                    0 <= k < r@.len() ==> (#[trigger] r@[k]).0 == source && r@[k].1
                        == table_entry_seq(self@.vertex_at(source).adj)[k].0 && *r@[k].2
                        == table_entry_seq(self@.vertex_at(source).adj)[k].1)
            } else {
                r@.len() == 0
            }),
    {
        match self.vertex(source) {
            Some(v) => {
                let es = v.edges();
                let ghost tail = table_entry_seq(self@.vertex_at(source).adj);
                let mut out: Vec<(Id, Id, &E)> = Vec::new();
                let mut j: usize = 0;
                while j < es.len()
                    invariant
                        j <= es@.len(),
                        out@.len() == j,
                        forall|k: int|
                            0 <= k < j ==> (#[trigger] out@[k]).0 == source && out@[k].1
                                == tail[k].0 && *out@[k].2 == tail[k].1,
                    decreases es@.len() - j,
                {
                    out.push((source, es[j].0, es[j].1));
                    j += 1;
                }
                out
            },
            None => Vec::new(),
        }
    }

    /// The ids of the vertices that `source` has an edge to, in sink-slot
    /// order; empty when `source` is not live.
    #[must_use]
    pub fn outbound_ids(&self, source: Id) -> (r: Vec<Id>)
        ensures
            (if self@.live(source) {
                r@.len() == table_entry_seq(self@.vertex_at(source).adj).len() && (forall|k: int|
                    0 <= k < r@.len() ==> #[trigger] r@[k] == table_entry_seq(
                        self@.vertex_at(source).adj,
                    )[k].0)
            } else {
                r@.len() == 0
            }),
    {
        match self.vertex(source) {
            Some(v) => v.neighbor_ids(),
            None => Vec::new(),
        }
    }

    /// Every edge that ends at `sink`, as `(source, sink, weight reference)`
    /// triples in source-slot order.
    #[must_use]
    #[verifier::loop_isolation(false)]
    pub fn predecessors(&self, sink: Id) -> (r: Vec<(Id, Id, &E)>)
        ensures
            r@.len() == self@.pred_seq(sink).len(),
            forall|k: int|
                0 <= k < r@.len() ==> (#[trigger] r@[k]).0 == self@.pred_seq(sink)[k].0 && r@[k].1
                    == sink && *r@[k].2 == self@.pred_seq(sink)[k].1,
    {
        let mut out: Vec<(Id, Id, &E)> = Vec::new();
        let mut i: usize = 0;
        while i < self.guts.len()
            invariant
                i <= self@.slots.len(),
                out@.len() == self@.preds_upto(sink, i as int).len(),
                forall|k: int|
                    0 <= k < out@.len() ==> (#[trigger] out@[k]).0 == self@.preds_upto(
                        sink,
                        i as int,
                    )[k].0 && out@[k].1 == sink && *out@[k].2 == self@.preds_upto(
                        sink,
                        i as int,
                    )[k].1,
            decreases self@.slots.len() - i,
        {
            match &self.guts[i] {
                Some(v) => {
                    match v.weight(sink) {
                        Some(w) => {
                            out.push((v.id(), sink, w));
                        },
                        None => {},
                    }
                },
                None => {},
            }
            i += 1;
        }
        out
    }

    /// The ids of the vertices with an edge that ends at `sink`, in
    /// source-slot order.
    #[must_use]
    #[verifier::loop_isolation(false)]
    pub fn predecessor_ids(&self, sink: Id) -> (r: Vec<Id>)
        ensures
            r@.len() == self@.pred_seq(sink).len(),
            forall|k: int|
                0 <= k < r@.len() ==> #[trigger] r@[k] == self@.pred_seq(sink)[k].0,
    {
        let mut out: Vec<Id> = Vec::new();
        let mut i: usize = 0;
        while i < self.guts.len()
            invariant
                i <= self@.slots.len(),
                out@.len() == self@.preds_upto(sink, i as int).len(),
                forall|k: int|
                    0 <= k < out@.len() ==> #[trigger] out@[k] == self@.preds_upto(
                        sink,
                        i as int,
                    )[k].0,
            decreases self@.slots.len() - i,
        {
            match &self.guts[i] {
                Some(v) => {
                    if v.is_connected(sink) {
                        out.push(v.id());
                    }
                },
                None => {},
            }
            i += 1;
        }
        out
    }

    /// The dense position of a live vertex: its slot index minus the number
    /// of holes below it. Together with [`Self::from_index`] this exposes the
    /// live vertices as a compact `0..n` range.
    #[must_use]
    pub fn to_index(&self, id: Id) -> (r: usize)
        requires
            self@.wf(),
            self@.live(id),
        ensures
            r == id.spec_index() - self@.holes_below(id.spec_index() as int),
    {
        let idx = id.get_index();
        let mut count: usize = 0;
        let mut j: usize = 0;
        while j < idx
            invariant
                self@.wf(),
                j <= idx,
                idx < self@.slots.len(),
                count <= j,
                count == self@.holes_below(j as int),
            decreases idx - j,
        {
            match &self.guts[j] {
                Some(_) => {},
                None => {
                    count += 1;
                },
            }
            j += 1;
        }
        idx - count
    }

    /// The id stored in the `i`-th live slot, counting in slot order and
    /// skipping holes. The inverse of [`Self::to_index`] for live vertices.
    #[must_use]
    #[verifier::loop_isolation(false)]
    pub fn from_index(&self, i: usize) -> (r: Id)
        requires
            i < self@.live_id_seq().len(),
        ensures
            r == self@.live_id_seq()[i as int],
    {
        let mut seen: usize = 0;
        let mut j: usize = 0;
        while j < self.guts.len()
            invariant
                j <= self@.slots.len(),
                seen == self@.live_ids_upto(j as int).len(),
                seen <= i,
            decreases self@.slots.len() - j,
        {
            match &self.guts[j] {
                Some(v) => {
                    if seen == i {
                        proof {
                            lemma_live_ids_prefix(
                                self@,
                                j as int + 1,
                                self@.slots.len() as int,
                            );
                            assert(self@.live_ids_upto(j as int + 1)[i as int] == v@.vid);
                        }
                        return v.id();
                    }
                    seen += 1;
                },
                None => {},
            }
            j += 1;
            proof {
                if seen > i {
                    assert(false);
                }
            }
        }
        proof {
            assert(seen == self@.live_id_seq().len());
            assert(false);
        }
        vstd::pervasive::unreached()
    }
}

impl<V: Clone, E: Clone> PGraph<V, E> {
    /// Rebuilds the graph from scratch with zero holes and entirely fresh
    /// ids: the `k`-th live vertex of the old graph (in slot order) becomes
    /// the vertex in slot `k` of the new graph, carrying a clone of its data,
    /// and every edge is replayed between the corresponding new ids. All
    /// previously held ids are foreign to the result by design.
    #[must_use]
    #[verifier::loop_isolation(false)]
    #[verifier::rlimit(60)]
    pub fn recreate(&self) -> (r: Self)
        requires
            self@.wf(),
        ensures
            r@.wf(),
            r@.holes == Set::<usize>::empty(),
            r@.slots.len() == self@.live_id_seq().len(),
            forall|k: int| 0 <= k < r@.slots.len() ==> #[trigger] r@.occupied(k),
            r@.live_id_seq().len() == self@.live_id_seq().len(),
            forall|k: int|
                0 <= k < r@.slots.len() ==> #[trigger] r@.live(r@.live_id_seq()[k]),
            forall|k: int|
                0 <= k < r@.slots.len() ==> cloned::<V>(
                    self@.data_of(self@.live_id_seq()[k]),
                    r@.data_of(#[trigger] r@.live_id_seq()[k]),
                ),
            forall|j: int, k: int|
                0 <= j < r@.slots.len() && 0 <= k < r@.slots.len()
                    ==> #[trigger] r@.has_edge(r@.live_id_seq()[j], r@.live_id_seq()[k])
                    == self@.has_edge(self@.live_id_seq()[j], self@.live_id_seq()[k]),
            forall|j: int, k: int|
                0 <= j < r@.slots.len() && 0 <= k < r@.slots.len() && self@.has_edge(
                    self@.live_id_seq()[j],
                    self@.live_id_seq()[k],
                ) ==> cloned::<E>(
                    self@.weight_of(self@.live_id_seq()[j], self@.live_id_seq()[k]),
                    #[trigger] r@.weight_of(r@.live_id_seq()[j], r@.live_id_seq()[k]),
                ),
    {
        let mut result = Self::new();
        let mut map: Vec<Option<Id>> = Vec::new();
        let mut i: usize = 0;
        while i < self.guts.len()
            invariant
                result@.wf(),
                result@.holes == Set::<usize>::empty(),
                map@.len() == i,
                i <= self@.slots.len(),
                result@.slots.len() == self@.live_ids_upto(i as int).len(),
                forall|k: int|
                    0 <= k < result@.slots.len() ==> (#[trigger] result@.slots[k]) is Some,
                forall|a: int|
                    0 <= a < i ==> ((#[trigger] map@[a]) is Some <==> self@.slots[a] is Some),
                forall|a: int|
                    0 <= a < i && self@.slots[a] is Some
                        ==> (#[trigger] map@[a])->Some_0.spec_index() == self@.live_ids_upto(
                        a,
                    ).len() && result@.live(map@[a]->Some_0) && cloned::<V>(
                        self@.slots[a]->Some_0.data,
                        result@.data_of(map@[a]->Some_0),
                    ) && result@.vertex_at(map@[a]->Some_0).adj.len() == 0,
            decreases self@.slots.len() - i,
        {
            let ghost step_pre = result@;
            match &self.guts[i] {
                Some(v) => {
                    let d = v.data().clone();
                    let nid = result.add_mut(d);
                    map.push(Some(nid));
                    proof {
                        assert(result@.holes =~= Set::<usize>::empty());
                        assert(nid.spec_index() == step_pre.slots.len());
                        assert(self@.live_ids_upto(i as int + 1).len() == self@.live_ids_upto(
                            i as int,
                        ).len() + 1);
                        assert forall|a: int|
                            0 <= a < i && self@.slots[a] is Some implies (#[trigger] map@[a])->Some_0.spec_index()
                            == self@.live_ids_upto(a).len() && result@.live(map@[a]->Some_0)
                            && cloned::<V>(
                            self@.slots[a]->Some_0.data,
                            result@.data_of(map@[a]->Some_0),
                        ) && result@.vertex_at(map@[a]->Some_0).adj.len() == 0 by {
                            let pid = map@[a]->Some_0;
                            assert(step_pre.live(pid));
                            assert(pid.spec_index() != nid.spec_index());
                            assert(result@.slots[pid.spec_index() as int]
                                == step_pre.slots[pid.spec_index() as int]);
                        }
                    }
                },
                None => {
                    map.push(None);
                    proof {
                        assert(self@.live_ids_upto(i as int + 1) =~= self@.live_ids_upto(
                            i as int,
                        ));
                    }
                },
            }
            i += 1;
        }
        let ghost n = result@.slots.len() as int;
        proof {
            assert(self@.live_id_seq().len() == n);
        }
        let mut i2: usize = 0;
        while i2 < self.guts.len()
            invariant
                result@.wf(),
                result@.holes == Set::<usize>::empty(),
                i2 <= self@.slots.len(),
                result@.slots.len() == n,
                map@.len() == self@.slots.len(),
                forall|k: int|
                    0 <= k < result@.slots.len() ==> (#[trigger] result@.slots[k]) is Some,
                forall|a: int|
                    0 <= a < map@.len() ==> ((#[trigger] map@[a]) is Some <==> self@.slots[a] is Some),
                forall|a: int|
                    0 <= a < map@.len() && self@.slots[a] is Some
                        ==> (#[trigger] map@[a])->Some_0.spec_index() == self@.live_ids_upto(
                        a,
                    ).len() && result@.live(map@[a]->Some_0) && cloned::<V>(
                        self@.slots[a]->Some_0.data,
                        result@.data_of(map@[a]->Some_0),
                    ),
                forall|a: int, b: int|
                    0 <= a < map@.len() && 0 <= b < map@.len() && self@.slots[a] is Some
                        && self@.slots[b] is Some && a < i2
                        ==> #[trigger] result@.has_edge(map@[a]->Some_0, map@[b]->Some_0)
                        == self@.has_edge(
                        self@.slots[a]->Some_0.vid,
                        self@.slots[b]->Some_0.vid,
                    ),
                forall|a: int, b: int|
                    0 <= a < map@.len() && 0 <= b < map@.len() && self@.slots[a] is Some
                        && self@.slots[b] is Some && a < i2 && self@.has_edge(
                        self@.slots[a]->Some_0.vid,
                        self@.slots[b]->Some_0.vid,
                    ) ==> cloned::<E>(
                        self@.weight_of(
                            self@.slots[a]->Some_0.vid,
                            self@.slots[b]->Some_0.vid,
                        ),
                        #[trigger] result@.weight_of(map@[a]->Some_0, map@[b]->Some_0),
                    ),
                forall|a: int, b: int|
                    0 <= a < map@.len() && 0 <= b < map@.len() && self@.slots[a] is Some
                        && self@.slots[b] is Some && a >= i2 ==> !(
                    #[trigger] result@.has_edge(map@[a]->Some_0, map@[b]->Some_0)),
            decreases self@.slots.len() - i2,
        {
            match &self.guts[i2] {
                Some(v) => {
                    let es = v.edges();
                    let nsource = match &map[i2] {
                        Some(x) => *x,
                        None => vstd::pervasive::unreached(),
                    };
                    proof {
                        lemma_table_entry_seq_props(v@.adj);
                        assert(self@.slots[i2 as int] == Some(v@));
                    }
                    let ghost tes = table_entry_seq(v@.adj);
                    let mut j: usize = 0;
                    while j < es.len()
                        invariant
                            j <= es@.len(),
                            result@.wf(),
                            result@.holes == Set::<usize>::empty(),
                            result@.slots.len() == n,
                            forall|k: int|
                                0 <= k < result@.slots.len() ==> (#[trigger] result@.slots[k]) is Some,
                            forall|a: int|
                                0 <= a < map@.len() && self@.slots[a] is Some
                                    ==> result@.live((#[trigger] map@[a])->Some_0) && cloned::<V>(
                                    self@.slots[a]->Some_0.data,
                                    result@.data_of(map@[a]->Some_0),
                                ),
                            forall|a: int, b: int|
                                0 <= a < map@.len() && 0 <= b < map@.len() && self@.slots[a] is Some
                                    && self@.slots[b] is Some && a < i2
                                    ==> #[trigger] result@.has_edge(
                                    map@[a]->Some_0,
                                    map@[b]->Some_0,
                                ) == self@.has_edge(
                                    self@.slots[a]->Some_0.vid,
                                    self@.slots[b]->Some_0.vid,
                                ),
                            forall|a: int, b: int|
                                0 <= a < map@.len() && 0 <= b < map@.len() && self@.slots[a] is Some
                                    && self@.slots[b] is Some && a < i2 && self@.has_edge(
                                    self@.slots[a]->Some_0.vid,
                                    self@.slots[b]->Some_0.vid,
                                ) ==> cloned::<E>(
                                    self@.weight_of(
                                        self@.slots[a]->Some_0.vid,
                                        self@.slots[b]->Some_0.vid,
                                    ),
                                    #[trigger] result@.weight_of(
                                        map@[a]->Some_0,
                                        map@[b]->Some_0,
                                    ),
                                ),
                            forall|a: int, b: int|
                                0 <= a < map@.len() && 0 <= b < map@.len() && self@.slots[a] is Some
                                    && self@.slots[b] is Some && a > i2 ==> !(
                                #[trigger] result@.has_edge(map@[a]->Some_0, map@[b]->Some_0)),
                            forall|b: int|
                                0 <= b < map@.len() && self@.slots[b] is Some
                                    ==> #[trigger] result@.has_edge(nsource, map@[b]->Some_0) == (
                                exists|k: int|
                                    0 <= k < j && (#[trigger] tes[k]).0
                                        == self@.slots[b]->Some_0.vid),
                            forall|b: int|
                                0 <= b < map@.len() && self@.slots[b] is Some && result@.has_edge(
                                    nsource,
                                    map@[b]->Some_0,
                                ) ==> cloned::<E>(
                                    table_weight(v@.adj, self@.slots[b]->Some_0.vid),
                                    #[trigger] result@.weight_of(nsource, map@[b]->Some_0),
                                ),
                        decreases es@.len() - j,
                    {
                        let sink = es[j].0;
                        let wclone = es[j].1.clone();
                        proof {
                            assert(es@[j as int].0 == tes[j as int].0);
                            assert(table_has_edge(v@.adj, sink));
                            assert(self@.live(sink));
                            assert(map@[sink.spec_index() as int] is Some);
                        }
                        let nsink = match &map[sink.get_index()] {
                            Some(x) => *x,
                            None => vstd::pervasive::unreached(),
                        };
                        let ghost conn_pre = result@;
                        result.connect_mut(nsource, nsink, wclone);
                        proof {
                            assert(result@.holes =~= Set::<usize>::empty());
                            assert forall|a: int, b: int|
                                0 <= a < map@.len() && 0 <= b < map@.len() && self@.slots[a] is Some
                                    && self@.slots[b] is Some && a != i2 implies (
                            #[trigger] result@.has_edge(map@[a]->Some_0, map@[b]->Some_0)
                                == conn_pre.has_edge(map@[a]->Some_0, map@[b]->Some_0)) && (
                            conn_pre.has_edge(map@[a]->Some_0, map@[b]->Some_0)
                                ==> result@.weight_of(map@[a]->Some_0, map@[b]->Some_0)
                                == conn_pre.weight_of(map@[a]->Some_0, map@[b]->Some_0)) by {
                                if map@[a]->Some_0 == nsource {
                                    lemma_rank_strict(self@, if a < i2 as int { a } else { i2 as int }, if a < i2 as int { i2 as int } else { a });
                                    assert(false);
                                }
                            }
                            assert(cloned::<E>(*es@[j as int].1, wclone));
                            assert(es@[j as int].0 == tes[j as int].0);
                            assert(*es@[j as int].1 == tes[j as int].1);
                            assert(table_weight(v@.adj, sink) == tes[j as int].1);
                            assert(result@.weight_of(nsource, nsink) == wclone);
                            assert forall|b: int|
                                0 <= b < map@.len() && self@.slots[b] is Some
                                    && result@.has_edge(nsource, map@[b]->Some_0) implies cloned::<
                                E,
                            >(
                                table_weight(v@.adj, self@.slots[b]->Some_0.vid),
                                #[trigger] result@.weight_of(nsource, map@[b]->Some_0),
                            ) by {
                                let nb = map@[b]->Some_0;
                                let bid = self@.slots[b]->Some_0.vid;
                                if nb == nsink {
                                    if b != sink.spec_index() {
                                        lemma_rank_strict(
                                            self@,
                                            if b < sink.spec_index() as int {
                                                b
                                            } else {
                                                sink.spec_index() as int
                                            },
                                            if b < sink.spec_index() as int {
                                                sink.spec_index() as int
                                            } else {
                                                b
                                            },
                                        );
                                        assert(false);
                                    }
                                    assert(bid == sink);
                                } else {
                                    assert(result@.weight_of(nsource, nb) == conn_pre.weight_of(
                                        nsource,
                                        nb,
                                    ));
                                    assert(conn_pre.has_edge(nsource, nb));
                                }
                            }
                            assert forall|b: int|
                                0 <= b < map@.len() && self@.slots[b] is Some implies #[trigger] result@.has_edge(
                                nsource,
                                map@[b]->Some_0,
                            ) == (exists|k: int|
                                0 <= k < j + 1 && (#[trigger] tes[k]).0
                                    == self@.slots[b]->Some_0.vid) by {
                                let bid = self@.slots[b]->Some_0.vid;
                                let nb = map@[b]->Some_0;
                                if nb == nsink {
                                    assert(self@.live(sink));
                                    assert(self@.live(bid));
                                    assert(map@[b]->Some_0.spec_index() == self@.live_ids_upto(
                                        b,
                                    ).len());
                                    if b != sink.spec_index() {
                                        lemma_rank_strict(self@, if b < sink.spec_index() as int { b } else { sink.spec_index() as int }, if b < sink.spec_index() as int { sink.spec_index() as int } else { b });
                                        assert(false);
                                    }
                                    assert(bid == sink);
                                    assert(tes[j as int].0 == bid);
                                } else {
                                    if exists|k: int|
                                        0 <= k < j + 1 && (#[trigger] tes[k]).0 == bid {
                                        let k = choose|k: int|
                                            0 <= k < j + 1 && (#[trigger] tes[k]).0 == bid;
                                        if k == j {
                                            assert(bid == sink);
                                            assert(self@.slots[b] is Some);
                                            assert(b == sink.spec_index());
                                            assert(nb == nsink);
                                            assert(false);
                                        }
                                    }
                                }
                            }
                        }
                        j += 1;
                    }
                    proof {
                        assert forall|a: int, b: int|
                            0 <= a < map@.len() && 0 <= b < map@.len() && self@.slots[a] is Some
                                && self@.slots[b] is Some && a < i2 + 1 implies (
                        #[trigger] result@.has_edge(map@[a]->Some_0, map@[b]->Some_0)
                            == self@.has_edge(
                            self@.slots[a]->Some_0.vid,
                            self@.slots[b]->Some_0.vid,
                        )) by {
                            if a == i2 as int {
                                let bid = self@.slots[b]->Some_0.vid;
                                if self@.has_edge(v@.vid, bid) {
                                    assert(table_has_edge(v@.adj, bid));
                                }
                                if exists|k: int|
                                    0 <= k < es@.len() && (#[trigger] tes[k]).0 == bid {
                                    let k = choose|k: int|
                                        0 <= k < es@.len() && (#[trigger] tes[k]).0 == bid;
                                    assert(table_has_edge(v@.adj, tes[k].0));
                                }
                            }
                        }
                    }
                },
                None => {},
            }
            i2 += 1;
        }
        proof {
            let rv = result@;
            let sv = self@;
            lemma_dense_live_ids(rv, n);
            assert(rv.live_id_seq().len() == n);
            assert forall|k: int| 0 <= k < n implies #[trigger] rv.live(rv.live_id_seq()[k]) by {
                assert(rv.live_id_seq()[k] == rv.slots[k]->Some_0.vid);
            }
            assert forall|k: int| 0 <= k < n implies cloned::<V>(
                sv.data_of(sv.live_id_seq()[k]),
                rv.data_of(#[trigger] rv.live_id_seq()[k]),
            ) by {
                lemma_rank_witness(sv, sv.slots.len() as int, k);
                let a = choose|a: int|
                    0 <= a < sv.slots.len() && #[trigger] sv.occupied(a) && sv.live_ids_upto(
                        a,
                    ).len() == k && sv.slots[a]->Some_0.vid == sv.live_ids_upto(
                        sv.slots.len() as int,
                    )[k];
                assert(map@[a] is Some);
                assert(map@[a]->Some_0.spec_index() == k);
                assert(rv.live(map@[a]->Some_0));
                assert(rv.live_id_seq()[k] == rv.slots[k]->Some_0.vid);
                assert(rv.slots[k]->Some_0.vid == map@[a]->Some_0);
                assert(sv.live_id_seq()[k] == sv.slots[a]->Some_0.vid);
                assert(sv.data_of(sv.live_id_seq()[k]) == sv.slots[a]->Some_0.data);
            }
            assert forall|j: int, k: int|
                0 <= j < n && 0 <= k < n implies #[trigger] rv.has_edge(
                rv.live_id_seq()[j],
                rv.live_id_seq()[k],
            ) == sv.has_edge(sv.live_id_seq()[j], sv.live_id_seq()[k]) by {
                lemma_rank_witness(sv, sv.slots.len() as int, j);
                let a = choose|a: int|
                    0 <= a < sv.slots.len() && #[trigger] sv.occupied(a) && sv.live_ids_upto(
                        a,
                    ).len() == j && sv.slots[a]->Some_0.vid == sv.live_ids_upto(
                        sv.slots.len() as int,
                    )[j];
                lemma_rank_witness(sv, sv.slots.len() as int, k);
                let b = choose|b: int|
                    0 <= b < sv.slots.len() && #[trigger] sv.occupied(b) && sv.live_ids_upto(
                        b,
                    ).len() == k && sv.slots[b]->Some_0.vid == sv.live_ids_upto(
                        sv.slots.len() as int,
                    )[k];
                assert(rv.live_id_seq()[j] == rv.slots[j]->Some_0.vid);
                assert(rv.slots[j]->Some_0.vid == map@[a]->Some_0);
                assert(rv.live_id_seq()[k] == rv.slots[k]->Some_0.vid);
                assert(rv.slots[k]->Some_0.vid == map@[b]->Some_0);
            }
            assert forall|j: int, k: int|
                0 <= j < n && 0 <= k < n && sv.has_edge(
                    sv.live_id_seq()[j],
                    sv.live_id_seq()[k],
                ) implies cloned::<E>(
                sv.weight_of(sv.live_id_seq()[j], sv.live_id_seq()[k]),
                #[trigger] rv.weight_of(rv.live_id_seq()[j], rv.live_id_seq()[k]),
            ) by {
                lemma_rank_witness(sv, sv.slots.len() as int, j);
                let a = choose|a: int|
                    0 <= a < sv.slots.len() && #[trigger] sv.occupied(a) && sv.live_ids_upto(
                        a,
                    ).len() == j && sv.slots[a]->Some_0.vid == sv.live_ids_upto(
                        sv.slots.len() as int,
                    )[j];
                lemma_rank_witness(sv, sv.slots.len() as int, k);
                let b = choose|b: int|
                    0 <= b < sv.slots.len() && #[trigger] sv.occupied(b) && sv.live_ids_upto(
                        b,
                    ).len() == k && sv.slots[b]->Some_0.vid == sv.live_ids_upto(
                        sv.slots.len() as int,
                    )[k];
                assert(rv.live_id_seq()[j] == rv.slots[j]->Some_0.vid);
                assert(rv.slots[j]->Some_0.vid == map@[a]->Some_0);
                assert(rv.live_id_seq()[k] == rv.slots[k]->Some_0.vid);
                assert(rv.slots[k]->Some_0.vid == map@[b]->Some_0);
            }
        }
        result
    }
}

/// After an edge update bound to `(source, sink)`, any other pair's edge
/// presence and weight are unchanged: another source's slot was not touched,
/// and within `source`'s table only `sink`'s slot was, which by sink-liveness
/// could only have held an edge to `sink` itself.
proof fn lemma_edge_frame_after_connect<V, E>(
    pre: GraphView<V, E>,
    post: GraphView<V, E>,
    source: Id,
    sink: Id,
    s2: Id,
    t2: Id,
)
    requires
        pre.wf(),
        pre.live(source),
        pre.live(sink),
        post.slots.len() == pre.slots.len(),
        forall|j: int|
            0 <= j < post.slots.len() && j != source.spec_index() ==> post.slots[j]
                == pre.slots[j],
        post.slots[source.spec_index() as int] is Some,
        post.vertex_at(source).vid == source,
        post.vertex_at(source).adj.len() >= pre.vertex_at(source).adj.len(),
        (sink.spec_index() < post.vertex_at(source).adj.len() ==> match post.vertex_at(
            source,
        ).adj[sink.spec_index() as int] {
            Some(pr) => pr.0 == sink,
            None => true,
        }),
        forall|p: int|
            0 <= p < post.vertex_at(source).adj.len() && p != sink.spec_index()
                ==> #[trigger] post.vertex_at(source).adj[p] == (if p < pre.vertex_at(
                source,
            ).adj.len() {
                pre.vertex_at(source).adj[p]
            } else {
                Option::<(Id, E)>::None
            }),
        !(s2 == source && t2 == sink),
    ensures
        post.has_edge(s2, t2) == pre.has_edge(s2, t2),
        pre.has_edge(s2, t2) ==> post.weight_of(s2, t2) == pre.weight_of(s2, t2),
{
    if s2.spec_index() >= pre.slots.len() {
    } else if s2.spec_index() != source.spec_index() {
        assert(post.slots[s2.spec_index() as int] == pre.slots[s2.spec_index() as int]);
    } else if s2 != source {
        assert(!pre.live(s2));
        assert(!post.live(s2));
    } else {
        let oa = pre.vertex_at(source).adj;
        let pa = post.vertex_at(source).adj;
        if t2.spec_index() == sink.spec_index() {
            if pre.has_edge(s2, t2) {
                let pr0 = oa[t2.spec_index() as int]->Some_0.0;
                assert(pre.live(pr0));
                assert(pr0 == sink);
                assert(t2 == pr0);
                assert(false);
            }
        } else {
            if t2.spec_index() < oa.len() {
                assert(pa[t2.spec_index() as int] == oa[t2.spec_index() as int]);
            } else if t2.spec_index() < pa.len() {
                assert(pa[t2.spec_index() as int] is None);
            }
        }
    }
}

impl<V, E> Default for PGraph<V, E> {
    /// The default graph is a new, empty graph.
    fn default() -> (r: Self)
        ensures
            r@.wf(),
            r@.slots.len() == 0,
            r@.holes == Set::<usize>::empty(),
            r@.generation < usize::MAX,
    {
        Self::new()
    }
}

} // verus!
