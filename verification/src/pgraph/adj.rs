//! The per-vertex adjacency table: a sparse sequence indexed by the sink's
//! slot number. A populated entry at position `p` stores the sink's full id
//! (whose index must be `p`) and a shared edge weight; lookups re-validate the
//! sink's generation against the stored id, so a stale id never reads another
//! vertex's edge.

use vstd::prelude::*;
use std::sync::Arc;

use crate::id::Id;
use crate::sharing::arc_clone;
use crate::sharing::arc_make_mut;

verus! {

use vstd::pervasive::cloned;

/// A sparse map from sink slot number to `(sink id, shared weight)`.
pub(crate) struct AdjList<E> {
    edges: Vec<Option<(Id, Arc<E>)>>,
}

impl<E> View for AdjList<E> {
    type V = Seq<Option<(Id, E)>>;

    closed spec fn view(&self) -> Seq<Option<(Id, E)>> {
        Seq::new(
            self.edges@.len(),
            |i: int|
                match self.edges@[i] {
                    Some(pr) => Some((pr.0, *pr.1)),
                    None => None,
                },
        )
    }
}

/// A populated entry may stand only at the slot its stored sink id names.
pub open spec fn table_wf<E>(t: Seq<Option<(Id, E)>>) -> bool {
    forall|p: int|
        0 <= p < t.len() ==> match #[trigger] t[p] {
            Some(pr) => pr.0.spec_index() == p,
            None => true,
        }
}

/// Whether the table holds an edge to exactly this sink id (index and
/// generation both match).
pub open spec fn table_has_edge<E>(t: Seq<Option<(Id, E)>>, sink: Id) -> bool {
    &&& 0 <= sink.spec_index() < t.len()
    &&& match t[sink.spec_index() as int] {
        Some(pr) => pr.0 == sink,
        None => false,
    }
}

/// The weight stored for this sink (meaningful only when `table_has_edge`).
pub open spec fn table_weight<E>(t: Seq<Option<(Id, E)>>, sink: Id) -> E {
    t[sink.spec_index() as int]->Some_0.1
}

/// The populated entries of the table's first `n` positions, in slot order.
pub open spec fn table_entries_upto<E>(t: Seq<Option<(Id, E)>>, n: int) -> Seq<(Id, E)>
    decreases n,
{
    if n <= 0 {
        Seq::empty()
    } else {
        table_entries_upto(t, n - 1) + match t[n - 1] {
            Some(pr) => seq![pr],
            None => Seq::empty(),
        }
    }
}

/// The populated entries of the whole table, in slot order.
pub open spec fn table_entry_seq<E>(t: Seq<Option<(Id, E)>>) -> Seq<(Id, E)> {
    table_entries_upto(t, t.len() as int)
}

/// In a well-placed table, the entry sequence lists exactly the stored
/// edges: every listed entry stands in the table at its sink's slot, the
/// listed sinks strictly ascend by slot, and every edge of the table below
/// the cut-off appears in the list.
pub proof fn lemma_table_entries_upto_props<E>(t: Seq<Option<(Id, E)>>, n: int)
    requires
        table_wf(t),
        0 <= n <= t.len(),
    ensures
        forall|k: int|
            0 <= k < table_entries_upto(t, n).len()
                ==> 0 <= (#[trigger] table_entries_upto(t, n)[k]).0.spec_index() < n
                && t[table_entries_upto(t, n)[k].0.spec_index() as int] == Some(
                table_entries_upto(t, n)[k],
            ),
        forall|k1: int, k2: int|
            0 <= k1 < k2 < table_entries_upto(t, n).len() ==> (#[trigger] table_entries_upto(
                t,
                n,
            )[k1]).0.spec_index() < (#[trigger] table_entries_upto(t, n)[k2]).0.spec_index(),
        forall|t2: Id|
            #[trigger] table_has_edge(t, t2) && t2.spec_index() < n ==> exists|k: int|
                0 <= k < table_entries_upto(t, n).len() && table_entries_upto(t, n)[k].0 == t2,
    decreases n,
{
    if n > 0 {
        lemma_table_entries_upto_props(t, n - 1);
        let prev = table_entries_upto(t, n - 1);
        let cur = table_entries_upto(t, n);
        assert forall|t2: Id| #[trigger] table_has_edge(t, t2) && t2.spec_index() < n implies exists|
            k: int,
        | 0 <= k < cur.len() && cur[k].0 == t2 by {
            if t2.spec_index() < n - 1 {
                let k = choose|k: int| 0 <= k < prev.len() && prev[k].0 == t2;
                assert(cur[k].0 == t2);
            } else {
                assert(t[n - 1] == Some((t2, table_weight(t, t2))));
                assert(cur[prev.len() as int].0 == t2);
            }
        }
    }
}

/// The full entry sequence of a well-placed table lists exactly its edges.
pub proof fn lemma_table_entry_seq_props<E>(t: Seq<Option<(Id, E)>>)
    requires
        table_wf(t),
    ensures
        forall|k: int|
            0 <= k < table_entry_seq(t).len() ==> table_has_edge(
                t,
                (#[trigger] table_entry_seq(t)[k]).0,
            ) && table_weight(t, table_entry_seq(t)[k].0) == table_entry_seq(t)[k].1,
        forall|k1: int, k2: int|
            0 <= k1 < k2 < table_entry_seq(t).len() ==> (#[trigger] table_entry_seq(
                t,
            )[k1]).0.spec_index() < (#[trigger] table_entry_seq(t)[k2]).0.spec_index(),
        forall|t2: Id|
            #[trigger] table_has_edge(t, t2) ==> exists|k: int|
                0 <= k < table_entry_seq(t).len() && table_entry_seq(t)[k].0 == t2,
{
    lemma_table_entries_upto_props(t, t.len() as int);
    assert forall|t2: Id| #[trigger] table_has_edge(t, t2) implies exists|k: int|
        0 <= k < table_entry_seq(t).len() && table_entry_seq(t)[k].0 == t2 by {
        let k = choose|k: int|
            0 <= k < table_entries_upto(t, t.len() as int).len() && table_entries_upto(
                t,
                t.len() as int,
            )[k].0 == t2;
        assert(table_entry_seq(t)[k].0 == t2);
    }
    assert forall|k: int| 0 <= k < table_entry_seq(t).len() implies table_has_edge(
        t,
        (#[trigger] table_entry_seq(t)[k]).0,
    ) && table_weight(t, table_entry_seq(t)[k].0) == table_entry_seq(t)[k].1 by {
        let pr = table_entry_seq(t)[k];
        assert(t[pr.0.spec_index() as int] == Some(pr));
    }
}

impl<E> AdjList<E> {
    /// Creates a new, empty table.
    pub(crate) fn new() -> (r: Self)
        ensures
            r@.len() == 0,
    {
        AdjList { edges: Vec::new() }
    }

    /// Returns true iff there exists an edge to exactly `sink`.
    pub(crate) fn has_edge(&self, sink: Id) -> (r: bool)
        ensures
            r == table_has_edge(self@, sink),
    {
        self.weight(sink).is_some()
    }

    /// The weight of the edge to `sink`, or `None` if no edge to that exact id
    /// exists.
    pub(crate) fn weight(&self, sink: Id) -> (r: Option<&E>)
        ensures
            (match r {
                Some(w) => table_has_edge(self@, sink) && *w == table_weight(self@, sink),
                None => !table_has_edge(self@, sink),
            }),
    {
        let idx = sink.get_index();
        if idx < self.edges.len() {
            match &self.edges[idx] {
                Some(pr) => {
                    if pr.0 == sink {
                        Some(&pr.1)
                    } else {
                        None
                    }
                },
                None => None,
            }
        } else {
            None
        }
    }

    /// Creates an edge to `sink` with the given weight, growing the sparse
    /// table with holes as needed and overwriting any entry at that slot.
    pub(crate) fn add_edge(&mut self, sink: Id, weight: E)
        ensures
            final(self)@.len() == (if old(self)@.len() > sink.spec_index() {
                old(self)@.len() as int
            } else {
                sink.spec_index() + 1
            }),
            final(self)@[sink.spec_index() as int] == Some((sink, weight)),
            forall|p: int|
                0 <= p < final(self)@.len() && p != sink.spec_index() ==> final(self)@[p] == (
                if p < old(self)@.len() {
                    old(self)@[p]
                } else {
                    Option::<(Id, E)>::None
                }),
    {
        let idx = sink.get_index();
        while self.edges.len() <= idx
            invariant
                forall|p: int|
                    0 <= p < old(self).edges@.len() ==> #[trigger] self.edges@[p] == old(
                        self,
                    ).edges@[p],
                forall|p: int|
                    old(self).edges@.len() <= p < self.edges@.len() ==> #[trigger] self.edges@[p] is None,
                self.edges@.len() >= old(self).edges@.len(),
                self.edges@.len() <= (if old(self).edges@.len() > idx {
                    old(self).edges@.len() as int
                } else {
                    idx + 1
                }),
            decreases idx + 1 - self.edges.len(),
        {
            self.edges.push(None);
        }
        self.edges[idx] = Some((sink, Arc::new(weight)));
        proof {
            assert(self@[idx as int] == Some((sink, weight)));
            assert forall|p: int| 0 <= p < self@.len() && p != idx implies self@[p] == (if p < old(
                self,
            )@.len() {
                old(self)@[p]
            } else {
                Option::<(Id, E)>::None
            }) by {
                assert(self.edges@[p] == (if p < old(self).edges@.len() {
                    old(self).edges@[p]
                } else {
                    Option::<(Id, Arc<E>)>::None
                }));
            }
        }
    }

    /// The populated entries in slot order, each as the sink id and a
    /// reference to the weight.
    pub(crate) fn entries(&self) -> (r: Vec<(Id, &E)>)
        ensures
            r@.len() == table_entry_seq(self@).len(),
            forall|k: int|
                0 <= k < r@.len() ==> #[trigger] r@[k].0 == table_entry_seq(self@)[k].0 && *r@[k].1
                    == table_entry_seq(self@)[k].1,
    {
        let mut out: Vec<(Id, &E)> = Vec::new();
        let mut i: usize = 0;
        while i < self.edges.len()
            invariant
                i <= self.edges@.len(),
                out@.len() == table_entries_upto(self@, i as int).len(),
                forall|k: int|
                    0 <= k < out@.len() ==> #[trigger] out@[k].0 == table_entries_upto(
                        self@,
                        i as int,
                    )[k].0 && *out@[k].1 == table_entries_upto(self@, i as int)[k].1,
            decreases self.edges@.len() - i,
        {
            proof {
                if self.edges@[i as int] is Some {
                    assert(self@[i as int] is Some);
                    assert(self@[i as int]->Some_0.0 == self.edges@[i as int]->Some_0.0);
                    assert(self@[i as int]->Some_0.1 == *self.edges@[i as int]->Some_0.1);
                } else {
                    assert(self@[i as int] is None);
                }
            }
            match &self.edges[i] {
                Some(pr) => {
                    out.push((pr.0, &pr.1));
                },
                None => {},
            }
            i += 1;
        }
        out
    }

    /// The number of populated entries; linear in the table's sparse length.
    pub(crate) fn len(&self) -> (r: usize)
        ensures
            r == table_entry_seq(self@).len(),
    {
        let mut cnt: usize = 0;
        let mut i: usize = 0;
        while i < self.edges.len()
            invariant
                i <= self.edges@.len(),
                cnt <= i,
                cnt == table_entries_upto(self@, i as int).len(),
            decreases self.edges@.len() - i,
        {
            match &self.edges[i] {
                Some(_) => {
                    cnt += 1;
                },
                None => {},
            }
            i += 1;
        }
        cnt
    }

    /// Deletes the edge to exactly `sink`. Returns true iff such an edge
    /// existed to be removed.
    pub(crate) fn disconnect_edge(&mut self, sink: Id) -> (r: bool)
        ensures
            r == table_has_edge(old(self)@, sink),
            final(self)@.len() == old(self)@.len(),
            (forall|p: int|
                0 <= p < final(self)@.len() && p != sink.spec_index() ==> final(self)@[p] == old(
                    self,
                )@[p]),
            (if table_has_edge(old(self)@, sink) {
                final(self)@[sink.spec_index() as int] is None
            } else {
                *final(self) == *old(self)
            }),
    {
        let idx = sink.get_index();
        if idx < self.edges.len() {
            let hit = match &self.edges[idx] {
                Some(pr) => pr.0 == sink,
                None => false,
            };
            if hit {
                self.edges[idx] = None;
                return true;
            }
        }
        false
    }

    /// Applies `f` to the weight of the edge to `sink`, in place, if such an
    /// edge exists; does nothing at all when it does not.
    pub(crate) fn modify_edge<F: FnOnce(&E) -> E>(&mut self, sink: Id, f: F)
        requires
            table_has_edge(old(self)@, sink) ==> f.requires(
                (&table_weight(old(self)@, sink),),
            ),
        ensures
            (if table_has_edge(old(self)@, sink) {
                &&& final(self)@.len() == old(self)@.len()
                &&& table_has_edge(final(self)@, sink)
                &&& f.ensures(
                    (&table_weight(old(self)@, sink),),
                    table_weight(final(self)@, sink),
                )
                &&& forall|p: int|
                    0 <= p < final(self)@.len() && p != sink.spec_index()
                        ==> #[trigger] final(self)@[p] == old(self)@[p]
            } else {
                final(self)@ == old(self)@
            }),
    {
        let idx = sink.get_index();
        if idx < self.edges.len() {
            match &mut self.edges[idx] {
                Some(pr) => {
                    if pr.0 == sink {
                        let neww = f(&pr.1);
                        pr.1 = Arc::new(neww);
                    }
                },
                None => {},
            }
            proof {
                if !table_has_edge(old(self)@, sink) {
                    assert(self@ =~= old(self)@);
                }
            }
        }
    }
}

impl<E: Clone> AdjList<E> {
    /// A mutable view of the weight of the edge to `sink`, or `None` if no
    /// such edge exists. The shared weight is copied first when other graph
    /// versions still hold it.
    pub(crate) fn weight_mut(&mut self, sink: Id) -> (r: Option<&mut E>)
        ensures
            (match r {
                Some(m) => {
                    &&& table_has_edge(old(self)@, sink)
                    &&& cloned::<E>(table_weight(old(self)@, sink), *m)
                    &&& final(self)@.len() == old(self)@.len()
                    &&& final(self)@[sink.spec_index() as int] == Some((sink, *final(m)))
                    &&& forall|p: int|
                        0 <= p < final(self)@.len() && p != sink.spec_index()
                            ==> #[trigger] final(self)@[p] == old(self)@[p]
                },
                None => !table_has_edge(old(self)@, sink) && final(self)@ == old(self)@,
            }),
    {
        let idx = sink.get_index();
        if idx < self.edges.len() {
            let hit = match &self.edges[idx] {
                Some(pr) => pr.0 == sink,
                None => false,
            };
            if hit {
                match &mut self.edges[idx] {
                    Some(pr) => {
                        return Some(arc_make_mut(&mut pr.1));
                    },
                    None => {
                        return vstd::pervasive::unreached();
                    },
                }
            }
        }
        None
    }

    /// Hands back a mutable view of the weight of the edge to `sink`, creating
    /// the edge with the given weight first when no edge to that exact id
    /// exists.
    pub(crate) fn or_insert_edge(&mut self, sink: Id, default: E) -> (r: &mut E)
        ensures
            cloned::<E>(
                if table_has_edge(old(self)@, sink) {
                    table_weight(old(self)@, sink)
                } else {
                    default
                },
                *r,
            ),
            final(self)@.len() == (if old(self)@.len() > sink.spec_index() {
                old(self)@.len() as int
            } else {
                sink.spec_index() + 1
            }),
            final(self)@[sink.spec_index() as int] == Some((sink, *final(r))),
            forall|p: int|
                0 <= p < final(self)@.len() && p != sink.spec_index()
                    ==> #[trigger] final(self)@[p] == (if p < old(self)@.len() {
                    old(self)@[p]
                } else {
                    Option::<(Id, E)>::None
                }),
    {
        let idx = sink.get_index();
        let ghost pre = self@;
        while self.edges.len() <= idx
            invariant
                forall|p: int|
                    0 <= p < old(self).edges@.len() ==> #[trigger] self.edges@[p] == old(
                        self,
                    ).edges@[p],
                forall|p: int|
                    old(self).edges@.len() <= p < self.edges@.len() ==> #[trigger] self.edges@[p] is None,
                self.edges@.len() >= old(self).edges@.len(),
                self.edges@.len() <= (if old(self).edges@.len() > idx {
                    old(self).edges@.len() as int
                } else {
                    idx + 1
                }),
            decreases idx + 1 - self.edges.len(),
        {
            self.edges.push(None);
        }
        let hit = match &self.edges[idx] {
            Some(pr) => pr.0 == sink,
            None => false,
        };
        if !hit {
            self.edges[idx] = Some((sink, Arc::new(default)));
        }
        proof {
            assert forall|p: int| 0 <= p < self@.len() && p != idx implies #[trigger] self@[p] == (
            if p < pre.len() {
                pre[p]
            } else {
                Option::<(Id, E)>::None
            }) by {
                assert(self.edges@[p] == (if p < old(self).edges@.len() {
                    old(self).edges@[p]
                } else {
                    Option::<(Id, Arc<E>)>::None
                }));
            }
        }
        match &mut self.edges[idx] {
            Some(pr) => arc_make_mut(&mut pr.1),
            None => vstd::pervasive::unreached(),
        }
    }
}

impl<E> Clone for AdjList<E> {
    /// The clone holds the same entries; the shared weights gain one more
    /// owner each instead of being copied.
    fn clone(&self) -> (res: Self)
        ensures
            res@ == self@,
    {
        let mut edges: Vec<Option<(Id, Arc<E>)>> = Vec::new();
        let mut i: usize = 0;
        while i < self.edges.len()
            invariant
                i <= self.edges@.len(),
                edges@.len() == i,
                forall|k: int| 0 <= k < i ==> #[trigger] edges@[k] == self.edges@[k],
            decreases self.edges@.len() - i,
        {
            match &self.edges[i] {
                Some(pr) => {
                    edges.push(Some((pr.0, arc_clone(&pr.1))));
                },
                None => {
                    edges.push(None);
                },
            }
            i += 1;
        }
        let res = AdjList { edges };
        proof {
            assert(res@ =~= self@);
        }
        res
    }
}

} // verus!
