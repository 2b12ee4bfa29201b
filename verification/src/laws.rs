//! The library's cross-operation guarantees, stated once and proved over the
//! graph's mathematical views, independent of any particular call site.

use vstd::prelude::*;

use crate::id::Id;
use crate::id::lemma_id_eq;
use crate::pgraph::GraphView;
use crate::pgraph::VertexView;

verus! {

/// Generational soundness: removing a vertex retires its id for good. A
/// removal leaves the graph's generation strictly above the removed id's
/// generation (so long as the generation range is not exhausted — see
/// `PGraph::remove_mut`); every later operation only grows the generation,
/// and every id a graph mints is stamped with the generation current at that
/// moment. So an id minted later — even one reusing the freed slot — never
/// equals the removed id.
pub proof fn lemma_generational_soundness(
    removed: Id,
    gen_after_removal: usize,
    gen_later: usize,
    minted: Id,
)
    requires
        removed.spec_gen() < gen_after_removal,
        gen_after_removal <= gen_later,
        minted.spec_gen() == gen_later,
    ensures
        minted != removed,
{
    lemma_id_eq(minted, removed);
}

/// Clone isolation: two graphs with equal slot sequences — as
/// `PGraph::clone` guarantees of a graph and its clone — agree on every
/// observation: liveness, vertex data, edges, weights, and the iteration
/// sequences. Since a graph value is never changed by mutating another
/// value, mutating a clone in place cannot change what the original
/// observes, and vice versa.
pub proof fn lemma_clone_isolation<V, E>(a: GraphView<V, E>, b: GraphView<V, E>)
    requires
        a.slots == b.slots,
    ensures
        forall|id: Id| #[trigger] a.live(id) == b.live(id),
        forall|id: Id| a.live(id) ==> #[trigger] a.data_of(id) == b.data_of(id),
        forall|s: Id, t: Id| #[trigger] a.has_edge(s, t) == b.has_edge(s, t),
        forall|s: Id, t: Id|
            a.has_edge(s, t) ==> #[trigger] a.weight_of(s, t) == b.weight_of(s, t),
        a.live_id_seq() == b.live_id_seq(),
        a.live_data_seq() == b.live_data_seq(),
{
    lemma_slot_sequences_agree(a, b, a.slots.len() as int);
}

/// Graphs with equal slot sequences build equal iteration sequences.
proof fn lemma_slot_sequences_agree<V, E>(a: GraphView<V, E>, b: GraphView<V, E>, n: int)
    requires
        a.slots == b.slots,
        0 <= n,
    ensures
        a.live_ids_upto(n) == b.live_ids_upto(n),
        a.live_data_upto(n) == b.live_data_upto(n),
    decreases n,
{
    if n > 0 {
        lemma_slot_sequences_agree(a, b, n - 1);
    }
}

/// Entry idempotence: binding an entry builder to a pair without an edge and
/// applying only a modification leaves the graph exactly as it was — in
/// particular the edge still does not exist. The hypotheses are what
/// `PGraph::edge` ensures about the borrowed source slot and what
/// `Edge::and_modify` ensures when the bound edge is absent: the vertex put
/// back is the vertex taken out.
pub proof fn lemma_entry_absent_unchanged<V, E>(
    pre: GraphView<V, E>,
    post: GraphView<V, E>,
    source: Id,
    sink: Id,
    put_back: VertexView<V, E>,
)
    requires
        pre.live(source),
        !pre.has_edge(source, sink),
        put_back.vid == pre.vertex_at(source).vid,
        put_back.data == pre.vertex_at(source).data,
        put_back.adj == pre.vertex_at(source).adj,
        post.slots == pre.slots.update(source.spec_index() as int, Some(put_back)),
        post.holes == pre.holes,
        post.generation == pre.generation,
    ensures
        post == pre,
        !post.has_edge(source, sink),
{
    assert(put_back =~= pre.vertex_at(source));
    assert(post.slots =~= pre.slots);
    assert(post =~= pre);
}

/// Removal cascade: removing vertex `b` removes every edge into `b`, while
/// every other vertex stays live. The hypotheses are exactly what
/// `PGraph::remove_mut` ensures of a successful removal.
pub proof fn lemma_removal_cascade<V, E>(
    pre: GraphView<V, E>,
    post: GraphView<V, E>,
    a: Id,
    b: Id,
)
    requires
        a != b,
        pre.live(a),
        forall|x: Id| #[trigger] post.live(x) == (pre.live(x) && x != b),
        forall|s: Id, t: Id|
            #[trigger] post.has_edge(s, t) == (pre.has_edge(s, t) && s != b && t != b),
    ensures
        post.live(a),
        !post.has_edge(a, b),
{
}

} // verus!
