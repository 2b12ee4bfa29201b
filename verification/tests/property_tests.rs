use pgraph::PGraph;

// Removing a vertex and then adding a new one never revives the removed id,
// even though the freed slot is reused.
#[test]
fn removed_id_never_minted_again() {
    let mut g = PGraph::<u64, u64>::new();
    let a = g.add_mut(1);
    let b = g.add_mut(2);

    assert!(g.remove_mut(b));
    let c = g.add_mut(9);

    assert_eq!(c.get_index(), b.get_index());
    assert_ne!(c, b);
    assert_ne!(c, a);
    assert!(!g.has_vertex(b));
    assert!(g.has_vertex(c));

    // The same holds through the value-returning family.
    let g2 = g.remove(c);
    let (g3, d) = g2.add(7);
    assert_eq!(d.get_index(), c.get_index());
    assert_ne!(d, c);
    assert!(!g3.has_vertex(c));
}

// Mutating a clone in place never changes anything observable through the
// original, and vice versa.
#[test]
fn clone_isolation() {
    let mut g = PGraph::<u64, u64>::new();
    let a = g.add_mut(10);
    let b = g.add_mut(20);
    g.connect_mut(a, b, 5);

    let mut h = g.clone();
    let c = h.add_mut(30);
    h.connect_mut(b, a, 6);
    *h.index_weight_mut(a, b) = 99;
    *h.index_data_mut(a) = 11;
    h.remove_mut(b);

    // g observes none of it.
    assert!(!g.has_vertex(c));
    assert!(g.has_vertex(b));
    assert!(!g.has_edge(b, a));
    assert_eq!(g.weight(a, b), Some(&5));
    assert_eq!(g.vertex_data(a), Some(&10));

    // And mutating g does not touch h.
    g.remove_mut(a);
    assert_eq!(h.vertex_data(a), Some(&11));
    assert!(!h.has_vertex(b));
}

// An entry builder's `and_modify` alone never creates an edge and applies
// the closure zero times when the edge is absent.
#[test]
fn entry_and_modify_absent_is_noop() {
    let mut g = PGraph::<&str, usize>::new();
    let v1 = g.add_mut("A");
    let v2 = g.add_mut("B");

    let mut applied = 0usize;
    let _ = g.edge(v1, v2).and_modify(|w| {
        applied += 1;
        *w + 7
    });

    assert_eq!(applied, 0);
    assert!(!g.has_edge(v1, v2));
    assert!(g.has_vertex(v1));
    assert!(g.has_vertex(v2));
}

// The entry API: `or_insert` keeps an existing weight, `and_modify` applies
// in place when the edge exists, and `or_default` inserts the zero value.
#[test]
fn entry_insert_and_modify() {
    let mut g = PGraph::<&str, usize>::new();
    let v1 = g.add_mut("A");
    let v2 = g.add_mut("B");

    g.connect_mut(v1, v2, 7);
    let fore = g.edge(v1, v2).or_insert(0);
    *fore += 4;
    assert_eq!(*g.index_weight(v1, v2), 11);

    let back = g.edge(v2, v1).or_insert(0);
    *back += 4;
    assert_eq!(*g.index_weight(v2, v1), 4);

    let mut g2 = PGraph::<&str, usize>::new();
    let w1 = g2.add_mut("A");
    let w2 = g2.add_mut("B");

    let _ = g2.edge(w1, w2).and_modify(|w| *w + 7).or_default();
    assert_eq!(*g2.index_weight(w1, w2), 0);

    let _ = g2.edge(w1, w2).and_modify(|w| *w + 13).or_default();
    assert_eq!(*g2.index_weight(w1, w2), 13);

    let _ = g2.edge(w2, w1).and_modify(|w| *w + 343);
    assert!(!g2.has_edge(w2, w1));

    let lazy = g2.edge(w2, w1).or_insert_with(|| 21);
    assert_eq!(*lazy, 21);
    // An existing edge keeps its weight; the closure's value is not used.
    let kept = g2.edge(w2, w1).or_insert_with(|| 1000);
    assert_eq!(*kept, 21);
}

// Removing a vertex cascades: all edges into it disappear, and the other
// endpoint stays live.
#[test]
fn removal_cascades_incoming_edges() {
    let mut g = PGraph::<u64, u64>::new();
    let a = g.add_mut(1);
    let b = g.add_mut(2);
    g.connect_mut(a, b, 12);
    g.connect_mut(b, b, 99); // self-edge vanishes with its vertex

    assert!(g.remove_mut(b));
    assert!(!g.has_edge(a, b));
    assert!(!g.has_edge(b, b));
    assert!(g.has_vertex(a));
    assert_eq!(g.outbound_edges(a).len(), 0);
    assert_eq!(g.predecessors(b).len(), 0);
}

// `recreate` produces a graph with zero holes whose k-th live vertex carries
// the k-th live vertex's data and edges of the original.
#[test]
fn recreate_round_trip() {
    let mut g = PGraph::<u64, u64>::new();
    let a = g.add_mut(1);
    let b = g.add_mut(2);
    let c = g.add_mut(3);
    g.connect_mut(a, c, 13);
    g.connect_mut(c, a, 31);
    g.connect_mut(c, c, 33);
    g.remove_mut(b);

    let h = g.recreate();
    assert_eq!(h.count_empties(), 0);

    let old_ids = g.ids();
    let new_ids = h.ids();
    assert_eq!(old_ids.len(), new_ids.len());

    for (old_id, new_id) in old_ids.iter().zip(new_ids.iter()) {
        assert_eq!(g.vertex_data(*old_id), h.vertex_data(*new_id));
        // None of the old ids work on the new graph.
        assert!(!h.has_vertex(*old_id));
    }
    for (j, old_j) in old_ids.iter().enumerate() {
        for (k, old_k) in old_ids.iter().enumerate() {
            assert_eq!(
                g.has_edge(*old_j, *old_k),
                h.has_edge(new_ids[j], new_ids[k])
            );
            assert_eq!(g.weight(*old_j, *old_k), h.weight(new_ids[j], new_ids[k]));
        }
    }
}

// The scenario from the edge queries: three vertices and two edges.
#[test]
fn three_vertices_two_edges() {
    let g = PGraph::<u64, u64>::new();
    let (g, a) = g.add(1);
    let (g, b) = g.add(2);
    let (mut g, c) = g.add(3);

    g.connect_mut(a, b, 12);
    g.connect_mut(b, c, 23);

    assert_eq!(g.weight(a, b), Some(&12));
    assert_eq!(g.weight(a, c), None);
    assert!(!g.has_edge(c, a));
}

// Continuing the scenario: removal tombstones the id, and the freed slot is
// reborn under a fresh generation.
#[test]
fn removal_then_reuse_changes_generation() {
    let g = PGraph::<u64, u64>::new();
    let (g, a) = g.add(1);
    let (g, b) = g.add(2);
    let (mut g, c) = g.add(3);

    g.connect_mut(a, b, 12);
    g.connect_mut(b, c, 23);
    assert!(g.remove_mut(b));

    assert!(!g.has_vertex(b));
    assert!(!g.has_edge(a, b));

    let reborn = g.add_mut(9);
    assert_eq!(reborn.get_index(), b.get_index());
    assert_ne!(reborn.generation(), b.generation());
    assert!(g.vertex(b).is_none());
}

// A foreign id is rejected by the checked API and the graph is unchanged.
#[test]
fn foreign_id_is_rejected() {
    let mut g = PGraph::<u64, u64>::new();
    let a = g.add_mut(1);

    let mut other = PGraph::<u64, u64>::new();
    let foreign_id = other.add_mut(1);

    assert!(!g.has_vertex(foreign_id));
    assert!(g.try_connect(a, foreign_id, 5).is_none());
    assert!(g.try_connect(foreign_id, a, 5).is_none());
    assert!(!g.try_connect_mut(a, foreign_id, 5));
    assert!(g.try_remove(foreign_id).is_none());
    assert!(!g.remove_mut(foreign_id));
    assert!(g.vertex(foreign_id).is_none());
    assert!(g.vertex_data(foreign_id).is_none());

    // Nothing happened to g.
    assert_eq!(g.ids().len(), 1);
    assert_eq!(g.vertex_data(a), Some(&1));
    assert_eq!(g.outbound_edges(a).len(), 0);
}

// The lowest-numbered hole is reused first, and the hole count tracks
// removals and insertions.
#[test]
fn lowest_hole_reused_first() {
    let mut g = PGraph::<u64, u64>::new();
    let v0 = g.add_mut(0);
    let v1 = g.add_mut(1);
    let v2 = g.add_mut(2);
    assert_eq!(g.count_empties(), 0);

    g.remove_mut(v2);
    g.remove_mut(v0);
    assert_eq!(g.count_empties(), 2);

    let first = g.add_mut(10);
    assert_eq!(first.get_index(), 0);
    assert_eq!(g.count_empties(), 1);

    let second = g.add_mut(20);
    assert_eq!(second.get_index(), 2);
    assert_eq!(g.count_empties(), 0);

    assert!(g.has_vertex(v1));
}

// Compact indexing: `to_index` densifies the live slots and `from_index`
// inverts it, holes notwithstanding.
#[test]
fn compact_indexing_round_trip() {
    let mut g = PGraph::<u64, u64>::new();
    let v0 = g.add_mut(0);
    let v1 = g.add_mut(1);
    let v2 = g.add_mut(2);
    let v3 = g.add_mut(3);
    g.remove_mut(v1);

    assert_eq!(g.to_index(v0), 0);
    assert_eq!(g.to_index(v2), 1);
    assert_eq!(g.to_index(v3), 2);

    assert_eq!(g.from_index(0), v0);
    assert_eq!(g.from_index(1), v2);
    assert_eq!(g.from_index(2), v3);
}

// Iteration respects slot order and skips holes; predecessors list exactly
// the incoming edges.
#[test]
fn iteration_in_slot_order() {
    let mut g = PGraph::<u64, u64>::new();
    let v0 = g.add_mut(100);
    let v1 = g.add_mut(200);
    let v2 = g.add_mut(300);
    g.connect_mut(v2, v0, 20);
    g.connect_mut(v1, v0, 10);
    g.remove_mut(v1);

    let data: Vec<u64> = g.iter_data().into_iter().copied().collect();
    assert_eq!(data, vec![100, 300]);
    assert_eq!(g.ids(), vec![v0, v2]);

    let preds = g.predecessors(v0);
    assert_eq!(preds.len(), 1);
    assert_eq!(preds[0].0, v2);
    assert_eq!(preds[0].1, v0);
    assert_eq!(*preds[0].2, 20);
    assert_eq!(g.predecessor_ids(v0), vec![v2]);

    let weights: Vec<u64> = g.iter_weights().into_iter().copied().collect();
    assert_eq!(weights, vec![20]);

    let all_edges = g.edges();
    assert_eq!(all_edges.len(), 1);
    assert_eq!(all_edges[0].0, v2);
    assert_eq!(all_edges[0].1, v0);

    assert_eq!(g.outbound_ids(v2), vec![v0]);
    assert_eq!(g.outbound_ids(v1), vec![]);
}

// Bulk removal advances the generation once and reports whether anything
// was removed.
#[test]
fn remove_all_batches() {
    let mut g = PGraph::<u64, u64>::new();
    let a = g.add_mut(1);
    let b = g.add_mut(2);
    let c = g.add_mut(3);
    g.connect_mut(a, b, 12);
    g.connect_mut(c, a, 31);

    assert!(g.remove_all_mut(&[a, b]));
    assert!(!g.has_vertex(a));
    assert!(!g.has_vertex(b));
    assert!(g.has_vertex(c));
    assert_eq!(g.outbound_edges(c).len(), 0);

    assert!(!g.remove_all_mut(&[a, b]));
}

// Overwriting an edge replaces the weight, and a vertex may point at itself.
#[test]
fn overwrite_and_self_edges() {
    let mut g = PGraph::<u64, u64>::new();
    let a = g.add_mut(1);

    g.connect_mut(a, a, 5);
    assert_eq!(g.weight(a, a), Some(&5));

    g.connect_mut(a, a, 8);
    assert_eq!(g.weight(a, a), Some(&8));

    assert!(g.disconnect_mut(a, a));
    assert!(!g.has_edge(a, a));
    assert!(!g.disconnect_mut(a, a));
}
