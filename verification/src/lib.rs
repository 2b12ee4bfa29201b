//! A persistent, structurally shared directed graph with data on vertices and
//! weighted edges, addressed through generational identifiers. Cloning a graph
//! is cheap; in-place and value-returning mutation families exist side by
//! side, and a stale or foreign identifier is detected at access time instead
//! of silently reading the wrong vertex.

mod freeset;
mod id;
mod laws;
mod pgraph;
mod sharing;

pub use crate::id::Id;
pub use crate::id::IdGen;
pub use crate::id::lemma_id_eq;
pub use crate::laws::lemma_clone_isolation;
pub use crate::laws::lemma_entry_absent_unchanged;
pub use crate::laws::lemma_generational_soundness;
pub use crate::laws::lemma_removal_cascade;
pub use crate::pgraph::Edge;
pub use crate::pgraph::GraphView;
pub use crate::pgraph::lemma_table_entries_upto_props;
pub use crate::pgraph::lemma_table_entry_seq_props;
pub use crate::pgraph::lemma_wf_after_vertex_update;
pub use crate::pgraph::PGraph;
pub use crate::pgraph::Vertex;
pub use crate::pgraph::VertexView;
pub use crate::pgraph::table_entries_upto;
pub use crate::pgraph::table_entry_seq;
pub use crate::pgraph::table_has_edge;
pub use crate::pgraph::table_weight;
pub use crate::pgraph::table_wf;
