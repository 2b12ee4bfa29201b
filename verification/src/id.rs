//! Generational identifiers and their generation source.
//!
//! An [`Id`] names a vertex by slot index plus a generation tag. Generations
//! come from an [`IdGen`]: a counter shared by a graph and everything cloned
//! from it, seeded at random so that unrelated graphs draw from ranges that do
//! not meet in practice. Within one counter every draw is strictly above the
//! value it was asked to exceed, which is what makes stale identifiers
//! permanently detectable.

use vstd::prelude::*;
use std::sync::Arc;
use std::sync::atomic::AtomicUsize;
use std::sync::atomic::Ordering;

use crate::sharing::arc_clone;

verus! {

/// A generational reference to a vertex: a slot index stamped with the
/// generation that was current when the vertex was created. Conceptually a
/// pointer that can only be created pointing at a live vertex and that detects
/// use after removal.
#[derive(Copy, Clone, PartialEq, Eq, Structural, Hash, Debug)]
pub struct Id {
    pub(crate) index: usize,
    pub(crate) generation: usize,
}

impl Id {
    /// The slot index this id points at.
    pub closed spec fn spec_index(&self) -> usize {
        self.index
    }

    /// The generation this id was stamped with.
    pub closed spec fn spec_gen(&self) -> usize {
        self.generation
    }

    /// Gets the generation of this id. Two ids of one graph family compare
    /// meaningfully; absolute values carry no meaning.
    #[must_use]
    pub fn generation(&self) -> (r: usize)
        ensures
            r == self.spec_gen(),
    {
        self.generation
    }

    /// Gets the slot index out of an id.
    #[must_use]
    pub fn get_index(&self) -> (r: usize)
        ensures
            r == self.spec_index(),
    {
        self.index
    }
}

impl<'a> From<&'a Id> for Id {
    fn from(other: &'a Id) -> (r: Self)
        ensures
            r == *other,
    {
        *other
    }
}

impl<'a> vstd::std_specs::convert::FromSpecImpl<&'a Id> for Id {
    open spec fn obeys_from_spec() -> bool {
        true
    }

    open spec fn from_spec(other: &'a Id) -> Id {
        *other
    }
}

/// Two ids are equal exactly when both the slot index and the generation agree.
pub proof fn lemma_id_eq(a: Id, b: Id)
    ensures
        (a == b) <==> (a.spec_index() == b.spec_index() && a.spec_gen() == b.spec_gen()),
{
}

/// The successor generation: one above both the counter's current value and
/// the caller's previous generation, saturating at the top of the range.
fn gen_after(cur: usize, prev: usize) -> (g: usize)
    ensures
        g >= cur,
        g >= prev,
        prev < usize::MAX ==> g > prev,
        cur < usize::MAX ==> g > cur,
{
    let m: usize = if cur > prev {
        cur
    } else {
        prev
    };
    if m < usize::MAX {
        m + 1
    } else {
        usize::MAX
    }
}

/// Relies on AtomicUsize::fetch_update: atomically replaces the shared count
/// with the closure's result and hands back the count it replaced, so
/// concurrent callers never observe the same draw.
#[verifier::external_body]
fn counter_update(counter: &AtomicUsize, prev: usize) -> (before: usize) {
    let r = counter.fetch_update(
        Ordering::Relaxed,
        Ordering::Relaxed,
        |cur| Some(gen_after(cur, prev)),
    );
    match r {
        Ok(v) => v,
        Err(v) => v,
    }
}

/// Relies on rand::random: draws an arbitrary machine word; nothing is assumed
/// of its value.
#[verifier::external_body]
fn random_word() -> (s: usize) {
    rand::random::<u64>() as usize
}

/// Keeps track of a current generation and stamps new [`Id`]s with it. The
/// counter behind an `IdGen` is shared with every clone of it, and each clone
/// or advance draws a value strictly above the one it started from, so no two
/// graphs of one family ever reuse a generation.
pub struct IdGen {
    counter: Arc<AtomicUsize>,
    current_gen: usize,
}

impl IdGen {
    /// The generation this source currently stamps ids with.
    pub closed spec fn spec_gen(&self) -> usize {
        self.current_gen
    }

    /// Creates a new generation source with a freshly seeded counter.
    #[must_use]
    pub fn new() -> (g: Self)
        ensures
            g.spec_gen() < usize::MAX,
    {
        let word = random_word();
        let seed = word / 2;
        IdGen { counter: Arc::new(AtomicUsize::new(seed)), current_gen: seed }
    }

    /// Creates a new id with the given index, stamped with the current
    /// generation.
    #[must_use]
    pub fn create_id(&self, index: usize) -> (id: Id)
        ensures
            id.spec_index() == index,
            id.spec_gen() == self.spec_gen(),
    {
        Id { index, generation: self.current_gen }
    }

    /// Advances to a strictly greater generation (unless the range is already
    /// exhausted, where it stays at the top).
    pub fn next_gen(&mut self)
        ensures
            final(self).spec_gen() >= old(self).spec_gen(),
            old(self).spec_gen() < usize::MAX ==> final(self).spec_gen() > old(self).spec_gen(),
    {
        let before = counter_update(&self.counter, self.current_gen);
        self.current_gen = gen_after(before, self.current_gen);
    }

    /// Gets the current generation.
    #[must_use]
    pub fn generation(&self) -> (r: usize)
        ensures
            r == self.spec_gen(),
    {
        self.current_gen
    }
}

impl Clone for IdGen {
    /// Cloning draws a fresh generation from the shared counter instead of
    /// copying the current one: a graph and its clone never stamp ids alike.
    fn clone(&self) -> (res: Self)
        ensures
            res.spec_gen() >= self.spec_gen(),
            self.spec_gen() < usize::MAX ==> res.spec_gen() > self.spec_gen(),
    {
        let before = counter_update(&self.counter, self.current_gen);
        IdGen {
            counter: arc_clone(&self.counter),
            current_gen: gen_after(before, self.current_gen),
        }
    }
}

} // verus!
