//! The free-slot set: which slot indices of the graph's backing sequence are
//! currently holes. Built on `im::OrdSet`, whose contents are modelled by the
//! uninterpreted [`ordset_elems`]; every operation the graph relies on is
//! stated over that model.

use vstd::prelude::*;

verus! {

#[verifier::external_type_specification]
#[verifier::external_body]
#[verifier::reject_recursive_types(A)]
pub struct ExOrdSet<A>(im::OrdSet<A>);

/// The set of slot indices a free-slot set holds.
pub uninterp spec fn ordset_elems(s: im::OrdSet<usize>) -> Set<usize>;

/// Relies on im::OrdSet::new: constructs an empty set.
#[verifier::external_body]
pub(crate) fn ordset_new() -> (s: im::OrdSet<usize>)
    ensures
        ordset_elems(s) == Set::<usize>::empty(),
{
    im::OrdSet::new()
}

/// Relies on im::OrdSet::clone: the clone holds the same values.
#[verifier::external_body]
pub(crate) fn ordset_clone(s: &im::OrdSet<usize>) -> (r: im::OrdSet<usize>)
    ensures
        ordset_elems(r) == ordset_elems(*s),
{
    s.clone()
}

/// Relies on im::OrdSet::insert: adds one value to the set.
#[verifier::external_body]
pub(crate) fn ordset_insert(s: &mut im::OrdSet<usize>, v: usize)
    ensures
        ordset_elems(*final(s)) == ordset_elems(*old(s)).insert(v),
{
    s.insert(v);
}

/// Relies on im::OrdSet::remove: takes one value out of the set.
#[verifier::external_body]
pub(crate) fn ordset_remove(s: &mut im::OrdSet<usize>, v: usize)
    ensures
        ordset_elems(*final(s)) == ordset_elems(*old(s)).remove(v),
{
    s.remove(&v);
}

/// Relies on im::OrdSet::get_min: the smallest value, or None when the set is
/// empty.
#[verifier::external_body]
pub(crate) fn ordset_get_min(s: &im::OrdSet<usize>) -> (r: Option<usize>)
    ensures
        (match r {
            Some(m) => ordset_elems(*s).contains(m) && forall|x: usize|
                ordset_elems(*s).contains(x) ==> m <= x,
            None => forall|x: usize| !ordset_elems(*s).contains(x),
        }),
{
    s.get_min().cloned()
}

/// Relies on im::OrdSet::len: the number of values in the set.
#[verifier::external_body]
pub(crate) fn ordset_len(s: &im::OrdSet<usize>) -> (r: usize)
    ensures
        r == ordset_elems(*s).len(),
{
    s.len()
}

} // verus!
