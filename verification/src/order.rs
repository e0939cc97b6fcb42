//! Three-way comparison of identifiers and edges, and the two operations of
//! the standard library that rest on it: sorting an edge list and searching
//! a sorted row.

use crate::element::MxElement;
use crate::model::{edges_sorted, search_outcome, values_sorted};
use core::cmp::Ordering;
use vstd::prelude::*;

verus! {

/// How the number `a` stands to the number `b`.
pub open spec fn value_order(a: nat, b: nat) -> Ordering {
    if a < b {
        Ordering::Less
    } else if a == b {
        Ordering::Equal
    } else {
        Ordering::Greater
    }
}

/// How the edge `a` stands to the edge `b`: by source, then by destination.
pub open spec fn edge_order(a: (nat, nat), b: (nat, nat)) -> Ordering {
    if a.0 == b.0 {
        value_order(a.1, b.1)
    } else {
        value_order(a.0, b.0)
    }
}

/// Compares two identifiers by the numbers they stand for.
pub fn compare_values<T: MxElement>(a: &T, b: &T) -> (o: Ordering)
    ensures
        o == value_order(a.value(), b.value()),
{
    if a.less_than(b) {
        Ordering::Less
    } else if b.less_than(a) {
        Ordering::Greater
    } else {
        Ordering::Equal
    }
}

/// Compares two edges by source, then by destination.
pub fn compare_edges<T: MxElement>(a: &(T, T), b: &(T, T)) -> (o: Ordering)
    ensures
        o == edge_order((a.0.value(), a.1.value()), (b.0.value(), b.1.value())),
{
    match compare_values(&a.0, &b.0) {
        Ordering::Equal => compare_values(&a.1, &b.1),
        other => other,
    }
}

/// `<[T]>::sort_unstable_by` with `compare_edges` as the comparison: the
/// list afterwards holds the same edges as before, each as often as before,
/// and ascends by source and then by destination.
#[verifier::external_body]
pub(crate) fn sort_edges<T: MxElement>(edges: &mut Vec<(T, T)>)
    ensures
        final(edges)@.to_multiset() == old(edges)@.to_multiset(),
        edges_sorted(final(edges)@),
{
    edges.sort_unstable_by(|a, b| compare_edges(a, b));
}

/// `<[T]>::binary_search_by` with `compare_values` against `key` as the
/// comparison, on a slice that ascends by value: `Ok` carries a position
/// that holds the value of `key`; `Err` carries the position where it
/// would be inserted, everything before it being smaller and everything
/// from it on larger.
#[verifier::external_body]
pub(crate) fn search_row<T: MxElement>(row: &[T], key: &T) -> (r: Result<usize, usize>)
    requires
        values_sorted(row@),
    ensures
        search_outcome(row@, *key, r),
{
    row.binary_search_by(|probe| compare_values(probe, key))
}

} // verus!
