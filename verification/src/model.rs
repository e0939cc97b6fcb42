//! The mathematical vocabulary of the contracts: edges as pairs of numbers,
//! their lexicographic order, and what it means for a sequence to be sorted.

use crate::element::MxElement;
use vstd::prelude::*;

verus! {

/// The pair of numbers that an edge stands for: source, then destination.
pub open spec fn edge_value<T: MxElement>(e: (T, T)) -> (nat, nat) {
    (e.0.value(), e.1.value())
}

/// The edges of a list as pairs of numbers, in the order of the list.
pub open spec fn edge_values<T: MxElement>(edges: Seq<(T, T)>) -> Seq<(nat, nat)> {
    Seq::new(edges.len(), |i: int| edge_value(edges[i]))
}

/// The lexicographic order on edges: by source, then by destination.
pub open spec fn edge_le(a: (nat, nat), b: (nat, nat)) -> bool {
    a.0 < b.0 || (a.0 == b.0 && a.1 <= b.1)
}

/// A sequence of number pairs that ascends in the lexicographic order.
pub open spec fn pairs_sorted(s: Seq<(nat, nat)>) -> bool {
    forall|i: int, j: int| 0 <= i <= j < s.len() ==> edge_le(#[trigger] s[i], #[trigger] s[j])
}

/// An edge list that ascends in the lexicographic order of its values.
pub open spec fn edges_sorted<T: MxElement>(edges: Seq<(T, T)>) -> bool {
    forall|i: int, j: int|
        0 <= i <= j < edges.len() ==> edge_le(
            edge_value(#[trigger] edges[i]),
            edge_value(#[trigger] edges[j]),
        )
}

/// A sequence of identifiers whose values ascend.
pub open spec fn values_sorted<T: MxElement>(s: Seq<T>) -> bool {
    forall|i: int, j: int|
        0 <= i <= j < s.len() ==> (#[trigger] s[i]).value() <= (#[trigger] s[j]).value()
}

/// What a search for `key` in the ascending sequence `row` may answer:
/// `Ok` with a position that holds the value of `key`, or `Err` with the
/// position at which that value would have to be inserted, in which case
/// the sequence does not hold it.
pub open spec fn search_outcome<T: MxElement>(row: Seq<T>, key: T, r: Result<usize, usize>) -> bool {
    match r {
        Ok(i) => i < row.len() && row[i as int].value() == key.value(),
        Err(i) => {
            &&& i <= row.len()
            &&& forall|j: int| 0 <= j < i ==> (#[trigger] row[j]).value() < key.value()
            &&& forall|j: int| i <= j < row.len() ==> (#[trigger] row[j]).value() > key.value()
        },
    }
}

/// `m` is the largest vertex of `edges`: some source or destination is
/// `m`, and none is larger.
pub open spec fn largest_vertex(edges: Seq<(nat, nat)>, m: nat) -> bool {
    &&& forall|i: int| 0 <= i < edges.len() ==> (#[trigger] edges[i]).0 <= m && edges[i].1 <= m
    &&& exists|i: int| 0 <= i < edges.len() && ((#[trigger] edges[i]).0 == m || edges[i].1 == m)
}

/// A list of edges has one largest vertex at most.
pub proof fn lemma_largest_unique(edges: Seq<(nat, nat)>, m1: nat, m2: nat)
    requires
        largest_vertex(edges, m1),
        largest_vertex(edges, m2),
    ensures
        m1 == m2,
{
}

/// How many edges of the list leave the vertex `r`.
pub open spec fn count_from(edges: Seq<(nat, nat)>, r: nat) -> nat
    decreases edges.len(),
{
    if edges.len() == 0 {
        0
    } else {
        count_from(edges.drop_last(), r) + (if edges.last().0 == r {
            1nat
        } else {
            0nat
        })
    }
}

/// Offsets that divide `n` stored entries into rows: they start at zero,
/// never descend, and end at `n`. There is one row less than offsets.
pub open spec fn offsets_wf(offsets: Seq<usize>, n: int) -> bool {
    &&& offsets.len() >= 1
    &&& offsets[0] == 0
    &&& offsets[offsets.len() - 1] == n
    &&& forall|i: int, j: int|
        0 <= i <= j < offsets.len() ==> (#[trigger] offsets[i]) <= (#[trigger] offsets[j])
}

/// Position `k` lies in the range that the offsets reserve for row `r`.
pub open spec fn in_row(offsets: Seq<usize>, r: int, k: int) -> bool {
    0 <= r < offsets.len() - 1 && offsets[r] <= k < offsets[r + 1]
}

/// The row whose range of positions holds position `k`.
pub open spec fn row_of(offsets: Seq<usize>, k: int) -> int {
    choose|r: int| in_row(offsets, r, k)
}

/// Within every row the stored identifiers ascend by value.
pub open spec fn rows_sorted<T: MxElement>(offsets: Seq<usize>, targets: Seq<T>) -> bool {
    forall|r: int, a: int, b: int|
        #[trigger] in_row(offsets, r, a) && #[trigger] in_row(offsets, r, b) && a <= b
            ==> targets[a].value() <= targets[b].value()
}

/// The edges that a layout stores, in storage order: position `k` holds
/// the edge from the row of `k` to the identifier stored there.
pub open spec fn stored_edges<T: MxElement>(offsets: Seq<usize>, targets: Seq<T>) -> Seq<
    (nat, nat),
> {
    Seq::new(targets.len(), |k: int| (row_of(offsets, k) as nat, targets[k].value()))
}

/// Below an offset that lies behind `k` there is a row that holds `k`.
proof fn lemma_row_exists(offsets: Seq<usize>, k: int, hi: int)
    requires
        0 <= hi < offsets.len(),
        offsets[0] <= k < offsets[hi],
    ensures
        exists|r: int| in_row(offsets, r, k),
    decreases hi,
{
    if offsets[hi - 1] <= k {
        assert(in_row(offsets, hi - 1, k));
    } else {
        lemma_row_exists(offsets, k, hi - 1);
    }
}

/// Every position of a well-formed layout lies in the range of its row.
pub proof fn lemma_row_of(offsets: Seq<usize>, n: int, k: int)
    requires
        offsets_wf(offsets, n),
        0 <= k < n,
    ensures
        in_row(offsets, row_of(offsets, k), k),
{
    lemma_row_exists(offsets, k, offsets.len() - 1);
}

/// A position lies in the range of one row only.
pub proof fn lemma_row_of_unique(offsets: Seq<usize>, n: int, k: int, r: int)
    requires
        offsets_wf(offsets, n),
        in_row(offsets, r, k),
    ensures
        row_of(offsets, k) == r,
{
    let q = row_of(offsets, k);
    assert(in_row(offsets, q, k));
    if q < r {
        assert(offsets[q + 1] <= offsets[r]);
    } else if r < q {
        assert(offsets[r + 1] <= offsets[q]);
    }
}

/// A row's range lies within the stored positions.
pub proof fn lemma_row_within(offsets: Seq<usize>, n: int, r: int, k: int)
    requires
        offsets_wf(offsets, n),
        in_row(offsets, r, k),
    ensures
        0 <= k < n,
{
    assert(offsets[0] <= offsets[r]);
    assert(offsets[r + 1] <= offsets[offsets.len() - 1]);
}

/// A position in the range of row `r` stores an edge that leaves `r`.
pub proof fn lemma_stored_edge<T: MxElement>(offsets: Seq<usize>, targets: Seq<T>, r: int, k: int)
    requires
        offsets_wf(offsets, targets.len() as int),
        in_row(offsets, r, k),
    ensures
        0 <= k < targets.len(),
        stored_edges(offsets, targets)[k] == (r as nat, targets[k].value()),
        stored_edges(offsets, targets).contains((r as nat, targets[k].value())),
{
    lemma_row_within(offsets, targets.len() as int, r, k);
    lemma_row_of_unique(offsets, targets.len() as int, k, r);
}

/// An edge that the layout stores leaves a row of the layout and stands in
/// the range of that row.
pub proof fn lemma_edge_stored<T: MxElement>(offsets: Seq<usize>, targets: Seq<T>, e: (nat, nat))
    requires
        offsets_wf(offsets, targets.len() as int),
        stored_edges(offsets, targets).contains(e),
    ensures
        exists|k: int| #[trigger] in_row(offsets, e.0 as int, k) && targets[k].value() == e.1,
{
    let edges = stored_edges(offsets, targets);
    let k = choose|k: int| 0 <= k < edges.len() && edges[k] == e;
    lemma_row_of(offsets, targets.len() as int, k);
    assert(in_row(offsets, e.0 as int, k) && targets[k].value() == e.1);
}

} // verus!
