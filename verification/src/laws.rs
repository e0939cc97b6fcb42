//! What holds of every matrix and of every edge list it was built from.

use crate::element::MxElement;
use crate::layout::{
    lemma_count_from_permutation, lemma_layout_unique, lemma_permutation_largest,
    lemma_permutation_values, lemma_row_width, lemma_stored_sorted,
};
use crate::matrix::GraphMatrix;
use crate::model::{
    count_from, edge_values, in_row, largest_vertex, lemma_largest_unique, pairs_sorted,
    values_sorted,
};
use vstd::prelude::*;

verus! {

/// The graph of a non-empty edge list has one vertex more than the largest
/// identifier in the list.
pub proof fn lemma_vertex_count<T: MxElement>(g: GraphMatrix<T>, edges: Seq<(nat, nat)>, m: nat)
    requires
        g.encodes(edges),
        largest_vertex(edges, m),
    ensures
        edges.len() > 0,
        g.dim() == m + 1,
{
    lemma_largest_unique(edges, m, (g.dim() - 1) as nat);
}

/// The offsets of a matrix are one more than its vertices, begin at zero,
/// never descend, and end at the number of stored edges, which is the
/// number of edges in the list that the matrix was built from.
pub proof fn lemma_offsets_frame<T: MxElement>(g: GraphMatrix<T>, edges: Seq<(nat, nat)>)
    requires
        g.encodes(edges),
    ensures
        g.offsets().len() == g.dim() + 1,
        g.offsets()[0] == 0,
        forall|i: int, j: int|
            0 <= i <= j <= g.dim() ==> (#[trigger] g.offsets()[i]) <= (#[trigger] g.offsets()[j]),
        g.offsets()[g.dim() as int] == g.n(),
        g.n() == edges.len(),
{
}

/// Every row of a matrix ascends.
pub proof fn lemma_row_ascends<T: MxElement>(g: GraphMatrix<T>, r: int)
    requires
        g.wf(),
        0 <= r < g.dim(),
    ensures
        values_sorted(g.row_targets(r)),
{
    let row = g.row_targets(r);
    let start = g.offsets()[r] as int;
    assert(g.offsets()[r + 1] <= g.offsets()[g.offsets().len() - 1]);
    assert forall|i: int, j: int| 0 <= i <= j < row.len() implies (#[trigger] row[i]).value() <= (
    #[trigger] row[j]).value() by {
        assert(in_row(g.offsets(), r, start + i));
        assert(in_row(g.offsets(), r, start + j));
    }
}

/// A matrix stores its edges in ascending order: by source, then by
/// destination.
pub proof fn lemma_edges_ascend<T: MxElement>(g: GraphMatrix<T>)
    requires
        g.wf(),
    ensures
        pairs_sorted(g.edges()),
{
    lemma_stored_sorted(g.offsets(), g.targets());
}

/// A matrix has an edge exactly where the list that it was built from has
/// it, and has it as often as the list.
pub proof fn lemma_edge_iff_listed<T: MxElement>(
    g: GraphMatrix<T>,
    edges: Seq<(nat, nat)>,
    e: (nat, nat),
)
    requires
        g.encodes(edges),
    ensures
        g.edges().contains(e) <==> edges.contains(e),
        g.edges().to_multiset().count(e) == edges.to_multiset().count(e),
{
    g.edges().to_multiset_ensures();
    edges.to_multiset_ensures();
    assert(g.edges().contains(e) <==> g.edges().to_multiset().count(e) > 0);
    assert(edges.contains(e) <==> edges.to_multiset().count(e) > 0);
}

/// The out-degree of a vertex is the number of edges in the list that
/// leave it, repeated edges counted as often as they are listed.
pub proof fn lemma_degree_counts_listed<T: MxElement>(
    g: GraphMatrix<T>,
    edges: Seq<(nat, nat)>,
    r: int,
)
    requires
        g.encodes(edges),
        0 <= r < g.dim(),
    ensures
        g.degree(r) == count_from(edges, r as nat),
{
    lemma_row_width(g.offsets(), g.targets(), r);
    lemma_count_from_permutation(g.edges(), edges, r as nat);
}

/// Two matrices built from edge lists that hold the same edges, each as
/// often, in whatever order, have the same offsets and the same stored
/// identifiers.
pub proof fn lemma_order_is_irrelevant<T: MxElement>(
    a: Seq<(T, T)>,
    b: Seq<(T, T)>,
    g: GraphMatrix<T>,
    h: GraphMatrix<T>,
)
    requires
        a.to_multiset() == b.to_multiset(),
        g.encodes(edge_values(a)),
        h.encodes(edge_values(b)),
    ensures
        g.offsets() == h.offsets(),
        g.targets() == h.targets(),
{
    lemma_permutation_values(a, b);
    lemma_permutation_largest(edge_values(a), edge_values(b), (g.dim() - 1) as nat);
    lemma_largest_unique(edge_values(b), (g.dim() - 1) as nat, (h.dim() - 1) as nat);
    lemma_layout_unique(g.offsets(), g.targets(), h.offsets(), h.targets());
}

} // verus!
