//! What the builder makes of an edge list that is already sorted, and what
//! a rearrangement of an edge list leaves unchanged.

use crate::compress::{counts_sources, places_destinations};
use crate::counting::{
    count_below, lemma_count_below_all, lemma_count_below_monotone, lemma_count_below_zero,
    lemma_slot_in_row, lemma_sorted_slot, slot,
};
use crate::element::MxElement;
use crate::model::{
    count_from, edge_le, edge_value, edge_values, edges_sorted, in_row, largest_vertex,
    lemma_row_of,
    lemma_row_of_unique, lemma_row_within, offsets_wf, pairs_sorted, row_of, rows_sorted,
    stored_edges,
    values_sorted,
};
use vstd::relations::{sorted_by, total_ordering};
use vstd::seq_lib::lemma_sorted_unique;
use vstd::prelude::*;

verus! {

/// Two lists that hold the same edges, each as often, hold the same edge
/// values, each as often.
pub proof fn lemma_permutation_values<T: MxElement>(a: Seq<(T, T)>, b: Seq<(T, T)>)
    requires
        a.to_multiset() == b.to_multiset(),
    ensures
        edge_values(a).to_multiset() == edge_values(b).to_multiset(),
    decreases a.len(),
{
    broadcast use vstd::seq_lib::group_to_multiset_ensures;

    if a.len() == 0 {
        a.to_multiset_ensures();
        b.to_multiset_ensures();
        assert(b.len() == 0);
        assert(edge_values(a) =~= edge_values(b));
    } else {
        let x = a.last();
        assert(a =~= a.drop_last().push(x));
        assert(a.to_multiset().count(x) > 0);
        assert(b.contains(x));
        let i = choose|i: int| 0 <= i < b.len() && b[i] == x;
        assert(a.drop_last().to_multiset() =~= a.to_multiset().remove(x));
        assert(b.remove(i).to_multiset() =~= b.to_multiset().remove(x));
        lemma_permutation_values(a.drop_last(), b.remove(i));
        assert(edge_values(a) =~= edge_values(a.drop_last()).push(edge_value(x)));
        assert(edge_values(b) =~= edge_values(b.remove(i)).insert(i, edge_value(x)));
    }
}

/// Two lists that hold the same edges are equally long.
pub proof fn lemma_permutation_len<T>(a: Seq<T>, b: Seq<T>)
    requires
        a.to_multiset() == b.to_multiset(),
    ensures
        a.len() == b.len(),
{
    a.to_multiset_ensures();
    b.to_multiset_ensures();
}

/// In an edge list that ascends, the larger of the last source and the
/// largest destination is the largest vertex.
pub proof fn lemma_sorted_largest(edges: Seq<(nat, nat)>, top_destination: nat, w: int)
    requires
        pairs_sorted(edges),
        0 <= w < edges.len(),
        edges[w].1 == top_destination,
        forall|i: int| 0 <= i < edges.len() ==> (#[trigger] edges[i]).1 <= top_destination,
    ensures
        largest_vertex(
            edges,
            if edges.last().0 < top_destination {
                top_destination
            } else {
                edges.last().0
            },
        ),
{
    let last = edges.len() - 1;
    assert forall|i: int| 0 <= i < edges.len() implies (#[trigger] edges[i]).0
        <= edges.last().0 by {
        assert(edge_le(edges[i], edges[last]));
    }
    if edges.last().0 < top_destination {
        assert(edges[w].1 == top_destination);
    } else {
        assert(edges[last].0 == edges.last().0);
    }
}

/// Two lists that hold the same edges have the same largest vertex.
pub proof fn lemma_permutation_largest(a: Seq<(nat, nat)>, b: Seq<(nat, nat)>, m: nat)
    requires
        a.to_multiset() == b.to_multiset(),
        largest_vertex(a, m),
    ensures
        largest_vertex(b, m),
{
    broadcast use vstd::seq_lib::group_to_multiset_ensures;

    assert forall|i: int| 0 <= i < b.len() implies (#[trigger] b[i]).0 <= m && b[i].1 <= m by {
        assert(b.contains(b[i]));
        assert(a.to_multiset().count(b[i]) > 0);
        assert(a.contains(b[i]));
    }
    let w = choose|i: int| 0 <= i < a.len() && ((#[trigger] a[i]).0 == m || a[i].1 == m);
    assert(a.contains(a[w]));
    assert(b.to_multiset().count(a[w]) > 0);
    assert(b.contains(a[w]));
    let i = choose|i: int| 0 <= i < b.len() && b[i] == a[w];
    assert(b[i].0 == m || b[i].1 == m);
}

/// In sources that ascend, the positions that the offsets reserve for row
/// `r` hold the source `r`.
pub proof fn lemma_sorted_row<T: MxElement>(sources: Seq<T>, r: int, a: int)
    requires
        values_sorted(sources),
        0 <= a < sources.len(),
        count_below(sources, r) <= a < count_below(sources, r + 1),
    ensures
        sources[a].value() == r,
{
    let v = sources[a].value() as int;
    lemma_slot_in_row(sources, a);
    lemma_sorted_slot(sources, a);
    if v < r {
        lemma_count_below_monotone(sources, v + 1, r);
    } else if v > r {
        lemma_count_below_monotone(sources, r + 1, v);
    }
}

/// On an edge list that ascends by source and then by destination, the
/// builder's offsets are well formed, its column indices are the
/// destinations in their order, every row ascends, and the layout stores
/// the edges of the list in their order.
pub proof fn lemma_sorted_layout<T: MxElement>(
    edges: Seq<(T, T)>,
    sources: Seq<T>,
    destinations: Seq<T>,
    offsets: Seq<usize>,
    indices: Seq<T>,
    n: int,
)
    requires
        edges_sorted(edges),
        sources.len() == edges.len(),
        destinations.len() == edges.len(),
        forall|k: int|
            0 <= k < edges.len() ==> (#[trigger] sources[k]) == edges[k].0 && destinations[k]
                == edges[k].1,
        forall|k: int| 0 <= k < sources.len() ==> (#[trigger] sources[k]).value() < n,
        0 <= n,
        counts_sources(offsets, sources, n),
        places_destinations(indices, sources, destinations),
    ensures
        indices =~= destinations,
        offsets_wf(offsets, edges.len() as int),
        rows_sorted(offsets, indices),
        stored_edges(offsets, indices) =~= edge_values(edges),
{
    let len = edges.len() as int;
    assert(values_sorted(sources)) by {
        assert forall|i: int, j: int| 0 <= i <= j < sources.len() implies (
        #[trigger] sources[i]).value() <= (#[trigger] sources[j]).value() by {
            assert(edge_le(edge_value(edges[i]), edge_value(edges[j])));
        }
    }
    assert forall|j: int| 0 <= j < len implies indices[j] == destinations[j] by {
        lemma_sorted_slot(sources, j);
        assert(indices[slot(sources, j)] == destinations[j]);
    }
    assert(offsets_wf(offsets, len)) by {
        lemma_count_below_zero(sources);
        lemma_count_below_all(sources, n);
        assert forall|i: int, j: int| 0 <= i <= j < offsets.len() implies (#[trigger] offsets[i])
            <= (#[trigger] offsets[j]) by {
            lemma_count_below_monotone(sources, i, j);
        }
    }
    assert forall|r: int, a: int, b: int|
        #[trigger] in_row(offsets, r, a) && #[trigger] in_row(offsets, r, b) && a
            <= b implies indices[a].value() <= indices[b].value() by {
        lemma_row_within(offsets, len, r, a);
        lemma_row_within(offsets, len, r, b);
        lemma_sorted_row(sources, r, a);
        lemma_sorted_row(sources, r, b);
        assert(edge_le(edge_value(edges[a]), edge_value(edges[b])));
    }
    assert forall|k: int| 0 <= k < len implies stored_edges(offsets, indices)[k] == edge_values(
        edges,
    )[k] by {
        let v = sources[k].value() as int;
        lemma_slot_in_row(sources, k);
        lemma_sorted_slot(sources, k);
        assert(in_row(offsets, v, k));
        lemma_row_of_unique(offsets, len, k, v);
    }
}

/// A well-formed layout stores its edges in ascending order: by source,
/// then by destination.
pub proof fn lemma_stored_sorted<T: MxElement>(offsets: Seq<usize>, targets: Seq<T>)
    requires
        offsets_wf(offsets, targets.len() as int),
        rows_sorted(offsets, targets),
    ensures
        pairs_sorted(stored_edges(offsets, targets)),
{
    let n = targets.len() as int;
    let edges = stored_edges(offsets, targets);
    assert forall|i: int, j: int| 0 <= i <= j < edges.len() implies edge_le(
        #[trigger] edges[i],
        #[trigger] edges[j],
    ) by {
        lemma_row_of(offsets, n, i);
        lemma_row_of(offsets, n, j);
        let p = row_of(offsets, i);
        let q = row_of(offsets, j);
        if q < p {
            assert(offsets[q + 1] <= offsets[p]);
        }
    }
}

/// The lexicographic order on edges is a total order.
pub proof fn lemma_edge_le_total()
    ensures
        total_ordering(|a: (nat, nat), b: (nat, nat)| edge_le(a, b)),
{
    let leq = |a: (nat, nat), b: (nat, nat)| edge_le(a, b);
    assert(vstd::relations::reflexive(leq));
    assert(vstd::relations::antisymmetric(leq));
    assert(vstd::relations::transitive(leq));
    assert(vstd::relations::strongly_connected(leq));
}

/// Two well-formed layouts of as many rows that store the same edges, each
/// as often, are the same layout.
pub proof fn lemma_layout_unique<T: MxElement>(
    offsets: Seq<usize>,
    targets: Seq<T>,
    offsets2: Seq<usize>,
    targets2: Seq<T>,
)
    requires
        offsets_wf(offsets, targets.len() as int),
        rows_sorted(offsets, targets),
        offsets_wf(offsets2, targets2.len() as int),
        rows_sorted(offsets2, targets2),
        offsets.len() == offsets2.len(),
        stored_edges(offsets, targets).to_multiset() == stored_edges(
            offsets2,
            targets2,
        ).to_multiset(),
    ensures
        offsets =~= offsets2,
        targets =~= targets2,
{
    let e = stored_edges(offsets, targets);
    let e2 = stored_edges(offsets2, targets2);
    let leq = |a: (nat, nat), b: (nat, nat)| edge_le(a, b);
    lemma_stored_sorted(offsets, targets);
    lemma_stored_sorted(offsets2, targets2);
    lemma_edge_le_total();
    assert(sorted_by(e, leq));
    assert(sorted_by(e2, leq));
    lemma_sorted_unique(e, e2, leq);
    let n = targets.len() as int;
    assert(targets2.len() == n) by {
        assert(e.len() == e2.len());
    }
    assert forall|k: int| 0 <= k < n implies targets[k] == targets2[k] by {
        assert(e[k] == e2[k]);
        T::lemma_value_injective(targets[k], targets2[k]);
    }
    assert forall|r: int| 0 <= r < offsets.len() implies offsets[r] == offsets2[r] by {
        if offsets[r] < offsets2[r] {
            lemma_boundary(offsets, offsets2, n, r);
            assert(e[offsets[r] as int] == e2[offsets[r] as int]);
        } else if offsets2[r] < offsets[r] {
            lemma_boundary(offsets2, offsets, n, r);
            assert(e[offsets2[r] as int] == e2[offsets2[r] as int]);
        }
    }
}

/// Where row `r` begins earlier in one layout than in another, the
/// position at which it begins belongs to different rows in the two.
proof fn lemma_boundary(early: Seq<usize>, late: Seq<usize>, n: int, r: int)
    requires
        offsets_wf(early, n),
        offsets_wf(late, n),
        early.len() == late.len(),
        0 <= r < early.len(),
        early[r] < late[r],
    ensures
        0 <= early[r] < n,
        row_of(early, early[r] as int) >= r,
        0 <= row_of(late, early[r] as int) < r,
{
    let k = early[r] as int;
    assert(late[r] <= late[late.len() - 1]);
    lemma_row_of(early, n, k);
    lemma_row_of(late, n, k);
    let p = row_of(early, k);
    let q = row_of(late, k);
    if p < r {
        assert(early[p + 1] <= early[r]);
    }
    if q >= r {
        assert(late[r] <= late[q]);
    }
}

/// Taking an edge out of a list lowers the count of its source by one.
proof fn lemma_count_from_remove(edges: Seq<(nat, nat)>, i: int, r: nat)
    requires
        0 <= i < edges.len(),
    ensures
        count_from(edges, r) == count_from(edges.remove(i), r) + (if edges[i].0 == r {
            1nat
        } else {
            0nat
        }),
    decreases edges.len(),
{
    if i == edges.len() - 1 {
        assert(edges.remove(i) =~= edges.drop_last());
    } else {
        lemma_count_from_remove(edges.drop_last(), i, r);
        assert(edges.remove(i).drop_last() =~= edges.drop_last().remove(i));
        assert(edges.remove(i).last() == edges.last());
    }
}

/// Two lists that hold the same edges have as many edges from every vertex.
pub proof fn lemma_count_from_permutation(a: Seq<(nat, nat)>, b: Seq<(nat, nat)>, r: nat)
    requires
        a.to_multiset() == b.to_multiset(),
    ensures
        count_from(a, r) == count_from(b, r),
    decreases a.len(),
{
    broadcast use vstd::seq_lib::group_to_multiset_ensures;

    if a.len() == 0 {
        lemma_permutation_len(a, b);
    } else {
        let x = a.last();
        assert(a =~= a.drop_last().push(x));
        assert(a.to_multiset().count(x) > 0);
        assert(b.contains(x));
        let i = choose|i: int| 0 <= i < b.len() && b[i] == x;
        assert(a.drop_last().to_multiset() =~= a.to_multiset().remove(x));
        assert(b.remove(i).to_multiset() =~= b.to_multiset().remove(x));
        lemma_count_from_permutation(a.drop_last(), b.remove(i), r);
        lemma_count_from_remove(b, i, r);
    }
}

/// Among the first `p` stored edges, those that leave row `r` are the
/// positions of the row's range that lie below `p`.
proof fn lemma_count_from_prefix<T: MxElement>(
    offsets: Seq<usize>,
    targets: Seq<T>,
    r: int,
    p: int,
)
    requires
        offsets_wf(offsets, targets.len() as int),
        0 <= r < offsets.len() - 1,
        0 <= p <= targets.len(),
    ensures
        count_from(stored_edges(offsets, targets).take(p), r as nat) == (if p <= offsets[r] {
            0
        } else if p <= offsets[r + 1] {
            p - offsets[r]
        } else {
            offsets[r + 1] - offsets[r]
        }),
    decreases p,
{
    if p > 0 {
        let edges = stored_edges(offsets, targets);
        lemma_count_from_prefix(offsets, targets, r, p - 1);
        assert(edges.take(p).drop_last() =~= edges.take(p - 1));
        assert(edges.take(p).last() == edges[p - 1]);
        assert(offsets[r] <= offsets[r + 1]);
        lemma_row_of(offsets, targets.len() as int, p - 1);
        if in_row(offsets, r, p - 1) {
            lemma_row_of_unique(offsets, targets.len() as int, p - 1, r);
        }
    }
}

/// The width of a row is the number of stored edges that leave it.
pub proof fn lemma_row_width<T: MxElement>(offsets: Seq<usize>, targets: Seq<T>, r: int)
    requires
        offsets_wf(offsets, targets.len() as int),
        0 <= r < offsets.len() - 1,
    ensures
        count_from(stored_edges(offsets, targets), r as nat) == offsets[r + 1] - offsets[r],
{
    let edges = stored_edges(offsets, targets);
    lemma_count_from_prefix(offsets, targets, r, targets.len() as int);
    assert(edges.take(targets.len() as int) =~= edges);
    assert(offsets[r + 1] <= offsets[offsets.len() - 1]);
}

} // verus!
