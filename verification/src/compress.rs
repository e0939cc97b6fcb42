//! The builder: from two parallel sequences of sources and destinations to
//! the offsets and the column indices of the compressed layout.

use crate::counting::{
    count_below, count_eq, lemma_count_below_succ, lemma_count_below_zero, lemma_count_bounds,
    lemma_count_eq_extend, lemma_slot_in_row, lemma_slots_distinct, slot,
};
use crate::element::MxElement;
use crate::error::ConstructionError;
use vstd::prelude::*;

verus! {

/// The offsets of `n` rows over `sources`: one entry per row and one more,
/// the `i`-th being the number of sources below `i`.
pub open spec fn counts_sources<T: MxElement>(offsets: Seq<usize>, sources: Seq<T>, n: int) -> bool {
    &&& offsets.len() == n + 1
    &&& forall|i: int| 0 <= i <= n ==> (#[trigger] offsets[i]) == count_below(sources, i)
}

/// The column indices that a counting sort by source makes of
/// `destinations`: as many entries, the `j`-th destination standing in the
/// slot of the `j`-th source.
pub open spec fn places_destinations<T: MxElement>(
    indices: Seq<T>,
    sources: Seq<T>,
    destinations: Seq<T>,
) -> bool {
    &&& indices.len() == destinations.len()
    &&& forall|j: int|
        0 <= j < sources.len() ==> indices[#[trigger] slot(sources, j)] == destinations[j]
}

/// `j` is the first position of `sources` whose identifier is not below `n`.
pub open spec fn first_out_of_range<T: MxElement>(sources: Seq<T>, n: int, j: int) -> bool {
    &&& 0 <= j < sources.len()
    &&& sources[j].value() >= n
    &&& forall|k: int| 0 <= k < j ==> (#[trigger] sources[k]).value() < n
}

/// The error that reports `id` as not below `limit`.
fn out_of_range<T: MxElement>(id: &T, limit: usize) -> (e: ConstructionError)
    ensures
        e.rejects(id.value(), limit),
{
    ConstructionError::VertexOutOfRange { vertex: id.to_u128(), limit }
}

/// Builds the compressed layout of `n` rows from the sources `row` and the
/// destinations `col` of a list of edges.
///
/// Counts the sources by value, turns the counts into offsets by an
/// exclusive prefix sum, and then walks the edges once more, writing each
/// destination at the cursor of its source and advancing that cursor. The
/// result is a stable counting sort of the destinations by source. A source
/// that is not below `n` stops the construction; the first such source is
/// reported.
pub fn compress<T: MxElement>(row: Vec<T>, col: Vec<T>, n: usize) -> (res: Result<
    (Vec<usize>, Vec<T>),
    ConstructionError,
>)
    requires
        row@.len() == col@.len(),
        n < usize::MAX,
    ensures
        match res {
            Ok((indptr, indices)) => {
                &&& forall|k: int| 0 <= k < row@.len() ==> (#[trigger] row@[k]).value() < n
                &&& counts_sources(indptr@, row@, n as int)
                &&& places_destinations(indices@, row@, col@)
            },
            Err(e) => exists|j: int|
                #[trigger] first_out_of_range(row@, n as int, j) && e.rejects(row@[j].value(), n),
        },
{
    let len = row.len();
    let mut count: Vec<usize> = vec![0usize; n];
    let mut j: usize = 0;
    while j < len
        invariant
            j <= len,
            len == row@.len(),
            count@.len() == n,
            forall|k: int| 0 <= k < j ==> (#[trigger] row@[k]).value() < n,
            forall|v: int| 0 <= v < n ==> (#[trigger] count@[v]) == count_eq(row@.take(j as int), v),
        decreases len - j,
    {
        match row[j].to_usize() {
            Some(i) => {
                if i >= n {
                    assert(first_out_of_range(row@, n as int, j as int));
                    return Err(out_of_range(&row[j], n));
                }
                proof {
                    lemma_count_bounds(row@.take(j as int), i as int);
                    lemma_count_eq_extend(row@, j as int);
                }
                count[i] = count[i] + 1;
            },
            None => {
                assert(first_out_of_range(row@, n as int, j as int));
                return Err(out_of_range(&row[j], n));
            },
        }
        j += 1;
    }
    proof {
        assert(row@.take(len as int) =~= row@);
        lemma_count_below_zero(row@);
    }
    let mut indptr: Vec<usize> = Vec::with_capacity(n + 1);
    let mut cursor: Vec<usize> = Vec::with_capacity(n);
    indptr.push(0);
    let mut i: usize = 0;
    while i < n
        invariant
            i <= n,
            len == row@.len(),
            count@.len() == n,
            indptr@.len() == i + 1,
            cursor@.len() == i,
            forall|v: int| 0 <= v < n ==> (#[trigger] count@[v]) == count_eq(row@, v),
            forall|v: int| 0 <= v <= i ==> (#[trigger] indptr@[v]) == count_below(row@, v),
            forall|v: int| 0 <= v < i ==> (#[trigger] cursor@[v]) == count_below(row@, v),
        decreases n - i,
    {
        proof {
            lemma_count_below_succ(row@, i as int);
            lemma_count_bounds(row@, i as int);
        }
        let start = indptr[i];
        cursor.push(start);
        indptr.push(start + count[i]);
        i += 1;
    }
    let mut indices: Vec<T> = vec![T::zero(); len];
    let mut j: usize = 0;
    while j < len
        invariant
            j <= len,
            len == row@.len(),
            len == col@.len(),
            indices@.len() == len,
            cursor@.len() == n,
            counts_sources(indptr@, row@, n as int),
            forall|k: int| 0 <= k < len ==> (#[trigger] row@[k]).value() < n,
            forall|v: int|
                0 <= v < n ==> (#[trigger] cursor@[v]) == count_below(row@, v) + count_eq(
                    row@.take(j as int),
                    v,
                ),
            forall|k: int| 0 <= k < j ==> indices@[#[trigger] slot(row@, k)] == col@[k],
        decreases len - j,
    {
        match row[j].to_usize() {
            Some(source) => {
                proof {
                    lemma_slot_in_row(row@, j as int);
                    lemma_count_eq_extend(row@, j as int);
                    assert forall|k: int| 0 <= k < j implies 0 <= #[trigger] slot(row@, k) < len
                        && slot(row@, k) != slot(row@, j as int) by {
                        lemma_slot_in_row(row@, k);
                        lemma_slots_distinct(row@, k, j as int);
                    }
                }
                let at = cursor[source];
                indices[at] = col[j];
                cursor[source] = at + 1;
            },
            None => {
                assert(false);
            },
        }
        j += 1;
    }
    Ok((indptr, indices))
}

} // verus!
