//! The matrix: the compressed layout of a graph's edges, and its queries.

use crate::compress::{compress, first_out_of_range};
use crate::element::MxElement;
use crate::error::{BoundsError, ConstructionError};
use crate::layout::{
    lemma_permutation_largest, lemma_permutation_len, lemma_permutation_values,
    lemma_sorted_largest, lemma_sorted_layout,
};
use crate::model::{
    edge_values, in_row, largest_vertex, lemma_edge_stored, lemma_largest_unique,
    lemma_stored_edge, offsets_wf, rows_sorted, stored_edges, values_sorted,
};
use crate::order::{search_row, sort_edges};
use crate::summary::{format_summary, summary_text};
use vstd::prelude::*;
use vstd::slice::{slice_subrange, slice_to_vec};

verus! {

/// The adjacency structure of a directed graph in compressed sparse row
/// form. Built once from an edge list, never changed afterwards.
#[derive(Debug)]
pub struct GraphMatrix<T: MxElement> {
    indptr: Vec<usize>,
    indices: Vec<T>,
}

/// The edge list can be laid out: it is not empty, and its largest vertex
/// leaves room in a machine index for the vertex count and for the
/// offsets, which are one more.
pub open spec fn buildable(edges: Seq<(nat, nat)>) -> bool {
    exists|m: nat| #[trigger] largest_vertex(edges, m) && m + 2 <= usize::MAX
}

/// An edge list whose largest vertex leaves no room cannot be laid out.
pub proof fn lemma_not_buildable(edges: Seq<(nat, nat)>, top: nat)
    requires
        largest_vertex(edges, top),
        top + 2 > usize::MAX,
    ensures
        !buildable(edges),
{
    assert forall|m: nat| #[trigger] largest_vertex(edges, m) implies m + 2 > usize::MAX by {
        lemma_largest_unique(edges, m, top);
    }
}

/// Why the edge list `edges` is refused with the error `e`.
pub open spec fn refusal(edges: Seq<(nat, nat)>, e: ConstructionError) -> bool {
    match e {
        ConstructionError::EmptyEdgeList => edges.len() == 0,
        ConstructionError::VertexOutOfRange { vertex, limit } => {
            &&& limit == usize::MAX - 1
            &&& vertex >= limit
            &&& largest_vertex(edges, vertex as nat)
        },
    }
}

/// The largest of a non-empty sequence of identifiers.
fn largest<T: MxElement>(s: &Vec<T>) -> (m: T)
    requires
        s@.len() > 0,
    ensures
        forall|k: int| 0 <= k < s@.len() ==> (#[trigger] s@[k]).value() <= m.value(),
        exists|k: int| 0 <= k < s@.len() && #[trigger] s@[k] == m,
{
    let mut m = s[0];
    let mut k: usize = 1;
    while k < s.len()
        invariant
            1 <= k <= s@.len(),
            forall|i: int| 0 <= i < k ==> (#[trigger] s@[i]).value() <= m.value(),
            exists|i: int| 0 <= i < k && #[trigger] s@[i] == m,
        decreases s@.len() - k,
    {
        if m.less_than(&s[k]) {
            m = s[k];
        }
        k += 1;
    }
    m
}

impl<T: MxElement> Clone for GraphMatrix<T> {
    /// A second matrix with the same offsets and the same stored
    /// identifiers.
    fn clone(&self) -> (copy: Self)
        ensures
            copy.offsets() == self.offsets(),
            copy.targets() == self.targets(),
    {
        proof {
            use_type_invariant(self);
        }
        GraphMatrix {
            indptr: slice_to_vec(self.indptr.as_slice()),
            indices: slice_to_vec(self.indices.as_slice()),
        }
    }
}

impl<T: MxElement> GraphMatrix<T> {
    /// The offsets: entry `r` is where row `r` begins among the stored
    /// identifiers, and the last entry is their number.
    pub closed spec fn offsets(&self) -> Seq<usize> {
        self.indptr@
    }

    /// The stored identifiers: the destinations of all edges, row by row.
    pub closed spec fn targets(&self) -> Seq<T> {
        self.indices@
    }

    /// What holds of every matrix: both sequences fit a machine index, the
    /// offsets divide the stored identifiers into rows, and every row
    /// ascends.
    pub open spec fn wf(&self) -> bool {
        &&& self.offsets().len() <= usize::MAX
        &&& self.targets().len() <= usize::MAX
        &&& offsets_wf(self.offsets(), self.targets().len() as int)
        &&& rows_sorted(self.offsets(), self.targets())
    }

    #[verifier::type_invariant]
    spec fn inv(&self) -> bool {
        self.wf()
    }

    /// The number of vertices.
    pub open spec fn spec_dim(&self) -> usize {
        (self.offsets().len() - 1) as usize
    }

    /// The number of stored edges.
    pub open spec fn spec_n(&self) -> usize {
        self.targets().len() as usize
    }

    /// The stored identifiers of row `r`.
    pub open spec fn row_targets(&self, r: int) -> Seq<T> {
        self.targets().subrange(self.offsets()[r] as int, self.offsets()[r + 1] as int)
    }

    /// The out-degree of vertex `r`.
    pub open spec fn degree(&self, r: int) -> int {
        self.offsets()[r + 1] - self.offsets()[r]
    }

    /// The edges of the graph as pairs of numbers, in storage order.
    pub open spec fn edges(&self) -> Seq<(nat, nat)> {
        stored_edges(self.offsets(), self.targets())
    }

    /// The matrix is that of the graph with the edges `edges`: it has one
    /// vertex more than the largest vertex of the list, and it stores the
    /// edges of the list, each as often as the list holds it.
    pub open spec fn encodes(&self, edges: Seq<(nat, nat)>) -> bool {
        &&& self.wf()
        &&& self.dim() >= 1
        &&& largest_vertex(edges, (self.dim() - 1) as nat)
        &&& self.n() == edges.len()
        &&& self.edges().to_multiset() == edges.to_multiset()
    }

    /// Builds the matrix of the graph whose edges are `edgelist`, in any
    /// order and with repetitions kept.
    ///
    /// The graph has one vertex more than the largest identifier in the
    /// list. An empty list is refused, and so is a list whose largest
    /// identifier leaves no room for the offsets in a machine index.
    pub fn from_edges(edgelist: Vec<(T, T)>) -> (res: Result<Self, ConstructionError>)
        ensures
            res is Ok <==> buildable(edge_values(edgelist@)),
            match res {
                Ok(g) => g.encodes(edge_values(edgelist@)),
                Err(e) => refusal(edge_values(edgelist@), e),
            },
    {
        let ghost input = edgelist@;
        let mut edges = edgelist;
        if edges.len() == 0 {
            return Err(ConstructionError::EmptyEdgeList);
        }
        sort_edges(&mut edges);
        proof {
            lemma_permutation_len(edges@, input);
            lemma_permutation_values(edges@, input);
        }
        let len = edges.len();
        let mut sources: Vec<T> = Vec::with_capacity(len);
        let mut destinations: Vec<T> = Vec::with_capacity(len);
        let mut k: usize = 0;
        while k < len
            invariant
                k <= len,
                len == edges@.len(),
                sources@.len() == k,
                destinations@.len() == k,
                forall|i: int| 0 <= i < k ==> (#[trigger] sources@[i]) == edges@[i].0,
                forall|i: int| 0 <= i < k ==> (#[trigger] destinations@[i]) == edges@[i].1,
            decreases len - k,
        {
            let (s, d) = edges[k];
            sources.push(s);
            destinations.push(d);
            k += 1;
        }
        let last_source = sources[len - 1];
        let top_destination = largest(&destinations);
        let top = if last_source.less_than(&top_destination) {
            top_destination
        } else {
            last_source
        };
        proof {
            let sorted = edge_values(edges@);
            let w = choose|i: int|
                0 <= i < destinations@.len() && #[trigger] destinations@[i] == top_destination;
            assert(sorted[w].1 == destinations@[w].value());
            assert forall|i: int| 0 <= i < sorted.len() implies (#[trigger] sorted[i]).1
                <= top_destination.value() by {
                assert(destinations@[i] == edges@[i].1);
            }
            assert(sorted.last().0 == sources@[len - 1].value());
            lemma_sorted_largest(sorted, top_destination.value(), w);
            lemma_permutation_largest(sorted, edge_values(input), top.value());
        }
        let n: usize = match top.to_usize() {
            Some(t) => {
                if t >= usize::MAX - 1 {
                    proof {
                        lemma_not_buildable(edge_values(input), top.value());
                    }
                    return Err(
                        ConstructionError::VertexOutOfRange {
                            vertex: top.to_u128(),
                            limit: usize::MAX - 1,
                        },
                    );
                }
                t + 1
            },
            None => {
                proof {
                    lemma_not_buildable(edge_values(input), top.value());
                }
                return Err(
                    ConstructionError::VertexOutOfRange {
                        vertex: top.to_u128(),
                        limit: usize::MAX - 1,
                    },
                );
            },
        };
        assert(buildable(edge_values(input))) by {
            assert(largest_vertex(edge_values(input), top.value()) && top.value() + 2
                <= usize::MAX);
        }
        let ghost ss = sources@;
        let ghost ds = destinations@;
        match compress(sources, destinations, n) {
            Ok((indptr, indices)) => {
                proof {
                    lemma_sorted_layout(edges@, ss, ds, indptr@, indices@, n as int);
                }
                Ok(GraphMatrix { indptr, indices })
            },
            Err(e) => {
                proof {
                    let j = choose|j: int| #[trigger] first_out_of_range(ss, n as int, j);
                    assert(ss[j] == edges@[j].0);
                    assert(false);
                }
                Err(e)
            },
        }
    }

    /// The neighbours of vertex `r`: the destinations of its edges, in
    /// ascending order, repetitions included. Refused where `r` is not a
    /// vertex of the graph.
    pub fn row(&self, r: T) -> (res: Result<&[T], BoundsError>)
        ensures
            match res {
                Ok(s) => {
                    &&& r.value() < self.dim()
                    &&& s@ == self.row_targets(r.value() as int)
                    &&& values_sorted(s@)
                },
                Err(e) => r.value() >= self.dim() && e.rejects_row(r.value(), self.dim()),
            },
    {
        proof {
            use_type_invariant(self);
        }
        let dim = self.indptr.len() - 1;
        match r.to_usize() {
            Some(ru) => {
                if ru >= dim {
                    return Err(BoundsError::RowOutOfBounds { index: r.to_u128(), dim });
                }
                let start = self.indptr[ru];
                let end = self.indptr[ru + 1];
                let s = slice_subrange(self.indices.as_slice(), start, end);
                assert(values_sorted(s@)) by {
                    assert forall|i: int, j: int| 0 <= i <= j < s@.len() implies (
                    #[trigger] s@[i]).value() <= (#[trigger] s@[j]).value() by {
                        assert(in_row(self.offsets(), ru as int, start + i));
                        assert(in_row(self.offsets(), ru as int, start + j));
                    }
                }
                Ok(s)
            },
            None => Err(BoundsError::RowOutOfBounds { index: r.to_u128(), dim }),
        }
    }

    /// The out-degree of vertex `r` as an identifier. Refused where `r` is
    /// not a vertex of the graph, and where the degree is more than the
    /// identifier type can hold.
    pub fn row_len(&self, r: usize) -> (res: Result<T, BoundsError>)
        ensures
            match res {
                Ok(d) => r < self.dim() && d.value() == self.degree(r as int),
                Err(BoundsError::RowOutOfBounds { index, dim }) => {
                    &&& r >= self.dim()
                    &&& index == r
                    &&& dim == self.dim()
                },
                Err(BoundsError::DegreeTooWide { degree }) => {
                    &&& r < self.dim()
                    &&& degree == self.degree(r as int)
                    &&& degree > T::max_value()
                },
            },
    {
        proof {
            use_type_invariant(self);
        }
        let dim = self.indptr.len() - 1;
        if r >= dim {
            return Err(BoundsError::RowOutOfBounds { index: r as u128, dim });
        }
        let degree = self.indptr[r + 1] - self.indptr[r];
        match T::from_usize(degree) {
            Some(d) => Ok(d),
            None => Err(BoundsError::DegreeTooWide { degree }),
        }
    }

    /// Whether the graph has an edge from `r` to `c`.
    pub fn has_index(&self, r: T, c: T) -> (b: bool)
        ensures
            b == self.edges().contains((r.value(), c.value())),
    {
        proof {
            use_type_invariant(self);
            assert(self.offsets().len() == self.indptr.len());
        }
        match self.row(r) {
            Ok(s) => {
                let found = search_row(s, &c);
                proof {
                    let e = (r.value(), c.value());
                    let start = self.offsets()[r.value() as int] as int;
                    match found {
                        Ok(i) => {
                            assert(in_row(self.offsets(), r.value() as int, start + i));
                            lemma_stored_edge(
                                self.offsets(),
                                self.targets(),
                                r.value() as int,
                                start + i,
                            );
                        },
                        Err(_) => {
                            if self.edges().contains(e) {
                                lemma_edge_stored(self.offsets(), self.targets(), e);
                                let k = choose|k: int|
                                    #[trigger] in_row(self.offsets(), e.0 as int, k)
                                        && self.targets()[k].value() == e.1;
                                assert(s@[k - start] == self.targets()[k]);
                            }
                        },
                    }
                }
                found.is_ok()
            },
            Err(_) => {
                proof {
                    let e = (r.value(), c.value());
                    if self.edges().contains(e) {
                        lemma_edge_stored(self.offsets(), self.targets(), e);
                    }
                }
                false
            },
        }
    }

    /// The number of stored edges.
    #[verifier::when_used_as_spec(spec_n)]
    pub fn n(&self) -> (n: usize)
        ensures
            n == self.spec_n(),
    {
        self.indices.len()
    }

    /// The number of vertices.
    #[verifier::when_used_as_spec(spec_dim)]
    pub fn dim(&self) -> (dim: usize)
        ensures
            dim == self.spec_dim(),
    {
        proof {
            use_type_invariant(self);
        }
        self.indptr.len() - 1
    }

    /// The offsets, one per vertex and one more.
    pub fn indptr(&self) -> (s: &[usize])
        ensures
            s@ == self.offsets(),
            self.wf(),
    {
        proof {
            use_type_invariant(self);
        }
        self.indptr.as_slice()
    }

    /// The stored identifiers, row by row.
    pub fn indices(&self) -> (s: &[T])
        ensures
            s@ == self.targets(),
            self.wf(),
    {
        proof {
            use_type_invariant(self);
        }
        self.indices.as_slice()
    }

    /// The description `GraphMatrix {dim} x {dim} with {n} entries`.
    pub fn to_string(&self) -> (text: String)
        ensures
            text@ == summary_text(self.dim() as nat, self.n() as nat),
    {
        format_summary(self.dim(), self.n())
    }
}

} // verus!
