use graph_matrix::compress::compress;
use graph_matrix::{ConstructionError, GraphMatrix};

#[test]
fn dim_is_largest_vertex_plus_one() {
    let g = GraphMatrix::from_edges(vec![(0u16, 5u16), (2, 1)]).unwrap();
    assert_eq!(g.dim(), 6);
    let h = GraphMatrix::from_edges(vec![(9u16, 0u16), (2, 1)]).unwrap();
    assert_eq!(h.dim(), 10);
    let k = GraphMatrix::from_edges(vec![(0u16, 0u16)]).unwrap();
    assert_eq!(k.dim(), 1);
    assert_eq!(k.indptr(), &[0usize, 1][..]);
    assert_eq!(k.indices(), &[0u16][..]);
}

#[test]
fn offsets_frame_the_stored_edges() {
    let edges = vec![(3u8, 0u8), (0, 2), (3, 3), (1, 1), (3, 1), (0, 0)];
    let count = edges.len();
    let g = GraphMatrix::from_edges(edges).unwrap();
    let indptr = g.indptr();
    assert_eq!(indptr.len(), g.dim() + 1);
    assert_eq!(indptr[0], 0);
    for i in 0..g.dim() {
        assert!(indptr[i] <= indptr[i + 1]);
    }
    assert_eq!(indptr[g.dim()], g.n());
    assert_eq!(g.n(), count);
    assert_eq!(indptr, &[0usize, 2, 3, 3, 6][..]);
    assert_eq!(g.indices(), &[0u8, 2, 1, 0, 1, 3][..]);
}

#[test]
fn shuffled_edges_give_the_same_arrays() {
    let sorted = vec![(0u32, 1u32), (0, 4), (1, 0), (1, 0), (2, 2), (4, 3)];
    let shuffled = vec![(4u32, 3u32), (1, 0), (0, 4), (2, 2), (1, 0), (0, 1)];
    let g = GraphMatrix::from_edges(sorted).unwrap();
    let h = GraphMatrix::from_edges(shuffled).unwrap();
    assert_eq!(g.indptr(), h.indptr());
    assert_eq!(g.indices(), h.indices());
    assert_eq!(g.indptr(), &[0usize, 2, 4, 5, 5, 6][..]);
    assert_eq!(g.indices(), &[1u32, 4, 0, 0, 2, 3][..]);
}

#[test]
fn parallel_edges_are_kept() {
    let g = GraphMatrix::from_edges(vec![(1u8, 2u8), (1, 2), (0, 1), (1, 2)]).unwrap();
    assert_eq!(g.n(), 4);
    assert_eq!(g.row(1).unwrap(), &[2u8, 2, 2][..]);
    assert_eq!(g.row_len(1), Ok(3));
    assert!(g.has_index(1, 2));
}

#[test]
fn vertex_without_room_is_refused() {
    let limit = usize::MAX - 1;
    let r = GraphMatrix::from_edges(vec![(0usize, 1usize), (usize::MAX, 0)]);
    assert_eq!(
        r.err(),
        Some(ConstructionError::VertexOutOfRange { vertex: usize::MAX as u128, limit })
    );
    let r = GraphMatrix::from_edges(vec![(0usize, limit), (3, 0)]);
    assert_eq!(
        r.err(),
        Some(ConstructionError::VertexOutOfRange { vertex: limit as u128, limit })
    );
}

#[test]
fn compress_counts_and_places() {
    let (indptr, indices) = compress(vec![0u32, 1, 1, 2], vec![1u32, 2, 3, 3], 4).unwrap();
    assert_eq!(indptr, vec![0usize, 1, 3, 4, 4]);
    assert_eq!(indices, vec![1u32, 2, 3, 3]);
}

#[test]
fn compress_is_a_stable_counting_sort() {
    let (indptr, indices) = compress(vec![1u8, 0, 1, 0, 2], vec![5u8, 7, 6, 9, 8], 3).unwrap();
    assert_eq!(indptr, vec![0usize, 2, 4, 5]);
    assert_eq!(indices, vec![7u8, 9, 5, 6, 8]);
}

#[test]
fn compress_of_nothing() {
    let (indptr, indices) = compress(Vec::<u8>::new(), Vec::<u8>::new(), 0).unwrap();
    assert_eq!(indptr, vec![0usize]);
    assert_eq!(indices, Vec::<u8>::new());
    let (indptr, indices) = compress(Vec::<u8>::new(), Vec::<u8>::new(), 2).unwrap();
    assert_eq!(indptr, vec![0usize, 0, 0]);
    assert_eq!(indices, Vec::<u8>::new());
}

#[test]
fn compress_reports_first_source_out_of_range() {
    let r = compress(vec![1u32, 9, 0, 12], vec![0u32, 0, 0, 0], 2);
    assert_eq!(r, Err(ConstructionError::VertexOutOfRange { vertex: 9, limit: 2 }));
    let r = compress(vec![2u32], vec![0u32], 2);
    assert_eq!(r, Err(ConstructionError::VertexOutOfRange { vertex: 2, limit: 2 }));
}

#[test]
fn clone_keeps_the_arrays() {
    let g = GraphMatrix::from_edges(vec![(2u8, 0u8), (0, 1)]).unwrap();
    let h = g.clone();
    assert_eq!(g.indptr(), h.indptr());
    assert_eq!(g.indices(), h.indices());
    assert_eq!(h.dim(), 3);
}
