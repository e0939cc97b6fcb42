use graph_matrix::{BoundsError, ConstructionError, GraphMatrix};

fn sample() -> GraphMatrix<u32> {
    let edges = vec![(0u32, 1u32), (1u32, 2u32), (2u32, 3u32), (1u32, 3u32)];
    GraphMatrix::from_edges(edges).unwrap()
}

#[test]
fn sample_layout() {
    let g = sample();
    assert_eq!(g.dim(), 4);
    assert_eq!(g.n(), 4);
    assert_eq!(g.indptr(), &[0usize, 1, 3, 4, 4][..]);
    assert_eq!(g.indices(), &[1u32, 2, 3, 3][..]);
}

#[test]
fn sample_rows() {
    let g = sample();
    assert_eq!(g.row(0).unwrap(), &[1u32][..]);
    assert_eq!(g.row(1).unwrap(), &[2u32, 3][..]);
    assert_eq!(g.row(2).unwrap(), &[3u32][..]);
    assert_eq!(g.row(3).unwrap(), &[0u32; 0][..]);
}

#[test]
fn sample_has_index() {
    let g = sample();
    assert!(g.has_index(1, 3));
    assert!(!g.has_index(3, 0));
}

#[test]
fn sample_row_out_of_bounds() {
    let g = sample();
    assert_eq!(g.row(4), Err(BoundsError::RowOutOfBounds { index: 4, dim: 4 }));
}

#[test]
fn empty_edge_list_is_refused() {
    let r = GraphMatrix::<u32>::from_edges(Vec::new());
    assert_eq!(r.err(), Some(ConstructionError::EmptyEdgeList));
}

#[test]
fn sample_summary() {
    assert_eq!(sample().to_string(), "GraphMatrix 4 x 4 with 4 entries");
}
