use graph_matrix::{BoundsError, GraphMatrix};

fn listed(edges: &[(u8, u8)], r: u8, c: u8) -> bool {
    let mut found = false;
    for e in edges {
        if *e == (r, c) {
            found = true;
        }
    }
    found
}

#[test]
fn rows_ascend() {
    let g = GraphMatrix::from_edges(vec![(0u8, 9u8), (0, 3), (0, 7), (0, 3), (2, 5), (2, 4)])
        .unwrap();
    assert_eq!(g.row(0).unwrap(), &[3u8, 3, 7, 9][..]);
    assert_eq!(g.row(1).unwrap(), &[0u8; 0][..]);
    assert_eq!(g.row(2).unwrap(), &[4u8, 5][..]);
    for r in 0..g.dim() {
        let row = g.row(r as u8).unwrap();
        for i in 1..row.len() {
            assert!(row[i - 1] <= row[i]);
        }
    }
}

#[test]
fn has_index_agrees_with_the_list() {
    let edges = vec![(0u8, 1u8), (3, 3), (1, 0), (3, 0), (1, 0), (4, 2)];
    let g = GraphMatrix::from_edges(edges.clone()).unwrap();
    for r in 0..7u8 {
        for c in 0..7u8 {
            assert_eq!(g.has_index(r, c), listed(&edges, r, c));
        }
    }
}

#[test]
fn has_index_outside_the_graph_is_false() {
    let g = GraphMatrix::from_edges(vec![(0u8, 1u8)]).unwrap();
    assert!(!g.has_index(2, 0));
    assert!(!g.has_index(200, 1));
    assert!(!g.has_index(0, 200));
}

#[test]
fn row_len_is_the_out_degree() {
    let g = GraphMatrix::from_edges(vec![(0u16, 1u16), (2, 0), (2, 2), (2, 0), (3, 1)]).unwrap();
    assert_eq!(g.row_len(0), Ok(1));
    assert_eq!(g.row_len(1), Ok(0));
    assert_eq!(g.row_len(2), Ok(3));
    assert_eq!(g.row_len(3), Ok(1));
}

#[test]
fn row_len_out_of_bounds() {
    let g = GraphMatrix::from_edges(vec![(0u16, 1u16)]).unwrap();
    assert_eq!(g.row_len(2), Err(BoundsError::RowOutOfBounds { index: 2, dim: 2 }));
    assert_eq!(g.row_len(77), Err(BoundsError::RowOutOfBounds { index: 77, dim: 2 }));
}

#[test]
fn row_out_of_bounds_names_index_and_dim() {
    let g = GraphMatrix::from_edges(vec![(0u16, 1u16)]).unwrap();
    assert_eq!(g.row(2), Err(BoundsError::RowOutOfBounds { index: 2, dim: 2 }));
    assert_eq!(g.row(65535), Err(BoundsError::RowOutOfBounds { index: 65535, dim: 2 }));
    assert!(g.row(1).is_ok());
}

#[test]
fn degree_wider_than_the_identifier() {
    let mut edges = Vec::new();
    for _ in 0..255 {
        edges.push((0u8, 1u8));
    }
    let g = GraphMatrix::from_edges(edges.clone()).unwrap();
    assert_eq!(g.row_len(0), Ok(255));
    edges.push((0, 1));
    let g = GraphMatrix::from_edges(edges).unwrap();
    assert_eq!(g.row_len(0), Err(BoundsError::DegreeTooWide { degree: 256 }));
    assert_eq!(g.row_len(1), Ok(0));
    assert_eq!(g.row(0).unwrap().len(), 256);
}

#[test]
fn summary_uses_decimal_numerals() {
    let g = GraphMatrix::from_edges(vec![(0u32, 1u32), (1199, 2), (2, 3)]).unwrap();
    assert_eq!(g.to_string(), "GraphMatrix 1200 x 1200 with 3 entries");
    let g = GraphMatrix::from_edges(vec![(0u32, 0u32)]).unwrap();
    assert_eq!(g.to_string(), "GraphMatrix 1 x 1 with 1 entries");
}

#[test]
fn search_finds_every_position_of_a_long_row() {
    let mut edges = Vec::new();
    for c in 0..50u32 {
        edges.push((1u32, 99 - 2 * c));
    }
    let g = GraphMatrix::from_edges(edges).unwrap();
    for c in 0..100u32 {
        assert_eq!(g.has_index(1, c), c % 2 == 1);
    }
    assert!(!g.has_index(0, 1));
}
