use graph_matrix::edge_text::is_space_char;
use graph_matrix::{
    parse_edge_line, BoundsError, ConstructionError, GraphMatrix, LoadError, ParseError,
};

fn lines(texts: &[&str]) -> Vec<String> {
    let mut v = Vec::new();
    for t in texts {
        v.push(String::from(*t));
    }
    v
}

#[test]
fn line_with_two_numbers_is_an_edge() {
    assert_eq!(parse_edge_line::<u32>("3 4", 1), Ok(Some((3, 4))));
    assert_eq!(parse_edge_line::<u32>("  12\t 0007  ", 1), Ok(Some((12, 7))));
    assert_eq!(parse_edge_line::<u32>("0 0", 1), Ok(Some((0, 0))));
    assert_eq!(parse_edge_line::<u32>("+5 +6", 1), Ok(Some((5, 6))));
    assert_eq!(parse_edge_line::<u8>("255 0\r", 9), Ok(Some((255, 0))));
    assert_eq!(
        parse_edge_line::<u64>("18446744073709551615 1", 1),
        Ok(Some((u64::MAX, 1)))
    );
}

#[test]
fn unicode_whitespace_separates_fields() {
    assert_eq!(parse_edge_line::<u32>("1\u{3000}2", 1), Ok(Some((1, 2))));
    assert_eq!(parse_edge_line::<u32>("\u{a0}1\u{2003}2\u{85}", 1), Ok(Some((1, 2))));
}

#[test]
fn whitespace_is_what_the_standard_library_calls_whitespace() {
    let mut p = 0u32;
    while p <= 0x10FFFF {
        if let Some(c) = char::from_u32(p) {
            assert_eq!(is_space_char(c), c.is_whitespace());
        }
        p += 1;
    }
}

#[test]
fn comment_lines_give_nothing() {
    assert_eq!(parse_edge_line::<u32>("# 1 2", 1), Ok(None));
    assert_eq!(parse_edge_line::<u32>("#", 1), Ok(None));
    assert_eq!(parse_edge_line::<u32>("   \t#anything at all", 1), Ok(None));
}

#[test]
fn wrong_field_count_is_refused() {
    assert_eq!(parse_edge_line::<u32>("", 4), Err(ParseError::FieldCount { line: 4 }));
    assert_eq!(parse_edge_line::<u32>("   ", 5), Err(ParseError::FieldCount { line: 5 }));
    assert_eq!(parse_edge_line::<u32>("17", 6), Err(ParseError::FieldCount { line: 6 }));
    assert_eq!(parse_edge_line::<u32>("1 2 3", 7), Err(ParseError::FieldCount { line: 7 }));
    assert_eq!(parse_edge_line::<u32>("1 2 # no", 8), Err(ParseError::FieldCount { line: 8 }));
    assert_eq!(parse_edge_line::<u32>("x y z", 9), Err(ParseError::FieldCount { line: 9 }));
}

#[test]
fn bad_numerals_are_refused() {
    assert_eq!(
        parse_edge_line::<u32>("a 2", 3),
        Err(ParseError::InvalidNumber { line: 3, field: 1 })
    );
    assert_eq!(
        parse_edge_line::<u32>("1 2x", 3),
        Err(ParseError::InvalidNumber { line: 3, field: 2 })
    );
    assert_eq!(
        parse_edge_line::<u32>("-1 2", 3),
        Err(ParseError::InvalidNumber { line: 3, field: 1 })
    );
    assert_eq!(
        parse_edge_line::<u32>("+ 2", 3),
        Err(ParseError::InvalidNumber { line: 3, field: 1 })
    );
    assert_eq!(
        parse_edge_line::<u32>("1 ++2", 3),
        Err(ParseError::InvalidNumber { line: 3, field: 2 })
    );
    assert_eq!(
        parse_edge_line::<u32>("1 1.5", 3),
        Err(ParseError::InvalidNumber { line: 3, field: 2 })
    );
    assert_eq!(
        parse_edge_line::<u32>("\u{663}1 2", 3),
        Err(ParseError::InvalidNumber { line: 3, field: 1 })
    );
}

#[test]
fn numerals_beyond_128_bits_are_refused() {
    assert_eq!(
        parse_edge_line::<u64>("1 340282366920938463463374607431768211456", 2),
        Err(ParseError::InvalidNumber { line: 2, field: 2 })
    );
    assert_eq!(
        parse_edge_line::<u64>("99999999999999999999999999999999999999999999 1", 2),
        Err(ParseError::InvalidNumber { line: 2, field: 1 })
    );
    assert_eq!(
        parse_edge_line::<u64>("340282366920938463463374607431768211455 1", 2),
        Err(ParseError::VertexTooWide { line: 2, field: 1, value: u128::MAX })
    );
}

#[test]
fn numbers_wider_than_the_identifier_are_refused() {
    assert_eq!(
        parse_edge_line::<u8>("256 1", 12),
        Err(ParseError::VertexTooWide { line: 12, field: 1, value: 256 })
    );
    assert_eq!(
        parse_edge_line::<u8>("1 1000", 12),
        Err(ParseError::VertexTooWide { line: 12, field: 2, value: 1000 })
    );
    assert_eq!(
        parse_edge_line::<u16>("65536 70000", 12),
        Err(ParseError::VertexTooWide { line: 12, field: 1, value: 65536 })
    );
    assert_eq!(
        parse_edge_line::<u32>("4294967296 1", 12),
        Err(ParseError::VertexTooWide { line: 12, field: 1, value: 4294967296 })
    );
}

#[test]
fn numerals_are_judged_before_widths() {
    assert_eq!(
        parse_edge_line::<u8>("300 x", 1),
        Err(ParseError::InvalidNumber { line: 1, field: 2 })
    );
}

#[test]
fn lines_build_the_matrix() {
    let text = lines(&["# a small graph", "0 1", "1 2", "  # indented comment", "2 3", "1 3"]);
    let g = GraphMatrix::<u32>::from_edge_lines(&text).unwrap();
    assert_eq!(g.dim(), 4);
    assert_eq!(g.n(), 4);
    assert_eq!(g.indptr(), &[0usize, 1, 3, 4, 4][..]);
    assert_eq!(g.indices(), &[1u32, 2, 3, 3][..]);
    assert_eq!(g.row(4), Err(BoundsError::RowOutOfBounds { index: 4, dim: 4 }));
}

#[test]
fn first_refused_line_is_reported() {
    let text = lines(&["0 1", "# fine", "1 2 3", "oops"]);
    assert_eq!(
        GraphMatrix::<u32>::from_edge_lines(&text).err(),
        Some(LoadError::Parse(ParseError::FieldCount { line: 3 }))
    );
    let text = lines(&["0 1", "", "1 2"]);
    assert_eq!(
        GraphMatrix::<u32>::from_edge_lines(&text).err(),
        Some(LoadError::Parse(ParseError::FieldCount { line: 2 }))
    );
    let text = lines(&["0 1", "1 300"]);
    assert_eq!(
        GraphMatrix::<u8>::from_edge_lines(&text).err(),
        Some(LoadError::Parse(ParseError::VertexTooWide { line: 2, field: 2, value: 300 }))
    );
}

#[test]
fn lines_without_edges_are_refused() {
    let text = lines(&["# nothing", "   # here"]);
    assert_eq!(
        GraphMatrix::<u32>::from_edge_lines(&text).err(),
        Some(LoadError::Construction(ConstructionError::EmptyEdgeList))
    );
    assert_eq!(
        GraphMatrix::<u32>::from_edge_lines(&Vec::new()).err(),
        Some(LoadError::Construction(ConstructionError::EmptyEdgeList))
    );
}

#[test]
fn listed_vertex_without_room_is_refused() {
    let text = lines(&["0 1", "18446744073709551615 0"]);
    let top = u64::MAX as u128;
    if top >= usize::MAX as u128 - 1 {
        assert_eq!(
            GraphMatrix::<u64>::from_edge_lines(&text).err(),
            Some(LoadError::Construction(ConstructionError::VertexOutOfRange {
                vertex: top,
                limit: usize::MAX - 1,
            }))
        );
    }
}
