//! The typed failures of construction and of queries.

use vstd::prelude::*;

verus! {

/// Why a matrix could not be built.
#[derive(Debug, Clone, Copy, PartialEq, Eq, Structural)]
pub enum ConstructionError {
    /// The edge list holds no edge.
    EmptyEdgeList,
    /// The vertex identifier `vertex` is not below `limit`, the number of
    /// vertices that the structure under construction can index.
    VertexOutOfRange { vertex: u128, limit: usize },
}

/// Why a row query was refused.
#[derive(Debug, Clone, Copy, PartialEq, Eq, Structural)]
pub enum BoundsError {
    /// The row `index` is not below `dim`, the number of vertices.
    RowOutOfBounds { index: u128, dim: usize },
    /// The row exists, but its out-degree `degree` does not fit the
    /// identifier type.
    DegreeTooWide { degree: usize },
}

/// Why a line of an edge list in text form was refused. Lines are counted
/// from one, and so are the fields of a line.
#[derive(Debug, Clone, Copy, PartialEq, Eq, Structural)]
pub enum ParseError {
    /// The line does not hold exactly two fields.
    FieldCount { line: usize },
    /// The field is not a decimal numeral of an unsigned 128-bit integer.
    InvalidNumber { line: usize, field: usize },
    /// The field is a number that the identifier type cannot hold.
    VertexTooWide { line: usize, field: usize, value: u128 },
}

/// Why no matrix came of an edge list in text form.
#[derive(Debug, Clone, Copy, PartialEq, Eq, Structural)]
pub enum LoadError {
    /// A line was refused.
    Parse(ParseError),
    /// Every line was read, and the edges were refused.
    Construction(ConstructionError),
}

impl ConstructionError {
    /// The error reports the identifier that stands for `vertex` as not
    /// below `limit`.
    pub open spec fn rejects(self, vertex: nat, limit: usize) -> bool {
        self matches ConstructionError::VertexOutOfRange { vertex: v, limit: l } && v == vertex
            && l == limit
    }
}

impl BoundsError {
    /// The error reports the row `index` as not below `dim`.
    pub open spec fn rejects_row(self, index: nat, dim: usize) -> bool {
        self matches BoundsError::RowOutOfBounds { index: i, dim: d } && i == index && d == dim
    }
}

} // verus!
