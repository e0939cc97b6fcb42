//! Compressed sparse row storage for the adjacency structure of a directed
//! graph, built once from an unordered edge list and queried afterwards.
//!
//! [`GraphMatrix`] is the structure; [`GraphMatrix::from_edges`] builds it
//! by sorting the edges and handing them to [`compress::compress`], and
//! [`GraphMatrix::from_edge_lines`] reads the edges from text first. Vertex
//! identifiers are any unsigned integer type with the capability
//! [`MxElement`]. The modules `model`, `counting` and `layout` hold the
//! mathematics that the contracts are stated in, and `laws` what follows
//! from them for every matrix.

pub mod compress;
pub mod counting;
pub mod edge_text;
pub mod element;
pub mod error;
pub mod laws;
pub mod layout;
pub mod load;
pub mod matrix;
pub mod model;
pub mod order;
pub mod summary;

pub use crate::element::MxElement;
pub use crate::edge_text::parse_edge_line;
pub use crate::error::{BoundsError, ConstructionError, LoadError, ParseError};
pub use crate::matrix::GraphMatrix;
