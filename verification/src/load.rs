//! Building a matrix from an edge list in text form.

use crate::edge_text::{line_outcome, parse_edge_line};
use crate::element::MxElement;
use crate::error::{LoadError, ParseError};
use crate::matrix::{buildable, refusal, GraphMatrix};
use crate::model::{edge_value, edge_values};
use vstd::prelude::*;

verus! {

/// The texts of a sequence of lines.
pub open spec fn line_texts(lines: Seq<String>) -> Seq<Seq<char>> {
    Seq::new(lines.len(), |i: int| lines[i]@)
}

/// The line at position `i`, which is line number `i + 1`, is refused.
pub open spec fn line_refused<T: MxElement>(texts: Seq<Seq<char>>, i: int) -> bool {
    line_outcome::<T>(texts[i], (i + 1) as usize) is Err
}

/// Position `i` holds the first line that is refused.
pub open spec fn first_refused<T: MxElement>(texts: Seq<Seq<char>>, i: int) -> bool {
    &&& 0 <= i < texts.len()
    &&& line_refused::<T>(texts, i)
    &&& forall|k: int| 0 <= k < i ==> !#[trigger] line_refused::<T>(texts, k)
}

/// No line is refused.
pub open spec fn all_accepted<T: MxElement>(texts: Seq<Seq<char>>) -> bool {
    forall|k: int| 0 <= k < texts.len() ==> !#[trigger] line_refused::<T>(texts, k)
}

/// The edges that the lines list, in the order of the lines. Comments
/// and refused lines add none.
pub open spec fn listed_edges<T: MxElement>(texts: Seq<Seq<char>>) -> Seq<(nat, nat)>
    decreases texts.len(),
{
    if texts.len() == 0 {
        Seq::empty()
    } else {
        let before = listed_edges::<T>(texts.drop_last());
        match line_outcome::<T>(texts.last(), texts.len() as usize) {
            Ok(Some(e)) => before.push(e),
            _ => before,
        }
    }
}

impl<T: MxElement> GraphMatrix<T> {
    /// Builds the matrix of the graph whose edges the lines list.
    ///
    /// The first line that is refused stops the reading and is reported.
    /// Where every line is accepted, the edges are laid out as
    /// `from_edges` lays them out, and refused as it refuses them.
    pub fn from_edge_lines(lines: &[String]) -> (res: Result<Self, LoadError>)
        ensures
            res is Ok <==> all_accepted::<T>(line_texts(lines@)) && buildable(
                listed_edges::<T>(line_texts(lines@)),
            ),
            match res {
                Ok(g) => g.encodes(listed_edges::<T>(line_texts(lines@))),
                Err(LoadError::Parse(e)) => exists|i: int|
                    #[trigger] first_refused::<T>(line_texts(lines@), i) && line_outcome::<T>(
                        line_texts(lines@)[i],
                        (i + 1) as usize,
                    ) == Err::<Option<(nat, nat)>, ParseError>(e),
                Err(LoadError::Construction(e)) => {
                    &&& all_accepted::<T>(line_texts(lines@))
                    &&& refusal(listed_edges::<T>(line_texts(lines@)), e)
                },
            },
    {
        let ghost texts = line_texts(lines@);
        let mut edges: Vec<(T, T)> = Vec::new();
        let mut i: usize = 0;
        assert(edge_values(edges@) =~= listed_edges::<T>(texts.take(0)));
        while i < lines.len()
            invariant
                i <= lines@.len(),
                texts == line_texts(lines@),
                forall|k: int| 0 <= k < i ==> !#[trigger] line_refused::<T>(texts, k),
                edge_values(edges@) == listed_edges::<T>(texts.take(i as int)),
            decreases lines@.len() - i,
        {
            let ghost before = edges@;
            proof {
                assert(texts.take(i + 1).drop_last() =~= texts.take(i as int));
                assert(texts.take(i + 1).last() == lines@[i as int]@);
            }
            match parse_edge_line::<T>(lines[i].as_str(), i + 1) {
                Ok(Some(e)) => {
                    edges.push(e);
                    assert(edge_values(edges@) =~= edge_values(before).push(edge_value(e)));
                },
                Ok(None) => {},
                Err(e) => {
                    assert(first_refused::<T>(texts, i as int));
                    return Err(LoadError::Parse(e));
                },
            }
            i += 1;
        }
        assert(texts.take(i as int) =~= texts);
        match Self::from_edges(edges) {
            Ok(g) => Ok(g),
            Err(e) => Err(LoadError::Construction(e)),
        }
    }
}

} // verus!
