//! The one-line description of a matrix.

use vstd::prelude::*;

verus! {

/// The decimal digit for a number below ten.
pub open spec fn digit(d: nat) -> char {
    if d == 0 {
        '0'
    } else if d == 1 {
        '1'
    } else if d == 2 {
        '2'
    } else if d == 3 {
        '3'
    } else if d == 4 {
        '4'
    } else if d == 5 {
        '5'
    } else if d == 6 {
        '6'
    } else if d == 7 {
        '7'
    } else if d == 8 {
        '8'
    } else {
        '9'
    }
}

/// The decimal numeral of `n`, without sign or leading zeros.
pub open spec fn decimal(n: nat) -> Seq<char>
    decreases n,
{
    if n < 10 {
        seq![digit(n)]
    } else {
        decimal(n / 10).push(digit(n % 10))
    }
}

/// The description of a matrix of `dim` vertices and `n` stored edges.
pub open spec fn summary_text(dim: nat, n: nat) -> Seq<char> {
    "GraphMatrix "@ + decimal(dim) + " x "@ + decimal(dim) + " with "@ + decimal(n) + " entries"@
}

/// `format!` with the two numbers in their `Display` form, which for a
/// `usize` is its decimal numeral.
#[verifier::external_body]
pub(crate) fn format_summary(dim: usize, n: usize) -> (text: String)
    ensures
        text@ == summary_text(dim as nat, n as nat),
{
    format!("GraphMatrix {} x {} with {} entries", dim, dim, n)
}

} // verus!
