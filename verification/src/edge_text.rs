//! The text form of an edge list: one edge per line, as two decimal
//! numerals separated by whitespace, with `#` for comment lines.

use crate::element::MxElement;
use crate::error::ParseError;
use vstd::prelude::*;

verus! {

/// The characters that separate fields: those with the Unicode property
/// `White_Space`.
pub open spec fn is_space(c: char) -> bool {
    let p = c as u32;
    ||| 0x09 <= p <= 0x0D
    ||| p == 0x20
    ||| p == 0x85
    ||| p == 0xA0
    ||| p == 0x1680
    ||| 0x2000 <= p <= 0x200A
    ||| p == 0x2028
    ||| p == 0x2029
    ||| p == 0x202F
    ||| p == 0x205F
    ||| p == 0x3000
}

/// The decimal digits `0` to `9`.
pub open spec fn is_digit(c: char) -> bool {
    0x30 <= c as u32 <= 0x39
}

/// Every character of `s` is a decimal digit.
pub open spec fn all_digits(s: Seq<char>) -> bool {
    forall|k: int| 0 <= k < s.len() ==> is_digit(#[trigger] s[k])
}

/// The number that a sequence of decimal digits denotes.
pub open spec fn digits_value(s: Seq<char>) -> nat
    decreases s.len(),
{
    if s.len() == 0 {
        0
    } else {
        digits_value(s.drop_last()) * 10 + (s.last() as u32 - 0x30) as nat
    }
}

/// A field without the plus sign that may stand in front of it.
pub open spec fn unsigned_part(field: Seq<char>) -> Seq<char> {
    if field.len() > 0 && field[0] == '+' {
        field.drop_first()
    } else {
        field
    }
}

/// The number that a field denotes: an optional plus sign, then one
/// decimal digit or more, the whole at most `u128::MAX`.
pub open spec fn number_of(field: Seq<char>) -> Option<u128> {
    let digits = unsigned_part(field);
    if digits.len() > 0 && all_digits(digits) && digits_value(digits) <= u128::MAX {
        Some(digits_value(digits) as u128)
    } else {
        None
    }
}

/// The first position at or behind `i` that holds no whitespace, or the
/// length of `s` where only whitespace follows.
pub open spec fn field_start(s: Seq<char>, i: int) -> int
    decreases s.len() - i,
{
    if 0 <= i < s.len() && is_space(s[i]) {
        field_start(s, i + 1)
    } else {
        i
    }
}

/// The first position at or behind `i` that holds whitespace, or the
/// length of `s` where none follows.
pub open spec fn field_end(s: Seq<char>, i: int) -> int
    decreases s.len() - i,
{
    if 0 <= i < s.len() && !is_space(s[i]) {
        field_end(s, i + 1)
    } else {
        i
    }
}

/// The line is a comment: its first character that is not whitespace is `#`.
pub open spec fn is_comment(s: Seq<char>) -> bool {
    let a = field_start(s, 0);
    a < s.len() && s[a] == '#'
}

/// The two fields of a line that holds exactly two, `None` of any other.
pub open spec fn two_fields(s: Seq<char>) -> Option<(Seq<char>, Seq<char>)> {
    let a0 = field_start(s, 0);
    let b0 = field_end(s, a0);
    let a1 = field_start(s, b0);
    let b1 = field_end(s, a1);
    let a2 = field_start(s, b1);
    if a0 < s.len() && a1 < s.len() && a2 >= s.len() {
        Some((s.subrange(a0, b0), s.subrange(a1, b1)))
    } else {
        None
    }
}

/// What line number `line` with the text `s` means for identifiers of type
/// `T`: nothing, where it is a comment; an edge, where it holds two
/// numbers that `T` can hold; an error otherwise. The fields are judged in
/// this order: their count, the numeral of the first, the numeral of the
/// second, the width of the first, the width of the second.
pub open spec fn line_outcome<T: MxElement>(s: Seq<char>, line: usize) -> Result<
    Option<(nat, nat)>,
    ParseError,
> {
    if is_comment(s) {
        Ok(None)
    } else {
        match two_fields(s) {
            None => Err(ParseError::FieldCount { line }),
            Some((first, second)) => match (number_of(first), number_of(second)) {
                (None, _) => Err(ParseError::InvalidNumber { line, field: 1 }),
                (Some(_), None) => Err(ParseError::InvalidNumber { line, field: 2 }),
                (Some(x), Some(y)) => if x > T::max_value() {
                    Err(ParseError::VertexTooWide { line, field: 1, value: x })
                } else if y > T::max_value() {
                    Err(ParseError::VertexTooWide { line, field: 2, value: y })
                } else {
                    Ok(Some((x as nat, y as nat)))
                },
            },
        }
    }
}

/// A prefix of a digit sequence denotes no more than the whole.
proof fn lemma_digits_value_grows(s: Seq<char>, k: int)
    requires
        0 <= k <= s.len(),
    ensures
        digits_value(s.take(k)) <= digits_value(s),
    decreases s.len() - k,
{
    if k < s.len() {
        assert(s.drop_last().take(k) =~= s.take(k));
        lemma_digits_value_grows(s.drop_last(), k);
    } else {
        assert(s.take(k) =~= s);
    }
}

/// Whether `c` separates fields.
pub fn is_space_char(c: char) -> (b: bool)
    ensures
        b == is_space(c),
{
    let p = c as u32;
    (0x09 <= p && p <= 0x0D) || p == 0x20 || p == 0x85 || p == 0xA0 || p == 0x1680 || (0x2000 <= p
        && p <= 0x200A) || p == 0x2028 || p == 0x2029 || p == 0x202F || p == 0x205F || p == 0x3000
}

/// The characters of a string, in order.
fn chars_of(text: &str) -> (v: Vec<char>)
    ensures
        v@ == text@,
{
    let mut v: Vec<char> = Vec::new();
    for c in it: text.chars()
        invariant
            v@ == it.seq().take(it.index() as int),
    {
        v.push(c);
    }
    v
}

/// Skips whitespace from position `i` on.
fn skip_spaces(v: &Vec<char>, i: usize) -> (a: usize)
    requires
        i <= v@.len(),
    ensures
        a == field_start(v@, i as int),
        i <= a <= v@.len(),
{
    let mut a = i;
    while a < v.len() && is_space_char(v[a])
        invariant
            i <= a <= v@.len(),
            field_start(v@, a as int) == field_start(v@, i as int),
        decreases v@.len() - a,
    {
        a += 1;
    }
    a
}

/// Skips what is not whitespace from position `i` on.
fn skip_field(v: &Vec<char>, i: usize) -> (b: usize)
    requires
        i <= v@.len(),
    ensures
        b == field_end(v@, i as int),
        i <= b <= v@.len(),
{
    let mut b = i;
    while b < v.len() && !is_space_char(v[b])
        invariant
            i <= b <= v@.len(),
            field_end(v@, b as int) == field_end(v@, i as int),
        decreases v@.len() - b,
    {
        b += 1;
    }
    b
}

/// Reads the field between the positions `a` and `b` as a number.
fn read_number(v: &Vec<char>, a: usize, b: usize) -> (r: Option<u128>)
    requires
        a <= b <= v@.len(),
    ensures
        r == number_of(v@.subrange(a as int, b as int)),
{
    let ghost field = v@.subrange(a as int, b as int);
    let start = if a < b && v[a] == '+' {
        a + 1
    } else {
        a
    };
    let ghost digits = unsigned_part(field);
    assert(digits =~= v@.subrange(start as int, b as int));
    if start == b {
        return None;
    }
    let mut value: u128 = 0;
    let mut i = start;
    while i < b
        invariant
            start <= i <= b <= v@.len(),
            digits == unsigned_part(v@.subrange(a as int, b as int)),
            digits == v@.subrange(start as int, b as int),
            all_digits(digits.take(i - start)),
            value == digits_value(digits.take(i - start)),
        decreases b - i,
    {
        let p = v[i] as u32;
        if p < 0x30 || p > 0x39 {
            assert(!is_digit(digits[i - start]));
            return None;
        }
        let d = (p - 0x30) as u128;
        proof {
            assert(digits.take(i + 1 - start).drop_last() =~= digits.take(i - start));
            assert(digits.take(i + 1 - start).last() == v@[i as int]);
            lemma_digits_value_grows(digits, i + 1 - start);
        }
        if value > (u128::MAX - d) / 10 {
            return None;
        }
        value = value * 10 + d;
        i += 1;
    }
    assert(digits.take(b - start) =~= digits);
    Some(value)
}

/// Reads line number `line` of an edge list in text form.
///
/// A comment gives `None`. Any other line has to hold two fields, each the
/// decimal numeral of a number that the identifier type can hold, and
/// gives the edge from the first to the second.
pub fn parse_edge_line<T: MxElement>(text: &str, line: usize) -> (res: Result<
    Option<(T, T)>,
    ParseError,
>)
    ensures
        match res {
            Ok(None) => line_outcome::<T>(text@, line) == Ok::<Option<(nat, nat)>, ParseError>(None),
            Ok(Some(e)) => line_outcome::<T>(text@, line) == Ok::<Option<(nat, nat)>, ParseError>(
                Some((e.0.value(), e.1.value())),
            ),
            Err(e) => line_outcome::<T>(text@, line) == Err::<Option<(nat, nat)>, ParseError>(e),
        },
{
    let v = chars_of(text);
    let a0 = skip_spaces(&v, 0);
    if a0 == v.len() {
        return Err(ParseError::FieldCount { line });
    }
    if v[a0] == '#' {
        return Ok(None);
    }
    let b0 = skip_field(&v, a0);
    let a1 = skip_spaces(&v, b0);
    if a1 == v.len() {
        return Err(ParseError::FieldCount { line });
    }
    let b1 = skip_field(&v, a1);
    let a2 = skip_spaces(&v, b1);
    if a2 < v.len() {
        return Err(ParseError::FieldCount { line });
    }
    let x = match read_number(&v, a0, b0) {
        Some(x) => x,
        None => {
            return Err(ParseError::InvalidNumber { line, field: 1 });
        },
    };
    let y = match read_number(&v, a1, b1) {
        Some(y) => y,
        None => {
            return Err(ParseError::InvalidNumber { line, field: 2 });
        },
    };
    let source = match T::from_u128(x) {
        Some(s) => s,
        None => {
            return Err(ParseError::VertexTooWide { line, field: 1, value: x });
        },
    };
    let destination = match T::from_u128(y) {
        Some(d) => d,
        None => {
            return Err(ParseError::VertexTooWide { line, field: 2, value: y });
        },
    };
    Ok(Some((source, destination)))
}

} // verus!
