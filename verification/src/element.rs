//! The numeric capability that a vertex identifier has to offer.

use vstd::prelude::*;

verus! {

/// What `n` is as a machine index: `Some` exactly when it is at most `usize::MAX`.
pub open spec fn index_of(n: nat) -> Option<usize> {
    if n <= usize::MAX {
        Some(n as usize)
    } else {
        None
    }
}

/// An unsigned integer type that can name a vertex.
///
/// Every value stands for one natural number, `value()`, between zero and
/// `max_value()`, and no two values stand for the same number. The methods
/// convert between the type, machine indices and 128-bit integers, and
/// compare and add by value.
pub trait MxElement: Copy + Sized {
    /// The number that the identifier stands for.
    spec fn value(self) -> nat;

    /// The largest number that the type can hold.
    spec fn max_value() -> nat;

    /// No identifier is larger than `max_value()`.
    proof fn lemma_value_bounded(self)
        ensures
            self.value() <= Self::max_value(),
    ;

    /// Two identifiers that stand for the same number are the same.
    proof fn lemma_value_injective(a: Self, b: Self)
        requires
            a.value() == b.value(),
        ensures
            a == b,
    ;

    /// The identifier zero.
    fn zero() -> (z: Self)
        ensures
            z.value() == 0,
    ;

    /// The identifier one.
    fn one() -> (o: Self)
        ensures
            o.value() == 1,
    ;

    /// Adds `rhs` in place. The sum has to fit the type.
    fn add_assign(&mut self, rhs: Self)
        requires
            old(self).value() + rhs.value() <= Self::max_value(),
        ensures
            final(self).value() == old(self).value() + rhs.value(),
    ;

    /// Whether `self` stands for a smaller number than `other`.
    fn less_than(&self, other: &Self) -> (b: bool)
        ensures
            b == (self.value() < other.value()),
    ;

    /// The identifier as a machine index, or `None` where it does not fit one.
    fn to_usize(&self) -> (r: Option<usize>)
        ensures
            r == index_of(self.value()),
    ;

    /// The identifier as a 128-bit integer.
    fn to_u128(&self) -> (r: u128)
        ensures
            r == self.value(),
    ;

    /// The identifier that stands for `n`, or `None` where `n` is larger than
    /// `max_value()`.
    fn from_u128(n: u128) -> (r: Option<Self>)
        ensures
            r is Some <==> n <= Self::max_value(),
            r matches Some(v) ==> v.value() == n,
    ;

    /// The identifier that stands for the machine index `n`, or `None` where
    /// `n` is larger than `max_value()`.
    fn from_usize(n: usize) -> (r: Option<Self>)
        ensures
            r is Some <==> n <= Self::max_value(),
            r matches Some(v) ==> v.value() == n,
    {
        Self::from_u128(n as u128)
    }
}

/// `<u8 as num::ToPrimitive>::to_usize`: the same number as a `usize`, which
/// is `None` only where the number is above `usize::MAX`.
#[verifier::external_body]
fn u8_to_usize(v: u8) -> (r: Option<usize>)
    ensures
        r == index_of(v as nat),
{
    num::ToPrimitive::to_usize(&v)
}

/// `<u8 as num::NumCast>::from` on a `u128`: the same number as a `u8`, or
/// `None` where it is above `u8::MAX`.
#[verifier::external_body]
fn u8_from_u128(n: u128) -> (r: Option<u8>)
    ensures
        r == (if n <= u8::MAX { Some(n as u8) } else { None }),
{
    <u8 as num::NumCast>::from(n)
}

impl MxElement for u8 {
    open spec fn value(self) -> nat {
        self as nat
    }

    open spec fn max_value() -> nat {
        u8::MAX as nat
    }

    proof fn lemma_value_bounded(self) {
    }

    proof fn lemma_value_injective(a: Self, b: Self) {
    }

    fn zero() -> (z: Self) {
        0
    }

    fn one() -> (o: Self) {
        1
    }

    fn add_assign(&mut self, rhs: Self) {
        *self = *self + rhs;
    }

    fn less_than(&self, other: &Self) -> (b: bool) {
        *self < *other
    }

    fn to_usize(&self) -> (r: Option<usize>) {
        u8_to_usize(*self)
    }

    fn to_u128(&self) -> (r: u128) {
        *self as u128
    }

    fn from_u128(n: u128) -> (r: Option<Self>) {
        u8_from_u128(n)
    }
}

/// `<u16 as num::ToPrimitive>::to_usize`: the same number as a `usize`, which
/// is `None` only where the number is above `usize::MAX`.
#[verifier::external_body]
fn u16_to_usize(v: u16) -> (r: Option<usize>)
    ensures
        r == index_of(v as nat),
{
    num::ToPrimitive::to_usize(&v)
}

/// `<u16 as num::NumCast>::from` on a `u128`: the same number as a `u16`, or
/// `None` where it is above `u16::MAX`.
#[verifier::external_body]
fn u16_from_u128(n: u128) -> (r: Option<u16>)
    ensures
        r == (if n <= u16::MAX { Some(n as u16) } else { None }),
{
    <u16 as num::NumCast>::from(n)
}

impl MxElement for u16 {
    open spec fn value(self) -> nat {
        self as nat
    }

    open spec fn max_value() -> nat {
        u16::MAX as nat
    }

    proof fn lemma_value_bounded(self) {
    }

    proof fn lemma_value_injective(a: Self, b: Self) {
    }

    fn zero() -> (z: Self) {
        0
    }

    fn one() -> (o: Self) {
        1
    }

    fn add_assign(&mut self, rhs: Self) {
        *self = *self + rhs;
    }

    fn less_than(&self, other: &Self) -> (b: bool) {
        *self < *other
    }

    fn to_usize(&self) -> (r: Option<usize>) {
        u16_to_usize(*self)
    }

    fn to_u128(&self) -> (r: u128) {
        *self as u128
    }

    fn from_u128(n: u128) -> (r: Option<Self>) {
        u16_from_u128(n)
    }
}

/// `<u32 as num::ToPrimitive>::to_usize`: the same number as a `usize`, which
/// is `None` only where the number is above `usize::MAX`.
#[verifier::external_body]
fn u32_to_usize(v: u32) -> (r: Option<usize>)
    ensures
        r == index_of(v as nat),
{
    num::ToPrimitive::to_usize(&v)
}

/// `<u32 as num::NumCast>::from` on a `u128`: the same number as a `u32`, or
/// `None` where it is above `u32::MAX`.
#[verifier::external_body]
fn u32_from_u128(n: u128) -> (r: Option<u32>)
    ensures
        r == (if n <= u32::MAX { Some(n as u32) } else { None }),
{
    <u32 as num::NumCast>::from(n)
}

impl MxElement for u32 {
    open spec fn value(self) -> nat {
        self as nat
    }

    open spec fn max_value() -> nat {
        u32::MAX as nat
    }

    proof fn lemma_value_bounded(self) {
    }

    proof fn lemma_value_injective(a: Self, b: Self) {
    }

    fn zero() -> (z: Self) {
        0
    }

    fn one() -> (o: Self) {
        1
    }

    fn add_assign(&mut self, rhs: Self) {
        *self = *self + rhs;
    }

    fn less_than(&self, other: &Self) -> (b: bool) {
        *self < *other
    }

    fn to_usize(&self) -> (r: Option<usize>) {
        u32_to_usize(*self)
    }

    fn to_u128(&self) -> (r: u128) {
        *self as u128
    }

    fn from_u128(n: u128) -> (r: Option<Self>) {
        u32_from_u128(n)
    }
}

/// `<u64 as num::ToPrimitive>::to_usize`: the same number as a `usize`, which
/// is `None` only where the number is above `usize::MAX`.
#[verifier::external_body]
fn u64_to_usize(v: u64) -> (r: Option<usize>)
    ensures
        r == index_of(v as nat),
{
    num::ToPrimitive::to_usize(&v)
}

/// `<u64 as num::NumCast>::from` on a `u128`: the same number as a `u64`, or
/// `None` where it is above `u64::MAX`.
#[verifier::external_body]
fn u64_from_u128(n: u128) -> (r: Option<u64>)
    ensures
        r == (if n <= u64::MAX { Some(n as u64) } else { None }),
{
    <u64 as num::NumCast>::from(n)
}

impl MxElement for u64 {
    open spec fn value(self) -> nat {
        self as nat
    }

    open spec fn max_value() -> nat {
        u64::MAX as nat
    }

    proof fn lemma_value_bounded(self) {
    }

    proof fn lemma_value_injective(a: Self, b: Self) {
    }

    fn zero() -> (z: Self) {
        0
    }

    fn one() -> (o: Self) {
        1
    }

    fn add_assign(&mut self, rhs: Self) {
        *self = *self + rhs;
    }

    fn less_than(&self, other: &Self) -> (b: bool) {
        *self < *other
    }

    fn to_usize(&self) -> (r: Option<usize>) {
        u64_to_usize(*self)
    }

    fn to_u128(&self) -> (r: u128) {
        *self as u128
    }

    fn from_u128(n: u128) -> (r: Option<Self>) {
        u64_from_u128(n)
    }
}

/// `<usize as num::ToPrimitive>::to_usize`: the same number as a `usize`, which
/// is `None` only where the number is above `usize::MAX`.
#[verifier::external_body]
fn usize_to_usize(v: usize) -> (r: Option<usize>)
    ensures
        r == index_of(v as nat),
{
    num::ToPrimitive::to_usize(&v)
}

/// `<usize as num::NumCast>::from` on a `u128`: the same number as a `usize`, or
/// `None` where it is above `usize::MAX`.
#[verifier::external_body]
fn usize_from_u128(n: u128) -> (r: Option<usize>)
    ensures
        r == (if n <= usize::MAX { Some(n as usize) } else { None }),
{
    <usize as num::NumCast>::from(n)
}

impl MxElement for usize {
    open spec fn value(self) -> nat {
        self as nat
    }

    open spec fn max_value() -> nat {
        usize::MAX as nat
    }

    proof fn lemma_value_bounded(self) {
    }

    proof fn lemma_value_injective(a: Self, b: Self) {
    }

    fn zero() -> (z: Self) {
        0
    }

    fn one() -> (o: Self) {
        1
    }

    fn add_assign(&mut self, rhs: Self) {
        *self = *self + rhs;
    }

    fn less_than(&self, other: &Self) -> (b: bool) {
        *self < *other
    }

    fn to_usize(&self) -> (r: Option<usize>) {
        usize_to_usize(*self)
    }

    fn to_u128(&self) -> (r: u128) {
        *self as u128
    }

    fn from_u128(n: u128) -> (r: Option<Self>) {
        usize_from_u128(n)
    }
}

} // verus!
