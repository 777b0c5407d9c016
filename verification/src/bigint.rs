//! Trusted access to arbitrary-precision unsigned integers.
//!
//! The value held by a `BigUint` is named by [`big_val`]; every wrapper here
//! states what its call does to that value, as the crate's source shows.

use vstd::prelude::*;

verus! {

#[verifier::external_type_specification]
#[verifier::external_body]
pub struct ExBigUint(num_bigint::BigUint);

/// The number held by a `BigUint`.
pub uninterp spec fn big_val(v: num_bigint::BigUint) -> nat;

/// Relies on num_bigint::BigUint::from_bytes_be: the bytes are read as one
/// unsigned number in big-endian order.
#[verifier::external_body]
pub(crate) fn big_from_bytes_be(b: &[u8]) -> (v: num_bigint::BigUint)
    ensures
        big_val(v) == crate::base62::be_value(b@),
{
    num_bigint::BigUint::from_bytes_be(b)
}

/// Relies on num_bigint::BigUint::to_bytes_be: the number is written as its
/// shortest big-endian byte sequence, a single zero byte for zero.
#[verifier::external_body]
pub(crate) fn big_to_bytes_be(v: &num_bigint::BigUint) -> (b: Vec<u8>)
    ensures
        b@ == crate::base62::min_be_bytes(big_val(*v)),
{
    v.to_bytes_be()
}

/// Relies on num_bigint's From<u64> conversion.
#[verifier::external_body]
pub(crate) fn big_from_u64(n: u64) -> (v: num_bigint::BigUint)
    ensures
        big_val(v) == n,
{
    num_bigint::BigUint::from(n)
}

/// Relies on num_integer::Integer::div_rem for BigUint: Euclidean quotient
/// and remainder; the remainder is below the divisor and so fits the
/// divisor's machine type.
#[verifier::external_body]
pub(crate) fn big_div_rem(v: num_bigint::BigUint, d: u64) -> (r: (num_bigint::BigUint, u64))
    requires
        d >= 1,
    ensures
        big_val(r.0) == big_val(v) / d as nat,
        r.1 == big_val(v) % d as nat,
{
    let (q, rem) = num_integer::Integer::div_rem(&v, &num_bigint::BigUint::from(d));
    (q, num_traits::ToPrimitive::to_u64(&rem).unwrap_or(0))
}

/// Relies on num_bigint's Zero implementation.
#[verifier::external_body]
pub(crate) fn big_is_zero(v: &num_bigint::BigUint) -> (r: bool)
    ensures
        r == (big_val(*v) == 0),
{
    num_traits::Zero::is_zero(v)
}

/// Relies on num_bigint's multiplication by a machine word.
#[verifier::external_body]
pub(crate) fn big_mul_u64(v: num_bigint::BigUint, m: u64) -> (r: num_bigint::BigUint)
    ensures
        big_val(r) == big_val(v) * m,
{
    v * m
}

/// Relies on num_bigint's addition of a machine word.
#[verifier::external_body]
pub(crate) fn big_add_u64(v: num_bigint::BigUint, a: u64) -> (r: num_bigint::BigUint)
    ensures
        big_val(r) == big_val(v) + a,
{
    v + a
}

} // verus!
