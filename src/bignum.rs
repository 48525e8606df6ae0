//! The arbitrary-precision unsigned integers of `num_bigint`, seen through
//! their numeric value.
use vstd::prelude::*;
use vstd::arithmetic::power2::pow2;
use num_bigint::BigUint;

verus! {

#[verifier::external_type_specification]
#[verifier::external_body]
pub struct ExBigUint(BigUint);

/// The number that a `BigUint` holds.
pub uninterp spec fn big_value(x: BigUint) -> nat;

/// Relies on `From<u32> for BigUint`: the same number.
#[verifier::external_body]
pub(crate) fn big_of(n: u32) -> (r: BigUint)
    ensures
        big_value(r) == n,
{
    BigUint::from(n)
}

/// Relies on `Shl<u32> for &BigUint`: multiplication by a power of two.
#[verifier::external_body]
pub(crate) fn big_shl(x: &BigUint, s: u32) -> (r: BigUint)
    ensures
        big_value(r) == big_value(*x) * pow2(s as nat),
{
    x << s
}

/// Relies on `Sub<u32> for &BigUint`, which panics on underflow.
#[verifier::external_body]
pub(crate) fn big_sub_u32(x: &BigUint, n: u32) -> (r: BigUint)
    requires
        big_value(*x) >= n,
    ensures
        big_value(r) == big_value(*x) - n,
{
    x - n
}

/// Relies on `Add<&BigUint> for &BigUint`: the sum.
#[verifier::external_body]
pub(crate) fn big_add(a: &BigUint, b: &BigUint) -> (r: BigUint)
    ensures
        big_value(r) == big_value(*a) + big_value(*b),
{
    a + b
}

/// Relies on `Mul<&BigUint> for &BigUint`: the product.
#[verifier::external_body]
pub(crate) fn big_mul(a: &BigUint, b: &BigUint) -> (r: BigUint)
    ensures
        big_value(r) == big_value(*a) * big_value(*b),
{
    a * b
}

/// Relies on `Rem<&BigUint> for &BigUint`, which panics on a zero divisor.
#[verifier::external_body]
pub(crate) fn big_rem(a: &BigUint, m: &BigUint) -> (r: BigUint)
    requires
        big_value(*m) > 0,
    ensures
        big_value(r) == big_value(*a) % big_value(*m),
{
    a % m
}

/// Relies on `PartialEq for BigUint`: equality of the numbers.
#[verifier::external_body]
pub(crate) fn big_eq(a: &BigUint, b: &BigUint) -> (r: bool)
    ensures
        r == (big_value(*a) == big_value(*b)),
{
    a == b
}

} // verus!
