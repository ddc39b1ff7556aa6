//! Arbitrary-precision unsigned amounts.
//!
//! Scores and currency are `num_bigint::BigUint` values. Verus cannot look
//! inside one, so every contract speaks of the natural number it holds,
//! [`biguint_value`], and each operation of the outside crate that the
//! library needs stands behind one small trusted function below.

use num_bigint::BigUint;
use vstd::arithmetic::power::pow;
use vstd::prelude::*;

verus! {

/// `num_bigint::BigUint`, carried through as a value that is known only
/// by the number it holds.
#[verifier::external_type_specification]
#[verifier::external_body]
pub struct ExBigUint(BigUint);

/// The natural number that a `BigUint` holds.
pub uninterp spec fn biguint_value(n: BigUint) -> nat;

/// The denominator of the fixed-point factors that scale an amount.
pub const SCALE: u64 = 1_000_000;

/// `BigUint::from(u64)`: trusted to hold exactly the given number.
#[verifier::external_body]
pub(crate) fn big_from_u64(n: u64) -> (r: BigUint)
    ensures
        biguint_value(r) == n as nat,
{
    BigUint::from(n)
}

/// `BigUint::clone`: trusted to hold the same number as the value it copies.
#[verifier::external_body]
pub(crate) fn big_clone(a: &BigUint) -> (r: BigUint)
    ensures
        biguint_value(r) == biguint_value(*a),
{
    a.clone()
}

/// `&BigUint + &BigUint`: trusted to be the exact sum.
#[verifier::external_body]
pub(crate) fn big_add(a: &BigUint, b: &BigUint) -> (r: BigUint)
    ensures
        biguint_value(r) == biguint_value(*a) + biguint_value(*b),
{
    a + b
}

/// `&BigUint - &BigUint`: trusted to be the exact difference. The outside
/// subtraction panics when the result would be negative, so such a call is
/// ruled out.
#[verifier::external_body]
pub(crate) fn big_sub(a: &BigUint, b: &BigUint) -> (r: BigUint)
    requires
        biguint_value(*a) >= biguint_value(*b),
    ensures
        biguint_value(r) == biguint_value(*a) - biguint_value(*b),
{
    a - b
}

/// `&BigUint * &BigUint`: trusted to be the exact product.
#[verifier::external_body]
pub(crate) fn big_mul(a: &BigUint, b: &BigUint) -> (r: BigUint)
    ensures
        biguint_value(r) == biguint_value(*a) * biguint_value(*b),
{
    a * b
}

/// `&BigUint * u64`: trusted to be the exact product.
#[verifier::external_body]
pub(crate) fn big_mul_u64(a: &BigUint, m: u64) -> (r: BigUint)
    ensures
        biguint_value(r) == biguint_value(*a) * (m as nat),
{
    a * m
}

/// `&BigUint / &BigUint`: trusted to be the quotient rounded down. The
/// outside division panics on a zero divisor, so such a call is ruled out.
#[verifier::external_body]
pub(crate) fn big_div(a: &BigUint, b: &BigUint) -> (r: BigUint)
    requires
        biguint_value(*b) > 0,
    ensures
        biguint_value(r) == biguint_value(*a) / biguint_value(*b),
{
    a / b
}

/// `BigUint::pow`: trusted to be the base raised to the exponent, with
/// anything to the power of zero being one.
#[verifier::external_body]
pub(crate) fn big_pow(base: &BigUint, exponent: u32) -> (r: BigUint)
    ensures
        biguint_value(r) == pow(biguint_value(*base) as int, exponent as nat),
{
    base.pow(exponent)
}

/// `&BigUint > &BigUint`: trusted to order two values as their numbers are
/// ordered.
#[verifier::external_body]
pub(crate) fn big_gt(a: &BigUint, b: &BigUint) -> (r: bool)
    ensures
        r == (biguint_value(*a) > biguint_value(*b)),
{
    a > b
}

/// What is left of `amount` after scaling it by `scaled` millionths,
/// rounded down.
pub open spec fn scaled_product(amount: nat, scaled: nat) -> nat {
    ((amount * scaled) / (SCALE as nat)) as nat
}

/// `a - b` where that is not negative, zero otherwise.
pub open spec fn clamped_difference(a: nat, b: nat) -> nat {
    if a >= b {
        (a - b) as nat
    } else {
        0
    }
}

/// Multiplies an amount by a fixed-point factor given in millionths. The
/// product is formed in full precision before the one division, so no
/// digit of a large amount is lost.
pub fn multiply_biguint_scaled(bigint: &BigUint, scaled: u64) -> (r: BigUint)
    ensures
        biguint_value(r) == scaled_product(biguint_value(*bigint), scaled as nat),
{
    let scaled_product = big_mul_u64(bigint, scaled);
    let scale = big_from_u64(SCALE);
    big_div(&scaled_product, &scale)
}

/// Subtraction that stops at zero instead of going negative.
pub fn sub_saturating(a: &BigUint, b: &BigUint) -> (r: BigUint)
    ensures
        biguint_value(r) == clamped_difference(biguint_value(*a), biguint_value(*b)),
{
    if big_gt(b, a) {
        big_from_u64(0)
    } else {
        big_sub(a, b)
    }
}

/// Whether an amount is zero.
pub fn is_zero(a: &BigUint) -> (r: bool)
    ensures
        r == (biguint_value(*a) == 0),
{
    let zero = big_from_u64(0);
    !big_gt(a, &zero)
}

} // verus!
