//! The boundary to `num_bigint`: the type `BigUint`, the natural number that a
//! value of it stands for, and one wrapper for each of its operations that the
//! library calls. Nothing in this file is proved; the rest of the library is
//! proved from what is stated here.

use num_bigint::BigUint;
use vstd::arithmetic::power::pow;
use vstd::arithmetic::power2::pow2;
use vstd::prelude::*;

verus! {

/// `num_bigint::BigUint`, an unsigned integer of any size. Its digits are
/// private to `num_bigint`, so a value is opaque here.
#[verifier::external_type_specification]
#[verifier::external_body]
pub struct ExBigUint(BigUint);

/// The natural number that a `BigUint` stands for.
pub uninterp spec fn nat_value(n: BigUint) -> nat;

/// The fewest binary digits that write `n`: zero for zero, and otherwise the
/// `len` with `2^(len-1) <= n < 2^len`.
pub open spec fn is_bit_length(n: nat, len: nat) -> bool {
    if n == 0 {
        len == 0
    } else {
        len >= 1 && pow2((len - 1) as nat) <= n < pow2(len)
    }
}

/// The binary digit of `n` at position `i`, counted from the least
/// significant one, as a truth value.
pub open spec fn bit_at(n: nat, i: nat) -> bool {
    (n / pow2(i)) % 2 == 1
}

/// `<BigUint as From<u32>>::from`: the result stands for `n`.
#[verifier::external_body]
pub(crate) fn big_from_u32(n: u32) -> (r: BigUint)
    ensures
        nat_value(r) == n,
{
    BigUint::from(n)
}

/// `<BigUint as Clone>::clone`: the copy stands for the same number.
#[verifier::external_body]
pub(crate) fn big_clone(a: &BigUint) -> (r: BigUint)
    ensures
        nat_value(r) == nat_value(*a),
{
    a.clone()
}

/// `&BigUint + &BigUint`, that is `Add::add` of `num_bigint` for two
/// references: the sum, which never overflows.
#[verifier::external_body]
pub(crate) fn big_add(a: &BigUint, b: &BigUint) -> (r: BigUint)
    ensures
        nat_value(r) == nat_value(*a) + nat_value(*b),
{
    a + b
}

/// `&BigUint * &BigUint`, that is `Mul::mul` of `num_bigint` for two
/// references: the product, which never overflows.
#[verifier::external_body]
pub(crate) fn big_mul(a: &BigUint, b: &BigUint) -> (r: BigUint)
    ensures
        nat_value(r) == nat_value(*a) * nat_value(*b),
{
    a * b
}

/// `&BigUint - &BigUint`, that is `Sub::sub` of `num_bigint` for two
/// references: the difference. `num_bigint` panics where the subtrahend is
/// the larger, so that is required not to be.
#[verifier::external_body]
pub(crate) fn big_sub(a: &BigUint, b: &BigUint) -> (r: BigUint)
    requires
        nat_value(*b) <= nat_value(*a),
    ensures
        nat_value(r) == nat_value(*a) - nat_value(*b),
{
    a - b
}

/// `BigUint::modpow`: `base` to the power `exponent`, reduced by `modulus`.
/// `num_bigint` panics on a zero modulus, so that is required not to be.
#[verifier::external_body]
pub(crate) fn big_modpow(base: &BigUint, exponent: &BigUint, modulus: &BigUint) -> (r: BigUint)
    requires
        nat_value(*modulus) > 0,
    ensures
        nat_value(r) == pow(nat_value(*base) as int, nat_value(*exponent)) % (nat_value(
            *modulus,
        ) as int),
{
    base.modpow(exponent, modulus)
}

/// `<BigUint as PartialEq>::eq`: true where both stand for the same number.
#[verifier::external_body]
pub(crate) fn big_eq(a: &BigUint, b: &BigUint) -> (r: bool)
    ensures
        r == (nat_value(*a) == nat_value(*b)),
{
    a == b
}

/// `<BigUint as PartialOrd>::lt`: true where the first stands for the
/// smaller number.
#[verifier::external_body]
pub(crate) fn big_lt(a: &BigUint, b: &BigUint) -> (r: bool)
    ensures
        r == (nat_value(*a) < nat_value(*b)),
{
    a < b
}

/// `BigUint::bits`: the fewest binary digits that write the number.
#[verifier::external_body]
pub(crate) fn big_bits(a: &BigUint) -> (r: u64)
    ensures
        is_bit_length(nat_value(*a), r as nat),
{
    a.bits()
}

/// `BigUint::bit`: whether the binary digit at position `i` is one.
#[verifier::external_body]
pub(crate) fn big_bit(a: &BigUint, i: u64) -> (r: bool)
    ensures
        r == bit_at(nat_value(*a), i as nat),
{
    a.bit(i)
}

} // verus!
