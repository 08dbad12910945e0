//! Arithmetic modulo `p` on arbitrary-precision unsigned integers.
//!
//! No modulus is stored: every operation takes it as its last argument, so
//! that a field modulus and a group order are never confused.

use crate::bigint::{big_add, big_from_u32, big_modpow, big_mul, big_sub, nat_value};
use crate::congruence::{congruent, lemma_congruent_mul, lemma_congruent_residue};
use crate::fermat::lemma_fermat_little;
use crate::primes::is_prime;
use num_bigint::BigUint;
use vstd::arithmetic::div_mod::{
    lemma_mod_add_multiples_vanish, lemma_mod_self_0, lemma_small_mod,
};
use vstd::arithmetic::power::{lemma_pow1, pow};
use vstd::prelude::*;

verus! {

/// `(c + d) mod p`.
pub open spec fn mod_add(c: nat, d: nat, p: nat) -> nat {
    (c + d) % p
}

/// `(c * d) mod p`.
pub open spec fn mod_mul(c: nat, d: nat, p: nat) -> nat {
    (c * d) % p
}

/// The additive inverse of a reduced `c`: `p - c`. For `c == 0` this is `p`
/// itself, which is congruent to zero but not reduced.
pub open spec fn mod_neg(c: nat, p: nat) -> nat {
    (p - c) as nat
}

/// `(c - d) mod p`, the remainder taken in `[0, p)`.
pub open spec fn mod_sub(c: nat, d: nat, p: nat) -> nat {
    ((c - d) % (p as int)) as nat
}

/// `c^(p-2) mod p`, which is the multiplicative inverse of `c` where `p` is
/// prime and does not divide `c`.
pub open spec fn mod_inv(c: nat, p: nat) -> nat {
    (pow(c as int, (p - 2) as nat) % (p as int)) as nat
}

/// `c` times the inverse of `d`, modulo `p`.
pub open spec fn mod_div(c: nat, d: nat, p: nat) -> nat {
    mod_mul(c, mod_inv(d, p), p)
}

/// Modular arithmetic with the modulus given at every call.
pub struct FiniteField {}

impl FiniteField {
    /// The sum of `c` and `d` modulo `p`.
    pub fn add(c: &BigUint, d: &BigUint, p: &BigUint) -> (r: BigUint)
        requires
            nat_value(*p) > 0,
        ensures
            nat_value(r) == mod_add(nat_value(*c), nat_value(*d), nat_value(*p)),
            nat_value(r) < nat_value(*p),
    {
        let sum: BigUint = big_add(c, d);
        let one: BigUint = big_from_u32(1);
        proof {
            lemma_pow1(nat_value(sum) as int);
        }
        big_modpow(&sum, &one, p)
    }

    /// The product of `c` and `d` modulo `p`.
    pub fn multiplication(c: &BigUint, d: &BigUint, p: &BigUint) -> (r: BigUint)
        requires
            nat_value(*p) > 0,
        ensures
            nat_value(r) == mod_mul(nat_value(*c), nat_value(*d), nat_value(*p)),
            nat_value(r) < nat_value(*p),
    {
        let product: BigUint = big_mul(c, d);
        let one: BigUint = big_from_u32(1);
        proof {
            lemma_pow1(nat_value(product) as int);
        }
        big_modpow(&product, &one, p)
    }

    /// The additive inverse of `c` modulo `p`, for a reduced `c`.
    pub fn inverse_addition(c: &BigUint, p: &BigUint) -> (r: BigUint)
        requires
            nat_value(*c) < nat_value(*p),
        ensures
            nat_value(r) == mod_neg(nat_value(*c), nat_value(*p)),
            0 < nat_value(r) <= nat_value(*p),
    {
        big_sub(p, c)
    }

    /// `c` minus `d` modulo `p`, for a reduced `d`. No intermediate value is
    /// negative: the inverse of `d` is added.
    pub fn subtract(c: &BigUint, d: &BigUint, p: &BigUint) -> (r: BigUint)
        requires
            nat_value(*d) < nat_value(*p),
        ensures
            nat_value(r) == mod_sub(nat_value(*c), nat_value(*d), nat_value(*p)),
            nat_value(r) == mod_add(
                nat_value(*c),
                mod_neg(nat_value(*d), nat_value(*p)),
                nat_value(*p),
            ),
            nat_value(r) < nat_value(*p),
    {
        let d_inv: BigUint = FiniteField::inverse_addition(d, p);
        proof {
            lemma_mod_add_multiples_vanish(
                nat_value(*c) - nat_value(*d),
                nat_value(*p) as int,
            );
        }
        FiniteField::add(c, &d_inv, p)
    }

    /// `c^(p-2) mod p`: by Fermat's little theorem the multiplicative inverse
    /// of `c` where `p` is prime and does not divide `c`. Neither is tested.
    pub fn inverse_multiplication(c: &BigUint, p: &BigUint) -> (r: BigUint)
        requires
            nat_value(*p) >= 2,
        ensures
            nat_value(r) == mod_inv(nat_value(*c), nat_value(*p)),
            nat_value(r) < nat_value(*p),
    {
        let two: BigUint = big_from_u32(2);
        let exponent: BigUint = big_sub(p, &two);
        big_modpow(c, &exponent, p)
    }

    /// `c` divided by `d` modulo `p`: `c` times the inverse of `d`.
    pub fn divide(c: &BigUint, d: &BigUint, p: &BigUint) -> (r: BigUint)
        requires
            nat_value(*p) >= 2,
        ensures
            nat_value(r) == mod_div(nat_value(*c), nat_value(*d), nat_value(*p)),
            nat_value(r) < nat_value(*p),
    {
        let d_inv: BigUint = FiniteField::inverse_multiplication(d, p);
        FiniteField::multiplication(c, &d_inv, p)
    }
}

/// Sums, products and differences modulo a positive `p` lie in `[0, p)`.
pub proof fn lemma_results_reduced(c: nat, d: nat, p: nat)
    requires
        p > 0,
    ensures
        mod_add(c, d, p) < p,
        mod_mul(c, d, p) < p,
        mod_sub(c, d, p) < p,
{
    lemma_congruent_residue(c - d, p as int);
}

/// A reduced number and its additive inverse add up to zero modulo `p`.
pub proof fn lemma_additive_inverse(c: nat, p: nat)
    requires
        c < p,
    ensures
        mod_add(c, mod_neg(c, p), p) == 0,
{
    lemma_mod_self_0(p as int);
}

/// Modulo a prime `p`, a number that `p` does not divide, so every number of
/// `[1, p)`, times its inverse is one.
pub proof fn lemma_multiplicative_inverse(c: nat, p: nat)
    requires
        is_prime(p as int),
        c % p != 0,
    ensures
        mod_mul(c, mod_inv(c, p), p) == 1,
{
    let m = p as int;
    let e = (p - 2) as nat;
    lemma_fermat_little(c as int, p);
    assert(pow(c as int, (p - 1) as nat) == c * pow(c as int, e)) by {
        reveal(pow);
    }
    lemma_congruent_residue(pow(c as int, e), m);
    lemma_congruent_mul(c as int, c as int, mod_inv(c, p) as int, pow(c as int, e), m);
}

/// Modulo a prime `p`, division undoes multiplication: the quotient of `c`
/// by `d`, times `d`, is congruent to `c` where `p` does not divide `d`.
pub proof fn lemma_division_undone(c: nat, d: nat, p: nat)
    requires
        is_prime(p as int),
        d % p != 0,
    ensures
        congruent((mod_div(c, d, p) * d) as int, c as int, p as int),
{
    let m = p as int;
    let inv = mod_inv(d, p);
    lemma_multiplicative_inverse(d, p);
    lemma_small_mod(1, p);
    lemma_congruent_residue((c * inv) as int, m);
    lemma_congruent_mul(mod_div(c, d, p) as int, (c * inv) as int, d as int, d as int, m);
    assert(c * inv * d == c * (d * inv)) by (nonlinear_arith);
    lemma_congruent_mul(c as int, c as int, (d * inv) as int, 1, m);
}

/// The difference of two different numbers of `[0, p)` is not a multiple of
/// `p`.
pub proof fn lemma_distinct_residues(x1: nat, x2: nat, p: nat)
    requires
        x1 < p,
        x2 < p,
        x1 != x2,
    ensures
        (x2 - x1) % (p as int) != 0,
        mod_sub(x2, x1, p) % p != 0,
{
    if x2 > x1 {
        lemma_small_mod((x2 - x1) as nat, p);
    } else {
        lemma_mod_add_multiples_vanish(x2 - x1, p as int);
        lemma_small_mod((p + x2 - x1) as nat, p);
    }
    lemma_congruent_residue(x2 - x1, p as int);
}

} // verus!
