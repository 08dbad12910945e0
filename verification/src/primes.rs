//! Prime numbers, and what a prime modulus adds to congruences: a prime that
//! divides a product divides a factor, so a factor that it does not divide
//! can be cancelled.

use crate::congruence::{
    congruent, lemma_congruent_difference, lemma_congruent_mul, lemma_congruent_residue,
    lemma_congruent_sub,
};
use vstd::arithmetic::div_mod::{lemma_fundamental_div_mod, lemma_mod_multiples_basic};
use vstd::prelude::*;

verus! {

/// `p` is at least two, and no number strictly between one and `p` divides it.
pub open spec fn is_prime(p: int) -> bool {
    p >= 2 && forall|d: int| 1 < d < p ==> #[trigger] (p % d) != 0
}

/// A prime that divides `a * b`, with `a` in `(0, p)`, divides `b`.
///
/// By descent on `a`: the remainder of `p` by `a` is smaller than `a`, is not
/// zero because `p` is prime, and its product with `b` is again a multiple of
/// `p`.
proof fn lemma_prime_divides_cofactor(a: int, b: int, p: int)
    requires
        is_prime(p),
        0 < a < p,
        (a * b) % p == 0,
    ensures
        b % p == 0,
    decreases a,
{
    if a == 1 {
        assert(a * b == b);
    } else {
        let q = p / a;
        let r = p % a;
        lemma_fundamental_div_mod(p, a);
        assert(r * b == b * p - q * (a * b)) by (nonlinear_arith)
            requires
                p == a * q + r,
        ;
        lemma_mod_multiples_basic(b, p);
        lemma_congruent_mul(q, q, a * b, 0, p);
        assert(q * 0 == 0);
        lemma_congruent_sub(b * p, 0, q * (a * b), 0, p);
        lemma_prime_divides_cofactor(r, b, p);
    }
}

/// Euclid's lemma: a prime that divides a product divides one of the factors.
pub proof fn lemma_prime_divides_factor(a: int, b: int, p: int)
    requires
        is_prime(p),
        (a * b) % p == 0,
    ensures
        a % p == 0 || b % p == 0,
{
    if a % p != 0 {
        lemma_congruent_residue(a, p);
        lemma_congruent_mul(a % p, a, b, b, p);
        lemma_prime_divides_cofactor(a % p, b, p);
    }
}

/// Modulo a prime, a common factor that the prime does not divide can be
/// cancelled from a congruence.
pub proof fn lemma_congruent_cancel(a: int, b: int, c: int, p: int)
    requires
        is_prime(p),
        c % p != 0,
        congruent(a * c, b * c, p),
    ensures
        congruent(a, b, p),
{
    lemma_congruent_difference(a * c, b * c, p);
    assert((a - b) * c == a * c - b * c) by (nonlinear_arith);
    lemma_prime_divides_factor(a - b, c, p);
    lemma_congruent_difference(a, b, p);
}

} // verus!
