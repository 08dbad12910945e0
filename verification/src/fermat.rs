//! Fermat's little theorem.

use crate::binomial::lemma_prime_power_of_successor;
use crate::congruence::{congruent, lemma_congruent_add, lemma_congruent_residue};
use crate::primes::{is_prime, lemma_congruent_cancel};
use vstd::arithmetic::div_mod::lemma_small_mod;
use vstd::arithmetic::power::{lemma0_pow, lemma_pow_mod_noop, pow};
use vstd::prelude::*;

verus! {

/// Modulo a prime `p`, the `p`-th power of a natural number is the number
/// itself. By induction on the number, with `(a + 1)^p = a^p + 1`.
pub proof fn lemma_fermat_power(a: nat, p: nat)
    requires
        is_prime(p as int),
    ensures
        congruent(pow(a as int, p), a as int, p as int),
    decreases a,
{
    if a == 0 {
        lemma0_pow(p);
    } else {
        let b = (a - 1) as nat;
        lemma_fermat_power(b, p);
        lemma_prime_power_of_successor(b as int, p);
        lemma_congruent_add(pow(b as int, p), b as int, 1, 1, p as int);
    }
}

/// Fermat's little theorem: modulo a prime `p`, the power `p - 1` of a number
/// that `p` does not divide is one.
pub proof fn lemma_fermat_little(a: int, p: nat)
    requires
        is_prime(p as int),
        a % (p as int) != 0,
    ensures
        pow(a, (p - 1) as nat) % (p as int) == 1,
{
    let m = p as int;
    let r = a % m;
    let e = (p - 1) as nat;
    lemma_congruent_residue(a, m);
    lemma_fermat_power(r as nat, p);
    assert(pow(r, p) == pow(r, e) * r) by {
        reveal(pow);
        assert(r * pow(r, e) == pow(r, e) * r) by (nonlinear_arith);
    }
    assert(1 * r == r);
    lemma_congruent_cancel(pow(r, e), 1, r, m);
    lemma_pow_mod_noop(a, e, m);
    lemma_small_mod(1, p);
}

} // verus!
