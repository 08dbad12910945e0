//! Congruence of integers modulo a positive number, and the rules by which
//! it is carried through sums, differences and products.

use vstd::arithmetic::div_mod::{
    lemma_add_mod_noop, lemma_mod_equivalence, lemma_mod_twice, lemma_mul_mod_noop,
    lemma_small_mod, lemma_sub_mod_noop,
};
use vstd::prelude::*;

verus! {

/// `a` and `b` leave the same remainder when divided by `m`.
pub open spec fn congruent(a: int, b: int, m: int) -> bool {
    a % m == b % m
}

/// A number is congruent to its remainder.
pub proof fn lemma_congruent_residue(a: int, m: int)
    requires
        m > 0,
    ensures
        congruent(a % m, a, m),
        0 <= a % m < m,
{
    lemma_mod_twice(a, m);
}

/// Congruent summands give congruent sums.
pub proof fn lemma_congruent_add(a: int, b: int, c: int, d: int, m: int)
    requires
        m > 0,
        congruent(a, b, m),
        congruent(c, d, m),
    ensures
        congruent(a + c, b + d, m),
{
    lemma_add_mod_noop(a, c, m);
    lemma_add_mod_noop(b, d, m);
}

/// Congruent operands give congruent differences.
pub proof fn lemma_congruent_sub(a: int, b: int, c: int, d: int, m: int)
    requires
        m > 0,
        congruent(a, b, m),
        congruent(c, d, m),
    ensures
        congruent(a - c, b - d, m),
{
    lemma_sub_mod_noop(a, c, m);
    lemma_sub_mod_noop(b, d, m);
}

/// Congruent factors give congruent products.
pub proof fn lemma_congruent_mul(a: int, b: int, c: int, d: int, m: int)
    requires
        m > 0,
        congruent(a, b, m),
        congruent(c, d, m),
    ensures
        congruent(a * c, b * d, m),
{
    lemma_mul_mod_noop(a, c, m);
    lemma_mul_mod_noop(b, d, m);
}

/// Two numbers are congruent exactly where `m` divides their difference.
pub proof fn lemma_congruent_difference(a: int, b: int, m: int)
    requires
        m > 0,
    ensures
        congruent(a, b, m) <==> (a - b) % m == 0,
{
    lemma_mod_equivalence(a, b, m);
}

/// Two congruent numbers of `[0, m)` are equal.
pub proof fn lemma_congruent_reduced(a: int, b: int, m: int)
    requires
        0 <= a < m,
        0 <= b < m,
        congruent(a, b, m),
    ensures
        a == b,
{
    lemma_small_mod(a as nat, m as nat);
    lemma_small_mod(b as nat, m as nat);
}

} // verus!
