//! Binomial coefficients, the binomial theorem for `(a + 1)^n`, and the fact
//! that a prime `p` divides every coefficient of row `p` but the first and
//! the last. Together they give `(a + 1)^p = a^p + 1` modulo `p`.

use crate::congruence::{congruent, lemma_congruent_add, lemma_congruent_mul};
use crate::primes::{is_prime, lemma_prime_divides_factor};
use vstd::arithmetic::div_mod::{lemma_mod_multiples_basic, lemma_small_mod};
use vstd::arithmetic::power::pow;
use vstd::prelude::*;

verus! {

/// The binomial coefficient `n` over `k`, by Pascal's rule.
pub open spec fn binomial(n: nat, k: nat) -> nat
    decreases n,
{
    if k == 0 {
        1
    } else if n == 0 {
        0
    } else {
        binomial((n - 1) as nat, (k - 1) as nat) + binomial((n - 1) as nat, k)
    }
}

/// The first `k + 1` terms of the expansion of `(a + 1)^n`: the sum of
/// `binomial(n, j) * a^j` for `j` from `0` to `k`.
pub open spec fn binomial_sum(a: int, n: nat, k: nat) -> int
    decreases k,
{
    if k == 0 {
        1
    } else {
        binomial_sum(a, n, (k - 1) as nat) + binomial(n, k) * pow(a, k)
    }
}

/// There is no way to choose more than `n` of `n`.
pub proof fn lemma_binomial_beyond(n: nat, k: nat)
    requires
        k > n,
    ensures
        binomial(n, k) == 0,
    decreases n,
{
    if n > 0 {
        lemma_binomial_beyond((n - 1) as nat, (k - 1) as nat);
        lemma_binomial_beyond((n - 1) as nat, k);
    }
}

/// There is one way to choose all.
pub proof fn lemma_binomial_all(n: nat)
    ensures
        binomial(n, n) == 1,
    decreases n,
{
    if n > 0 {
        lemma_binomial_all((n - 1) as nat);
        lemma_binomial_beyond((n - 1) as nat, n);
    }
}

/// The absorption identity: `k * binomial(n, k) == n * binomial(n - 1, k - 1)`.
pub proof fn lemma_binomial_absorb(n: nat, k: nat)
    requires
        n >= 1,
        k >= 1,
    ensures
        k * binomial(n, k) == n * binomial((n - 1) as nat, (k - 1) as nat),
    decreases n,
{
    let upper_left = binomial((n - 1) as nat, (k - 1) as nat);
    let upper = binomial((n - 1) as nat, k);
    assert(binomial(n, k) == upper_left + upper);
    if n == 1 {
        if k == 1 {
            assert(upper_left == 1);
            assert(upper == 0);
        } else {
            assert(upper_left == 0);
            assert(upper == 0);
        }
        assert(k * binomial(n, k) == n * upper_left) by (nonlinear_arith)
            requires
                binomial(n, k) == upper_left + upper,
                upper == 0,
                n == 1,
                k == 1 ==> upper_left == 1,
                k != 1 ==> upper_left == 0,
        ;
    } else {
        // k * upper == (n - 1) * binomial(n - 2, k - 1)
        lemma_binomial_absorb((n - 1) as nat, k);
        let top = binomial((n - 2) as nat, (k - 1) as nat);
        if k == 1 {
            assert(upper_left == 1);
            assert(top == 1);
            assert(k * binomial(n, k) == n * upper_left) by (nonlinear_arith)
                requires
                    binomial(n, k) == upper_left + upper,
                    k * upper == (n - 1) * top,
                    k == 1,
                    upper_left == 1,
                    top == 1,
            ;
        } else {
            // (k - 1) * upper_left == (n - 1) * binomial(n - 2, k - 2)
            lemma_binomial_absorb((n - 1) as nat, (k - 1) as nat);
            let top_left = binomial((n - 2) as nat, (k - 2) as nat);
            assert(upper_left == top_left + top);
            assert(k * binomial(n, k) == n * upper_left) by (nonlinear_arith)
                requires
                    binomial(n, k) == upper_left + upper,
                    k * upper == (n - 1) * top,
                    (k - 1) * upper_left == (n - 1) * top_left,
                    upper_left == top_left + top,
            ;
        }
    }
}

/// Pascal's rule carried to the partial sums: the sum for row `n + 1` is the
/// sum for row `n` plus `a` times the sum for row `n` with one term less.
proof fn lemma_binomial_sum_next_row(a: int, n: nat, k: nat)
    requires
        k >= 1,
    ensures
        binomial_sum(a, n + 1, k) == binomial_sum(a, n, k) + a * binomial_sum(
            a,
            n,
            (k - 1) as nat,
        ),
    decreases k,
{
    let below = binomial(n + 1, k);
    let here = binomial(n, k);
    let left = binomial(n, (k - 1) as nat);
    assert(below == left + here);
    assert(pow(a, k) == a * pow(a, (k - 1) as nat)) by {
        reveal(pow);
    }
    if k == 1 {
        assert(pow(a, 0) == 1) by {
            reveal(pow);
        }
        assert(binomial_sum(a, n + 1, 0) == 1);
        assert(binomial_sum(a, n, 0) == 1);
        assert(left == 1);
        assert(binomial_sum(a, n + 1, 1) == 1 + below * pow(a, 1));
        assert(binomial_sum(a, n, 1) == 1 + here * pow(a, 1));
        assert(1 + below * pow(a, 1) == 1 + here * pow(a, 1) + a * 1) by (nonlinear_arith)
            requires
                below == left + here,
                left == 1,
                pow(a, 1) == a * 1,
        ;
    } else {
        lemma_binomial_sum_next_row(a, n, (k - 1) as nat);
        let s1 = binomial_sum(a, n, (k - 1) as nat);
        let s2 = binomial_sum(a, n, (k - 2) as nat);
        let t = pow(a, (k - 1) as nat);
        assert(binomial_sum(a, n + 1, (k - 1) as nat) == s1 + a * s2);
        assert(binomial_sum(a, n + 1, k) == s1 + a * s2 + below * pow(a, k));
        assert(binomial_sum(a, n, k) == s1 + here * pow(a, k));
        assert(s1 == s2 + left * t);
        assert(s1 + a * s2 + below * pow(a, k) == s1 + here * pow(a, k) + a * s1)
            by (nonlinear_arith)
            requires
                below == left + here,
                pow(a, k) == a * t,
                s1 == s2 + left * t,
        ;
    }
}

/// The binomial theorem for `(a + 1)^n`.
pub proof fn lemma_binomial_theorem(a: int, n: nat)
    ensures
        pow(a + 1, n) == binomial_sum(a, n, n),
    decreases n,
{
    reveal(pow);
    if n > 0 {
        let m = (n - 1) as nat;
        lemma_binomial_theorem(a, m);
        lemma_binomial_sum_next_row(a, m, n);
        lemma_binomial_beyond(m, n);
        let s = binomial_sum(a, m, m);
        assert(binomial_sum(a, m, n) == s + binomial(m, n) * pow(a, n));
        assert(binomial(m, n) * pow(a, n) == 0) by (nonlinear_arith)
            requires
                binomial(m, n) == 0,
        ;
        assert((a + 1) * s == s + a * s) by (nonlinear_arith);
    }
}

/// A prime `p` divides `binomial(p, k)` for every `k` strictly between `0` and
/// `p`.
pub proof fn lemma_prime_divides_binomial(p: nat, k: nat)
    requires
        is_prime(p as int),
        0 < k < p,
    ensures
        binomial(p, k) % p == 0,
{
    lemma_binomial_absorb(p, k);
    let c = binomial((p - 1) as nat, (k - 1) as nat);
    lemma_mod_multiples_basic(c as int, p as int);
    assert(p * c == c * p) by (nonlinear_arith);
    lemma_prime_divides_factor(k as int, binomial(p, k) as int, p as int);
    lemma_small_mod(k, p);
}

/// Modulo a prime `p`, every proper partial sum of the expansion of
/// `(a + 1)^p` is one: all terms but the first vanish.
proof fn lemma_binomial_sum_prime_row(a: int, p: nat, k: nat)
    requires
        is_prime(p as int),
        k < p,
    ensures
        congruent(binomial_sum(a, p, k), 1, p as int),
    decreases k,
{
    if k > 0 {
        lemma_binomial_sum_prime_row(a, p, (k - 1) as nat);
        lemma_prime_divides_binomial(p, k);
        lemma_small_mod(0, p);
        lemma_congruent_mul(binomial(p, k) as int, 0, pow(a, k), pow(a, k), p as int);
        assert(0 * pow(a, k) == 0);
        lemma_congruent_add(
            binomial_sum(a, p, (k - 1) as nat),
            1,
            binomial(p, k) * pow(a, k),
            0,
            p as int,
        );
    }
}

/// Modulo a prime `p`, `(a + 1)^p` is `a^p + 1`.
pub proof fn lemma_prime_power_of_successor(a: int, p: nat)
    requires
        is_prime(p as int),
    ensures
        congruent(pow(a + 1, p), pow(a, p) + 1, p as int),
{
    lemma_binomial_theorem(a, p);
    lemma_binomial_sum_prime_row(a, p, (p - 1) as nat);
    lemma_binomial_all(p);
    assert(binomial(p, p) * pow(a, p) == pow(a, p)) by (nonlinear_arith)
        requires
            binomial(p, p) == 1,
    ;
    lemma_congruent_add(
        binomial_sum(a, p, (p - 1) as nat),
        1,
        pow(a, p),
        pow(a, p),
        p as int,
    );
}

} // verus!
