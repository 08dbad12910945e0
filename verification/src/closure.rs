//! The points of a curve are closed under the chord and the tangent rule:
//! the line through two points of a cubic, or the tangent in one, meets the
//! cubic in a third point, whose mirror image the rule returns.

use crate::congruence::{
    congruent, lemma_congruent_add, lemma_congruent_difference, lemma_congruent_mul,
    lemma_congruent_residue, lemma_congruent_sub,
};
use crate::curve::CurveParams;
use crate::field::{lemma_distinct_residues, lemma_division_undone};
use crate::point::AffinePoint;
use crate::primes::{is_prime, lemma_prime_divides_factor};
use vstd::arithmetic::div_mod::lemma_small_mod;
use vstd::prelude::*;

verus! {

/// The cubic `x^3 + a x + b`.
pub open spec fn cubic(a: int, b: int, x: int) -> int {
    x * x * x + a * x + b
}

/// What is left of the slope condition of a line: zero, modulo `p`, for the
/// chord through `(x1, y1)` and a second point of the curve at `x2`, and for
/// the tangent in `(x1, y1)` where `x2 == x1`.
pub open spec fn slope_defect(a: int, s: int, x1: int, y1: int, x2: int) -> int {
    (x1 * x1 + x1 * x2 + x2 * x2 + a) - s * s * (x2 - x1) - 2 * s * y1
}

/// The square of the line of slope `s` through `(x1, y1)`, at distance `u`
/// from `x1`, expanded.
proof fn lemma_line_square(s: int, u: int, y1: int)
    ensures
        (s * u + y1) * (s * u + y1) == u * ((s * s) * u) + u * (2 * s * y1) + y1 * y1,
{
    let w = s * u;
    assert((w + y1) * (w + y1) == w * w + 2 * (w * y1) + y1 * y1) by (nonlinear_arith);
    assert(w * w == u * ((s * s) * u)) by (nonlinear_arith)
        requires
            w == s * u,
    ;
    assert(2 * (w * y1) == u * (2 * s * y1)) by (nonlinear_arith)
        requires
            w == s * u,
    ;
}

/// The difference of the cubic at `x` and at `x1`, with the factor
/// `u == x - x1` taken out.
proof fn lemma_cubic_difference(a: int, b: int, x: int, x1: int, u: int)
    requires
        u == x - x1,
    ensures
        cubic(a, b, x) - cubic(a, b, x1) == u * (x * x + x * x1 + x1 * x1) + u * a,
{
    assert(x * x * x - x1 * x1 * x1 == (x - x1) * (x * x + x * x1 + x1 * x1))
        by (nonlinear_arith);
    assert(a * x - a * x1 == (x - x1) * a) by (nonlinear_arith);
}

/// The quadratic factor that is left of the cubic minus the squared line,
/// once `x - x1` is taken out, written with the other two roots. Here `q`
/// stands for the square of the slope.
proof fn lemma_quadratic_factor(q: int, x: int, x1: int, x2: int)
    ensures
        x * x + x * x1 - q * (x - x1) == (x - x2) * (x - (q - x1 - x2)) + x1 * x2 + x2 * x2 - q
            * (x2 - x1),
{
    assert(x * x + x * x1 - q * (x - x1) == (x - x2) * (x - (q - x1 - x2)) + x1 * x2 + x2 * x2 - q
        * (x2 - x1)) by (nonlinear_arith);
}

/// The cubic minus the square of the line of slope `s` through `(x1, y1)`,
/// as the product of its three roots plus what vanishes modulo `p`.
proof fn lemma_line_on_cubic(a: int, b: int, s: int, x1: int, y1: int, x2: int, x: int)
    ensures
        cubic(a, b, x) - (s * (x - x1) + y1) * (s * (x - x1) + y1) == (x - x1) * (x - x2) * (x
            - (s * s - x1 - x2)) + (cubic(a, b, x1) - y1 * y1) + (x - x1) * slope_defect(
            a,
            s,
            x1,
            y1,
            x2,
        ),
{
    let u = x - x1;
    let v = x - x2;
    let q = s * s;
    let m = 2 * s * y1;
    let w = x - (q - x1 - x2);
    let defect = slope_defect(a, s, x1, y1, x2);
    lemma_line_square(s, u, y1);
    lemma_cubic_difference(a, b, x, x1, u);
    lemma_quadratic_factor(q, x, x1, x2);
    let inner = x * x + x * x1 + x1 * x1 + a - q * u - m;
    assert(inner == v * w + defect);
    assert(u * inner == u * (x * x + x * x1 + x1 * x1) + u * a - u * (q * u) - u * m)
        by (nonlinear_arith)
        requires
            inner == x * x + x * x1 + x1 * x1 + a - q * u - m,
    ;
    assert(u * (v * w + defect) == u * v * w + u * defect) by (nonlinear_arith);
}

/// A line whose slope condition holds modulo `p`, through a point
/// `(x1, y1)` of the curve, meets the curve again at `x3 = s^2 - x1 - x2`,
/// and the mirror image `(x3, y3)` of that point is on the curve.
proof fn lemma_line_meets_curve(
    a: int,
    b: int,
    p: int,
    s: int,
    x1: int,
    y1: int,
    x2: int,
    x3: int,
    y3: int,
)
    requires
        p > 0,
        congruent(y1 * y1, cubic(a, b, x1), p),
        slope_defect(a, s, x1, y1, x2) % p == 0,
        congruent(x3, s * s - x1 - x2, p),
        congruent(y3, s * (x1 - x3) - y1, p),
    ensures
        congruent(y3 * y3, cubic(a, b, x3), p),
{
    let line = s * (x3 - x1) + y1;
    let roots = (x3 - x1) * (x3 - x2);
    let third = x3 - (s * s - x1 - x2);
    let on_curve = cubic(a, b, x1) - y1 * y1;
    let defect = slope_defect(a, s, x1, y1, x2);
    lemma_line_on_cubic(a, b, s, x1, y1, x2, x3);
    lemma_small_mod(0, p as nat);
    lemma_congruent_difference(x3, s * s - x1 - x2, p);
    lemma_congruent_mul(roots, roots, third, 0, p);
    assert(roots * 0 == 0);
    lemma_congruent_difference(cubic(a, b, x1), y1 * y1, p);
    lemma_congruent_mul(x3 - x1, x3 - x1, defect, 0, p);
    assert((x3 - x1) * 0 == 0);
    lemma_congruent_add(roots * third, 0, on_curve, 0, p);
    lemma_congruent_add(roots * third + on_curve, 0, (x3 - x1) * defect, 0, p);
    lemma_congruent_difference(cubic(a, b, x3), line * line, p);
    let mirrored = s * (x1 - x3) - y1;
    lemma_congruent_mul(y3, mirrored, y3, mirrored, p);
    assert(mirrored * mirrored == line * line) by (nonlinear_arith)
        requires
            mirrored == s * (x1 - x3) - y1,
            line == s * (x3 - x1) + y1,
    ;
}

/// Modulo a prime, the slope condition holds for the chord through two
/// points of the curve with different first coordinates.
proof fn lemma_chord_defect(
    a: int,
    b: int,
    p: int,
    s: int,
    x1: int,
    y1: int,
    x2: int,
    y2: int,
)
    requires
        is_prime(p),
        congruent(y1 * y1, cubic(a, b, x1), p),
        congruent(y2 * y2, cubic(a, b, x2), p),
        (x2 - x1) % p != 0,
        congruent(s * (x2 - x1), y2 - y1, p),
    ensures
        slope_defect(a, s, x1, y1, x2) % p == 0,
{
    let u = x2 - x1;
    let w = s * u;
    let e = y2 - y1;
    let defect = slope_defect(a, s, x1, y1, x2);
    lemma_cubic_difference(a, b, x2, x1, u);
    assert(u * defect == u * (x2 * x2 + x2 * x1 + x1 * x1) + u * a - u * (s * s * u) - u * (2 * s
        * y1)) by (nonlinear_arith)
        requires
            defect == (x1 * x1 + x1 * x2 + x2 * x2 + a) - s * s * u - 2 * s * y1,
    ;
    assert(u * (s * s * u) == w * w) by (nonlinear_arith)
        requires
            w == s * u,
    ;
    assert(u * (2 * s * y1) == (2 * y1) * w) by (nonlinear_arith)
        requires
            w == s * u,
    ;
    assert(u * defect == (cubic(a, b, x2) - cubic(a, b, x1)) - w * w - (2 * y1) * w);
    lemma_congruent_mul(w, e, w, e, p);
    lemma_congruent_mul(2 * y1, 2 * y1, w, e, p);
    lemma_congruent_sub(cubic(a, b, x2), y2 * y2, cubic(a, b, x1), y1 * y1, p);
    lemma_congruent_sub(
        cubic(a, b, x2) - cubic(a, b, x1),
        y2 * y2 - y1 * y1,
        w * w,
        e * e,
        p,
    );
    lemma_congruent_sub(
        cubic(a, b, x2) - cubic(a, b, x1) - w * w,
        y2 * y2 - y1 * y1 - e * e,
        (2 * y1) * w,
        (2 * y1) * e,
        p,
    );
    assert(y2 * y2 - y1 * y1 - e * e - (2 * y1) * e == 0) by (nonlinear_arith)
        requires
            e == y2 - y1,
    ;
    lemma_small_mod(0, p as nat);
    lemma_prime_divides_factor(u, defect, p);
}

/// The slope condition holds for a tangent whose slope times `2 y1` is
/// `3 x1^2 + a` modulo `p`.
proof fn lemma_tangent_defect(a: int, p: int, s: int, x1: int, y1: int)
    requires
        p > 0,
        congruent(s * (2 * y1), 3 * x1 * x1 + a, p),
    ensures
        slope_defect(a, s, x1, y1, x1) % p == 0,
{
    assert(s * s * (x1 - x1) == 0) by (nonlinear_arith);
    assert(s * (2 * y1) == 2 * s * y1) by (nonlinear_arith);
    assert(x1 * x1 + x1 * x1 + x1 * x1 == 3 * x1 * x1) by (nonlinear_arith);
    lemma_congruent_difference(3 * x1 * x1 + a, s * (2 * y1), p);
}

impl CurveParams {
    /// Modulo a prime, the sum of two points that `add` accepts is a point of
    /// the curve, and reduced where both operands are.
    pub proof fn lemma_sum_closed(self, c: AffinePoint, d: AffinePoint)
        requires
            is_prime(self.p as int),
            self.can_add(c, d),
        ensures
            self.contains(self.sum(c, d)),
            c.reduced(self.p) && d.reduced(self.p) ==> self.sum(c, d).reduced(self.p),
    {
        if c is Coordinate && d is Coordinate && !self.mirrored(c, d) {
            let p = self.p as int;
            let x1 = c->Coordinate_0;
            let y1 = c->Coordinate_1;
            let x2 = d->Coordinate_0;
            let y2 = d->Coordinate_1;
            if x1 == x2 {
                self.lemma_vertical_pair(c, d);
            }
            let s = self.chord_slope(x1, y1, x2, y2);
            self.lemma_chord_slope(x1, y1, x2, y2);
            lemma_distinct_residues(x1, x2, self.p);
            lemma_chord_defect(
                self.a as int,
                self.b as int,
                p,
                s as int,
                x1 as int,
                y1 as int,
                x2 as int,
                y2 as int,
            );
            self.lemma_third_point_closed(s, x1, y1, x2);
        }
    }

    /// Modulo a prime other than two, twice a point of the curve whose second
    /// coordinate is not zero is a reduced point of the curve.
    pub proof fn lemma_twice_closed(self, c: AffinePoint)
        requires
            is_prime(self.p as int),
            self.p != 2,
            self.can_double(c),
            c is Coordinate ==> c->Coordinate_1 != 0,
        ensures
            self.contains(self.twice(c)),
            self.twice(c).reduced(self.p),
    {
        if c is Coordinate {
            let p = self.p as int;
            let x1 = c->Coordinate_0;
            let y1 = c->Coordinate_1;
            let s = self.tangent_slope(x1, y1);
            let numerator = (3 * x1 * x1 + self.a) % self.p;
            let denominator = (2 * y1) % self.p;
            // the denominator is not zero
            lemma_small_mod(2, self.p);
            lemma_small_mod(y1, self.p);
            if (2 * y1) % self.p == 0 {
                lemma_prime_divides_factor(2, y1 as int, p);
            }
            lemma_congruent_residue((2 * y1) as int, p);
            lemma_division_undone(numerator, denominator, self.p);
            lemma_congruent_mul(s as int, s as int, denominator as int, (2 * y1) as int, p);
            lemma_congruent_residue((3 * x1 * x1 + self.a) as int, p);
            lemma_tangent_defect(self.a as int, p, s as int, x1 as int, y1 as int);
            self.lemma_third_point_closed(s, x1, y1, x1);
        }
    }

    /// No step on the way to `multiple(pt, k)` is one on which the rules
    /// break down: no point with a zero second coordinate is doubled, and
    /// the point is never added to itself.
    pub open spec fn regular(self, pt: AffinePoint, k: nat) -> bool
        decreases k,
    {
        if k <= 1 {
            true
        } else {
            let half = self.multiple(pt, k / 2);
            &&& self.regular(pt, k / 2)
            &&& half is Coordinate ==> half->Coordinate_1 != 0
            &&& k % 2 == 1 ==> self.twice(half) != pt
        }
    }

    /// Modulo a prime other than two, `scalar_mul` accepts a reduced point of
    /// the curve and a scalar where no step breaks down, and the multiple is
    /// again a reduced point of the curve.
    pub proof fn lemma_multiple_closed(self, pt: AffinePoint, k: nat)
        requires
            is_prime(self.p as int),
            self.p != 2,
            self.contains(pt),
            pt.reduced(self.p),
            self.regular(pt, k),
        ensures
            self.can_multiply(pt, k),
            self.contains(self.multiple(pt, k)),
            self.multiple(pt, k).reduced(self.p),
        decreases k,
    {
        if k > 1 {
            let half = self.multiple(pt, k / 2);
            self.lemma_multiple_closed(pt, k / 2);
            self.lemma_twice_closed(half);
            if k % 2 == 1 {
                self.lemma_sum_closed(self.twice(half), pt);
            }
        }
    }

    /// The point that the chord and tangent rules return is reduced, and on
    /// the curve where the slope condition holds.
    proof fn lemma_third_point_closed(self, s: nat, x1: nat, y1: nat, x2: nat)
        requires
            self.p > 0,
            self.contains(AffinePoint::Coordinate(x1, y1)),
            slope_defect(self.a as int, s as int, x1 as int, y1 as int, x2 as int) % (
            self.p as int) == 0,
        ensures
            self.contains(self.third_point(s, x1, y1, x2)),
            self.third_point(s, x1, y1, x2).reduced(self.p),
    {
        let p = self.p as int;
        let x3 = (s * s - x1 - x2) % p;
        let y3 = (s * (x1 - x3) - y1) % p;
        lemma_congruent_residue(s * s - x1 - x2, p);
        lemma_congruent_residue(s * (x1 - x3) - y1, p);
        lemma_line_meets_curve(
            self.a as int,
            self.b as int,
            p,
            s as int,
            x1 as int,
            y1 as int,
            x2 as int,
            x3,
            y3,
        );
    }
}

} // verus!
