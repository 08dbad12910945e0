//! Laws of the group of points, stated over the mathematical values that the
//! contracts of [`EllipticCurve`](crate::curve::EllipticCurve) use.

use crate::congruence::{
    congruent, lemma_congruent_difference, lemma_congruent_mul, lemma_congruent_reduced,
    lemma_congruent_residue,
};
use crate::curve::CurveParams;
use crate::field::{lemma_distinct_residues, lemma_division_undone, mod_sub};
use crate::point::AffinePoint;
use crate::primes::{is_prime, lemma_congruent_cancel, lemma_prime_divides_factor};
use vstd::arithmetic::div_mod::{lemma_mod_multiples_vanish, lemma_mod_self_0};
use vstd::prelude::*;

verus! {

impl CurveParams {
    /// The point at infinity is neutral: added to a point on either side, it
    /// gives that point.
    pub proof fn lemma_identity_neutral(self, pt: AffinePoint)
        ensures
            self.sum(pt, AffinePoint::Identity) == pt,
            self.sum(AffinePoint::Identity, pt) == pt,
    {
    }

    /// A reduced point and its mirror image add up to the point at infinity.
    /// The mirror image of a point of the curve is a point of the curve, and
    /// `add` accepts the two where they differ.
    pub proof fn lemma_reflection(self, pt: AffinePoint)
        requires
            self.p > 0,
            pt.reduced(self.p),
        ensures
            self.sum(pt, pt.reflect(self.p)) == AffinePoint::Identity,
            self.contains(pt) ==> self.contains(pt.reflect(self.p)),
            self.contains(pt) && pt != pt.reflect(self.p) ==> self.can_add(
                pt,
                pt.reflect(self.p),
            ),
    {
        match pt {
            AffinePoint::Identity => {},
            AffinePoint::Coordinate(x, y) => {
                let p = self.p as int;
                let z = (p - y) as nat;
                assert((y + z) % self.p == 0) by {
                    lemma_mod_self_0(p);
                }
                assert(z * z == y * y + (p - 2 * y) * p) by (nonlinear_arith)
                    requires
                        z == p - y,
                ;
                lemma_mod_multiples_vanish(p - 2 * y, (y * y) as int, p);
                assert(self.mirrored(pt, pt.reflect(self.p)));
            },
        }
    }

    /// Modulo a prime, the slope of the chord times the difference of the
    /// first coordinates is the difference of the second ones.
    pub proof fn lemma_chord_slope(self, x1: nat, y1: nat, x2: nat, y2: nat)
        requires
            is_prime(self.p as int),
            x1 < self.p,
            x2 < self.p,
            x1 != x2,
        ensures
            congruent(self.chord_slope(x1, y1, x2, y2) * (x2 - x1), y2 - y1, self.p as int),
            self.chord_slope(x1, y1, x2, y2) < self.p,
    {
        let p = self.p as int;
        let dy = mod_sub(y2, y1, self.p);
        let dx = mod_sub(x2, x1, self.p);
        let s = self.chord_slope(x1, y1, x2, y2);
        lemma_distinct_residues(x1, x2, self.p);
        lemma_division_undone(dy, dx, self.p);
        lemma_congruent_residue(x2 - x1, p);
        lemma_congruent_residue(y2 - y1, p);
        lemma_congruent_mul(s as int, s as int, dx as int, x2 - x1, p);
    }

    /// On a curve modulo a prime, two different reduced points with the same
    /// first coordinate are mirror images of each other.
    pub proof fn lemma_vertical_pair(self, c: AffinePoint, d: AffinePoint)
        requires
            is_prime(self.p as int),
            self.contains(c),
            self.contains(d),
            c.reduced(self.p),
            d.reduced(self.p),
            c != d,
            c is Coordinate,
            d is Coordinate,
            c->Coordinate_0 == d->Coordinate_0,
        ensures
            self.mirrored(c, d),
    {
        let p = self.p as int;
        let y1 = c->Coordinate_1 as int;
        let y2 = d->Coordinate_1 as int;
        lemma_congruent_difference(y1 * y1, y2 * y2, p);
        assert((y1 - y2) * (y1 + y2) == y1 * y1 - y2 * y2) by (nonlinear_arith);
        lemma_prime_divides_factor(y1 - y2, y1 + y2, p);
        if (y1 - y2) % p == 0 {
            lemma_congruent_difference(y1, y2, p);
            lemma_congruent_reduced(y1, y2, p);
        }
    }

    /// On a curve modulo a prime, the sum of two points does not depend on
    /// their order.
    pub proof fn lemma_sum_commutes(self, c: AffinePoint, d: AffinePoint)
        requires
            is_prime(self.p as int),
            self.can_add(c, d),
        ensures
            self.can_add(d, c),
            self.sum(c, d) == self.sum(d, c),
    {
        if c is Coordinate && d is Coordinate && !self.mirrored(c, d) {
            let p = self.p as int;
            let x1 = c->Coordinate_0;
            let y1 = c->Coordinate_1;
            let x2 = d->Coordinate_0;
            let y2 = d->Coordinate_1;
            if x1 == x2 {
                self.lemma_vertical_pair(c, d);
            }
            let s = self.chord_slope(x1, y1, x2, y2);
            let t = self.chord_slope(x2, y2, x1, y1);
            self.lemma_chord_slope(x1, y1, x2, y2);
            self.lemma_chord_slope(x2, y2, x1, y1);
            // t * (x2 - x1) is congruent to y2 - y1 as well
            lemma_congruent_mul(t * (x1 - x2), y1 - y2, -1, -1, p);
            assert(t * (x1 - x2) * (-1) == t * (x2 - x1)) by (nonlinear_arith);
            lemma_distinct_residues(x1, x2, self.p);
            lemma_congruent_cancel(s as int, t as int, x2 - x1, p);
            lemma_congruent_reduced(s as int, t as int, p);
            // with one slope, the two second coordinates are congruent
            let x3 = (s * s - x1 - x2) % p;
            let u = s * (x1 - x3) - y1;
            let v = s * (x2 - x3) - y2;
            lemma_congruent_difference(s * (x2 - x1), y2 - y1, p);
            lemma_congruent_mul(s * (x2 - x1) - (y2 - y1), 0, -1, -1, p);
            assert((s * (x2 - x1) - (y2 - y1)) * (-1) == u - v) by (nonlinear_arith)
                requires
                    u == s * (x1 - x3) - y1,
                    v == s * (x2 - x3) - y2,
            ;
            lemma_congruent_difference(u, v, p);
            assert(self.third_point(s, x1, y1, x2) == self.third_point(s, x2, y2, x1));
        }
    }

    /// Twice a point is the point multiplied by two, and `scalar_mul` accepts
    /// the scalar two where `double` accepts the point.
    pub proof fn lemma_multiple_two(self, pt: AffinePoint)
        ensures
            self.multiple(pt, 2) == self.twice(pt),
            self.can_multiply(pt, 2) == self.can_double(pt),
    {
        reveal_with_fuel(CurveParams::multiple, 3);
        reveal_with_fuel(CurveParams::can_multiply, 3);
    }
}

} // verus!
