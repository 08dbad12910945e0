//! Curves `y^2 = x^3 + a x + b` modulo `p`, and the group law on their points.

use crate::bigint::{
    big_bit, big_bits, big_eq, big_from_u32, big_lt, big_modpow, bit_at, is_bit_length, nat_value,
};
use crate::congruence::{
    congruent, lemma_congruent_add, lemma_congruent_mul, lemma_congruent_residue,
    lemma_congruent_sub,
};
use crate::field::{mod_div, mod_sub, FiniteField};
use crate::point::{AffinePoint, Point};
use num_bigint::BigUint;
use vstd::arithmetic::div_mod::{lemma_div_denominator, lemma_fundamental_div_mod_converse};
use vstd::arithmetic::power::{lemma_square_is_pow2, pow};
use vstd::arithmetic::power2::{lemma2_to64, lemma_pow2_pos, lemma_pow2_unfold, pow2};
use vstd::prelude::*;

verus! {

/// The mathematical value of an [`EllipticCurve`]: its two coefficients and
/// its modulus as natural numbers.
pub struct CurveParams {
    pub a: nat,
    pub b: nat,
    pub p: nat,
}

impl CurveParams {
    /// The point satisfies `y^2 = x^3 + a x + b` modulo `p`. The point at
    /// infinity does by convention.
    pub open spec fn contains(self, pt: AffinePoint) -> bool {
        match pt {
            AffinePoint::Coordinate(x, y) => (y * y) % self.p == (x * x * x + self.a * x + self.b)
                % self.p,
            AffinePoint::Identity => true,
        }
    }

    /// Two points with coordinates that lie on one vertical line and whose
    /// second coordinates add up to zero modulo `p`.
    pub open spec fn mirrored(self, c: AffinePoint, d: AffinePoint) -> bool {
        match (c, d) {
            (AffinePoint::Coordinate(x1, y1), AffinePoint::Coordinate(x2, y2)) => x1 == x2 && (y1 + y2)
                % self.p == 0,
            _ => false,
        }
    }

    /// The slope of the line through `(x1, y1)` and `(x2, y2)`:
    /// `(y2 - y1) / (x2 - x1)` in the field.
    pub open spec fn chord_slope(self, x1: nat, y1: nat, x2: nat, y2: nat) -> nat {
        mod_div(mod_sub(y2, y1, self.p), mod_sub(x2, x1, self.p), self.p)
    }

    /// The slope of the tangent in `(x1, y1)`: `(3 x1^2 + a) / (2 y1)` in the
    /// field.
    pub open spec fn tangent_slope(self, x1: nat, y1: nat) -> nat {
        mod_div(
            (3 * x1 * x1 + self.a) % self.p,
            (2 * y1) % self.p,
            self.p,
        )
    }

    /// The third point of the curve on the line of slope `s` through
    /// `(x1, y1)` and a point with first coordinate `x2`, mirrored:
    /// `x3 = s^2 - x1 - x2`, `y3 = s (x1 - x3) - y1`, both modulo `p`.
    pub open spec fn third_point(self, s: nat, x1: nat, y1: nat, x2: nat) -> AffinePoint {
        let x3 = (s * s - x1 - x2) % (self.p as int);
        let y3 = (s * (x1 - x3) - y1) % (self.p as int);
        AffinePoint::Coordinate(x3 as nat, y3 as nat)
    }

    /// The sum of two different points: the other operand where one is the
    /// point at infinity, the point at infinity for mirrored points, and the
    /// chord rule for the rest.
    pub open spec fn sum(self, c: AffinePoint, d: AffinePoint) -> AffinePoint {
        match (c, d) {
            (AffinePoint::Identity, _) => d,
            (_, AffinePoint::Identity) => c,
            (AffinePoint::Coordinate(x1, y1), AffinePoint::Coordinate(x2, y2)) => {
                if self.mirrored(c, d) {
                    AffinePoint::Identity
                } else {
                    self.third_point(self.chord_slope(x1, y1, x2, y2), x1, y1, x2)
                }
            },
        }
    }

    /// Twice a point, by the tangent rule. Where `y` is zero the slope has a
    /// zero denominator, and the value that the rule then gives is not the
    /// double of the point in the group.
    pub open spec fn twice(self, c: AffinePoint) -> AffinePoint {
        match c {
            AffinePoint::Identity => AffinePoint::Identity,
            AffinePoint::Coordinate(x1, y1) => self.third_point(
                self.tangent_slope(x1, y1),
                x1,
                y1,
                x1,
            ),
        }
    }

    /// `k` times a point by doubling and adding, from the most significant
    /// binary digit of `k` down: the multiple for `k / 2` is doubled, and the
    /// point is added where `k` is odd.
    pub open spec fn multiple(self, pt: AffinePoint, k: nat) -> AffinePoint
        decreases k,
    {
        if k <= 1 {
            pt
        } else {
            let doubled = self.twice(self.multiple(pt, k / 2));
            if k % 2 == 1 {
                self.sum(doubled, pt)
            } else {
                doubled
            }
        }
    }

    /// What `add` asks of its operands: a modulus, two different points of the
    /// curve, and reduced coordinates where the chord rule is applied.
    pub open spec fn can_add(self, c: AffinePoint, d: AffinePoint) -> bool {
        &&& self.p > 0
        &&& self.contains(c)
        &&& self.contains(d)
        &&& c != d
        &&& (c is Coordinate && d is Coordinate && !self.mirrored(c, d)) ==> c.reduced(self.p)
            && d.reduced(self.p)
    }

    /// What `double` asks of its operand: a point of the curve, and for one
    /// with coordinates that they are reduced and the modulus at least two.
    pub open spec fn can_double(self, c: AffinePoint) -> bool {
        c is Coordinate ==> self.p >= 2 && self.contains(c) && c.reduced(self.p)
    }

    /// Every doubling and every addition on the way to `multiple(pt, k)` is
    /// one that `double` and `add` accept.
    pub open spec fn can_multiply(self, pt: AffinePoint, k: nat) -> bool
        decreases k,
    {
        if k <= 1 {
            true
        } else {
            let half = self.multiple(pt, k / 2);
            &&& self.can_multiply(pt, k / 2)
            &&& self.can_double(half)
            &&& k % 2 == 1 ==> self.can_add(self.twice(half), pt)
        }
    }
}

/// A curve in short Weierstrass form, `y^2 = x^3 + a x + b`, over the
/// integers modulo `p`. The points form a group where `p` is prime, which
/// the type does not enforce.
pub struct EllipticCurve {
    pub a: BigUint,
    pub b: BigUint,
    pub p: BigUint,
}

impl View for EllipticCurve {
    type V = CurveParams;

    open spec fn view(&self) -> CurveParams {
        CurveParams { a: nat_value(self.a), b: nat_value(self.b), p: nat_value(self.p) }
    }
}

impl EllipticCurve {
    /// Whether the point satisfies the equation of the curve. The modulus
    /// must not be zero where the point has coordinates.
    pub fn is_on_curve(&self, c: &Point) -> (r: bool)
        requires
            c@ is Coordinate ==> self@.p > 0,
        ensures
            r == self@.contains(c@),
    {
        match c {
            Point::Coordinate(x, y) => {
                let two: BigUint = big_from_u32(2);
                let three: BigUint = big_from_u32(3);
                let y2: BigUint = big_modpow(y, &two, &self.p);
                let x3: BigUint = big_modpow(x, &three, &self.p);
                let ax: BigUint = FiniteField::multiplication(&self.a, x, &self.p);
                let x3plusax: BigUint = FiniteField::add(&x3, &ax, &self.p);
                let rhs: BigUint = FiniteField::add(&x3plusax, &self.b, &self.p);
                proof {
                    let p = self@.p as int;
                    let xv = nat_value(*x) as int;
                    let yv = nat_value(*y) as int;
                    let av = self@.a as int;
                    let bv = self@.b as int;
                    lemma_square_is_pow2(yv);
                    assert(pow(xv, 3) == xv * xv * xv) by {
                        reveal_with_fuel(pow, 4);
                        assert(xv * (xv * (xv * 1)) == xv * xv * xv) by (nonlinear_arith);
                    }
                    lemma_congruent_residue(yv * yv, p);
                    lemma_congruent_residue(xv * xv * xv, p);
                    lemma_congruent_residue(av * xv, p);
                    lemma_congruent_add(
                        nat_value(x3) as int,
                        xv * xv * xv,
                        nat_value(ax) as int,
                        av * xv,
                        p,
                    );
                    lemma_congruent_residue((nat_value(x3) + nat_value(ax)) as int, p);
                    lemma_congruent_add(
                        nat_value(x3plusax) as int,
                        xv * xv * xv + av * xv,
                        bv,
                        bv,
                        p,
                    );
                    lemma_congruent_residue(nat_value(x3plusax) + bv, p);
                    lemma_congruent_residue(xv * xv * xv + av * xv + bv, p);
                }
                big_eq(&y2, &rhs)
            },
            Point::Identity => true,
        }
    }

    /// The sum of two different points of the curve. For two equal points
    /// see `double`.
    pub fn add(&self, c: &Point, d: &Point) -> (r: Point)
        requires
            self@.can_add(c@, d@),
        ensures
            r@ == self@.sum(c@, d@),
    {
        match (c, d) {
            (Point::Identity, _) => d.clone(),
            (_, Point::Identity) => c.clone(),
            (Point::Coordinate(x1, y1), Point::Coordinate(x2, y2)) => {
                let y1plusy2: BigUint = FiniteField::add(y1, y2, &self.p);
                let zero: BigUint = big_from_u32(0);
                if big_eq(x1, x2) && big_eq(&y1plusy2, &zero) {
                    return Point::Identity;
                }
                let two: BigUint = big_from_u32(2);
                let y2minusy1: BigUint = FiniteField::subtract(y2, y1, &self.p);
                let x2minusx1: BigUint = FiniteField::subtract(x2, x1, &self.p);
                let s: BigUint = FiniteField::divide(&y2minusy1, &x2minusx1, &self.p);
                let s2: BigUint = big_modpow(&s, &two, &self.p);
                let s2minusx1: BigUint = FiniteField::subtract(&s2, x1, &self.p);
                let x3: BigUint = FiniteField::subtract(&s2minusx1, x2, &self.p);
                let x1minusx3: BigUint = FiniteField::subtract(x1, &x3, &self.p);
                let sx1minusx3: BigUint = FiniteField::multiplication(&s, &x1minusx3, &self.p);
                let y3: BigUint = FiniteField::subtract(&sx1minusx3, y1, &self.p);
                proof {
                    let p = self@.p as int;
                    let sv = nat_value(s) as int;
                    let x1v = nat_value(*x1) as int;
                    let x2v = nat_value(*x2) as int;
                    lemma_square_is_pow2(sv);
                    lemma_congruent_residue(sv * sv, p);
                    lemma_congruent_sub(nat_value(s2) as int, sv * sv, x1v, x1v, p);
                    lemma_congruent_residue(nat_value(s2) - x1v, p);
                    lemma_congruent_sub(nat_value(s2minusx1) as int, sv * sv - x1v, x2v, x2v, p);
                    lemma_third_point_ordinate(
                        sv,
                        x1v,
                        nat_value(x3) as int,
                        nat_value(*y1) as int,
                        p,
                    );
                }
                Point::Coordinate(x3, y3)
            },
        }
    }

    /// Twice a point of the curve, by the tangent rule. A second coordinate
    /// of zero is not set apart: see [`CurveParams::twice`].
    pub fn double(&self, c: &Point) -> (r: Point)
        requires
            self@.can_double(c@),
        ensures
            r@ == self@.twice(c@),
    {
        match c {
            Point::Identity => Point::Identity,
            Point::Coordinate(x1, y1) => {
                let two: BigUint = big_from_u32(2);
                let three: BigUint = big_from_u32(3);
                let x1_pow_2: BigUint = big_modpow(x1, &two, &self.p);
                let three_times_x1p2: BigUint = FiniteField::multiplication(
                    &three,
                    &x1_pow_2,
                    &self.p,
                );
                let s_numerator: BigUint = FiniteField::add(&self.a, &three_times_x1p2, &self.p);
                let s_denominator: BigUint = FiniteField::multiplication(&two, y1, &self.p);
                let s: BigUint = FiniteField::divide(&s_numerator, &s_denominator, &self.p);
                proof {
                    let p = self@.p as int;
                    let x1v = nat_value(*x1) as int;
                    lemma_square_is_pow2(x1v);
                    lemma_congruent_residue(x1v * x1v, p);
                    lemma_congruent_mul(3, 3, nat_value(x1_pow_2) as int, x1v * x1v, p);
                    lemma_congruent_residue((3 * nat_value(x1_pow_2)) as int, p);
                    assert(3 * (x1v * x1v) == 3 * x1v * x1v) by (nonlinear_arith);
                    lemma_congruent_add(
                        self@.a as int,
                        self@.a as int,
                        nat_value(three_times_x1p2) as int,
                        3 * x1v * x1v,
                        p,
                    );
                    assert(nat_value(s) == self@.tangent_slope(nat_value(*x1), nat_value(*y1)));
                }
                let s_pow_2: BigUint = big_modpow(&s, &two, &self.p);
                let two_times_x1: BigUint = FiniteField::multiplication(&two, x1, &self.p);
                let x2: BigUint = FiniteField::subtract(&s_pow_2, &two_times_x1, &self.p);
                let x1_minus_x2: BigUint = FiniteField::subtract(x1, &x2, &self.p);
                let s_times_x1x2: BigUint = FiniteField::multiplication(
                    &s,
                    &x1_minus_x2,
                    &self.p,
                );
                let y2: BigUint = FiniteField::subtract(&s_times_x1x2, y1, &self.p);
                proof {
                    let p = self@.p as int;
                    let sv = nat_value(s) as int;
                    let x1v = nat_value(*x1) as int;
                    lemma_square_is_pow2(sv);
                    lemma_congruent_residue(sv * sv, p);
                    lemma_congruent_residue(2 * x1v, p);
                    lemma_congruent_sub(
                        nat_value(s_pow_2) as int,
                        sv * sv,
                        nat_value(two_times_x1) as int,
                        2 * x1v,
                        p,
                    );
                    lemma_third_point_ordinate(
                        sv,
                        x1v,
                        nat_value(x2) as int,
                        nat_value(*y1) as int,
                        p,
                    );
                }
                Point::Coordinate(x2, y2)
            },
        }
    }

    /// `d` times the point `c`, by doubling and adding from the second
    /// highest binary digit of `d` down. The highest one is taken up by
    /// starting from `c` itself. The scalar must not be zero, and every step
    /// must be one that `double` and `add` accept; `checked_scalar_mul` tests
    /// this as it goes.
    pub fn scalar_mul(&self, c: &Point, d: &BigUint) -> (r: Point)
        requires
            nat_value(*d) >= 1,
            self@.can_multiply(c@, nat_value(*d)),
        ensures
            r@ == self@.multiple(c@, nat_value(*d)),
    {
        let ghost k = nat_value(*d);
        let bits: u64 = big_bits(d);
        let mut i: u64 = bits - 1;
        let mut t: Point = c.clone();
        proof {
            lemma_leading_digit(k, bits as nat);
        }
        while i > 0
            invariant
                k == nat_value(*d),
                self@.can_multiply(c@, k),
                k / pow2(i as nat) >= 1,
                t@ == self@.multiple(c@, k / pow2(i as nat)),
            decreases i,
        {
            i = i - 1;
            proof {
                lemma_next_digit(k, i as nat);
                self@.lemma_can_multiply_prefix(c@, k, i as nat);
            }
            t = self.double(&t);
            if big_bit(d, i) {
                t = self.add(&t, c);
            }
        }
        proof {
            lemma2_to64();
            assert(pow2(i as nat) == 1);
        }
        t
    }

    /// Whether both coordinates of the point lie in `[0, p)`.
    fn is_reduced(&self, c: &Point) -> (r: bool)
        ensures
            r == c@.reduced(self@.p),
    {
        match c {
            Point::Coordinate(x, y) => big_lt(x, &self.p) && big_lt(y, &self.p),
            Point::Identity => true,
        }
    }

    /// Whether `add` accepts the two points.
    fn accepts_add(&self, c: &Point, d: &Point) -> (r: bool)
        ensures
            r == self@.can_add(c@, d@),
    {
        let zero: BigUint = big_from_u32(0);
        if big_eq(&self.p, &zero) {
            return false;
        }
        if !self.is_on_curve(c) || !self.is_on_curve(d) || c == d {
            return false;
        }
        match (c, d) {
            (Point::Coordinate(x1, y1), Point::Coordinate(x2, y2)) => {
                let y1plusy2: BigUint = FiniteField::add(y1, y2, &self.p);
                (big_eq(x1, x2) && big_eq(&y1plusy2, &zero)) || (self.is_reduced(c)
                    && self.is_reduced(d))
            },
            _ => true,
        }
    }

    /// Whether `double` accepts the point.
    fn accepts_double(&self, c: &Point) -> (r: bool)
        ensures
            r == self@.can_double(c@),
    {
        match c {
            Point::Coordinate(_, _) => {
                let one: BigUint = big_from_u32(1);
                big_lt(&one, &self.p) && self.is_on_curve(c) && self.is_reduced(c)
            },
            Point::Identity => true,
        }
    }

    /// The sum of two points, or `None` where `add` does not accept them:
    /// where one is not on the curve, where they are equal, where the chord
    /// rule would meet a coordinate that is not reduced, or where the
    /// modulus is zero.
    pub fn checked_add(&self, c: &Point, d: &Point) -> (r: Option<Point>)
        ensures
            match r {
                Some(sum) => self@.can_add(c@, d@) && sum@ == self@.sum(c@, d@),
                None => !self@.can_add(c@, d@),
            },
    {
        if self.accepts_add(c, d) {
            Some(self.add(c, d))
        } else {
            None
        }
    }

    /// Twice a point, or `None` where `double` does not accept it: where it
    /// is not on the curve, where a coordinate is not reduced, or where the
    /// modulus is below two.
    pub fn checked_double(&self, c: &Point) -> (r: Option<Point>)
        ensures
            match r {
                Some(twice) => self@.can_double(c@) && twice@ == self@.twice(c@),
                None => !self@.can_double(c@),
            },
    {
        if self.accepts_double(c) {
            Some(self.double(c))
        } else {
            None
        }
    }

    /// `d` times the point `c` as `scalar_mul` computes it, or `None` where
    /// `d` is zero or a step on the way is one that `double` or `add` does
    /// not accept. Every step is tested before it is taken.
    pub fn checked_scalar_mul(&self, c: &Point, d: &BigUint) -> (r: Option<Point>)
        ensures
            match r {
                Some(multiple) => nat_value(*d) >= 1 && self@.can_multiply(c@, nat_value(*d))
                    && multiple@ == self@.multiple(c@, nat_value(*d)),
                None => !(nat_value(*d) >= 1 && self@.can_multiply(c@, nat_value(*d))),
            },
    {
        let ghost k = nat_value(*d);
        let bits: u64 = big_bits(d);
        if bits == 0 {
            return None;
        }
        let mut i: u64 = bits - 1;
        let mut t: Point = c.clone();
        proof {
            lemma_leading_digit(k, bits as nat);
        }
        while i > 0
            invariant
                k == nat_value(*d),
                k / pow2(i as nat) >= 1,
                self@.can_multiply(c@, k / pow2(i as nat)),
                t@ == self@.multiple(c@, k / pow2(i as nat)),
            decreases i,
        {
            i = i - 1;
            proof {
                lemma_next_digit(k, i as nat);
                if self@.can_multiply(c@, k) {
                    self@.lemma_can_multiply_prefix(c@, k, i as nat);
                }
            }
            if !self.accepts_double(&t) {
                return None;
            }
            t = self.double(&t);
            if big_bit(d, i) {
                if !self.accepts_add(&t, c) {
                    return None;
                }
                t = self.add(&t, c);
            }
        }
        proof {
            lemma2_to64();
            assert(pow2(i as nat) == 1);
        }
        Some(t)
    }
}

/// The second coordinate that the chord and tangent rules compute step by
/// step is the one that `third_point` states.
proof fn lemma_third_point_ordinate(s: int, x1: int, x3: int, y1: int, p: int)
    requires
        p > 0,
    ensures
        congruent((s * ((x1 - x3) % p)) % p - y1, s * (x1 - x3) - y1, p),
{
    lemma_congruent_residue(x1 - x3, p);
    lemma_congruent_mul(s, s, (x1 - x3) % p, x1 - x3, p);
    lemma_congruent_residue(s * ((x1 - x3) % p), p);
    lemma_congruent_sub((s * ((x1 - x3) % p)) % p, s * (x1 - x3), y1, y1, p);
}

/// A number of `len` binary digits, divided by `2^(len-1)`, leaves its
/// leading digit, which is one.
proof fn lemma_leading_digit(k: nat, len: nat)
    requires
        k >= 1,
        is_bit_length(k, len),
    ensures
        len >= 1,
        k / pow2((len - 1) as nat) == 1,
{
    let m = pow2((len - 1) as nat) as int;
    lemma_pow2_unfold(len);
    lemma_fundamental_div_mod_converse(k as int, m, 1, k - m);
}

/// Dropping `i` binary digits of `k` is dropping `i + 1` of them and
/// appending the digit at position `i`.
proof fn lemma_next_digit(k: nat, i: nat)
    ensures
        (k / pow2(i)) / 2 == k / pow2(i + 1),
        bit_at(k, i) == ((k / pow2(i)) % 2 == 1),
{
    lemma_pow2_pos(i);
    lemma_pow2_unfold(i + 1);
    lemma_div_denominator(k as int, pow2(i) as int, 2);
    assert(pow2(i) * 2 == 2 * pow2(i));
}

impl CurveParams {
    /// Where every step on the way to `multiple(pt, k)` is accepted, so is
    /// every step on the way to the multiple for a prefix of the binary
    /// digits of `k`.
    pub proof fn lemma_can_multiply_prefix(self, pt: AffinePoint, k: nat, i: nat)
        requires
            self.can_multiply(pt, k),
        ensures
            self.can_multiply(pt, k / pow2(i)),
        decreases i,
    {
        if i == 0 {
            lemma2_to64();
        } else {
            self.lemma_can_multiply_prefix(pt, k, (i - 1) as nat);
            lemma_next_digit(k, (i - 1) as nat);
        }
    }
}

} // verus!
