//! Points of a curve: a pair of coordinates, or the point at infinity.

use crate::bigint::{big_clone, big_eq, nat_value};
use num_bigint::BigUint;
use vstd::prelude::*;
use vstd::std_specs::cmp::PartialEqSpecImpl;

verus! {

/// The mathematical value of a [`Point`]: its coordinates as natural numbers.
pub enum AffinePoint {
    Coordinate(nat, nat),
    Identity,
}

impl AffinePoint {
    /// Both coordinates lie in `[0, p)`. The point at infinity has none.
    pub open spec fn reduced(self, p: nat) -> bool {
        match self {
            AffinePoint::Coordinate(x, y) => x < p && y < p,
            AffinePoint::Identity => true,
        }
    }

    /// The mirror image across the x axis: `(x, p - y)`. It is the point at
    /// infinity for the point at infinity.
    pub open spec fn reflect(self, p: nat) -> AffinePoint {
        match self {
            AffinePoint::Coordinate(x, y) => AffinePoint::Coordinate(x, (p - y) as nat),
            AffinePoint::Identity => AffinePoint::Identity,
        }
    }
}

/// A point of an elliptic curve. The coordinates are read modulo the prime of
/// the curve that the point is used with.
#[derive(Debug)]
pub enum Point {
    Coordinate(BigUint, BigUint),
    Identity,
}

impl View for Point {
    type V = AffinePoint;

    open spec fn view(&self) -> AffinePoint {
        match self {
            Point::Coordinate(x, y) => AffinePoint::Coordinate(nat_value(*x), nat_value(*y)),
            Point::Identity => AffinePoint::Identity,
        }
    }
}

impl Clone for Point {
    /// A copy with the same coordinates.
    fn clone(&self) -> (r: Self)
        ensures
            r@ == self@,
    {
        match self {
            Point::Coordinate(x, y) => Point::Coordinate(big_clone(x), big_clone(y)),
            Point::Identity => Point::Identity,
        }
    }
}

impl PartialEq for Point {
    /// Two points are equal where both are the point at infinity, or both have
    /// the same coordinates as numbers (not merely modulo a prime).
    fn eq(&self, other: &Self) -> (r: bool) {
        match (self, other) {
            (Point::Coordinate(x1, y1), Point::Coordinate(x2, y2)) => big_eq(x1, x2) && big_eq(
                y1,
                y2,
            ),
            (Point::Identity, Point::Identity) => true,
            _ => false,
        }
    }
}

impl PartialEqSpecImpl for Point {
    open spec fn obeys_eq_spec() -> bool {
        true
    }

    open spec fn eq_spec(&self, other: &Self) -> bool {
        self@ == other@
    }
}

} // verus!
