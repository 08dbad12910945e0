//! Arithmetic of elliptic curves in short Weierstrass form over a prime field.
//!
//! [`FiniteField`] is arithmetic modulo `p`, [`EllipticCurve`] the group law
//! on the points of `y^2 = x^3 + a x + b`: addition of two different points,
//! doubling, and multiplication by a scalar.
//!
//! The numbers are arbitrary-precision unsigned integers of `num_bigint`.
//! Every contract speaks of the natural number that such an integer stands
//! for, written `nat_value(..)`, and of the values of points and curves that
//! are made of these, written with `@`.
//!
//! - `bigint`: what is taken on trust of `num_bigint`.
//! - `congruence`, `primes`, `binomial`, `fermat`: number theory up to
//!   Fermat's little theorem, all proved.
//! - `field`: modular arithmetic and its laws.
//! - `point`, `curve`: points, curves, and the operations on them.
//! - `group_law`, `closure`: laws of the operations on points.

pub mod bigint;
pub mod binomial;
pub mod closure;
pub mod congruence;
pub mod curve;
pub mod fermat;
pub mod field;
pub mod group_law;
pub mod point;
pub mod primes;

pub use crate::curve::EllipticCurve;
pub use crate::field::FiniteField;
pub use crate::point::Point;
