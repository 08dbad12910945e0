use ec_arith::{EllipticCurve, Point};
use num_bigint::BigUint;

fn big(n: u32) -> BigUint {
    BigUint::from(n)
}

fn at(x: u32, y: u32) -> Point {
    Point::Coordinate(big(x), big(y))
}

// y^2 = x^3 + 2x + 2 mod 17, a group of order 19
fn small_curve() -> EllipticCurve {
    EllipticCurve { a: big(2), b: big(2), p: big(17) }
}

fn points_of_small_curve() -> Vec<(u32, u32)> {
    let ec = small_curve();
    let mut points = Vec::new();
    for x in 0..17u32 {
        for y in 0..17u32 {
            if ec.is_on_curve(&at(x, y)) {
                points.push((x, y));
            }
        }
    }
    points
}

#[test]
fn membership_follows_the_equation() {
    let ec = small_curve();
    assert!(ec.is_on_curve(&at(5, 1)));
    assert!(ec.is_on_curve(&at(6, 3)));
    assert!(ec.is_on_curve(&at(10, 6)));
    assert!(!ec.is_on_curve(&at(5, 2)));
    assert!(!ec.is_on_curve(&at(0, 0)));
    assert!(ec.is_on_curve(&Point::Identity));
    for x in 0..17u32 {
        for y in 0..17u32 {
            let expected = (y * y) % 17 == (x * x * x + 2 * x + 2) % 17;
            assert_eq!(ec.is_on_curve(&at(x, y)), expected);
        }
    }
}

#[test]
fn membership_reads_coordinates_modulo_p() {
    let ec = small_curve();
    assert!(ec.is_on_curve(&at(5 + 17, 1 + 34)));
    assert!(!ec.is_on_curve(&at(5 + 17, 2)));
}

#[test]
fn identity_is_on_every_curve() {
    assert!(small_curve().is_on_curve(&Point::Identity));
    let ec = EllipticCurve { a: big(2), b: big(2), p: big(0) };
    assert!(ec.is_on_curve(&Point::Identity));
}

#[test]
fn the_small_curve_has_eighteen_points_with_coordinates() {
    assert_eq!(points_of_small_curve().len(), 18);
}

#[test]
fn points_compare_by_coordinates() {
    assert!(at(5, 1) == at(5, 1));
    assert!(at(5, 1) != at(5, 16));
    assert!(at(5, 1) != at(6, 1));
    assert!(at(5, 1) != at(22, 1));
    assert!(at(5, 1) != Point::Identity);
    assert!(Point::Identity != at(5, 1));
    assert!(Point::Identity == Point::Identity);
    let original = at(7, 11);
    assert_eq!(original.clone(), original);
    assert_eq!(Point::Identity.clone(), Point::Identity);
}

#[test]
fn identity_is_neutral_for_every_point() {
    let ec = small_curve();
    for (x, y) in points_of_small_curve() {
        assert_eq!(ec.add(&at(x, y), &Point::Identity), at(x, y));
        assert_eq!(ec.add(&Point::Identity, &at(x, y)), at(x, y));
    }
}

#[test]
fn addition_commutes_and_stays_on_the_curve() {
    let ec = small_curve();
    let points = points_of_small_curve();
    for &(x1, y1) in &points {
        for &(x2, y2) in &points {
            if (x1, y1) != (x2, y2) {
                let left = ec.add(&at(x1, y1), &at(x2, y2));
                let right = ec.add(&at(x2, y2), &at(x1, y1));
                assert_eq!(left, right);
                assert!(ec.is_on_curve(&left));
            }
        }
    }
}

#[test]
fn a_point_and_its_reflection_add_up_to_identity() {
    let ec = small_curve();
    for (x, y) in points_of_small_curve() {
        let reflected = at(x, 17 - y);
        assert!(ec.is_on_curve(&reflected));
        assert_eq!(ec.add(&at(x, y), &reflected), Point::Identity);
        assert_eq!(ec.add(&reflected, &at(x, y)), Point::Identity);
    }
}

#[test]
fn reflection_of_a_point_with_zero_ordinate() {
    // y^2 = x^3 + x mod 5 holds (0, 0); its reflection is written (0, 5)
    let ec = EllipticCurve { a: big(1), b: big(0), p: big(5) };
    assert!(ec.is_on_curve(&at(0, 0)));
    assert!(ec.is_on_curve(&at(0, 5)));
    assert_eq!(ec.add(&at(0, 0), &at(0, 5)), Point::Identity);
}

#[test]
fn chord_rule_values() {
    let ec = small_curve();
    // s = (1 - 3) / (5 - 6) = 2, x3 = 4 - 6 - 5 = 10, y3 = 2 (6 - 10) - 3 = 6
    assert_eq!(ec.add(&at(6, 3), &at(5, 1)), at(10, 6));
    // 3 (5, 1) = (10, 6) and 4 (5, 1) = (3, 1)
    assert_eq!(ec.add(&at(10, 6), &at(5, 1)), at(3, 1));
}

#[test]
fn tangent_rule_values() {
    let ec = small_curve();
    // s = (3 * 25 + 2) / 2 = 9 * 9 = 13, x2 = 169 - 10 = 6, y2 = 13 (5 - 6) - 1 = 3
    assert_eq!(ec.double(&at(5, 1)), at(6, 3));
    assert_eq!(ec.double(&at(6, 3)), at(3, 1));
    for (x, y) in points_of_small_curve() {
        assert!(ec.is_on_curve(&ec.double(&at(x, y))));
    }
}

#[test]
fn doubling_a_point_with_zero_ordinate_follows_the_formula() {
    // the slope is (3 * 0 + 1) times the "inverse" of zero, which is zero:
    // x2 = 0 - 0 = 0, y2 = 0 * (0 - 0) - 0 = 0
    let ec = EllipticCurve { a: big(1), b: big(0), p: big(5) };
    assert_eq!(ec.double(&at(0, 0)), at(0, 0));
    // y^2 = x^3 + 4x mod 5 holds (1, 0): s = 0, x2 = -2 = 3, y2 = 0
    let ec = EllipticCurve { a: big(4), b: big(0), p: big(5) };
    assert!(ec.is_on_curve(&at(1, 0)));
    assert_eq!(ec.double(&at(1, 0)), at(3, 0));
    assert!(!ec.is_on_curve(&at(3, 0)));
}

#[test]
fn multiplying_by_two_is_doubling() {
    let ec = small_curve();
    for (x, y) in points_of_small_curve() {
        assert_eq!(ec.scalar_mul(&at(x, y), &big(2)), ec.double(&at(x, y)));
    }
}

#[test]
fn multiplying_by_one_returns_the_point() {
    let ec = small_curve();
    assert_eq!(ec.scalar_mul(&at(5, 1), &big(1)), at(5, 1));
    assert_eq!(ec.scalar_mul(&Point::Identity, &big(1)), Point::Identity);
}

#[test]
fn multiplying_the_identity() {
    let ec = small_curve();
    // every doubling gives the identity again; with an even scalar nothing is added
    assert_eq!(ec.scalar_mul(&Point::Identity, &big(2)), Point::Identity);
    assert_eq!(ec.scalar_mul(&Point::Identity, &big(8)), Point::Identity);
}

#[test]
fn multiples_of_the_base_point() {
    let ec = small_curve();
    let base = at(5, 1);
    let expected = [
        (1u32, at(5, 1)),
        (2, at(6, 3)),
        (4, at(3, 1)),
        (5, at(9, 16)),
        (6, at(16, 13)),
        (8, at(13, 7)),
        (9, at(7, 6)),
        (10, at(7, 11)),
        (11, at(13, 10)),
        (12, at(0, 11)),
        (13, at(16, 4)),
        (16, at(10, 11)),
        (17, at(6, 14)),
        (18, at(5, 16)),
    ];
    for (k, multiple) in expected {
        assert_eq!(ec.scalar_mul(&base, &big(k)), multiple);
    }
}

#[test]
fn multiplying_by_the_group_order_gives_identity() {
    let ec = small_curve();
    for (x, y) in points_of_small_curve() {
        assert_eq!(ec.scalar_mul(&at(x, y), &big(19)), Point::Identity);
    }
}

#[test]
fn group_order_of_a_large_curve() {
    // secp256k1: y^2 = x^3 + 7 over a 256-bit prime, base point of prime order n
    let hex = |digits: &str| BigUint::parse_bytes(digits.as_bytes(), 16).unwrap();
    let ec = EllipticCurve {
        a: big(0),
        b: big(7),
        p: hex("FFFFFFFFFFFFFFFFFFFFFFFFFFFFFFFFFFFFFFFFFFFFFFFFFFFFFFFEFFFFFC2F"),
    };
    let base = Point::Coordinate(
        hex("79BE667EF9DCBBAC55A06295CE870B07029BFCDB2DCE28D959F2815B16F81798"),
        hex("483ADA7726A3C4655DA4FBFC0E1108A8FD17B448A68554199C47D08FFB10D4B8"),
    );
    let order = hex("FFFFFFFFFFFFFFFFFFFFFFFFFFFFFFFEBAAEDCE6AF48A03BBFD25E8CD0364141");
    assert!(ec.is_on_curve(&base));
    let twice = ec.double(&base);
    assert_eq!(
        twice,
        Point::Coordinate(
            hex("C6047F9441ED7D6D3045406E95C07CD85C778E4B8CEF3CA7ABAC09B95C709EE5"),
            hex("1AE168FEA63DC339A3C58419466CEAEEF7F632653266D0E1236431A950CFE52A"),
        )
    );
    assert_eq!(ec.scalar_mul(&base, &big(2)), twice);
    assert_eq!(ec.scalar_mul(&base, &order), Point::Identity);
}
