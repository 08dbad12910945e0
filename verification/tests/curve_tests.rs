use ec_arith::{EllipticCurve, Point};
use num_bigint::BigUint;

#[test]
fn test_ec_point_addition() {
    // y^2 = x^2 + 2x + 2 mod 17
    let ec: EllipticCurve = EllipticCurve {
        a: BigUint::from(2u32),
        b: BigUint::from(2u32),
        p: BigUint::from(17u32),
    };

    // (6,3) + (5,1) = (10,6)
    let p1 = Point::Coordinate(BigUint::from(6u32), BigUint::from(3u32));
    let p2 = Point::Coordinate(BigUint::from(5u32), BigUint::from(1u32));
    let pr = Point::Coordinate(BigUint::from(10u32), BigUint::from(6u32));

    let res = ec.add(&p1, &p2);
    assert_eq!(res, pr);

    let res = ec.add(&p2, &p1);
    assert_eq!(res, pr);
}

#[test]
fn test_ec_point_addition_identity() {
    // y^2 = x^2 + 2x + 2 mod 17
    let ec: EllipticCurve = EllipticCurve {
        a: BigUint::from(2u32),
        b: BigUint::from(2u32),
        p: BigUint::from(17u32),
    };

    // (6,3) + (5,1) = (10,6)
    let p1 = Point::Coordinate(BigUint::from(6u32), BigUint::from(3u32));
    let p2 = Point::Identity;
    let pr = p1.clone();

    let res = ec.add(&p1, &p2);
    assert_eq!(res, pr);

    let res = ec.add(&p2, &p1);
    assert_eq!(res, pr);
}

#[test]
fn test_ec_point_addition_reflected_in_x() {
    // y^2 = x^2 + 2x + 2 mod 17
    let ec: EllipticCurve = EllipticCurve {
        a: BigUint::from(2u32),
        b: BigUint::from(2u32),
        p: BigUint::from(17u32),
    };

    // (5, 16) + (5,1) = Point::Identity
    let p1: Point = Point::Coordinate(BigUint::from(5u32), BigUint::from(16u32));
    let p2: Point = Point::Coordinate(BigUint::from(5u32), BigUint::from(1u32));
    let pr: Point = Point::Identity;

    let res = ec.add(&p1, &p2);
    assert_eq!(res, pr);

    let res = ec.add(&p2, &p1);
    assert_eq!(res, pr);
}

#[test]
fn test_ec_point_doubling() {
    // y^2 = x^2 + 2x + 2 mod 17
    let ec: EllipticCurve = EllipticCurve {
        a: BigUint::from(2u32),
        b: BigUint::from(2u32),
        p: BigUint::from(17u32),
    };

    // (5, 1) + (5,1) = 2(5,1) = (6,3)
    let p1: Point = Point::Coordinate(BigUint::from(5u32), BigUint::from(1u32));
    let pr: Point = Point::Coordinate(BigUint::from(6u32), BigUint::from(3u32));

    let res = ec.double(&p1);
    assert_eq!(res, pr);
}

#[test]
fn test_ec_point_doubling_identity() {
    // y^2 = x^2 + 2x + 2 mod 17
    let ec: EllipticCurve = EllipticCurve {
        a: BigUint::from(2u32),
        b: BigUint::from(2u32),
        p: BigUint::from(17u32),
    };

    // I + I = 2I = I
    let p1: Point = Point::Identity;
    let pr: Point = Point::Identity;

    let res = ec.double(&p1);
    assert_eq!(res, pr);
}

#[test]
fn test_ec_scalar_multiplication() {
    // y^2 = x^2 + 2x + 2 mod 17 |G| = 19
    let ec: EllipticCurve = EllipticCurve {
        a: BigUint::from(2u32),
        b: BigUint::from(2u32),
        p: BigUint::from(17u32),
    };

    let c:Point = Point::Coordinate(BigUint::from(5u32), BigUint::from(1u32));

    // 2 (5, 1) = (6,3)
    let pr: Point = Point::Coordinate(BigUint::from(6u32), BigUint::from(3u32));
    let res:Point = ec.scalar_mul(&c, &BigUint::from(2u32));
    assert_eq!(res, pr);

    // 10 (5, 1) = (7,11)
    let pr: Point = Point::Coordinate(BigUint::from(7u32), BigUint::from(11u32));
    let res:Point = ec.scalar_mul(&c, &BigUint::from(10u32));
    assert_eq!(res, pr);

    // 19 (5, 1) = I
    let pr: Point = Point::Identity;
    let res:Point = ec.scalar_mul(&c, &BigUint::from(19u32));
    assert_eq!(res, pr);
}
