use ec_arith::FiniteField;
use num_bigint::BigUint;

fn big(n: u32) -> BigUint {
    BigUint::from(n)
}

#[test]
fn sums_products_and_differences_are_reduced() {
    let p = big(13);
    for c in 0..13u32 {
        for d in 0..13u32 {
            assert!(FiniteField::add(&big(c), &big(d), &p) < p);
            assert!(FiniteField::multiplication(&big(c), &big(d), &p) < p);
            assert!(FiniteField::subtract(&big(c), &big(d), &p) < p);
        }
    }
}

#[test]
fn sums_and_products_match_native_arithmetic() {
    let p = big(13);
    for c in 0..40u32 {
        for d in 0..40u32 {
            assert_eq!(FiniteField::add(&big(c), &big(d), &p), big((c + d) % 13));
            assert_eq!(FiniteField::multiplication(&big(c), &big(d), &p), big((c * d) % 13));
        }
    }
}

#[test]
fn a_number_plus_its_additive_inverse_is_zero() {
    for p in [1u32, 2, 11, 51, 97] {
        for c in 0..p {
            let inverse = FiniteField::inverse_addition(&big(c), &big(p));
            assert_eq!(inverse, big(p - c));
            assert_eq!(FiniteField::add(&big(c), &inverse, &big(p)), big(0));
        }
    }
}

#[test]
fn additive_inverse_of_zero_is_the_modulus() {
    assert_eq!(FiniteField::inverse_addition(&big(0), &big(51)), big(51));
}

#[test]
fn a_number_times_its_multiplicative_inverse_is_one() {
    for p in [2u32, 3, 5, 17, 101, 257] {
        for c in 1..p {
            let inverse = FiniteField::inverse_multiplication(&big(c), &big(p));
            assert!(inverse < big(p));
            assert_eq!(FiniteField::multiplication(&big(c), &inverse, &big(p)), big(1));
        }
    }
}

#[test]
fn inverse_of_an_unreduced_number() {
    // 15 = 4 mod 11, and 4 * 3 = 12 = 1 mod 11
    assert_eq!(FiniteField::inverse_multiplication(&big(15), &big(11)), big(3));
}

#[test]
fn inverse_of_zero_is_zero() {
    assert_eq!(FiniteField::inverse_multiplication(&big(0), &big(11)), big(0));
}

#[test]
fn inverse_modulo_a_composite_is_the_power_all_the_same() {
    // 2^(9-2) = 128 = 2 mod 9, which is not the inverse of 2
    assert_eq!(FiniteField::inverse_multiplication(&big(2), &big(9)), big(2));
}

#[test]
fn inverse_modulo_two_has_exponent_zero() {
    assert_eq!(FiniteField::inverse_multiplication(&big(1), &big(2)), big(1));
    assert_eq!(FiniteField::inverse_multiplication(&big(0), &big(2)), big(1));
}

#[test]
fn subtract_wraps_around() {
    assert_eq!(FiniteField::subtract(&big(3), &big(5), &big(7)), big(5));
    assert_eq!(FiniteField::subtract(&big(5), &big(3), &big(7)), big(2));
    assert_eq!(FiniteField::subtract(&big(0), &big(0), &big(7)), big(0));
    assert_eq!(FiniteField::subtract(&big(20), &big(6), &big(7)), big(0));
}

#[test]
fn divide_is_product_with_inverse() {
    // 4^-1 = 3 mod 11, 3 * 3 = 9
    assert_eq!(FiniteField::divide(&big(3), &big(4), &big(11)), big(9));
    for c in 0..17u32 {
        for d in 1..17u32 {
            let q = FiniteField::divide(&big(c), &big(d), &big(17));
            assert_eq!(FiniteField::multiplication(&q, &big(d), &big(17)), big(c));
        }
    }
}

#[test]
fn modulus_one_gives_zero() {
    assert_eq!(FiniteField::add(&big(3), &big(4), &big(1)), big(0));
    assert_eq!(FiniteField::multiplication(&big(3), &big(4), &big(1)), big(0));
    assert_eq!(FiniteField::subtract(&big(3), &big(0), &big(1)), big(0));
}

#[test]
fn numbers_beyond_machine_words() {
    // p = 2^255 - 19
    let p = (BigUint::from(1u32) << 255usize) - BigUint::from(19u32);
    let c = &p - BigUint::from(1u32);
    let d = &p - BigUint::from(2u32);
    // (p-1) + (p-2) = -3, (p-1)(p-2) = 2, (p-2) - (p-1) = -1
    assert_eq!(FiniteField::add(&c, &d, &p), &p - BigUint::from(3u32));
    assert_eq!(FiniteField::multiplication(&c, &d, &p), BigUint::from(2u32));
    assert_eq!(FiniteField::subtract(&d, &c, &p), &p - BigUint::from(1u32));
    let inverse = FiniteField::inverse_multiplication(&d, &p);
    assert_eq!(FiniteField::multiplication(&d, &inverse, &p), BigUint::from(1u32));
    assert_eq!(FiniteField::divide(&c, &c, &p), BigUint::from(1u32));
}
