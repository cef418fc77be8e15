use rufl::Integer;
use rufl::Rational;
use rufl::Error;
use std::collections::hash_map::DefaultHasher;
use std::hash::Hash;
use std::hash::Hasher;

fn si(v: i64) -> Integer {
    Integer::from_small_signed(v)
}

fn rat(n: i64, d: i64) -> Rational {
    Rational::from_pair(si(n), si(d)).unwrap()
}

#[test]
fn zero_denominator_is_division_by_zero() {
    assert!(matches!(
        Rational::from_pair(si(1), si(0)),
        Err(Error::DivisionByZero)
    ));
}

#[test]
fn construction_reduces() {
    let q = rat(6, -4);
    assert_eq!(q.numerator(), si(-3));
    assert_eq!(q.denominator(), si(2));
    let z = rat(0, 7);
    assert_eq!(z.numerator(), si(0));
    assert_eq!(z.denominator(), si(1));
    let p = rat(-6, -4);
    assert_eq!(p.numerator(), si(3));
    assert_eq!(p.denominator(), si(2));
    let w = rat(21, 14);
    assert_eq!(w.numerator(), si(3));
    assert_eq!(w.denominator(), si(2));
}

#[test]
fn product_of_fractions() {
    assert_eq!(rat(3, 4).mul(&rat(2, 3)), rat(1, 2));
    assert_eq!(rat(-3, 4).mul(&rat(2, 3)), rat(-1, 2));
    assert_eq!(rat(0, 5).mul(&rat(2, 3)), Rational::zero());
}

#[test]
fn sums_and_differences() {
    assert_eq!(rat(3, 4).add(&rat(2, 3)), rat(17, 12));
    assert_eq!(rat(1, 2).sub(&rat(1, 3)), rat(1, 6));
    assert_eq!(rat(1, 2).add(&rat(-1, 2)), Rational::zero());
    assert_eq!(rat(-1, 3).add(&rat(-1, 6)), rat(-1, 2));
}

#[test]
fn quotients() {
    assert_eq!(rat(3, 4).div(&rat(2, 3)).unwrap(), rat(9, 8));
    assert_eq!(rat(-3, 4).div(&rat(3, 4)).unwrap(), rat(-1, 1));
    assert!(matches!(
        rat(3, 4).div(&Rational::zero()),
        Err(Error::DivisionByZero)
    ));
}

#[test]
fn inverse_multiplies_to_one() {
    for (n, d) in [(3i64, 7i64), (-3, 7), (1, 1), (-22, 5)] {
        let a = rat(n, d);
        let inv = a.inverse().unwrap();
        assert_eq!(a.mul(&inv), Rational::one());
    }
    assert!(matches!(Rational::zero().inverse(), Err(Error::DivisionByZero)));
}

#[test]
fn mixed_arithmetic_matches_promotion() {
    let a = rat(3, 4);
    let n = si(2);
    let promoted = Rational::from_integer(n.clone());
    assert_eq!(a.add_integer(&n), a.add(&promoted));
    assert_eq!(a.mul_integer(&n), a.mul(&promoted));
    assert_eq!(a.add_integer(&n), rat(11, 4));
    assert_eq!(a.mul_integer(&n), rat(3, 2));
}

#[test]
fn ordering_is_exact() {
    assert!(rat(1, 3) < rat(1, 2));
    assert!(rat(-1, 2) < rat(-1, 3));
    assert!(rat(2, 4) == rat(1, 2));
    assert!(rat(7, 1) > rat(13, 2));
    // cross products that overflow a machine word still compare exactly
    let big = Rational::from_pair(
        Integer::parse("18446744073709551616", 10).unwrap(),
        si(3),
    )
    .unwrap();
    let bigger = Rational::from_pair(
        Integer::parse("18446744073709551617", 10).unwrap(),
        si(3),
    )
    .unwrap();
    assert!(big < bigger);
}

#[test]
fn text_form() {
    assert_eq!(rat(3, 4).to_str_radix(10), "3/4");
    assert_eq!(rat(-3, 4).to_str_radix(10), "-3/4");
    assert_eq!(rat(5, 1).to_str_radix(10), "5");
    assert_eq!(Rational::zero().to_str_radix(10), "0");
    assert_eq!(rat(255, 16).to_str_radix(16), "ff/10");
}

#[test]
fn constants_and_predicates() {
    assert!(Rational::zero().is_zero());
    assert!(Rational::one().is_one());
    assert!(!rat(1, 2).is_one());
    assert!(!rat(1, 2).is_zero());
    let mut a = rat(5, 3);
    a.zero_mut();
    assert!(a.is_zero());
    a.one_mut();
    assert!(a.is_one());
}

#[test]
fn negation() {
    assert_eq!(rat(3, 4).negated(), rat(-3, 4));
    let mut a = rat(-1, 2);
    a.neg_mut();
    assert_eq!(a, rat(1, 2));
}

#[test]
fn from_integer_has_unit_denominator() {
    let q = Rational::from_integer(si(-9));
    assert_eq!(q.numerator(), si(-9));
    assert_eq!(q.denominator(), si(1));
}

#[test]
fn default_and_clone() {
    let d = Rational::default();
    assert!(d.is_zero());
    let a = rat(2, 3);
    let b = a.clone();
    assert_eq!(a, b);
}

#[test]
fn rational_hash_follows_value() {
    let a = rat(2, 4);
    let b = rat(1, 2);
    assert_eq!(a, b);
    let mut ha = DefaultHasher::new();
    a.hash(&mut ha);
    let mut hb = DefaultHasher::new();
    b.hash(&mut hb);
    assert_eq!(ha.finish(), hb.finish());
}
