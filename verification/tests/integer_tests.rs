use rufl::Integer;
use rufl::Error;
use std::collections::hash_map::DefaultHasher;
use std::hash::Hash;
use std::hash::Hasher;

fn si(v: i64) -> Integer {
    Integer::from_small_signed(v)
}

#[test]
fn canonical_zero() {
    let z = Integer::zero();
    assert_eq!(z.size(), 0);
    assert_eq!(z.sign(), 0);
    assert_eq!(z.to_str_radix(10), "0");
    assert!(z.get_ui_vector().is_empty());
    assert!(z.is_zero());
    assert!(z.is_even());
    assert!(!z.is_odd());
}

#[test]
fn small_signed_round_trips() {
    for v in [0i64, 1, -1, 42, -42, i64::MAX, i64::MIN, i64::MIN + 1] {
        let z = Integer::from_small_signed(v);
        assert_eq!(z.get_si(), Some(v));
        assert!(z.fits_si());
    }
}

#[test]
fn small_unsigned_round_trips() {
    for v in [0u64, 1, 1234, u64::MAX] {
        let z = Integer::from_small_unsigned(v);
        assert_eq!(z.get_ui(), Some(v));
    }
    assert_eq!(si(-1234).get_ui(), None);
    assert_eq!(si(-1).get_ui(), None);
}

#[test]
fn addition_and_subtraction() {
    assert_eq!(si(2).add(&si(3)), si(5));
    assert_eq!(si(-7).add(&si(3)), si(-4));
    assert_eq!(si(7).add(&si(-3)), si(4));
    assert_eq!(si(-7).add(&si(-3)), si(-10));
    assert_eq!(si(3).sub(&si(7)), si(-4));
    assert_eq!(si(0).sub(&si(0)), si(0));
    assert_eq!(si(5).sub(&si(5)), Integer::zero());
}

#[test]
fn multiplication() {
    assert_eq!(si(6).mul(&si(7)), si(42));
    assert_eq!(si(-6).mul(&si(7)), si(-42));
    assert_eq!(si(-6).mul(&si(-7)), si(42));
    assert_eq!(si(0).mul(&si(12345)), Integer::zero());
    // a product crossing the limb boundary
    let a = Integer::from_small_unsigned(u64::MAX);
    let product = a.mul(&a);
    assert_eq!(product.to_str_radix(10), "340282366920938463426481119284349108225");
}

#[test]
fn power_of_two_limbs() {
    let z = si(2).pow(65);
    assert_eq!(z.get_ui_vector(), vec![0, 2]);
    assert_eq!(z.to_str_radix(10), "36893488147419103232");
    assert_eq!(z.size(), 2);
    assert_eq!(z.bits(), 66);
}

#[test]
fn sign_cancels_on_even_power() {
    assert_eq!(si(-1).pow(2), si(1));
    assert_eq!(si(-1).pow(3), si(-1));
    assert_eq!(si(0).pow(0), si(1));
    assert_eq!(si(9).pow(0), si(1));
}

#[test]
fn negative_exponent_is_domain_error() {
    assert_eq!(si(2).checked_pow(-3), Err(Error::DomainError));
    assert_eq!(si(2).checked_pow(10), Ok(si(1024)));
}

#[test]
fn parse_two_limb_value() {
    let z = Integer::parse("18446744073709551616", 10).unwrap();
    assert_eq!(z.size(), 2);
    assert!(!z.abs_fits_ui());
    assert_eq!(z.get_ui(), None);
    assert_eq!(z.get_ui_vector(), vec![0, 1]);
}

#[test]
fn truncating_division_signs() {
    let cases = [(7i64, 2i64, 3i64, 1i64), (-7, 2, -3, -1), (7, -2, -3, 1), (-7, -2, 3, -1)];
    for (a, b, q, r) in cases {
        let (qq, rr) = si(a).tdiv_qr(&si(b)).unwrap();
        assert_eq!(qq, si(q));
        assert_eq!(rr, si(r));
    }
    assert_eq!(si(9).tdiv_q(&si(3)).unwrap(), si(3));
    assert_eq!(si(9).tdiv_r(&si(3)).unwrap(), si(0));
}

#[test]
fn division_contract_on_large_values() {
    let a = Integer::parse("123456789012345678901234567890123456789", 10).unwrap();
    let b = Integer::parse("-987654321987654321", 10).unwrap();
    let (q, r) = a.tdiv_qr(&b).unwrap();
    // q*b + r == a, and the remainder carries the dividend's sign
    let back = q.mul(&b).add(&r);
    assert_eq!(back, a);
    assert!(r.sign() >= 0);
}

#[test]
fn division_by_zero_is_reported() {
    assert_eq!(si(5).tdiv_q(&Integer::zero()), Err(Error::DivisionByZero));
    assert_eq!(si(5).tdiv_r(&Integer::zero()), Err(Error::DivisionByZero));
    assert!(si(0).tdiv_qr(&Integer::zero()).is_err());
}

#[test]
fn greatest_common_divisor() {
    assert_eq!(si(12).gcd(&si(18)), si(6));
    assert_eq!(si(-12).gcd(&si(18)), si(6));
    assert_eq!(si(0).gcd(&si(5)), si(5));
    assert_eq!(si(5).gcd(&si(0)), si(5));
    assert_eq!(si(0).gcd(&si(0)), si(0));
    assert_eq!(si(17).gcd(&si(13)), si(1));
}

#[test]
fn bit_length() {
    assert_eq!(Integer::zero().bits(), 0);
    assert_eq!(si(1).bits(), 1);
    assert_eq!(si(16).bits(), 5);
    assert_eq!(si(-16).bits(), 5);
    assert_eq!(Integer::from_small_unsigned(u64::MAX).bits(), 64);
}

#[test]
fn test_and_set_bits() {
    let z = si(1025);
    assert!(z.testbit(0));
    assert!(!z.testbit(1));
    assert!(z.testbit(10));
    let mut w = si(1024);
    w.setbit(0);
    assert_eq!(w, si(1025));
    // setting an already-set bit changes nothing
    w.setbit(0);
    assert_eq!(w, si(1025));
    // growing the magnitude
    let mut big = Integer::zero();
    big.setbit(65);
    assert_eq!(big, si(2).pow(65));
    // the sign is kept
    let mut n = si(-1024);
    n.setbit(0);
    assert_eq!(n, si(-1025));
}

#[test]
fn shift_left() {
    assert_eq!(si(2).mul_2exp(3), si(16));
    assert_eq!(si(-3).mul_2exp(2), si(-12));
    assert_eq!(Integer::zero().mul_2exp(100), Integer::zero());
    let mut g = si(2);
    g.mul_2exp_mut(64);
    assert_eq!(g.get_ui_vector(), vec![0, 2]);
}

#[test]
fn negative_shift_is_domain_error() {
    assert_eq!(si(2).checked_mul_2exp(-1), Err(Error::DomainError));
    assert_eq!(si(2).checked_mul_2exp(3), Ok(si(16)));
}

#[test]
fn bitwise_on_magnitudes() {
    assert_eq!(si(12).bit_and(&si(10)), si(8));
    assert_eq!(si(12).bit_or(&si(10)), si(14));
    assert_eq!(si(12).bit_xor(&si(10)), si(6));
    // negative operands contribute their magnitude; the result is non-negative
    assert_eq!(si(-12).bit_and(&si(10)), si(8));
    assert_eq!(si(12).bit_or(&si(-10)), si(14));
    assert_eq!(si(5).bit_xor(&si(5)), Integer::zero());
}

#[test]
fn complement_is_minus_one_minus() {
    assert_eq!(si(5).complement(), si(-6));
    assert_eq!(si(0).complement(), si(-1));
    assert_eq!(si(-1).complement(), si(0));
}

#[test]
fn fused_multiply_add() {
    assert_eq!(si(2).addmul(&si(3), &si(4)), si(14));
    assert_eq!(si(13).submul(&si(3), &si(4)), si(1));
    assert_eq!(si(2).addmul_ui(&si(3), 4), si(14));
    assert_eq!(si(2).addmul_si(&si(3), -4), si(-10));
    let mut z = si(2);
    z.addmul_mut(&si(3), &si(4));
    assert_eq!(z, si(14));
    let mut w = si(2);
    w.addmul_ui_mut(&si(3), 4);
    assert_eq!(w, si(14));
    let mut v = si(2);
    v.addmul_si_mut(&si(3), 4);
    assert_eq!(v, si(14));
    let mut u = si(13);
    u.submul_mut(&si(3), &si(4));
    assert_eq!(u, si(1));
}

#[test]
fn arithmetic_identity_laws() {
    let a = Integer::parse("-123456789012345678901234567890", 10).unwrap();
    let b = si(2).pow(70);
    let c = si(-987654321);
    // commutativity, associativity, distributivity, self-cancellation
    assert_eq!(a.add(&b), b.add(&a));
    assert_eq!(a.add(&b).add(&c), a.add(&b.add(&c)));
    assert_eq!(a.mul(&b.add(&c)), a.mul(&b).add(&a.mul(&c)));
    assert_eq!(a.sub(&a), Integer::zero());
}

#[test]
fn double_scalar_product() {
    assert_eq!(si(-1).mul2_uiui(10, 3), si(-30));
    let mut f = si(-1);
    f.mul2_uiui_mut(10, 3);
    assert_eq!(f, si(-30));
}

#[test]
fn size_in_base() {
    let z = si(1000001);
    assert_eq!(z.sizeinbase(7), 8);
    assert_eq!(Integer::zero().sizeinbase(10), 1);
    assert_eq!(si(999).sizeinbase(10), 3);
    assert_eq!(si(-999).sizeinbase(10), 3);
    assert_eq!(si(1024).sizeinbase(2), 11);
}

#[test]
fn comparisons_follow_values() {
    assert!(si(-5) < si(3));
    assert!(si(3) > si(-5));
    assert!(si(2).pow(65) > si(2).pow(64));
    assert!(si(-10) < si(-9));
    assert_eq!(si(7), si(7));
    assert_ne!(si(7), si(-7));
    assert!(si(0) <= si(0));
}

#[test]
fn limb_vector_round_trip() {
    let mut z = Integer::default();
    z.set_ui_vector(vec![0, 2]);
    assert_eq!(z, si(2).pow(65));
    let v = z.get_ui_vector();
    let mut t = Integer::default();
    t.set_ui_vector(v);
    assert_eq!(z, t);
    // most-significant zero limbs are stripped
    let mut s = Integer::default();
    s.set_ui_vector(vec![5, 0, 0]);
    assert_eq!(s.size(), 1);
    assert_eq!(s, si(5));
}

#[test]
fn capacity_hint_is_zero() {
    let x = Integer::with_capacity(2);
    assert!(x.is_zero());
}

#[test]
fn predicates() {
    assert!(si(1).is_one());
    assert!(!si(-1).is_one());
    assert!(si(1).is_pm1());
    assert!(si(-1).is_pm1());
    assert!(!si(2).is_pm1());
    assert!(si(102).is_even());
    assert!(si(103).is_odd());
    assert!(si(-102).is_even());
    assert!(si(-103).is_odd());
}

#[test]
fn mutators() {
    let mut a = si(5);
    a.zero_mut();
    assert!(a.is_zero());
    a.one_mut();
    assert!(a.is_one());
    let mut b = si(-99);
    b.abs_mut();
    assert_eq!(b, si(99));
    let mut c = si(7);
    c.neg_mut();
    assert_eq!(c, si(-7));
    assert_eq!(si(-99).abs(), si(99));
    assert_eq!(si(99).negated(), si(-99));
}

#[test]
fn equal_values_hash_equal() {
    let a = Integer::parse("36893488147419103232", 10).unwrap();
    let b = si(2).pow(65);
    assert_eq!(a, b);
    let mut ha = DefaultHasher::new();
    a.hash(&mut ha);
    let mut hb = DefaultHasher::new();
    b.hash(&mut hb);
    assert_eq!(ha.finish(), hb.finish());
}

#[test]
fn from_str_decimal() {
    let z: Integer = "123".parse().unwrap();
    assert_eq!(z, si(123));
    let n: Integer = "-45".parse().unwrap();
    assert_eq!(n, si(-45));
    assert!("12x".parse::<Integer>().is_err());
}

#[test]
fn new_constructor() {
    assert_eq!(Integer::new(17), si(17));
    assert_eq!(Integer::new(-17), si(-17));
}
