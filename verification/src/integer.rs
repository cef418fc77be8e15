//! The signed arbitrary-precision integer type.
//!
//! An [`Integer`] holds a sign flag and a canonical little-endian magnitude.
//! The representation invariant [`Integer::wf`] says the magnitude carries no
//! most-significant zero limb and that zero is never marked negative, which
//! makes the representation of every value unique. The view of an `Integer`
//! is the mathematical integer it denotes, and every operation's contract is
//! stated against that view.

use vstd::prelude::*;
use vstd::arithmetic::power2::pow2;
use vstd::arithmetic::power2::lemma_pow2_pos;
use vstd::arithmetic::power2::lemma_pow2_strictly_increases;
use vstd::arithmetic::power2::lemma2_to64;
use crate::Error;
use crate::limbs::mag_divmod;
use crate::limbs::suffix_val;
use crate::limbs::mag_val;
use crate::limbs::canonical;
use crate::limbs::mag_trim;
use crate::limbs::mag_add;
use crate::limbs::mag_sub;
use crate::limbs::mag_mul;
use crate::limbs::mag_cmp;
use crate::limbs::mag_copy;
use crate::limbs::mag_is_zero;
use crate::limbs::lemma_mag_val_single;
use crate::limbs::lemma_prefix_val_one;
use crate::limbs::lemma_mag_val_lower;
use crate::limbs::lemma_suffix_val_split;

verus! {

/// A signed arbitrary-precision integer: a sign and a canonical magnitude.
/// Equal values have equal representations, so the derived hash is a pure
/// function of the value.
#[derive(Debug, Hash)]
pub struct Integer {
    neg: bool,
    limbs: Vec<u64>,
}

/// The absolute value of a mathematical integer.
pub open spec fn int_abs(v: int) -> nat {
    if v >= 0 {
        v as nat
    } else {
        (-v) as nat
    }
}

impl View for Integer {
    type V = int;

    /// The mathematical integer this value denotes.
    closed spec fn view(&self) -> int {
        if self.neg {
            -(mag_val(self.limbs@) as int)
        } else {
            mag_val(self.limbs@) as int
        }
    }
}

impl Integer {
    /// The canonical little-endian limb sequence of the magnitude.
    pub closed spec fn limb_seq(&self) -> Seq<u64> {
        self.limbs@
    }

    /// The representation invariant: the magnitude is canonical and zero is
    /// never marked negative, so each value has exactly one representation.
    pub closed spec fn wf(&self) -> bool {
        &&& canonical(self.limbs@)
        &&& (self.neg ==> self.limbs@.len() > 0)
    }

    /// The limb sequence denotes the absolute value; on a well-formed
    /// integer it is also canonical.
    pub proof fn lemma_limbs_are_abs(&self)
        ensures
            mag_val(self.limb_seq()) == int_abs(self@),
            self.wf() ==> canonical(self.limb_seq()),
    {
    }

    /// The canonical representation of zero: no limbs, non-negative sign.
    pub fn zero() -> (r: Integer)
        ensures
            r.wf(),
            r@ == 0,
            r.limb_seq().len() == 0,
    {
        Integer { neg: false, limbs: Vec::new() }
    }

    /// The integer one.
    pub fn one() -> (r: Integer)
        ensures
            r.wf(),
            r@ == 1,
    {
        let mut l: Vec<u64> = Vec::new();
        l.push(1);
        proof {
            lemma_mag_val_single(1u64);
        }
        Integer { neg: false, limbs: l }
    }

    /// Builds the well-formed integer with the given sign and magnitude.
    fn assemble(neg: bool, limbs: Vec<u64>) -> (r: Integer)
        ensures
            r.wf(),
            r@ == if neg {
                -(mag_val(limbs@) as int)
            } else {
                mag_val(limbs@) as int
            },
            mag_val(r.limb_seq()) == mag_val(limbs@),
    {
        let mut l = limbs;
        mag_trim(&mut l);
        let n = neg && l.len() > 0;
        proof {
            if l@.len() == 0 {
                assert(mag_val(l@) == 0);
            }
        }
        Integer { neg: n, limbs: l }
    }

    /// Constructs from a machine-sized unsigned integer.
    pub fn from_small_unsigned(u: u64) -> (r: Integer)
        ensures
            r.wf(),
            r@ == u,
    {
        let mut l: Vec<u64> = Vec::new();
        if u > 0 {
            l.push(u);
            proof {
                lemma_mag_val_single(u);
            }
        }
        Integer { neg: false, limbs: l }
    }

    /// Constructs from a machine-sized signed integer.
    pub fn from_small_signed(i: i64) -> (r: Integer)
        ensures
            r.wf(),
            r@ == i,
    {
        if i >= 0 {
            Integer::from_small_unsigned(i as u64)
        } else {
            let m: u64 = ((-(i + 1)) as u64) + 1;
            let mut l: Vec<u64> = Vec::new();
            l.push(m);
            proof {
                lemma_mag_val_single(m);
            }
            Integer { neg: true, limbs: l }
        }
    }

    /// Constructs from a machine-sized signed integer, as the original
    /// generic constructor did for its most common operand type.
    pub fn new(src: i64) -> (r: Integer)
        ensures
            r.wf(),
            r@ == src,
    {
        Integer::from_small_signed(src)
    }

    /// Returns zero; the capacity request is only an allocation hint and
    /// never observable.
    pub fn with_capacity(limbs: u64) -> (r: Integer)
        ensures
            r.wf(),
            r@ == 0,
    {
        let cap: usize = if limbs < 1024 {
            limbs as usize
        } else {
            1024
        };
        Integer { neg: false, limbs: Vec::with_capacity(cap) }
    }

    /// Sets `self` to zero.
    pub fn zero_mut(&mut self)
        ensures
            final (self).wf(),
            final (self)@ == 0,
    {
        self.neg = false;
        self.limbs = Vec::new();
    }

    /// Sets `self` to one.
    pub fn one_mut(&mut self)
        ensures
            final (self).wf(),
            final (self)@ == 1,
    {
        let o = Integer::one();
        self.neg = o.neg;
        self.limbs = o.limbs;
    }

    /// The sign of the value: `-1`, `0` or `1`.
    pub fn sign(&self) -> (r: i32)
        requires
            self.wf(),
        ensures
            (r == 1i32) <==> self@ > 0,
            (r == 0i32) <==> self@ == 0,
            (r == -1i32) <==> self@ < 0,
    {
        proof {
            if self.limbs@.len() > 0 {
                lemma_mag_val_lower(self.limbs@);
                lemma_pow2_pos((64 * (self.limbs@.len() - 1)) as nat);
            }
        }
        if self.limbs.len() == 0 {
            0
        } else if self.neg {
            -1
        } else {
            1
        }
    }

    /// True exactly when the value is zero.
    pub fn is_zero(&self) -> (r: bool)
        requires
            self.wf(),
        ensures
            r == (self@ == 0),
    {
        proof {
            if self.limbs@.len() > 0 {
                lemma_mag_val_lower(self.limbs@);
                lemma_pow2_pos((64 * (self.limbs@.len() - 1)) as nat);
            }
        }
        self.limbs.len() == 0
    }

    /// True exactly when the value is one.
    pub fn is_one(&self) -> (r: bool)
        requires
            self.wf(),
        ensures
            r == (self@ == 1),
    {
        proof {
            self.lemma_small_value_shape();
        }
        !self.neg && self.limbs.len() == 1 && self.limbs[0] == 1
    }

    /// True exactly when the value is one or minus one.
    pub fn is_pm1(&self) -> (r: bool)
        requires
            self.wf(),
        ensures
            r == (self@ == 1 || self@ == -1),
    {
        proof {
            self.lemma_small_value_shape();
        }
        self.limbs.len() == 1 && self.limbs[0] == 1
    }

    /// A one-limb magnitude denotes its limb; two or more limbs exceed any
    /// single limb value.
    proof fn lemma_small_value_shape(&self)
        requires
            self.wf(),
        ensures
            self.limbs@.len() == 0 ==> int_abs(self@) == 0,
            self.limbs@.len() == 1 ==> int_abs(self@) == self.limbs@[0],
            self.limbs@.len() >= 2 ==> int_abs(self@) >= 0x10000000000000000,
    {
        lemma2_to64();
        if self.limbs@.len() == 1 {
            lemma_prefix_val_one(self.limbs@);
        }
        if self.limbs@.len() >= 2 {
            lemma_mag_val_lower(self.limbs@);
            if self.limbs@.len() > 2 {
                lemma_pow2_strictly_increases(64, (64 * (self.limbs@.len() - 1)) as nat);
            }
        }
    }

    /// True exactly when the value is even.
    pub fn is_even(&self) -> (r: bool)
        requires
            self.wf(),
        ensures
            r == (self@ % 2 == 0),
    {
        proof {
            self.lemma_parity();
        }
        self.limbs.len() == 0 || self.limbs[0] % 2 == 0
    }

    /// True exactly when the value is odd.
    pub fn is_odd(&self) -> (r: bool)
        requires
            self.wf(),
        ensures
            r == (self@ % 2 != 0),
    {
        proof {
            self.lemma_parity();
        }
        self.limbs.len() > 0 && self.limbs[0] % 2 == 1
    }

    /// The parity of the value is the parity of its least limb.
    proof fn lemma_parity(&self)
        requires
            self.wf(),
        ensures
            self.limbs@.len() == 0 ==> self@ % 2 == 0,
            self.limbs@.len() > 0 ==> (self@ % 2 == 0 <==> self.limbs@[0] % 2 == 0),
    {
        let s = self.limbs@;
        if s.len() > 0 {
            lemma_suffix_val_split(s, 1);
            lemma2_to64();
            lemma_prefix_val_one(s);
            let m = mag_val(s) as int;
            let l0 = s[0] as int;
            let hi = suffix_val(s, 1) as int;
            assert(m == l0 + hi * 0x10000000000000000) by (nonlinear_arith)
                requires
                    m == l0 + hi * (pow2((64 * 1) as nat) as int),
                    pow2((64 * 1) as nat) == 0x10000000000000000,
            ;
            assert(m % 2 == l0 % 2 && (-m) % 2 == (2 - l0 % 2) % 2) by (nonlinear_arith)
                requires
                    m == l0 + hi * 0x10000000000000000,
                    0 <= l0 < 0x10000000000000000,
                    hi >= 0,
            ;
        }
    }

    /// Compares two values; the result is the sign of `self - other`. This
    /// decides the total order of the mathematical values.
    pub fn cmp_value(&self, other: &Integer) -> (r: i8)
        ensures
            r == 1i8 ==> self@ > other@,
            r == 0i8 ==> self@ == other@,
            r == -1i8 ==> self@ < other@,
            r == 1i8 || r == 0i8 || r == -1i8,
    {
        let az = mag_is_zero(&self.limbs);
        let bz = mag_is_zero(&other.limbs);
        let an = self.neg && !az;
        let bn = other.neg && !bz;
        if an && !bn {
            -1
        } else if !an && bn {
            1
        } else if an && bn {
            let c = mag_cmp(&self.limbs, &other.limbs);
            -c
        } else {
            mag_cmp(&self.limbs, &other.limbs)
        }
    }

    /// A deep copy of the magnitude, negated: the additive inverse.
    pub fn negated(&self) -> (r: Integer)
        ensures
            r.wf(),
            r@ == -self@,
    {
        let l = mag_copy(&self.limbs);
        Integer::assemble(!self.neg, l)
    }

    /// Negates in place.
    pub fn neg_mut(&mut self)
        requires
            old(self).wf(),
        ensures
            final (self).wf(),
            final (self)@ == -old(self)@,
    {
        if self.limbs.len() > 0 {
            self.neg = !self.neg;
        }
    }

    /// The absolute value.
    pub fn abs(&self) -> (r: Integer)
        ensures
            r.wf(),
            r@ == int_abs(self@),
    {
        let l = mag_copy(&self.limbs);
        Integer::assemble(false, l)
    }

    /// Replaces the value by its absolute value.
    pub fn abs_mut(&mut self)
        requires
            old(self).wf(),
        ensures
            final (self).wf(),
            final (self)@ == int_abs(old(self)@),
    {
        self.neg = false;
    }

    /// The sum of two values.
    pub fn add(&self, other: &Integer) -> (r: Integer)
        ensures
            r.wf(),
            r@ == self@ + other@,
    {
        if self.neg == other.neg {
            let m = mag_add(&self.limbs, &other.limbs);
            Integer::assemble(self.neg, m)
        } else {
            let c = mag_cmp(&self.limbs, &other.limbs);
            if c >= 0 {
                let m = mag_sub(&self.limbs, &other.limbs);
                Integer::assemble(self.neg, m)
            } else {
                let m = mag_sub(&other.limbs, &self.limbs);
                Integer::assemble(other.neg, m)
            }
        }
    }

    /// The difference of two values.
    pub fn sub(&self, other: &Integer) -> (r: Integer)
        ensures
            r.wf(),
            r@ == self@ - other@,
    {
        let n = other.negated();
        self.add(&n)
    }

    /// The product of two values.
    pub fn mul(&self, other: &Integer) -> (r: Integer)
        ensures
            r.wf(),
            r@ == self@ * other@,
    {
        let m = mag_mul(&self.limbs, &other.limbs);
        let ghost mv = mag_val(m@) as int;
        let r = Integer::assemble(self.neg != other.neg, m);
        proof {
            let m1 = mag_val(self.limbs@) as int;
            let m2 = mag_val(other.limbs@) as int;
            assert(r@ == self@ * other@) by (nonlinear_arith)
                requires
                    mv == m1 * m2,
                    m1 >= 0,
                    m2 >= 0,
                    (self@ == m1 && !self.neg) || (self@ == -m1 && self.neg),
                    (other@ == m2 && !other.neg) || (other@ == -m2 && other.neg),
                    (self.neg != other.neg && r@ == -mv) || (self.neg == other.neg && r@ == mv),
            ;
        }
        r
    }
}

/// The quotient of truncating division: `a / b` rounded toward zero.
pub open spec fn tdiv_q_spec(a: int, b: int) -> int
    recommends
        b != 0,
{
    let q0 = (int_abs(a) / int_abs(b)) as int;
    if (a < 0) != (b < 0) {
        -q0
    } else {
        q0
    }
}

/// The remainder of truncating division: what `a - b * tdiv_q_spec(a, b)`
/// leaves, zero or with the sign of the dividend.
pub open spec fn tdiv_r_spec(a: int, b: int) -> int
    recommends
        b != 0,
{
    a - b * tdiv_q_spec(a, b)
}

impl Integer {
    /// The sign flag agrees with the sign of the value on well-formed
    /// integers, and the magnitude is the absolute value.
    proof fn lemma_view_sign(&self)
        requires
            self.wf(),
        ensures
            self.neg ==> self@ < 0,
            !self.neg ==> self@ >= 0,
            int_abs(self@) == mag_val(self.limbs@),
    {
        if self.limbs@.len() > 0 {
            lemma_mag_val_lower(self.limbs@);
            lemma_pow2_pos((64 * (self.limbs@.len() - 1)) as nat);
        }
    }

    /// Truncating division with remainder. The quotient rounds toward zero
    /// and the remainder is zero or has the sign of the dividend; division
    /// by zero is the only error.
    pub fn tdiv_qr(&self, other: &Integer) -> (r: Result<(Integer, Integer), Error>)
        requires
            self.wf(),
            other.wf(),
        ensures
            other@ == 0 ==> r is Err && r->Err_0 == Error::DivisionByZero,
            other@ != 0 ==> r is Ok && r->Ok_0.0.wf() && r->Ok_0.1.wf() && r->Ok_0.0@
                == tdiv_q_spec(self@, other@) && r->Ok_0.1@ == tdiv_r_spec(self@, other@),
    {
        proof {
            self.lemma_view_sign();
            other.lemma_view_sign();
        }
        if other.is_zero() {
            return Err(Error::DivisionByZero);
        }
        let (mq, mr) = mag_divmod(&self.limbs, &other.limbs);
        let ghost mqv = mag_val(mq@) as int;
        let ghost mrv = mag_val(mr@) as int;
        let q = Integer::assemble(self.neg != other.neg, mq);
        let rem = Integer::assemble(self.neg, mr);
        proof {
            let av = self@;
            let bv = other@;
            let aa = int_abs(av) as int;
            let bb = int_abs(bv) as int;
            vstd::arithmetic::div_mod::lemma_fundamental_div_mod_converse(aa, bb, mqv, mrv);
            assert(q@ == tdiv_q_spec(av, bv));
            if self.neg {
                if other.neg {
                    assert(rem@ == av - bv * q@) by (nonlinear_arith)
                        requires
                            aa == mqv * bb + mrv,
                            av == -aa,
                            bv == -bb,
                            q@ == mqv,
                            rem@ == -mrv,
                    ;
                } else {
                    assert(rem@ == av - bv * q@) by (nonlinear_arith)
                        requires
                            aa == mqv * bb + mrv,
                            av == -aa,
                            bv == bb,
                            q@ == -mqv,
                            rem@ == -mrv,
                    ;
                }
            } else {
                if other.neg {
                    assert(rem@ == av - bv * q@) by (nonlinear_arith)
                        requires
                            aa == mqv * bb + mrv,
                            av == aa,
                            bv == -bb,
                            q@ == -mqv,
                            rem@ == mrv,
                    ;
                } else {
                    assert(rem@ == av - bv * q@) by (nonlinear_arith)
                        requires
                            aa == mqv * bb + mrv,
                            av == aa,
                            bv == bb,
                            q@ == mqv,
                            rem@ == mrv,
                    ;
                }
            }
        }
        Ok((q, rem))
    }

    /// The quotient of truncating division.
    pub fn tdiv_q(&self, other: &Integer) -> (r: Result<Integer, Error>)
        requires
            self.wf(),
            other.wf(),
        ensures
            other@ == 0 ==> r is Err && r->Err_0 == Error::DivisionByZero,
            other@ != 0 ==> r is Ok && r->Ok_0.wf() && r->Ok_0@ == tdiv_q_spec(self@, other@),
    {
        match self.tdiv_qr(other) {
            Ok((q, _)) => Ok(q),
            Err(e) => Err(e),
        }
    }

    /// The remainder of truncating division.
    pub fn tdiv_r(&self, other: &Integer) -> (r: Result<Integer, Error>)
        requires
            self.wf(),
            other.wf(),
        ensures
            other@ == 0 ==> r is Err && r->Err_0 == Error::DivisionByZero,
            other@ != 0 ==> r is Ok && r->Ok_0.wf() && r->Ok_0@ == tdiv_r_spec(self@, other@),
    {
        match self.tdiv_qr(other) {
            Ok((_, rem)) => Ok(rem),
            Err(e) => Err(e),
        }
    }

    /// Raises the value to a machine-sized non-negative power; `0^0 == 1`.
    pub fn pow(&self, e: u64) -> (r: Integer)
        ensures
            r.wf(),
            r@ == vstd::arithmetic::power::pow(self@, e as nat),
    {
        let mut acc = Integer::one();
        let mut i: u64 = 0;
        proof {
            vstd::arithmetic::power::lemma_pow0(self@);
        }
        while i < e
            invariant
                i <= e,
                acc.wf(),
                acc@ == vstd::arithmetic::power::pow(self@, i as nat),
            decreases e - i,
        {
            acc = acc.mul(self);
            i = i + 1;
            proof {
                vstd::arithmetic::power::lemma_pow_adds(self@, (i - 1) as nat, 1);
                vstd::arithmetic::power::lemma_pow1(self@);
            }
        }
        acc
    }

    /// Raises the value to a signed power; a negative exponent is outside
    /// the domain and is reported, never silently mapped to anything.
    pub fn checked_pow(&self, e: i64) -> (r: Result<Integer, Error>)
        ensures
            e < 0 ==> r is Err && r->Err_0 == Error::DomainError,
            e >= 0 ==> r is Ok && r->Ok_0.wf() && r->Ok_0@ == vstd::arithmetic::power::pow(
                self@,
                e as nat,
            ),
    {
        if e < 0 {
            Err(Error::DomainError)
        } else {
            Ok(self.pow(e as u64))
        }
    }

    /// `self + x * y`, exactly as the product followed by the sum.
    pub fn addmul(&self, x: &Integer, y: &Integer) -> (r: Integer)
        ensures
            r.wf(),
            r@ == self@ + x@ * y@,
    {
        self.add(&x.mul(y))
    }

    /// `self = self + x * y` in place.
    pub fn addmul_mut(&mut self, x: &Integer, y: &Integer)
        ensures
            final (self).wf(),
            final (self)@ == old(self)@ + x@ * y@,
    {
        let r = self.addmul(x, y);
        self.neg = r.neg;
        self.limbs = r.limbs;
    }

    /// `self - x * y`, exactly as the product followed by the difference.
    pub fn submul(&self, x: &Integer, y: &Integer) -> (r: Integer)
        ensures
            r.wf(),
            r@ == self@ - x@ * y@,
    {
        self.sub(&x.mul(y))
    }

    /// `self = self - x * y` in place.
    pub fn submul_mut(&mut self, x: &Integer, y: &Integer)
        ensures
            final (self).wf(),
            final (self)@ == old(self)@ - x@ * y@,
    {
        let r = self.submul(x, y);
        self.neg = r.neg;
        self.limbs = r.limbs;
    }

    /// `self + x * y` for a machine-sized unsigned `y`.
    pub fn addmul_ui(&self, x: &Integer, y: u64) -> (r: Integer)
        ensures
            r.wf(),
            r@ == self@ + x@ * y,
    {
        self.addmul(x, &Integer::from_small_unsigned(y))
    }

    /// `self = self + x * y` in place for a machine-sized unsigned `y`.
    pub fn addmul_ui_mut(&mut self, x: &Integer, y: u64)
        ensures
            final (self).wf(),
            final (self)@ == old(self)@ + x@ * y,
    {
        self.addmul_mut(x, &Integer::from_small_unsigned(y));
    }

    /// `self + x * y` for a machine-sized signed `y`.
    pub fn addmul_si(&self, x: &Integer, y: i64) -> (r: Integer)
        ensures
            r.wf(),
            r@ == self@ + x@ * y,
    {
        self.addmul(x, &Integer::from_small_signed(y))
    }

    /// `self = self + x * y` in place for a machine-sized signed `y`.
    pub fn addmul_si_mut(&mut self, x: &Integer, y: i64)
        ensures
            final (self).wf(),
            final (self)@ == old(self)@ + x@ * y,
    {
        self.addmul_mut(x, &Integer::from_small_signed(y));
    }

    /// `self * x * y` for machine-sized unsigned factors.
    pub fn mul2_uiui(&self, x: u64, y: u64) -> (r: Integer)
        ensures
            r.wf(),
            r@ == self@ * x * y,
    {
        let p = self.mul(&Integer::from_small_unsigned(x));
        p.mul(&Integer::from_small_unsigned(y))
    }

    /// `self = self * x * y` in place for machine-sized unsigned factors.
    pub fn mul2_uiui_mut(&mut self, x: u64, y: u64)
        ensures
            final (self).wf(),
            final (self)@ == old(self)@ * x * y,
    {
        let r = self.mul2_uiui(x, y);
        self.neg = r.neg;
        self.limbs = r.limbs;
    }

    /// True exactly when the value fits in a signed 64-bit integer.
    pub fn fits_si(&self) -> (r: bool)
        requires
            self.wf(),
        ensures
            r == (i64::MIN <= self@ <= i64::MAX),
    {
        proof {
            self.lemma_small_value_shape();
        }
        if self.limbs.len() == 0 {
            true
        } else if self.limbs.len() > 1 {
            false
        } else if self.neg {
            self.limbs[0] <= 0x8000000000000000
        } else {
            self.limbs[0] <= 0x7FFFFFFFFFFFFFFF
        }
    }

    /// True exactly when the absolute value fits in an unsigned 64-bit
    /// integer.
    pub fn abs_fits_ui(&self) -> (r: bool)
        requires
            self.wf(),
        ensures
            r == (int_abs(self@) <= u64::MAX),
    {
        proof {
            self.lemma_small_value_shape();
        }
        self.limbs.len() <= 1
    }

    /// The value as a signed 64-bit integer, when it fits.
    pub fn get_si(&self) -> (r: Option<i64>)
        requires
            self.wf(),
        ensures
            r == if i64::MIN <= self@ <= i64::MAX {
                Some(self@ as i64)
            } else {
                None::<i64>
            },
    {
        proof {
            self.lemma_small_value_shape();
            self.lemma_view_sign();
        }
        if self.limbs.len() == 0 {
            Some(0)
        } else if self.limbs.len() > 1 {
            None
        } else if self.neg {
            let l = self.limbs[0];
            if l < 0x8000000000000000 {
                Some(-(l as i64))
            } else if l == 0x8000000000000000 {
                Some(i64::MIN)
            } else {
                None
            }
        } else {
            let l = self.limbs[0];
            if l <= 0x7FFFFFFFFFFFFFFF {
                Some(l as i64)
            } else {
                None
            }
        }
    }

    /// The value as an unsigned 64-bit integer, when it is in range;
    /// negative values are never in range.
    pub fn get_ui(&self) -> (r: Option<u64>)
        requires
            self.wf(),
        ensures
            r == if 0 <= self@ <= u64::MAX {
                Some(self@ as u64)
            } else {
                None::<u64>
            },
    {
        proof {
            self.lemma_small_value_shape();
            self.lemma_view_sign();
        }
        if self.limbs.len() == 0 {
            Some(0)
        } else if self.neg || self.limbs.len() > 1 {
            None
        } else {
            Some(self.limbs[0])
        }
    }

    /// The canonical limb sequence of the absolute value, least significant
    /// limb first; empty exactly for zero.
    pub fn get_ui_vector(&self) -> (r: Vec<u64>)
        requires
            self.wf(),
        ensures
            r@ == self.limb_seq(),
            mag_val(r@) == int_abs(self@),
            canonical(r@),
    {
        proof {
            self.lemma_view_sign();
        }
        mag_copy(&self.limbs)
    }

    /// Replaces the value by the non-negative integer the given limb
    /// sequence denotes; most-significant zero limbs are stripped.
    pub fn set_ui_vector(&mut self, vec: Vec<u64>)
        ensures
            final (self).wf(),
            final (self)@ == mag_val(vec@),
    {
        self.neg = false;
        self.limbs = vec;
        mag_trim(&mut self.limbs);
    }

    /// The representation is unique per value: two well-formed integers
    /// denoting the same value carry the same sign flag and the same limb
    /// sequence, so derived hashes of equal values agree.
    pub proof fn lemma_value_determines_representation(a: &Integer, b: &Integer)
        requires
            a.wf(),
            b.wf(),
            a@ == b@,
        ensures
            a.limb_seq() == b.limb_seq(),
    {
        a.lemma_view_sign();
        b.lemma_view_sign();
        crate::limbs::lemma_canonical_unique(a.limbs@, b.limbs@);
        assert(a.neg == b.neg);
    }

    /// Reads one limb of the magnitude.
    pub(crate) fn limb(&self, i: usize) -> (r: u64)
        requires
            i < self.limb_seq().len(),
        ensures
            r == self.limb_seq()[i as int],
    {
        self.limbs[i]
    }

    /// Borrows the magnitude's limb vector.
    pub(crate) fn magnitude_ref(&self) -> (r: &Vec<u64>)
        ensures
            r@ == self.limb_seq(),
    {
        &self.limbs
    }

    /// The well-formed integer with this value's sign and the given
    /// magnitude; a zero magnitude always comes out non-negative.
    pub(crate) fn with_magnitude(&self, m: Vec<u64>) -> (r: Integer)
        requires
            self.wf(),
        ensures
            r.wf(),
            mag_val(r.limb_seq()) == mag_val(m@),
            r@ == if self@ < 0 {
                -(mag_val(m@) as int)
            } else {
                mag_val(m@) as int
            },
    {
        proof {
            self.lemma_view_sign();
        }
        Integer::assemble(self.neg, m)
    }

    /// The well-formed non-negative integer with the given magnitude.
    pub(crate) fn from_magnitude(m: Vec<u64>) -> (r: Integer)
        ensures
            r.wf(),
            r@ == mag_val(m@),
    {
        Integer::assemble(false, m)
    }

    /// Replaces this value wholesale.
    pub(crate) fn replace_with(&mut self, other: Integer)
        ensures
            final (self)@ == other@,
            final (self).wf() == other.wf(),
            final (self).limb_seq() == other.limb_seq(),
    {
        self.neg = other.neg;
        self.limbs = other.limbs;
    }

    /// The number of limbs of the canonical magnitude; zero exactly for the
    /// value zero.
    pub fn size(&self) -> (r: usize)
        requires
            self.wf(),
        ensures
            r == self.limb_seq().len(),
            r == 0 <==> self@ == 0,
    {
        proof {
            self.lemma_view_sign();
            if self.limbs@.len() > 0 {
                lemma_mag_val_lower(self.limbs@);
                lemma_pow2_pos((64 * (self.limbs@.len() - 1)) as nat);
            }
        }
        self.limbs.len()
    }
}

impl Default for Integer {
    /// The default integer is zero.
    fn default() -> (r: Self)
        ensures
            r.wf(),
            r@ == 0,
    {
        Integer::zero()
    }
}

impl Clone for Integer {
    /// A deep copy denoting the same value.
    fn clone(&self) -> (r: Self)
        ensures
            r@ == self@,
            r.wf() == self.wf(),
            r.limb_seq() == self.limb_seq(),
    {
        Integer { neg: self.neg, limbs: mag_copy(&self.limbs) }
    }
}

impl PartialEq for Integer {
    /// Equality of the denoted values.
    fn eq(&self, other: &Integer) -> (r: bool) {
        self.cmp_value(other) == 0
    }
}

impl Eq for Integer {

}

impl vstd::std_specs::cmp::PartialEqSpecImpl for Integer {
    open spec fn obeys_eq_spec() -> bool {
        true
    }

    open spec fn eq_spec(&self, other: &Integer) -> bool {
        self@ == other@
    }
}

impl PartialOrd for Integer {
    /// The total order of the denoted values.
    fn partial_cmp(&self, other: &Integer) -> (r: Option<core::cmp::Ordering>) {
        let c = self.cmp_value(other);
        if c < 0 {
            Some(core::cmp::Ordering::Less)
        } else if c == 0 {
            Some(core::cmp::Ordering::Equal)
        } else {
            Some(core::cmp::Ordering::Greater)
        }
    }
}

impl vstd::std_specs::cmp::PartialOrdSpecImpl for Integer {
    open spec fn obeys_partial_cmp_spec() -> bool {
        true
    }

    open spec fn partial_cmp_spec(&self, other: &Integer) -> Option<core::cmp::Ordering> {
        if self@ < other@ {
            Some(core::cmp::Ordering::Less)
        } else if self@ == other@ {
            Some(core::cmp::Ordering::Equal)
        } else {
            Some(core::cmp::Ordering::Greater)
        }
    }
}

} // verus!
