//! Exact rational numbers.
//!
//! A [`Rational`] is a fraction of two [`Integer`] values kept in lowest
//! terms: the denominator is strictly positive and shares no factor with
//! the numerator, so each rational value has exactly one representation and
//! zero is `0/1`. Every operation normalizes before it returns; the spec
//! functions [`rat_norm_num`] and [`rat_norm_den`] say what the normalized
//! pair of any raw fraction is, and the contracts pin each result to them.

use vstd::prelude::*;
use vstd::arithmetic::div_mod::lemma_fundamental_div_mod;
use crate::Error;
use crate::integer::Integer;
use crate::integer::int_abs;
use crate::integer::tdiv_q_spec;
use crate::gcd::gcd_nat;
use crate::gcd::lemma_gcd_divides;
use crate::gcd::lemma_gcd_comm;
use crate::gcd::lemma_gcd_reduced;

verus! {

/// The numerator of the reduced form of `n/d`: sign on the numerator,
/// magnitude divided by the gcd.
pub open spec fn rat_norm_num(n: int, d: int) -> int
    recommends
        d != 0,
{
    let g = gcd_nat(int_abs(n), int_abs(d)) as int;
    let m = (int_abs(n) as int) / g;
    if (n < 0) != (d < 0) {
        -m
    } else {
        m
    }
}

/// The denominator of the reduced form of `n/d`: always positive.
pub open spec fn rat_norm_den(n: int, d: int) -> int
    recommends
        d != 0,
{
    (int_abs(d) as int) / (gcd_nat(int_abs(n), int_abs(d)) as int)
}

/// An exact fraction in lowest terms with a positive denominator.
#[derive(Debug, Hash)]
pub struct Rational {
    num: Integer,
    den: Integer,
}

impl View for Rational {
    type V = (int, int);

    /// The pair (numerator, denominator) of mathematical integers.
    closed spec fn view(&self) -> (int, int) {
        (self.num@, self.den@)
    }
}

impl Rational {
    /// The representation invariant: both parts well formed, the
    /// denominator positive, and the fraction in lowest terms.
    pub closed spec fn wf(&self) -> bool {
        &&& self.num.wf()
        &&& self.den.wf()
        &&& self.den@ > 0
        &&& gcd_nat(int_abs(self.num@), int_abs(self.den@)) == 1
    }

    /// What the invariant promises of the views.
    pub proof fn lemma_wf_facts(&self)
        requires
            self.wf(),
        ensures
            self@.1 > 0,
            gcd_nat(int_abs(self@.0), int_abs(self@.1)) == 1,
    {
    }

    /// The reduced fraction `n/d`; the one error is a zero denominator.
    pub fn from_pair(n: Integer, d: Integer) -> (r: Result<Rational, Error>)
        requires
            n.wf(),
            d.wf(),
        ensures
            d@ == 0 ==> r is Err && r->Err_0 == Error::DivisionByZero,
            d@ != 0 ==> r is Ok && r->Ok_0.wf() && r->Ok_0@.0 == rat_norm_num(n@, d@)
                && r->Ok_0@.1 == rat_norm_den(n@, d@),
    {
        if d.is_zero() {
            return Err(Error::DivisionByZero);
        }
        let g = n.gcd(&d);
        proof {
            lemma_gcd_reduced(int_abs(n@), int_abs(d@));
        }
        let na = n.abs();
        let da = d.abs();
        let qn = match na.tdiv_q(&g) {
            Ok(q) => q,
            Err(_) => Integer::zero(),
        };
        let qd = match da.tdiv_q(&g) {
            Ok(q) => q,
            Err(_) => Integer::zero(),
        };
        let neg = (n.sign() < 0) != (d.sign() < 0);
        let num = if neg {
            qn.negated()
        } else {
            qn
        };
        proof {
            let gv = gcd_nat(int_abs(n@), int_abs(d@)) as int;
            assert(qn@ == tdiv_q_spec(int_abs(n@) as int, gv));
            assert(qd@ == tdiv_q_spec(int_abs(d@) as int, gv));
            // the denominator's reduced magnitude is at least one
            lemma_fundamental_div_mod(int_abs(d@) as int, gv);
            assert(qd@ >= 1) by (nonlinear_arith)
                requires
                    int_abs(d@) as int == gv * ((int_abs(d@) as int) / gv) + (int_abs(d@) as int)
                        % gv,
                    (int_abs(d@) as int) % gv == 0,
                    int_abs(d@) as int > 0,
                    gv > 0,
                    qd@ == (int_abs(d@) as int) / gv,
            ;
        }
        Ok(Rational { num, den: qd })
    }

    /// The rational `n/1`.
    pub fn from_integer(n: Integer) -> (r: Rational)
        requires
            n.wf(),
        ensures
            r.wf(),
            r@.0 == n@,
            r@.1 == 1,
    {
        proof {
            lemma_gcd_divides(int_abs(n@), 1);
            assert(gcd_nat(int_abs(n@), 1) == gcd_nat(1, (int_abs(n@) % 1) as nat));
        }
        Rational { num: n, den: Integer::one() }
    }

    /// The canonical zero, `0/1`.
    pub fn zero() -> (r: Rational)
        ensures
            r.wf(),
            r@.0 == 0,
            r@.1 == 1,
    {
        Rational::from_integer(Integer::zero())
    }

    /// The rational one, `1/1`.
    pub fn one() -> (r: Rational)
        ensures
            r.wf(),
            r@.0 == 1,
            r@.1 == 1,
    {
        Rational::from_integer(Integer::one())
    }

    /// Sets the value to zero.
    pub fn zero_mut(&mut self)
        ensures
            final (self).wf(),
            final (self)@.0 == 0,
            final (self)@.1 == 1,
    {
        let z = Rational::zero();
        self.num = z.num;
        self.den = z.den;
    }

    /// Sets the value to one.
    pub fn one_mut(&mut self)
        ensures
            final (self).wf(),
            final (self)@.0 == 1,
            final (self)@.1 == 1,
    {
        let o = Rational::one();
        self.num = o.num;
        self.den = o.den;
    }

    /// True exactly when the value is zero.
    pub fn is_zero(&self) -> (r: bool)
        requires
            self.wf(),
        ensures
            r == (self@.0 == 0),
    {
        self.num.is_zero()
    }

    /// True exactly when the value is one.
    pub fn is_one(&self) -> (r: bool)
        requires
            self.wf(),
        ensures
            r == (self@.0 == 1 && self@.1 == 1),
    {
        self.num.is_one() && self.den.is_one()
    }

    /// A copy of the numerator, already in lowest terms.
    pub fn numerator(&self) -> (r: Integer)
        requires
            self.wf(),
        ensures
            r.wf(),
            r@ == self@.0,
    {
        self.num.clone()
    }

    /// A copy of the positive denominator, already in lowest terms.
    pub fn denominator(&self) -> (r: Integer)
        requires
            self.wf(),
        ensures
            r.wf(),
            r@ == self@.1,
    {
        self.den.clone()
    }

    /// The sum: the reduced form of `(n1*d2 + n2*d1) / (d1*d2)`.
    pub fn add(&self, other: &Rational) -> (r: Rational)
        ensures
            self.wf() && other.wf() ==> r.wf() && r@.0 == rat_norm_num(
                self@.0 * other@.1 + other@.0 * self@.1,
                self@.1 * other@.1,
            ) && r@.1 == rat_norm_den(
                self@.0 * other@.1 + other@.0 * self@.1,
                self@.1 * other@.1,
            ),
    {
        let n = self.num.mul(&other.den).add(&other.num.mul(&self.den));
        let d = self.den.mul(&other.den);
        proof {
            if self.wf() && other.wf() {
                assert(self@.1 * other@.1 > 0) by (nonlinear_arith)
                    requires
                        self@.1 > 0,
                        other@.1 > 0,
                ;
            }
        }
        if d.cmp_value(&Integer::zero()) == 0 {
            // a zero denominator cannot arise from well-formed operands
            return Rational::zero();
        }
        match Rational::from_pair(n, d) {
            Ok(r) => r,
            Err(_) => {
                proof {
                    assert(false);
                }
                Rational::zero()
            },
        }
    }

    /// The difference: the reduced form of `(n1*d2 - n2*d1) / (d1*d2)`.
    pub fn sub(&self, other: &Rational) -> (r: Rational)
        ensures
            self.wf() && other.wf() ==> r.wf() && r@.0 == rat_norm_num(
                self@.0 * other@.1 - other@.0 * self@.1,
                self@.1 * other@.1,
            ) && r@.1 == rat_norm_den(
                self@.0 * other@.1 - other@.0 * self@.1,
                self@.1 * other@.1,
            ),
    {
        let n = self.num.mul(&other.den).sub(&other.num.mul(&self.den));
        let d = self.den.mul(&other.den);
        proof {
            if self.wf() && other.wf() {
                assert(self@.1 * other@.1 > 0) by (nonlinear_arith)
                    requires
                        self@.1 > 0,
                        other@.1 > 0,
                ;
            }
        }
        if d.cmp_value(&Integer::zero()) == 0 {
            // a zero denominator cannot arise from well-formed operands
            return Rational::zero();
        }
        match Rational::from_pair(n, d) {
            Ok(r) => r,
            Err(_) => {
                proof {
                    assert(false);
                }
                Rational::zero()
            },
        }
    }

    /// The product: the reduced form of `(n1*n2) / (d1*d2)`.
    pub fn mul(&self, other: &Rational) -> (r: Rational)
        ensures
            self.wf() && other.wf() ==> r.wf() && r@.0 == rat_norm_num(
                self@.0 * other@.0,
                self@.1 * other@.1,
            ) && r@.1 == rat_norm_den(self@.0 * other@.0, self@.1 * other@.1),
    {
        let n = self.num.mul(&other.num);
        let d = self.den.mul(&other.den);
        proof {
            if self.wf() && other.wf() {
                assert(self@.1 * other@.1 > 0) by (nonlinear_arith)
                    requires
                        self@.1 > 0,
                        other@.1 > 0,
                ;
            }
        }
        if d.cmp_value(&Integer::zero()) == 0 {
            // a zero denominator cannot arise from well-formed operands
            return Rational::zero();
        }
        match Rational::from_pair(n, d) {
            Ok(r) => r,
            Err(_) => {
                proof {
                    assert(false);
                }
                Rational::zero()
            },
        }
    }

    /// The quotient: the reduced form of `(n1*d2) / (d1*n2)`; dividing by
    /// the zero rational is the one error.
    pub fn div(&self, other: &Rational) -> (r: Result<Rational, Error>)
        ensures
            other@.0 == 0 ==> r is Err && r->Err_0 == Error::DivisionByZero,
            self.wf() && other.wf() && other@.0 != 0 ==> r is Ok && r->Ok_0.wf()
                && r->Ok_0@.0 == rat_norm_num(self@.0 * other@.1, self@.1 * other@.0)
                && r->Ok_0@.1 == rat_norm_den(self@.0 * other@.1, self@.1 * other@.0),
    {
        if other.num.cmp_value(&Integer::zero()) == 0 {
            return Err(Error::DivisionByZero);
        }
        let n = self.num.mul(&other.den);
        let d = self.den.mul(&other.num);
        proof {
            if self.wf() && other.wf() {
                assert(self@.1 * other@.0 != 0) by (nonlinear_arith)
                    requires
                        self@.1 > 0,
                        other@.0 != 0,
                ;
            }
        }
        if d.cmp_value(&Integer::zero()) == 0 {
            // a zero denominator cannot arise from well-formed operands
            return Err(Error::DivisionByZero);
        }
        match Rational::from_pair(n, d) {
            Ok(r) => Ok(r),
            Err(_) => {
                proof {
                    assert(false);
                }
                Err(Error::DivisionByZero)
            },
        }
    }

    /// The multiplicative inverse: the denominator over the numerator,
    /// with the sign moved onto the new numerator; zero has none.
    pub fn inverse(&self) -> (r: Result<Rational, Error>)
        ensures
            self@.0 == 0 ==> r is Err && r->Err_0 == Error::DivisionByZero,
            self@.0 != 0 ==> r is Ok && r->Ok_0@.0 == (if self@.0 < 0 {
                -self@.1
            } else {
                self@.1
            }) && r->Ok_0@.1 == int_abs(self@.0) as int,
            self.wf() && self@.0 != 0 ==> r is Ok && r->Ok_0.wf(),
    {
        let z = Integer::zero();
        if self.num.cmp_value(&z) == 0 {
            return Err(Error::DivisionByZero);
        }
        let new_den = self.num.abs();
        let new_num = if self.num.cmp_value(&z) < 0 {
            self.den.negated()
        } else {
            self.den.clone()
        };
        proof {
            if self.wf() {
                lemma_gcd_comm(int_abs(new_num@), int_abs(new_den@));
            }
        }
        Ok(Rational { num: new_num, den: new_den })
    }

    /// The additive inverse: the numerator negated, the denominator kept.
    pub fn negated(&self) -> (r: Rational)
        ensures
            self.wf() ==> r.wf(),
            r@.0 == -self@.0,
            r@.1 == self@.1,
    {
        Rational { num: self.num.negated(), den: self.den.clone() }
    }

    /// Negates in place.
    pub fn neg_mut(&mut self)
        ensures
            old(self).wf() ==> final (self).wf(),
            final (self)@.0 == -old(self)@.0,
            final (self)@.1 == old(self)@.1,
    {
        let r = self.negated();
        self.num = r.num;
        self.den = r.den;
    }

    /// `self + n`, exactly as promoting `n` to `n/1` and adding.
    pub fn add_integer(&self, n: &Integer) -> (r: Rational)
        requires
            self.wf(),
            n.wf(),
        ensures
            r.wf(),
            r@.0 == rat_norm_num(self@.0 + n@ * self@.1, self@.1),
            r@.1 == rat_norm_den(self@.0 + n@ * self@.1, self@.1),
    {
        let p = Rational::from_integer(n.clone());
        let r = self.add(&p);
        proof {
            assert(self@.0 * 1 == self@.0 && self@.1 * 1 == self@.1) by (nonlinear_arith);
        }
        r
    }

    /// `self * n`, exactly as promoting `n` to `n/1` and multiplying.
    pub fn mul_integer(&self, n: &Integer) -> (r: Rational)
        requires
            self.wf(),
            n.wf(),
        ensures
            r.wf(),
            r@.0 == rat_norm_num(self@.0 * n@, self@.1),
            r@.1 == rat_norm_den(self@.0 * n@, self@.1),
    {
        let p = Rational::from_integer(n.clone());
        let r = self.mul(&p);
        proof {
            assert(self@.1 * 1 == self@.1) by (nonlinear_arith);
        }
        r
    }

    /// Compares two values exactly, by cross multiplication; the result is
    /// the sign of `n1*d2 - n2*d1`, which on well-formed values orders the
    /// fractions.
    pub fn cmp_value(&self, other: &Rational) -> (r: i8)
        ensures
            r == 1i8 ==> self@.0 * other@.1 > other@.0 * self@.1,
            r == 0i8 ==> self@.0 * other@.1 == other@.0 * self@.1,
            r == -1i8 ==> self@.0 * other@.1 < other@.0 * self@.1,
            r == 1i8 || r == 0i8 || r == -1i8,
    {
        let left = self.num.mul(&other.den);
        let right = other.num.mul(&self.den);
        left.cmp_value(&right)
    }
}

impl Rational {
    /// Replaces this value wholesale.
    pub(crate) fn replace_with(&mut self, other: Rational)
        ensures
            final (self)@ == other@,
            final (self).wf() == other.wf(),
    {
        self.num = other.num;
        self.den = other.den;
    }
}

impl Default for Rational {
    /// The default rational is the canonical zero, `0/1`.
    fn default() -> (r: Self)
        ensures
            r.wf(),
            r@.0 == 0,
            r@.1 == 1,
    {
        Rational::zero()
    }
}

impl Clone for Rational {
    /// A deep copy denoting the same value.
    fn clone(&self) -> (r: Self)
        ensures
            r@ == self@,
            r.wf() == self.wf(),
    {
        Rational { num: self.num.clone(), den: self.den.clone() }
    }
}

impl PartialEq for Rational {
    /// Equality of the denoted fractions, by cross multiplication.
    fn eq(&self, other: &Rational) -> (r: bool) {
        self.cmp_value(other) == 0
    }
}

impl Eq for Rational {

}

impl vstd::std_specs::cmp::PartialEqSpecImpl for Rational {
    open spec fn obeys_eq_spec() -> bool {
        true
    }

    open spec fn eq_spec(&self, other: &Rational) -> bool {
        self@.0 * other@.1 == other@.0 * self@.1
    }
}

impl PartialOrd for Rational {
    /// The order of the denoted fractions, by cross multiplication.
    fn partial_cmp(&self, other: &Rational) -> (r: Option<core::cmp::Ordering>) {
        let c = self.cmp_value(other);
        if c < 0 {
            Some(core::cmp::Ordering::Less)
        } else if c == 0 {
            Some(core::cmp::Ordering::Equal)
        } else {
            Some(core::cmp::Ordering::Greater)
        }
    }
}

impl vstd::std_specs::cmp::PartialOrdSpecImpl for Rational {
    open spec fn obeys_partial_cmp_spec() -> bool {
        true
    }

    open spec fn partial_cmp_spec(&self, other: &Rational) -> Option<core::cmp::Ordering> {
        if self@.0 * other@.1 < other@.0 * self@.1 {
            Some(core::cmp::Ordering::Less)
        } else if self@.0 * other@.1 == other@.0 * self@.1 {
            Some(core::cmp::Ordering::Equal)
        } else {
            Some(core::cmp::Ordering::Greater)
        }
    }
}

} // verus!
