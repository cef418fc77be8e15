//! Greatest common divisors.
//!
//! [`gcd_nat`] is the Euclidean recursion; the lemmas here give the facts
//! the rational engine rests on: the gcd divides both arguments, scales
//! with a common factor, and is symmetric. [`Integer::gcd`] computes it.

use vstd::prelude::*;
use vstd::arithmetic::div_mod::lemma_fundamental_div_mod;
use vstd::arithmetic::div_mod::lemma_fundamental_div_mod_converse;
use vstd::arithmetic::div_mod::lemma_mod_division_less_than_divisor;
use vstd::arithmetic::div_mod::lemma_mod_self_0;
use vstd::arithmetic::div_mod::lemma_small_mod;
use vstd::arithmetic::div_mod::lemma_mod_multiples_basic;
use crate::integer::Integer;
use crate::integer::int_abs;
use crate::integer::tdiv_q_spec;

verus! {

/// Whether `d` divides `x`; zero divides only zero.
pub open spec fn divides(d: nat, x: nat) -> bool {
    if d == 0 {
        x == 0
    } else {
        (x as int) % (d as int) == 0
    }
}

/// The greatest common divisor, by the Euclidean recursion;
/// `gcd_nat(a, 0) == a`, so `gcd_nat(0, 0) == 0`.
pub open spec fn gcd_nat(a: nat, b: nat) -> nat
    decreases b,
    via gcd_nat_decreases
{
    if b == 0 {
        a
    } else {
        gcd_nat(b, (a % b) as nat)
    }
}

#[via_fn]
proof fn gcd_nat_decreases(a: nat, b: nat) {
    if b != 0 {
        lemma_mod_division_less_than_divisor(a as int, b as int);
    }
}

/// The gcd divides both of its arguments, and is positive unless both are
/// zero.
pub proof fn lemma_gcd_divides(a: nat, b: nat)
    ensures
        divides(gcd_nat(a, b), a),
        divides(gcd_nat(a, b), b),
        (a != 0 || b != 0) ==> gcd_nat(a, b) > 0,
    decreases b,
{
    if b == 0 {
        if a != 0 {
            lemma_mod_self_0(a as int);
            assert(0int % (a as int) == 0) by {
                lemma_small_mod(0, a);
            }
        }
    } else {
        lemma_mod_division_less_than_divisor(a as int, b as int);
        lemma_gcd_divides(b, (a % b) as nat);
        let g = gcd_nat(b, (a % b) as nat);
        // g divides b and a % b, hence a == (a/b)*b + a%b as well
        lemma_fundamental_div_mod(a as int, b as int);
        let q = (a as int) / (b as int);
        let bq = (b as int) / (g as int);
        let rq = ((a % b) as int) / (g as int);
        lemma_fundamental_div_mod(b as int, g as int);
        lemma_fundamental_div_mod((a % b) as int, g as int);
        assert(a as int == (g as int) * (q * bq + rq)) by (nonlinear_arith)
            requires
                a as int == (b as int) * q + (a % b),
                b as int == (g as int) * bq,
                (a % b) as int == (g as int) * rq,
        ;
        lemma_mod_multiples_basic(q * bq + rq, g as int);
        assert(((g as int) * (q * bq + rq)) % (g as int) == 0) by (nonlinear_arith)
            requires
                ((q * bq + rq) * (g as int)) % (g as int) == 0,
        ;
    }
}

/// A common factor moves through the gcd: `gcd(k*a, k*b) == k * gcd(a, b)`.
pub proof fn lemma_gcd_scale(a: nat, b: nat, k: nat)
    requires
        k > 0,
    ensures
        gcd_nat(k * a, k * b) == k * gcd_nat(a, b),
    decreases b,
{
    if b == 0 {
        assert(k * b == 0) by (nonlinear_arith)
            requires
                b == 0,
        ;
    } else {
        lemma_fundamental_div_mod(a as int, b as int);
        lemma_mod_division_less_than_divisor(a as int, b as int);
        let q = (a as int) / (b as int);
        let r = (a % b) as int;
        assert((k * a) as int == q * ((k * b) as int) + (k as int) * r) by (nonlinear_arith)
            requires
                a as int == (b as int) * q + r,
        ;
        assert(0 <= (k as int) * r < (k * b) as int) by (nonlinear_arith)
            requires
                0 <= r < b as int,
                k > 0,
        ;
        assert(k * b > 0) by (nonlinear_arith)
            requires
                k > 0,
                b > 0,
        ;
        lemma_fundamental_div_mod_converse(
            (k * a) as int,
            (k * b) as int,
            q,
            (k as int) * r,
        );
        assert((k * a) % (k * b) == k * (a % b));
        lemma_gcd_scale(b, (a % b) as nat, k);
    }
}

/// The gcd does not care about the order of its arguments.
pub proof fn lemma_gcd_comm(a: nat, b: nat)
    ensures
        gcd_nat(a, b) == gcd_nat(b, a),
{
    if a == 0 && b == 0 {
    } else if b == 0 {
        lemma_small_mod(0, a);
    } else if a == 0 {
        lemma_small_mod(0, b);
    } else if a == b {
        lemma_mod_self_0(a as int);
    } else if a < b {
        lemma_small_mod(a, b);
    } else {
        lemma_small_mod(b, a);
    }
}

/// Dividing out the gcd leaves coprime parts.
pub proof fn lemma_gcd_reduced(a: nat, b: nat)
    requires
        b != 0,
    ensures
        gcd_nat(a, b) > 0,
        divides(gcd_nat(a, b), a),
        divides(gcd_nat(a, b), b),
        gcd_nat(((a as int) / (gcd_nat(a, b) as int)) as nat, ((b as int) / (gcd_nat(a, b) as int)) as nat) == 1,
{
    lemma_gcd_divides(a, b);
    let g = gcd_nat(a, b);
    lemma_fundamental_div_mod(a as int, g as int);
    lemma_fundamental_div_mod(b as int, g as int);
    let aq = ((a as int) / (g as int)) as nat;
    let bq = ((b as int) / (g as int)) as nat;
    assert((a as int) / (g as int) >= 0 && (b as int) / (g as int) >= 0) by {
        vstd::arithmetic::div_mod::lemma_div_pos_is_pos(a as int, g as int);
        vstd::arithmetic::div_mod::lemma_div_pos_is_pos(b as int, g as int);
    }
    assert(a == g * aq && b == g * bq) by (nonlinear_arith)
        requires
            a as int == (g as int) * ((a as int) / (g as int)) + (a as int) % (g as int),
            b as int == (g as int) * ((b as int) / (g as int)) + (b as int) % (g as int),
            (a as int) % (g as int) == 0,
            (b as int) % (g as int) == 0,
            aq == (a as int) / (g as int),
            bq == (b as int) / (g as int),
    ;
    lemma_gcd_scale(aq, bq, g);
    assert(gcd_nat(g * aq, g * bq) == g * gcd_nat(aq, bq));
    assert(g * gcd_nat(aq, bq) == g ==> gcd_nat(aq, bq) == 1) by (nonlinear_arith)
        requires
            g > 0,
    ;
}

impl Integer {
    /// The greatest common divisor of the absolute values, always
    /// non-negative; `gcd(0, 0) == 0`.
    pub fn gcd(&self, other: &Integer) -> (r: Integer)
        requires
            self.wf(),
            other.wf(),
        ensures
            r.wf(),
            r@ == gcd_nat(int_abs(self@), int_abs(other@)),
    {
        let mut a = self.abs();
        let mut b = other.abs();
        while !(b.is_zero())
            invariant
                a.wf(),
                b.wf(),
                a@ >= 0,
                b@ >= 0,
                gcd_nat(a@ as nat, b@ as nat) == gcd_nat(int_abs(self@), int_abs(other@)),
            decreases b@,
        {
            let ghost av = a@;
            let ghost bv = b@;
            let r = match a.tdiv_r(&b) {
                Ok(rr) => rr,
                Err(_) => Integer::zero(),
            };
            proof {
                lemma_fundamental_div_mod(av, bv);
                lemma_mod_division_less_than_divisor(av, bv);
                assert(tdiv_q_spec(av, bv) == av / bv);
                assert(r@ == av - bv * (av / bv));
                assert(r@ == av % bv);
            }
            a = b;
            b = r;
        }
        a
    }
}

} // verus!
