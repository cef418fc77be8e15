//! Bit-level views of the magnitude.
//!
//! Bit indices address the binary expansion of the absolute value, least
//! significant bit first: bit `i` of a non-negative `v` is `(v / 2^i) % 2`.
//! The sign of a value never takes part in these operations: the bitwise
//! operations of this crate read and write the magnitude, as the contracts
//! state, and no two's-complement convention is assumed for negative
//! operands.

use vstd::prelude::*;
use vstd::arithmetic::power2::pow2;
use vstd::arithmetic::power2::lemma_pow2_adds;
use vstd::arithmetic::power2::lemma_pow2_pos;
use vstd::arithmetic::power2::lemma_pow2_strictly_increases;
use vstd::arithmetic::power2::lemma2_to64;
use vstd::arithmetic::div_mod::lemma_basic_div;
use vstd::arithmetic::div_mod::lemma_div_denominator;
use vstd::arithmetic::div_mod::lemma_hoist_over_denominator;
use vstd::arithmetic::div_mod::lemma_mod_multiples_vanish;
use vstd::arithmetic::div_mod::lemma_fundamental_div_mod;
use crate::limbs::limb_at;
use crate::limbs::prefix_val;
use crate::limbs::suffix_val;
use crate::limbs::mag_val;
use crate::limbs::canonical;
use crate::limbs::mag_trim;
use crate::limbs::mag_mul;
use crate::limbs::lemma_mag_val_bound;
use crate::limbs::lemma_mag_val_push_zero;
use crate::limbs::lemma_mag_val_single;
use crate::limbs::lemma_mag_val_update;
use crate::limbs::lemma_prefix_val_bound;
use crate::limbs::lemma_suffix_val_split;
use crate::limbs::lemma_suffix_shifted;
use crate::limbs::lemma_zero_seq_val;
use crate::Error;
use crate::integer::Integer;
use crate::integer::int_abs;

verus! {

/// Bit `i` of the binary expansion of a non-negative value.
pub open spec fn nat_bit(v: nat, i: nat) -> bool {
    (v / pow2(i)) % 2 == 1
}

/// The value with bit `i` turned on.
pub open spec fn with_bit(v: nat, i: nat) -> nat {
    if nat_bit(v, i) {
        v
    } else {
        v + pow2(i)
    }
}

/// Bit `64*w + b` of a magnitude is bit `b` of limb `w`.
pub proof fn lemma_limb_bit(s: Seq<u64>, w: int, b: int)
    requires
        0 <= w,
        0 <= b < 64,
    ensures
        nat_bit(mag_val(s), (64 * w + b) as nat) == if w < s.len() {
            ((s[w] as nat) / pow2(b as nat)) % 2 == 1
        } else {
            false
        },
{
    let v = mag_val(s) as int;
    let pw = pow2((64 * w) as nat);
    let pb = pow2(b as nat);
    let pwb = pow2((64 * w + b) as nat);
    lemma_pow2_adds((64 * w) as nat, b as nat);
    lemma_pow2_pos((64 * w) as nat);
    lemma_pow2_pos(b as nat);
    lemma_pow2_pos((64 * w + b) as nat);
    if w >= s.len() {
        lemma_mag_val_bound(s);
        if 64 * s.len() < 64 * w + b {
            lemma_pow2_strictly_increases((64 * s.len()) as nat, (64 * w + b) as nat);
        }
        lemma_basic_div(v, pwb as int);
    } else {
        lemma_suffix_val_split(s, w);
        let pre = prefix_val(s, w) as int;
        let suf = suffix_val(s, w) as int;
        lemma_prefix_val_bound(s, w);
        lemma_hoist_over_denominator(pre, suf, pw as nat);
        lemma_basic_div(pre, pw as int);
        assert(v / (pw as int) == suf);
        lemma_div_denominator(v, pw as int, pb as int);
        assert(v / (pwb as int) == suf / (pb as int));
        let hi = suffix_val(s, w + 1) as int;
        let l = s[w] as int;
        assert(suf == l + 0x10000000000000000 * hi);
        lemma_pow2_adds(b as nat, (64 - b) as nat);
        lemma2_to64();
        let pr = pow2((64 - b) as nat) as int;
        assert(0x10000000000000000 * hi == (hi * pr) * pb) by (nonlinear_arith)
            requires
                0x10000000000000000 == pb * pr,
        ;
        lemma_hoist_over_denominator(l, hi * pr, pb as nat);
        assert(suf / (pb as int) == l / (pb as int) + hi * pr);
        lemma_pow2_adds(1, (63 - b) as nat);
        let ph = pow2((63 - b) as nat) as int;
        assert(hi * pr == 2 * (hi * ph)) by (nonlinear_arith)
            requires
                pr == 2 * ph,
        ;
        lemma_mod_multiples_vanish(hi * ph, l / (pb as int), 2);
    }
}

/// `(x >> b) & 1` reads bit `b` of a limb.
proof fn lemma_u64_bit(x: u64, b: u64)
    requires
        b < 64,
    ensures
        (((x as nat) / pow2(b as nat)) % 2 == 1) == ((x >> b) & 1 == 1),
{
    vstd::bits::lemma_u64_shr_is_div(x, b);
    assert((x >> b) & 1 == (x >> b) % 2) by (bit_vector);
}

impl Integer {
    /// Tests bit `bit_index` of the magnitude; the sign plays no part.
    pub fn testbit(&self, bit_index: u64) -> (r: bool)
        requires
            self.wf(),
        ensures
            r == nat_bit(int_abs(self@), bit_index as nat),
    {
        proof {
            self.lemma_limbs_are_abs();
        }
        let w = bit_index / 64;
        let b = bit_index % 64;
        proof {
            lemma_fundamental_div_mod(bit_index as int, 64);
            lemma_limb_bit(self.limb_seq(), w as int, b as int);
        }
        if w >= self.size() as u64 {
            false
        } else {
            let x = self.limb(w as usize);
            proof {
                lemma_u64_bit(x, b);
            }
            (x >> b) & 1 == 1
        }
    }

    /// Sets bit `bit_index` of the magnitude, growing it as needed; the
    /// sign is kept, and zero becomes the positive power of two.
    pub fn setbit(&mut self, bit_index: u64)
        requires
            old(self).wf(),
        ensures
            final (self).wf(),
            final (self)@ == if old(self)@ < 0 {
                -(with_bit(int_abs(old(self)@), bit_index as nat) as int)
            } else {
                with_bit(int_abs(old(self)@), bit_index as nat) as int
            },
    {
        proof {
            old(self).lemma_limbs_are_abs();
            lemma_fundamental_div_mod(bit_index as int, 64);
        }
        let w64 = bit_index / 64;
        let b = bit_index % 64;
        let ghost m0 = int_abs(old(self)@);
        let mut v = crate::limbs::mag_copy(self.magnitude_ref());
        while (v.len() as u64) <= w64
            invariant
                mag_val(v@) == m0,
            decreases w64 + 1 - v@.len(),
        {
            proof {
                lemma_mag_val_push_zero(v@);
            }
            v.push(0);
        }
        let w = w64 as usize;
        let x = v[w];
        let nx = x | (1u64 << b);
        let ghost vpre = v@;
        proof {
            lemma_limb_bit(vpre, w64 as int, b as int);
            lemma_u64_bit(x, b);
            vstd::bits::lemma_u64_pow2_no_overflow(b as nat);
            vstd::bits::lemma_u64_shl_is_mul(1u64, b);
            assert((x >> b) & 1 == 0 ==> (x | (1u64 << b)) == x + (1u64 << b)) by (bit_vector)
                requires
                    b < 64,
            ;
            assert((x >> b) & 1 == 1 ==> (x | (1u64 << b)) == x) by (bit_vector)
                requires
                    b < 64,
            ;
            assert((x >> b) & 1 == 0 || (x >> b) & 1 == 1) by (bit_vector);
            assert((1u64 as nat) * pow2(b as nat) == pow2(b as nat)) by (nonlinear_arith);
            lemma_pow2_adds((64 * w64) as nat, b as nat);
            let pw = pow2((64 * w64) as nat);
            let pb = pow2(b as nat);
            assert((x as nat + pb) * pw - (x as nat) * pw == pb * pw) by (nonlinear_arith);
            lemma_mag_val_update(vpre, w as int, nx);
        }
        v[w] = nx;
        proof {
            let pw = pow2((64 * w64) as nat);
            let pb = pow2(b as nat);
            assert(v@ == vpre.update(w as int, nx));
            assert(bit_index == 64 * w64 + b);
            assert(pow2(bit_index as nat) == pw * pb);
            assert(nat_bit(m0, bit_index as nat) == ((x >> b) & 1 == 1));
            if (x >> b) & 1 == 1 {
                assert(nx == x);
                assert(mag_val(v@) == m0);
            } else {
                assert(nx as nat == x as nat + pb);
                assert(mag_val(v@) == m0 + pb * pw);
                assert(pb * pw == pw * pb) by (nonlinear_arith);
            }
            assert(mag_val(v@) == with_bit(m0, bit_index as nat));
        }
        let r = self.with_magnitude(v);
        self.replace_with(r);
    }

    /// The number of bits of the magnitude: zero for zero, else the unique
    /// `r` with `2^(r-1) <= |value| < 2^r`. The bound on the limb count is
    /// a machine limit: it keeps the bit count inside a `u64`.
    pub fn bits(&self) -> (r: u64)
        requires
            self.wf(),
            self.limb_seq().len() < 0x400000000000000,
        ensures
            self@ == 0 ==> r == 0,
            self@ != 0 ==> pow2((r - 1) as nat) <= int_abs(self@) < pow2(r as nat),
    {
        proof {
            self.lemma_limbs_are_abs();
        }
        let n = self.size();
        if n == 0 {
            return 0;
        }
        let top = self.limb(n - 1);
        let mut h: u64 = 64;
        while h > 1 && (top >> (h - 1)) == 0
            invariant
                1 <= h <= 64,
                h < 64 ==> top >> h == 0,
            decreases h,
        {
            h = h - 1;
        }
        proof {
            let s = self.limb_seq();
            assert(top != 0);
            assert(top >> ((h - 1) as u64) != 0 || h == 1);
            assert(top >> 0u64 == top) by (bit_vector);
            vstd::bits::lemma_u64_pow2_no_overflow((h - 1) as nat);
            vstd::bits::lemma_u64_shl_is_mul(1u64, (h - 1) as u64);
            assert(top >= (1u64 << (h - 1) as u64)) by (bit_vector)
                requires
                    top >> (h - 1) as u64 != 0,
                    h >= 1,
                    h <= 64,
            ;
            assert((1u64 as nat) * pow2((h - 1) as nat) == pow2((h - 1) as nat))
                by (nonlinear_arith);
            if h < 64 {
                vstd::bits::lemma_u64_pow2_no_overflow(h as nat);
                vstd::bits::lemma_u64_shl_is_mul(1u64, h as u64);
                assert(top < (1u64 << h)) by (bit_vector)
                    requires
                        top >> h == 0,
                        h < 64,
                ;
                assert((1u64 as nat) * pow2(h as nat) == pow2(h as nat)) by (nonlinear_arith);
            } else {
                lemma2_to64();
            }
            // 2^(h-1) <= top < 2^h lifts to the whole magnitude
            lemma_suffix_val_split(s, n - 1);
            lemma_prefix_val_bound(s, n - 1);
            assert(suffix_val(s, n - 1) == (top as nat) + 0x10000000000000000 * suffix_val(
                s,
                n as int,
            ));
            assert(suffix_val(s, n as int) == 0);
            let pw = pow2((64 * (n - 1)) as nat);
            let m = mag_val(s);
            assert(m == prefix_val(s, n - 1) + ((top as nat) + 0x10000000000000000 * 0) * pw);
            lemma_pow2_adds((64 * (n - 1)) as nat, (h - 1) as nat);
            lemma_pow2_adds((64 * (n - 1)) as nat, h as nat);
            let ph1 = pow2((h - 1) as nat);
            let ph = pow2(h as nat);
            assert(m >= ph1 * pw && m < ph * pw) by (nonlinear_arith)
                requires
                    m == prefix_val(s, n - 1) + (top as nat) * pw,
                    prefix_val(s, n - 1) < pw,
                    ph1 <= top as nat,
                    (top as nat) < ph,
                    pw > 0,
            ;
            lemma_pow2_pos((64 * (n - 1)) as nat);
        }
        let rr: u64 = (n as u64 - 1) * 64 + h;
        proof {
            let s = self.limb_seq();
            let m = mag_val(s);
            let pw = pow2((64 * (n - 1)) as nat);
            let ph1 = pow2((h - 1) as nat);
            let ph = pow2(h as nat);
            assert(rr as int == 64 * (n - 1) + h);
            assert((rr - 1) as nat == (64 * (n - 1)) as nat + (h - 1) as nat);
            assert(pow2((rr - 1) as nat) == pw * ph1);
            assert(pow2(rr as nat) == pw * ph);
            assert(ph1 * pw == pw * ph1 && ph * pw == pw * ph) by (nonlinear_arith);
            assert(pow2((rr - 1) as nat) <= m);
            assert(m < pow2(rr as nat));
        }
        rr
    }

    /// `self * 2^exp`: the magnitude shifted left by `exp` bits.
    pub fn mul_2exp(&self, exp: u64) -> (r: Integer)
        requires
            self.wf(),
        ensures
            r.wf(),
            r@ == self@ * pow2(exp as nat),
    {
        proof {
            self.lemma_limbs_are_abs();
            lemma_pow2_pos(exp as nat);
        }
        if self.size() == 0 {
            proof {
                assert(0int * (pow2(exp as nat) as int) == 0) by (nonlinear_arith);
            }
            return Integer::zero();
        }
        let w = exp / 64;
        let b = exp % 64;
        proof {
            lemma_fundamental_div_mod(exp as int, 64);
            vstd::bits::lemma_u64_pow2_no_overflow(b as nat);
            vstd::bits::lemma_u64_shl_is_mul(1u64, b);
            assert((1u64 as nat) * pow2(b as nat) == pow2(b as nat)) by (nonlinear_arith);
        }
        let mult: u64 = 1u64 << b;
        let mut mv: Vec<u64> = Vec::new();
        mv.push(mult);
        proof {
            lemma_mag_val_single(mult);
        }
        let shifted = mag_mul(&self.magnitude_ref(), &mv);
        let mut out: Vec<u64> = Vec::new();
        let mut k: u64 = 0;
        while k < w
            invariant
                k <= w,
                out@.len() == k,
                forall|j: int| 0 <= j < k ==> out@[j] == 0,
            decreases w - k,
        {
            out.push(0);
            k = k + 1;
        }
        let mut i: usize = 0;
        let ns = shifted.len();
        while i < ns
            invariant
                i <= ns,
                ns == shifted@.len(),
                out@.len() == w + i,
                forall|j: int| 0 <= j < w ==> out@[j] == 0,
                forall|j: int| 0 <= j < i ==> out@[w + j] == shifted@[j],
            decreases ns - i,
        {
            out.push(shifted[i]);
            i = i + 1;
        }
        let ghost sv = mag_val(shifted@);
        let ghost ov = mag_val(out@);
        proof {
            lemma_zero_seq_val(out@, w as int);
            lemma_suffix_val_split(out@, w as int);
            lemma_suffix_shifted(out@, shifted@, w as int, 0);
            lemma_suffix_val_split(shifted@, 0);
            lemma2_to64();
            assert(suffix_val(shifted@, 0) * pow2(0) == suffix_val(shifted@, 0))
                by (nonlinear_arith)
                requires
                    pow2(0) == 1,
            ;
            assert(ov == sv * pow2((64 * w) as nat));
            // (m * 2^b) * 2^(64w) == m * 2^exp
            lemma_pow2_adds(b as nat, (64 * w) as nat);
            let m = mag_val(self.limb_seq());
            assert(ov == m * pow2(exp as nat)) by (nonlinear_arith)
                requires
                    ov == sv * pow2((64 * w) as nat),
                    sv == m * pow2(b as nat),
                    pow2(exp as nat) == pow2(b as nat) * pow2((64 * w) as nat),
            ;
        }
        let r = self.with_magnitude(out);
        proof {
            let m = mag_val(self.limb_seq()) as int;
            let pe = pow2(exp as nat) as int;
            if self@ < 0 {
                assert(r@ == self@ * pe) by (nonlinear_arith)
                    requires
                        r@ == -(ov as int),
                        ov as int == m * pe,
                        self@ == -m,
                ;
            } else {
                assert(r@ == self@ * pe) by (nonlinear_arith)
                    requires
                        r@ == ov as int,
                        ov as int == m * pe,
                        self@ == m,
                ;
            }
        }
        r
    }

    /// `self * 2^exp` for a signed shift amount; a negative amount is
    /// outside the domain and is reported, never silently wrapped.
    pub fn checked_mul_2exp(&self, exp: i64) -> (r: Result<Integer, Error>)
        requires
            self.wf(),
        ensures
            exp < 0 ==> r is Err && r->Err_0 == Error::DomainError,
            exp >= 0 ==> r is Ok && r->Ok_0.wf() && r->Ok_0@ == self@ * pow2(exp as nat),
    {
        if exp < 0 {
            Err(Error::DomainError)
        } else {
            Ok(self.mul_2exp(exp as u64))
        }
    }

    /// `self = self * 2^exp` in place.
    pub fn mul_2exp_mut(&mut self, exp: u64)
        requires
            old(self).wf(),
        ensures
            final (self).wf(),
            final (self)@ == old(self)@ * pow2(exp as nat),
    {
        let r = self.mul_2exp(exp);
        self.replace_with(r);
    }

    /// The bitwise AND of the two magnitudes; the result is non-negative.
    pub fn bit_and(&self, other: &Integer) -> (r: Integer)
        ensures
            r.wf(),
            r@ >= 0,
            forall|k: nat| #[trigger]
                nat_bit(int_abs(r@), k) == (nat_bit(int_abs(self@), k) && nat_bit(
                    int_abs(other@),
                    k,
                )),
    {
        let v = bitop_limbs(&self.magnitude_ref(), &other.magnitude_ref(), 0);
        proof {
            self.lemma_limbs_are_abs();
            other.lemma_limbs_are_abs();
        }
        let r = Integer::from_magnitude(v);
        r
    }

    /// The bitwise OR of the two magnitudes; the result is non-negative.
    pub fn bit_or(&self, other: &Integer) -> (r: Integer)
        ensures
            r.wf(),
            r@ >= 0,
            forall|k: nat| #[trigger]
                nat_bit(int_abs(r@), k) == (nat_bit(int_abs(self@), k) || nat_bit(
                    int_abs(other@),
                    k,
                )),
    {
        let v = bitop_limbs(&self.magnitude_ref(), &other.magnitude_ref(), 1);
        proof {
            self.lemma_limbs_are_abs();
            other.lemma_limbs_are_abs();
        }
        let r = Integer::from_magnitude(v);
        r
    }

    /// The bitwise XOR of the two magnitudes; the result is non-negative.
    pub fn bit_xor(&self, other: &Integer) -> (r: Integer)
        ensures
            r.wf(),
            r@ >= 0,
            forall|k: nat| #[trigger]
                nat_bit(int_abs(r@), k) == (nat_bit(int_abs(self@), k) != nat_bit(
                    int_abs(other@),
                    k,
                )),
    {
        let v = bitop_limbs(&self.magnitude_ref(), &other.magnitude_ref(), 2);
        proof {
            self.lemma_limbs_are_abs();
            other.lemma_limbs_are_abs();
        }
        let r = Integer::from_magnitude(v);
        r
    }

    /// `-self - 1`: the complement of the value.
    pub fn complement(&self) -> (r: Integer)
        ensures
            r.wf(),
            r@ == -self@ - 1,
    {
        self.negated().sub(&Integer::one())
    }
}

/// The requested bitwise operation of two limbs: AND, OR or XOR.
spec fn limb_op(op: u8, x: u64, y: u64) -> u64 {
    if op == 0 {
        x & y
    } else if op == 1 {
        x | y
    } else {
        x ^ y
    }
}

/// The requested operation on a pair of bits, as booleans.
spec fn bool_op(op: u8, x: bool, y: bool) -> bool {
    if op == 0 {
        x && y
    } else if op == 1 {
        x || y
    } else {
        x != y
    }
}

/// Applies AND, OR or XOR limb by limb, padding the shorter operand with
/// zero limbs; the result holds the operation of the operands' bits.
fn bitop_limbs(a: &Vec<u64>, b: &Vec<u64>, op: u8) -> (r: Vec<u64>)
    requires
        op < 3,
    ensures
        canonical(r@),
        forall|k: nat| #[trigger]
            nat_bit(mag_val(r@), k) == bool_op(
                op,
                nat_bit(mag_val(a@), k),
                nat_bit(mag_val(b@), k),
            ),
{
    let n = if a.len() >= b.len() {
        a.len()
    } else {
        b.len()
    };
    let mut r: Vec<u64> = Vec::new();
    let mut i: usize = 0;
    while i < n
        invariant
            i <= n,
            a@.len() <= n,
            b@.len() <= n,
            op < 3,
            r@.len() == i,
            forall|j: int| 0 <= j < i ==> r@[j] == limb_op(op, limb_at(a@, j), limb_at(b@, j)),
        decreases n - i,
    {
        let x = if i < a.len() {
            a[i]
        } else {
            0
        };
        let y = if i < b.len() {
            b[i]
        } else {
            0
        };
        let z = if op == 0 {
            x & y
        } else if op == 1 {
            x | y
        } else {
            x ^ y
        };
        r.push(z);
        i = i + 1;
    }
    let ghost raw = r@;
    mag_trim(&mut r);
    proof {
        assert forall|k: nat| #[trigger]
            nat_bit(mag_val(r@), k) == bool_op(
                op,
                nat_bit(mag_val(a@), k),
                nat_bit(mag_val(b@), k),
            ) by {
            lemma_fundamental_div_mod(k as int, 64);
            let w = (k as int) / 64;
            let bb = (k as int) % 64;
            lemma_limb_bit(raw, w, bb);
            lemma_limb_bit(a@, w, bb);
            lemma_limb_bit(b@, w, bb);
            if w < raw.len() {
                let x = limb_at(a@, w);
                let y = limb_at(b@, w);
                let z = raw[w];
                lemma_u64_bit(x, bb as u64);
                lemma_u64_bit(y, bb as u64);
                lemma_u64_bit(z, bb as u64);
                let bu = bb as u64;
                if w >= a@.len() {
                    assert(x == 0u64);
                    assert((x >> bu) & 1 == 0) by (bit_vector)
                        requires
                            x == 0u64,
                    ;
                }
                if w >= b@.len() {
                    assert(y == 0u64);
                    assert((y >> bu) & 1 == 0) by (bit_vector)
                        requires
                            y == 0u64,
                    ;
                }
                if op == 0 {
                    assert(z == x & y);
                    assert((((x & y) >> bu) & 1 == 1) <==> ((x >> bu) & 1 == 1 && (y >> bu) & 1
                        == 1)) by (bit_vector);
                } else if op == 1 {
                    assert(z == x | y);
                    assert((((x | y) >> bu) & 1 == 1) <==> ((x >> bu) & 1 == 1 || (y >> bu) & 1
                        == 1)) by (bit_vector);
                } else {
                    assert(z == x ^ y);
                    assert((((x ^ y) >> bu) & 1 == 1) <==> (((x >> bu) & 1 == 1) != ((y >> bu) & 1
                        == 1))) by (bit_vector);
                }
            }
        }
    }
    r
}

} // verus!
