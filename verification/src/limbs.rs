//! The limb-level magnitude engine.
//!
//! A magnitude is a non-negative multi-precision value stored as a `Vec<u64>`
//! of limbs, least-significant limb first. The spec function [`mag_val`] maps
//! a limb sequence to the natural number it denotes; [`canonical`] says the
//! sequence carries no redundant most-significant zero limb, which makes the
//! representation of each value unique. All signed arithmetic in the crate is
//! built from the canonical-magnitude primitives of this module.

use vstd::prelude::*;
use vstd::arithmetic::power2::pow2;
use vstd::arithmetic::power2::lemma_pow2_adds;
use vstd::arithmetic::power2::lemma_pow2_pos;
use vstd::arithmetic::power2::lemma2_to64;
use vstd::arithmetic::mul::lemma_mul_inequality;

verus! {

/// The limb at position `i`, reading positions past the end as zero.
pub open spec fn limb_at(s: Seq<u64>, i: int) -> u64 {
    if 0 <= i && i < s.len() {
        s[i]
    } else {
        0u64
    }
}

/// The value of the first `i` limbs of `s`: the sum of
/// `limb_at(s, j) * 2^(64*j)` over `0 <= j < i`.
pub open spec fn prefix_val(s: Seq<u64>, i: int) -> nat
    decreases i,
{
    if i <= 0 {
        0
    } else {
        prefix_val(s, i - 1) + (limb_at(s, i - 1) as nat) * pow2((64 * (i - 1)) as nat)
    }
}

/// The non-negative value denoted by a little-endian limb sequence.
pub open spec fn mag_val(s: Seq<u64>) -> nat {
    prefix_val(s, s.len() as int)
}

/// No redundant most-significant zero limb: the representation of each
/// value is unique among canonical sequences.
pub open spec fn canonical(s: Seq<u64>) -> bool {
    s.len() == 0 || s[s.len() - 1] != 0
}

/// `prefix_val` only looks at the limbs below `i`.
pub proof fn lemma_prefix_val_congruent(s: Seq<u64>, t: Seq<u64>, i: int)
    requires
        forall|j: int| 0 <= j < i ==> limb_at(s, j) == limb_at(t, j),
    ensures
        prefix_val(s, i) == prefix_val(t, i),
    decreases i,
{
    if i > 0 {
        lemma_prefix_val_congruent(s, t, i - 1);
    }
}

/// Beyond the end of the sequence the prefix value stops growing.
pub proof fn lemma_prefix_val_beyond(s: Seq<u64>, i: int)
    requires
        i >= s.len(),
    ensures
        prefix_val(s, i) == mag_val(s),
    decreases i,
{
    if i > s.len() {
        lemma_prefix_val_beyond(s, i - 1);
        assert(limb_at(s, i - 1) == 0);
        assert(prefix_val(s, i) == prefix_val(s, i - 1) + (limb_at(s, i - 1) as nat) * pow2(
            (64 * (i - 1)) as nat,
        ));
    } else {
        assert(i == s.len() as int);
        assert(prefix_val(s, i) == mag_val(s));
    }
}

/// The first `i` limbs denote a value below `2^(64*i)`.
pub proof fn lemma_prefix_val_bound(s: Seq<u64>, i: int)
    requires
        i >= 0,
    ensures
        prefix_val(s, i) < pow2((64 * i) as nat),
    decreases i,
{
    if i == 0 {
        lemma_pow2_pos(0);
    } else {
        lemma_prefix_val_bound(s, i - 1);
        let p = pow2((64 * (i - 1)) as nat);
        let l = limb_at(s, i - 1) as nat;
        lemma_mul_inequality(l as int, 0xFFFFFFFFFFFFFFFF as int, p as int);
        assert(p + (0xFFFFFFFFFFFFFFFF as nat) * p == (0x10000000000000000 as nat) * p)
            by (nonlinear_arith);
        lemma2_to64();
        lemma_pow2_adds(64, (64 * (i - 1)) as nat);
        assert(pow2((64 * i) as nat) == pow2(64) * p);
    }
}

/// The value of a whole sequence is below `2^(64*len)`.
pub proof fn lemma_mag_val_bound(s: Seq<u64>)
    ensures
        mag_val(s) < pow2((64 * s.len()) as nat),
{
    lemma_prefix_val_bound(s, s.len() as int);
}

/// A canonical non-empty sequence denotes at least `2^(64*(len-1))`:
/// its top limb contributes at least one unit in its position.
pub proof fn lemma_mag_val_lower(s: Seq<u64>)
    requires
        canonical(s),
        s.len() > 0,
    ensures
        mag_val(s) >= pow2((64 * (s.len() - 1)) as nat),
{
    let i = s.len() as int;
    let p = pow2((64 * (i - 1)) as nat);
    assert(mag_val(s) == prefix_val(s, i - 1) + (s[i - 1] as nat) * p);
    lemma_mul_inequality(1, s[i - 1] as int, p as int);
}

/// Appending a limb adds its value in the next position.
pub proof fn lemma_mag_val_push(s: Seq<u64>, x: u64)
    ensures
        mag_val(s.push(x)) == mag_val(s) + (x as nat) * pow2((64 * s.len()) as nat),
{
    let t = s.push(x);
    assert(prefix_val(t, t.len() as int) == prefix_val(t, s.len() as int) + (x as nat) * pow2(
        (64 * s.len()) as nat,
    ));
    lemma_prefix_val_congruent(t, s, s.len() as int);
}

/// The first limb alone denotes itself.
pub proof fn lemma_prefix_val_one(s: Seq<u64>)
    ensures
        prefix_val(s, 1) == limb_at(s, 0),
{
    lemma2_to64();
    assert(prefix_val(s, 0) == 0);
    assert(prefix_val(s, 1) == prefix_val(s, 0) + (limb_at(s, 0) as nat) * pow2(
        (64 * 0) as nat,
    ));
    assert((limb_at(s, 0) as nat) * pow2(0) == limb_at(s, 0)) by (nonlinear_arith)
        requires
            pow2(0) == 1,
    ;
}

/// A single-limb sequence denotes its limb.
pub proof fn lemma_mag_val_single(x: u64)
    ensures
        mag_val(Seq::<u64>::empty().push(x)) == x,
{
    let s = Seq::<u64>::empty().push(x);
    lemma_prefix_val_one(s);
}

/// A sequence of zero limbs denotes zero.
pub proof fn lemma_zero_seq_val(s: Seq<u64>, i: int)
    requires
        forall|j: int| 0 <= j < i ==> limb_at(s, j) == 0,
    ensures
        prefix_val(s, i) == 0,
    decreases i,
{
    if i > 0 {
        lemma_zero_seq_val(s, i - 1);
    }
}

/// Overwriting the limb at `k` changes the value by the weighted difference.
pub proof fn lemma_mag_val_update(s: Seq<u64>, k: int, x: u64)
    requires
        0 <= k < s.len(),
    ensures
        mag_val(s.update(k, x)) == mag_val(s) + (x as nat) * pow2((64 * k) as nat) - (s[k] as nat)
            * pow2((64 * k) as nat),
{
    let t = s.update(k, x);
    lemma_update_prefix(s, k, x, s.len() as int);
}

proof fn lemma_update_prefix(s: Seq<u64>, k: int, x: u64, i: int)
    requires
        0 <= k < s.len(),
        k < i,
    ensures
        prefix_val(s.update(k, x), i) == prefix_val(s, i) + (x as nat) * pow2((64 * k) as nat) - (
        s[k] as nat) * pow2((64 * k) as nat),
    decreases i,
{
    let t = s.update(k, x);
    if i - 1 == k {
        lemma_prefix_val_congruent(t, s, k);
    } else {
        lemma_update_prefix(s, k, x, i - 1);
    }
}

/// Splits a 128-bit value into its high and low 64-bit halves.
pub proof fn lemma_u128_parts(x: u128)
    ensures
        x == ((x >> 64) as nat) * 0x10000000000000000 + ((x as u64) as nat),
        (x as u64) as nat == (x as nat) % 0x10000000000000000,
        (x >> 64) as nat == (x as nat) / 0x10000000000000000,
{
    assert(x == ((x >> 64) * 0x10000000000000000u128) + ((x as u64) as u128)) by (bit_vector);
    assert((x as u64) as u128 == x % 0x10000000000000000u128) by (bit_vector);
    assert(x >> 64 == x / 0x10000000000000000u128) by (bit_vector);
}

/// A longer prefix never denotes a smaller value.
pub proof fn lemma_prefix_val_monotone(s: Seq<u64>, i: int, m: int)
    requires
        i <= m,
    ensures
        prefix_val(s, i) <= prefix_val(s, m),
    decreases m - i,
{
    if i < m {
        lemma_prefix_val_monotone(s, i, m - 1);
    }
}

/// A sequence with a non-zero limb denotes a positive value.
pub proof fn lemma_nonzero_limb(s: Seq<u64>, k: int)
    requires
        0 <= k < s.len(),
        s[k] != 0,
    ensures
        mag_val(s) > 0,
{
    let p = pow2((64 * k) as nat);
    lemma_pow2_pos((64 * k) as nat);
    lemma_mul_inequality(1, s[k] as int, p as int);
    assert(prefix_val(s, k + 1) == prefix_val(s, k) + (limb_at(s, k) as nat) * p);
    lemma_prefix_val_monotone(s, k + 1, s.len() as int);
}

/// True exactly when the limbs denote zero, canonical or not.
pub fn mag_is_zero(v: &Vec<u64>) -> (r: bool)
    ensures
        r == (mag_val(v@) == 0),
{
    let n = v.len();
    let mut i: usize = 0;
    while i < n
        invariant
            i <= n,
            n == v@.len(),
            forall|j: int| 0 <= j < i ==> limb_at(v@, j) == 0,
        decreases n - i,
    {
        if v[i] != 0 {
            proof {
                lemma_nonzero_limb(v@, i as int);
            }
            return false;
        }
        i = i + 1;
    }
    proof {
        lemma_zero_seq_val(v@, n as int);
    }
    true
}

/// An element-by-element copy of a limb vector.
pub fn mag_copy(v: &Vec<u64>) -> (r: Vec<u64>)
    ensures
        r@ == v@,
{
    let n = v.len();
    let mut r: Vec<u64> = Vec::new();
    let mut i: usize = 0;
    while i < n
        invariant
            i <= n,
            n == v@.len(),
            r@ =~= v@.subrange(0, i as int),
        decreases n - i,
    {
        r.push(v[i]);
        i = i + 1;
    }
    proof {
        assert(r@ =~= v@);
    }
    r
}

/// Drops most-significant zero limbs: the canonical form of the same value.
pub fn mag_trim(v: &mut Vec<u64>)
    ensures
        final(v)@.len() <= old(v)@.len(),
        mag_val(final(v)@) == mag_val(old(v)@),
        canonical(final(v)@),
{
    loop
        invariant
            v@.len() <= old(v)@.len(),
            mag_val(v@) == mag_val(old(v)@),
        ensures
            mag_val(v@) == mag_val(old(v)@),
            canonical(v@),
        decreases v@.len(),
    {
        let n = v.len();
        if n == 0 {
            break ;
        }
        let last = v[n - 1];
        if last != 0 {
            break ;
        }
        let ghost pre = v@;
        v.pop();
        proof {
            assert(v@ =~= pre.subrange(0, pre.len() - 1));
            let l = limb_at(pre, pre.len() as int - 1);
            let p = pow2((64 * (pre.len() as int - 1)) as nat);
            assert(prefix_val(pre, pre.len() as int) == prefix_val(pre, pre.len() as int - 1) + (
            l as nat) * p);
            assert(l == 0);
            assert((l as nat) * p == 0) by (nonlinear_arith)
                requires l == 0,
            ;
            lemma_prefix_val_congruent(pre, v@, v@.len() as int);
        }
    }
}

/// Compares two magnitudes, canonical or not; the result is the sign of
/// `mag_val(a) - mag_val(b)`.
pub fn mag_cmp(a: &Vec<u64>, b: &Vec<u64>) -> (r: i8)
    ensures
        r == 1i8 ==> mag_val(a@) > mag_val(b@),
        r == 0i8 ==> mag_val(a@) == mag_val(b@),
        r == -1i8 ==> mag_val(a@) < mag_val(b@),
        r == 1i8 || r == 0i8 || r == -1i8,
{
    let n = if a.len() >= b.len() {
        a.len()
    } else {
        b.len()
    };
    proof {
        lemma_prefix_val_beyond(a@, n as int);
        lemma_prefix_val_beyond(b@, n as int);
    }
    let mut i: usize = n;
    while i > 0
        invariant
            i <= n,
            a@.len() <= n,
            b@.len() <= n,
            forall|j: int| i <= j < n ==> limb_at(a@, j) == limb_at(b@, j),
        decreases i,
    {
        let ai = if i - 1 < a.len() {
            a[i - 1]
        } else {
            0
        };
        let bi = if i - 1 < b.len() {
            b[i - 1]
        } else {
            0
        };
        if ai > bi {
            proof {
                lemma_cmp_decided(a@, b@, i - 1, n as int);
            }
            return 1i8;
        }
        if ai < bi {
            proof {
                lemma_cmp_decided(b@, a@, i - 1, n as int);
            }
            return -1i8;
        }
        i = i - 1;
    }
    proof {
        lemma_prefix_val_congruent(a@, b@, n as int);
    }
    0i8
}

/// If two sequences agree above position `k` (up to a common padded width
/// `m`) and `a` wins at `k`, then `a` denotes the larger value.
proof fn lemma_cmp_decided(a: Seq<u64>, b: Seq<u64>, k: int, m: int)
    requires
        0 <= k < m,
        a.len() <= m,
        b.len() <= m,
        forall|j: int| k < j < m ==> limb_at(a, j) == limb_at(b, j),
        limb_at(a, k) > limb_at(b, k),
    ensures
        mag_val(a) > mag_val(b),
{
    let p = pow2((64 * k) as nat);
    lemma_prefix_val_bound(b, k);
    lemma_prefix_val_bound(a, k);
    let la = limb_at(a, k);
    let lb = limb_at(b, k);
    assert(prefix_val(a, k + 1) == prefix_val(a, k) + (la as nat) * p);
    assert(prefix_val(b, k + 1) == prefix_val(b, k) + (lb as nat) * p);
    lemma_mul_inequality((lb + 1) as int, la as int, p as int);
    assert((lb + 1) as nat * p == (lb as nat) * p + p) by (nonlinear_arith);
    lemma_prefix_gt_step(a, b, k + 1, m);
    lemma_prefix_val_beyond(a, m);
    lemma_prefix_val_beyond(b, m);
}

/// Adds two magnitudes limb by limb, propagating the carry.
pub fn mag_add(a: &Vec<u64>, b: &Vec<u64>) -> (r: Vec<u64>)
    ensures
        mag_val(r@) == mag_val(a@) + mag_val(b@),
        canonical(r@),
{
    let n = if a.len() >= b.len() {
        a.len()
    } else {
        b.len()
    };
    let mut r: Vec<u64> = Vec::new();
    let mut carry: u64 = 0;
    let mut i: usize = 0;
    while i < n
        invariant
            i <= n,
            carry <= 1,
            a@.len() <= n,
            b@.len() <= n,
            n == a@.len() || n == b@.len(),
            r@.len() == i,
            mag_val(r@) + (carry as nat) * pow2((64 * i) as nat) == prefix_val(a@, i as int)
                + prefix_val(b@, i as int),
        decreases n - i,
    {
        let ai = if i < a.len() {
            a[i]
        } else {
            0
        };
        let bi = if i < b.len() {
            b[i]
        } else {
            0
        };
        let t: u128 = ai as u128 + bi as u128 + carry as u128;
        let lo: u64 = #[verifier::truncate] (t as u64);
        let hi: u64 = (t >> 64) as u64;
        proof {
            lemma_u128_parts(t);
            assert(t >> 64 <= 1) by (bit_vector)
                requires
                    t <= 0x1FFFFFFFFFFFFFFFFu128,
            ;
            let rv = mag_val(r@);
            let p = pow2((64 * i) as nat);
            let p1 = pow2((64 * (i + 1)) as nat);
            let av = prefix_val(a@, i as int);
            let bv = prefix_val(b@, i as int);
            let av1 = prefix_val(a@, i + 1);
            let bv1 = prefix_val(b@, i + 1);
            lemma_pow2_adds(64, (64 * i) as nat);
            lemma2_to64();
            lemma_mag_val_push(r@, lo);
            assert(av1 == av + (limb_at(a@, i as int) as nat) * p);
            assert(bv1 == bv + (limb_at(b@, i as int) as nat) * p);
            assert(rv + (lo as nat) * p + (hi as nat) * p1 == av1 + bv1) by (nonlinear_arith)
                requires
                    rv + (carry as nat) * p == av + bv,
                    t == ai as nat + bi as nat + carry as nat,
                    (lo as nat) + (hi as nat) * 0x10000000000000000 == t,
                    p1 == 0x10000000000000000 * p,
                    av1 == av + (ai as nat) * p,
                    bv1 == bv + (bi as nat) * p,
            ;
        }
        r.push(lo);
        carry = hi;
        i = i + 1;
    }
    proof {
        lemma_prefix_val_beyond(a@, n as int);
        lemma_prefix_val_beyond(b@, n as int);
    }
    if carry == 1 {
        proof {
            lemma_mag_val_push(r@, 1u64);
        }
        r.push(1);
    }
    mag_trim(&mut r);
    r
}

/// Subtracts the smaller magnitude from the larger, propagating the borrow.
pub fn mag_sub(a0: &Vec<u64>, b0: &Vec<u64>) -> (r: Vec<u64>)
    requires
        mag_val(b0@) <= mag_val(a0@),
    ensures
        mag_val(r@) == mag_val(a0@) - mag_val(b0@),
        canonical(r@),
{
    let mut a = mag_copy(a0);
    mag_trim(&mut a);
    let mut b = mag_copy(b0);
    mag_trim(&mut b);
    proof {
        if b@.len() > a@.len() {
            lemma_mag_val_lower(b@);
            lemma_mag_val_bound(a@);
            if 64 * a@.len() < 64 * (b@.len() - 1) {
                vstd::arithmetic::power2::lemma_pow2_strictly_increases(
                    (64 * a@.len()) as nat,
                    (64 * (b@.len() - 1)) as nat,
                );
            }
        }
    }
    let n = a.len();
    let mut r: Vec<u64> = Vec::new();
    let mut borrow: u64 = 0;
    let mut i: usize = 0;
    while i < n
        invariant
            i <= n,
            borrow <= 1,
            n == a@.len(),
            b@.len() <= n,
            r@.len() == i,
            mag_val(r@) as int == prefix_val(a@, i as int) - prefix_val(b@, i as int) + (
            borrow as int) * pow2((64 * i) as nat),
        decreases n - i,
    {
        let ai = a[i];
        let bi = if i < b.len() {
            b[i]
        } else {
            0
        };
        let t: u128 = 0x10000000000000000u128 + ai as u128 - bi as u128 - borrow as u128;
        let lo: u64 = #[verifier::truncate] (t as u64);
        let hi: u64 = (t >> 64) as u64;
        let nb: u64 = if hi == 0 {
            1
        } else {
            0
        };
        proof {
            lemma_u128_parts(t);
            assert(t >> 64 <= 1) by (bit_vector)
                requires
                    t <= 0x1FFFFFFFFFFFFFFFFu128,
            ;
            let rv = mag_val(r@);
            let p = pow2((64 * i) as nat);
            let p1 = pow2((64 * (i + 1)) as nat);
            let av = prefix_val(a@, i as int);
            let bv = prefix_val(b@, i as int);
            let av1 = prefix_val(a@, i + 1);
            let bv1 = prefix_val(b@, i + 1);
            lemma_pow2_adds(64, (64 * i) as nat);
            lemma2_to64();
            lemma_mag_val_push(r@, lo);
            assert(av1 == av + (limb_at(a@, i as int) as nat) * p);
            assert(bv1 == bv + (limb_at(b@, i as int) as nat) * p);
            assert(rv + (lo as nat) * p == av1 - bv1 + (nb as nat) * p1) by (nonlinear_arith)
                requires
                    rv as int == av - bv + (borrow as int) * p,
                    t == 0x10000000000000000 + ai as int - bi as int - borrow as int,
                    (lo as nat) + (hi as nat) * 0x10000000000000000 == t,
                    nb == 1 - hi,
                    hi <= 1,
                    p1 == 0x10000000000000000 * p,
                    av1 == av + (ai as nat) * p,
                    bv1 == bv + (bi as nat) * p,
            ;
        }
        r.push(lo);
        borrow = nb;
        i = i + 1;
    }
    proof {
        lemma_prefix_val_beyond(a@, n as int);
        lemma_prefix_val_beyond(b@, n as int);
        if borrow == 1 {
            lemma_mag_val_bound(r@);
            lemma_prefix_val_bound(a@, n as int);
        }
    }
    mag_trim(&mut r);
    r
}

/// Schoolbook multiplication: accumulates `a * b[j]` at position `j` for
/// each limb of `b`.
pub fn mag_mul(a: &Vec<u64>, b: &Vec<u64>) -> (r: Vec<u64>)
    ensures
        mag_val(r@) == mag_val(a@) * mag_val(b@),
        canonical(r@),
{
    let n = a.len();
    let m = b.len();
    let mut r: Vec<u64> = Vec::new();
    let mut k: usize = 0;
    while k < n
        invariant
            k <= n,
            r@.len() == k,
            forall|q: int| 0 <= q < k ==> r@[q] == 0,
        decreases n - k,
    {
        r.push(0);
        k = k + 1;
    }
    let mut k2: usize = 0;
    while k2 < m
        invariant
            k2 <= m,
            r@.len() == n + k2,
            forall|q: int| 0 <= q < n + k2 ==> r@[q] == 0,
        decreases m - k2,
    {
        r.push(0);
        k2 = k2 + 1;
    }
    let total = r.len();
    proof {
        lemma_zero_seq_val(r@, r@.len() as int);
    }
    proof {
        assert(mag_val(a@) * prefix_val(b@, 0) == 0) by (nonlinear_arith)
            requires
                prefix_val(b@, 0) == 0,
        ;
    }
    let mut j: usize = 0;
    while j < m
        invariant
            j <= m,
            total == n + m,
            n == a@.len(),
            m == b@.len(),
            r@.len() == total,
            forall|q: int| n + j <= q < total ==> r@[q] == 0,
            mag_val(r@) == mag_val(a@) * prefix_val(b@, j as int),
        decreases m - j,
    {
        let bj = b[j];
        let ghost v0 = mag_val(r@);
        proof {
            assert(prefix_val(a@, 0) * ((bj as nat) * pow2((64 * j) as nat)) == 0)
                by (nonlinear_arith)
                requires
                    prefix_val(a@, 0) == 0,
            ;
        }
        let mut carry: u64 = 0;
        let mut i: usize = 0;
        while i < n
            invariant
                i <= n,
                j < m,
                total == n + m,
                n == a@.len(),
                m == b@.len(),
                r@.len() == total,
                bj == b@[j as int],
                forall|q: int| n + j <= q < total ==> r@[q] == 0,
                mag_val(r@) + (carry as nat) * pow2((64 * (i + j)) as nat) == v0 + prefix_val(
                    a@,
                    i as int,
                ) * ((bj as nat) * pow2((64 * j) as nat)),
            decreases n - i,
        {
            let ai = a[i];
            proof {
                assert((ai as u128) * (bj as u128) <= 0xFFFFFFFFFFFFFFFE0000000000000001u128)
                    by (bit_vector)
                    requires
                        ai <= 0xFFFFFFFFFFFFFFFFu64,
                        bj <= 0xFFFFFFFFFFFFFFFFu64,
                ;
            }
            let idx = i + j;
            let rij = r[idx];
            let t: u128 = (ai as u128) * (bj as u128) + rij as u128 + carry as u128;
            let lo: u64 = #[verifier::truncate] (t as u64);
            let hi: u64 = (t >> 64) as u64;
            proof {
                lemma_u128_parts(t);
                let rv = mag_val(r@);
                let p = pow2((64 * (i + j)) as nat);
                let p1 = pow2((64 * (i + j + 1)) as nat);
                let pi = pow2((64 * i) as nat);
                let q = pow2((64 * j) as nat);
                let x = (bj as nat) * q;
                let y = (ai as nat) * (bj as nat);
                let av = prefix_val(a@, i as int);
                let av1 = prefix_val(a@, i + 1);
                lemma_pow2_adds(64, (64 * (i + j)) as nat);
                lemma_pow2_adds((64 * i) as nat, (64 * j) as nat);
                lemma2_to64();
                lemma_mag_val_update(r@, idx as int, lo);
                assert(av1 == av + (limb_at(a@, i as int) as nat) * pi);
                let rv2 = mag_val(r@.update(idx as int, lo));
                assert(av1 * x == av * x + y * p) by (nonlinear_arith)
                    requires
                        av1 == av + (ai as nat) * pi,
                        x == (bj as nat) * q,
                        y == (ai as nat) * (bj as nat),
                        p == pi * q,
                ;
                assert(rv2 + (hi as nat) * p1 == v0 + av * x + y * p) by (nonlinear_arith)
                    requires
                        rv + (carry as nat) * p == v0 + av * x,
                        t == y + rij as nat + carry as nat,
                        (lo as nat) + (hi as nat) * 0x10000000000000000 == t,
                        rv2 == rv + (lo as nat) * p - (rij as nat) * p,
                        p1 == 0x10000000000000000 * p,
                ;
            }
            r[idx] = lo;
            carry = hi;
            i = i + 1;
        }
        let idx2 = n + j;
        proof {
            let rv = mag_val(r@);
            let p = pow2((64 * (n + j)) as nat);
            lemma_mag_val_update(r@, idx2 as int, carry);
            assert(r@[idx2 as int] == 0);
            lemma_prefix_val_beyond(a@, n as int);
            let q = pow2((64 * j) as nat);
            let bv = prefix_val(b@, j as int);
            let bv1 = prefix_val(b@, j + 1);
            assert(bv1 == bv + (limb_at(b@, j as int) as nat) * q);
            let rv2 = mag_val(r@.update(idx2 as int, carry));
            assert(rv2 == mag_val(a@) * bv1) by (nonlinear_arith)
                requires
                    rv + (carry as nat) * p == v0 + mag_val(a@) * ((bj as nat) * q),
                    v0 == mag_val(a@) * bv,
                    rv2 == rv + (carry as nat) * p,
                    bv1 == bv + (bj as nat) * q,
            ;
        }
        r[idx2] = carry;
        j = j + 1;
    }
    proof {
        lemma_prefix_val_beyond(b@, m as int);
    }
    mag_trim(&mut r);
    r
}

/// The value of the limbs of `s` at and above position `i`, in units of
/// `2^(64*i)`.
pub open spec fn suffix_val(s: Seq<u64>, i: int) -> nat
    decreases s.len() - i,
{
    if i < 0 || i >= s.len() {
        0
    } else {
        (s[i] as nat) + 0x10000000000000000 * suffix_val(s, i + 1)
    }
}

/// A sequence splits at any position into its prefix plus its weighted
/// suffix.
pub proof fn lemma_suffix_val_split(s: Seq<u64>, i: int)
    requires
        0 <= i <= s.len(),
    ensures
        mag_val(s) == prefix_val(s, i) + suffix_val(s, i) * pow2((64 * i) as nat),
    decreases s.len() - i,
{
    let p = pow2((64 * i) as nat);
    if i == s.len() {
        lemma_prefix_val_beyond(s, i);
        assert(suffix_val(s, i) * p == 0) by (nonlinear_arith)
            requires
                suffix_val(s, i) == 0,
        ;
    } else {
        lemma_suffix_val_split(s, i + 1);
        let p1 = pow2((64 * (i + 1)) as nat);
        lemma_pow2_adds(64, (64 * i) as nat);
        lemma2_to64();
        assert(prefix_val(s, i + 1) == prefix_val(s, i) + (limb_at(s, i) as nat) * p);
        assert((((s[i] as nat) + 0x10000000000000000 * suffix_val(s, i + 1))) * p == (s[i] as nat)
            * p + suffix_val(s, i + 1) * p1) by (nonlinear_arith)
            requires
                p1 == 0x10000000000000000 * p,
        ;
    }
}

/// `suffix_val` only looks at the limbs at and above `i`.
pub proof fn lemma_suffix_val_congruent(s: Seq<u64>, t: Seq<u64>, i: int)
    requires
        s.len() == t.len(),
        forall|j: int| i <= j < s.len() ==> s[j] == t[j],
    ensures
        suffix_val(s, i) == suffix_val(t, i),
    decreases s.len() - i,
{
    if 0 <= i && i < s.len() {
        lemma_suffix_val_congruent(s, t, i + 1);
    }
}

/// Equal prefix values force equal limbs: the positional representation
/// is injective.
pub proof fn lemma_prefix_val_injective(s: Seq<u64>, t: Seq<u64>, i: int)
    requires
        prefix_val(s, i) == prefix_val(t, i),
    ensures
        forall|j: int| 0 <= j < i ==> limb_at(s, j) == limb_at(t, j),
    decreases i,
{
    if i > 0 {
        let p = pow2((64 * (i - 1)) as nat);
        lemma_pow2_pos((64 * (i - 1)) as nat);
        lemma_prefix_val_bound(s, i - 1);
        lemma_prefix_val_bound(t, i - 1);
        let ls = limb_at(s, i - 1);
        let lt = limb_at(t, i - 1);
        vstd::arithmetic::div_mod::lemma_fundamental_div_mod_converse(
            prefix_val(s, i) as int,
            p as int,
            ls as int,
            prefix_val(s, i - 1) as int,
        );
        vstd::arithmetic::div_mod::lemma_fundamental_div_mod_converse(
            prefix_val(t, i) as int,
            p as int,
            lt as int,
            prefix_val(t, i - 1) as int,
        );
        lemma_prefix_val_injective(s, t, i - 1);
    }
}

/// Canonical magnitudes are unique: equal values have equal limbs.
pub proof fn lemma_canonical_unique(s: Seq<u64>, t: Seq<u64>)
    requires
        canonical(s),
        canonical(t),
        mag_val(s) == mag_val(t),
    ensures
        s == t,
{
    let m = if s.len() >= t.len() {
        s.len() as int
    } else {
        t.len() as int
    };
    lemma_prefix_val_beyond(s, m);
    lemma_prefix_val_beyond(t, m);
    lemma_prefix_val_injective(s, t, m);
    if s.len() < t.len() {
        assert(limb_at(s, t.len() - 1) == limb_at(t, t.len() - 1));
        assert(false);
    }
    if t.len() < s.len() {
        assert(limb_at(s, s.len() - 1) == limb_at(t, s.len() - 1));
        assert(false);
    }
    assert forall|j: int| 0 <= j < s.len() implies s[j] == t[j] by {
        assert(limb_at(s, j) == limb_at(t, j));
    }
    assert(s =~= t);
}

/// Appending a zero limb does not change the value.
pub proof fn lemma_mag_val_push_zero(s: Seq<u64>)
    ensures
        mag_val(s.push(0u64)) == mag_val(s),
{
    lemma_mag_val_push(s, 0u64);
    assert((0u64 as nat) * pow2((64 * s.len()) as nat) == 0) by (nonlinear_arith);
}

/// A suffix of a sequence equals the same suffix of the sequence shifted
/// `off` positions up inside a longer one.
pub proof fn lemma_suffix_shifted(t: Seq<u64>, s: Seq<u64>, off: int, i: int)
    requires
        0 <= off,
        0 <= i <= s.len(),
        t.len() == off + s.len(),
        forall|k: int| 0 <= k < s.len() ==> t[off + k] == s[k],
    ensures
        suffix_val(t, off + i) == suffix_val(s, i),
    decreases s.len() - i,
{
    if i < s.len() {
        lemma_suffix_shifted(t, s, off, i + 1);
        assert(t[off + i] == s[i]);
    }
}

/// Truncating division with remainder on magnitudes, one bit of the
/// quotient at a time from the most significant end of the dividend.
pub fn mag_divmod(a: &Vec<u64>, d: &Vec<u64>) -> (qr: (Vec<u64>, Vec<u64>))
    requires
        canonical(a@),
        canonical(d@),
        mag_val(d@) > 0,
    ensures
        mag_val(qr.0@) * mag_val(d@) + mag_val(qr.1@) == mag_val(a@),
        mag_val(qr.1@) < mag_val(d@),
        canonical(qr.0@),
        canonical(qr.1@),
{
    let mut onev: Vec<u64> = Vec::new();
    onev.push(1);
    proof {
        lemma_mag_val_push(Seq::<u64>::empty(), 1u64);
        lemma2_to64();
    }
    let mut q: Vec<u64> = Vec::new();
    let mut r: Vec<u64> = Vec::new();
    let ghost dv = mag_val(d@);
    let ghost mut p: nat = 0;
    let mut w: usize = a.len();
    proof {
        assert(mag_val(q@) * dv == 0) by (nonlinear_arith)
            requires
                mag_val(q@) == 0,
        ;
    }
    while w > 0
        invariant
            w <= a@.len(),
            canonical(a@),
            canonical(d@),
            canonical(q@),
            canonical(r@),
            dv == mag_val(d@),
            dv > 0,
            mag_val(onev@) == 1,
            canonical(onev@),
            p == suffix_val(a@, w as int),
            mag_val(q@) * dv + mag_val(r@) == p,
            mag_val(r@) < dv,
        decreases w,
    {
        let x = a[w - 1];
        let mut b: usize = 64;
        proof {
            lemma2_to64();
            vstd::arithmetic::div_mod::lemma_basic_div(x as int, pow2(64) as int);
            assert(p * pow2(0) == p) by (nonlinear_arith)
                requires
                    pow2(0) == 1,
            ;
        }
        while b > 0
            invariant
                b <= 64,
                1 <= w <= a@.len(),
                x == a@[w - 1],
                canonical(d@),
                canonical(q@),
                canonical(r@),
                dv == mag_val(d@),
                dv > 0,
                mag_val(onev@) == 1,
                canonical(onev@),
                p == suffix_val(a@, w as int) * pow2((64 - b) as nat) + (x as nat) / pow2(
                    b as nat,
                ),
                mag_val(q@) * dv + mag_val(r@) == p,
                mag_val(r@) < dv,
            decreases b,
        {
            let bit: u64 = (x >> (b - 1) as u64) & 1;
            let ghost qv = mag_val(q@);
            let ghost rv = mag_val(r@);
            let ghost pold = p;
            let mut rm = mag_add(&r, &r);
            if bit == 1 {
                rm = mag_add(&rm, &onev);
            }
            let qm = mag_add(&q, &q);
            proof {
                p = 2 * p + (bit as nat);
                // the consumed bits of x gain one more bit at the bottom
                let sh: u64 = (b - 1) as u64;
                vstd::bits::lemma_u64_shr_is_div(x, sh);
                assert(bit == (x >> sh) % 2) by (bit_vector)
                    requires
                        bit == (x >> sh) & 1,
                ;
                vstd::arithmetic::div_mod::lemma_fundamental_div_mod((x >> sh) as int, 2);
                lemma_pow2_adds((sh) as nat, 1);
                lemma2_to64();
                lemma_pow2_pos(sh as nat);
                vstd::arithmetic::div_mod::lemma_div_denominator(
                    x as int,
                    pow2(sh as nat) as int,
                    2,
                );
                assert((x as nat) / pow2(b as nat) == ((x as nat) / pow2(sh as nat)) / 2);
                // p_new == suffix * 2^(64-(b-1)) + x / 2^(b-1)
                let s = suffix_val(a@, w as int);
                lemma_pow2_adds((64 - b) as nat, 1);
                let xb = (x as nat) / pow2(b as nat);
                let xs = (x as nat) / pow2(sh as nat);
                let pb = pow2((64 - b) as nat);
                let ps = pow2((64 - (b - 1)) as nat);
                assert(xs == 2 * xb + (bit as nat));
                assert(ps == pb * 2);
                assert(2 * (s * pb + xb) + (bit as nat) == s * ps + xs) by (nonlinear_arith)
                    requires
                        ps == pb * 2,
                        xs == 2 * xb + (bit as nat),
                ;
            }
            let c = mag_cmp(&rm, d);
            if c >= 0 {
                r = mag_sub(&rm, d);
                q = mag_add(&qm, &onev);
            } else {
                r = rm;
                q = qm;
            }
            proof {
                assert(mag_val(q@) * dv + mag_val(r@) == p) by (nonlinear_arith)
                    requires
                        p == 2 * pold + (bit as nat),
                        qv * dv + rv == pold,
                        bit <= 1,
                        (mag_val(q@) == 2 * qv + 1 && mag_val(r@) + dv == 2 * rv + (bit as nat))
                            || (mag_val(q@) == 2 * qv && mag_val(r@) == 2 * rv + (bit as nat)),
                ;
            }
            b = b - 1;
        }
        proof {
            lemma2_to64();
            assert((x as nat) / pow2(0) == x as nat);
            assert(suffix_val(a@, w - 1) == (x as nat) + 0x10000000000000000 * suffix_val(
                a@,
                w as int,
            ));
            assert(suffix_val(a@, w as int) * pow2(64) == 0x10000000000000000 * suffix_val(
                a@,
                w as int,
            )) by (nonlinear_arith)
                requires
                    pow2(64) == 0x10000000000000000,
            ;
        }
        w = w - 1;
    }
    proof {
        lemma_suffix_val_split(a@, 0);
        assert(suffix_val(a@, 0) * pow2(0) == suffix_val(a@, 0)) by (nonlinear_arith)
            requires
                pow2(0) == 1,
        ;
        lemma2_to64();
    }
    (q, r)
}

/// Division with remainder by a single limb, one limb of the dividend at a
/// time from the most significant end.
pub fn mag_divmod_limb(a: &Vec<u64>, d: u64) -> (qr: (Vec<u64>, u64))
    requires
        d > 0,
        canonical(a@),
    ensures
        mag_val(qr.0@) * (d as nat) + (qr.1 as nat) == mag_val(a@),
        qr.1 < d,
        canonical(qr.0@),
{
    let n = a.len();
    let mut q: Vec<u64> = Vec::new();
    let mut k: usize = 0;
    while k < n
        invariant
            k <= n,
            q@.len() == k,
        decreases n - k,
    {
        q.push(0);
        k = k + 1;
    }
    let mut rem: u64 = 0;
    let mut w: usize = n;
    proof {
        assert(suffix_val(q@, n as int) * (d as nat) == 0) by (nonlinear_arith)
            requires
                suffix_val(q@, n as int) == 0,
        ;
    }
    while w > 0
        invariant
            w <= n,
            n == a@.len(),
            q@.len() == n,
            rem < d,
            d > 0,
            suffix_val(q@, w as int) * (d as nat) + (rem as nat) == suffix_val(a@, w as int),
        decreases w,
    {
        let ai = a[w - 1];
        proof {
            assert((rem as u128) << 64 <= 0xFFFFFFFFFFFFFFFF0000000000000000u128) by (bit_vector)
                requires
                    rem <= 0xFFFFFFFFFFFFFFFFu64,
            ;
        }
        let cur: u128 = ((rem as u128) << 64) + (ai as u128);
        let qi128: u128 = cur / (d as u128);
        let ri128: u128 = cur % (d as u128);
        proof {
            assert((rem as u128) << 64 == (rem as u128) * 0x10000000000000000u128) by (bit_vector);
            // the partial dividend is below d * 2^64, so the quotient digit fits
            assert(cur < (d as int) * 0x10000000000000000) by (nonlinear_arith)
                requires
                    cur == (rem as int) * 0x10000000000000000 + ai,
                    rem < d,
                    ai < 0x10000000000000000,
            ;
            vstd::arithmetic::div_mod::lemma_multiply_divide_lt(
                cur as int,
                d as int,
                0x10000000000000000,
            );
            vstd::arithmetic::div_mod::lemma_fundamental_div_mod(cur as int, d as int);
            vstd::arithmetic::div_mod::lemma_mod_division_less_than_divisor(cur as int, d as int);
        }
        let qi: u64 = qi128 as u64;
        let ghost qpre = q@;
        let ghost remold = rem;
        q[w - 1] = qi;
        rem = ri128 as u64;
        proof {
            lemma_suffix_val_congruent(q@, qpre, w as int);
            let sq = suffix_val(qpre, w as int);
            let sa = suffix_val(a@, w as int);
            assert(qi as nat == qi128 as nat);
            assert(rem as nat == ri128 as nat);
            assert(qi128 as nat == (cur as nat) / (d as nat));
            assert(ri128 as nat == (cur as nat) % (d as nat));
            assert(cur as int == (d as int) * ((cur as int) / (d as int)) + (cur as int) % (
            d as int));
            assert((qi128 as nat) * (d as nat) == (d as nat) * (qi128 as nat)) by (nonlinear_arith);
            assert((qi128 as nat) * (d as nat) + (ri128 as nat) == cur as nat);
            assert(suffix_val(q@, w - 1) == (qi as nat) + 0x10000000000000000 * sq);
            assert(suffix_val(a@, w - 1) == (ai as nat) + 0x10000000000000000 * sa);
            assert(((qi as nat) + 0x10000000000000000 * sq) * (d as nat) + (rem as nat) == (
            ai as nat) + 0x10000000000000000 * sa) by (nonlinear_arith)
                requires
                    sq * (d as nat) + (remold as nat) == sa,
                    cur as nat == (remold as nat) * 0x10000000000000000 + (ai as nat),
                    (qi as nat) * (d as nat) + (rem as nat) == cur as nat,
            ;
        }
        w = w - 1;
    }
    proof {
        lemma_suffix_val_split(q@, 0);
        lemma_suffix_val_split(a@, 0);
        lemma2_to64();
        assert(suffix_val(q@, 0) * pow2(0) == suffix_val(q@, 0) && suffix_val(a@, 0) * pow2(0)
            == suffix_val(a@, 0)) by (nonlinear_arith)
            requires
                pow2(0) == 1,
        ;
    }
    mag_trim(&mut q);
    (q, rem)
}

/// If two sequences agree between positions `i` and `m`, the comparison of
/// their width-`m` prefixes is the comparison of their width-`i` prefixes.
proof fn lemma_prefix_gt_step(a: Seq<u64>, b: Seq<u64>, i: int, m: int)
    requires
        0 <= i <= m,
        forall|j: int| i <= j < m ==> limb_at(a, j) == limb_at(b, j),
        prefix_val(a, i) > prefix_val(b, i),
    ensures
        prefix_val(a, m) > prefix_val(b, m),
    decreases m - i,
{
    if i < m {
        assert(prefix_val(a, i + 1) == prefix_val(a, i) + (limb_at(a, i) as nat) * pow2(
            (64 * i) as nat,
        ));
        assert(prefix_val(b, i + 1) == prefix_val(b, i) + (limb_at(b, i) as nat) * pow2(
            (64 * i) as nat,
        ));
        lemma_prefix_gt_step(a, b, i + 1, m);
    }
}

} // verus!
