//! The laws the library's contracts entail, stated and proved once.
//!
//! Every executable operation's `ensures` pins its result to a spec-level
//! function of the operands' views. The proof functions here state the
//! algebraic laws of those spec functions, so a caller can carry any of
//! them across a chain of verified calls.

use vstd::prelude::*;
use vstd::arithmetic::div_mod::lemma_fundamental_div_mod;
use vstd::arithmetic::div_mod::lemma_mod_division_less_than_divisor;
use vstd::arithmetic::div_mod::lemma_mod_self_0;
use vstd::arithmetic::div_mod::lemma_div_by_self;
use vstd::arithmetic::div_mod::lemma_div_pos_is_pos;
use crate::integer::Integer;
use crate::integer::int_abs;
use crate::integer::tdiv_q_spec;
use crate::integer::tdiv_r_spec;
use crate::rational::Rational;
use crate::rational::rat_norm_num;
use crate::rational::rat_norm_den;
use crate::gcd::gcd_nat;
use crate::gcd::lemma_gcd_reduced;
use crate::text::parse_result;
use crate::text::int_to_string;
use crate::text::nat_to_string;
use crate::text::digits_to_chars;
use crate::text::digits_value;
use crate::text::valid_digit_seq;
use crate::text::nat_digits;
use crate::text::digit_char;
use crate::text::digit_val;
use crate::text::is_digit_char;

verus! {

/// Addition commutes: adding `a` to `b` and `b` to `a` yield one value.
pub proof fn lemma_add_commutative(a: &Integer, b: &Integer)
    requires
        a.wf(),
        b.wf(),
    ensures
        a@ + b@ == b@ + a@,
{
}

/// Addition associates: grouping does not change a sum of three.
pub proof fn lemma_add_associative(a: &Integer, b: &Integer, c: &Integer)
    requires
        a.wf(),
        b.wf(),
        c.wf(),
    ensures
        (a@ + b@) + c@ == a@ + (b@ + c@),
{
}

/// Multiplication distributes over addition.
pub proof fn lemma_mul_distributive(a: &Integer, b: &Integer, c: &Integer)
    requires
        a.wf(),
        b.wf(),
        c.wf(),
    ensures
        a@ * (b@ + c@) == a@ * b@ + a@ * c@,
{
    vstd::arithmetic::mul::lemma_mul_is_distributive_add(a@, b@, c@);
}

/// Subtracting a value from itself leaves zero.
pub proof fn lemma_sub_self(a: &Integer)
    requires
        a.wf(),
    ensures
        a@ - a@ == 0,
{
}

/// The truncating division contract: quotient times divisor plus
/// remainder gives back the dividend, and the remainder is zero or has
/// the dividend's sign and a magnitude below the divisor's.
pub proof fn lemma_tdiv_contract(a: int, b: int)
    requires
        b != 0,
    ensures
        tdiv_q_spec(a, b) * b + tdiv_r_spec(a, b) == a,
        tdiv_r_spec(a, b) == 0 || (a > 0 && tdiv_r_spec(a, b) > 0) || (a < 0 && tdiv_r_spec(a, b)
            < 0),
        int_abs(tdiv_r_spec(a, b)) < int_abs(b),
{
    let aa = int_abs(a) as int;
    let bb = int_abs(b) as int;
    let q0 = aa / bb;
    lemma_fundamental_div_mod(aa, bb);
    lemma_mod_division_less_than_divisor(aa, bb);
    lemma_div_pos_is_pos(aa, bb);
    let m = aa % bb;
    let q = tdiv_q_spec(a, b);
    let r = tdiv_r_spec(a, b);
    if a >= 0 {
        if b >= 0 {
            assert(a - b * q0 == m) by (nonlinear_arith)
                requires
                    a == bb * q0 + m,
                    b == bb,
            ;
        } else {
            assert(a - b * (-q0) == m) by (nonlinear_arith)
                requires
                    a == bb * q0 + m,
                    b == -bb,
            ;
        }
    } else {
        if b >= 0 {
            assert(a - b * (-q0) == -m) by (nonlinear_arith)
                requires
                    -a == bb * q0 + m,
                    b == bb,
            ;
        } else {
            assert(a - b * q0 == -m) by (nonlinear_arith)
                requires
                    -a == bb * q0 + m,
                    b == -bb,
            ;
        }
    }
    assert(q * b + r == a) by (nonlinear_arith)
        requires
            r == a - b * q,
    ;
}

/// A reduced fraction comes out of normalization: the denominator is
/// positive and shares no factor with the numerator.
pub proof fn lemma_rat_norm_reduced(n: int, d: int)
    requires
        d != 0,
    ensures
        rat_norm_den(n, d) > 0,
        gcd_nat(int_abs(rat_norm_num(n, d)), int_abs(rat_norm_den(n, d))) == 1,
{
    let na = int_abs(n);
    let da = int_abs(d);
    lemma_gcd_reduced(na, da);
    let g = gcd_nat(na, da) as int;
    lemma_fundamental_div_mod(da as int, g);
    lemma_div_pos_is_pos(da as int, g);
    lemma_div_pos_is_pos(na as int, g);
    assert((da as int) / g >= 1) by (nonlinear_arith)
        requires
            da as int == g * ((da as int) / g) + (da as int) % g,
            (da as int) % g == 0,
            da as int > 0,
            g > 0,
    ;
}

/// A non-zero rational times its inverse is the canonical one: the
/// normalized product of `n/d` and its inverse has numerator one and
/// denominator one.
pub proof fn lemma_inverse_multiplies_to_one(a: &Rational)
    requires
        a.wf(),
        a@.0 != 0,
    ensures
        rat_norm_num(a@.0 * (if a@.0 < 0 { -a@.1 } else { a@.1 }), a@.1 * (int_abs(a@.0) as int))
            == 1,
        rat_norm_den(a@.0 * (if a@.0 < 0 { -a@.1 } else { a@.1 }), a@.1 * (int_abs(a@.0) as int))
            == 1,
{
    a.lemma_wf_facts();
    let n = a@.0;
    let d = a@.1;
    let ni: int = if n < 0 { -d } else { d };
    let di: int = int_abs(n) as int;
    let bign = n * ni;
    let bigd = d * di;
    assert(bign == (int_abs(n) as int) * d && bigd == d * (int_abs(n) as int) && bign > 0)
        by (nonlinear_arith)
        requires
            ni == (if n < 0 { -d } else { d }),
            di == int_abs(n) as int,
            bign == n * ni,
            bigd == d * di,
            d > 0,
            n != 0,
            int_abs(n) == (if n < 0 { -n } else { n }),
    ;
    assert(bign == bigd) by (nonlinear_arith)
        requires
            bign == (int_abs(n) as int) * d,
            bigd == d * (int_abs(n) as int),
    ;
    // gcd of a positive value with itself is the value
    let bn = bign as nat;
    lemma_mod_self_0(bign);
    assert(gcd_nat(bn, bn) == gcd_nat(bn, ((bn as int) % (bn as int)) as nat));
    assert(gcd_nat(bn, 0) == bn);
    lemma_div_by_self(bign);
}

/// Parsing inverts printing: the canonical text of any value in any radix
/// from 2 to 62 reads back as exactly that value.
pub proof fn lemma_parse_round_trip(v: int, radix: nat)
    requires
        2 <= radix <= 62,
    ensures
        parse_result(int_to_string(v, radix), radix) == Some(v),
{
    if v < 0 {
        let m = (-v) as nat;
        lemma_nat_string_props(m, radix);
        let s = int_to_string(v, radix);
        let body = nat_to_string(m, radix);
        assert(s == seq!['-'].add(body));
        assert(s[0] == '-');
        assert(s.skip(1) =~= body);
        assert(valid_digit_seq(body, radix));
        assert(digits_value(body, radix) == m);
    } else {
        let m = v as nat;
        lemma_nat_string_props(m, radix);
        let s = int_to_string(v, radix);
        assert(s == nat_to_string(m, radix));
        assert(s[0] != '-');
    }
}

/// The canonical text of a natural number is a non-empty run of valid
/// digits, does not start with a minus sign, and denotes the number.
pub proof fn lemma_nat_string_props(m: nat, radix: nat)
    requires
        2 <= radix <= 62,
    ensures
        valid_digit_seq(nat_to_string(m, radix), radix),
        nat_to_string(m, radix)[0] != '-',
        digits_value(nat_to_string(m, radix), radix) == m,
{
    if m == 0 {
        let s = nat_to_string(0, radix);
        assert(s == seq!['0']);
        lemma_digit_roundtrip(0, radix);
        assert(digit_char(0, radix) == '0');
        assert(s.drop_last() =~= Seq::<char>::empty());
        assert(digits_value(s, radix) == digits_value(s.drop_last(), radix) * radix + (digit_val(
            s.last(),
            radix,
        )) as nat);
        assert(0nat * radix == 0) by (nonlinear_arith);
    } else {
        lemma_digits_render(m, radix);
    }
}

/// Rendering the digit expansion of a positive number and reading it back
/// yields the number, and every rendered character is a valid digit.
proof fn lemma_digits_render(m: nat, radix: nat)
    requires
        2 <= radix <= 62,
        m > 0,
    ensures
        digits_to_chars(nat_digits(m, radix), radix).len() > 0,
        valid_digit_seq(digits_to_chars(nat_digits(m, radix), radix), radix),
        digits_to_chars(nat_digits(m, radix), radix)[0] != '-',
        digits_value(digits_to_chars(nat_digits(m, radix), radix), radix) == m,
    decreases m,
{
    let ds = nat_digits(m, radix);
    let chars = digits_to_chars(ds, radix);
    lemma_mod_division_less_than_divisor(m as int, radix as int);
    assert(ds == seq![m % radix].add(nat_digits(m / radix, radix)));
    let rest = nat_digits(m / radix, radix);
    assert(ds.drop_first() =~= rest);
    assert(ds.first() == m % radix);
    assert(chars == digits_to_chars(rest, radix).add(seq![digit_char(m % radix, radix)]));
    lemma_digit_roundtrip(m % radix, radix);
    let head = digits_to_chars(rest, radix);
    assert(chars.drop_last() =~= head);
    assert(chars.last() == digit_char(m % radix, radix));
    lemma_fundamental_div_mod(m as int, radix as int);
    if m / radix == 0 {
        assert(rest =~= Seq::<nat>::empty());
        assert(head =~= Seq::<char>::empty());
        assert(digits_value(chars, radix) == digits_value(head, radix) * radix + (digit_val(
            chars.last(),
            radix,
        )) as nat);
        assert(0nat * radix == 0) by (nonlinear_arith);
        assert(digits_value(chars, radix) == m % radix);
        assert(m == radix * (m / radix) + m % radix);
        assert(radix * 0nat == 0) by (nonlinear_arith);
        assert forall|i: int| 0 <= i < chars.len() implies is_digit_char(
            #[trigger] chars[i],
            radix,
        ) by {
            assert(chars[i] == chars.last());
        }
        assert(chars[0] == chars.last());
    } else {
        lemma_digits_render(m / radix, radix);
        assert(digits_value(chars, radix) == digits_value(head, radix) * radix + (digit_val(
            chars.last(),
            radix,
        )) as nat);
        assert(digits_value(head, radix) * radix == radix * (m / radix)) by (nonlinear_arith)
            requires
                digits_value(head, radix) == m / radix,
        ;
        assert forall|i: int| 0 <= i < chars.len() implies is_digit_char(
            #[trigger] chars[i],
            radix,
        ) by {
            if i < head.len() {
                assert(chars[i] == head[i]);
            } else {
                assert(chars[i] == chars.last());
            }
        }
        assert(chars[0] == head[0]);
    }
}

/// A digit below the radix renders to a character that reads back as the
/// same digit, and never to a minus sign.
pub proof fn lemma_digit_roundtrip(d: nat, radix: nat)
    requires
        d < radix,
        2 <= radix <= 62,
    ensures
        is_digit_char(digit_char(d, radix), radix),
        digit_val(digit_char(d, radix), radix) == d,
        digit_char(d, radix) != '-',
{
    if d < 10 {
        assert(((48 + d) as char) as u32 == 48 + d);
    } else if radix <= 36 {
        assert(((87 + d) as char) as u32 == 87 + d);
    } else if d < 36 {
        assert(((55 + d) as char) as u32 == 55 + d);
    } else {
        assert(((61 + d) as char) as u32 == 61 + d);
    }
}

} // verus!
