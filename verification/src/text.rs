//! Radix text conversion.
//!
//! The canonical text form of an integer in radix 2 to 62 is an optional
//! leading `-` followed by the digits of the magnitude, most significant
//! first, with no leading zero digit except for the single digit `0` itself.
//! Digits above nine are lower-case letters for radices up to 36, where case
//! does not matter on input; for radices 37 to 62 upper-case letters carry
//! the values ten to 35 and lower-case letters the values 36 to 61.

use vstd::prelude::*;
use vstd::arithmetic::div_mod::lemma_fundamental_div_mod_converse;
use vstd::arithmetic::div_mod::lemma_div_decreases;
use crate::Error;
use crate::limbs::mag_val;
use crate::limbs::mag_copy;
use crate::limbs::mag_is_zero;
use crate::limbs::mag_divmod_limb;
use crate::integer::Integer;
use crate::integer::int_abs;
use crate::rational::Rational;
use vstd::string::StringExecFns;

verus! {

/// The numeric value of one digit character, or `-1` when the character is
/// no digit of the radix's alphabet at all.
pub open spec fn digit_val(c: char, radix: nat) -> int {
    let u = c as u32;
    if 48 <= u <= 57 {
        u - 48
    } else if radix <= 36 {
        if 97 <= u <= 122 {
            u - 87
        } else if 65 <= u <= 90 {
            u - 55
        } else {
            -1
        }
    } else {
        if 65 <= u <= 90 {
            u - 55
        } else if 97 <= u <= 122 {
            u - 61
        } else {
            -1
        }
    }
}

/// Whether `c` is a digit of the given radix.
pub open spec fn is_digit_char(c: char, radix: nat) -> bool {
    0 <= digit_val(c, radix) < radix
}

/// The character rendering one digit value.
pub open spec fn digit_char(d: nat, radix: nat) -> char {
    if d < 10 {
        (48 + d) as char
    } else if radix <= 36 {
        (87 + d) as char
    } else if d < 36 {
        (55 + d) as char
    } else {
        (61 + d) as char
    }
}

/// The value of a digit-character sequence read most significant first.
pub open spec fn digits_value(s: Seq<char>, radix: nat) -> nat
    decreases s.len(),
{
    if s.len() == 0 {
        0
    } else {
        digits_value(s.drop_last(), radix) * radix + (digit_val(s.last(), radix)) as nat
    }
}

/// A non-empty run of valid digits.
pub open spec fn valid_digit_seq(s: Seq<char>, radix: nat) -> bool {
    s.len() > 0 && forall|i: int| 0 <= i < s.len() ==> is_digit_char(s[i], radix)
}

/// What parsing a character sequence yields: the denoted integer, or
/// nothing when the text is not a number of the radix.
pub open spec fn parse_result(s: Seq<char>, radix: nat) -> Option<int> {
    if s.len() > 0 && s[0] == '-' {
        if valid_digit_seq(s.skip(1), radix) {
            Some(-(digits_value(s.skip(1), radix) as int))
        } else {
            None
        }
    } else if valid_digit_seq(s, radix) {
        Some(digits_value(s, radix) as int)
    } else {
        None
    }
}

/// The digit values of `n` in the given radix, least significant first;
/// empty for zero.
pub open spec fn nat_digits(n: nat, radix: nat) -> Seq<nat>
    decreases n,
    when radix >= 2
    via nat_digits_decreases
{
    if n == 0 {
        Seq::empty()
    } else {
        seq![n % radix].add(nat_digits(n / radix, radix))
    }
}

#[via_fn]
proof fn nat_digits_decreases(n: nat, radix: nat) {
    if n != 0 && radix >= 2 {
        lemma_div_decreases(n as int, radix as int);
    }
}

/// Renders least-significant-first digit values as characters, most
/// significant first.
pub open spec fn digits_to_chars(ds: Seq<nat>, radix: nat) -> Seq<char>
    decreases ds.len(),
{
    if ds.len() == 0 {
        Seq::empty()
    } else {
        digits_to_chars(ds.drop_first(), radix).add(seq![digit_char(ds.first(), radix)])
    }
}

/// The canonical text of a non-negative value: its digits, or `0`.
pub open spec fn nat_to_string(n: nat, radix: nat) -> Seq<char> {
    if n == 0 {
        seq!['0']
    } else {
        digits_to_chars(nat_digits(n, radix), radix)
    }
}

/// The canonical text of an integer: an optional minus sign and the digits
/// of the magnitude.
pub open spec fn int_to_string(v: int, radix: nat) -> Seq<char> {
    if v < 0 {
        seq!['-'].add(nat_to_string((-v) as nat, radix))
    } else {
        nat_to_string(v as nat, radix)
    }
}

/// The number of digits of the canonical text of the magnitude: one for
/// zero, else the exact digit count.
pub open spec fn spec_size_in_base(v: int, radix: nat) -> nat {
    if v == 0 {
        1
    } else {
        nat_digits(int_abs(v), radix).len()
    }
}

/// The digit values of a `u8` vector, as a sequence of naturals.
pub open spec fn digit_seq(v: Seq<u8>) -> Seq<nat> {
    Seq::new(v.len(), |i: int| v[i] as nat)
}

/// Extracts the digits of a magnitude, least significant first, by
/// repeated division.
fn mag_digits(m: &Vec<u64>, base: u8) -> (ds: Vec<u8>)
    requires
        2 <= base <= 62,
        crate::limbs::canonical(m@),
    ensures
        digit_seq(ds@) == nat_digits(mag_val(m@), base as nat),
        forall|i: int| 0 <= i < ds@.len() ==> ds@[i] < base,
{
    let ghost m0 = mag_val(m@);
    let mut cur = mag_copy(m);
    let mut ds: Vec<u8> = Vec::new();
    proof {
        assert(digit_seq(ds@) =~= Seq::<nat>::empty());
        assert(nat_digits(m0, base as nat) =~= digit_seq(ds@).add(
            nat_digits(mag_val(cur@), base as nat),
        ));
    }
    loop
        invariant
            2 <= base <= 62,
            crate::limbs::canonical(cur@),
            nat_digits(m0, base as nat) == digit_seq(ds@).add(nat_digits(mag_val(cur@), base as nat)),
            forall|i: int| 0 <= i < ds@.len() ==> ds@[i] < base,
        ensures
            mag_val(cur@) == 0,
            nat_digits(m0, base as nat) == digit_seq(ds@).add(nat_digits(mag_val(cur@), base as nat)),
            forall|i: int| 0 <= i < ds@.len() ==> ds@[i] < base,
        decreases mag_val(cur@),
    {
        if mag_is_zero(&cur) {
            break ;
        }
        let ghost cv = mag_val(cur@);
        let (q, rem) = mag_divmod_limb(&cur, base as u64);
        proof {
            let qv = mag_val(q@) as int;
            lemma_fundamental_div_mod_converse(
                cv as int,
                base as int,
                qv,
                rem as int,
            );
            // the quotient shrinks: at least half comes off each round
            assert(qv < cv) by (nonlinear_arith)
                requires
                    qv * (base as int) + rem == cv,
                    cv > 0,
                    base >= 2,
                    qv >= 0,
                    rem >= 0,
            ;
            assert(nat_digits(cv, base as nat) == seq![cv % (base as nat)].add(
                nat_digits(cv / (base as nat), base as nat),
            ));
        }
        cur = q;
        let d: u8 = rem as u8;
        ds.push(d);
        proof {
            assert(digit_seq(ds@) =~= digit_seq(ds@.drop_last()).add(seq![d as nat]));
            assert(nat_digits(m0, base as nat) =~= digit_seq(ds@).add(
                nat_digits(mag_val(cur@), base as nat),
            ));
        }
    }
    proof {
        assert(nat_digits(mag_val(cur@), base as nat) =~= Seq::<nat>::empty());
        assert(digit_seq(ds@) =~= nat_digits(m0, base as nat));
    }
    ds
}

/// Renders one digit value.
fn digit_char_exec(d: u8, base: u8) -> (c: char)
    requires
        d < base,
        2 <= base <= 62,
    ensures
        c == digit_char(d as nat, base as nat),
{
    if d < 10 {
        (48 + d) as char
    } else if base <= 36 {
        (87 + d) as char
    } else if d < 36 {
        (55 + d) as char
    } else {
        (61 + d) as char
    }
}

/// Reads one digit character, or nothing when it is no digit of the radix.
fn digit_val_exec(c: char, radix: u8) -> (r: Option<u8>)
    requires
        2 <= radix <= 62,
    ensures
        r == if is_digit_char(c, radix as nat) {
            Some(digit_val(c, radix as nat) as u8)
        } else {
            None::<u8>
        },
{
    let u = c as u32;
    let d: u32 = if 48 <= u && u <= 57 {
        u - 48
    } else if radix <= 36 {
        if 97 <= u && u <= 122 {
            u - 87
        } else if 65 <= u && u <= 90 {
            u - 55
        } else {
            99
        }
    } else {
        if 65 <= u && u <= 90 {
            u - 55
        } else if 97 <= u && u <= 122 {
            u - 61
        } else {
            99
        }
    };
    if d < radix as u32 {
        Some(d as u8)
    } else {
        None
    }
}

/// `digits_to_chars` reverses the digit order.
proof fn lemma_digits_to_chars_index(ds: Seq<nat>, radix: nat)
    ensures
        digits_to_chars(ds, radix).len() == ds.len(),
        forall|j: int|
            0 <= j < ds.len() ==> digits_to_chars(ds, radix)[j] == digit_char(
                ds[ds.len() - 1 - j],
                radix,
            ),
    decreases ds.len(),
{
    if ds.len() > 0 {
        lemma_digits_to_chars_index(ds.drop_first(), radix);
    }
}

/// The trusted bridge from verified character vectors to `String`.
///
/// Relies on `String::push`: appending a character appends exactly that
/// character to the string's character sequence.
#[verifier::external_body]
fn chars_to_string(v: &Vec<char>) -> (s: String)
    ensures
        s@ == v@,
{
    let mut s = String::new();
    for c in v.iter() {
        s.push(*c);
    }
    s
}

impl Integer {
    /// The canonical text of the value in the given radix: an optional
    /// leading minus, then the digits, most significant first, with no
    /// leading zero; zero itself renders as a single `0` digit.
    pub fn to_str_radix(&self, base: u8) -> (r: String)
        requires
            self.wf(),
            2 <= base <= 62,
        ensures
            r@ == int_to_string(self@, base as nat),
    {
        proof {
            self.lemma_limbs_are_abs();
        }
        let ds = mag_digits(&self.magnitude_ref(), base);
        let ghost m0 = int_abs(self@);
        let n = ds.len();
        let mut chars: Vec<char> = Vec::new();
        let sgn = self.sign();
        if sgn < 0 {
            chars.push('-');
        }
        let ghost off = chars@.len();
        if n == 0 {
            chars.push('0');
            proof {
                assert(nat_digits(m0, base as nat).len() == 0);
                if m0 != 0 {
                    assert(nat_digits(m0, base as nat) == seq![m0 % (base as nat)].add(
                        nat_digits(m0 / (base as nat), base as nat),
                    ));
                }
                assert(m0 == 0);
            }
        } else {
            proof {
                if m0 == 0 {
                    assert(nat_digits(m0, base as nat).len() == 0);
                }
                lemma_digits_to_chars_index(digit_seq(ds@), base as nat);
            }
            let mut k: usize = n;
            while k > 0
                invariant
                    k <= n,
                    n == ds@.len(),
                    2 <= base <= 62,
                    forall|i: int| 0 <= i < ds@.len() ==> ds@[i] < base,
                    chars@.len() == off + (n - k),
                    off <= chars@.len(),
                    forall|j: int| 0 <= j < off ==> chars@[j] == '-',
                    forall|j: int|
                        off <= j < chars@.len() ==> #[trigger] chars@[j] == digit_char(
                            digit_seq(ds@)[n - 1 - (j - off)],
                            base as nat,
                        ),
                decreases k,
            {
                let c = digit_char_exec(ds[k - 1], base);
                chars.push(c);
                k = k - 1;
            }
        }
        proof {
            let bn = base as nat;
            if m0 == 0 {
                assert(chars@ =~= int_to_string(self@, bn));
            } else {
                lemma_digits_to_chars_index(digit_seq(ds@), bn);
                if self@ < 0 {
                    assert(chars@ =~= seq!['-'].add(
                        digits_to_chars(nat_digits(m0, bn), bn),
                    ));
                } else {
                    assert(chars@ =~= digits_to_chars(nat_digits(m0, bn), bn));
                }
            }
        }
        chars_to_string(&chars)
    }

    /// Parses an optionally `-`-signed run of digits in the given radix.
    /// Exactly the texts that [`parse_result`] accepts yield a value; all
    /// others report a parse error.
    pub fn parse(s: &str, radix: u8) -> (r: Result<Integer, Error>)
        requires
            2 <= radix <= 62,
        ensures
            r is Ok ==> parse_result(s@, radix as nat) == Some(r->Ok_0@) && r->Ok_0.wf(),
            r is Err ==> parse_result(s@, radix as nat) is None && r->Err_0 == Error::ParseError,
    {
        let n = s.unicode_len();
        if n == 0 {
            return Err(Error::ParseError);
        }
        let first = s.get_char(0);
        let neg = first == '-';
        let start: usize = if neg {
            1
        } else {
            0
        };
        let ghost digits = if neg {
            s@.skip(1)
        } else {
            s@
        };
        if neg && n == 1 {
            return Err(Error::ParseError);
        }
        let mut acc = Integer::zero();
        let mut i = start;
        proof {
            assert(digits.take(0) =~= Seq::<char>::empty());
        }
        while i < n
            invariant
                acc.wf(),
                acc@ >= 0,
                start <= i <= n,
                start < n,
                n == s@.len(),
                2 <= radix <= 62,
                start == if neg {
                    1int
                } else {
                    0int
                },
                digits == if neg {
                    s@.skip(1)
                } else {
                    s@
                },
                neg == (s@[0] == '-'),
                forall|j: int| 0 <= j < i - start ==> is_digit_char(#[trigger] digits[j], radix as nat),
                acc@ == digits_value(digits.take(i - start), radix as nat),
            decreases n - i,
        {
            let c = s.get_char(i);
            match digit_val_exec(c, radix) {
                None => {
                    proof {
                        assert(digits[i - start] == s@[i as int]);
                        assert(!is_digit_char(digits[i - start], radix as nat));
                    }
                    return Err(Error::ParseError);
                },
                Some(d) => {
                    let rad_i = Integer::from_small_unsigned(radix as u64);
                    let dig_i = Integer::from_small_unsigned(d as u64);
                    acc = acc.mul(&rad_i).add(&dig_i);
                    proof {
                        let t = digits.take(i + 1 - start);
                        assert(t.drop_last() =~= digits.take(i - start));
                        assert(t.last() == digits[i - start]);
                        assert(digits[i - start] == s@[i as int]);
                    }
                    i = i + 1;
                },
            }
        }
        proof {
            assert(digits.take(n - start) =~= digits);
            assert(valid_digit_seq(digits, radix as nat));
        }
        if neg {
            Ok(acc.negated())
        } else {
            Ok(acc)
        }
    }

    /// The exact number of digits of the magnitude's text in the given
    /// radix, computed without producing the text; one for zero.
    pub fn sizeinbase(&self, base: u8) -> (r: usize)
        requires
            self.wf(),
            2 <= base <= 62,
        ensures
            r == spec_size_in_base(self@, base as nat),
    {
        proof {
            self.lemma_limbs_are_abs();
        }
        let ds = mag_digits(&self.magnitude_ref(), base);
        proof {
            assert(digit_seq(ds@).len() == ds@.len());
        }
        if ds.len() == 0 {
            1
        } else {
            ds.len()
        }
    }
}

/// The canonical text of a fraction: the numerator alone when the
/// denominator is one, else numerator, slash, denominator; the denominator
/// of a well-formed rational is positive, so no `-` ever follows the slash.
pub open spec fn rat_to_string(n: int, d: int, radix: nat) -> Seq<char> {
    if d == 1 {
        int_to_string(n, radix)
    } else {
        int_to_string(n, radix).add(seq!['/']).add(int_to_string(d, radix))
    }
}

impl Rational {
    /// The canonical text of the fraction in the given radix.
    pub fn to_str_radix(&self, base: u8) -> (r: String)
        requires
            self.wf(),
            2 <= base <= 62,
        ensures
            r@ == rat_to_string(self@.0, self@.1, base as nat),
    {
        let n = self.numerator();
        let d = self.denominator();
        let mut s = n.to_str_radix(base);
        if !d.is_one() {
            proof {
                reveal_strlit("/");
                assert("/"@ =~= seq!['/']);
            }
            s.append("/");
            let ds = d.to_str_radix(base);
            s.append(ds.as_str());
        }
        s
    }
}

impl core::str::FromStr for Integer {
    type Err = Error;

    /// Parses decimal text, as the usual string-to-number conversion.
    fn from_str(s: &str) -> Result<Integer, Error> {
        Integer::parse(s, 10)
    }
}

} // verus!
