//! Text output: scientific and engineering notation. NaN renders as `NaN`,
//! infinities as `Inf`/`-Inf`, zero as `0e0` (sign-prefixed when negative);
//! otherwise the coefficient's digit string is split so that one digit
//! (scientific), or one to three digits with the exponent forced to a
//! multiple of three (engineering), precede the decimal point.

use vstd::prelude::*;

use crate::decimal::Decimal;
use crate::numeric::spec_digit_count;

use vstd::arithmetic::div_mod::lemma_div_decreases;

verus! {

/// The ASCII digit string of `n`, most significant digit first, no leading
/// zeros (zero itself renders as one `0`).
pub open spec fn dec_digits(n: nat) -> Seq<u8>
    decreases n,
{
    if n < 10 {
        seq![(n + 48) as u8]
    } else {
        dec_digits(n / 10).push((n % 10 + 48) as u8)
    }
}

/// A run of ASCII zeros.
pub open spec fn zero_digits(n: nat) -> Seq<u8> {
    Seq::new(n, |i: int| 48u8)
}

/// The rendering of a (possibly negative) exponent: no leading zeros, no
/// explicit plus sign.
pub open spec fn exp_bytes(e: int) -> Seq<u8> {
    if e < 0 {
        seq![45u8] + dec_digits((-e) as nat)
    } else {
        dec_digits(e as nat)
    }
}

/// The characters that a sequence of ASCII bytes spells.
pub open spec fn chars_of(bs: Seq<u8>) -> Seq<char> {
    bs.map_values(|b: u8| b as char)
}

/// Every byte of a digit string is an ASCII digit, and the string is exactly
/// as long as the digit count.
pub proof fn lemma_dec_digits_ascii(n: nat)
    ensures
        dec_digits(n).len() == spec_digit_count(n),
        forall|j: int| 0 <= j < dec_digits(n).len() ==> 48 <= #[trigger] dec_digits(n)[j] <= 57,
    decreases n,
{
    if n < 10 {
    } else {
        lemma_div_decreases(n as int, 10);
        lemma_dec_digits_ascii(n / 10);
    }
}

/// Every byte of an exponent rendering is ASCII.
pub proof fn lemma_exp_bytes_ascii(e: int)
    ensures
        forall|j: int| 0 <= j < exp_bytes(e).len() ==> #[trigger] exp_bytes(e)[j] < 128,
{
    if e < 0 {
        lemma_dec_digits_ascii((-e) as nat);
    } else {
        lemma_dec_digits_ascii(e as nat);
    }
}

/// Scientific notation of a value, as ASCII bytes.
pub open spec fn spec_scientific(v: Decimal) -> Seq<u8> {
    if v.flags.nan {
        seq![78u8, 97u8, 78u8]
    } else {
        let sgn: Seq<u8> = if v.flags.sign {
            seq![45u8]
        } else {
            Seq::empty()
        };
        if v.flags.infinity {
            sgn + seq![73u8, 110u8, 102u8]
        } else if v.digits == 0 {
            sgn + seq![48u8, 101u8, 48u8]
        } else {
            let ds = dec_digits(v.digits as nat);
            let e = ds.len() - 1 - v.scale;
            let mantissa = if ds.len() == 1 {
                ds
            } else {
                ds.take(1) + seq![46u8] + ds.skip(1)
            };
            sgn + mantissa + seq![101u8] + exp_bytes(e)
        }
    }
}

/// Engineering notation of a value, as ASCII bytes: the exponent is coerced
/// down to a multiple of three and one to three digits precede the point,
/// padding with zeros when the coefficient has fewer digits than the leading
/// group needs.
pub open spec fn spec_engineering(v: Decimal) -> Seq<u8> {
    if v.flags.nan {
        seq![78u8, 97u8, 78u8]
    } else {
        let sgn: Seq<u8> = if v.flags.sign {
            seq![45u8]
        } else {
            Seq::empty()
        };
        if v.flags.infinity {
            sgn + seq![73u8, 110u8, 102u8]
        } else if v.digits == 0 {
            sgn + seq![48u8, 101u8, 48u8]
        } else {
            let ds = dec_digits(v.digits as nat);
            let e = ds.len() - 1 - v.scale;
            let lead = e % 3 + 1;
            let e3 = e - e % 3;
            let mantissa = if ds.len() >= lead {
                if ds.len() == lead {
                    ds
                } else {
                    ds.take(lead) + seq![46u8] + ds.skip(lead)
                }
            } else {
                ds + zero_digits((lead - ds.len()) as nat)
            };
            sgn + mantissa + seq![101u8] + exp_bytes(e3)
        }
    }
}

/// Append the digit string of `n`.
fn push_digits(n: u128, out: &mut Vec<u8>)
    ensures
        final(out)@ == old(out)@ + dec_digits(n as nat),
    decreases n,
{
    if n < 10 {
        out.push((n as u8) + 48);
        assert(out@ =~= old(out)@ + dec_digits(n as nat));
    } else {
        proof {
            lemma_div_decreases(n as int, 10);
        }
        push_digits(n / 10, out);
        out.push(((n % 10) as u8) + 48);
        assert(out@ =~= old(out)@ + dec_digits(n as nat));
    }
}

/// Append the exponent rendering of `e`.
fn push_exp(e: i32, out: &mut Vec<u8>)
    requires
        -100000 <= e <= 100000,
    ensures
        final(out)@ == old(out)@ + exp_bytes(e as int),
{
    if e < 0 {
        out.push(45);
        push_digits((-e) as u128, out);
        assert(out@ =~= old(out)@ + exp_bytes(e as int));
    } else {
        push_digits(e as u128, out);
    }
}

/// Relies on `String::from_utf8`: a vector of bytes below 128 is valid
/// UTF-8 and decodes to exactly one character per byte, each with the
/// byte's code point.
#[verifier::external_body]
fn ascii_to_string(bytes: Vec<u8>) -> (r: String)
    requires
        forall|i: int| 0 <= i < bytes@.len() ==> bytes@[i] < 128,
    ensures
        r@ == chars_of(bytes@),
{
    String::from_utf8(bytes).unwrap_or_default()
}

/// The digit-and-point part shared by both notations: the first `lead`
/// digits of `ds`, a point, and the rest, with zero padding when `ds` is
/// shorter than `lead`.
fn push_mantissa(ds: &Vec<u8>, lead: usize, out: &mut Vec<u8>)
    requires
        1 <= lead,
        ds@.len() >= 1,
    ensures
        final(out)@ == old(out)@ + (if ds@.len() >= lead {
            if ds@.len() == lead {
                ds@
            } else {
                ds@.take(lead as int) + seq![46u8] + ds@.skip(lead as int)
            }
        } else {
            ds@ + zero_digits((lead - ds@.len()) as nat)
        }),
{
    if ds.len() >= lead {
        let mut i: usize = 0;
        while i < lead
            invariant
                i <= lead <= ds@.len(),
                out@ == old(out)@ + ds@.take(i as int),
            decreases lead - i,
        {
            out.push(ds[i]);
            assert(out@ =~= old(out)@ + ds@.take(i + 1));
            i = i + 1;
        }
        if ds.len() == lead {
            assert(out@ =~= old(out)@ + ds@);
            return ;
        }
        out.push(46);
        let mut j: usize = lead;
        while j < ds.len()
            invariant
                lead <= j <= ds@.len(),
                out@ == old(out)@ + ds@.take(lead as int) + seq![46u8] + ds@.subrange(
                    lead as int,
                    j as int,
                ),
            decreases ds@.len() - j,
        {
            out.push(ds[j]);
            assert(out@ =~= old(out)@ + ds@.take(lead as int) + seq![46u8] + ds@.subrange(
                lead as int,
                j + 1,
            ));
            j = j + 1;
        }
        assert(out@ =~= old(out)@ + (ds@.take(lead as int) + seq![46u8] + ds@.skip(lead as int)));
    } else {
        let mut i: usize = 0;
        while i < ds.len()
            invariant
                i <= ds@.len(),
                out@ == old(out)@ + ds@.take(i as int),
            decreases ds@.len() - i,
        {
            out.push(ds[i]);
            assert(out@ =~= old(out)@ + ds@.take(i + 1));
            i = i + 1;
        }
        assert(out@ =~= old(out)@ + ds@);
        let pad = lead - ds.len();
        let mut k: usize = 0;
        while k < pad
            invariant
                k <= pad,
                out@ == old(out)@ + ds@ + zero_digits(k as nat),
            decreases pad - k,
        {
            out.push(48);
            assert(out@ =~= old(out)@ + ds@ + zero_digits((k + 1) as nat));
            k = k + 1;
        }
    }
}

impl Decimal {
    /// Render in scientific notation: one digit before the point.
    #[must_use]
    pub fn to_scientific_notation(&self) -> (r: String)
        requires
            self.wf(),
        ensures
            r@ == chars_of(spec_scientific(*self)),
            vstd::utf8::encode_utf8(r@) == spec_scientific(*self),
    {
        let out = self.scientific_bytes();
        proof {
            lemma_chars_of_ascii_encode(out@);
        }
        ascii_to_string(out)
    }

    /// Render in engineering notation: the exponent a multiple of three.
    #[must_use]
    pub fn to_engineering_notation(&self) -> (r: String)
        requires
            self.wf(),
        ensures
            r@ == chars_of(spec_engineering(*self)),
            vstd::utf8::encode_utf8(r@) == spec_engineering(*self),
    {
        let out = self.engineering_bytes();
        proof {
            lemma_chars_of_ascii_encode(out@);
        }
        ascii_to_string(out)
    }

    /// Scientific notation as ASCII bytes.
    pub fn scientific_bytes(&self) -> (out: Vec<u8>)
        requires
            self.wf(),
        ensures
            out@ == spec_scientific(*self),
            forall|i: int| 0 <= i < out@.len() ==> out@[i] < 128,
    {
        let mut out: Vec<u8> = Vec::new();
        if self.is_nan() {
            out.push(78);
            out.push(97);
            out.push(78);
            assert(out@ =~= spec_scientific(*self));
            return out;
        }
        if self.is_sign_negative() {
            out.push(45);
        }
        if self.is_infinite() {
            out.push(73);
            out.push(110);
            out.push(102);
            assert(out@ =~= spec_scientific(*self));
            return out;
        }
        if self.is_zero() {
            out.push(48);
            out.push(101);
            out.push(48);
            assert(out@ =~= spec_scientific(*self));
            return out;
        }
        let mut ds: Vec<u8> = Vec::new();
        push_digits(self.digits, &mut ds);
        proof {
            lemma_dec_digits_ascii(self.digits as nat);
            crate::numeric::lemma_digit_count_at_most(self.digits as nat);
            assert(ds@ =~= dec_digits(self.digits as nat));
        }
        push_mantissa(&ds, 1, &mut out);
        out.push(101);
        let e: i32 = ds.len() as i32 - 1 - self.scale as i32;
        push_exp(e, &mut out);
        proof {
            lemma_exp_bytes_ascii(e as int);
        }
        assert(out@ =~= spec_scientific(*self));
        assert(forall|i: int| 0 <= i < out@.len() ==> out@[i] < 128);
        out
    }

    /// Engineering notation as ASCII bytes.
    #[verifier::rlimit(100)]
    pub fn engineering_bytes(&self) -> (out: Vec<u8>)
        requires
            self.wf(),
        ensures
            out@ == spec_engineering(*self),
            forall|i: int| 0 <= i < out@.len() ==> out@[i] < 128,
    {
        let mut out: Vec<u8> = Vec::new();
        if self.is_nan() {
            out.push(78);
            out.push(97);
            out.push(78);
            assert(out@ =~= spec_engineering(*self));
            return out;
        }
        if self.is_sign_negative() {
            out.push(45);
        }
        if self.is_infinite() {
            out.push(73);
            out.push(110);
            out.push(102);
            assert(out@ =~= spec_engineering(*self));
            return out;
        }
        if self.is_zero() {
            out.push(48);
            out.push(101);
            out.push(48);
            assert(out@ =~= spec_engineering(*self));
            return out;
        }
        let mut ds: Vec<u8> = Vec::new();
        push_digits(self.digits, &mut ds);
        proof {
            lemma_dec_digits_ascii(self.digits as nat);
            crate::numeric::lemma_digit_count_at_most(self.digits as nat);
            assert(ds@ =~= dec_digits(self.digits as nat));
        }
        let e: i32 = ds.len() as i32 - 1 - self.scale as i32;
        let em: i32 = if e >= 0 {
            e % 3
        } else {
            let k = (-e) % 3;
            if k == 0 {
                0
            } else {
                3 - k
            }
        };
        proof {
            assert(em == (e as int) % 3);
        }
        let lead = (em + 1) as usize;
        let e3 = e - em;
        push_mantissa(&ds, lead, &mut out);
        out.push(101);
        push_exp(e3, &mut out);
        proof {
            lemma_exp_bytes_ascii(e3 as int);
        }
        assert(out@ =~= spec_engineering(*self));
        assert(forall|i: int| 0 <= i < out@.len() ==> out@[i] < 128);
        out
    }
}

/// ASCII bytes decode back to themselves through the character view.
proof fn lemma_chars_of_ascii_encode(bs: Seq<u8>)
    requires
        forall|i: int| 0 <= i < bs.len() ==> bs[i] < 128,
    ensures
        vstd::utf8::encode_utf8(chars_of(bs)) == bs,
{
    let cs = chars_of(bs);
    assert(forall|i: int| 0 <= i < cs.len() ==> '\0' <= #[trigger] cs[i] <= '\u{7f}');
    assert(vstd::utf8::is_ascii_chars(cs));
    vstd::utf8::is_ascii_chars_encode_utf8(cs);
    assert(vstd::utf8::encode_utf8(cs) =~= bs);
}

} // verus!
