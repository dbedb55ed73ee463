//! Text to value: a single-pass parser for the decimal grammar
//!
//! ```text
//! decimal  := sign? ( digits ('.' digits?)? | '.' digits ) exponent?
//!           | sign? ('nan' | 'inf' | 'infinity')        (case-insensitive)
//! sign     := '+' | '-'
//! exponent := ('e'|'E') sign? digits
//! ```
//!
//! The parser works on the UTF-8 bytes of the input, accumulating the
//! coefficient digit by digit into the fixed width; no digit separator is
//! accepted. The sign of a `nan` literal is ignored; the sign of an infinity
//! literal is honoured.

use vstd::prelude::*;

use crate::decimal::Decimal;
use crate::flags::Flags;
use crate::flags::SignalSet;
use crate::COEFF_MAX;

use vstd::string::StringSliceAdditionalSpecFns;

verus! {

/// A structured description of why text failed to parse.
#[derive(Clone, Copy, Debug, PartialEq, Eq, Structural)]
pub enum ParseError {
    /// The input was empty.
    Empty,
    /// A character outside the grammar, trailing garbage, or no mantissa
    /// digit at all.
    InvalidLiteral,
    /// An exponent marker without digits, or a stray character inside the
    /// exponent.
    MalformedExponent,
    /// More significant digits than the fixed-width coefficient can hold.
    CoefficientOverflow,
    /// A scale outside the representable 16-bit range.
    ExponentOverflow,
}

impl ParseError {
    /// A short human-readable account of the error.
    pub fn description(&self) -> (r: &'static str)
        ensures
            r@ == self.spec_description(),
    {
        match self {
            ParseError::Empty => "attempt to parse empty string",
            ParseError::InvalidLiteral => "invalid literal found in string",
            ParseError::MalformedExponent => "malformed exponent in string",
            ParseError::CoefficientOverflow => "too many significant digits",
            ParseError::ExponentOverflow => "exponent out of range",
        }
    }

    pub open spec fn spec_description(self) -> Seq<char> {
        match self {
            ParseError::Empty => "attempt to parse empty string"@,
            ParseError::InvalidLiteral => "invalid literal found in string"@,
            ParseError::MalformedExponent => "malformed exponent in string"@,
            ParseError::CoefficientOverflow => "too many significant digits"@,
            ParseError::ExponentOverflow => "exponent out of range"@,
        }
    }
}

/// ASCII lower-casing of one byte.
pub open spec fn lower(b: u8) -> u8 {
    if 65 <= b <= 90 {
        (b + 32) as u8
    } else {
        b
    }
}

pub open spec fn is_digit(b: u8) -> bool {
    48 <= b <= 57
}

/// `nan`, case-insensitive, filling the rest of the input from `j`.
pub open spec fn is_nan_at(s: Seq<u8>, j: int) -> bool {
    &&& s.len() - j == 3
    &&& lower(s[j]) == 110
    &&& lower(s[j + 1]) == 97
    &&& lower(s[j + 2]) == 110
}

/// `inf`, case-insensitive, filling the rest of the input from `j`.
pub open spec fn is_inf_at(s: Seq<u8>, j: int) -> bool {
    &&& s.len() - j == 3
    &&& lower(s[j]) == 105
    &&& lower(s[j + 1]) == 110
    &&& lower(s[j + 2]) == 102
}

/// `infinity`, case-insensitive, filling the rest of the input from `j`.
pub open spec fn is_infinity_at(s: Seq<u8>, j: int) -> bool {
    &&& s.len() - j == 8
    &&& lower(s[j]) == 105
    &&& lower(s[j + 1]) == 110
    &&& lower(s[j + 2]) == 102
    &&& lower(s[j + 3]) == 105
    &&& lower(s[j + 4]) == 110
    &&& lower(s[j + 5]) == 105
    &&& lower(s[j + 6]) == 116
    &&& lower(s[j + 7]) == 121
}

/// Final assembly: the scale is the fraction-digit count minus the exponent,
/// and must fit the 16-bit scale field.
pub open spec fn sp_finish(acc: nat, fc: nat, exp: int, neg: bool) -> Result<Decimal, ParseError> {
    let scale = fc - exp;
    if scale > i16::MAX || scale < i16::MIN {
        Err(ParseError::ExponentOverflow)
    } else {
        Ok(
            Decimal {
                digits: acc as u128,
                scale: scale as i16,
                flags: (Flags {
                    sign: neg,
                    nan: false,
                    infinity: false,
                    signals: SignalSet::spec_empty(),
                }),
            },
        )
    }
}

/// Exponent digits: `acc` and `fc` are the finished mantissa, `eneg` the
/// exponent sign, `eacc` the exponent magnitude so far, `eany` whether a
/// digit was seen.
pub open spec fn sp_exp_digits(
    s: Seq<u8>,
    i: int,
    acc: nat,
    fc: nat,
    eneg: bool,
    eacc: nat,
    eany: bool,
    neg: bool,
) -> Result<Decimal, ParseError>
    decreases s.len() - i,
{
    if i >= s.len() {
        if !eany {
            Err(ParseError::MalformedExponent)
        } else {
            sp_finish(
                acc,
                fc,
                if eneg {
                    -(eacc as int)
                } else {
                    eacc as int
                },
                neg,
            )
        }
    } else if is_digit(s[i]) {
        sp_exp_digits(s, i + 1, acc, fc, eneg, (eacc * 10 + (s[i] - 48)) as nat, true, neg)
    } else if eany {
        Err(ParseError::InvalidLiteral)
    } else {
        Err(ParseError::MalformedExponent)
    }
}

/// Just after the exponent marker: an optional sign, then digits.
pub open spec fn sp_exp_sign(s: Seq<u8>, i: int, acc: nat, fc: nat, neg: bool) -> Result<
    Decimal,
    ParseError,
> {
    if i >= s.len() {
        Err(ParseError::MalformedExponent)
    } else if s[i] == 43 || s[i] == 45 {
        sp_exp_digits(s, i + 1, acc, fc, s[i] == 45, 0, false, neg)
    } else {
        sp_exp_digits(s, i, acc, fc, false, 0, false, neg)
    }
}

/// Fraction digits after the decimal point; `any` records whether any
/// mantissa digit was seen on either side of the point.
pub open spec fn sp_frac(
    s: Seq<u8>,
    i: int,
    acc: nat,
    any: bool,
    fc: nat,
    neg: bool,
) -> Result<Decimal, ParseError>
    decreases s.len() - i,
{
    if i >= s.len() {
        if !any {
            Err(ParseError::InvalidLiteral)
        } else {
            sp_finish(acc, fc, 0, neg)
        }
    } else if is_digit(s[i]) {
        let acc2 = acc * 10 + (s[i] - 48);
        if acc2 > COEFF_MAX {
            Err(ParseError::CoefficientOverflow)
        } else {
            sp_frac(s, i + 1, acc2 as nat, true, fc + 1, neg)
        }
    } else if s[i] == 101 || s[i] == 69 {
        if !any {
            Err(ParseError::InvalidLiteral)
        } else {
            sp_exp_sign(s, i + 1, acc, fc, neg)
        }
    } else {
        Err(ParseError::InvalidLiteral)
    }
}

/// Integer digits before any decimal point.
pub open spec fn sp_int(s: Seq<u8>, i: int, acc: nat, any: bool, neg: bool) -> Result<
    Decimal,
    ParseError,
>
    decreases s.len() - i,
{
    if i >= s.len() {
        if !any {
            Err(ParseError::InvalidLiteral)
        } else {
            sp_finish(acc, 0, 0, neg)
        }
    } else if is_digit(s[i]) {
        let acc2 = acc * 10 + (s[i] - 48);
        if acc2 > COEFF_MAX {
            Err(ParseError::CoefficientOverflow)
        } else {
            sp_int(s, i + 1, acc2 as nat, true, neg)
        }
    } else if s[i] == 46 {
        sp_frac(s, i + 1, acc, any, 0, neg)
    } else if s[i] == 101 || s[i] == 69 {
        if !any {
            Err(ParseError::InvalidLiteral)
        } else {
            sp_exp_sign(s, i + 1, acc, 0, neg)
        }
    } else {
        Err(ParseError::InvalidLiteral)
    }
}

/// What parsing a byte sequence yields: the value, or the first error the
/// single pass encounters.
pub open spec fn spec_parse(s: Seq<u8>) -> Result<Decimal, ParseError> {
    if s.len() == 0 {
        Err(ParseError::Empty)
    } else {
        let neg = s[0] == 45;
        let start: int = if s[0] == 43 || s[0] == 45 {
            1
        } else {
            0
        };
        if is_nan_at(s, start) {
            Ok(Decimal::spec_nan())
        } else if is_inf_at(s, start) || is_infinity_at(s, start) {
            Ok(Decimal::spec_infinity(neg))
        } else {
            sp_int(s, start, 0, false, neg)
        }
    }
}

fn lower_byte(b: u8) -> (r: u8)
    ensures
        r == lower(b),
{
    if b >= 65 && b <= 90 {
        b + 32
    } else {
        b
    }
}

/// Parse the UTF-8 bytes of a decimal literal.
pub fn parse_bytes(s: &[u8]) -> (r: Result<Decimal, ParseError>)
    ensures
        r == spec_parse(s@),
        r matches Ok(v) ==> v.wf(),
{
    let n = s.len();
    if n == 0 {
        return Err(ParseError::Empty);
    }
    let first = s[0];
    let neg = first == 45;
    let mut i: usize = 0;
    if first == 43 || first == 45 {
        i = 1;
    }
    let rest = n - i;
    if rest == 3 {
        let b0 = lower_byte(s[i]);
        let b1 = lower_byte(s[i + 1]);
        let b2 = lower_byte(s[i + 2]);
        if b0 == 110 && b1 == 97 && b2 == 110 {
            return Ok(Decimal::nan());
        }
        if b0 == 105 && b1 == 110 && b2 == 102 {
            return Ok(if neg {
                Decimal::neg_infinity()
            } else {
                Decimal::infinity()
            });
        }
    }
    if rest == 8 {
        let b0 = lower_byte(s[i]);
        let b1 = lower_byte(s[i + 1]);
        let b2 = lower_byte(s[i + 2]);
        let b3 = lower_byte(s[i + 3]);
        let b4 = lower_byte(s[i + 4]);
        let b5 = lower_byte(s[i + 5]);
        let b6 = lower_byte(s[i + 6]);
        let b7 = lower_byte(s[i + 7]);
        if b0 == 105 && b1 == 110 && b2 == 102 && b3 == 105 && b4 == 110 && b5 == 105 && b6 == 116
            && b7 == 121 {
            return Ok(if neg {
                Decimal::neg_infinity()
            } else {
                Decimal::infinity()
            });
        }
    }
    proof {
        assert(sp_int(s@, i as int, 0, false, neg) == spec_parse(s@));
    }
    let mut acc: u128 = 0;
    let mut any = false;
    while i < n && s[i] >= 48 && s[i] <= 57
        invariant
            i <= n,
            n == s@.len(),
            acc <= COEFF_MAX,
            sp_int(s@, i as int, acc as nat, any, neg) == spec_parse(s@),
        decreases n - i,
    {
        let d = s[i] - 48;
        let acc2 = acc * 10 + d as u128;
        if acc2 > COEFF_MAX {
            return Err(ParseError::CoefficientOverflow);
        }
        acc = acc2;
        any = true;
        i = i + 1;
    }
    if i == n {
        if !any {
            return Err(ParseError::InvalidLiteral);
        }
        return finish_exec(acc, 0, false, 0, neg);
    }
    let mut fc: usize = 0;
    if s[i] == 46 {
        i = i + 1;
        while i < n && s[i] >= 48 && s[i] <= 57
            invariant
                i <= n,
                n == s@.len(),
                acc <= COEFF_MAX,
                fc <= i,
                sp_frac(s@, i as int, acc as nat, any, fc as nat, neg) == spec_parse(s@),
            decreases n - i,
        {
            let d = s[i] - 48;
            let acc2 = acc * 10 + d as u128;
            if acc2 > COEFF_MAX {
                return Err(ParseError::CoefficientOverflow);
            }
            acc = acc2;
            any = true;
            fc = fc + 1;
            i = i + 1;
        }
        if i == n {
            if !any {
                return Err(ParseError::InvalidLiteral);
            }
            return finish_exec(acc, fc, false, 0, neg);
        }
        if !(s[i] == 101 || s[i] == 69) {
            return Err(ParseError::InvalidLiteral);
        }
        if !any {
            return Err(ParseError::InvalidLiteral);
        }
        i = i + 1;
    } else if s[i] == 101 || s[i] == 69 {
        if !any {
            return Err(ParseError::InvalidLiteral);
        }
        i = i + 1;
    } else {
        return Err(ParseError::InvalidLiteral);
    }
    // Exponent: optional sign, then at least one digit.
    if i == n {
        return Err(ParseError::MalformedExponent);
    }
    let mut eneg = false;
    if s[i] == 43 || s[i] == 45 {
        eneg = s[i] == 45;
        i = i + 1;
    }
    let mut eacc: u128 = 0;
    let ghost mut ea: nat = 0nat;
    let mut eany = false;
    while i < n && s[i] >= 48 && s[i] <= 57
        invariant
            i <= n,
            n == s@.len(),
            acc <= COEFF_MAX,
            fc <= n,
            eacc <= 20000000000000000000000000000000u128,
            eacc == ea || (eacc > 1000000000000000000000000000000u128 && ea >= eacc),
            sp_exp_digits(s@, i as int, acc as nat, fc as nat, eneg, ea, eany, neg) == spec_parse(
                s@,
            ),
        decreases n - i,
    {
        let d = s[i] - 48;
        proof {
            ea = ea * 10 + (d as nat);
        }
        if eacc <= 1000000000000000000000000000000u128 {
            // Below the saturation threshold the accumulator is exact.
            eacc = eacc * 10 + d as u128;
        }
        eany = true;
        i = i + 1;
    }
    if i < n {
        if eany {
            return Err(ParseError::InvalidLiteral);
        }
        return Err(ParseError::MalformedExponent);
    }
    if !eany {
        return Err(ParseError::MalformedExponent);
    }
    if eacc > 1000000000000000000000000000000u128 {
        // The exponent magnitude exceeds any representable scale by far.
        proof {
            assert(fc as int - (if eneg { -(ea as int) } else { ea as int }) > i16::MAX || fc
                as int - (if eneg { -(ea as int) } else { ea as int }) < i16::MIN);
        }
        return Err(ParseError::ExponentOverflow);
    }
    finish_exec(acc, fc, eneg, eacc, neg)
}

/// Assemble the parsed parts, checking that the scale fits.
fn finish_exec(acc: u128, fc: usize, eneg: bool, eacc: u128, neg: bool) -> (r: Result<
    Decimal,
    ParseError,
>)
    requires
        acc <= COEFF_MAX,
        eacc <= 20000000000000000000000000000000u128,
    ensures
        r == sp_finish(
            acc as nat,
            fc as nat,
            if eneg {
                -(eacc as int)
            } else {
                eacc as int
            },
            neg,
        ),
        r matches Ok(v) ==> v.wf(),
{
    let exp: i128 = if eneg {
        -(eacc as i128)
    } else {
        eacc as i128
    };
    let scale_wide: i128 = fc as i128 - exp;
    if scale_wide > i16::MAX as i128 || scale_wide < i16::MIN as i128 {
        return Err(ParseError::ExponentOverflow);
    }
    Ok(
        Decimal {
            digits: acc,
            scale: scale_wide as i16,
            flags: Flags {
                sign: neg,
                nan: false,
                infinity: false,
                signals: SignalSet::empty(),
            },
        },
    )
}

impl Decimal {
    /// Parse a decimal from text, returning the value or a structured parse
    /// error.
    pub fn from_str(s: &str) -> (r: Result<Decimal, ParseError>)
        ensures
            r == spec_parse(s.spec_bytes()),
            r matches Ok(v) ==> v.wf(),
    {
        parse_bytes(s.as_bytes())
    }

    /// Parse a decimal from text that is known to be well formed. The caller
    /// owes the proof; in exchange the call cannot fail.
    pub fn parse_str(s: &str) -> (r: Decimal)
        requires
            spec_parse(s.spec_bytes()) is Ok,
        ensures
            Ok::<Decimal, ParseError>(r) == spec_parse(s.spec_bytes()),
            r.wf(),
    {
        match Self::from_str(s) {
            Ok(v) => v,
            Err(_) => vstd::pervasive::unreached(),
        }
    }
}

} // verus!
