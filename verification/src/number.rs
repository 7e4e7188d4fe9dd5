//! Numeric literals: the scanner recognizes the longest prefix matching a
//! generic signed-float grammar and keeps it as text, for arbitrary
//! precision; fixed-width conversions are on demand and fallible,
//! independent of scanning.

use vstd::prelude::*;
use vstd::string::StrSliceExecFns;

use crate::errors::{ErrorKind, ScanError};
use crate::text::{
    chars_range_to_string, dec_run, digit_value, is_dec_digit_char, lemma_class_run,
    lemma_class_run_shift, radix_val, str_to_chars, take_class_run, CharClass,
};

verus! {

// --- the numeric grammar ---

/// The length of the optional sign at the start of a numeric token.
pub open spec fn sign_len(s: Seq<char>) -> int {
    if s.len() > 0 && (s[0] == '+' || s[0] == '-') {
        1
    } else {
        0
    }
}

/// The end of the mantissa starting at `i`: integer digits with an optional
/// `.` and optional fraction digits, or a `.` followed by digits; `None`
/// when neither stands at `i`.
pub open spec fn mantissa_end(s: Seq<char>, i: int) -> Option<int> {
    if 0 <= i < s.len() && is_dec_digit_char(s[i]) {
        let j = i + dec_run(s, i);
        if j < s.len() && s[j] == '.' {
            Some(j + 1 + dec_run(s, j + 1))
        } else {
            Some(j)
        }
    } else if 0 <= i && i + 1 < s.len() && s[i] == '.' && is_dec_digit_char(s[i + 1]) {
        Some(i + 1 + dec_run(s, i + 1))
    } else {
        None
    }
}

/// The end of the optional exponent at `i`: `e` or `E`, an optional sign,
/// then digits; when the digits are missing, nothing is consumed.
pub open spec fn exponent_end(s: Seq<char>, i: int) -> int {
    if 0 <= i < s.len() && (s[i] == 'e' || s[i] == 'E') {
        let j = if i + 1 < s.len() && (s[i + 1] == '+' || s[i + 1] == '-') {
            i + 2
        } else {
            i + 1
        };
        if j < s.len() && is_dec_digit_char(s[j]) {
            j + dec_run(s, j)
        } else {
            i
        }
    } else {
        i
    }
}

/// The longest prefix of `s` matching the numeric grammar: an optional
/// sign, a mantissa, and an optional exponent. `None` when no numeric
/// literal starts at the cursor.
pub open spec fn float_end(s: Seq<char>) -> Option<int> {
    match mantissa_end(s, sign_len(s)) {
        None => None,
        Some(m) => Some(exponent_end(s, m)),
    }
}

/// The token text of matched input: one leading `+` stripped, a leading `-`
/// kept.
pub open spec fn strip_plus(t: Seq<char>) -> Seq<char> {
    if t.len() > 0 && t[0] == '+' {
        t.skip(1)
    } else {
        t
    }
}

/// A matched numeric prefix is non-empty and lies within the input.
pub proof fn lemma_float_end_bounds(s: Seq<char>)
    ensures
        float_end(s) matches Some(n) ==> 0 < n <= s.len(),
{
    let i = sign_len(s);
    if 0 <= i < s.len() && is_dec_digit_char(s[i]) {
        lemma_class_run(s, i, CharClass::Dec, s.len() - i);
        let j = i + dec_run(s, i);
        if j < s.len() && s[j] == '.' {
            lemma_class_run(s, j + 1, CharClass::Dec, s.len() - (j + 1));
        }
    } else if 0 <= i && i + 1 < s.len() && s[i] == '.' && is_dec_digit_char(s[i + 1]) {
        lemma_class_run(s, i + 1, CharClass::Dec, s.len() - (i + 1));
    }
    if mantissa_end(s, i) is Some {
        let m = mantissa_end(s, i).unwrap();
        if 0 <= m < s.len() && (s[m] == 'e' || s[m] == 'E') {
            let j = if m + 1 < s.len() && (s[m + 1] == '+' || s[m + 1] == '-') {
                m + 2
            } else {
                m + 1
            };
            if j < s.len() && is_dec_digit_char(s[j]) {
                lemma_class_run(s, j, CharClass::Dec, s.len() - j);
            }
        }
    }
}

// --- the token ---

/// A numeric literal kept as its exact source text, for arbitrary
/// precision: nothing is normalized or rounded. The text is the matched
/// input with one leading `+` stripped; a leading `-` is part of the text.
#[derive(Debug, Clone, Hash)]
pub struct Number {
    text: String,
}

impl View for Number {
    type V = Seq<char>;

    closed spec fn view(&self) -> Seq<char> {
        self.text@
    }
}

impl PartialEq for Number {
    fn eq(&self, other: &Self) -> (r: bool) {
        self.text.eq(&other.text)
    }
}

impl Eq for Number {

}

impl vstd::std_specs::cmp::PartialEqSpecImpl for Number {
    open spec fn obeys_eq_spec() -> bool {
        true
    }

    open spec fn eq_spec(&self, other: &Number) -> bool {
        self@ == other@
    }
}

/// Why a conversion to a fixed-width type failed.
#[derive(Clone, Copy, Debug, PartialEq, Eq, Structural)]
pub enum NumberError {
    /// The text is not an optional sign followed by decimal digits.
    InvalidFormat,
    /// The value does not fit the requested type.
    OutOfRange,
}

/// The decimal text of a non-negative value: its digits, most significant
/// first, with no sign and no leading zero except for the value zero itself.
pub open spec fn dec_text(n: int) -> Seq<char>
    decreases n,
{
    if n < 10 {
        seq![(48 + (if n < 0 {
            0int
        } else {
            n
        })) as char]
    } else {
        dec_text(n / 10) + seq![(48 + n % 10) as char]
    }
}

/// The decimal text of a value: a `-` before the digits of a negative one.
pub open spec fn int_text(v: int) -> Seq<char> {
    if v < 0 {
        seq!['-'] + dec_text(-v)
    } else {
        dec_text(v)
    }
}

/// Appends the decimal digits of `v` to `out`, most significant first.
fn format_decimal(v: u128, out: &mut Vec<char>)
    ensures
        final(out)@ == old(out)@ + dec_text(v as int),
    decreases v,
{
    let d: u8 = (v % 10) as u8;
    let c: char = (48 + d) as char;
    if v < 10 {
        out.push(c);
        proof {
            assert(out@ =~= old(out)@ + dec_text(v as int));
        }
    } else {
        format_decimal(v / 10, out);
        out.push(c);
        proof {
            assert(out@ =~= old(out)@ + dec_text(v as int));
        }
    }
}

/// The integer value of sign-and-digits text: an optional `+` or `-`, then
/// one or more decimal digits and nothing else; `None` on any other shape.
pub open spec fn int_text_val(t: Seq<char>) -> Option<int> {
    let i = sign_len(t);
    if t.len() > i && dec_run(t, i) == t.len() - i {
        let mag = radix_val(t, i, t.len() as int, 10);
        Some(
            if i == 1 && t[0] == '-' {
                -mag
            } else {
                mag
            },
        )
    } else {
        None
    }
}

/// The sign and magnitude of sign-and-digits text: `None` when the shape is
/// wrong; a `None` magnitude when the value exceeds what 128 bits hold.
fn parse_decimal(t: &Vec<char>) -> (r: Option<(bool, Option<u128>)>)
    ensures
        r is Some <==> int_text_val(t@) is Some,
        r matches Some((neg, m)) ==> {
            let i = sign_len(t@);
            let mag = radix_val(t@, i, t@.len() as int, 10);
            &&& neg == (i == 1 && t@[0] == '-')
            &&& (m matches Some(x) ==> x as int == mag)
            &&& (m is None ==> mag > u128::MAX)
        },
{
    let n = t.len();
    let mut i: usize = 0;
    let mut neg = false;
    if n > 0 && (t[0] == '+' || t[0] == '-') {
        i = 1;
        neg = t[0] == '-';
    }
    if i >= n {
        return None;
    }
    let j = take_class_run(t, i, CharClass::Dec, n - i);
    proof {
        lemma_class_run(t@, i as int, CharClass::Dec, n - i);
    }
    if j != n {
        return None;
    }
    let mut acc: u128 = 0;
    let mut overflow = false;
    let mut k = i;
    while k < n
        invariant
            i <= k <= n,
            n == t@.len(),
            forall|q: int| i <= q < n ==> is_dec_digit_char(t@[q]),
            !overflow ==> acc as int == radix_val(t@, i as int, k as int, 10),
            overflow ==> radix_val(t@, i as int, k as int, 10) > u128::MAX,
        decreases n - k,
    {
        let d = digit_value(t[k]);
        let ghost prev = radix_val(t@, i as int, k as int, 10);
        proof {
            lemma_class_run(t@, i as int, CharClass::Dec, n - i);
            lemma_radix_val_nonneg_local(t@, i as int, k as int);
        }
        if overflow {
            proof {
                assert(prev * 10 >= prev) by (nonlinear_arith)
                    requires
                        prev >= 0,
                ;
            }
        } else if acc > 34028236692093846346337460743176821145u128 {
            proof {
                assert((acc as int) * 10 >= (34028236692093846346337460743176821146int) * 10)
                    by (nonlinear_arith)
                    requires
                        acc as int >= 34028236692093846346337460743176821146int,
                ;
            }
            overflow = true;
        } else {
            let next = acc * 10;
            proof {
                assert((acc as int) * 10 <= (34028236692093846346337460743176821145int) * 10)
                    by (nonlinear_arith)
                    requires
                        acc as int <= 34028236692093846346337460743176821145int,
                ;
            }
            if (d as u128) > u128::MAX - next {
                overflow = true;
            } else {
                acc = next + (d as u128);
            }
        }
        k = k + 1;
    }
    Some((neg, if overflow {
        None
    } else {
        Some(acc)
    }))
}

/// A digit-sequence value is never negative.
proof fn lemma_radix_val_nonneg_local(s: Seq<char>, i: int, j: int)
    ensures
        i <= j ==> radix_val(s, i, j, 10) >= 0,
    decreases j - i,
{
    if i < j {
        lemma_radix_val_nonneg_local(s, i, j - 1);
        let v = radix_val(s, i, j - 1, 10);
        assert(v * 10 >= 0) by (nonlinear_arith)
            requires
                v >= 0,
        ;
    }
}

impl Number {
    /// Wraps source text as a numeric token, stripping one leading `+`: the
    /// tokens of `+12345` and `12345` hold the same text.
    pub fn from_text(s: &str) -> (r: Number)
        ensures
            r@ == strip_plus(s@),
    {
        let n = s.unicode_len();
        if n > 0 && s.get_char(0) == '+' {
            Number { text: s.substring_char(1, n).to_owned() }
        } else {
            Number { text: s.to_owned() }
        }
    }

    /// The token's text.
    pub fn as_str(&self) -> (r: &str)
        ensures
            r@ == self@,
    {
        self.text.as_str()
    }

    /// An owned copy of the token, for storage beyond the input's lifetime.
    pub fn as_owned(&self) -> (r: Number)
        ensures
            r@ == self@,
    {
        Number { text: self.text.clone() }
    }

    /// A token holding the decimal text of an unsigned value.
    pub fn from_u128(v: u128) -> (r: Number)
        ensures
            r@ == dec_text(v as int),
    {
        let mut digits: Vec<char> = Vec::new();
        format_decimal(v, &mut digits);
        let text = chars_range_to_string(&digits, 0, digits.len());
        proof {
            assert(digits@.subrange(0, digits@.len() as int) =~= digits@);
            assert(Seq::<char>::empty() + dec_text(v as int) =~= dec_text(v as int));
        }
        Number { text }
    }

    /// A token holding the decimal text of the value, as [`Number::from_u128`].
    pub fn from_u8(v: u8) -> (r: Number)
        ensures
            r@ == dec_text(v as int),
    {
        Number::from_u128(v as u128)
    }

    /// A token holding the decimal text of the value, as [`Number::from_u128`].
    pub fn from_u16(v: u16) -> (r: Number)
        ensures
            r@ == dec_text(v as int),
    {
        Number::from_u128(v as u128)
    }

    /// A token holding the decimal text of the value, as [`Number::from_u128`].
    pub fn from_u32(v: u32) -> (r: Number)
        ensures
            r@ == dec_text(v as int),
    {
        Number::from_u128(v as u128)
    }

    /// A token holding the decimal text of the value, as [`Number::from_u128`].
    pub fn from_u64(v: u64) -> (r: Number)
        ensures
            r@ == dec_text(v as int),
    {
        Number::from_u128(v as u128)
    }

    /// A token holding the decimal text of a signed value: a `-` before the
    /// digits of a negative one.
    pub fn from_i128(v: i128) -> (r: Number)
        ensures
            r@ == int_text(v as int),
    {
        if v >= 0 {
            Number::from_u128(v as u128)
        } else {
            let mag: u128 = if v == i128::MIN {
                170141183460469231731687303715884105728u128
            } else {
                (-v) as u128
            };
            proof {
                assert(mag as int == -(v as int));
            }
            let mut digits: Vec<char> = Vec::new();
            digits.push('-');
            format_decimal(mag, &mut digits);
            let text = chars_range_to_string(&digits, 0, digits.len());
            proof {
                assert(digits@.subrange(0, digits@.len() as int) =~= digits@);
                assert(seq!['-'] + dec_text(mag as int) =~= int_text(v as int));
            }
            Number { text }
        }
    }

    /// A token holding the decimal text of the value, as [`Number::from_i128`].
    pub fn from_i8(v: i8) -> (r: Number)
        ensures
            r@ == int_text(v as int),
    {
        Number::from_i128(v as i128)
    }

    /// A token holding the decimal text of the value, as [`Number::from_i128`].
    pub fn from_i16(v: i16) -> (r: Number)
        ensures
            r@ == int_text(v as int),
    {
        Number::from_i128(v as i128)
    }

    /// A token holding the decimal text of the value, as [`Number::from_i128`].
    pub fn from_i32(v: i32) -> (r: Number)
        ensures
            r@ == int_text(v as int),
    {
        Number::from_i128(v as i128)
    }

    /// A token holding the decimal text of the value, as [`Number::from_i128`].
    pub fn from_i64(v: i64) -> (r: Number)
        ensures
            r@ == int_text(v as int),
    {
        Number::from_i128(v as i128)
    }

    /// Conversion to `u8`: `Ok` exactly when the text is an optional sign
    /// and decimal digits whose value fits.
    pub fn as_u8(&self) -> (r: Result<u8, NumberError>)
        ensures
            match int_text_val(self@) {
                Some(v) => r == if 0 <= v <= u8::MAX {
                    Ok::<u8, NumberError>(v as u8)
                } else {
                    Err::<u8, NumberError>(NumberError::OutOfRange)
                },
                None => r == Err::<u8, NumberError>(NumberError::InvalidFormat),
            },
    {
        match self.parse_unsigned(u8::MAX as u128) {
            Ok(x) => Ok(x as u8),
            Err(e) => Err(e),
        }
    }

    /// Conversion to `u16`, as [`Number::as_u8`] for its range.
    pub fn as_u16(&self) -> (r: Result<u16, NumberError>)
        ensures
            match int_text_val(self@) {
                Some(v) => r == if 0 <= v <= u16::MAX {
                    Ok::<u16, NumberError>(v as u16)
                } else {
                    Err::<u16, NumberError>(NumberError::OutOfRange)
                },
                None => r == Err::<u16, NumberError>(NumberError::InvalidFormat),
            },
    {
        match self.parse_unsigned(u16::MAX as u128) {
            Ok(x) => Ok(x as u16),
            Err(e) => Err(e),
        }
    }

    /// Conversion to `u32`, as [`Number::as_u8`] for its range.
    pub fn as_u32(&self) -> (r: Result<u32, NumberError>)
        ensures
            match int_text_val(self@) {
                Some(v) => r == if 0 <= v <= u32::MAX {
                    Ok::<u32, NumberError>(v as u32)
                } else {
                    Err::<u32, NumberError>(NumberError::OutOfRange)
                },
                None => r == Err::<u32, NumberError>(NumberError::InvalidFormat),
            },
    {
        match self.parse_unsigned(u32::MAX as u128) {
            Ok(x) => Ok(x as u32),
            Err(e) => Err(e),
        }
    }

    /// Conversion to `u64`, as [`Number::as_u8`] for its range.
    pub fn as_u64(&self) -> (r: Result<u64, NumberError>)
        ensures
            match int_text_val(self@) {
                Some(v) => r == if 0 <= v <= u64::MAX {
                    Ok::<u64, NumberError>(v as u64)
                } else {
                    Err::<u64, NumberError>(NumberError::OutOfRange)
                },
                None => r == Err::<u64, NumberError>(NumberError::InvalidFormat),
            },
    {
        match self.parse_unsigned(u64::MAX as u128) {
            Ok(x) => Ok(x as u64),
            Err(e) => Err(e),
        }
    }

    /// Conversion to `u128`, as [`Number::as_u8`] for its range.
    pub fn as_u128(&self) -> (r: Result<u128, NumberError>)
        ensures
            match int_text_val(self@) {
                Some(v) => r == if 0 <= v <= u128::MAX {
                    Ok::<u128, NumberError>(v as u128)
                } else {
                    Err::<u128, NumberError>(NumberError::OutOfRange)
                },
                None => r == Err::<u128, NumberError>(NumberError::InvalidFormat),
            },
    {
        self.parse_unsigned(u128::MAX)
    }

    /// The unsigned conversion shared by the fixed-width targets.
    fn parse_unsigned(&self, max: u128) -> (r: Result<u128, NumberError>)
        ensures
            match int_text_val(self@) {
                Some(v) => r == if 0 <= v <= max {
                    Ok::<u128, NumberError>(v as u128)
                } else {
                    Err::<u128, NumberError>(NumberError::OutOfRange)
                },
                None => r == Err::<u128, NumberError>(NumberError::InvalidFormat),
            },
    {
        let chars = str_to_chars(self.text.as_str());
        match parse_decimal(&chars) {
            None => Err(NumberError::InvalidFormat),
            Some((neg, m)) => match m {
                None => Err(NumberError::OutOfRange),
                Some(x) => {
                    if neg {
                        if x == 0 {
                            Ok(0)
                        } else {
                            Err(NumberError::OutOfRange)
                        }
                    } else if x <= max {
                        Ok(x)
                    } else {
                        Err(NumberError::OutOfRange)
                    }
                },
            },
        }
    }

    /// The signed conversion shared by the fixed-width targets: the value
    /// when it lies in `[-bound - 1, bound]`.
    fn parse_signed(&self, bound: u128) -> (r: Result<(bool, u128), NumberError>)
        requires
            bound < u128::MAX,
        ensures
            match int_text_val(self@) {
                Some(v) => if -(bound as int) - 1 <= v <= bound as int {
                    r matches Ok((neg, x)) && v == if neg {
                        -(x as int)
                    } else {
                        x as int
                    }
                } else {
                    r == Err::<(bool, u128), NumberError>(NumberError::OutOfRange)
                },
                None => r == Err::<(bool, u128), NumberError>(NumberError::InvalidFormat),
            },
    {
        let chars = str_to_chars(self.text.as_str());
        match parse_decimal(&chars) {
            None => Err(NumberError::InvalidFormat),
            Some((neg, m)) => match m {
                None => Err(NumberError::OutOfRange),
                Some(x) => {
                    if neg {
                        if x <= bound + 1 {
                            Ok((true, x))
                        } else {
                            Err(NumberError::OutOfRange)
                        }
                    } else if x <= bound {
                        Ok((false, x))
                    } else {
                        Err(NumberError::OutOfRange)
                    }
                },
            },
        }
    }

    /// Conversion to `i8`: `Ok` exactly when the text is an optional sign
    /// and decimal digits whose value fits.
    pub fn as_i8(&self) -> (r: Result<i8, NumberError>)
        ensures
            match int_text_val(self@) {
                Some(v) => r == if i8::MIN <= v <= i8::MAX {
                    Ok::<i8, NumberError>(v as i8)
                } else {
                    Err::<i8, NumberError>(NumberError::OutOfRange)
                },
                None => r == Err::<i8, NumberError>(NumberError::InvalidFormat),
            },
    {
        match self.parse_signed(i8::MAX as u128) {
            Ok((neg, x)) => if neg && x == (i8::MAX as u128) + 1 {
                Ok(i8::MIN)
            } else if neg {
                Ok(-(x as i8))
            } else {
                Ok(x as i8)
            },
            Err(e) => Err(e),
        }
    }

    /// Conversion to `i16`, as [`Number::as_i8`] for its range.
    pub fn as_i16(&self) -> (r: Result<i16, NumberError>)
        ensures
            match int_text_val(self@) {
                Some(v) => r == if i16::MIN <= v <= i16::MAX {
                    Ok::<i16, NumberError>(v as i16)
                } else {
                    Err::<i16, NumberError>(NumberError::OutOfRange)
                },
                None => r == Err::<i16, NumberError>(NumberError::InvalidFormat),
            },
    {
        match self.parse_signed(i16::MAX as u128) {
            Ok((neg, x)) => if neg && x == (i16::MAX as u128) + 1 {
                Ok(i16::MIN)
            } else if neg {
                Ok(-(x as i16))
            } else {
                Ok(x as i16)
            },
            Err(e) => Err(e),
        }
    }

    /// Conversion to `i32`, as [`Number::as_i8`] for its range.
    pub fn as_i32(&self) -> (r: Result<i32, NumberError>)
        ensures
            match int_text_val(self@) {
                Some(v) => r == if i32::MIN <= v <= i32::MAX {
                    Ok::<i32, NumberError>(v as i32)
                } else {
                    Err::<i32, NumberError>(NumberError::OutOfRange)
                },
                None => r == Err::<i32, NumberError>(NumberError::InvalidFormat),
            },
    {
        match self.parse_signed(i32::MAX as u128) {
            Ok((neg, x)) => if neg && x == (i32::MAX as u128) + 1 {
                Ok(i32::MIN)
            } else if neg {
                Ok(-(x as i32))
            } else {
                Ok(x as i32)
            },
            Err(e) => Err(e),
        }
    }

    /// Conversion to `i64`, as [`Number::as_i8`] for its range.
    pub fn as_i64(&self) -> (r: Result<i64, NumberError>)
        ensures
            match int_text_val(self@) {
                Some(v) => r == if i64::MIN <= v <= i64::MAX {
                    Ok::<i64, NumberError>(v as i64)
                } else {
                    Err::<i64, NumberError>(NumberError::OutOfRange)
                },
                None => r == Err::<i64, NumberError>(NumberError::InvalidFormat),
            },
    {
        match self.parse_signed(i64::MAX as u128) {
            Ok((neg, x)) => if neg && x == (i64::MAX as u128) + 1 {
                Ok(i64::MIN)
            } else if neg {
                Ok(-(x as i64))
            } else {
                Ok(x as i64)
            },
            Err(e) => Err(e),
        }
    }

    /// Conversion to `i128`, as [`Number::as_i8`] for its range.
    pub fn as_i128(&self) -> (r: Result<i128, NumberError>)
        ensures
            match int_text_val(self@) {
                Some(v) => r == if i128::MIN <= v <= i128::MAX {
                    Ok::<i128, NumberError>(v as i128)
                } else {
                    Err::<i128, NumberError>(NumberError::OutOfRange)
                },
                None => r == Err::<i128, NumberError>(NumberError::InvalidFormat),
            },
    {
        match self.parse_signed(i128::MAX as u128) {
            Ok((neg, x)) => if neg && x == (i128::MAX as u128) + 1 {
                Ok(i128::MIN)
            } else if neg {
                Ok(-(x as i128))
            } else {
                Ok(x as i128)
            },
            Err(e) => Err(e),
        }
    }
}

// --- the scanner ---

/// Scans the longest numeric literal at the start of `input`: an optional
/// sign, a mantissa, an optional exponent. Yields the token — the matched
/// text with one leading `+` stripped — and the unconsumed remainder, or a
/// recoverable mismatch when no numeric literal starts there.
#[verifier::rlimit(60)]
pub fn number<'a>(input: &'a str) -> (r: Result<(Number, &'a str), ScanError>)
    ensures
        match float_end(input@) {
            Some(n) => r matches Ok((num, rest)) && num@ == strip_plus(input@.subrange(0, n))
                && rest@ == input@.skip(n),
            None => r matches Err(e) && e.is_recoverable() && e.trail_wf(),
        },
{
    let chars = str_to_chars(input);
    proof {
        lemma_float_end_bounds(input@);
    }
    let n = chars.len();
    let mut i: usize = 0;
    if n > 0 && (chars[0] == '+' || chars[0] == '-') {
        i = 1;
    }
    let m: usize;
    if i < n && test_dec(chars[i]) {
        proof {
            lemma_class_run(input@, i as int, CharClass::Dec, n - i);
        }
        let j = take_class_run(&chars, i, CharClass::Dec, n - i);
        if j < n && chars[j] == '.' {
            proof {
                lemma_class_run(input@, j as int + 1, CharClass::Dec, n - (j + 1));
            }
            m = take_class_run(&chars, j + 1, CharClass::Dec, n - (j + 1));
        } else {
            m = j;
        }
    } else if i < n && chars[i] == '.' && i + 1 < n && test_dec(chars[i + 1]) {
        proof {
            lemma_class_run(input@, i as int + 1, CharClass::Dec, n - (i + 1));
        }
        m = take_class_run(&chars, i + 1, CharClass::Dec, n - (i + 1));
    } else {
        return Err(ScanError::mismatch(input.to_owned(), ErrorKind::CharClass));
    }
    proof {
        assert(mantissa_end(input@, sign_len(input@)) == Some(m as int));
    }
    let end: usize;
    if m < n && (chars[m] == 'e' || chars[m] == 'E') {
        let j = if m + 1 < n && (chars[m + 1] == '+' || chars[m + 1] == '-') {
            m + 2
        } else {
            m + 1
        };
        if j < n && test_dec(chars[j]) {
            proof {
                lemma_class_run(input@, j as int, CharClass::Dec, n - j);
            }
            end = take_class_run(&chars, j, CharClass::Dec, n - j);
        } else {
            end = m;
        }
    } else {
        end = m;
    }
    proof {
        assert(exponent_end(input@, m as int) == end as int);
        assert(float_end(input@) == Some(end as int));
    }
    let start: usize = if chars[0] == '+' {
        1
    } else {
        0
    };
    let token = input.substring_char(start, end);
    proof {
        assert(input@.subrange(start as int, end as int) =~= strip_plus(
            input@.subrange(0, end as int),
        ));
    }
    let rest = input.substring_char(end, n);
    Ok((Number { text: token.to_owned() }, rest))
}

/// Whether `c` is a decimal digit.
fn test_dec(c: char) -> (r: bool)
    ensures
        r == is_dec_digit_char(c),
{
    let v = c as u32;
    48 <= v && v <= 57
}

// --- the stripping law ---

/// On text that matches the numeric grammar in full, stripping a leading
/// `+` is idempotent: the token built from a token's text holds the same
/// text, since a recognized mantissa never starts with `+`.
pub proof fn lemma_strip_plus_idempotent(t: Seq<char>)
    requires
        float_end(t) == Some(t.len() as int),
    ensures
        strip_plus(strip_plus(t)) == strip_plus(t),
{
    if t.len() > 0 && t[0] == '+' {
        assert(mantissa_end(t, 1) is Some);
        assert(strip_plus(t) == t.skip(1));
        assert(t.skip(1)[0] == t[1]);
    }
}

/// Re-parsing a token's text is idempotent: text that matches the grammar in
/// full still matches it in full once its leading `+` is stripped, so the
/// scanner recognizes the stripped text whole and strips nothing further.
pub proof fn lemma_strip_plus_reparse(t: Seq<char>)
    requires
        float_end(t) == Some(t.len() as int),
    ensures
        float_end(strip_plus(t)) == Some(strip_plus(t).len() as int),
{
    if !(t.len() > 0 && t[0] == '+') {
        return ;
    }
    let u = t.skip(1);
    let n = t.len() as int;
    assert(mantissa_end(t, 1) is Some);
    assert(u[0] == t[1]);
    assert(sign_len(u) == 0);
    let m = mantissa_end(t, 1).unwrap();
    if is_dec_digit_char(t[1]) {
        lemma_class_run_shift(t, 1, 1, CharClass::Dec, n - 1);
        let j = 1 + dec_run(t, 1);
        lemma_class_run(t, 1, CharClass::Dec, n - 1);
        if j < n && t[j] == '.' {
            assert(u[j - 1] == t[j]);
            lemma_class_run_shift(t, 1, j + 1, CharClass::Dec, n - (j + 1));
        }
    } else {
        assert(t[1] == '.' && is_dec_digit_char(t[2]));
        assert(u[1] == t[2]);
        lemma_class_run_shift(t, 1, 2, CharClass::Dec, n - 2);
    }
    assert(mantissa_end(u, 0) == Some(m - 1));
    assert(exponent_end(t, m) == n);
    if 0 <= m < n && (t[m] == 'e' || t[m] == 'E') {
        assert(u[m - 1] == t[m]);
        let j = if m + 1 < n && (t[m + 1] == '+' || t[m + 1] == '-') {
            m + 2
        } else {
            m + 1
        };
        if m + 1 < n {
            assert(u[m] == t[m + 1]);
        }
        if j < n && is_dec_digit_char(t[j]) {
            assert(u[j - 1] == t[j]);
            lemma_class_run_shift(t, 1, j, CharClass::Dec, n - j);
        }
    }
    assert(exponent_end(u, m - 1) == n - 1);
}

} // verus!
