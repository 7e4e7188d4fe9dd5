//! The escape decoder: the characters after a backslash become one decoded
//! character. Fixed single-character escapes come first, then octal code
//! points, then the `x`/`u`/`U` hexadecimal forms; a hexadecimal form that
//! was introduced but names no Unicode scalar value is a hard failure.

use vstd::prelude::*;
use vstd::string::StrSliceExecFns;

use crate::errors::{ErrorKind, ScanError};
use crate::text::{
    char_from_u32, class_run, in_class, is_dec_digit_char, is_hex_digit_char, is_oct_digit_char,
    is_unicode_scalar, lemma_class_run, lemma_pow_int_le, lemma_radix_val_bound, pow_int,
    push_char, radix_val, run_value, str_to_chars, take_class_run, test_class, CharClass,
};

verus! {

/// The ten fixed single-character escapes and their decoded characters.
pub open spec fn fixed_escape_char(c: char) -> Option<char> {
    if c == 'a' {
        Some('\x07')
    } else if c == 'b' {
        Some('\x08')
    } else if c == 'f' {
        Some('\x0c')
    } else if c == 'n' {
        Some('\n')
    } else if c == 'r' {
        Some('\r')
    } else if c == 't' {
        Some('\t')
    } else if c == 'v' {
        Some('\x0b')
    } else if c == '\\' {
        Some('\\')
    } else if c == '"' {
        Some('"')
    } else if c == '?' {
        Some('?')
    } else {
        None
    }
}

/// The escape sequence starting at `i` (the position just after the
/// backslash): the decoded character and how many characters the escape
/// consumed, or `None` when nothing matches there or a numeric form names no
/// Unicode scalar value. The alternatives are tried in priority order: fixed
/// escapes, then 1–3 octal digits, then `x`/`u`/`U` with 1–2, 1–4 and 1–8
/// hexadecimal digits, each run taken greedily.
pub open spec fn escape_ok_at(s: Seq<char>, i: int) -> Option<(char, int)> {
    if i < 0 || i >= s.len() {
        None
    } else if fixed_escape_char(s[i]) is Some {
        Some((fixed_escape_char(s[i]).unwrap(), 1))
    } else if is_oct_digit_char(s[i]) {
        let k = class_run(s, i, CharClass::Oct, 3);
        let v = radix_val(s, i, i + k, 8);
        if is_unicode_scalar(v) {
            Some(((v as u32) as char, k))
        } else {
            None
        }
    } else if s[i] == 'x' || s[i] == 'u' || s[i] == 'U' {
        let cap: int = if s[i] == 'x' {
            2
        } else if s[i] == 'u' {
            4
        } else {
            8
        };
        let k = class_run(s, i + 1, CharClass::Hex, cap);
        let v = radix_val(s, i + 1, i + 1 + k, 16);
        if k >= 1 && is_unicode_scalar(v) {
            Some(((v as u32) as char, 1 + k))
        } else {
            None
        }
    } else {
        None
    }
}

/// A hard failure: a hexadecimal escape introducer stands at `i`, but its
/// digits are missing or name no Unicode scalar value. Once `x`, `u` or `U`
/// is seen, no enclosing alternative may reinterpret the input.
pub open spec fn escape_hard_at(s: Seq<char>, i: int) -> bool {
    &&& 0 <= i < s.len()
    &&& (s[i] == 'x' || s[i] == 'u' || s[i] == 'U')
    &&& escape_ok_at(s, i) is None
}

/// A matched escape consumes at least one character and stays within the
/// text.
pub proof fn lemma_escape_consumed(s: Seq<char>, i: int)
    ensures
        escape_ok_at(s, i) matches Some((c, k)) ==> 1 <= k && i + k <= s.len(),
{
    if 0 <= i < s.len() {
        lemma_class_run(s, i, CharClass::Oct, 3);
        if i + 1 <= s.len() {
            lemma_class_run(s, i + 1, CharClass::Hex, 2);
            lemma_class_run(s, i + 1, CharClass::Hex, 4);
            lemma_class_run(s, i + 1, CharClass::Hex, 8);
        }
    }
}

/// Whether `c` is a hexadecimal digit, either letter case.
pub fn is_hex_digit(c: char) -> (r: bool)
    ensures
        r == is_hex_digit_char(c),
{
    test_class(CharClass::Hex, c)
}

/// Whether `c` is an octal digit.
pub fn is_oct_digit(c: char) -> (r: bool)
    ensures
        r == is_oct_digit_char(c),
{
    test_class(CharClass::Oct, c)
}

/// The fixed single-character escape for `c`, if any.
pub(crate) fn fixed_escape(c: char) -> (r: Option<char>)
    ensures
        r == fixed_escape_char(c),
{
    if c == 'a' {
        Some('\x07')
    } else if c == 'b' {
        Some('\x08')
    } else if c == 'f' {
        Some('\x0c')
    } else if c == 'n' {
        Some('\n')
    } else if c == 'r' {
        Some('\r')
    } else if c == 't' {
        Some('\t')
    } else if c == 'v' {
        Some('\x0b')
    } else if c == '\\' {
        Some('\\')
    } else if c == '"' {
        Some('"')
    } else if c == '?' {
        Some('?')
    } else {
        None
    }
}

/// Decodes 1 to 3 octal digits into the one character they name. Octal
/// values never reach the surrogate range, so this always succeeds; the
/// error type mirrors the hexadecimal forms' for uniformity.
pub fn octal_to_string(s: &str) -> (r: Result<String, ErrorKind>)
    requires
        1 <= s@.len() <= 3,
        forall|t: int| 0 <= t < s@.len() ==> is_oct_digit_char(s@[t]),
    ensures
        r matches Ok(out) && out@ == seq![(radix_val(s@, 0, s@.len() as int, 8) as u32) as char],
{
    let chars = str_to_chars(s);
    let v = run_value(&chars, 0, chars.len(), 8);
    proof {
        lemma_radix_val_bound(s@, 0, s@.len() as int, 8);
        lemma_pow_int_le(8, s@.len() as int, 3);
        assert(pow_int(8, 3) == 512) by {
            reveal_with_fuel(pow_int, 4);
        }
    }
    let c = match char_from_u32(v as u32) {
        Some(c) => c,
        None => {
            proof {
                assert(false);
            }
            ' '
        },
    };
    let mut out = String::new();
    push_char(&mut out, c);
    proof {
        assert(out@ =~= seq![(radix_val(s@, 0, s@.len() as int, 8) as u32) as char]);
    }
    Ok(out)
}

/// Decodes 1 to 8 hexadecimal digits into the one character they name, or
/// reports that the value is no Unicode scalar value.
pub fn hex_to_string(s: &str) -> (r: Result<String, ErrorKind>)
    requires
        1 <= s@.len() <= 8,
        forall|t: int| 0 <= t < s@.len() ==> is_hex_digit_char(s@[t]),
    ensures
        ({
            let v = radix_val(s@, 0, s@.len() as int, 16);
            if is_unicode_scalar(v) {
                r matches Ok(out) && out@ == seq![(v as u32) as char]
            } else {
                r == Err::<String, ErrorKind>(ErrorKind::InvalidUnicodeCodePoint)
            }
        }),
{
    let chars = str_to_chars(s);
    let v = run_value(&chars, 0, chars.len(), 16);
    match char_from_u32(v as u32) {
        Some(c) => {
            let mut out = String::new();
            push_char(&mut out, c);
            proof {
                assert(out@ =~= seq![(radix_val(s@, 0, s@.len() as int, 16) as u32) as char]);
            }
            Ok(out)
        },
        None => Err(ErrorKind::InvalidUnicodeCodePoint),
    }
}

/// The outcome of decoding one escape inside a content scan.
pub(crate) enum EscapeStep {
    /// The decoded character, and the index just past the escape.
    Decoded(char, usize),
    NoMatch,
    Hard,
}

/// Decodes the escape at `i`, the position just after a backslash.
pub(crate) fn scan_escape_at(s: &Vec<char>, i: usize) -> (r: EscapeStep)
    requires
        i <= s@.len(),
    ensures
        match escape_ok_at(s@, i as int) {
            Some((c, k)) => r matches EscapeStep::Decoded(c2, n) && c2 == c && n as int == i + k,
            None => if escape_hard_at(s@, i as int) {
                r is Hard
            } else {
                r is NoMatch
            },
        },
{
    if i == s.len() {
        return EscapeStep::NoMatch;
    }
    let c = s[i];
    match fixed_escape(c) {
        Some(d) => {
            return EscapeStep::Decoded(d, i + 1);
        },
        None => {},
    }
    if test_class(CharClass::Oct, c) {
        let j = take_class_run(s, i, CharClass::Oct, 3);
        proof {
            lemma_class_run(s@, i as int, CharClass::Oct, 3);
            lemma_radix_val_bound(s@, i as int, j as int, 8);
            lemma_pow_int_le(8, j - i, 3);
            assert(pow_int(8, 3) == 512) by {
                reveal_with_fuel(pow_int, 4);
            }
        }
        let v = run_value(s, i, j, 8);
        return match char_from_u32(v as u32) {
            Some(d) => EscapeStep::Decoded(d, j),
            None => {
                proof {
                    assert(false);
                }
                EscapeStep::NoMatch
            },
        };
    }
    if c == 'x' || c == 'u' || c == 'U' {
        let cap: usize = if c == 'x' {
            2
        } else if c == 'u' {
            4
        } else {
            8
        };
        let j = take_class_run(s, i + 1, CharClass::Hex, cap);
        proof {
            lemma_class_run(s@, i as int + 1, CharClass::Hex, cap as int);
        }
        if j == i + 1 {
            return EscapeStep::Hard;
        }
        let v = run_value(s, i + 1, j, 16);
        return match char_from_u32(v as u32) {
            Some(d) => EscapeStep::Decoded(d, j),
            None => EscapeStep::Hard,
        };
    }
    EscapeStep::NoMatch
}

/// Decodes the escape sequence at the start of `input`, the text just after
/// a backslash, returning the decoded fragment and the unconsumed remainder.
/// An unmatched introducer is a recoverable mismatch; a hexadecimal form
/// naming no Unicode scalar value is a hard failure.
pub fn unescape<'a>(input: &'a str) -> (r: Result<(String, &'a str), ScanError>)
    ensures
        match escape_ok_at(input@, 0) {
            Some((c, k)) => r matches Ok((out, rest)) && out@ == seq![c] && rest@ == input@.skip(
                k,
            ),
            None => r matches Err(e) && e.trail_wf() && if escape_hard_at(input@, 0) {
                e.is_hard() && e.kind == ErrorKind::InvalidUnicodeCodePoint
            } else {
                e.is_recoverable()
            },
        },
{
    let chars = str_to_chars(input);
    proof {
        lemma_escape_consumed(input@, 0);
    }
    match scan_escape_at(&chars, 0) {
        EscapeStep::Decoded(c, n) => {
            let mut out = String::new();
            push_char(&mut out, c);
            proof {
                let (cs, k) = escape_ok_at(input@, 0).unwrap();
                assert(out@ =~= seq![cs]);
            }
            let rest = input.substring_char(n, chars.len());
            Ok((out, rest))
        },
        EscapeStep::NoMatch => Err(
            ScanError::mismatch(input.to_owned(), ErrorKind::Alternative),
        ),
        EscapeStep::Hard => Err(
            ScanError::hard(input.to_owned(), ErrorKind::InvalidUnicodeCodePoint),
        ),
    }
}

/// Each fixed escape decodes to exactly its mapped character, consuming one
/// character.
pub proof fn lemma_fixed_escape_decodes(s: Seq<char>)
    requires
        s.len() >= 1,
        fixed_escape_char(s[0]) is Some,
    ensures
        escape_ok_at(s, 0) == Some((fixed_escape_char(s[0]).unwrap(), 1int)),
{
}

/// Distinct fixed escapes decode to distinct characters: among the fixed
/// single-character escapes, equal decoded values come only from identical
/// escape text. The numeric escape forms are excluded from this statement:
/// an octal or hexadecimal escape can name the same character as a fixed
/// escape (`\a` and `\x7` both decode to the bell character).
pub proof fn lemma_fixed_escapes_injective(c1: char, c2: char)
    requires
        fixed_escape_char(c1) is Some,
        fixed_escape_char(c2) is Some,
        fixed_escape_char(c1) == fixed_escape_char(c2),
    ensures
        c1 == c2,
{
}

} // verus!
