//! Byte-slice entry points: external callers holding raw bytes reach the
//! two scanning entry points without depending on the text wrapper the
//! scanners use internally. The bytes must be well-formed UTF-8; anything
//! else is a recoverable mismatch.

use vstd::prelude::*;
use vstd::utf8::{decode_utf8, encode_utf8, encode_utf8_decode_utf8, valid_utf8};

use crate::errors::{ErrorKind, ScanError};
use crate::number::{float_end, number, strip_plus, Number};
use crate::string::{string, string_scan, Scanned};

verus! {

/// Relies on `str::from_utf8`: it returns `Ok` exactly on well-formed
/// UTF-8, and then the string's bytes are the input bytes.
#[verifier::external_body]
fn bytes_to_str<'a>(v: &'a [u8]) -> (r: Option<&'a str>)
    ensures
        r is Some <==> valid_utf8(v@),
        r matches Some(s) ==> encode_utf8(s@) == v@,
{
    match str::from_utf8(v) {
        Ok(s) => Some(s),
        Err(_) => None,
    }
}

/// The UTF-8 bytes of a text slice.
fn str_bytes<'a>(s: &'a str) -> (r: &'a [u8])
    ensures
        r@ == encode_utf8(s@),
{
    s.as_bytes()
}

/// Scans a numeric literal on raw bytes: [`number`] over the decoded text,
/// with the remainder handed back as the bytes that encode it. Bytes that
/// are not well-formed UTF-8 are a recoverable mismatch.
pub fn number_bytes<'a>(input: &'a [u8]) -> (r: Result<(Number, &'a [u8]), ScanError>)
    ensures
        !valid_utf8(input@) ==> (r matches Err(e) && e.is_recoverable() && e.trail_wf()),
        valid_utf8(input@) ==> ({
            let s = decode_utf8(input@);
            match float_end(s) {
                Some(n) => r matches Ok((num, rest)) && num@ == strip_plus(s.subrange(0, n))
                    && rest@ == encode_utf8(s.skip(n)),
                None => r matches Err(e) && e.is_recoverable() && e.trail_wf(),
            }
        }),
{
    let text = match bytes_to_str(input) {
        Some(text) => text,
        None => {
            return Err(ScanError::mismatch(String::new(), ErrorKind::CharClass));
        },
    };
    proof {
        encode_utf8_decode_utf8(text@);
    }
    match number(text) {
        Ok((num, rest)) => Ok((num, str_bytes(rest))),
        Err(e) => Err(e),
    }
}

/// Scans a string literal — quoted or heredoc — on raw bytes: [`string`]
/// over the decoded text, with the remainder handed back as the bytes that
/// encode it. Bytes that are not well-formed UTF-8 are a recoverable
/// mismatch.
pub fn string_bytes<'a>(input: &'a [u8]) -> (r: Result<(String, &'a [u8]), ScanError>)
    ensures
        !valid_utf8(input@) ==> (r matches Err(e) && e.is_recoverable() && e.trail_wf()),
        valid_utf8(input@) ==> ({
            let s = decode_utf8(input@);
            match string_scan(s) {
                Scanned::Match { text, end } => r matches Ok((out, rest)) && out@ == text && rest@
                    == encode_utf8(s.skip(end)),
                Scanned::Mismatch => r matches Err(e) && e.is_recoverable() && e.trail_wf(),
                Scanned::HardFail => r matches Err(e) && e.is_hard() && e.kind
                    == ErrorKind::InvalidUnicodeCodePoint && e.trail_wf(),
            }
        }),
{
    let text = match bytes_to_str(input) {
        Some(text) => text,
        None => {
            return Err(ScanError::mismatch(String::new(), ErrorKind::CharClass));
        },
    };
    proof {
        encode_utf8_decode_utf8(text@);
    }
    match string(text) {
        Ok((out, rest)) => Ok((out, str_bytes(rest))),
        Err(e) => Err(e),
    }
}

} // verus!
