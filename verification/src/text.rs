//! Character classes, character runs, digit-sequence values and line
//! geometry: the text-scanning primitives every scanner is specified and
//! proved against, together with the few bridges to `std` that they need.

use vstd::prelude::*;
use vstd::string::StrSliceExecFns;

verus! {

// --- character classes ---

/// A decimal digit.
pub open spec fn is_dec_digit_char(c: char) -> bool {
    48 <= c as int && c as int <= 57
}

/// A hexadecimal digit, either letter case.
pub open spec fn is_hex_digit_char(c: char) -> bool {
    is_dec_digit_char(c) || (97 <= c as int && c as int <= 102) || (65 <= c as int && c as int
        <= 70)
}

/// An octal digit.
pub open spec fn is_oct_digit_char(c: char) -> bool {
    48 <= c as int && c as int <= 55
}

/// The numeric value of a digit in any radix used here; 0 on other
/// characters, so the value is always non-negative.
pub open spec fn digit_val(c: char) -> int {
    if 48 <= c as int && c as int <= 57 {
        c as int - 48
    } else if 97 <= c as int && c as int <= 102 {
        c as int - 87
    } else if 65 <= c as int && c as int <= 70 {
        c as int - 55
    } else {
        0
    }
}

/// The Unicode character-class test behind heredoc identifiers. Its exact
/// extent is `char::is_alphanumeric`'s; nothing more is assumed of it.
pub uninterp spec fn alphanumeric_char(c: char) -> bool;

/// A character a heredoc identifier may contain.
pub open spec fn ident_char(c: char) -> bool {
    alphanumeric_char(c) || c == '_'
}

/// The character classes whose runs the scanners take.
#[derive(Clone, Copy, Debug, PartialEq, Eq, Structural)]
pub enum CharClass {
    Dec,
    Hex,
    Oct,
    /// A space, the only character the dedent transform strips.
    Space,
    /// Horizontal space before a heredoc close marker: space or tab.
    Blank,
    /// A heredoc identifier character: alphanumeric or underscore.
    Ident,
}

/// Membership of a character in a class.
pub open spec fn in_class(cls: CharClass, c: char) -> bool {
    match cls {
        CharClass::Dec => is_dec_digit_char(c),
        CharClass::Hex => is_hex_digit_char(c),
        CharClass::Oct => is_oct_digit_char(c),
        CharClass::Space => c == ' ',
        CharClass::Blank => c == ' ' || c == '\t',
        CharClass::Ident => ident_char(c),
    }
}

/// How many consecutive characters of `s` from `i` lie in `cls`, never more
/// than `cap`.
pub open spec fn class_run(s: Seq<char>, i: int, cls: CharClass, cap: int) -> int
    decreases cap,
{
    if cap <= 0 || i < 0 || i >= s.len() || !in_class(cls, s[i]) {
        0
    } else {
        1 + class_run(s, i + 1, cls, cap - 1)
    }
}

/// The uncapped run of decimal digits from `i`.
pub open spec fn dec_run(s: Seq<char>, i: int) -> int {
    class_run(s, i, CharClass::Dec, s.len() - i)
}

/// The shape of a class run: bounded by the cap and the input, made of class
/// members, and stopped only by the cap, the end, or a non-member.
pub proof fn lemma_class_run(s: Seq<char>, i: int, cls: CharClass, cap: int)
    requires
        0 <= i <= s.len(),
        0 <= cap,
    ensures
        0 <= class_run(s, i, cls, cap) <= cap,
        i + class_run(s, i, cls, cap) <= s.len(),
        forall|t: int| i <= t < i + class_run(s, i, cls, cap) ==> in_class(cls, s[t]),
        class_run(s, i, cls, cap) < cap && i + class_run(s, i, cls, cap) < s.len() ==> !in_class(
            cls,
            s[i + class_run(s, i, cls, cap)],
        ),
    decreases cap,
{
    if !(cap <= 0 || i >= s.len() || !in_class(cls, s[i])) {
        lemma_class_run(s, i + 1, cls, cap - 1);
    }
}

/// A class run seen from `i` in a suffix of `s` is the class run in `s`,
/// shifted.
pub proof fn lemma_class_run_shift(s: Seq<char>, d: int, i: int, cls: CharClass, cap: int)
    requires
        0 <= d <= i <= s.len(),
    ensures
        class_run(s, i, cls, cap) == class_run(s.skip(d), i - d, cls, cap),
    decreases cap,
{
    if cap > 0 && i < s.len() {
        assert(s.skip(d)[i - d] == s[i]);
        if in_class(cls, s[i]) {
            lemma_class_run_shift(s, d, i + 1, cls, cap - 1);
        }
    }
}

// --- digit-sequence values ---

/// The value of the digits `s[i..j]` read in the given radix, most
/// significant first.
pub open spec fn radix_val(s: Seq<char>, i: int, j: int, radix: int) -> int
    decreases j - i,
{
    if j <= i {
        0
    } else {
        radix_val(s, i, j - 1, radix) * radix + digit_val(s[j - 1])
    }
}

/// `radix^e` for non-negative `e`.
pub open spec fn pow_int(radix: int, e: int) -> int
    decreases e,
{
    if e <= 0 {
        1
    } else {
        radix * pow_int(radix, e - 1)
    }
}

/// A digit-sequence value is non-negative and below `radix^(j-i)` when each
/// digit is below the radix.
pub proof fn lemma_radix_val_bound(s: Seq<char>, i: int, j: int, radix: int)
    requires
        2 <= radix,
        i <= j,
        forall|t: int| i <= t < j ==> digit_val(s[t]) < radix,
    ensures
        0 <= radix_val(s, i, j, radix) < pow_int(radix, j - i),
    decreases j - i,
{
    if j > i {
        lemma_radix_val_bound(s, i, j - 1, radix);
        let p = pow_int(radix, j - 1 - i);
        let v = radix_val(s, i, j - 1, radix);
        assert(v * radix + digit_val(s[j - 1]) < p * radix) by (nonlinear_arith)
            requires
                0 <= v < p,
                2 <= radix,
                digit_val(s[j - 1]) < radix,
        ;
        assert(pow_int(radix, j - i) == radix * pow_int(radix, j - i - 1));
        assert(p * radix == radix * p) by (nonlinear_arith);
    }
}

/// Powers of a positive radix never shrink as the exponent grows.
pub proof fn lemma_pow_int_le(radix: int, e1: int, e2: int)
    requires
        1 <= radix,
        0 <= e1 <= e2,
    ensures
        pow_int(radix, e1) <= pow_int(radix, e2),
        1 <= pow_int(radix, e1),
    decreases e2,
{
    if e2 > 0 {
        if e1 == e2 {
            lemma_pow_int_le(radix, e1 - 1, e2 - 1);
            assert(radix * pow_int(radix, e2 - 1) >= 1 * pow_int(radix, e2 - 1))
                by (nonlinear_arith)
                requires
                    1 <= radix,
                    pow_int(radix, e2 - 1) >= 1,
            ;
        } else {
            lemma_pow_int_le(radix, e1, e2 - 1);
            assert(radix * pow_int(radix, e2 - 1) >= 1 * pow_int(radix, e2 - 1))
                by (nonlinear_arith)
                requires
                    1 <= radix,
                    pow_int(radix, e2 - 1) >= 1,
            ;
        }
    }
}

/// A larger radix never gives a smaller power.
pub proof fn lemma_pow_int_base_le(b1: int, b2: int, e: int)
    requires
        1 <= b1 <= b2,
        0 <= e,
    ensures
        pow_int(b1, e) <= pow_int(b2, e),
        1 <= pow_int(b1, e),
    decreases e,
{
    if e > 0 {
        lemma_pow_int_base_le(b1, b2, e - 1);
        assert(b1 * pow_int(b1, e - 1) <= b2 * pow_int(b2, e - 1) && 1 <= b1 * pow_int(b1, e - 1))
            by (nonlinear_arith)
            requires
                1 <= b1 <= b2,
                1 <= pow_int(b1, e - 1) <= pow_int(b2, e - 1),
        ;
    }
}

/// The value of the digit run `s[i..j]` in the given radix; the run is short
/// enough that the value fits comfortably.
pub(crate) fn run_value(s: &Vec<char>, i: usize, j: usize, radix: u32) -> (v: u64)
    requires
        i <= j <= s@.len(),
        j - i <= 8,
        2 <= radix <= 16,
        forall|t: int| i <= t < j ==> digit_val(s@[t]) < radix as int,
    ensures
        v as int == radix_val(s@, i as int, j as int, radix as int),
        v < 0x100000000,
{
    let mut acc: u64 = 0;
    let mut t = i;
    proof {
        lemma_radix_val_bound(s@, i as int, i as int, radix as int);
    }
    while t < j
        invariant
            i <= t <= j <= s@.len(),
            j - i <= 8,
            2 <= radix <= 16,
            forall|k: int| i <= k < j ==> digit_val(s@[k]) < radix as int,
            acc as int == radix_val(s@, i as int, t as int, radix as int),
            acc < 0x100000000,
        decreases j - t,
    {
        proof {
            lemma_radix_val_bound(s@, i as int, t as int, radix as int);
            lemma_pow_int_le(radix as int, t - i, 7);
            lemma_pow_int_base_le(radix as int, 16, 7);
            assert(pow_int(16, 7) == 0x10000000) by {
                reveal_with_fuel(pow_int, 8);
            }
            assert((acc as int) * (radix as int) + 15 < 0x100000000) by (nonlinear_arith)
                requires
                    0 <= (acc as int) < 0x10000000,
                    2 <= (radix as int) && (radix as int) <= 16,
            ;
        }
        let d = digit_value(s[t]);
        acc = acc * (radix as u64) + (d as u64);
        t = t + 1;
    }
    acc
}

// --- line geometry ---

/// The length of the end-of-line sequence at `i`: 1 for a line feed, 2 for a
/// carriage return followed by a line feed, 0 otherwise.
pub open spec fn eol_at(s: Seq<char>, i: int) -> int {
    if 0 <= i < s.len() && s[i] == '\n' {
        1
    } else if 0 <= i && i + 1 < s.len() && s[i] == '\r' && s[i + 1] == '\n' {
        2
    } else {
        0
    }
}

/// The end of the line starting at `i`: the index of the next line feed, or
/// the end of the text.
pub open spec fn line_end(s: Seq<char>, i: int) -> int
    decreases s.len() - i
        when 0 <= i <= s.len()
{
    if i >= s.len() || s[i] == '\n' {
        i
    } else {
        line_end(s, i + 1)
    }
}

/// The shape of a line end: at or after `i`, within the text, at a line feed
/// or at the end, with no line feed before it.
pub proof fn lemma_line_end(s: Seq<char>, i: int)
    requires
        0 <= i <= s.len(),
    ensures
        i <= line_end(s, i) <= s.len(),
        line_end(s, i) < s.len() ==> s[line_end(s, i)] == '\n',
        forall|t: int| i <= t < line_end(s, i) ==> s[t] != '\n',
    decreases s.len() - i,
{
    if !(i >= s.len() || s[i] == '\n') {
        lemma_line_end(s, i + 1);
    }
}

// --- unicode scalar values ---

/// The values a `char` can hold: every code point except the UTF-16
/// surrogate range and anything above the Unicode maximum.
pub open spec fn is_unicode_scalar(v: int) -> bool {
    (0 <= v && v < 0xD800) || (0xE000 <= v && v <= 0x10FFFF)
}

/// Relies on `char::from_u32`: it returns `Some` of the character with that
/// value exactly when the value is a Unicode scalar value, that is, not in
/// the surrogate range and at most `char::MAX`.
#[verifier::external_body]
pub(crate) fn char_from_u32(v: u32) -> (r: Option<char>)
    ensures
        r == if is_unicode_scalar(v as int) {
            Some(v as char)
        } else {
            None::<char>
        },
{
    char::from_u32(v)
}

/// Relies on `char::is_alphanumeric`: a Unicode character-class test whose
/// result depends on the character alone.
#[verifier::external_body]
pub(crate) fn char_is_alphanumeric(c: char) -> (r: bool)
    ensures
        r == alphanumeric_char(c),
{
    c.is_alphanumeric()
}

/// Relies on `String::push`: it appends the one character.
#[verifier::external_body]
pub(crate) fn push_char(s: &mut String, c: char)
    ensures
        final(s)@ == old(s)@.push(c),
{
    s.push(c);
}

// --- executable character tests ---

/// Whether `c` lies in `cls`; the one class test the scanners share.
pub(crate) fn test_class(cls: CharClass, c: char) -> (r: bool)
    ensures
        r == in_class(cls, c),
{
    let v = c as u32;
    match cls {
        CharClass::Dec => 48 <= v && v <= 57,
        CharClass::Hex => (48 <= v && v <= 57) || (97 <= v && v <= 102) || (65 <= v && v <= 70),
        CharClass::Oct => 48 <= v && v <= 55,
        CharClass::Space => c == ' ',
        CharClass::Blank => c == ' ' || c == '\t',
        CharClass::Ident => char_is_alphanumeric(c) || c == '_',
    }
}

/// The numeric value of a digit character.
pub(crate) fn digit_value(c: char) -> (r: u32)
    ensures
        r as int == digit_val(c),
        r < 16,
{
    let v = c as u32;
    if 48 <= v && v <= 57 {
        v - 48
    } else if 97 <= v && v <= 102 {
        v - 87
    } else if 65 <= v && v <= 70 {
        v - 55
    } else {
        0
    }
}

/// Takes the run of `cls` characters from `i`, at most `cap` long, returning
/// the index just past it.
pub(crate) fn take_class_run(s: &Vec<char>, i: usize, cls: CharClass, cap: usize) -> (j: usize)
    requires
        i <= s@.len(),
    ensures
        j as int == i + class_run(s@, i as int, cls, cap as int),
{
    let mut j = i;
    while j < s.len() && j - i < cap && test_class(cls, s[j])
        invariant
            i <= j <= s@.len(),
            j - i <= cap,
            class_run(s@, i as int, cls, cap as int) == (j - i) + class_run(
                s@,
                j as int,
                cls,
                cap as int - (j - i),
            ),
        decreases s@.len() - j,
    {
        j = j + 1;
    }
    j
}

/// The end-of-line length at `i`: 1, 2 or 0 as in [`eol_at`].
pub(crate) fn eol_len(s: &Vec<char>, i: usize) -> (e: usize)
    requires
        i <= s@.len(),
    ensures
        e as int == eol_at(s@, i as int),
{
    if i < s.len() && s[i] == '\n' {
        1
    } else if i < s.len() && s[i] == '\r' && i + 1 < s.len() && s[i + 1] == '\n' {
        2
    } else {
        0
    }
}

/// The index of the next line feed at or after `i`, or the end of the text.
pub(crate) fn find_line_end(s: &Vec<char>, i: usize) -> (e: usize)
    requires
        i <= s@.len(),
    ensures
        e as int == line_end(s@, i as int),
{
    let mut j = i;
    while j < s.len() && s[j] != '\n'
        invariant
            i <= j <= s@.len(),
            line_end(s@, i as int) == line_end(s@, j as int),
        decreases s@.len() - j,
    {
        j = j + 1;
    }
    j
}

// --- conversions between text representations ---

/// The characters of `s`, in order.
pub(crate) fn str_to_chars(s: &str) -> (r: Vec<char>)
    ensures
        r@ == s@,
{
    let n = s.unicode_len();
    let mut v: Vec<char> = Vec::new();
    let mut i: usize = 0;
    while i < n
        invariant
            i <= n,
            n == s@.len(),
            v@ == s@.subrange(0, i as int),
        decreases n - i,
    {
        let c = s.get_char(i);
        v.push(c);
        i = i + 1;
        assert(v@ =~= s@.subrange(0, i as int));
    }
    assert(v@ =~= s@);
    v
}

/// A string holding the characters `s[from..to]`, in order.
pub(crate) fn chars_range_to_string(s: &Vec<char>, from: usize, to: usize) -> (r: String)
    requires
        from <= to <= s@.len(),
    ensures
        r@ == s@.subrange(from as int, to as int),
{
    let mut out = String::new();
    let mut i = from;
    while i < to
        invariant
            from <= i <= to <= s@.len(),
            out@ == s@.subrange(from as int, i as int),
        decreases to - i,
    {
        push_char(&mut out, s[i]);
        i = i + 1;
        assert(out@ =~= s@.subrange(from as int, i as int));
    }
    out
}

} // verus!
