//! Quoted string literals: content scanning with interleaved escape
//! decoding, in a multiline mode (raw line breaks allowed) and a single-line
//! mode (line breaks only via escapes), and the quoted forms around them.

use vstd::prelude::*;
use vstd::string::StrSliceExecFns;

use crate::errors::{ErrorKind, ScanError};
use crate::escape::{
    escape_hard_at, escape_ok_at, lemma_escape_consumed, scan_escape_at, EscapeStep,
};
use crate::text::{chars_range_to_string, str_to_chars};

verus! {

/// Fully decoded text of a string literal: every escape resolved.
pub type StringLiteral = String;

/// A character that may stand unescaped in string content: anything but the
/// backslash and the quote; single-line content also excludes raw carriage
/// returns and line feeds.
pub open spec fn content_char(c: char, single_line: bool) -> bool {
    c != '\\' && c != '"' && (!single_line || (c != '\r' && c != '\n'))
}

/// The outcome of a scan: the decoded text and the index just past what was
/// consumed, a recoverable mismatch, or a hard failure.
#[verifier::ext_equal]
pub enum Scanned {
    Match { text: Seq<char>, end: int },
    Mismatch,
    HardFail,
}

/// Scanning string content from `i`: unescaped characters are taken as they
/// are, each backslash is resolved through the escape decoder, and the scan
/// stops just before the first character that is neither. A backslash whose
/// escape matches nothing is a mismatch; one whose escape names no Unicode
/// scalar value is a hard failure.
pub open spec fn content_scan(s: Seq<char>, i: int, single_line: bool) -> Scanned
    decreases s.len() - i
        when 0 <= i <= s.len()
        via content_scan_decreases
{
    if i == s.len() {
        Scanned::Match { text: Seq::empty(), end: i }
    } else if content_char(s[i], single_line) {
        match content_scan(s, i + 1, single_line) {
            Scanned::Match { text, end } => Scanned::Match { text: seq![s[i]] + text, end },
            o => o,
        }
    } else if s[i] == '\\' {
        match escape_ok_at(s, i + 1) {
            Some((c, k)) => match content_scan(s, i + 1 + k, single_line) {
                Scanned::Match { text, end } => Scanned::Match { text: seq![c] + text, end },
                o => o,
            },
            None => if escape_hard_at(s, i + 1) {
                Scanned::HardFail
            } else {
                Scanned::Mismatch
            },
        }
    } else {
        Scanned::Match { text: Seq::empty(), end: i }
    }
}

#[via_fn]
proof fn content_scan_decreases(s: Seq<char>, i: int, single_line: bool) {
    lemma_escape_consumed(s, i + 1);
}

/// A successful content scan ends within the text, at or after where it
/// began.
pub proof fn lemma_content_scan_bounds(s: Seq<char>, i: int, single_line: bool)
    requires
        0 <= i <= s.len(),
    ensures
        content_scan(s, i, single_line) matches Scanned::Match { text, end } ==> i <= end
            <= s.len(),
    decreases s.len() - i,
{
    if i < s.len() {
        if content_char(s[i], single_line) {
            lemma_content_scan_bounds(s, i + 1, single_line);
        } else if s[i] == '\\' {
            lemma_escape_consumed(s, i + 1);
            if let Some((c, k)) = escape_ok_at(s, i + 1) {
                lemma_content_scan_bounds(s, i + 1 + k, single_line);
            }
        }
    }
}

/// Whether `c` may stand unescaped in multiline string content.
pub fn legal_string_literal_character(c: char) -> (r: bool)
    ensures
        r == content_char(c, false),
{
    c != '\\' && c != '"'
}

/// Whether `c` may stand unescaped in single-line string content.
pub fn legal_string_literal_single_line_character(c: char) -> (r: bool)
    ensures
        r == content_char(c, true),
{
    c != '\\' && c != '"' && c != '\r' && c != '\n'
}

/// The outcome of an executable content scan; mismatches and hard failures
/// carry the position where they were seen, for diagnostics only.
pub(crate) enum ContentStep {
    Done(usize),
    NoMatch(usize),
    Hard(usize),
}

/// Scans content from `i`, appending the decoded characters to `acc`.
pub(crate) fn scan_content(s: &Vec<char>, i: usize, single_line: bool, acc: &mut Vec<char>) -> (r:
    ContentStep)
    requires
        i <= s@.len(),
    ensures
        match content_scan(s@, i as int, single_line) {
            Scanned::Match { text, end } => r matches ContentStep::Done(e) && e as int == end
                && final(acc)@ == old(acc)@ + text,
            Scanned::Mismatch => r is NoMatch,
            Scanned::HardFail => r is Hard,
        },
        r matches ContentStep::NoMatch(p) ==> p <= s@.len(),
        r matches ContentStep::Hard(p) ==> p <= s@.len(),
    decreases s@.len() - i,
{
    if i == s.len() {
        proof {
            assert(acc@ =~= acc@ + Seq::<char>::empty());
        }
        return ContentStep::Done(i);
    }
    let c = s[i];
    if legal_string_literal_character(c) && (!single_line || (c != '\r' && c != '\n')) {
        acc.push(c);
        let r = scan_content(s, i + 1, single_line, acc);
        proof {
            if let Scanned::Match { text, end } = content_scan(s@, i as int + 1, single_line) {
                assert(old(acc)@.push(c) + text =~= old(acc)@ + (seq![c] + text));
            }
        }
        r
    } else if c == '\\' {
        proof {
            lemma_escape_consumed(s@, i as int + 1);
        }
        match scan_escape_at(s, i + 1) {
            EscapeStep::Decoded(d, n) => {
                acc.push(d);
                let r = scan_content(s, n, single_line, acc);
                proof {
                    if let Scanned::Match { text, end } = content_scan(
                        s@,
                        n as int,
                        single_line,
                    ) {
                        assert(old(acc)@.push(d) + text =~= old(acc)@ + (seq![d] + text));
                    }
                }
                r
            },
            EscapeStep::NoMatch => ContentStep::NoMatch(i),
            EscapeStep::Hard => ContentStep::Hard(i),
        }
    } else {
        proof {
            assert(acc@ =~= acc@ + Seq::<char>::empty());
        }
        ContentStep::Done(i)
    }
}

/// Scans content at the start of `input` and packages the outcome.
fn content_entry<'a>(input: &'a str, single_line: bool) -> (r: Result<
    (StringLiteral, &'a str),
    ScanError,
>)
    ensures
        match content_scan(input@, 0, single_line) {
            Scanned::Match { text, end } => r matches Ok((out, rest)) && out@ == text && rest@
                == input@.skip(end),
            Scanned::Mismatch => r matches Err(e) && e.is_recoverable() && e.trail_wf(),
            Scanned::HardFail => r matches Err(e) && e.is_hard() && e.kind
                == ErrorKind::InvalidUnicodeCodePoint && e.trail_wf(),
        },
{
    let chars = str_to_chars(input);
    proof {
        lemma_content_scan_bounds(input@, 0, single_line);
    }
    let mut acc: Vec<char> = Vec::new();
    match scan_content(&chars, 0, single_line, &mut acc) {
        ContentStep::Done(e) => {
            let out = chars_range_to_string(&acc, 0, acc.len());
            proof {
                assert(acc@.subrange(0, acc@.len() as int) =~= acc@);
                if let Scanned::Match { text, end } = content_scan(input@, 0, single_line) {
                    assert(Seq::<char>::empty() + text =~= text);
                }
            }
            let rest = input.substring_char(e, chars.len());
            Ok((out, rest))
        },
        ContentStep::NoMatch(p) => Err(
            ScanError::mismatch(chars_range_to_string(&chars, p, chars.len()), ErrorKind::Alternative),
        ),
        ContentStep::Hard(p) => Err(
            ScanError::hard(
                chars_range_to_string(&chars, p, chars.len()),
                ErrorKind::InvalidUnicodeCodePoint,
            ),
        ),
    }
}

/// The content of a multiline (double-quoted) string body: the decoded text
/// up to the first unescaped quote or backslash that no escape resolves, and
/// the unconsumed remainder. Raw line breaks are taken as they are.
pub fn multiline_string_content<'a>(input: &'a str) -> (r: Result<(String, &'a str), ScanError>)
    ensures
        match content_scan(input@, 0, false) {
            Scanned::Match { text, end } => r matches Ok((out, rest)) && out@ == text && rest@
                == input@.skip(end),
            Scanned::Mismatch => r matches Err(e) && e.is_recoverable() && e.trail_wf(),
            Scanned::HardFail => r matches Err(e) && e.is_hard() && e.kind
                == ErrorKind::InvalidUnicodeCodePoint && e.trail_wf(),
        },
{
    content_entry(input, false)
}

/// The content of a single-line string body: as the multiline form, but raw
/// carriage returns and line feeds end the content instead of joining it.
pub fn string_literal_content<'a>(input: &'a str) -> (r: Result<
    (StringLiteral, &'a str),
    ScanError,
>)
    ensures
        match content_scan(input@, 0, true) {
            Scanned::Match { text, end } => r matches Ok((out, rest)) && out@ == text && rest@
                == input@.skip(end),
            Scanned::Mismatch => r matches Err(e) && e.is_recoverable() && e.trail_wf(),
            Scanned::HardFail => r matches Err(e) && e.is_hard() && e.kind
                == ErrorKind::InvalidUnicodeCodePoint && e.trail_wf(),
        },
{
    content_entry(input, true)
}

/// A quoted form: a double quote, content in the given mode, a double quote.
/// On a match, the text is the decoded content and the end lies just past
/// the closing quote.
pub open spec fn quoted_scan(s: Seq<char>, single_line: bool) -> Scanned {
    if s.len() == 0 || s[0] != '"' {
        Scanned::Mismatch
    } else {
        match content_scan(s, 1, single_line) {
            Scanned::Match { text, end } => if end < s.len() && s[end] == '"' {
                Scanned::Match { text, end: end + 1 }
            } else {
                Scanned::Mismatch
            },
            o => o,
        }
    }
}

/// Scans a quoted form at the start of `input` and packages the outcome.
fn quoted_entry<'a>(input: &'a str, single_line: bool) -> (r: Result<(String, &'a str), ScanError>)
    ensures
        match quoted_scan(input@, single_line) {
            Scanned::Match { text, end } => r matches Ok((out, rest)) && out@ == text && rest@
                == input@.skip(end),
            Scanned::Mismatch => r matches Err(e) && e.is_recoverable() && e.trail_wf(),
            Scanned::HardFail => r matches Err(e) && e.is_hard() && e.kind
                == ErrorKind::InvalidUnicodeCodePoint && e.trail_wf(),
        },
{
    let chars = str_to_chars(input);
    if chars.len() == 0 || chars[0] != '"' {
        return Err(ScanError::mismatch(input.to_owned(), ErrorKind::Tag));
    }
    proof {
        lemma_content_scan_bounds(input@, 1, single_line);
    }
    let mut acc: Vec<char> = Vec::new();
    match scan_content(&chars, 1, single_line, &mut acc) {
        ContentStep::Done(e) => {
            if e < chars.len() && chars[e] == '"' {
                let out = chars_range_to_string(&acc, 0, acc.len());
                proof {
                    assert(acc@.subrange(0, acc@.len() as int) =~= acc@);
                    if let Scanned::Match { text, end } = content_scan(input@, 1, single_line) {
                        assert(Seq::<char>::empty() + text =~= text);
                    }
                }
                let rest = input.substring_char(e + 1, chars.len());
                Ok((out, rest))
            } else {
                Err(
                    ScanError::mismatch(
                        chars_range_to_string(&chars, e, chars.len()),
                        ErrorKind::Tag,
                    ),
                )
            }
        },
        ContentStep::NoMatch(p) => Err(
            ScanError::mismatch(chars_range_to_string(&chars, p, chars.len()), ErrorKind::Alternative),
        ),
        ContentStep::Hard(p) => Err(
            ScanError::hard(
                chars_range_to_string(&chars, p, chars.len()),
                ErrorKind::InvalidUnicodeCodePoint,
            ),
        ),
    }
}

/// A double-quoted multiline string: the decoded content with the quotes
/// stripped, and the unconsumed remainder.
pub fn quoted_string<'a>(input: &'a str) -> (r: Result<(String, &'a str), ScanError>)
    ensures
        match quoted_scan(input@, false) {
            Scanned::Match { text, end } => r matches Ok((out, rest)) && out@ == text && rest@
                == input@.skip(end),
            Scanned::Mismatch => r matches Err(e) && e.is_recoverable() && e.trail_wf(),
            Scanned::HardFail => r matches Err(e) && e.is_hard() && e.kind
                == ErrorKind::InvalidUnicodeCodePoint && e.trail_wf(),
        },
{
    quoted_entry(input, false)
}

/// A double-quoted single-line string literal: the decoded content with the
/// quotes stripped, and the unconsumed remainder.
pub fn string_literal<'a>(input: &'a str) -> (r: Result<(StringLiteral, &'a str), ScanError>)
    ensures
        match quoted_scan(input@, true) {
            Scanned::Match { text, end } => r matches Ok((out, rest)) && out@ == text && rest@
                == input@.skip(end),
            Scanned::Mismatch => r matches Err(e) && e.is_recoverable() && e.trail_wf(),
            Scanned::HardFail => r matches Err(e) && e.is_hard() && e.kind
                == ErrorKind::InvalidUnicodeCodePoint && e.trail_wf(),
        },
{
    quoted_entry(input, true)
}

// --- the combined entry point ---

/// The combined string form: a double-quoted string first; where that is a
/// recoverable mismatch, a heredoc. A hard failure in the quoted branch
/// propagates and the heredoc branch is never tried.
pub open spec fn string_scan(s: Seq<char>) -> Scanned {
    match quoted_scan(s, false) {
        Scanned::Match { text, end } => Scanned::Match { text, end },
        Scanned::HardFail => Scanned::HardFail,
        Scanned::Mismatch => match crate::heredoc::heredoc_scan(s) {
            Some((text, end)) => Scanned::Match { text, end },
            None => Scanned::Mismatch,
        },
    }
}

/// The combined string entry point: tries a double-quoted string, then a
/// heredoc. The result is uniform decoded text; callers cannot tell from the
/// value which form matched.
pub fn string<'a>(input: &'a str) -> (r: Result<(String, &'a str), ScanError>)
    ensures
        match string_scan(input@) {
            Scanned::Match { text, end } => r matches Ok((out, rest)) && out@ == text && rest@
                == input@.skip(end),
            Scanned::Mismatch => r matches Err(e) && e.is_recoverable() && e.trail_wf(),
            Scanned::HardFail => r matches Err(e) && e.is_hard() && e.kind
                == ErrorKind::InvalidUnicodeCodePoint && e.trail_wf(),
        },
{
    match quoted_string(input) {
        Ok(v) => Ok(v),
        Err(e) => {
            if e.recoverable() {
                match crate::heredoc::heredoc_string(input) {
                    Ok(v) => Ok(v),
                    Err(e2) => Err(e2.within(input.to_owned(), ErrorKind::Alternative)),
                }
            } else {
                Err(e)
            }
        },
    }
}

// --- the quoting round trip ---

/// The escaped form of one character inside a quoted literal: quotes and
/// backslashes gain a backslash, everything else stands as it is.
pub open spec fn quote_escape_char(c: char) -> Seq<char> {
    if c == '"' || c == '\\' {
        seq!['\\', c]
    } else {
        seq![c]
    }
}

/// The escaped form of a whole text inside a quoted literal.
pub open spec fn quote_escape_text(s: Seq<char>) -> Seq<char>
    decreases s.len(),
{
    if s.len() == 0 {
        Seq::empty()
    } else {
        quote_escape_char(s[0]) + quote_escape_text(s.skip(1))
    }
}

/// Scanning the escaped form of `s`, placed before a closing quote, yields
/// `s` itself.
proof fn lemma_content_scan_escaped(t: Seq<char>, i: int, s: Seq<char>)
    requires
        0 <= i,
        i + quote_escape_text(s).len() < t.len(),
        t.subrange(i, i + quote_escape_text(s).len() as int) == quote_escape_text(s),
        t[i + quote_escape_text(s).len() as int] == '"',
    ensures
        content_scan(t, i, false) == (Scanned::Match {
            text: s,
            end: i + quote_escape_text(s).len() as int,
        }),
    decreases s.len(),
{
    let esc = quote_escape_text(s);
    if s.len() == 0 {
        assert(content_scan(t, i, false) =~= Scanned::Match { text: s, end: i });
    } else {
        let c = s[0];
        let rest = quote_escape_text(s.skip(1));
        assert(esc == quote_escape_char(c) + rest);
        if c == '"' || c == '\\' {
            assert(t[i] == esc[0]) by {
                assert(t.subrange(i, i + esc.len() as int)[0] == t[i]);
            }
            assert(t[i + 1] == esc[1]) by {
                assert(t.subrange(i, i + esc.len() as int)[1] == t[i + 1]);
            }
            assert(t[i] == '\\' && t[i + 1] == c);
            assert(escape_ok_at(t, i + 1) == Some((c, 1int)));
            assert(t.subrange(i + 2, i + 2 + rest.len() as int) =~= rest) by {
                assert(forall|k: int|
                    0 <= k < rest.len() ==> #[trigger] rest[k] == t.subrange(
                        i,
                        i + esc.len() as int,
                    )[k + 2]);
            }
            lemma_content_scan_escaped(t, i + 2, s.skip(1));
            assert(seq![c] + s.skip(1) =~= s);
        } else {
            assert(t[i] == esc[0]) by {
                assert(t.subrange(i, i + esc.len() as int)[0] == t[i]);
            }
            assert(t[i] == c);
            assert(content_char(c, false));
            assert(t.subrange(i + 1, i + 1 + rest.len() as int) =~= rest) by {
                assert(forall|k: int|
                    0 <= k < rest.len() ==> #[trigger] rest[k] == t.subrange(
                        i,
                        i + esc.len() as int,
                    )[k + 1]);
            }
            lemma_content_scan_escaped(t, i + 1, s.skip(1));
            assert(seq![c] + s.skip(1) =~= s);
        }
    }
}

/// The quoting round trip: for any text, escaping its quotes and backslashes,
/// wrapping the result in double quotes and scanning the quoted form yields
/// exactly the original text, with the whole input consumed.
pub proof fn lemma_quote_round_trip(s: Seq<char>)
    ensures
        quoted_scan(seq!['"'] + quote_escape_text(s) + seq!['"'], false) == (Scanned::Match {
            text: s,
            end: quote_escape_text(s).len() + 2int,
        }),
{
    let esc = quote_escape_text(s);
    let t = seq!['"'] + esc + seq!['"'];
    assert(t[0] == '"');
    assert(t[1 + esc.len() as int] == '"');
    assert(t.subrange(1, 1 + esc.len() as int) =~= esc);
    lemma_content_scan_escaped(t, 1, s);
}

} // verus!
