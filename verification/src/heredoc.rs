//! Heredoc literals: the open marker (`<<` or `<<-` and an identifier), the
//! close marker (a line holding only the identifier), the captured body, and
//! the dedent transform applied to indented heredocs.

use vstd::prelude::*;
use vstd::string::StrSliceExecFns;

use crate::errors::{ErrorKind, ScanError};
use crate::text::{
    chars_range_to_string, class_run, eol_at, eol_len, find_line_end, in_class, lemma_class_run,
    lemma_class_run_shift, lemma_line_end, line_end, str_to_chars, take_class_run, CharClass,
};

verus! {

/// A heredoc marker: the identifier that must close the block, and whether
/// the open marker used the indented form (`<<-`).
#[derive(Debug)]
pub struct HereDoc {
    pub identifier: String,
    pub indented: bool,
}

impl PartialEq for HereDoc {
    fn eq(&self, other: &Self) -> (r: bool) {
        self.identifier.eq(&other.identifier) && self.indented == other.indented
    }
}

impl Eq for HereDoc {

}

impl vstd::std_specs::cmp::PartialEqSpecImpl for HereDoc {
    open spec fn obeys_eq_spec() -> bool {
        true
    }

    open spec fn eq_spec(&self, other: &HereDoc) -> bool {
        self.identifier@ == other.identifier@ && self.indented == other.indented
    }
}

/// The open marker at the start of `s`: `<<`, an optional `-` setting the
/// indented form, then one or more identifier characters (alphanumeric or
/// underscore), followed — without consuming it — by an end of line. Yields
/// the identifier text, the indented flag, and the index just past the
/// identifier.
pub open spec fn heredoc_begin_scan(s: Seq<char>) -> Option<(Seq<char>, bool, int)> {
    if s.len() < 2 || s[0] != '<' || s[1] != '<' {
        None
    } else {
        let indented = s.len() > 2 && s[2] == '-';
        let i: int = if indented {
            3
        } else {
            2
        };
        let k = class_run(s, i, CharClass::Ident, s.len() - i);
        if k >= 1 && eol_at(s, i + k) != 0 {
            Some((s.subrange(i, i + k), indented, i + k))
        } else {
            None
        }
    }
}

/// The close marker at `i`: an end of line, a run of horizontal space, the
/// exact identifier, then — without consuming it — an end of line. Yields
/// the length of the space run and the index just past the identifier.
pub open spec fn heredoc_close_at(s: Seq<char>, i: int, ident: Seq<char>) -> Option<(int, int)> {
    let e = eol_at(s, i);
    if e == 0 {
        None
    } else {
        let b = class_run(s, i + e, CharClass::Blank, s.len() - (i + e));
        let p = i + e + b;
        if p + ident.len() <= s.len() && s.subrange(p, p + ident.len() as int) == ident && eol_at(
            s,
            p + ident.len() as int,
        ) != 0 {
            Some((b, p + ident.len()))
        } else {
            None
        }
    }
}

/// The first position at or after `i` where the close marker matches: the
/// match position, the space-run length and the end of the match.
pub open spec fn heredoc_close_from(s: Seq<char>, i: int, ident: Seq<char>) -> Option<
    (int, int, int),
>
    decreases s.len() - i
        when 0 <= i <= s.len()
{
    if heredoc_close_at(s, i, ident) is Some {
        let (b, e) = heredoc_close_at(s, i, ident).unwrap();
        Some((i, b, e))
    } else if i >= s.len() {
        None
    } else {
        heredoc_close_from(s, i + 1, ident)
    }
}

/// A whole heredoc: the open marker, then either the close marker at once
/// (an empty body, dedented at level zero whatever the closing line's
/// indentation) or the line break and everything up to the first close-
/// marker match, dedented at the level that match reports — forced to zero
/// unless the marker was opened in indented form. Yields the decoded text
/// and the index just past the closing identifier.
pub open spec fn heredoc_scan(s: Seq<char>) -> Option<(Seq<char>, int)> {
    match heredoc_begin_scan(s) {
        None => None,
        Some((ident, indented, b_end)) => match heredoc_close_at(s, b_end, ident) {
            Some((b, end)) => Some((Seq::empty(), end)),
            None => {
                let p = b_end + eol_at(s, b_end);
                match heredoc_close_from(s, p, ident) {
                    None => None,
                    Some((d, blanks, end)) => Some(
                        (
                            unindent_spec(
                                s.subrange(p, d),
                                if indented {
                                    blanks
                                } else {
                                    0
                                },
                            ),
                            end,
                        ),
                    ),
                }
            },
        },
    }
}

/// A matched close marker starts after `i` and ends within the text.
proof fn lemma_close_at_bounds(s: Seq<char>, i: int, ident: Seq<char>)
    requires
        0 <= i <= s.len(),
    ensures
        heredoc_close_at(s, i, ident) matches Some((b, e)) ==> 0 <= b && i < e <= s.len(),
{
    let eol = eol_at(s, i);
    if eol != 0 {
        lemma_class_run(s, i + eol, CharClass::Blank, s.len() - (i + eol));
    }
}

/// A matched close-marker search yields a position between `i` and the end,
/// with the marker's own bounds.
proof fn lemma_close_from_bounds(s: Seq<char>, i: int, ident: Seq<char>)
    requires
        0 <= i <= s.len(),
    ensures
        heredoc_close_from(s, i, ident) matches Some((d, b, e)) ==> i <= d <= s.len() && 0 <= b
            && d < e <= s.len() && heredoc_close_at(s, d, ident) == Some((b, e)),
    decreases s.len() - i,
{
    lemma_close_at_bounds(s, i, ident);
    if heredoc_close_at(s, i, ident) is None && i < s.len() {
        lemma_close_from_bounds(s, i + 1, ident);
    }
}

/// Scans the open marker on a character buffer: identifier characters, the
/// indented flag, and the index just past the identifier.
fn begin_at(s: &Vec<char>) -> (r: Option<(Vec<char>, bool, usize)>)
    ensures
        match heredoc_begin_scan(s@) {
            Some((ident, ind, end)) => r matches Some((iv, ind2, e2)) && iv@ == ident && ind2
                == ind && e2 as int == end,
            None => r is None,
        },
{
    if s.len() < 2 || s[0] != '<' || s[1] != '<' {
        return None;
    }
    let indented = s.len() > 2 && s[2] == '-';
    let i: usize = if indented {
        3
    } else {
        2
    };
    let k_end = take_class_run(s, i, CharClass::Ident, s.len() - i);
    proof {
        lemma_class_run(s@, i as int, CharClass::Ident, s@.len() - i);
    }
    if k_end == i {
        return None;
    }
    let e = eol_len(s, k_end);
    if e == 0 {
        return None;
    }
    let mut ident: Vec<char> = Vec::new();
    let mut t = i;
    while t < k_end
        invariant
            i <= t <= k_end <= s@.len(),
            ident@ == s@.subrange(i as int, t as int),
        decreases k_end - t,
    {
        ident.push(s[t]);
        t = t + 1;
        proof {
            assert(ident@ =~= s@.subrange(i as int, t as int));
        }
    }
    Some((ident, indented, k_end))
}

/// Checks the close marker at `i` on a character buffer.
fn close_at(s: &Vec<char>, i: usize, ident: &Vec<char>) -> (r: Option<(usize, usize)>)
    requires
        i <= s@.len(),
    ensures
        match heredoc_close_at(s@, i as int, ident@) {
            Some((b, e)) => r matches Some((b2, e2)) && b2 as int == b && e2 as int == e,
            None => r is None,
        },
{
    let n = s.len();
    let e = eol_len(s, i);
    if e == 0 {
        return None;
    }
    proof {
        assert(i as int + e as int <= n as int);
    }
    let p0 = i + e;
    let p = take_class_run(s, p0, CharClass::Blank, n - p0);
    proof {
        lemma_class_run(s@, p0 as int, CharClass::Blank, s@.len() - p0);
    }
    if n - p < ident.len() {
        return None;
    }
    let mut t: usize = 0;
    let len_i = ident.len();
    while t < len_i
        invariant
            t <= len_i,
            len_i == ident@.len(),
            n == s@.len(),
            i <= s@.len(),
            p + len_i <= n,
            e as int == eol_at(s@, i as int),
            e != 0,
            p as int == i as int + e as int + class_run(
                s@,
                i as int + e as int,
                CharClass::Blank,
                s@.len() - (i as int + e as int),
            ),
            forall|k: int| 0 <= k < t ==> s@[p + k] == ident@[k],
        decreases len_i - t,
    {
        if s[p + t] != ident[t] {
            proof {
                let li = ident@.len() as int;
                assert(s@.subrange(p as int, p as int + li) != ident@) by {
                    assert(s@.subrange(p as int, p as int + li)[t as int] == s@[p as int
                        + t as int]);
                }
            }
            return None;
        }
        t = t + 1;
    }
    proof {
        assert(s@.subrange(p as int, p + ident@.len() as int) =~= ident@);
    }
    let after = p + ident.len();
    let e2 = eol_len(s, after);
    if e2 == 0 {
        return None;
    }
    Some((p - p0, after))
}

/// Finds the first close-marker match at or after `i`.
fn close_search(s: &Vec<char>, i: usize, ident: &Vec<char>) -> (r: Option<(usize, usize, usize)>)
    requires
        i <= s@.len(),
    ensures
        match heredoc_close_from(s@, i as int, ident@) {
            Some((d, b, e)) => r matches Some((d2, b2, e2)) && d2 as int == d && b2 as int == b
                && e2 as int == e,
            None => r is None,
        },
    decreases s@.len() - i,
{
    match close_at(s, i, ident) {
        Some((b, e)) => Some((i, b, e)),
        None => {
            if i == s.len() {
                None
            } else {
                close_search(s, i + 1, ident)
            }
        },
    }
}

/// Scans the heredoc open marker at the start of `input`: `<<`, an optional
/// `-` that selects the indented form, an identifier of one or more
/// alphanumeric or underscore characters, and a peeked (unconsumed) end of
/// line. Fails recoverably when any of these is missing.
pub fn heredoc_begin<'a>(input: &'a str) -> (r: Result<(HereDoc, &'a str), ScanError>)
    ensures
        match heredoc_begin_scan(input@) {
            Some((ident, indented, end)) => r matches Ok((hd, rest)) && hd.identifier@ == ident
                && hd.indented == indented && rest@ == input@.skip(end),
            None => r matches Err(e) && e.is_recoverable() && e.trail_wf(),
        },
{
    let chars = str_to_chars(input);
    match begin_at(&chars) {
        Some((ident, indented, end)) => {
            proof {
                lemma_class_run(
                    input@,
                    if input@.len() > 2 && input@[2] == '-' {
                        3int
                    } else {
                        2int
                    },
                    CharClass::Ident,
                    input@.len() - (
                    if input@.len() > 2 && input@[2] == '-' {
                        3int
                    } else {
                        2int
                    }),
                );
            }
            let identifier = chars_range_to_string(&ident, 0, ident.len());
            proof {
                assert(ident@.subrange(0, ident@.len() as int) =~= ident@);
            }
            let rest = input.substring_char(end, chars.len());
            Ok((HereDoc { identifier, indented }, rest))
        },
        None => Err(ScanError::mismatch(input.to_owned(), ErrorKind::Tag)),
    }
}

/// Scans the close marker of the given heredoc at the start of `input`: an
/// end of line, horizontal space, the exact identifier, and a peeked
/// (unconsumed) end of line. Yields the dedent level — the space run's
/// length if the marker was opened in indented form, zero otherwise — and
/// the remainder.
pub fn heredoc_end<'a>(input: &'a str, identifier: &HereDoc) -> (r: Result<
    (usize, &'a str),
    ScanError,
>)
    ensures
        match heredoc_close_at(input@, 0, identifier.identifier@) {
            Some((blanks, end)) => r matches Ok((level, rest)) && level as int == (
            if identifier.indented {
                blanks
            } else {
                0int
            }) && rest@ == input@.skip(end),
            None => r matches Err(e) && e.is_recoverable() && e.trail_wf(),
        },
{
    let chars = str_to_chars(input);
    let ident_chars = str_to_chars(identifier.identifier.as_str());
    proof {
        lemma_close_at_bounds(input@, 0, identifier.identifier@);
    }
    match close_at(&chars, 0, &ident_chars) {
        Some((blanks, end)) => {
            let level: usize = if identifier.indented {
                blanks
            } else {
                0
            };
            let rest = input.substring_char(end, chars.len());
            Ok((level, rest))
        },
        None => Err(ScanError::mismatch(input.to_owned(), ErrorKind::Tag)),
    }
}

/// Scans a whole heredoc at the start of `input` and yields its decoded,
/// dedented body and the remainder (the line break after the closing
/// identifier stays unconsumed). When the close marker matches immediately
/// the body is empty and no dedent is applied, whatever indentation the
/// closing line carries.
pub fn heredoc_string<'a>(input: &'a str) -> (r: Result<(String, &'a str), ScanError>)
    ensures
        match heredoc_scan(input@) {
            Some((text, end)) => r matches Ok((out, rest)) && out@ == text && rest@ == input@.skip(
                end,
            ),
            None => r matches Err(e) && e.is_recoverable() && e.trail_wf(),
        },
{
    let chars = str_to_chars(input);
    let (ident, indented, b_end) = match begin_at(&chars) {
        Some(v) => v,
        None => {
            return Err(ScanError::mismatch(input.to_owned(), ErrorKind::Tag));
        },
    };
    proof {
        lemma_class_run(
            input@,
            if input@.len() > 2 && input@[2] == '-' {
                3int
            } else {
                2int
            },
            CharClass::Ident,
            input@.len() - (
            if input@.len() > 2 && input@[2] == '-' {
                3int
            } else {
                2int
            }),
        );
        lemma_close_at_bounds(input@, b_end as int, ident@);
    }
    match close_at(&chars, b_end, &ident) {
        Some((_blanks, end)) => {
            let rest = input.substring_char(end, chars.len());
            return Ok((String::new(), rest));
        },
        None => {},
    }
    let e = eol_len(&chars, b_end);
    let p = b_end + e;
    proof {
        lemma_close_from_bounds(input@, p as int, ident@);
    }
    match close_search(&chars, p, &ident) {
        Some((d, blanks, end)) => {
            let level: usize = if indented {
                blanks
            } else {
                0
            };
            let content = chars_range_to_string(&chars, p, d);
            let out = unindent_heredoc(content.as_str(), level);
            let rest = input.substring_char(end, chars.len());
            Ok((out, rest))
        },
        None => Err(ScanError::mismatch(input.to_owned(), ErrorKind::Eol)),
    }
}

// --- the dedent transform ---

/// The text from `i` on, dedented line by line: each line loses its leading
/// spaces, but never more than `n` of them. A line made of fewer than `n`
/// spaces and nothing else loses them all, leaving an empty line; this
/// explicit choice covers a case the close-marker geometry cannot produce,
/// where an out-of-range slice would otherwise lurk.
pub open spec fn unindent_from(s: Seq<char>, i: int, n: int) -> Seq<char>
    decreases s.len() - i
        when 0 <= i <= s.len()
        via unindent_from_decreases
{
    let e = line_end(s, i);
    let dropped = class_run(s, i, CharClass::Space, n);
    let line = s.subrange(i + dropped, e);
    if e < s.len() {
        line + seq!['\n'] + unindent_from(s, e + 1, n)
    } else {
        line
    }
}

#[via_fn]
proof fn unindent_from_decreases(s: Seq<char>, i: int, n: int) {
    lemma_line_end(s, i);
}

/// The dedent transform: with level 0 the text itself, unchanged; otherwise
/// every line stripped of up to `n` leading spaces.
pub open spec fn unindent_spec(s: Seq<char>, n: int) -> Seq<char> {
    if n <= 0 {
        s
    } else {
        unindent_from(s, 0, n)
    }
}

/// The leading spaces of a line never reach past the line's end.
proof fn lemma_space_run_within_line(s: Seq<char>, i: int, n: int)
    requires
        0 <= i <= s.len(),
        0 <= n,
    ensures
        i + class_run(s, i, CharClass::Space, n) <= line_end(s, i),
{
    lemma_class_run(s, i, CharClass::Space, n);
    lemma_line_end(s, i);
    let dropped = class_run(s, i, CharClass::Space, n);
    let e = line_end(s, i);
    if e < i + dropped {
        assert(in_class(CharClass::Space, s[e]));
    }
}

/// Dedenting with level 0 returns the text itself, for every text.
pub proof fn lemma_unindent_zero(s: Seq<char>)
    ensures
        unindent_spec(s, 0) == s,
{
}

/// The line starting at `i` ends exactly at `m` when no line feed comes
/// before `m` and `m` is a line feed or the end of the text.
proof fn lemma_line_end_found(s: Seq<char>, i: int, m: int)
    requires
        0 <= i <= m <= s.len(),
        forall|t: int| i <= t < m ==> s[t] != '\n',
        m < s.len() ==> s[m] == '\n',
    ensures
        line_end(s, i) == m,
    decreases m - i,
{
    if i < m {
        lemma_line_end_found(s, i + 1, m);
    }
}

/// A class run within a strict prefix of a longer text is the same run taken
/// in the longer text, provided the character just past the prefix is not in
/// the class.
proof fn lemma_class_run_prefix(t: Seq<char>, a: Seq<char>, i: int, cls: CharClass, cap: int)
    requires
        0 <= i <= a.len() < t.len(),
        t.subrange(0, a.len() as int) == a,
        !in_class(cls, t[a.len() as int]),
    ensures
        class_run(t, i, cls, cap) == class_run(a, i, cls, cap),
    decreases cap,
{
    if cap > 0 {
        if i < a.len() {
            assert(t[i] == a[i]) by {
                assert(t.subrange(0, a.len() as int)[i] == t[i]);
            }
            if in_class(cls, t[i]) {
                lemma_class_run_prefix(t, a, i + 1, cls, cap - 1);
            }
        }
    }
}

/// The line end seen from `i` in a suffix of `s` is the line end in `s`,
/// shifted.
proof fn lemma_line_end_shift(s: Seq<char>, d: int, i: int)
    requires
        0 <= d <= i <= s.len(),
    ensures
        line_end(s, i) == d + line_end(s.skip(d), i - d),
    decreases s.len() - i,
{
    if i < s.len() {
        assert(s.skip(d)[i - d] == s[i]);
        if s[i] != '\n' {
            lemma_line_end_shift(s, d, i + 1);
        }
    }
}

/// Dedenting from position `i` is dedenting the suffix that starts there.
proof fn lemma_unindent_from_shift(s: Seq<char>, d: int, i: int, n: int)
    requires
        0 <= d <= i <= s.len(),
        0 <= n,
    ensures
        unindent_from(s, i, n) == unindent_from(s.skip(d), i - d, n),
    decreases s.len() - i,
{
    lemma_line_end(s, i);
    lemma_line_end_shift(s, d, i);
    lemma_class_run_shift(s, d, i, CharClass::Space, n);
    lemma_space_run_within_line(s, i, n);
    let e = line_end(s, i);
    let dropped = class_run(s, i, CharClass::Space, n);
    lemma_class_run(s, i, CharClass::Space, n);
    assert(s.subrange(i + dropped, e) =~= s.skip(d).subrange(i - d + dropped, e - d));
    if e < s.len() {
        lemma_unindent_from_shift(s, d, e + 1, n);
    }
}

/// Dedent correctness on one line: a line (no line feed inside) whose first
/// `n` characters are all spaces loses exactly those `n` characters.
pub proof fn lemma_unindent_line(line: Seq<char>, n: int)
    requires
        0 < n,
        forall|t: int| 0 <= t < line.len() ==> line[t] != '\n',
        class_run(line, 0, CharClass::Space, n) == n,
    ensures
        unindent_spec(line, n) == line.skip(n),
    decreases n,
{
    lemma_line_end_found(line, 0, line.len() as int);
    lemma_class_run(line, 0, CharClass::Space, n);
    assert(line.subrange(n, line.len() as int) =~= line.skip(n));
}

/// Dedenting distributes over the lines of a text: splitting at a line feed
/// and dedenting the parts separately is dedenting the whole.
pub proof fn lemma_unindent_join(a: Seq<char>, b: Seq<char>, n: int)
    requires
        0 < n,
        forall|t: int| 0 <= t < a.len() ==> a[t] != '\n',
    ensures
        unindent_spec(a + seq!['\n'] + b, n) == unindent_spec(a, n) + seq!['\n'] + unindent_spec(
            b,
            n,
        ),
{
    let t = a + seq!['\n'] + b;
    assert(t[a.len() as int] == '\n');
    assert(forall|k: int| 0 <= k < a.len() ==> t[k] == a[k]);
    lemma_line_end_found(t, 0, a.len() as int);
    assert(t.subrange(0, a.len() as int) =~= a);
    lemma_class_run_prefix(t, a, 0, CharClass::Space, n);
    lemma_line_end_found(a, 0, a.len() as int);
    let dropped = class_run(a, 0, CharClass::Space, n);
    lemma_class_run(a, 0, CharClass::Space, n);
    assert(t.subrange(dropped, a.len() as int) =~= a.subrange(dropped, a.len() as int));
    lemma_unindent_from_shift(t, a.len() as int + 1, a.len() as int + 1, n);
    assert(t.skip(a.len() as int + 1) =~= b);
}

/// The dedent transform. With level 0 the text is returned unchanged; with a
/// positive level every line loses its leading spaces, at most `indentation`
/// of them, so a line indented less deeply than the level keeps everything
/// from its first non-space character on. Lines are the pieces between line
/// feeds; the last line gains no trailing line feed.
pub fn unindent_heredoc(text: &str, indentation: usize) -> (r: String)
    ensures
        r@ == unindent_spec(text@, indentation as int),
{
    if indentation == 0 {
        return text.to_owned();
    }
    let s = str_to_chars(text);
    let mut acc: Vec<char> = Vec::new();
    unindent_lines(&s, 0, indentation, &mut acc);
    let r = chars_range_to_string(&acc, 0, acc.len());
    proof {
        assert(acc@.subrange(0, acc@.len() as int) =~= acc@);
    }
    r
}

/// Appends the dedented lines of `s[i..]` to `acc`.
fn unindent_lines(s: &Vec<char>, i: usize, n: usize, acc: &mut Vec<char>)
    requires
        i <= s@.len(),
        n >= 1,
    ensures
        final(acc)@ == old(acc)@ + unindent_from(s@, i as int, n as int),
    decreases s@.len() - i,
{
    proof {
        lemma_line_end(s@, i as int);
        lemma_class_run(s@, i as int, CharClass::Space, n as int);
        lemma_space_run_within_line(s@, i as int, n as int);
    }
    let e = find_line_end(s, i);
    let j = take_class_run(s, i, CharClass::Space, n);
    let mut t = j;
    while t < e
        invariant
            j <= t <= e <= s@.len(),
            acc@ == old(acc)@ + s@.subrange(j as int, t as int),
        decreases e - t,
    {
        acc.push(s[t]);
        t = t + 1;
        proof {
            assert(acc@ =~= old(acc)@ + s@.subrange(j as int, t as int));
        }
    }
    if e < s.len() {
        acc.push('\n');
        unindent_lines(s, e + 1, n, acc);
        proof {
            assert(acc@ =~= old(acc)@ + unindent_from(s@, i as int, n as int));
        }
    }
}

} // verus!
