//! The domain error produced by a failed scan: a classification of the
//! failure and a diagnostic trail of the positions where alternatives gave
//! up.

use vstd::prelude::*;
use vstd::string::StringExecFns;

verus! {

/// What a scanner stumbled over at one point of the input.
#[derive(Clone, Copy, Debug, PartialEq, Eq, Structural)]
pub enum ErrorKind {
    /// A fixed piece of text (a quote, `<<`, a marker identifier) was not at
    /// the cursor.
    Tag,
    /// A run of characters of a required class was empty.
    CharClass,
    /// Every alternative tried at this point was a mismatch.
    Alternative,
    /// An end of line was required.
    Eol,
    /// A `\x`, `\u` or `\U` escape named a code point that is not a Unicode
    /// scalar value, or carried no hexadecimal digits at all.
    InvalidUnicodeCodePoint,
}

/// The terminal outcome of a failed scan.
#[derive(Clone, Copy, Debug, PartialEq, Eq, Structural)]
pub enum FailureClass {
    /// The input ended before the token could be recognized or rejected.
    /// Scanners over complete input never report this; it exists so that the
    /// error type covers every terminal outcome of the result model.
    Incomplete,
    /// The alternative does not apply here; the caller may try the next one.
    Recoverable,
    /// The alternative was unambiguously selected and then proved invalid;
    /// it must not be swallowed by an enclosing alternative.
    Hard,
}

/// One step of the diagnostic trail: the input remaining at the point of a
/// failure, and the kind of failure seen there. Innermost entries come first.
#[derive(Debug)]
pub struct TrailEntry {
    pub fragment: String,
    pub kind: ErrorKind,
}

/// A failed scan. The classification and the innermost kind are part of each
/// scanner's contract; the trail is purely diagnostic.
#[derive(Debug)]
pub struct ScanError {
    pub class: FailureClass,
    pub kind: ErrorKind,
    pub trail: Vec<TrailEntry>,
}

impl ScanError {
    /// The caller may try another alternative at the same position.
    pub open spec fn is_recoverable(&self) -> bool {
        self.class == FailureClass::Recoverable
    }

    /// The failure must propagate to the top-level caller.
    pub open spec fn is_hard(&self) -> bool {
        self.class == FailureClass::Hard
    }

    /// The trail shape every scanner guarantees: at least one entry, and the
    /// innermost one carries the error's own kind.
    pub open spec fn trail_wf(&self) -> bool {
        self.trail@.len() >= 1 && self.trail@[0].kind == self.kind
    }

    /// A recoverable mismatch with a one-entry trail.
    pub(crate) fn mismatch(fragment: String, kind: ErrorKind) -> (e: ScanError)
        ensures
            e.is_recoverable(),
            e.kind == kind,
            e.trail_wf(),
    {
        let mut trail: Vec<TrailEntry> = Vec::new();
        trail.push(TrailEntry { fragment, kind });
        ScanError { class: FailureClass::Recoverable, kind, trail }
    }

    /// A hard failure with a one-entry trail.
    pub(crate) fn hard(fragment: String, kind: ErrorKind) -> (e: ScanError)
        ensures
            e.is_hard(),
            e.kind == kind,
            e.trail_wf(),
    {
        let mut trail: Vec<TrailEntry> = Vec::new();
        trail.push(TrailEntry { fragment, kind });
        ScanError { class: FailureClass::Hard, kind, trail }
    }

    /// Records that an enclosing alternative failed with this error, keeping
    /// the classification and the innermost kind.
    pub(crate) fn within(self, fragment: String, kind: ErrorKind) -> (e: ScanError)
        ensures
            e.class == self.class,
            e.kind == self.kind,
            self.trail_wf() ==> e.trail_wf(),
    {
        let ScanError { class, kind: inner, mut trail } = self;
        trail.push(TrailEntry { fragment, kind });
        ScanError { class, kind: inner, trail }
    }

    /// True when the failure must propagate to the top-level caller.
    pub fn hard_failure(&self) -> (r: bool)
        ensures
            r == self.is_hard(),
    {
        match self.class {
            FailureClass::Hard => true,
            _ => false,
        }
    }

    /// True when the caller may try another alternative at this position.
    pub fn recoverable(&self) -> (r: bool)
        ensures
            r == self.is_recoverable(),
    {
        match self.class {
            FailureClass::Recoverable => true,
            _ => false,
        }
    }

    /// Renders the full diagnostic trail, one entry per line, innermost
    /// first: every entry appears, as [`trail_text`] lays it out.
    pub fn describe(&self) -> (r: String)
        ensures
            r@ == trail_text(self.trail@),
    {
        let mut out = String::new();
        let mut i: usize = 0;
        while i < self.trail.len()
            invariant
                i <= self.trail@.len(),
                out@ == trail_text(self.trail@.subrange(0, i as int)),
            decreases self.trail.len() - i,
        {
            out.append(kind_label(self.trail[i].kind));
            out.append(" at input: ");
            out.append(self.trail[i].fragment.as_str());
            out.append("\n");
            i = i + 1;
            proof {
                let pre = self.trail@.subrange(0, i as int);
                assert(pre.drop_last() =~= self.trail@.subrange(0, i - 1));
                assert(pre.last() == self.trail@[i - 1]);
            }
        }
        proof {
            assert(self.trail@.subrange(0, self.trail@.len() as int) =~= self.trail@);
        }
        out
    }
}

/// The rendered label of each failure kind.
pub open spec fn kind_label_spec(kind: ErrorKind) -> Seq<char> {
    match kind {
        ErrorKind::Tag => "expected literal text"@,
        ErrorKind::CharClass => "expected a character run"@,
        ErrorKind::Alternative => "no alternative matched"@,
        ErrorKind::Eol => "expected an end of line"@,
        ErrorKind::InvalidUnicodeCodePoint => "Invalid Unicode Code Points"@,
    }
}

/// The rendered trail: for each entry, in order and innermost first, its
/// kind's label, a separator, the remaining-input fragment, and a line feed.
pub open spec fn trail_text(t: Seq<TrailEntry>) -> Seq<char>
    decreases t.len(),
{
    if t.len() == 0 {
        Seq::empty()
    } else {
        trail_text(t.drop_last()) + kind_label_spec(t.last().kind) + " at input: "@
            + t.last().fragment@ + "\n"@
    }
}

/// A short name for each failure kind, used by the rendered trail.
pub fn kind_label(kind: ErrorKind) -> (r: &'static str)
    ensures
        r@ == kind_label_spec(kind),
{
    match kind {
        ErrorKind::Tag => "expected literal text",
        ErrorKind::CharClass => "expected a character run",
        ErrorKind::Alternative => "no alternative matched",
        ErrorKind::Eol => "expected an end of line",
        ErrorKind::InvalidUnicodeCodePoint => "Invalid Unicode Code Points",
    }
}

} // verus!
