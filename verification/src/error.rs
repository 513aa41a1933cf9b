//! Parse failures.  Grammar rules report a plain mismatch, which lets the
//! next alternative run, or an internal inconsistency (a sub-parse that was
//! expected to consume its whole slice but did not), which aborts the parse.
//! The public entry points turn either into a located `ParseError`.
use vstd::prelude::*;

verus! {

/// How a single grammar rule fails.
#[derive(Debug, Clone, Copy, PartialEq, Eq)]
pub enum PFail {
    /// The rule does not apply here; an alternative may still match.
    Mismatch,
    /// A grammar-internal consistency check failed at this position; the
    /// whole parse is abandoned.
    Internal(usize),
}

/// Specification-level outcome of a grammar rule at a position: the rule
/// matched and the next position is `next`, or it did not apply, or the
/// parse aborted at a position.
pub enum PRes<T> {
    Found { next: int, val: T },
    Miss,
    Abort(int),
}

/// The executable result `r` returns exactly what the specification-level
/// outcome `sp` describes, with the parsed value related through its view.
pub open spec fn agrees<T: View>(r: Result<(usize, T), PFail>, sp: PRes<T::V>) -> bool {
    match r {
        Ok((j, v)) => sp matches PRes::Found { next, val } && j == next && v@ == val,
        Err(PFail::Mismatch) => sp is Miss,
        Err(PFail::Internal(p)) => sp matches PRes::Abort(q) && p == q,
    }
}

/// A located parse error: the user-facing failure of a whole-document parse.
#[derive(Debug, Clone, PartialEq, Eq)]
pub enum ParseErrorKind {
    /// The document does not match the grammar at this location.
    Syntax,
    /// A grammar-internal consistency check failed: a grammar bug, reported
    /// rather than panicking.
    Internal,
}

#[derive(Debug, Clone, PartialEq)]
pub struct ParseError {
    pub kind: ParseErrorKind,
    /// 1-based number of the line that holds the location.
    pub line: usize,
    /// The location as a 0-based character offset into the input (the
    /// parsers count characters, not bytes).
    pub offset: usize,
    pub message: String,
}

/// Number of the line (1-based) that holds character position `pos`.
pub open spec fn line_at(s: Seq<char>, pos: int) -> int
    decreases pos,
{
    if pos <= 0 {
        1
    } else {
        line_at(s, pos - 1) + if s[pos - 1] == '\n' {
            1int
        } else {
            0int
        }
    }
}

proof fn lemma_line_at_bound(s: Seq<char>, pos: int)
    requires
        0 <= pos,
    ensures
        1 <= line_at(s, pos) <= 1 + pos,
    decreases pos,
{
    if pos > 0 {
        lemma_line_at_bound(s, pos - 1);
    }
}

/// The 1-based line number of character position `pos` in `s`.
pub fn line_of(s: &str, pos: usize) -> (line: usize)
    requires
        pos <= s@.len(),
        pos < usize::MAX,
    ensures
        line as int == line_at(s@, pos as int),
{
    let mut line: usize = 1;
    let mut k: usize = 0;
    proof {
        lemma_line_at_bound(s@, pos as int);
    }
    while k < pos
        invariant
            0 <= k <= pos,
            pos <= s@.len(),
            pos < usize::MAX,
            line as int == line_at(s@, k as int),
            line as int <= 1 + k,
            line_at(s@, k as int) <= line_at(s@, pos as int) <= 1 + pos,
        decreases pos - k,
    {
        proof {
            lemma_line_at_mono(s@, k as int + 1, pos as int);
        }
        if s.get_char(k) == '\n' {
            line = line + 1;
        }
        k = k + 1;
    }
    line
}

proof fn lemma_line_at_mono(s: Seq<char>, a: int, b: int)
    requires
        0 <= a <= b,
    ensures
        line_at(s, a) <= line_at(s, b),
    decreases b - a,
{
    if a < b {
        lemma_line_at_mono(s, a, b - 1);
    }
}

impl ParseError {
    pub fn new(kind: ParseErrorKind, line: usize, offset: usize, message: String) -> (r: Self)
        ensures
            r.kind == kind,
            r.line == line,
            r.offset == offset,
            r.message@ == message@,
    {
        Self { kind, line, offset, message }
    }

    pub fn kind(&self) -> (r: ParseErrorKind)
        ensures
            r == self.kind,
    {
        match self.kind {
            ParseErrorKind::Syntax => ParseErrorKind::Syntax,
            ParseErrorKind::Internal => ParseErrorKind::Internal,
        }
    }

    /// The 1-based line number of the location.
    pub fn line(&self) -> (r: usize)
        ensures
            r == self.line,
    {
        self.line
    }

    /// The location as a 0-based character offset into the input.
    pub fn offset(&self) -> (r: usize)
        ensures
            r == self.offset,
    {
        self.offset
    }

    /// The located message, as "line:offset: parse error: message".
    pub fn message(&self) -> (r: String)
        ensures
            r@ == crate::strutil::dec_str(self.line as nat) + ":"@ + crate::strutil::dec_str(
                self.offset as nat,
            ) + ": parse error: "@ + self.message@,
    {
        let mut out = String::new();
        crate::strutil::push_dec(&mut out, self.line);
        out.append(":");
        crate::strutil::push_dec(&mut out, self.offset);
        out.append(": parse error: ");
        out.append(self.message.as_str());
        out
    }
}

} // verus!
