//! What a failed parse reports.
use crate::grammar::Rule;
use vstd::prelude::*;
use vstd::string::StringSliceAdditionalSpecFns;

verus! {

/// The input does not conform to the grammar: `rule` is the innermost rule
/// attempted at `pos`, the furthest byte offset that any attempt reached.
#[derive(Clone, Copy, Debug, PartialEq, Eq)]
pub struct SyntaxError {
    pub rule: Rule,
    pub pos: usize,
}

/// Why a parse failed.
#[derive(Clone, Copy, Debug, PartialEq, Eq)]
pub enum HtmlParserError {
    /// The input does not match the rule.
    ParseError(SyntaxError),
    /// The input nests rules deeper than the parser allows.
    RecursionLimitExceeded,
}

/// How many line feeds the first `pos` bytes of `s` hold.
pub open spec fn newlines_before(s: Seq<u8>, pos: int) -> nat
    decreases pos,
{
    if pos <= 0 {
        0
    } else {
        newlines_before(s, pos - 1) + if s[pos - 1] == 10 {
            1nat
        } else {
            0nat
        }
    }
}

/// Where the line that holds offset `pos` begins.
pub open spec fn line_start(s: Seq<u8>, pos: int) -> int
    decreases pos,
{
    if pos <= 0 {
        0
    } else if s[pos - 1] == 10 {
        pos
    } else {
        line_start(s, pos - 1)
    }
}

proof fn lemma_newlines_bounded(s: Seq<u8>, pos: int)
    requires
        0 <= pos,
    ensures
        newlines_before(s, pos) <= pos,
        0 <= line_start(s, pos) <= pos,
    decreases pos,
{
    if pos > 0 {
        lemma_newlines_bounded(s, pos - 1);
    }
}

/// The line and column, both counted from 1, of byte offset `pos` in `input`;
/// the column counts bytes from the start of the line.
pub fn line_col(input: &str, pos: usize) -> (r: (usize, usize))
    requires
        pos <= input.spec_bytes().len(),
        pos < usize::MAX,
    ensures
        r.0 == 1 + newlines_before(input.spec_bytes(), pos as int),
        r.1 == 1 + pos - line_start(input.spec_bytes(), pos as int),
{
    let bytes = input.as_bytes();
    let mut line: usize = 1;
    let mut start: usize = 0;
    let mut i: usize = 0;
    while i < pos
        invariant
            bytes@ == input.spec_bytes(),
            pos <= bytes@.len(),
            pos < usize::MAX,
            i <= pos,
            line == 1 + newlines_before(bytes@, i as int),
            start == line_start(bytes@, i as int),
            newlines_before(bytes@, i as int) <= i,
            start <= i,
        decreases pos - i,
    {
        proof {
            lemma_newlines_bounded(bytes@, i + 1);
        }
        if bytes[i] == 10 {
            line = line + 1;
            start = i + 1;
        }
        i = i + 1;
    }
    (line, 1 + pos - start)
}

impl SyntaxError {
    /// The line and column, both counted from 1, at which the parse of
    /// `input` failed.
    pub fn line_col(&self, input: &str) -> (r: (usize, usize))
        requires
            self.pos <= input.spec_bytes().len(),
            self.pos < usize::MAX,
        ensures
            r.0 == 1 + newlines_before(input.spec_bytes(), self.pos as int),
            r.1 == 1 + self.pos - line_start(input.spec_bytes(), self.pos as int),
    {
        line_col(input, self.pos)
    }
}

} // verus!
