//! Lexical errors and the mapping from byte offsets to line and column.

use vstd::prelude::*;
use crate::layout::line_start;
use crate::lexer::utf8_len;
use crate::integer::IntError;
use crate::text::{chars_of, decimal, push_char, push_decimal};

verus! {

/// A half-open byte range `[start, end)` of the source text.
#[derive(Debug, Clone, Copy, PartialEq, Eq, Structural)]
pub struct Span {
    pub start: usize,
    pub end: usize,
}

impl Span {
    pub fn new(start: usize, end: usize) -> (r: Span)
        ensures
            r.start == start,
            r.end == end,
    {
        Span { start, end }
    }
}

/// Why a piece of source text could not be turned into a token.
#[derive(Debug, Clone, PartialEq)]
pub enum LexicalError {
    /// An integer literal with no digits, or whose value is out of range.
    InvalidInteger { span: Span, reason: String },
    /// A float literal whose exponent is missing or out of range.
    InvalidFloat { span: Span, reason: String },
    /// A character literal that is not closed or holds no single character.
    InvalidCharLiteral { span: Span, reason: String },
    /// A string literal that is not closed.
    InvalidStringLiteral { span: Span, reason: String },
    /// An escape sequence the language does not know.
    InvalidEscapeSequence { span: Span, sequence: String },
    /// A control character or a character outside ASCII.
    UnexpectedCharacter { span: Span, character: char },
    /// Text that matches no token rule.
    UnrecognizedToken { span: Span, text: String },
    /// An error without position information.
    InvalidToken,
}

impl LexicalError {
    /// The span the error refers to; `None` for `InvalidToken`.
    pub fn span(&self) -> (r: Option<Span>)
        ensures
            r == error_span(*self),
    {
        match self {
            LexicalError::InvalidInteger { span, .. } => Some(*span),
            LexicalError::InvalidFloat { span, .. } => Some(*span),
            LexicalError::InvalidCharLiteral { span, .. } => Some(*span),
            LexicalError::InvalidStringLiteral { span, .. } => Some(*span),
            LexicalError::InvalidEscapeSequence { span, .. } => Some(*span),
            LexicalError::UnexpectedCharacter { span, .. } => Some(*span),
            LexicalError::UnrecognizedToken { span, .. } => Some(*span),
            LexicalError::InvalidToken => None,
        }
    }
}

/// The span carried by an error, if any.
pub open spec fn error_span(e: LexicalError) -> Option<Span> {
    match e {
        LexicalError::InvalidInteger { span, .. } => Some(span),
        LexicalError::InvalidFloat { span, .. } => Some(span),
        LexicalError::InvalidCharLiteral { span, .. } => Some(span),
        LexicalError::InvalidStringLiteral { span, .. } => Some(span),
        LexicalError::InvalidEscapeSequence { span, .. } => Some(span),
        LexicalError::UnexpectedCharacter { span, .. } => Some(span),
        LexicalError::UnrecognizedToken { span, .. } => Some(span),
        LexicalError::InvalidToken => None,
    }
}

impl Default for LexicalError {
    fn default() -> (r: LexicalError)
        ensures
            r is InvalidToken,
    {
        LexicalError::InvalidToken
    }
}

/// The number of bytes UTF-8 takes for the characters `s`.
pub open spec fn byte_len(s: Seq<char>) -> nat
    decreases s.len(),
{
    if s.len() == 0 {
        0
    } else {
        byte_len(s.drop_last()) + utf8_len(s.last())
    }
}

/// The index of the first character at or after `i` that begins at or
/// after byte `offset` (the length if there is none).
pub open spec fn first_char_at(cs: Seq<char>, offset: nat, i: int) -> int
    decreases cs.len() - i,
{
    if i < 0 || i >= cs.len() || byte_len(cs.subrange(0, i)) >= offset {
        if i < 0 {
            0
        } else {
            i
        }
    } else {
        first_char_at(cs, offset, i + 1)
    }
}

/// How many newlines `s` holds.
pub open spec fn newline_count(s: Seq<char>) -> nat
    decreases s.len(),
{
    if s.len() == 0 {
        0
    } else {
        newline_count(s.drop_last()) + if s.last() == '\n' {
            1nat
        } else {
            0nat
        }
    }
}

impl LexicalError {
    /// The 1-based line and column of byte `offset` in `source`: lines are
    /// counted by the newlines before it, columns by the characters since
    /// the last of them.
    pub fn position_from_source(source: &str, offset: usize) -> (r: (usize, usize))
        requires
            source@.len() < usize::MAX,
        ensures
            ({
                let k = first_char_at(source@, offset as nat, 0);
                &&& r.0 == 1 + newline_count(source@.subrange(0, k))
                &&& r.1 == 1 + k - line_start(source@, k)
            }),
    {
        let cs = chars_of(source);
        let n = cs.len();
        let mut line: usize = 1;
        let mut column: usize = 1;
        let mut i: usize = 0;
        let mut b: usize = 0;
        assert(cs@.subrange(0, 0) =~= Seq::<char>::empty());
        while i < n && b < offset
            invariant
                n == cs@.len(),
                n < usize::MAX,
                cs@ == source@,
                i <= n,
                b == (if byte_len(cs@.subrange(0, i as int)) > usize::MAX {
                    usize::MAX as nat
                } else {
                    byte_len(cs@.subrange(0, i as int))
                }),
                first_char_at(cs@, offset as nat, 0) == first_char_at(cs@, offset as nat, i as int),
                line == 1 + newline_count(cs@.subrange(0, i as int)),
                column == 1 + i - line_start(cs@, i as int),
                line <= i + 1,
                column <= i + 1,
            decreases n - i,
        {
            let c = cs[i];
            assert(cs@.subrange(0, i + 1).drop_last() =~= cs@.subrange(0, i as int));
            assert(cs@.subrange(0, i + 1).last() == c);
            if c == '\n' {
                line = line + 1;
                column = 1;
            } else {
                column = column + 1;
            }
            let v = c as u32;
            let len: usize = if v < 0x80 {
                1
            } else if v < 0x800 {
                2
            } else if v < 0x10000 {
                3
            } else {
                4
            };
            b = b.saturating_add(len);
            i = i + 1;
        }
        (line, column)
    }
}

/// `start..end` in decimal.
pub open spec fn span_text(span: Span) -> Seq<char> {
    decimal(span.start as nat) + seq!['.', '.'] + decimal(span.end as nat)
}

/// The message describing an error.
pub open spec fn error_message(e: LexicalError) -> Seq<char> {
    match e {
        LexicalError::InvalidInteger { span, reason } => "Invalid integer literal at "@ + span_text(span) + ": "@
            + reason@,
        LexicalError::InvalidFloat { span, reason } => "Invalid float literal at "@ + span_text(span) + ": "@
            + reason@,
        LexicalError::InvalidCharLiteral { span, reason } => "Invalid character literal at "@ + span_text(span)
            + ": "@ + reason@,
        LexicalError::InvalidStringLiteral { span, reason } => "Invalid string literal at "@ + span_text(span)
            + ": "@ + reason@,
        LexicalError::InvalidEscapeSequence { span, sequence } => "Invalid escape sequence '"@ + sequence@
            + "' at "@ + span_text(span),
        LexicalError::UnexpectedCharacter { span, character } => "Unexpected character '"@ + seq![character]
            + "' at "@ + span_text(span),
        LexicalError::UnrecognizedToken { span, text } => "Unrecognized token '"@ + text@ + "' at "@
            + span_text(span),
        LexicalError::InvalidToken => "Invalid token"@,
    }
}

fn push_span(out: &mut String, span: Span)
    ensures
        final(out)@ == old(out)@ + span_text(span),
{
    push_decimal(out, span.start as u64);
    push_char(out, '.');
    push_char(out, '.');
    push_decimal(out, span.end as u64);
    assert(out@ =~= old(out)@ + span_text(span));
}

impl LexicalError {
    /// A one-line description of the error with its span.
    pub fn message(&self) -> (r: String)
        ensures
            r@ == error_message(*self),
    {
        let mut out = String::new();
        match self {
            LexicalError::InvalidInteger { span, reason } => {
                out.append("Invalid integer literal at ");
                push_span(&mut out, *span);
                out.append(": ");
                out.append(reason.as_str());
            },
            LexicalError::InvalidFloat { span, reason } => {
                out.append("Invalid float literal at ");
                push_span(&mut out, *span);
                out.append(": ");
                out.append(reason.as_str());
            },
            LexicalError::InvalidCharLiteral { span, reason } => {
                out.append("Invalid character literal at ");
                push_span(&mut out, *span);
                out.append(": ");
                out.append(reason.as_str());
            },
            LexicalError::InvalidStringLiteral { span, reason } => {
                out.append("Invalid string literal at ");
                push_span(&mut out, *span);
                out.append(": ");
                out.append(reason.as_str());
            },
            LexicalError::InvalidEscapeSequence { span, sequence } => {
                out.append("Invalid escape sequence '");
                out.append(sequence.as_str());
                out.append("' at ");
                push_span(&mut out, *span);
            },
            LexicalError::UnexpectedCharacter { span, character } => {
                out.append("Unexpected character '");
                push_char(&mut out, *character);
                out.append("' at ");
                push_span(&mut out, *span);
            },
            LexicalError::UnrecognizedToken { span, text } => {
                out.append("Unrecognized token '");
                out.append(text.as_str());
                out.append("' at ");
                push_span(&mut out, *span);
            },
            LexicalError::InvalidToken => {
                out.append("Invalid token");
            },
        }
        assert(out@ =~= error_message(*self));
        out
    }

    /// The `InvalidInteger` error at `span` for a literal whose value could
    /// not be read, with a reason naming the failure.
    pub fn from_int_error(e: IntError, span: Span) -> (r: LexicalError)
        ensures
            r matches LexicalError::InvalidInteger { span: sp, .. } && sp == span,
    {
        let mut reason = String::new();
        match e {
            IntError::PosOverflow => reason.append("integer overflow (too large)"),
            IntError::InvalidDigit => reason.append("invalid digit in integer literal"),
            IntError::Empty => reason.append("failed to parse integer: cannot parse integer from empty string"),
        }
        LexicalError::InvalidInteger { span, reason }
    }
}

} // verus!
