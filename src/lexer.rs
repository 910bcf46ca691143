//! The token lexer: a maximal-munch scanner over the source characters that
//! skips spaces, tabs and comments and yields one token per call.

use vstd::prelude::*;
use crate::error::{byte_len, LexicalError, Span};
use crate::float::{scan_float, scan_float_spec};
use crate::integer::{scan_integer, scan_integer_spec};
use crate::text::{chars_of, push_char, string_of};
use crate::token::{keyword_in, keyword_of, operator_at, operator_of, Token};

verus! {

/// The character a backslash escape stands for; an unknown escape keeps
/// its backslash.
pub open spec fn escaped(e: char) -> Seq<char> {
    if e == 'n' {
        seq!['\n']
    } else if e == 'r' {
        seq!['\r']
    } else if e == 't' {
        seq!['\t']
    } else if e == '\\' {
        seq!['\\']
    } else if e == '0' {
        seq!['\0']
    } else if e == '\'' {
        seq!['\'']
    } else if e == '"' {
        seq!['"']
    } else {
        seq!['\\', e]
    }
}

/// The text of a literal's body with its escape sequences resolved; a
/// backslash at the very end stays as it is.
pub open spec fn unescape(s: Seq<char>) -> Seq<char>
    decreases s.len(),
{
    if s.len() == 0 {
        s
    } else if s[0] == '\\' {
        if s.len() == 1 {
            seq!['\\']
        } else {
            escaped(s[1]) + unescape(s.subrange(2, s.len() as int))
        }
    } else {
        seq![s[0]] + unescape(s.drop_first())
    }
}

/// Resolves the escapes of `cs[from..to]`.
pub(crate) fn unescape_range(cs: &Vec<char>, from: usize, to: usize) -> (r: String)
    requires
        from <= to <= cs@.len(),
    ensures
        r@ == unescape(cs@.subrange(from as int, to as int)),
{
    let mut out = String::new();
    let mut i: usize = from;
    assert(out@ + unescape(cs@.subrange(from as int, to as int)) =~= unescape(
        cs@.subrange(from as int, to as int),
    ));
    while i < to
        invariant
            from <= i <= to <= cs@.len(),
            out@ + unescape(cs@.subrange(i as int, to as int)) == unescape(
                cs@.subrange(from as int, to as int),
            ),
        decreases to - i,
    {
        let ghost rest = cs@.subrange(i as int, to as int);
        let c = cs[i];
        assert(rest[0] == c);
        if c == '\\' {
            if i + 1 == to {
                push_char(&mut out, '\\');
                assert(cs@.subrange(to as int, to as int) =~= Seq::<char>::empty());
                assert(rest.len() == 1);
                i = to;
            } else {
                let e = cs[i + 1];
                assert(rest[1] == e);
                let ghost before = out@;
                if e == 'n' {
                    push_char(&mut out, '\n');
                } else if e == 'r' {
                    push_char(&mut out, '\r');
                } else if e == 't' {
                    push_char(&mut out, '\t');
                } else if e == '\\' {
                    push_char(&mut out, '\\');
                } else if e == '0' {
                    push_char(&mut out, '\0');
                } else if e == '\'' {
                    push_char(&mut out, '\'');
                } else if e == '"' {
                    push_char(&mut out, '"');
                } else {
                    push_char(&mut out, '\\');
                    push_char(&mut out, e);
                }
                assert(out@ =~= before + escaped(e));
                assert(rest.subrange(2, rest.len() as int) =~= cs@.subrange(i + 2, to as int));
                assert(out@ + unescape(cs@.subrange(i + 2, to as int)) =~= before + unescape(rest));
                i = i + 2;
            }
        } else {
            let ghost before = out@;
            push_char(&mut out, c);
            assert(rest.drop_first() =~= cs@.subrange(i + 1, to as int));
            assert(out@ + unescape(cs@.subrange(i + 1, to as int)) =~= before + unescape(rest));
            i = i + 1;
        }
    }
    assert(cs@.subrange(to as int, to as int) =~= Seq::<char>::empty());
    assert(out@ + Seq::<char>::empty() =~= out@);
    out
}

/// Resolves the escapes of a quoted literal such as `"a\tb"` or `'\n'`,
/// dropping its first and last character.
pub fn unescape_literal(lex_slice: &str) -> (r: String)
    requires
        lex_slice@.len() >= 2,
    ensures
        r@ == unescape(lex_slice@.subrange(1, lex_slice@.len() - 1)),
{
    let cs = chars_of(lex_slice);
    unescape_range(&cs, 1, cs.len() - 1)
}

/// Classes of characters that runs are scanned over.
#[derive(Debug, Clone, Copy, PartialEq, Eq, Structural)]
pub enum CharClass {
    /// `[_0-9]`
    Decimal,
    /// `[_01]`
    Binary,
    /// `[_0-7]`
    Octal,
    /// `[_0-9a-fA-F]`
    Hex,
    /// `[A-Za-z0-9_]`
    Word,
}

pub open spec fn is_digit(c: char) -> bool {
    '0' <= c && c <= '9'
}

pub open spec fn is_letter(c: char) -> bool {
    ('a' <= c && c <= 'z') || ('A' <= c && c <= 'Z')
}

/// Membership of a character in a class.
pub open spec fn in_class(c: char, k: CharClass) -> bool {
    match k {
        CharClass::Decimal => c == '_' || is_digit(c),
        CharClass::Binary => c == '_' || c == '0' || c == '1',
        CharClass::Octal => c == '_' || ('0' <= c && c <= '7'),
        CharClass::Hex => c == '_' || is_digit(c) || ('a' <= c && c <= 'f') || ('A' <= c && c <= 'F'),
        CharClass::Word => c == '_' || is_digit(c) || is_letter(c),
    }
}

fn in_class_exec(c: char, k: CharClass) -> (r: bool)
    ensures
        r == in_class(c, k),
{
    match k {
        CharClass::Decimal => c == '_' || ('0' <= c && c <= '9'),
        CharClass::Binary => c == '_' || c == '0' || c == '1',
        CharClass::Octal => c == '_' || ('0' <= c && c <= '7'),
        CharClass::Hex => c == '_' || ('0' <= c && c <= '9') || ('a' <= c && c <= 'f') || ('A' <= c
            && c <= 'F'),
        CharClass::Word => c == '_' || ('0' <= c && c <= '9') || ('a' <= c && c <= 'z') || ('A' <= c
            && c <= 'Z'),
    }
}

/// The end of the longest run of class `k` starting at `p`.
fn run_end(cs: &Vec<char>, p: usize, k: CharClass) -> (r: usize)
    requires
        p <= cs@.len(),
    ensures
        p <= r <= cs@.len(),
        forall|i: int| p <= i < r ==> in_class(#[trigger] cs@[i], k),
        r < cs@.len() ==> !in_class(cs@[r as int], k),
        r == run_end_spec(cs@, p as int, k),
{
    let mut i = p;
    while i < cs.len() && in_class_exec(cs[i], k)
        invariant
            p <= i <= cs@.len(),
            run_end_spec(cs@, p as int, k) == run_end_spec(cs@, i as int, k),
            forall|j: int| p <= j < i ==> in_class(#[trigger] cs@[j], k),
        decreases cs@.len() - i,
    {
        i = i + 1;
    }
    i
}

/// A word of the identifier shape: `[A-Za-z][A-Za-z0-9_]*` or `_[A-Za-z0-9_]+`.
pub open spec fn is_ident_word(w: Seq<char>) -> bool {
    &&& w.len() >= 1
    &&& forall|i: int| 0 <= i < w.len() ==> in_class(#[trigger] w[i], CharClass::Word)
    &&& (is_letter(w[0]) || (w[0] == '_' && w.len() >= 2))
}

/// The end of the longest run of class `k` starting at `p`.
pub open spec fn run_end_spec(cs: Seq<char>, p: int, k: CharClass) -> int
    decreases cs.len() - p,
{
    if p < 0 || p >= cs.len() || !in_class(cs[p], k) {
        p
    } else {
        run_end_spec(cs, p + 1, k)
    }
}

/// The length of the integer suffix starting at `q`, or 0.
pub open spec fn int_suffix_len_spec(cs: Seq<char>, q: int) -> int {
    let n = cs.len();
    if q < 0 || q >= n || (cs[q] != 'u' && cs[q] != 'i') {
        0
    } else if n - q >= 2 && cs[q + 1] == '8' {
        2
    } else if n - q >= 3 && ((cs[q + 1] == '1' && cs[q + 2] == '6') || (cs[q + 1] == '3' && cs[q + 2]
        == '2') || (cs[q + 1] == '6' && cs[q + 2] == '4')) {
        3
    } else if n - q >= 5 && cs[q + 1] == 's' && cs[q + 2] == 'i' && cs[q + 3] == 'z' && cs[q + 4] == 'e' {
        5
    } else {
        0
    }
}

/// The length of the float suffix starting at `q`, or 0.
pub open spec fn float_suffix_len_spec(cs: Seq<char>, q: int) -> int {
    if 0 <= q && cs.len() - q >= 3 && cs[q] == 'f' && ((cs[q + 1] == '3' && cs[q + 2] == '2') || (cs[q
        + 1] == '6' && cs[q + 2] == '4')) {
        3
    } else {
        0
    }
}

/// The length of an exponent `e[+-]?[0-9][_0-9]*` starting at `q`, or 0.
pub open spec fn exponent_len_spec(cs: Seq<char>, q: int) -> int {
    let n = cs.len();
    if q < 0 || q >= n || cs[q] != 'e' {
        0
    } else {
        let d = if q + 1 < n && (cs[q + 1] == '+' || cs[q + 1] == '-') {
            q + 2
        } else {
            q + 1
        };
        if d < n && is_digit(cs[d]) {
            run_end_spec(cs, d + 1, CharClass::Decimal) - q
        } else {
            0
        }
    }
}

/// The end of the longest numeric lexeme at `p` (which holds a digit) among
/// decimal integers, floats and prefixed integers, and whether it is a float.
pub open spec fn number_end_spec(cs: Seq<char>, p: int) -> (int, bool) {
    let n = cs.len();
    let d = run_end_spec(cs, p + 1, CharClass::Decimal);
    let ib = d + int_suffix_len_spec(cs, d);
    let (best, fl) = if n - d >= 2 && cs[d] == '.' && is_digit(cs[d + 1]) {
        let f0 = run_end_spec(cs, d + 2, CharClass::Decimal);
        let f1 = f0 + exponent_len_spec(cs, f0);
        let f = f1 + float_suffix_len_spec(cs, f1);
        if f > ib {
            (f, true)
        } else {
            (ib, false)
        }
    } else if exponent_len_spec(cs, d) > 0 {
        let f = d + exponent_len_spec(cs, d);
        let f2 = f + float_suffix_len_spec(cs, f);
        if f2 > ib {
            (f2, true)
        } else {
            (ib, false)
        }
    } else {
        (ib, false)
    };
    if cs[p] == '0' && n - p > 2 && (cs[p + 1] == 'b' || cs[p + 1] == 'o' || cs[p + 1] == 'x') {
        let k = if cs[p + 1] == 'b' {
            CharClass::Binary
        } else if cs[p + 1] == 'o' {
            CharClass::Octal
        } else {
            CharClass::Hex
        };
        let q = if k != CharClass::Binary && cs[p + 2] == '_' {
            p + 3
        } else {
            p + 2
        };
        if q < n && cs[q] != '_' && in_class(cs[q], k) {
            let e = run_end_spec(cs, q + 1, k);
            let e2 = e + int_suffix_len_spec(cs, e);
            if e2 > best {
                (e2, false)
            } else {
                (best, fl)
            }
        } else {
            (best, fl)
        }
    } else {
        (best, fl)
    }
}

/// The index after the first `*/` at or after `j`, if any.
pub open spec fn comment_close(cs: Seq<char>, j: int) -> Option<int>
    decreases cs.len() - j,
{
    if j < 0 || j + 1 >= cs.len() {
        None
    } else if cs[j] == '*' && cs[j + 1] == '/' {
        Some(j + 2)
    } else {
        comment_close(cs, j + 1)
    }
}

/// The first index at or after `i` that holds no space, tab or comment text:
/// spaces and tabs, `//` comments up to their newline, and closed `/* */`
/// comments are skipped.
pub open spec fn skip_spec(cs: Seq<char>, i: int) -> int
    decreases cs.len() - i, 0int,
{
    if i < 0 || i >= cs.len() {
        i
    } else if cs[i] == ' ' || cs[i] == '\t' {
        skip_spec(cs, i + 1)
    } else if cs[i] == '/' && i + 1 < cs.len() && cs[i + 1] == '/' {
        skip_line(cs, i + 2)
    } else if cs[i] == '/' && i + 1 < cs.len() && cs[i + 1] == '*' {
        match comment_close(cs, i + 2) {
            Some(e) => if i < e <= cs.len() {
                skip_spec(cs, e)
            } else {
                i
            },
            None => i,
        }
    } else {
        i
    }
}

/// Skipping the rest of a `//` comment from `j`, then going on as [`skip_spec`].
pub open spec fn skip_line(cs: Seq<char>, j: int) -> int
    decreases cs.len() - j, 1int,
{
    if j < 0 || j >= cs.len() {
        j
    } else if cs[j] == '\n' {
        skip_spec(cs, j)
    } else {
        skip_line(cs, j + 1)
    }
}

/// Scanning a quoted body from `i`: `Ok` past the closing `"`, or `Err` where
/// the text ends or an escape is cut short.
pub open spec fn str_scan(cs: Seq<char>, i: int) -> Result<int, int>
    decreases cs.len() - i,
{
    if i < 0 || i >= cs.len() {
        Err(cs.len() as int)
    } else if cs[i] == '"' {
        Ok(i + 1)
    } else if cs[i] == '\\' {
        if i + 1 >= cs.len() || cs[i + 1] == '\n' {
            Err(i + 1)
        } else {
            str_scan(cs, i + 2)
        }
    } else {
        str_scan(cs, i + 1)
    }
}

/// Scanning a character literal at the quote `p`.
pub open spec fn char_scan(cs: Seq<char>, p: int) -> Result<int, int> {
    let n = cs.len();
    if p + 1 >= n {
        Err(p + 1)
    } else if cs[p + 1] == '\'' {
        Err(p + 1)
    } else if cs[p + 1] == '\\' {
        if p + 2 >= n || cs[p + 2] == '\n' {
            Err(p + 2)
        } else if p + 3 >= n || cs[p + 3] != '\'' {
            Err(p + 3)
        } else {
            Ok(p + 4)
        }
    } else if p + 2 >= n || cs[p + 2] != '\'' {
        Err(p + 2)
    } else {
        Ok(p + 3)
    }
}

/// The length of the longest operator at `p`, or 0.
pub open spec fn op_len_spec(cs: Seq<char>, p: int) -> int {
    if p + 3 <= cs.len() && operator_of(cs.subrange(p, p + 3)) is Some {
        3
    } else if p + 2 <= cs.len() && operator_of(cs.subrange(p, p + 2)) is Some {
        2
    } else if p + 1 <= cs.len() && operator_of(cs.subrange(p, p + 1)) is Some {
        1
    } else {
        0
    }
}

/// What the lexer finds at a position.
pub enum LexKind {
    /// Only spaces, tabs and comments remain.
    End,
    Newline,
    /// A keyword, `_` or an identifier.
    Word,
    Integer,
    Float,
    Str,
    Char,
    Interp,
    /// An operator or punctuation.
    Symbol,
    /// An unterminated string literal.
    BadString,
    /// A malformed character literal.
    BadChar,
    /// A character that starts no token.
    BadCharacter,
}

/// The end and kind of the lexeme that starts at `p`, the longest match there.
pub open spec fn lex_at(cs: Seq<char>, p: int) -> (int, LexKind) {
    let n = cs.len();
    if cs[p] == '\n' {
        (p + 1, LexKind::Newline)
    } else if is_letter(cs[p]) || cs[p] == '_' {
        (run_end_spec(cs, p + 1, CharClass::Word), LexKind::Word)
    } else if is_digit(cs[p]) {
        let (e, f) = number_end_spec(cs, p);
        (e, if f {
            LexKind::Float
        } else {
            LexKind::Integer
        })
    } else if cs[p] == '"' {
        match str_scan(cs, p + 1) {
            Ok(e) => (e, LexKind::Str),
            Err(e) => (e, LexKind::BadString),
        }
    } else if cs[p] == '\'' {
        match char_scan(cs, p) {
            Ok(e) => (e, LexKind::Char),
            Err(e) => (e, LexKind::BadChar),
        }
    } else if cs[p] == '$' && p + 1 < n && cs[p + 1] == '"' {
        match str_scan(cs, p + 2) {
            Ok(e) => (e, LexKind::Interp),
            Err(e) => (e, LexKind::BadString),
        }
    } else if op_len_spec(cs, p) > 0 {
        (p + op_len_spec(cs, p), LexKind::Symbol)
    } else {
        (p + 1, LexKind::BadCharacter)
    }
}

/// The lexeme found when scanning resumes at `pos`: its start, its end, and
/// its kind. Spaces, tabs and comments before it are skipped; the lexeme is
/// the longest match at its start.
pub open spec fn lex_span(cs: Seq<char>, pos: int) -> (int, int, LexKind) {
    let p = skip_spec(cs, pos);
    if p >= cs.len() {
        (cs.len() as int, cs.len() as int, LexKind::End)
    } else {
        (p, lex_at(cs, p).0, lex_at(cs, p).1)
    }
}

/// The result a lexeme of kind `k` at characters `s..e` yields: its token,
/// or its error with its byte span.
pub open spec fn lex_outcome(cs: Seq<char>, s: int, e: int, k: LexKind, r: Result<Token, LexicalError>) -> bool {
    let w = cs.subrange(s, e);
    match r {
        Ok(t) => lex_ok(k, w) && lexed_token(k, w, t),
        Err(err) => !lex_ok(k, w) && lexed_error(k, w, byte_span(cs, s, e), err),
    }
}

/// Whether a lexeme of kind `k` spelled `w` is a token rather than an error.
pub open spec fn lex_ok(k: LexKind, w: Seq<char>) -> bool {
    match k {
        LexKind::Integer => scan_integer_spec(w).1.len() > 0,
        LexKind::Float => scan_float_spec(w) is Some,
        LexKind::End | LexKind::BadString | LexKind::BadChar | LexKind::BadCharacter => false,
        _ => true,
    }
}

/// `t` is the token a lexeme of kind `k` spelled `w` stands for.
pub open spec fn lexed_token(k: LexKind, w: Seq<char>, t: Token) -> bool {
    match k {
        LexKind::Newline => t == Token::Newline,
        LexKind::Word => if w == seq!['_'] {
            t == Token::Underscore
        } else if keyword_of(w) is Some {
            keyword_of(w) == Some(t)
        } else {
            t matches Token::Ident(s) && s@ == w
        },
        LexKind::Integer => t matches Token::IntegerLiteral(lit) && scan_integer_spec(w) == (
            lit.base,
            lit.digits@,
            lit.suffix,
        ),
        LexKind::Float => t matches Token::FloatLiteral(lit) && scan_float_spec(w) == Some(
            (lit.digits@, lit.exponent, lit.suffix),
        ),
        LexKind::Str => t matches Token::StringLiteral(v) && v@ == unescape(w.subrange(1, w.len() - 1)),
        LexKind::Char => t matches Token::CharLiteral(v) && v@ == unescape(w.subrange(1, w.len() - 1)),
        LexKind::Interp => t matches Token::InterpolatedString(v) && v@ == w.subrange(2, w.len() - 1),
        LexKind::Symbol => operator_of(w) == Some(t),
        _ => false,
    }
}

/// Whether `c` is reported as an unexpected character (a control character
/// or one outside ASCII) rather than as unrecognized text.
pub open spec fn is_unexpected_char(c: char) -> bool {
    (c as u32) < 0x20 || (c as u32) == 0x7f || (c as u32) >= 0x80
}

/// `e` is the error a lexeme of kind `k` spelled `w`, at byte span `span`, raises.
pub open spec fn lexed_error(k: LexKind, w: Seq<char>, span: Span, e: LexicalError) -> bool {
    match k {
        LexKind::Integer => e matches LexicalError::InvalidInteger { span: sp, .. } && sp == span,
        LexKind::Float => e matches LexicalError::InvalidFloat { span: sp, .. } && sp == span,
        LexKind::BadString => e matches LexicalError::InvalidStringLiteral { span: sp, .. } && sp == span,
        LexKind::BadChar => e matches LexicalError::InvalidCharLiteral { span: sp, .. } && sp == span,
        LexKind::BadCharacter => if is_unexpected_char(w[0]) {
            e == LexicalError::UnexpectedCharacter { span, character: w[0] }
        } else {
            e matches LexicalError::UnrecognizedToken { span: sp, text } && sp == span && text@ == w
        },
        _ => false,
    }
}

/// The byte offset of character `i`, capped at the largest `usize`.
pub open spec fn byte_offset(cs: Seq<char>, i: int) -> usize {
    if byte_len(cs.subrange(0, i)) > usize::MAX {
        usize::MAX
    } else {
        byte_len(cs.subrange(0, i)) as usize
    }
}

/// The byte span of characters `s..e`.
pub open spec fn byte_span(cs: Seq<char>, s: int, e: int) -> Span {
    Span { start: byte_offset(cs, s), end: byte_offset(cs, e) }
}

/// The number of bytes UTF-8 takes for `c`.
pub open spec fn utf8_len(c: char) -> nat {
    if (c as u32) < 0x80 {
        1
    } else if (c as u32) < 0x800 {
        2
    } else if (c as u32) < 0x10000 {
        3
    } else {
        4
    }
}

fn utf8_len_exec(c: char) -> (r: usize)
    ensures
        r == utf8_len(c),
{
    let v = c as u32;
    if v < 0x80 {
        1
    } else if v < 0x800 {
        2
    } else if v < 0x10000 {
        3
    } else {
        4
    }
}

/// The token lexer over one source text.
pub struct Lexer {
    /// The characters of the source.
    pub chars: Vec<char>,
    /// The byte offset of each character, and of the end.
    pub offsets: Vec<usize>,
    /// The character index scanning resumes at.
    pub pos: usize,
    /// Character range of the last token or error.
    pub start: usize,
    pub end: usize,
}

impl Lexer {
    /// The lexer's state is consistent.
    pub open spec fn wf(&self) -> bool {
        &&& self.offsets@.len() == self.chars@.len() + 1
        &&& self.chars@.len() < usize::MAX
        &&& forall|i: int| 0 <= i <= self.chars@.len() ==> #[trigger] self.offsets@[i] == byte_offset(self.chars@, i)
        &&& self.start <= self.end <= self.pos <= self.chars@.len()
    }

    /// A lexer at the start of `source`.
    pub fn new(source: &str) -> (r: Lexer)
        ensures
            r.wf(),
            r.chars@ == source@,
            r.pos == 0,
    {
        let chars = chars_of(source);
        let mut offsets: Vec<usize> = Vec::new();
        offsets.push(0);
        let mut i: usize = 0;
        assert(chars@.subrange(0, 0) =~= Seq::<char>::empty());
        while i < chars.len()
            invariant
                i <= chars@.len(),
                offsets@.len() == i + 1,
                forall|j: int| 0 <= j <= i ==> #[trigger] offsets@[j] == byte_offset(chars@, j),
            decreases chars@.len() - i,
        {
            let b = offsets[i].saturating_add(utf8_len_exec(chars[i]));
            proof {
                assert(chars@.subrange(0, i + 1).drop_last() =~= chars@.subrange(0, i as int));
                assert(chars@.subrange(0, i + 1).last() == chars@[i as int]);
            }
            offsets.push(b);
            i = i + 1;
        }
        let total = offsets.len();
        assert(total == chars@.len() + 1);
        Lexer { chars, offsets, pos: 0, start: 0, end: 0 }
    }

    /// The byte span of the last token or error.
    pub fn span(&self) -> (r: Span)
        requires
            self.wf(),
        ensures
            r.start == self.offsets@[self.start as int],
            r.end == self.offsets@[self.end as int],
    {
        Span { start: self.offsets[self.start], end: self.offsets[self.end] }
    }

    /// The text of the last token or error.
    pub fn slice(&self) -> (r: String)
        requires
            self.wf(),
        ensures
            r@ == self.chars@.subrange(self.start as int, self.end as int),
    {
        string_of(&self.chars, self.start, self.end)
    }

    fn span_of(&self, from: usize, to: usize) -> (r: Span)
        requires
            self.wf(),
            from <= to <= self.chars@.len(),
        ensures
            r.start == self.offsets@[from as int],
            r.end == self.offsets@[to as int],
    {
        Span { start: self.offsets[from], end: self.offsets[to] }
    }
}

/// The length of the integer suffix starting at `q`, or 0.
fn int_suffix_len_at(cs: &Vec<char>, q: usize) -> (r: usize)
    requires
        q <= cs@.len(),
    ensures
        q + r <= cs@.len(),
        r == 0 || r == 2 || r == 3 || r == 5,
        r == int_suffix_len_spec(cs@, q as int),
{
    let n = cs.len();
    if q >= n {
        return 0;
    }
    let c = cs[q];
    if c != 'u' && c != 'i' {
        return 0;
    }
    if n - q >= 2 && cs[q + 1] == '8' {
        return 2;
    }
    if n - q >= 3 {
        let a = cs[q + 1];
        let b = cs[q + 2];
        if (a == '1' && b == '6') || (a == '3' && b == '2') || (a == '6' && b == '4') {
            return 3;
        }
    }
    if n - q >= 5 && cs[q + 1] == 's' && cs[q + 2] == 'i' && cs[q + 3] == 'z' && cs[q + 4] == 'e' {
        return 5;
    }
    0
}

/// The length of the float suffix (`f32` or `f64`) starting at `q`, or 0.
fn float_suffix_len_at(cs: &Vec<char>, q: usize) -> (r: usize)
    requires
        q <= cs@.len(),
    ensures
        q + r <= cs@.len(),
        r == float_suffix_len_spec(cs@, q as int),
{
    let n = cs.len();
    if n - q >= 3 && cs[q] == 'f' && ((cs[q + 1] == '3' && cs[q + 2] == '2') || (cs[q + 1] == '6'
        && cs[q + 2] == '4')) {
        3
    } else {
        0
    }
}

/// The length of an exponent `e[+-]?[0-9][_0-9]*` starting at `q`, or 0.
fn exponent_len_at(cs: &Vec<char>, q: usize) -> (r: usize)
    requires
        q <= cs@.len(),
    ensures
        q + r <= cs@.len(),
        r == exponent_len_spec(cs@, q as int),
{
    let n = cs.len();
    if q >= n || cs[q] != 'e' {
        return 0;
    }
    let mut d = q + 1;
    if d < n && (cs[d] == '+' || cs[d] == '-') {
        d = d + 1;
    }
    if d < n && '0' <= cs[d] && cs[d] <= '9' {
        run_end(cs, d + 1, CharClass::Decimal) - q
    } else {
        0
    }
}

/// The end of the longest numeric lexeme starting at `p`, which holds a
/// digit, and whether it is a float.
fn number_end(cs: &Vec<char>, p: usize) -> (r: (usize, bool))
    requires
        p < cs@.len(),
    ensures
        p < r.0 <= cs@.len(),
        r.0 == number_end_spec(cs@, p as int).0,
        r.1 == number_end_spec(cs@, p as int).1,
{
    let n = cs.len();
    let d_end = run_end(cs, p + 1, CharClass::Decimal);
    let mut best = d_end + int_suffix_len_at(cs, d_end);
    let mut is_float = false;
    if n - d_end >= 2 && cs[d_end] == '.' && '0' <= cs[d_end + 1] && cs[d_end + 1] <= '9' {
        let mut f = run_end(cs, d_end + 2, CharClass::Decimal);
        f = f + exponent_len_at(cs, f);
        f = f + float_suffix_len_at(cs, f);
        if f > best {
            best = f;
            is_float = true;
        }
    } else {
        let e = exponent_len_at(cs, d_end);
        if e > 0 {
            let f = d_end + e;
            let f2 = f + float_suffix_len_at(cs, f);
            if f2 > best {
                best = f2;
                is_float = true;
            }
        }
    }
    if cs[p] == '0' && n - p > 2 {
        let m = cs[p + 1];
        let class = if m == 'b' {
            Some(CharClass::Binary)
        } else if m == 'o' {
            Some(CharClass::Octal)
        } else if m == 'x' {
            Some(CharClass::Hex)
        } else {
            None
        };
        if let Some(k) = class {
            let mut q = p + 2;
            if k != CharClass::Binary && cs[q] == '_' {
                q = q + 1;
            }
            if q < n && cs[q] != '_' && in_class_exec(cs[q], k) {
                let e = run_end(cs, q + 1, k);
                let e2 = e + int_suffix_len_at(cs, e);
                if e2 > best {
                    best = e2;
                    is_float = false;
                }
            }
        }
    }
    (best, is_float)
}

/// Whether `cs[p..]` starts a block comment that is closed; if so, the index after it.
fn block_comment_end(cs: &Vec<char>, p: usize) -> (r: Option<usize>)
    requires
        p + 2 <= cs@.len(),
    ensures
        r matches Some(e) ==> p + 2 <= e <= cs@.len() && comment_close(cs@, p + 2) == Some(e as int),
        r is None ==> comment_close(cs@, p + 2) is None,
{
    let n = cs.len();
    let mut i = p + 2;
    while i < n - 1
        invariant
            p + 2 <= i <= n,
            p + 2 <= n,
            n == cs@.len(),
            comment_close(cs@, p + 2) == comment_close(cs@, i as int),
        decreases n - i,
    {
        if cs[i] == '*' && cs[i + 1] == '/' {
            return Some(i + 2);
        }
        i = i + 1;
    }
    None
}

/// The index of the first character at or after `p` that is not a space, a
/// tab or part of a comment.
fn skip_trivia(cs: &Vec<char>, p: usize) -> (r: usize)
    requires
        p <= cs@.len(),
    ensures
        p <= r <= cs@.len(),
        r == skip_spec(cs@, p as int),
{
    let n = cs.len();
    let mut i = p;
    while i < n
        invariant
            p <= i <= n,
            n == cs@.len(),
            skip_spec(cs@, p as int) == skip_spec(cs@, i as int),
        decreases n - i,
    {
        let c = cs[i];
        if c == ' ' || c == '\t' {
            i = i + 1;
        } else if c == '/' && i + 1 < n && cs[i + 1] == '/' {
            let mut j = i + 2;
            while j < n && cs[j] != '\n'
                invariant
                    i + 2 <= j <= n,
                    n == cs@.len(),
                    skip_spec(cs@, p as int) == skip_line(cs@, j as int),
                decreases n - j,
            {
                j = j + 1;
            }
            i = j;
        } else if c == '/' && i + 1 < n && cs[i + 1] == '*' {
            match block_comment_end(cs, i) {
                Some(e) => {
                    i = e;
                },
                None => {
                    return i;
                },
            }
        } else {
            return i;
        }
    }
    i
}

/// How a quoted literal starting at `p` ends: `Ok(end)` after its closing
/// quote, or `Err(end)` where scanning had to stop.
fn string_end(cs: &Vec<char>, p: usize) -> (r: Result<usize, usize>)
    requires
        p < cs@.len(),
        cs@[p as int] == '"',
    ensures
        r matches Ok(e) ==> p + 2 <= e <= cs@.len() && cs@[e - 1] == '"' && str_scan(cs@, p + 1) == Ok::<int, int>(e as int),
        r matches Err(e) ==> p < e <= cs@.len() && str_scan(cs@, p + 1) == Err::<int, int>(e as int),
{
    let n = cs.len();
    let mut i = p + 1;
    while i < n
        invariant
            p < i <= n,
            n == cs@.len(),
            str_scan(cs@, p + 1) == str_scan(cs@, i as int),
        decreases n - i,
    {
        let c = cs[i];
        if c == '"' {
            return Ok(i + 1);
        } else if c == '\\' {
            if i + 1 >= n || cs[i + 1] == '\n' {
                return Err(i + 1);
            }
            i = i + 2;
        } else {
            i = i + 1;
        }
    }
    Err(n)
}

/// How a character literal starting at `p` ends, as for [`string_end`].
fn char_end(cs: &Vec<char>, p: usize) -> (r: Result<usize, usize>)
    requires
        p < cs@.len(),
        cs@[p as int] == '\'',
    ensures
        r matches Ok(e) ==> p + 3 <= e <= cs@.len() && cs@[e - 1] == '\'' && char_scan(cs@, p as int) == Ok::<int, int>(e as int),
        r matches Err(e) ==> p < e <= cs@.len() && char_scan(cs@, p as int) == Err::<int, int>(e as int),
{
    let n = cs.len();
    if p + 1 >= n {
        return Err(p + 1);
    }
    let c = cs[p + 1];
    if c == '\'' {
        Err(p + 1)
    } else if c == '\\' {
        if p + 2 >= n || cs[p + 2] == '\n' {
            Err(p + 2)
        } else if p + 3 >= n || cs[p + 3] != '\'' {
            Err(p + 3)
        } else {
            Ok(p + 4)
        }
    } else if p + 2 >= n || cs[p + 2] != '\'' {
        Err(p + 2)
    } else {
        Ok(p + 3)
    }
}

impl Lexer {
    /// Scans a word starting at `p`: a keyword, `_` or an identifier.
    fn lex_word(&self, p: usize) -> (r: (usize, Token))
        requires
            self.wf(),
            p < self.chars@.len(),
            is_letter(self.chars@[p as int]) || self.chars@[p as int] == '_',
        ensures
            p < r.0 <= self.chars@.len(),
            r.0 == lex_at(self.chars@, p as int).0,
            lex_at(self.chars@, p as int).1 is Word,
            lexed_token(LexKind::Word, self.chars@.subrange(p as int, r.0 as int), r.1),
    {
        let c = self.chars[p];
        let e = run_end(&self.chars, p + 1, CharClass::Word);
        let ghost w = self.chars@.subrange(p as int, e as int);
        assert(forall|i: int| 0 <= i < w.len() ==> w[i] == self.chars@[p + i]);
        if e == p + 1 && c == '_' {
            assert(w =~= seq!['_']);
            (e, Token::Underscore)
        } else {
            match keyword_in(&self.chars, p, e) {
                Some(k) => (e, k),
                None => {
                    assert(forall|i: int| 0 <= i < w.len() ==> in_class(#[trigger] w[i], CharClass::Word));
                    assert(is_ident_word(w));
                    let name = string_of(&self.chars, p, e);
                    (e, Token::Ident(name))
                },
            }
        }
    }

    /// Scans a numeric literal starting at the digit at `p`.
    fn lex_number(&self, p: usize) -> (r: (usize, Result<Token, LexicalError>))
        requires
            self.wf(),
            p < self.chars@.len(),
            is_digit(self.chars@[p as int]),
        ensures
            p < r.0 <= self.chars@.len(),
            r.0 == lex_at(self.chars@, p as int).0,
            lex_outcome(self.chars@, p as int, r.0 as int, lex_at(self.chars@, p as int).1, r.1),
    {
        let (e, is_float) = number_end(&self.chars, p);
        let span = self.span_of(p, e);
        if is_float {
            match scan_float(&self.chars, p, e) {
                Some(lit) => (e, Ok(Token::FloatLiteral(lit))),
                None => {
                    let mut reason = String::new();
                    reason.append("exponent out of range");
                    (e, Err(LexicalError::InvalidFloat { span, reason }))
                },
            }
        } else {
            match scan_integer(&self.chars, p, e, span) {
                Ok(lit) => (e, Ok(Token::IntegerLiteral(lit))),
                Err(err) => (e, Err(err)),
            }
        }
    }

    /// Scans a string literal starting at the quote at `p`.
    fn lex_string(&self, p: usize) -> (r: (usize, Result<Token, LexicalError>))
        requires
            self.wf(),
            p < self.chars@.len(),
            self.chars@[p as int] == '"',
        ensures
            p < r.0 <= self.chars@.len(),
            r.0 == lex_at(self.chars@, p as int).0,
            lex_outcome(self.chars@, p as int, r.0 as int, lex_at(self.chars@, p as int).1, r.1),
    {
        match string_end(&self.chars, p) {
            Ok(e) => {
                let v = unescape_range(&self.chars, p + 1, e - 1);
                let ghost w = self.chars@.subrange(p as int, e as int);
                assert(w.subrange(1, w.len() - 1) =~= self.chars@.subrange(p + 1, e - 1));
                (e, Ok(Token::StringLiteral(v)))
            },
            Err(e) => {
                let mut reason = String::new();
                reason.append("unterminated string literal");
                (e, Err(LexicalError::InvalidStringLiteral { span: self.span_of(p, e), reason }))
            },
        }
    }

    /// Scans a character literal starting at the quote at `p`.
    fn lex_char(&self, p: usize) -> (r: (usize, Result<Token, LexicalError>))
        requires
            self.wf(),
            p < self.chars@.len(),
            self.chars@[p as int] == '\'',
        ensures
            p < r.0 <= self.chars@.len(),
            r.0 == lex_at(self.chars@, p as int).0,
            lex_outcome(self.chars@, p as int, r.0 as int, lex_at(self.chars@, p as int).1, r.1),
    {
        match char_end(&self.chars, p) {
            Ok(e) => {
                let v = unescape_range(&self.chars, p + 1, e - 1);
                let ghost w = self.chars@.subrange(p as int, e as int);
                assert(w.subrange(1, w.len() - 1) =~= self.chars@.subrange(p + 1, e - 1));
                (e, Ok(Token::CharLiteral(v)))
            },
            Err(e) => {
                let mut reason = String::new();
                reason.append("malformed character literal");
                (e, Err(LexicalError::InvalidCharLiteral { span: self.span_of(p, e), reason }))
            },
        }
    }

    /// Scans an interpolated string `$"..."` starting at the `$` at `p`.
    fn lex_interpolated(&self, p: usize) -> (r: (usize, Result<Token, LexicalError>))
        requires
            self.wf(),
            p + 1 < self.chars@.len(),
            p < self.chars@.len(),
            self.chars@[p as int] == '$',
            self.chars@[p + 1] == '"',
        ensures
            p < r.0 <= self.chars@.len(),
            r.0 == lex_at(self.chars@, p as int).0,
            lex_outcome(self.chars@, p as int, r.0 as int, lex_at(self.chars@, p as int).1, r.1),
    {
        match string_end(&self.chars, p + 1) {
            Ok(e) => {
                let v = string_of(&self.chars, p + 2, e - 1);
                let ghost w = self.chars@.subrange(p as int, e as int);
                assert(w.subrange(2, w.len() - 1) =~= self.chars@.subrange(p + 2, e - 1));
                (e, Ok(Token::InterpolatedString(v)))
            },
            Err(e) => {
                let mut reason = String::new();
                reason.append("unterminated string literal");
                (e, Err(LexicalError::InvalidStringLiteral { span: self.span_of(p, e), reason }))
            },
        }
    }

    /// Scans an operator or punctuation token at `p`, or rejects the character there.
    fn lex_symbol(&self, p: usize) -> (r: (usize, Result<Token, LexicalError>))
        requires
            self.wf(),
            p < self.chars@.len(),
            self.chars@[p as int] != '\n',
            !is_letter(self.chars@[p as int]),
            self.chars@[p as int] != '_',
            !is_digit(self.chars@[p as int]),
            self.chars@[p as int] != '"',
            self.chars@[p as int] != '\'',
            !(self.chars@[p as int] == '$' && p + 1 < self.chars@.len() && self.chars@[p + 1] == '"'),
        ensures
            p < r.0 <= self.chars@.len(),
            r.0 == lex_at(self.chars@, p as int).0,
            lex_outcome(self.chars@, p as int, r.0 as int, lex_at(self.chars@, p as int).1, r.1),
    {
        match operator_at(&self.chars, p) {
            Some((t, len)) => {
                assert(operator_of(self.chars@.subrange(p as int, p + len)) == Some(t));
                (p + len, Ok(t))
            },
            None => {
                let c = self.chars[p];
                let span = self.span_of(p, p + 1);
                let v = c as u32;
                if (v < 0x20 || v == 0x7f) || v >= 0x80 {
                    (p + 1, Err(LexicalError::UnexpectedCharacter { span, character: c }))
                } else {
                    (p + 1, Err(LexicalError::UnrecognizedToken { span, text: string_of(&self.chars, p, p + 1) }))
                }
            },
        }
    }

    /// Scans the next token: skips spaces, tabs and comments, then takes
    /// the longest lexeme there ([`lex_span`]), which becomes the last span.
    /// `None` once only spaces, tabs and comments remain; an error covers
    /// the text it rejects, and scanning resumes after it.
    pub fn next_token(&mut self) -> (r: Option<Result<Token, LexicalError>>)
        requires
            old(self).wf(),
        ensures
            final(self).wf(),
            final(self).chars == old(self).chars,
            final(self).offsets == old(self).offsets,
            ({
                let (s, e, k) = lex_span(old(self).chars@, old(self).pos as int);
                &&& (r is None <==> k is End)
                &&& r is None ==> final(self).pos == final(self).chars@.len() && final(self).start == final(self).chars@.len()
                    && final(self).end == final(self).chars@.len()
                &&& r is Some ==> final(self).start == s && final(self).end == e && final(self).pos == e
                    && old(self).pos <= s < e
                &&& r matches Some(res) ==> lex_outcome(old(self).chars@, s, e, k, res)
            }),
    {
        let n = self.chars.len();
        let p = skip_trivia(&self.chars, self.pos);
        if p >= n {
            self.pos = n;
            self.start = n;
            self.end = n;
            return None;
        }
        let c = self.chars[p];
        let (end, result): (usize, Result<Token, LexicalError>) = if c == '\n' {
            assert(self.chars@.subrange(p as int, p + 1) =~= seq!['\n']);
            (p + 1, Ok(Token::Newline))
        } else if ('a' <= c && c <= 'z') || ('A' <= c && c <= 'Z') || c == '_' {
            let (e, t) = self.lex_word(p);
            (e, Ok(t))
        } else if '0' <= c && c <= '9' {
            self.lex_number(p)
        } else if c == '"' {
            self.lex_string(p)
        } else if c == '\'' {
            self.lex_char(p)
        } else if c == '$' && p + 1 < n && self.chars[p + 1] == '"' {
            self.lex_interpolated(p)
        } else {
            self.lex_symbol(p)
        };
        self.start = p;
        self.end = end;
        self.pos = end;
        Some(result)
    }
}

} // verus!
