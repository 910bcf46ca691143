//! Tokens of the language and the fixed spellings of keywords and operators.

use vstd::prelude::*;
use crate::float::FloatLiteral;
use crate::integer::IntegerLiteral;

verus! {

/// One token of the source text.
#[derive(Debug, Clone, PartialEq)]
pub enum Token {
    /// Start of a more deeply indented block (made by the layout transformer).
    Indent,
    /// End of an indented block (made by the layout transformer).
    Dedent,
    Newline,
    /// `fn`
    Fn,
    /// `let`
    Let,
    /// `mut`
    Mut,
    /// `const`
    Const,
    /// `type`
    Type,
    /// `struct`
    Struct,
    /// `enum`
    Enum,
    /// `union`
    Union,
    /// `interface`
    Interface,
    /// `ext`
    Ext,
    /// `impl`
    Impl,
    /// `true`
    True,
    /// `false`
    False,
    /// `ok`
    OkLiteral,
    /// `raw`
    Raw,
    /// `super`
    Super,
    /// `if`
    If,
    /// `else`
    Else,
    /// `for`
    For,
    /// `while`
    While,
    /// `break`
    Break,
    /// `continue`
    Continue,
    /// `match`
    Match,
    /// `return`
    Return,
    /// `mutable`
    Mutable,
    /// `Self`
    SelfKeyword,
    /// `in`
    In,
    /// `as`
    As,
    /// `u8`
    U8,
    /// `u16`
    U16,
    /// `u32`
    U32,
    /// `u64`
    U64,
    /// `usize`
    USize,
    /// `isize`
    ISize,
    /// `i8`
    I8,
    /// `i16`
    I16,
    /// `i32`
    I32,
    /// `i64`
    I64,
    /// `f32`
    F32,
    /// `f64`
    F64,
    /// `bool`
    Bool,
    /// `<<=`
    ShlEq,
    /// `>>=`
    ShrEq,
    /// `==`
    EqEq,
    /// `!=`
    Ne,
    /// `<=`
    Le,
    /// `>=`
    Ge,
    /// `&&`
    AndAnd,
    /// `||`
    OrOr,
    /// `<<`
    Shl,
    /// `>>`
    Shr,
    /// `+=`
    PlusEq,
    /// `-=`
    MinusEq,
    /// `*=`
    StarEq,
    /// `/=`
    SlashEq,
    /// `%=`
    PercentEq,
    /// `&=`
    AndEq,
    /// `|=`
    OrEq,
    /// `^=`
    CaretEq,
    /// `->`
    Arrow,
    /// `=>`
    FatArrow,
    /// `::`
    ColonColon,
    /// `+`
    Plus,
    /// `-`
    Minus,
    /// `*`
    Star,
    /// `/`
    Slash,
    /// `%`
    Percent,
    /// `<`
    Lt,
    /// `>`
    Gt,
    /// `!`
    Bang,
    /// `&`
    And,
    /// `|`
    Or,
    /// `^`
    Caret,
    /// `~`
    Tilde,
    /// `=`
    Eq,
    /// `(`
    LParen,
    /// `)`
    RParen,
    /// `{`
    LBrace,
    /// `}`
    RBrace,
    /// `[`
    LBracket,
    /// `]`
    RBracket,
    /// `:`
    Colon,
    /// `;`
    Semicolon,
    /// `,`
    Comma,
    /// `.`
    Dot,
    /// `@`
    At,
    /// `?`
    Question,
    /// The wildcard `_`.
    Underscore,
    Ident(String),
    FloatLiteral(FloatLiteral),
    IntegerLiteral(IntegerLiteral),
    /// A string literal, escapes resolved.
    StringLiteral(String),
    /// A character literal, escapes resolved.
    CharLiteral(String),
    /// An interpolated string `$"..."`: its body as written.
    InterpolatedString(String),
}

/// A token that carries no text or literal.
pub open spec fn is_unit(t: Token) -> bool {
    !(t is Ident || t is FloatLiteral || t is IntegerLiteral || t is StringLiteral || t is CharLiteral
        || t is InterpolatedString)
}

/// The keyword or primitive type name spelled `w`, if `w` is one.
pub open spec fn keyword_of(w: Seq<char>) -> Option<Token> {
    if w == seq!['f', 'n'] {
        Some(Token::Fn)
    } else if w == seq!['l', 'e', 't'] {
        Some(Token::Let)
    } else if w == seq!['m', 'u', 't'] {
        Some(Token::Mut)
    } else if w == seq!['c', 'o', 'n', 's', 't'] {
        Some(Token::Const)
    } else if w == seq!['t', 'y', 'p', 'e'] {
        Some(Token::Type)
    } else if w == seq!['s', 't', 'r', 'u', 'c', 't'] {
        Some(Token::Struct)
    } else if w == seq!['e', 'n', 'u', 'm'] {
        Some(Token::Enum)
    } else if w == seq!['u', 'n', 'i', 'o', 'n'] {
        Some(Token::Union)
    } else if w == seq!['i', 'n', 't', 'e', 'r', 'f', 'a', 'c', 'e'] {
        Some(Token::Interface)
    } else if w == seq!['e', 'x', 't'] {
        Some(Token::Ext)
    } else if w == seq!['i', 'm', 'p', 'l'] {
        Some(Token::Impl)
    } else if w == seq!['t', 'r', 'u', 'e'] {
        Some(Token::True)
    } else if w == seq!['f', 'a', 'l', 's', 'e'] {
        Some(Token::False)
    } else if w == seq!['o', 'k'] {
        Some(Token::OkLiteral)
    } else if w == seq!['r', 'a', 'w'] {
        Some(Token::Raw)
    } else if w == seq!['s', 'u', 'p', 'e', 'r'] {
        Some(Token::Super)
    } else if w == seq!['i', 'f'] {
        Some(Token::If)
    } else if w == seq!['e', 'l', 's', 'e'] {
        Some(Token::Else)
    } else if w == seq!['f', 'o', 'r'] {
        Some(Token::For)
    } else if w == seq!['w', 'h', 'i', 'l', 'e'] {
        Some(Token::While)
    } else if w == seq!['b', 'r', 'e', 'a', 'k'] {
        Some(Token::Break)
    } else if w == seq!['c', 'o', 'n', 't', 'i', 'n', 'u', 'e'] {
        Some(Token::Continue)
    } else if w == seq!['m', 'a', 't', 'c', 'h'] {
        Some(Token::Match)
    } else if w == seq!['r', 'e', 't', 'u', 'r', 'n'] {
        Some(Token::Return)
    } else if w == seq!['m', 'u', 't', 'a', 'b', 'l', 'e'] {
        Some(Token::Mutable)
    } else if w == seq!['S', 'e', 'l', 'f'] {
        Some(Token::SelfKeyword)
    } else if w == seq!['i', 'n'] {
        Some(Token::In)
    } else if w == seq!['a', 's'] {
        Some(Token::As)
    } else if w == seq!['u', '8'] {
        Some(Token::U8)
    } else if w == seq!['u', '1', '6'] {
        Some(Token::U16)
    } else if w == seq!['u', '3', '2'] {
        Some(Token::U32)
    } else if w == seq!['u', '6', '4'] {
        Some(Token::U64)
    } else if w == seq!['u', 's', 'i', 'z', 'e'] {
        Some(Token::USize)
    } else if w == seq!['i', 's', 'i', 'z', 'e'] {
        Some(Token::ISize)
    } else if w == seq!['i', '8'] {
        Some(Token::I8)
    } else if w == seq!['i', '1', '6'] {
        Some(Token::I16)
    } else if w == seq!['i', '3', '2'] {
        Some(Token::I32)
    } else if w == seq!['i', '6', '4'] {
        Some(Token::I64)
    } else if w == seq!['f', '3', '2'] {
        Some(Token::F32)
    } else if w == seq!['f', '6', '4'] {
        Some(Token::F64)
    } else if w == seq!['b', 'o', 'o', 'l'] {
        Some(Token::Bool)
    } else {
        None
    }
}

/// The one-character operator or punctuation token `c`.
pub open spec fn operator1(c: char) -> Option<Token> {
    match c {
        '+' => Some(Token::Plus),
        '-' => Some(Token::Minus),
        '*' => Some(Token::Star),
        '/' => Some(Token::Slash),
        '%' => Some(Token::Percent),
        '<' => Some(Token::Lt),
        '>' => Some(Token::Gt),
        '!' => Some(Token::Bang),
        '&' => Some(Token::And),
        '|' => Some(Token::Or),
        '^' => Some(Token::Caret),
        '~' => Some(Token::Tilde),
        '=' => Some(Token::Eq),
        '(' => Some(Token::LParen),
        ')' => Some(Token::RParen),
        '{' => Some(Token::LBrace),
        '}' => Some(Token::RBrace),
        '[' => Some(Token::LBracket),
        ']' => Some(Token::RBracket),
        ':' => Some(Token::Colon),
        ';' => Some(Token::Semicolon),
        ',' => Some(Token::Comma),
        '.' => Some(Token::Dot),
        '@' => Some(Token::At),
        '?' => Some(Token::Question),
        _ => None,
    }
}

/// The two-character operator spelled `a b`.
pub open spec fn operator2(a: char, b: char) -> Option<Token> {
    match (a, b) {
        ('=', '=') => Some(Token::EqEq),
        ('!', '=') => Some(Token::Ne),
        ('<', '=') => Some(Token::Le),
        ('>', '=') => Some(Token::Ge),
        ('&', '&') => Some(Token::AndAnd),
        ('|', '|') => Some(Token::OrOr),
        ('<', '<') => Some(Token::Shl),
        ('>', '>') => Some(Token::Shr),
        ('+', '=') => Some(Token::PlusEq),
        ('-', '=') => Some(Token::MinusEq),
        ('*', '=') => Some(Token::StarEq),
        ('/', '=') => Some(Token::SlashEq),
        ('%', '=') => Some(Token::PercentEq),
        ('&', '=') => Some(Token::AndEq),
        ('|', '=') => Some(Token::OrEq),
        ('^', '=') => Some(Token::CaretEq),
        ('-', '>') => Some(Token::Arrow),
        ('=', '>') => Some(Token::FatArrow),
        (':', ':') => Some(Token::ColonColon),
        _ => None,
    }
}

/// The three-character operator spelled `a b c`.
pub open spec fn operator3(a: char, b: char, c: char) -> Option<Token> {
    match (a, b, c) {
        ('<', '<', '=') => Some(Token::ShlEq),
        ('>', '>', '=') => Some(Token::ShrEq),
        _ => None,
    }
}

/// The operator or punctuation token spelled `w`, if `w` is one.
pub open spec fn operator_of(w: Seq<char>) -> Option<Token> {
    if w.len() == 1 {
        operator1(w[0])
    } else if w.len() == 2 {
        operator2(w[0], w[1])
    } else if w.len() == 3 {
        operator3(w[0], w[1], w[2])
    } else {
        None
    }
}

fn operator1_exec(c: char) -> (r: Option<Token>)
    ensures
        r == operator1(c),
{
    match c {
        '+' => Some(Token::Plus),
        '-' => Some(Token::Minus),
        '*' => Some(Token::Star),
        '/' => Some(Token::Slash),
        '%' => Some(Token::Percent),
        '<' => Some(Token::Lt),
        '>' => Some(Token::Gt),
        '!' => Some(Token::Bang),
        '&' => Some(Token::And),
        '|' => Some(Token::Or),
        '^' => Some(Token::Caret),
        '~' => Some(Token::Tilde),
        '=' => Some(Token::Eq),
        '(' => Some(Token::LParen),
        ')' => Some(Token::RParen),
        '{' => Some(Token::LBrace),
        '}' => Some(Token::RBrace),
        '[' => Some(Token::LBracket),
        ']' => Some(Token::RBracket),
        ':' => Some(Token::Colon),
        ';' => Some(Token::Semicolon),
        ',' => Some(Token::Comma),
        '.' => Some(Token::Dot),
        '@' => Some(Token::At),
        '?' => Some(Token::Question),
        _ => None,
    }
}

fn operator2_exec(a: char, b: char) -> (r: Option<Token>)
    ensures
        r == operator2(a, b),
{
    match (a, b) {
        ('=', '=') => Some(Token::EqEq),
        ('!', '=') => Some(Token::Ne),
        ('<', '=') => Some(Token::Le),
        ('>', '=') => Some(Token::Ge),
        ('&', '&') => Some(Token::AndAnd),
        ('|', '|') => Some(Token::OrOr),
        ('<', '<') => Some(Token::Shl),
        ('>', '>') => Some(Token::Shr),
        ('+', '=') => Some(Token::PlusEq),
        ('-', '=') => Some(Token::MinusEq),
        ('*', '=') => Some(Token::StarEq),
        ('/', '=') => Some(Token::SlashEq),
        ('%', '=') => Some(Token::PercentEq),
        ('&', '=') => Some(Token::AndEq),
        ('|', '=') => Some(Token::OrEq),
        ('^', '=') => Some(Token::CaretEq),
        ('-', '>') => Some(Token::Arrow),
        ('=', '>') => Some(Token::FatArrow),
        (':', ':') => Some(Token::ColonColon),
        _ => None,
    }
}

fn operator3_exec(a: char, b: char, c: char) -> (r: Option<Token>)
    ensures
        r == operator3(a, b, c),
{
    match (a, b, c) {
        ('<', '<', '=') => Some(Token::ShlEq),
        ('>', '>', '=') => Some(Token::ShrEq),
        _ => None,
    }
}

fn same_chars(cs: &Vec<char>, from: usize, to: usize, p: &Vec<char>) -> (r: bool)
    requires
        from <= to <= cs@.len(),
    ensures
        r == (cs@.subrange(from as int, to as int) == p@),
{
    if to - from != p.len() {
        return false;
    }
    let mut i: usize = 0;
    while i < p.len()
        invariant
            from + p@.len() == to,
            to <= cs@.len(),
            i <= p@.len(),
            forall|k: int| 0 <= k < i ==> cs@[from + k] == p@[k],
        decreases p@.len() - i,
    {
        if cs[from + i] != p[i] {
            assert(cs@.subrange(from as int, to as int)[i as int] != p@[i as int]);
            return false;
        }
        i = i + 1;
    }
    assert(cs@.subrange(from as int, to as int) =~= p@);
    true
}

/// The keyword spelled by `cs[from..to]`.
pub(crate) fn keyword_in(cs: &Vec<char>, from: usize, to: usize) -> (r: Option<Token>)
    requires
        from <= to <= cs@.len(),
    ensures
        r == keyword_of(cs@.subrange(from as int, to as int)),
{
    if same_chars(cs, from, to, &vec!['f', 'n']) {
        Some(Token::Fn)
    } else if same_chars(cs, from, to, &vec!['l', 'e', 't']) {
        Some(Token::Let)
    } else if same_chars(cs, from, to, &vec!['m', 'u', 't']) {
        Some(Token::Mut)
    } else if same_chars(cs, from, to, &vec!['c', 'o', 'n', 's', 't']) {
        Some(Token::Const)
    } else if same_chars(cs, from, to, &vec!['t', 'y', 'p', 'e']) {
        Some(Token::Type)
    } else if same_chars(cs, from, to, &vec!['s', 't', 'r', 'u', 'c', 't']) {
        Some(Token::Struct)
    } else if same_chars(cs, from, to, &vec!['e', 'n', 'u', 'm']) {
        Some(Token::Enum)
    } else if same_chars(cs, from, to, &vec!['u', 'n', 'i', 'o', 'n']) {
        Some(Token::Union)
    } else if same_chars(cs, from, to, &vec!['i', 'n', 't', 'e', 'r', 'f', 'a', 'c', 'e']) {
        Some(Token::Interface)
    } else if same_chars(cs, from, to, &vec!['e', 'x', 't']) {
        Some(Token::Ext)
    } else if same_chars(cs, from, to, &vec!['i', 'm', 'p', 'l']) {
        Some(Token::Impl)
    } else if same_chars(cs, from, to, &vec!['t', 'r', 'u', 'e']) {
        Some(Token::True)
    } else if same_chars(cs, from, to, &vec!['f', 'a', 'l', 's', 'e']) {
        Some(Token::False)
    } else if same_chars(cs, from, to, &vec!['o', 'k']) {
        Some(Token::OkLiteral)
    } else if same_chars(cs, from, to, &vec!['r', 'a', 'w']) {
        Some(Token::Raw)
    } else if same_chars(cs, from, to, &vec!['s', 'u', 'p', 'e', 'r']) {
        Some(Token::Super)
    } else if same_chars(cs, from, to, &vec!['i', 'f']) {
        Some(Token::If)
    } else if same_chars(cs, from, to, &vec!['e', 'l', 's', 'e']) {
        Some(Token::Else)
    } else if same_chars(cs, from, to, &vec!['f', 'o', 'r']) {
        Some(Token::For)
    } else if same_chars(cs, from, to, &vec!['w', 'h', 'i', 'l', 'e']) {
        Some(Token::While)
    } else if same_chars(cs, from, to, &vec!['b', 'r', 'e', 'a', 'k']) {
        Some(Token::Break)
    } else if same_chars(cs, from, to, &vec!['c', 'o', 'n', 't', 'i', 'n', 'u', 'e']) {
        Some(Token::Continue)
    } else if same_chars(cs, from, to, &vec!['m', 'a', 't', 'c', 'h']) {
        Some(Token::Match)
    } else if same_chars(cs, from, to, &vec!['r', 'e', 't', 'u', 'r', 'n']) {
        Some(Token::Return)
    } else if same_chars(cs, from, to, &vec!['m', 'u', 't', 'a', 'b', 'l', 'e']) {
        Some(Token::Mutable)
    } else if same_chars(cs, from, to, &vec!['S', 'e', 'l', 'f']) {
        Some(Token::SelfKeyword)
    } else if same_chars(cs, from, to, &vec!['i', 'n']) {
        Some(Token::In)
    } else if same_chars(cs, from, to, &vec!['a', 's']) {
        Some(Token::As)
    } else if same_chars(cs, from, to, &vec!['u', '8']) {
        Some(Token::U8)
    } else if same_chars(cs, from, to, &vec!['u', '1', '6']) {
        Some(Token::U16)
    } else if same_chars(cs, from, to, &vec!['u', '3', '2']) {
        Some(Token::U32)
    } else if same_chars(cs, from, to, &vec!['u', '6', '4']) {
        Some(Token::U64)
    } else if same_chars(cs, from, to, &vec!['u', 's', 'i', 'z', 'e']) {
        Some(Token::USize)
    } else if same_chars(cs, from, to, &vec!['i', 's', 'i', 'z', 'e']) {
        Some(Token::ISize)
    } else if same_chars(cs, from, to, &vec!['i', '8']) {
        Some(Token::I8)
    } else if same_chars(cs, from, to, &vec!['i', '1', '6']) {
        Some(Token::I16)
    } else if same_chars(cs, from, to, &vec!['i', '3', '2']) {
        Some(Token::I32)
    } else if same_chars(cs, from, to, &vec!['i', '6', '4']) {
        Some(Token::I64)
    } else if same_chars(cs, from, to, &vec!['f', '3', '2']) {
        Some(Token::F32)
    } else if same_chars(cs, from, to, &vec!['f', '6', '4']) {
        Some(Token::F64)
    } else if same_chars(cs, from, to, &vec!['b', 'o', 'o', 'l']) {
        Some(Token::Bool)
    } else {
        None
    }
}

/// The longest operator or punctuation token that `cs[at..]` begins with,
/// and its length.
pub(crate) fn operator_at(cs: &Vec<char>, at: usize) -> (r: Option<(Token, usize)>)
    requires
        at <= cs@.len(),
    ensures
        r matches Some((t, n)) ==> 1 <= n <= 3 && at + n <= cs@.len()
            && operator_of(cs@.subrange(at as int, at + n)) == Some(t)
            && forall|m: int| n < m <= 3 && at + m <= cs@.len()
                ==> operator_of(#[trigger] cs@.subrange(at as int, at + m)) is None,
        r is None ==> forall|m: int| 1 <= m <= 3 && at + m <= cs@.len()
            ==> operator_of(#[trigger] cs@.subrange(at as int, at + m)) is None,
{
    let rest = cs.len() - at;
    let ghost w3 = cs@.subrange(at as int, at + 3);
    let ghost w2 = cs@.subrange(at as int, at + 2);
    let ghost w1 = cs@.subrange(at as int, at + 1);
    let mut o3: Option<Token> = None;
    if rest >= 3 {
        o3 = operator3_exec(cs[at], cs[at + 1], cs[at + 2]);
        assert(w3.len() == 3 && w3[0] == cs@[at as int] && w3[1] == cs@[at + 1] && w3[2] == cs@[at + 2]);
    }
    if let Some(t) = o3 {
        return Some((t, 3));
    }
    let mut o2: Option<Token> = None;
    if rest >= 2 {
        o2 = operator2_exec(cs[at], cs[at + 1]);
        assert(w2.len() == 2 && w2[0] == cs@[at as int] && w2[1] == cs@[at + 1]);
    }
    if let Some(t) = o2 {
        return Some((t, 2));
    }
    let mut o1: Option<Token> = None;
    if rest >= 1 {
        o1 = operator1_exec(cs[at]);
        assert(w1.len() == 1 && w1[0] == cs@[at as int]);
    }
    if let Some(t) = o1 {
        return Some((t, 1));
    }
    None
}

impl Token {
    /// An equal, independent copy.
    pub fn copy(&self) -> (r: Token)
        ensures
            r == *self,
    {
        match self {
            Token::Indent => Token::Indent,
            Token::Dedent => Token::Dedent,
            Token::Newline => Token::Newline,
            Token::Fn => Token::Fn,
            Token::Let => Token::Let,
            Token::Mut => Token::Mut,
            Token::Const => Token::Const,
            Token::Type => Token::Type,
            Token::Struct => Token::Struct,
            Token::Enum => Token::Enum,
            Token::Union => Token::Union,
            Token::Interface => Token::Interface,
            Token::Ext => Token::Ext,
            Token::Impl => Token::Impl,
            Token::True => Token::True,
            Token::False => Token::False,
            Token::OkLiteral => Token::OkLiteral,
            Token::Raw => Token::Raw,
            Token::Super => Token::Super,
            Token::If => Token::If,
            Token::Else => Token::Else,
            Token::For => Token::For,
            Token::While => Token::While,
            Token::Break => Token::Break,
            Token::Continue => Token::Continue,
            Token::Match => Token::Match,
            Token::Return => Token::Return,
            Token::Mutable => Token::Mutable,
            Token::SelfKeyword => Token::SelfKeyword,
            Token::In => Token::In,
            Token::As => Token::As,
            Token::U8 => Token::U8,
            Token::U16 => Token::U16,
            Token::U32 => Token::U32,
            Token::U64 => Token::U64,
            Token::USize => Token::USize,
            Token::ISize => Token::ISize,
            Token::I8 => Token::I8,
            Token::I16 => Token::I16,
            Token::I32 => Token::I32,
            Token::I64 => Token::I64,
            Token::F32 => Token::F32,
            Token::F64 => Token::F64,
            Token::Bool => Token::Bool,
            Token::ShlEq => Token::ShlEq,
            Token::ShrEq => Token::ShrEq,
            Token::EqEq => Token::EqEq,
            Token::Ne => Token::Ne,
            Token::Le => Token::Le,
            Token::Ge => Token::Ge,
            Token::AndAnd => Token::AndAnd,
            Token::OrOr => Token::OrOr,
            Token::Shl => Token::Shl,
            Token::Shr => Token::Shr,
            Token::PlusEq => Token::PlusEq,
            Token::MinusEq => Token::MinusEq,
            Token::StarEq => Token::StarEq,
            Token::SlashEq => Token::SlashEq,
            Token::PercentEq => Token::PercentEq,
            Token::AndEq => Token::AndEq,
            Token::OrEq => Token::OrEq,
            Token::CaretEq => Token::CaretEq,
            Token::Arrow => Token::Arrow,
            Token::FatArrow => Token::FatArrow,
            Token::ColonColon => Token::ColonColon,
            Token::Plus => Token::Plus,
            Token::Minus => Token::Minus,
            Token::Star => Token::Star,
            Token::Slash => Token::Slash,
            Token::Percent => Token::Percent,
            Token::Lt => Token::Lt,
            Token::Gt => Token::Gt,
            Token::Bang => Token::Bang,
            Token::And => Token::And,
            Token::Or => Token::Or,
            Token::Caret => Token::Caret,
            Token::Tilde => Token::Tilde,
            Token::Eq => Token::Eq,
            Token::LParen => Token::LParen,
            Token::RParen => Token::RParen,
            Token::LBrace => Token::LBrace,
            Token::RBrace => Token::RBrace,
            Token::LBracket => Token::LBracket,
            Token::RBracket => Token::RBracket,
            Token::Colon => Token::Colon,
            Token::Semicolon => Token::Semicolon,
            Token::Comma => Token::Comma,
            Token::Dot => Token::Dot,
            Token::At => Token::At,
            Token::Question => Token::Question,
            Token::Underscore => Token::Underscore,
            Token::Ident(s) => Token::Ident(s.clone()),
            Token::FloatLiteral(l) => Token::FloatLiteral(l.copy()),
            Token::IntegerLiteral(l) => Token::IntegerLiteral(l.copy()),
            Token::StringLiteral(s) => Token::StringLiteral(s.clone()),
            Token::CharLiteral(s) => Token::CharLiteral(s.clone()),
            Token::InterpolatedString(s) => Token::InterpolatedString(s.clone()),
        }
    }
}

impl Token {
    /// Whether `self` and `other` are the same token without payload.
    pub fn same_unit(&self, other: &Token) -> (r: bool)
        ensures
            r ==> *self == *other,
            is_unit(*other) ==> (r == (*self == *other)),
    {
        match (self, other) {
            (Token::Indent, Token::Indent) => true,
            (Token::Dedent, Token::Dedent) => true,
            (Token::Newline, Token::Newline) => true,
            (Token::Fn, Token::Fn) => true,
            (Token::Let, Token::Let) => true,
            (Token::Mut, Token::Mut) => true,
            (Token::Const, Token::Const) => true,
            (Token::Type, Token::Type) => true,
            (Token::Struct, Token::Struct) => true,
            (Token::Enum, Token::Enum) => true,
            (Token::Union, Token::Union) => true,
            (Token::Interface, Token::Interface) => true,
            (Token::Ext, Token::Ext) => true,
            (Token::Impl, Token::Impl) => true,
            (Token::True, Token::True) => true,
            (Token::False, Token::False) => true,
            (Token::OkLiteral, Token::OkLiteral) => true,
            (Token::Raw, Token::Raw) => true,
            (Token::Super, Token::Super) => true,
            (Token::If, Token::If) => true,
            (Token::Else, Token::Else) => true,
            (Token::For, Token::For) => true,
            (Token::While, Token::While) => true,
            (Token::Break, Token::Break) => true,
            (Token::Continue, Token::Continue) => true,
            (Token::Match, Token::Match) => true,
            (Token::Return, Token::Return) => true,
            (Token::Mutable, Token::Mutable) => true,
            (Token::SelfKeyword, Token::SelfKeyword) => true,
            (Token::In, Token::In) => true,
            (Token::As, Token::As) => true,
            (Token::U8, Token::U8) => true,
            (Token::U16, Token::U16) => true,
            (Token::U32, Token::U32) => true,
            (Token::U64, Token::U64) => true,
            (Token::USize, Token::USize) => true,
            (Token::ISize, Token::ISize) => true,
            (Token::I8, Token::I8) => true,
            (Token::I16, Token::I16) => true,
            (Token::I32, Token::I32) => true,
            (Token::I64, Token::I64) => true,
            (Token::F32, Token::F32) => true,
            (Token::F64, Token::F64) => true,
            (Token::Bool, Token::Bool) => true,
            (Token::ShlEq, Token::ShlEq) => true,
            (Token::ShrEq, Token::ShrEq) => true,
            (Token::EqEq, Token::EqEq) => true,
            (Token::Ne, Token::Ne) => true,
            (Token::Le, Token::Le) => true,
            (Token::Ge, Token::Ge) => true,
            (Token::AndAnd, Token::AndAnd) => true,
            (Token::OrOr, Token::OrOr) => true,
            (Token::Shl, Token::Shl) => true,
            (Token::Shr, Token::Shr) => true,
            (Token::PlusEq, Token::PlusEq) => true,
            (Token::MinusEq, Token::MinusEq) => true,
            (Token::StarEq, Token::StarEq) => true,
            (Token::SlashEq, Token::SlashEq) => true,
            (Token::PercentEq, Token::PercentEq) => true,
            (Token::AndEq, Token::AndEq) => true,
            (Token::OrEq, Token::OrEq) => true,
            (Token::CaretEq, Token::CaretEq) => true,
            (Token::Arrow, Token::Arrow) => true,
            (Token::FatArrow, Token::FatArrow) => true,
            (Token::ColonColon, Token::ColonColon) => true,
            (Token::Plus, Token::Plus) => true,
            (Token::Minus, Token::Minus) => true,
            (Token::Star, Token::Star) => true,
            (Token::Slash, Token::Slash) => true,
            (Token::Percent, Token::Percent) => true,
            (Token::Lt, Token::Lt) => true,
            (Token::Gt, Token::Gt) => true,
            (Token::Bang, Token::Bang) => true,
            (Token::And, Token::And) => true,
            (Token::Or, Token::Or) => true,
            (Token::Caret, Token::Caret) => true,
            (Token::Tilde, Token::Tilde) => true,
            (Token::Eq, Token::Eq) => true,
            (Token::LParen, Token::LParen) => true,
            (Token::RParen, Token::RParen) => true,
            (Token::LBrace, Token::LBrace) => true,
            (Token::RBrace, Token::RBrace) => true,
            (Token::LBracket, Token::LBracket) => true,
            (Token::RBracket, Token::RBracket) => true,
            (Token::Colon, Token::Colon) => true,
            (Token::Semicolon, Token::Semicolon) => true,
            (Token::Comma, Token::Comma) => true,
            (Token::Dot, Token::Dot) => true,
            (Token::At, Token::At) => true,
            (Token::Question, Token::Question) => true,
            (Token::Underscore, Token::Underscore) => true,
            _ => false,
        }
    }
}

} // verus!
