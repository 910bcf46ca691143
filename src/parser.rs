//! The parser: recursive descent with precedence climbing over the
//! layout-aware token stream. Parsing stops at the first token that fits no
//! production; there is no recovery.
//!
//! Expressions, loosest to tightest: `||`, `&&`, `|`, `^`, `&`, `== !=`,
//! `< > <= >=`, `<< >>`, `+ -`, `* / %`, then prefix `! ~ - + & *`, then
//! postfix call, index, field access, type access (`::`) and `as` cast,
//! then primaries. Binary operators associate to the left.
//!
//! For types and expressions the contracts are exact: each parse succeeds
//! exactly when its recognizer (`type_end`, `expr_end`, ...) finds an end,
//! stops there, and returns the tree whose tokens are the ones consumed and
//! which obeys the precedence table (`prec_ok`, `type_ok`).
//!
//! Types: `?*mut T` and `*T` nest to the right, `[T]` and `[T; N]` take any
//! expression as size, and `T ! E` binds loosest with a bare path `E` on the
//! right, so `*T ! E` is `(*T) ! E` and `x as T ! E` is `x as (T ! E)`.

use vstd::prelude::*;
use crate::ast::{
    merge_all, merge_where_clause, params_view, parse_interp_parts, ArrayLiteralExpr, AssignStatement, ConstPathSegment,
    ConstStatement, BinaryOpExpr, BinaryOperator, Block, CallExpr, CastExpr,
    ElifClause, Enum, EnumVariant, Expression, FieldAccessExpr, ForStatement, Function,
    FunctionParameter, FunctionSignature, GenericParameter, IfStatement, IndexExpr, Interface, InterpolatedStringExpr, TypeAccessExpr,
    LetStatement, Namespace, NamespaceItem, Path, SelfParameter, SourceFile, Statement, Struct,
    StructField, Type, TypeAlias, UnaryOpExpr, UnaryOperator, Union, UnionVariant, WhileStatement,
};
use crate::error::{LexicalError, Span};
use crate::integer::IntegerLiteral;
use crate::layout::{first_lex_error, spanned_stream_of, stream_of};
use crate::token::{is_unit, Token};

verus! {

/// Why parsing stopped.
#[derive(Debug, PartialEq)]
pub enum ParseError {
    /// A token that fits no production where it stands.
    UnexpectedToken { token: Token, index: usize, span: Span },
    /// The input ended where more was expected.
    UnexpectedEof,
    /// The lexer rejected the input.
    Lexical(LexicalError),
}

/// The binding strength of a binary operator: 1 for `||` up to 10 for `* / %`.
pub open spec fn binop_prec(op: BinaryOperator) -> int {
    match op {
        BinaryOperator::LogicalOr => 1,
        BinaryOperator::LogicalAnd => 2,
        BinaryOperator::BitwiseOr => 3,
        BinaryOperator::BitwiseXor => 4,
        BinaryOperator::BitwiseAnd => 5,
        BinaryOperator::Equal => 6,
        BinaryOperator::NotEqual => 6,
        BinaryOperator::LessThan => 7,
        BinaryOperator::GreaterThan => 7,
        BinaryOperator::LessThanOrEqual => 7,
        BinaryOperator::GreaterThanOrEqual => 7,
        BinaryOperator::ShiftLeft => 8,
        BinaryOperator::ShiftRight => 8,
        BinaryOperator::Add => 9,
        BinaryOperator::Subtract => 9,
        BinaryOperator::Multiply => 10,
        BinaryOperator::Divide => 10,
        BinaryOperator::Modulo => 10,
    }
}

/// How tightly the root of `e` binds: its operator's strength for a binary
/// operation, 11 for a prefix operation, 12 for anything else.
pub open spec fn expr_prec(e: Expression) -> int {
    match e {
        Expression::BinaryOp(b) => binop_prec(b.op),
        Expression::UnaryOp(_) => 11,
        _ => 12,
    }
}

/// The tree agrees with the precedence table: a binary operation's left
/// operand binds at least as tightly as it does and its right operand
/// strictly more tightly (left associativity), a prefix operand is no binary
/// operation, and postfix operations apply to postfix or primary forms only.
/// Parentheses start afresh.
pub open spec fn prec_ok(e: Expression) -> bool
    decreases e,
{
    match e {
        Expression::BinaryOp(b) => expr_prec(*b.lhs) >= binop_prec(b.op) && expr_prec(*b.rhs)
            > binop_prec(b.op) && prec_ok(*b.lhs) && prec_ok(*b.rhs),
        Expression::UnaryOp(u) => expr_prec(*u.operand) >= 11 && prec_ok(*u.operand),
        Expression::Cast(c) => expr_prec(*c.expr) == 12 && prec_ok(*c.expr),
        Expression::Call(c) => expr_prec(*c.callee) == 12 && prec_ok(*c.callee),
        Expression::Index(i) => expr_prec(*i.object) == 12 && prec_ok(*i.object),
        Expression::FieldAccess(f) => expr_prec(*f.object) == 12 && prec_ok(*f.object),
        Expression::TypeAccess(f) => expr_prec(*f.object) == 12 && prec_ok(*f.object),
        Expression::Parenthesized(x) => prec_ok(*x),
        _ => true,
    }
}

/// The type agrees with the type grammar: `!` binds loosest, so neither a
/// pointer's element nor an error union's success type is itself an error
/// union (outside brackets).
pub open spec fn type_ok(t: Type) -> bool
    decreases t,
{
    match t {
        Type::Pointer { element_type: element, .. } => !(*element is ErrorUnion) && type_ok(*element),
        Type::ErrorUnion { ok_type: ok, .. } => !(*ok is ErrorUnion) && type_ok(*ok),
        Type::Array { element_type: element, .. } => type_ok(*element),
        _ => true,
    }
}

/// The identifiers `segs` joined by `::`.
pub open spec fn render_segments(segs: Seq<String>) -> Seq<Token>
    decreases segs.len(),
{
    if segs.len() == 0 {
        Seq::empty()
    } else if segs.len() == 1 {
        seq![Token::Ident(segs[0])]
    } else {
        render_segments(segs.drop_last()) + seq![Token::ColonColon, Token::Ident(segs.last())]
    }
}

/// The token that spells a binary operator.
pub open spec fn binop_token(op: BinaryOperator) -> Token {
    match op {
        BinaryOperator::Add => Token::Plus,
        BinaryOperator::Subtract => Token::Minus,
        BinaryOperator::Multiply => Token::Star,
        BinaryOperator::Divide => Token::Slash,
        BinaryOperator::Modulo => Token::Percent,
        BinaryOperator::Equal => Token::EqEq,
        BinaryOperator::NotEqual => Token::Ne,
        BinaryOperator::LessThan => Token::Lt,
        BinaryOperator::GreaterThan => Token::Gt,
        BinaryOperator::LessThanOrEqual => Token::Le,
        BinaryOperator::GreaterThanOrEqual => Token::Ge,
        BinaryOperator::LogicalAnd => Token::AndAnd,
        BinaryOperator::LogicalOr => Token::OrOr,
        BinaryOperator::BitwiseAnd => Token::And,
        BinaryOperator::BitwiseOr => Token::Or,
        BinaryOperator::BitwiseXor => Token::Caret,
        BinaryOperator::ShiftLeft => Token::Shl,
        BinaryOperator::ShiftRight => Token::Shr,
    }
}

/// The token that spells a prefix operator.
pub open spec fn unop_token(op: UnaryOperator) -> Token {
    match op {
        UnaryOperator::LogicalNot => Token::Bang,
        UnaryOperator::BitwiseNot => Token::Tilde,
        UnaryOperator::Negate => Token::Minus,
        UnaryOperator::Plus => Token::Plus,
        UnaryOperator::AddressOf => Token::And,
        UnaryOperator::Dereference => Token::Star,
    }
}

/// The tokens that spell a path: its segments, then its generic arguments
/// in brackets when there are any.
pub open spec fn render_path(p: Path) -> Seq<Token>
    decreases p,
{
    render_segments(p.segments@) + if p.generic_args@.len() > 0 {
        seq![Token::LBracket] + render_types(p.generic_args@) + seq![Token::RBracket]
    } else {
        Seq::empty()
    }
}

/// The tokens that spell a comma-separated list of types.
pub open spec fn render_types(ts: Seq<Type>) -> Seq<Token>
    decreases ts,
{
    if ts.len() == 0 {
        Seq::empty()
    } else if ts.len() == 1 {
        render_type(ts[0])
    } else {
        render_types(ts.drop_last()) + seq![Token::Comma] + render_type(ts.last())
    }
}

/// The tokens that spell a type.
pub open spec fn render_type(t: Type) -> Seq<Token>
    decreases t,
{
    match t {
        Type::U8 => seq![Token::U8],
        Type::U16 => seq![Token::U16],
        Type::U32 => seq![Token::U32],
        Type::U64 => seq![Token::U64],
        Type::USize => seq![Token::USize],
        Type::I8 => seq![Token::I8],
        Type::I16 => seq![Token::I16],
        Type::I32 => seq![Token::I32],
        Type::I64 => seq![Token::I64],
        Type::ISize => seq![Token::ISize],
        Type::F32 => seq![Token::F32],
        Type::F64 => seq![Token::F64],
        Type::Bool => seq![Token::Bool],
        Type::OkType => seq![Token::OkLiteral],
        Type::SelfType => seq![Token::SelfKeyword],
        Type::Pointer { nullable, mutable, element_type: element } => (if nullable {
            seq![Token::Question]
        } else {
            Seq::empty()
        }) + seq![Token::Star] + (if mutable {
            seq![Token::Mut]
        } else {
            Seq::empty()
        }) + render_type(*element),
        Type::Path(p) => render_path(p),
        Type::Array { element_type: element, size } => seq![Token::LBracket] + render_type(*element) + match size {
            Some(e) => seq![Token::Semicolon] + render_expr(*e),
            None => Seq::empty(),
        } + seq![Token::RBracket],
        Type::ErrorUnion { ok_type: ok, err_type: err } => render_type(*ok) + seq![Token::Bang] + render_path(err),
    }
}

/// The tokens that spell a comma-separated list of expressions.
pub open spec fn render_exprs(es: Seq<Expression>) -> Seq<Token>
    decreases es,
{
    if es.len() == 0 {
        Seq::empty()
    } else if es.len() == 1 {
        render_expr(es[0])
    } else {
        render_exprs(es.drop_last()) + seq![Token::Comma] + render_expr(es.last())
    }
}

/// The tokens that spell an expression, with no parentheses beyond those
/// the tree records.
pub open spec fn render_expr(e: Expression) -> Seq<Token>
    decreases e,
{
    match e {
        Expression::IntegerLiteral(l) => seq![Token::IntegerLiteral(l)],
        Expression::FloatLiteral(l) => seq![Token::FloatLiteral(l)],
        Expression::BooleanLiteral(b) => if b {
            seq![Token::True]
        } else {
            seq![Token::False]
        },
        Expression::CharLiteral(s) => seq![Token::CharLiteral(s)],
        Expression::StringLiteral(s) => seq![Token::StringLiteral(s)],
        Expression::OkLiteral => seq![Token::OkLiteral],
        Expression::Path(p) => render_path(p),
        Expression::ArrayLiteral(a) => seq![Token::LBracket] + render_exprs(a.elements@) + seq![Token::RBracket],
        Expression::InterpolatedString(s) => seq![Token::InterpolatedString(s.raw)],
        Expression::BinaryOp(b) => render_expr(*b.lhs) + seq![binop_token(b.op)] + render_expr(*b.rhs),
        Expression::UnaryOp(u) => seq![unop_token(u.op)] + render_expr(*u.operand),
        Expression::FieldAccess(f) => render_expr(*f.object) + seq![Token::Dot, Token::Ident(f.field)],
        Expression::TypeAccess(f) => render_expr(*f.object) + seq![Token::ColonColon, Token::Ident(f.member)],
        Expression::Call(c) => render_expr(*c.callee) + seq![Token::LParen] + render_exprs(c.args@) + seq![Token::RParen],
        Expression::Index(i) => render_expr(*i.object) + seq![Token::LBracket] + render_expr(*i.index) + seq![Token::RBracket],
        Expression::Cast(c) => render_expr(*c.expr) + seq![Token::As] + render_type(*c.target_type),
        Expression::Parenthesized(x) => seq![Token::LParen] + render_expr(*x) + seq![Token::RParen],
    }
}

/// The tokens that spell bounds joined by `+`.
pub open spec fn render_bounds(bs: Seq<Type>) -> Seq<Token>
    decreases bs.len(),
{
    if bs.len() == 0 {
        Seq::empty()
    } else if bs.len() == 1 {
        render_type(bs[0])
    } else {
        render_bounds(bs.drop_last()) + seq![Token::Plus] + render_type(bs.last())
    }
}

/// The tokens that spell one generic parameter.
pub open spec fn render_generic_param(g: GenericParameter) -> Seq<Token> {
    match g {
        GenericParameter::Type { name, bounds, default } => seq![Token::Ident(name)] + (if bounds@.len() > 0 {
            seq![Token::Colon] + render_bounds(bounds@)
        } else {
            Seq::empty()
        }) + match default {
            Some(d) => seq![Token::Eq] + render_type(*d),
            None => Seq::empty(),
        },
        GenericParameter::Const { name, ty } => seq![Token::Const, Token::Ident(name), Token::Colon] + render_type(ty),
    }
}

/// The tokens that spell generic parameters joined by `,`.
pub open spec fn render_generic_params(gs: Seq<GenericParameter>) -> Seq<Token>
    decreases gs.len(),
{
    if gs.len() == 0 {
        Seq::empty()
    } else if gs.len() == 1 {
        render_generic_param(gs[0])
    } else {
        render_generic_params(gs.drop_last()) + seq![Token::Comma] + render_generic_param(gs.last())
    }
}

/// The generic parameter list written at token `i`: none when no `[`
/// stands there, else the bracketed list spelling `hdr`.
pub open spec fn generics_at(ts: Seq<Token>, i: int, hdr: Seq<GenericParameter>) -> bool {
    if 0 <= i < ts.len() && ts[i] == Token::LBracket {
        hdr.len() >= 1 && exists|j: int|
            i < j <= ts.len() && ts.subrange(i, j) == seq![Token::LBracket] + render_generic_params(hdr) + seq![
                Token::RBracket,
            ]
    } else {
        hdr.len() == 0
    }
}

proof fn lemma_generics_at(ts: Seq<Token>, i: int, hdr: Seq<GenericParameter>, j: int)
    requires
        0 <= i <= j <= ts.len(),
        if i < ts.len() && ts[i] == Token::LBracket {
            hdr.len() >= 1 && ts.subrange(i, j) == seq![Token::LBracket] + render_generic_params(hdr) + seq![
                Token::RBracket,
            ]
        } else {
            hdr.len() == 0
        },
    ensures
        generics_at(ts, i, hdr),
{
    if i < ts.len() && ts[i] == Token::LBracket {
        assert((seq![Token::LBracket] + render_generic_params(hdr) + seq![Token::RBracket]).len() >= 2);
        assert(ts.subrange(i, j).len() == j - i);
    }
}

/// The parameters `gs` are those written at token `i` with a where-block folded in.
pub open spec fn merged_generics_at(ts: Seq<Token>, i: int, gs: Seq<GenericParameter>) -> bool {
    exists|hdr: Seq<GenericParameter>, wh: Seq<GenericParameter>|
        generics_at(ts, i, hdr) && params_view(gs) == merge_all(params_view(hdr), params_view(wh))
}

/// Token `p` is `t`.
pub open spec fn tok_at(ts: Seq<Token>, p: int, t: Token) -> bool {
    0 <= p < ts.len() && ts[p] == t
}

/// Token `p` is an identifier.
pub open spec fn ident_at(ts: Seq<Token>, p: int) -> bool {
    0 <= p < ts.len() && ts[p] is Ident
}

/// A token that names a primitive type, `ok` or `Self`.
pub open spec fn is_primitive_token(t: Token) -> bool {
    t is U8 || t is U16 || t is U32 || t is U64 || t is USize || t is I8 || t is I16 || t is I32 || t is I64
        || t is ISize || t is F32 || t is F64 || t is Bool || t is OkLiteral || t is SelfKeyword
}

/// The strength of the binary operator at token `p`, or 0.
pub open spec fn binop_level(ts: Seq<Token>, p: int) -> int {
    if 0 <= p < ts.len() {
        match ts[p] {
            Token::OrOr => 1,
            Token::AndAnd => 2,
            Token::Or => 3,
            Token::Caret => 4,
            Token::And => 5,
            Token::EqEq | Token::Ne => 6,
            Token::Lt | Token::Gt | Token::Le | Token::Ge => 7,
            Token::Shl | Token::Shr => 8,
            Token::Plus | Token::Minus => 9,
            Token::Star | Token::Slash | Token::Percent => 10,
            _ => 0,
        }
    } else {
        0
    }
}

/// Token `p` is a prefix operator.
pub open spec fn unop_at_spec(ts: Seq<Token>, p: int) -> bool {
    0 <= p < ts.len() && (ts[p] is Bang || ts[p] is Tilde || ts[p] is Minus || ts[p] is Plus || ts[p] is And
        || ts[p] is Star)
}

/// After identifier segments: more `::` segments, then where they end.
pub open spec fn segs_loop(ts: Seq<Token>, p: int) -> Option<int>
    decreases ts.len() - p,
{
    if p < 0 || p > ts.len() {
        None
    } else if tok_at(ts, p, Token::ColonColon) {
        if ident_at(ts, p + 1) {
            segs_loop(ts, p + 2)
        } else {
            None
        }
    } else {
        Some(p)
    }
}

/// Where identifiers joined by `::` starting at `p` end.
pub open spec fn segs_end(ts: Seq<Token>, p: int) -> Option<int> {
    if ident_at(ts, p) {
        segs_loop(ts, p + 1)
    } else {
        None
    }
}

/// Where a path type starting at `p` ends, or `None` where none can.
pub open spec fn path_end(ts: Seq<Token>, p: int) -> Option<int>
    decreases ts.len() - p, 5int,
{
    match segs_end(ts, p) {
        None => None,
        Some(q) => if tok_at(ts, q, Token::LBracket) && p < q <= ts.len() {
            type_list_end(ts, q + 1)
        } else if tok_at(ts, q, Token::LBracket) {
            None
        } else {
            Some(q)
        },
    }
}

/// Where `T, U]` starting at `p` ends.
pub open spec fn type_list_end(ts: Seq<Token>, p: int) -> Option<int>
    decreases ts.len() - p, 13int,
{
    if p < 0 || p > ts.len() {
        None
    } else {
        match type_end(ts, p) {
            None => None,
            Some(q) => if p < q <= ts.len() {
                type_list_loop(ts, q)
            } else {
                None
            },
        }
    }
}

/// After a type in a list: more `, T`, then the closing `]`.
pub open spec fn type_list_loop(ts: Seq<Token>, q: int) -> Option<int>
    decreases ts.len() - q, 0int,
{
    if q < 0 || q > ts.len() {
        None
    } else if tok_at(ts, q, Token::Comma) {
        match type_end(ts, q + 1) {
            None => None,
            Some(r) => if q < r <= ts.len() {
                type_list_loop(ts, r)
            } else {
                None
            },
        }
    } else if tok_at(ts, q, Token::RBracket) {
        Some(q + 1)
    } else {
        None
    }
}

/// Where a type starting at `p` ends, or `None` where no type can start.
pub open spec fn type_end(ts: Seq<Token>, p: int) -> Option<int>
    decreases ts.len() - p, 12int,
{
    if p < 0 || p > ts.len() {
        None
    } else {
        match base_type_end(ts, p) {
            None => None,
            Some(q) => if tok_at(ts, q, Token::Bang) && p < q <= ts.len() {
                path_end(ts, q + 1)
            } else if tok_at(ts, q, Token::Bang) {
                None
            } else {
                Some(q)
            },
        }
    }
}

/// Where a type without a trailing `! E` starting at `p` ends.
pub open spec fn base_type_end(ts: Seq<Token>, p: int) -> Option<int>
    decreases ts.len() - p, 11int,
{
    if p < 0 || p >= ts.len() {
        None
    } else {
        let star = if tok_at(ts, p, Token::Question) {
            p + 1
        } else {
            p
        };
        if tok_at(ts, star, Token::Star) {
            base_type_end(ts, if tok_at(ts, star + 1, Token::Mut) {
                star + 2
            } else {
                star + 1
            })
        } else if tok_at(ts, p, Token::Question) {
            None
        } else if tok_at(ts, p, Token::LBracket) {
            match type_end(ts, p + 1) {
                None => None,
                Some(q) => if p < q <= ts.len() && tok_at(ts, q, Token::Semicolon) {
                    match expr_end(ts, q + 1) {
                        None => None,
                        Some(r) => if tok_at(ts, r, Token::RBracket) {
                            Some(r + 1)
                        } else {
                            None
                        },
                    }
                } else if tok_at(ts, q, Token::RBracket) {
                    Some(q + 1)
                } else {
                    None
                },
            }
        } else if is_primitive_token(ts[p]) {
            Some(p + 1)
        } else {
            path_end(ts, p)
        }
    }
}

/// Where an expression starting at `p` ends, or `None` where none can.
pub open spec fn expr_end(ts: Seq<Token>, p: int) -> Option<int>
    decreases ts.len() - p, 30int,
{
    if p < 0 || p > ts.len() {
        None
    } else {
        bin_end(ts, p, 1)
    }
}

/// Where operators of strength `level` and tighter, starting at `p`, end.
pub open spec fn bin_end(ts: Seq<Token>, p: int, level: int) -> Option<int>
    decreases ts.len() - p, 29 - level,
{
    if p < 0 || p > ts.len() || level < 1 || level > 10 {
        None
    } else {
        let first = if level == 10 {
            unary_end(ts, p)
        } else {
            bin_end(ts, p, level + 1)
        };
        match first {
            None => None,
            Some(q) => if p < q <= ts.len() {
                bin_loop(ts, q, level)
            } else {
                None
            },
        }
    }
}

/// After an operand: more `op operand` at strength `level`, then where they end.
pub open spec fn bin_loop(ts: Seq<Token>, q: int, level: int) -> Option<int>
    decreases ts.len() - q, 0int,
{
    if q < 0 || q > ts.len() || level < 1 || level > 10 {
        None
    } else if binop_level(ts, q) == level {
        let sub = if level == 10 {
            unary_end(ts, q + 1)
        } else {
            bin_end(ts, q + 1, level + 1)
        };
        match sub {
            None => None,
            Some(r) => if q < r <= ts.len() {
                bin_loop(ts, r, level)
            } else {
                None
            },
        }
    } else {
        Some(q)
    }
}

/// Where prefix operators and a postfix expression starting at `p` end.
pub open spec fn unary_end(ts: Seq<Token>, p: int) -> Option<int>
    decreases ts.len() - p, 15int,
{
    if p < 0 || p > ts.len() {
        None
    } else if unop_at_spec(ts, p) {
        unary_end(ts, p + 1)
    } else {
        postfix_end(ts, p)
    }
}

/// Where a primary expression and its postfix forms, starting at `p`, end.
pub open spec fn postfix_end(ts: Seq<Token>, p: int) -> Option<int>
    decreases ts.len() - p, 14int,
{
    if p < 0 || p > ts.len() {
        None
    } else {
        match primary_end(ts, p) {
            None => None,
            Some(q) => if p < q <= ts.len() {
                postfix_loop(ts, q)
            } else {
                None
            },
        }
    }
}

/// After a postfix operand: more calls, indexing, accesses and casts.
pub open spec fn postfix_loop(ts: Seq<Token>, q: int) -> Option<int>
    decreases ts.len() - q, 0int,
{
    if q < 0 || q > ts.len() {
        None
    } else if tok_at(ts, q, Token::LParen) {
        match expr_list_end(ts, q + 1, Token::RParen) {
            None => None,
            Some(r) => if q < r <= ts.len() {
                postfix_loop(ts, r)
            } else {
                None
            },
        }
    } else if tok_at(ts, q, Token::LBracket) {
        match expr_end(ts, q + 1) {
            None => None,
            Some(r) => if q < r < ts.len() && tok_at(ts, r, Token::RBracket) {
                postfix_loop(ts, r + 1)
            } else {
                None
            },
        }
    } else if tok_at(ts, q, Token::Dot) || tok_at(ts, q, Token::ColonColon) {
        if ident_at(ts, q + 1) {
            postfix_loop(ts, q + 2)
        } else {
            None
        }
    } else if tok_at(ts, q, Token::As) {
        match type_end(ts, q + 1) {
            None => None,
            Some(r) => if q < r <= ts.len() {
                postfix_loop(ts, r)
            } else {
                None
            },
        }
    } else {
        Some(q)
    }
}

/// Where `e, e, ...` followed by `close`, starting at `p`, ends (the list may be empty).
pub open spec fn expr_list_end(ts: Seq<Token>, p: int, close: Token) -> Option<int>
    decreases ts.len() - p, 31int,
{
    if p < 0 || p > ts.len() {
        None
    } else if tok_at(ts, p, close) {
        Some(p + 1)
    } else {
        match expr_end(ts, p) {
            None => None,
            Some(q) => if p < q <= ts.len() {
                expr_list_loop(ts, q, close)
            } else {
                None
            },
        }
    }
}

/// After a list element: more `, e`, then `close`.
pub open spec fn expr_list_loop(ts: Seq<Token>, q: int, close: Token) -> Option<int>
    decreases ts.len() - q, 0int,
{
    if q < 0 || q > ts.len() {
        None
    } else if tok_at(ts, q, Token::Comma) {
        match expr_end(ts, q + 1) {
            None => None,
            Some(r) => if q < r <= ts.len() {
                expr_list_loop(ts, r, close)
            } else {
                None
            },
        }
    } else if tok_at(ts, q, close) {
        Some(q + 1)
    } else {
        None
    }
}

/// Where a primary expression starting at `p` ends.
pub open spec fn primary_end(ts: Seq<Token>, p: int) -> Option<int>
    decreases ts.len() - p, 13int,
{
    if p < 0 || p >= ts.len() {
        None
    } else {
        match ts[p] {
            Token::IntegerLiteral(_) | Token::FloatLiteral(_) | Token::True | Token::False | Token::CharLiteral(_)
            | Token::StringLiteral(_) | Token::OkLiteral | Token::InterpolatedString(_) => Some(p + 1),
            Token::Ident(_) => segs_end(ts, p),
            Token::LParen => match expr_end(ts, p + 1) {
                None => None,
                Some(q) => if tok_at(ts, q, Token::RParen) {
                    Some(q + 1)
                } else {
                    None
                },
            },
            Token::LBracket => expr_list_end(ts, p + 1, Token::RBracket),
            _ => None,
        }
    }
}

/// After a bound: more `+ T`, then where the bounds end.
pub open spec fn bounds_loop(ts: Seq<Token>, q: int) -> Option<int>
    decreases ts.len() - q,
{
    if q < 0 || q > ts.len() {
        None
    } else if tok_at(ts, q, Token::Plus) {
        match type_end(ts, q + 1) {
            None => None,
            Some(r) => if q < r <= ts.len() {
                bounds_loop(ts, r)
            } else {
                None
            },
        }
    } else {
        Some(q)
    }
}

/// Where bounds `A + B` starting at `p` end.
pub open spec fn bounds_end(ts: Seq<Token>, p: int) -> Option<int> {
    match type_end(ts, p) {
        None => None,
        Some(q) => if p < q <= ts.len() {
            bounds_loop(ts, q)
        } else {
            None
        },
    }
}

/// Where one generic parameter starting at `p` ends.
pub open spec fn generic_param_end(ts: Seq<Token>, p: int) -> Option<int> {
    if tok_at(ts, p, Token::Const) {
        if ident_at(ts, p + 1) && tok_at(ts, p + 2, Token::Colon) {
            type_end(ts, p + 3)
        } else {
            None
        }
    } else if ident_at(ts, p) {
        let b = if tok_at(ts, p + 1, Token::Colon) {
            bounds_end(ts, p + 2)
        } else {
            Some(p + 1)
        };
        match b {
            None => None,
            Some(q) => if tok_at(ts, q, Token::Eq) {
                type_end(ts, q + 1)
            } else {
                Some(q)
            },
        }
    } else {
        None
    }
}

/// After a parameter: more `, P`, then the closing `]`.
pub open spec fn generic_list_loop(ts: Seq<Token>, q: int) -> Option<int>
    decreases ts.len() - q,
{
    if q < 0 || q > ts.len() {
        None
    } else if tok_at(ts, q, Token::Comma) {
        match generic_param_end(ts, q + 1) {
            None => None,
            Some(r) => if q < r <= ts.len() {
                generic_list_loop(ts, r)
            } else {
                None
            },
        }
    } else if tok_at(ts, q, Token::RBracket) {
        Some(q + 1)
    } else {
        None
    }
}

/// Where a generic parameter list at `p` ends: at `p` when no `[` stands there.
pub open spec fn generic_params_end(ts: Seq<Token>, p: int) -> Option<int> {
    if !tok_at(ts, p, Token::LBracket) {
        Some(p)
    } else {
        match generic_param_end(ts, p + 1) {
            None => None,
            Some(q) => if p < q <= ts.len() {
                generic_list_loop(ts, q)
            } else {
                None
            },
        }
    }
}

/// Token `p` is the identifier `w`, used as a contextual keyword.
pub open spec fn word_at(ts: Seq<Token>, p: int, w: Seq<char>) -> bool {
    0 <= p < ts.len() && (ts[p] matches Token::Ident(s) && s@ == w)
}

/// The first index at or after `p` that holds no newline.
pub open spec fn skip_nl(ts: Seq<Token>, p: int) -> int
    decreases ts.len() - p,
{
    if tok_at(ts, p, Token::Newline) {
        skip_nl(ts, p + 1)
    } else {
        p
    }
}

/// Where a line ending at `p` ends: newlines are taken, a `Dedent` or the
/// end of input ends it in place; anything else fails.
pub open spec fn line_end_spec(ts: Seq<Token>, p: int) -> Option<int> {
    if p >= ts.len() || tok_at(ts, p, Token::Dedent) {
        Some(p)
    } else if tok_at(ts, p, Token::Newline) {
        Some(skip_nl(ts, p))
    } else {
        None
    }
}

/// Where the newlines and `Indent` opening a block at `p` end.
pub open spec fn open_block_spec(ts: Seq<Token>, p: int) -> Option<int> {
    if tok_at(ts, p, Token::Newline) && tok_at(ts, skip_nl(ts, p + 1), Token::Indent) {
        Some(skip_nl(ts, p + 1) + 1)
    } else {
        None
    }
}

/// Whether an indented block starts at `p`.
pub open spec fn block_starts_spec(ts: Seq<Token>, p: int) -> bool {
    skip_nl(ts, p) > p && tok_at(ts, skip_nl(ts, p), Token::Indent)
}

/// Inside a `where` block: `name: Bounds` lines until the `Dedent`.
pub open spec fn where_loop(ts: Seq<Token>, p: int) -> Option<int>
    decreases ts.len() - p,
{
    if p < 0 || p > ts.len() {
        None
    } else if tok_at(ts, p, Token::Dedent) {
        Some(p + 1)
    } else if ident_at(ts, p) && tok_at(ts, p + 1, Token::Colon) {
        match bounds_end(ts, p + 2) {
            None => None,
            Some(q) => match line_end_spec(ts, q) {
                None => None,
                Some(q2) => if p < q2 <= ts.len() {
                    where_loop(ts, q2)
                } else {
                    None
                },
            },
        }
    } else {
        None
    }
}

/// Inside a `requires` or `extends` block: one type per line until the `Dedent`.
pub open spec fn type_block_loop(ts: Seq<Token>, p: int) -> Option<int>
    decreases ts.len() - p,
{
    if p < 0 || p > ts.len() {
        None
    } else if tok_at(ts, p, Token::Dedent) {
        Some(p + 1)
    } else {
        match type_end(ts, p) {
            None => None,
            Some(q) => match line_end_spec(ts, q) {
                None => None,
                Some(q2) => if p < q2 <= ts.len() {
                    type_block_loop(ts, q2)
                } else {
                    None
                },
            },
        }
    }
}

/// Where a `where` block after its keyword, at `p`, ends.
pub open spec fn where_block_end(ts: Seq<Token>, p: int) -> Option<int> {
    match open_block_spec(ts, p) {
        None => None,
        Some(q) => where_loop(ts, q),
    }
}

/// Where a `requires` or `extends` block after its keyword, at `p`, ends.
pub open spec fn type_block_end(ts: Seq<Token>, p: int) -> Option<int> {
    match open_block_spec(ts, p) {
        None => None,
        Some(q) => type_block_loop(ts, q),
    }
}

/// Where a clause at `p` (`where`, `requires` or `extends` with its block,
/// then newlines) ends; `p` itself when no clause starts there.
pub open spec fn clause_end(ts: Seq<Token>, p: int) -> Option<int> {
    if word_at(ts, p, "where"@) {
        match where_block_end(ts, p + 1) {
            None => None,
            Some(r) => Some(skip_nl(ts, r)),
        }
    } else if word_at(ts, p, "requires"@) || word_at(ts, p, "extends"@) {
        match type_block_end(ts, p + 1) {
            None => None,
            Some(r) => Some(skip_nl(ts, r)),
        }
    } else {
        Some(p)
    }
}

/// Inside a struct or union body: clauses, `pass` lines and `name: Type`
/// lines until the `Dedent`.
pub open spec fn field_loop(ts: Seq<Token>, p: int) -> Option<int>
    decreases ts.len() - p,
{
    if p < 0 || p > ts.len() {
        None
    } else if tok_at(ts, p, Token::Dedent) {
        Some(p + 1)
    } else {
        match clause_end(ts, p) {
            None => None,
            Some(q) => if q > p {
                if q <= ts.len() {
                    field_loop(ts, q)
                } else {
                    None
                }
            } else if word_at(ts, p, "pass"@) {
                match line_end_spec(ts, p + 1) {
                    None => None,
                    Some(q2) => if p < q2 <= ts.len() {
                        field_loop(ts, q2)
                    } else {
                        None
                    },
                }
            } else if ident_at(ts, p) && tok_at(ts, p + 1, Token::Colon) {
                match type_end(ts, p + 2) {
                    None => None,
                    Some(q3) => match line_end_spec(ts, q3) {
                        None => None,
                        Some(q4) => if p < q4 <= ts.len() {
                            field_loop(ts, q4)
                        } else {
                            None
                        },
                    },
                }
            } else {
                None
            },
        }
    }
}

/// Inside an enum body: clauses, `pass` lines and `Name` or `Name = value`
/// lines until the `Dedent`.
pub open spec fn variant_loop(ts: Seq<Token>, p: int) -> Option<int>
    decreases ts.len() - p,
{
    if p < 0 || p > ts.len() {
        None
    } else if tok_at(ts, p, Token::Dedent) {
        Some(p + 1)
    } else {
        match clause_end(ts, p) {
            None => None,
            Some(q) => if q > p {
                if q <= ts.len() {
                    variant_loop(ts, q)
                } else {
                    None
                }
            } else if word_at(ts, p, "pass"@) {
                match line_end_spec(ts, p + 1) {
                    None => None,
                    Some(q2) => if p < q2 <= ts.len() {
                        variant_loop(ts, q2)
                    } else {
                        None
                    },
                }
            } else if ident_at(ts, p) {
                let v = if tok_at(ts, p + 1, Token::Eq) {
                    expr_end(ts, p + 2)
                } else {
                    Some(p + 1)
                };
                match v {
                    None => None,
                    Some(q3) => match line_end_spec(ts, q3) {
                        None => None,
                        Some(q4) => if p < q4 <= ts.len() {
                            variant_loop(ts, q4)
                        } else {
                            None
                        },
                    },
                }
            } else {
                None
            },
        }
    }
}

/// Where a body starting at `p` after a declaration header ends: the header
/// itself ends there when no indented block follows.
pub open spec fn body_end(ts: Seq<Token>, p: int, variants: bool) -> Option<int> {
    if block_starts_spec(ts, p) {
        match open_block_spec(ts, p) {
            None => None,
            Some(q) => if variants {
                variant_loop(ts, q)
            } else {
                field_loop(ts, q)
            },
        }
    } else {
        Some(p)
    }
}

/// Where a struct (`kw` `Struct`) or union (`kw` `Union`) at `p` ends.
pub open spec fn record_end(ts: Seq<Token>, p: int, kw: Token) -> Option<int> {
    if tok_at(ts, p, kw) && ident_at(ts, p + 1) {
        match generic_params_end(ts, p + 2) {
            None => None,
            Some(q) => body_end(ts, q, false),
        }
    } else {
        None
    }
}

/// Where an enum at `p` ends.
pub open spec fn enum_end(ts: Seq<Token>, p: int) -> Option<int> {
    if !tok_at(ts, p, Token::Enum) {
        None
    } else {
        let n = if tok_at(ts, p + 1, Token::LBracket) {
            match type_end(ts, p + 2) {
                None => None,
                Some(q) => if tok_at(ts, q, Token::RBracket) {
                    Some(q + 1)
                } else {
                    None
                },
            }
        } else {
            Some(p + 1)
        };
        match n {
            None => None,
            Some(q) => if ident_at(ts, q) {
                match generic_params_end(ts, q + 1) {
                    None => None,
                    Some(r) => body_end(ts, r, true),
                }
            } else {
                None
            },
        }
    }
}

/// Where a type alias at `p` ends: `type Name[params] = T`, or with a
/// `where` block between the header and `= T`.
pub open spec fn type_alias_end(ts: Seq<Token>, p: int) -> Option<int> {
    if tok_at(ts, p, Token::Type) && ident_at(ts, p + 1) {
        match generic_params_end(ts, p + 2) {
            None => None,
            Some(q) => if tok_at(ts, q, Token::Eq) {
                type_end(ts, q + 1)
            } else {
                match open_block_spec(ts, q) {
                    None => None,
                    Some(b) => if word_at(ts, b, "where"@) {
                        match where_block_end(ts, b + 1) {
                            None => None,
                            Some(w) => if tok_at(ts, w, Token::Eq) {
                                match type_end(ts, w + 1) {
                                    None => None,
                                    Some(t) => match line_end_spec(ts, t) {
                                        None => None,
                                        Some(u) => if tok_at(ts, u, Token::Dedent) {
                                            Some(u + 1)
                                        } else {
                                            None
                                        },
                                    },
                                }
                            } else {
                                None
                            },
                        }
                    } else {
                        None
                    },
                }
            },
        }
    } else {
        None
    }
}

/// Whether the bracket list at `p` closes, at its matching `]`, right before a `::`.
pub open spec fn bracket_close(ts: Seq<Token>, p: int, depth: int) -> bool
    decreases ts.len() - p,
{
    if p < 0 || p >= ts.len() {
        false
    } else if tok_at(ts, p, Token::LBracket) {
        bracket_close(ts, p + 1, depth + 1)
    } else if tok_at(ts, p, Token::RBracket) {
        if depth <= 1 {
            tok_at(ts, p + 1, Token::ColonColon)
        } else {
            bracket_close(ts, p + 1, depth - 1)
        }
    } else {
        bracket_close(ts, p + 1, depth)
    }
}

/// After a name segment: more `[Args]::Seg` or `::Seg`, then where the name ends.
pub open spec fn qname_loop(ts: Seq<Token>, p: int) -> Option<int>
    decreases ts.len() - p,
{
    if p < 0 || p > ts.len() {
        None
    } else if tok_at(ts, p, Token::LBracket) && bracket_close(ts, p, 0) {
        match type_list_end(ts, p + 1) {
            None => None,
            Some(q) => if tok_at(ts, q, Token::ColonColon) && ident_at(ts, q + 1) && p < q + 2 <= ts.len() {
                qname_loop(ts, q + 2)
            } else {
                None
            },
        }
    } else if tok_at(ts, p, Token::ColonColon) {
        if ident_at(ts, p + 1) {
            qname_loop(ts, p + 2)
        } else {
            None
        }
    } else {
        Some(p)
    }
}

/// Where a receiver-qualified name at `p` ends.
pub open spec fn qname_end(ts: Seq<Token>, p: int) -> Option<int> {
    if ident_at(ts, p) {
        qname_loop(ts, p + 1)
    } else {
        None
    }
}

/// Token `p` introduces a function: `fn` or `func`.
pub open spec fn fn_keyword_at(ts: Seq<Token>, p: int) -> bool {
    tok_at(ts, p, Token::Fn) || word_at(ts, p, "func"@)
}

/// Where a `self`, `*self` or `*mut self` receiver at `p` ends, if one stands there.
pub open spec fn self_param_end(ts: Seq<Token>, p: int) -> Option<int> {
    if word_at(ts, p, "self"@) {
        Some(p + 1)
    } else if tok_at(ts, p, Token::Star) && word_at(ts, p + 1, "self"@) {
        Some(p + 2)
    } else if tok_at(ts, p, Token::Star) && tok_at(ts, p + 1, Token::Mut) && word_at(ts, p + 2, "self"@) {
        Some(p + 3)
    } else {
        None
    }
}

/// `name: Type` parameters separated by commas (a trailing comma allowed), up to the `)`.
pub open spec fn params_loop(ts: Seq<Token>, p: int) -> Option<int>
    decreases ts.len() - p,
{
    if p < 0 || p > ts.len() {
        None
    } else if ident_at(ts, p) && tok_at(ts, p + 1, Token::Colon) {
        match type_end(ts, p + 2) {
            None => None,
            Some(q) => if tok_at(ts, q, Token::Comma) && !tok_at(ts, q + 1, Token::RParen) {
                if p < q + 1 <= ts.len() {
                    params_loop(ts, q + 1)
                } else {
                    None
                }
            } else if tok_at(ts, q, Token::Comma) {
                Some(q + 1)
            } else {
                Some(q)
            },
        }
    } else {
        None
    }
}

/// Where a signature ends after its parameters, at the `)` at `d`.
pub open spec fn sig_tail(ts: Seq<Token>, d: int) -> Option<int> {
    if tok_at(ts, d, Token::RParen) {
        if tok_at(ts, d + 1, Token::Arrow) {
            type_end(ts, d + 2)
        } else {
            Some(d + 1)
        }
    } else {
        None
    }
}

/// Where a function signature at `p` ends.
pub open spec fn signature_end(ts: Seq<Token>, p: int) -> Option<int> {
    if !fn_keyword_at(ts, p) {
        None
    } else {
        match qname_end(ts, p + 1) {
            None => None,
            Some(a) => match generic_params_end(ts, a) {
                None => None,
                Some(b) => if !tok_at(ts, b, Token::LParen) {
                    None
                } else {
                    let c1 = match self_param_end(ts, b + 1) {
                        Some(q) => if tok_at(ts, q, Token::Comma) {
                            q + 1
                        } else {
                            q
                        },
                        None => b + 1,
                    };
                    let c2 = if tok_at(ts, c1, Token::RParen) {
                        Some(c1)
                    } else {
                        params_loop(ts, c1)
                    };
                    match c2 {
                        None => None,
                        Some(d) => sig_tail(ts, d),
                    }
                },
            },
        }
    }
}

/// Where a constant declaration at `p` ends.
pub open spec fn const_end(ts: Seq<Token>, p: int) -> Option<int> {
    if !tok_at(ts, p, Token::Const) {
        None
    } else {
        match generic_params_end(ts, p + 1) {
            None => None,
            Some(a) => match qname_end(ts, a) {
                None => None,
                Some(b) => {
                    let c = if tok_at(ts, b, Token::Colon) {
                        type_end(ts, b + 1)
                    } else {
                        Some(b)
                    };
                    match c {
                        None => None,
                        Some(d) => if tok_at(ts, d, Token::Eq) {
                            expr_end(ts, d + 1)
                        } else {
                            None
                        },
                    }
                },
            },
        }
    }
}

/// Inside an interface body: clauses, `pass` lines and signatures until the `Dedent`.
pub open spec fn method_loop(ts: Seq<Token>, p: int) -> Option<int>
    decreases ts.len() - p,
{
    if p < 0 || p > ts.len() {
        None
    } else if tok_at(ts, p, Token::Dedent) {
        Some(p + 1)
    } else {
        match clause_end(ts, p) {
            None => None,
            Some(q) => if q > p {
                if q <= ts.len() {
                    method_loop(ts, q)
                } else {
                    None
                }
            } else if word_at(ts, p, "pass"@) {
                match line_end_spec(ts, p + 1) {
                    None => None,
                    Some(q2) => if p < q2 <= ts.len() {
                        method_loop(ts, q2)
                    } else {
                        None
                    },
                }
            } else {
                match signature_end(ts, p) {
                    None => None,
                    Some(q3) => match line_end_spec(ts, q3) {
                        None => None,
                        Some(q4) => if p < q4 <= ts.len() {
                            method_loop(ts, q4)
                        } else {
                            None
                        },
                    },
                }
            },
        }
    }
}

/// Where an interface at `p` ends.
pub open spec fn interface_end(ts: Seq<Token>, p: int) -> Option<int> {
    if tok_at(ts, p, Token::Interface) && ident_at(ts, p + 1) {
        match generic_params_end(ts, p + 2) {
            None => None,
            Some(q) => if block_starts_spec(ts, q) {
                match open_block_spec(ts, q) {
                    None => None,
                    Some(b) => method_loop(ts, b),
                }
            } else {
                Some(q)
            },
        }
    } else {
        None
    }
}

/// A declaration starts at token `p`.
pub open spec fn item_starts_spec(ts: Seq<Token>, p: int) -> bool {
    fn_keyword_at(ts, p) || tok_at(ts, p, Token::Type) || tok_at(ts, p, Token::Struct) || tok_at(ts, p, Token::Enum)
        || tok_at(ts, p, Token::Union) || tok_at(ts, p, Token::Interface) || tok_at(ts, p, Token::Const) || word_at(
        ts,
        p,
        "namespace"@,
    )
}

/// Token `p` is `=` or a compound assignment operator.
pub open spec fn assign_at(ts: Seq<Token>, p: int) -> bool {
    0 <= p < ts.len() && (ts[p] is Eq || ts[p] is PlusEq || ts[p] is MinusEq || ts[p] is StarEq || ts[p] is SlashEq
        || ts[p] is PercentEq || ts[p] is AndEq || ts[p] is OrEq || ts[p] is CaretEq || ts[p] is ShlEq
        || ts[p] is ShrEq)
}

/// Where an indented block of statements at `p` ends.
pub open spec fn block_end(ts: Seq<Token>, p: int) -> Option<int>
    decreases ts.len() - p, 7int,
{
    if p < 0 || p > ts.len() {
        None
    } else {
        match open_block_spec(ts, p) {
            None => None,
            Some(q) => if p < q <= ts.len() {
                stmts_loop(ts, q)
            } else {
                None
            },
        }
    }
}

/// Statements until the `Dedent` that closes their block.
pub open spec fn stmts_loop(ts: Seq<Token>, p: int) -> Option<int>
    decreases ts.len() - p, 7int,
{
    if p < 0 || p > ts.len() {
        None
    } else if tok_at(ts, p, Token::Dedent) {
        Some(p + 1)
    } else {
        match statement_end(ts, p) {
            None => None,
            Some(q) => if p < q <= ts.len() {
                stmts_loop(ts, q)
            } else {
                None
            },
        }
    }
}

/// After an `if` block: `elif` parts, then an optional `else` block.
pub open spec fn elif_loop(ts: Seq<Token>, b: int) -> Option<int>
    decreases ts.len() - b, 0int,
{
    if b < 0 || b > ts.len() {
        None
    } else if word_at(ts, b, "elif"@) {
        match expr_end(ts, b + 1) {
            None => None,
            Some(c) => if b < c <= ts.len() {
                match block_end(ts, c) {
                    None => None,
                    Some(d) => if b < d <= ts.len() {
                        elif_loop(ts, d)
                    } else {
                        None
                    },
                }
            } else {
                None
            },
        }
    } else if tok_at(ts, b, Token::Else) {
        block_end(ts, b + 1)
    } else {
        Some(b)
    }
}

/// Where a statement at `p` ends, through the end of its line or block.
pub open spec fn statement_end(ts: Seq<Token>, p: int) -> Option<int>
    decreases ts.len() - p, 6int,
{
    if p < 0 || p > ts.len() {
        None
    } else if item_starts_spec(ts, p) {
        match item_end(ts, p) {
            None => None,
            Some(q) => Some(skip_nl(ts, q)),
        }
    } else if word_at(ts, p, "pass"@) {
        line_end_spec(ts, p + 1)
    } else if tok_at(ts, p, Token::Let) {
        let a = if tok_at(ts, p + 1, Token::Mut) {
            p + 2
        } else {
            p + 1
        };
        if !ident_at(ts, a) {
            None
        } else {
            let b = if tok_at(ts, a + 1, Token::Colon) {
                type_end(ts, a + 2)
            } else {
                Some(a + 1)
            };
            match b {
                None => None,
                Some(c) => if tok_at(ts, c, Token::Eq) {
                    match expr_end(ts, c + 1) {
                        None => None,
                        Some(d) => line_end_spec(ts, d),
                    }
                } else {
                    None
                },
            }
        }
    } else if tok_at(ts, p, Token::Return) {
        if p + 1 >= ts.len() || tok_at(ts, p + 1, Token::Newline) || tok_at(ts, p + 1, Token::Dedent) {
            line_end_spec(ts, p + 1)
        } else {
            match expr_end(ts, p + 1) {
                None => None,
                Some(d) => line_end_spec(ts, d),
            }
        }
    } else if tok_at(ts, p, Token::If) {
        match expr_end(ts, p + 1) {
            None => None,
            Some(c) => if p < c <= ts.len() {
                match block_end(ts, c) {
                    None => None,
                    Some(b) => if p < b <= ts.len() {
                        elif_loop(ts, b)
                    } else {
                        None
                    },
                }
            } else {
                None
            },
        }
    } else if tok_at(ts, p, Token::While) {
        match expr_end(ts, p + 1) {
            None => None,
            Some(c) => if p < c <= ts.len() {
                block_end(ts, c)
            } else {
                None
            },
        }
    } else if tok_at(ts, p, Token::For) {
        if ident_at(ts, p + 1) && tok_at(ts, p + 2, Token::In) {
            match expr_end(ts, p + 3) {
                None => None,
                Some(c) => if p < c <= ts.len() {
                    block_end(ts, c)
                } else {
                    None
                },
            }
        } else {
            None
        }
    } else {
        match expr_end(ts, p) {
            None => None,
            Some(c) => if assign_at(ts, c) {
                match expr_end(ts, c + 1) {
                    None => None,
                    Some(d) => line_end_spec(ts, d),
                }
            } else {
                line_end_spec(ts, c)
            },
        }
    }
}

/// Where a declaration at `p` ends.
pub open spec fn item_end(ts: Seq<Token>, p: int) -> Option<int>
    decreases ts.len() - p, 5int,
{
    if p < 0 || p > ts.len() {
        None
    } else if fn_keyword_at(ts, p) {
        function_end(ts, p)
    } else if tok_at(ts, p, Token::Type) {
        type_alias_end(ts, p)
    } else if tok_at(ts, p, Token::Struct) {
        record_end(ts, p, Token::Struct)
    } else if tok_at(ts, p, Token::Enum) {
        enum_end(ts, p)
    } else if tok_at(ts, p, Token::Union) {
        record_end(ts, p, Token::Union)
    } else if tok_at(ts, p, Token::Interface) {
        interface_end(ts, p)
    } else if word_at(ts, p, "namespace"@) {
        namespace_end(ts, p)
    } else if tok_at(ts, p, Token::Const) {
        match const_end(ts, p) {
            None => None,
            Some(q) => line_end_spec(ts, q),
        }
    } else {
        None
    }
}

/// Where a function at `p` ends: its signature, and its body when an
/// indented block follows, which may open with a `where` block.
pub open spec fn function_end(ts: Seq<Token>, p: int) -> Option<int>
    decreases ts.len() - p, 3int,
{
    if p < 0 || p > ts.len() {
        None
    } else {
        match signature_end(ts, p) {
            None => None,
            Some(a) => if !(p < a <= ts.len()) {
                None
            } else if !block_starts_spec(ts, a) {
                Some(a)
            } else if tok_at(ts, skip_nl(ts, a), Token::Indent) && word_at(ts, skip_nl(ts, a) + 1, "where"@) {
                match where_block_end(ts, skip_nl(ts, a) + 2) {
                    None => None,
                    Some(w) => if p < skip_nl(ts, w) <= ts.len() {
                        stmts_loop(ts, skip_nl(ts, w))
                    } else {
                        None
                    },
                }
            } else {
                block_end(ts, a)
            },
        }
    }
}

/// Where a namespace at `p` ends.
pub open spec fn namespace_end(ts: Seq<Token>, p: int) -> Option<int>
    decreases ts.len() - p, 4int,
{
    if p < 0 || p > ts.len() || !word_at(ts, p, "namespace"@) {
        None
    } else {
        match segs_end(ts, p + 1) {
            None => None,
            Some(a) => if block_starts_spec(ts, a) {
                match open_block_spec(ts, a) {
                    None => None,
                    Some(b) => if p < b <= ts.len() {
                        ns_loop(ts, b)
                    } else {
                        None
                    },
                }
            } else {
                Some(a)
            },
        }
    }
}

/// Inside a namespace body: `pass` lines and declarations until the `Dedent`.
pub open spec fn ns_loop(ts: Seq<Token>, b: int) -> Option<int>
    decreases ts.len() - b, 8int,
{
    if b < 0 || b > ts.len() {
        None
    } else if tok_at(ts, b, Token::Dedent) {
        Some(b + 1)
    } else if word_at(ts, b, "pass"@) {
        match line_end_spec(ts, b + 1) {
            None => None,
            Some(q) => if b < q <= ts.len() {
                ns_loop(ts, q)
            } else {
                None
            },
        }
    } else {
        match item_end(ts, b) {
            None => None,
            Some(q) => if b < skip_nl(ts, q) <= ts.len() {
                ns_loop(ts, skip_nl(ts, q))
            } else {
                None
            },
        }
    }
}

/// Declarations from `p` to the end of the stream, newlines between them.
pub open spec fn file_loop(ts: Seq<Token>, p: int) -> bool
    decreases ts.len() - p,
{
    if p < 0 || p >= ts.len() {
        true
    } else {
        match item_end(ts, p) {
            None => false,
            Some(q) => if p < skip_nl(ts, q) <= ts.len() {
                file_loop(ts, skip_nl(ts, q))
            } else {
                false
            },
        }
    }
}

/// The whole stream is a source file: declarations separated by newlines.
pub open spec fn source_file_ok(ts: Seq<Token>) -> bool {
    file_loop(ts, skip_nl(ts, 0))
}

/// A token stream with the byte span of each token.
pub struct Parser {
    pub tokens: Vec<Token>,
    pub spans: Vec<Span>,
}

impl Parser {
    pub open spec fn wf(&self) -> bool {
        &&& self.tokens@.len() == self.spans@.len()
        &&& self.tokens@.len() < usize::MAX
    }

    /// A parser over `tokens`, whose byte spans are `spans`.
    pub fn new(tokens: Vec<Token>, spans: Vec<Span>) -> (r: Option<Parser>)
        ensures
            r is Some <==> tokens@.len() == spans@.len() && tokens@.len() < usize::MAX,
            r matches Some(p) ==> p.wf() && p.tokens == tokens && p.spans == spans,
    {
        if tokens.len() == spans.len() && tokens.len() < usize::MAX {
            Some(Parser { tokens, spans })
        } else {
            None
        }
    }

    /// The error for the token at `pos`, or for the end of input.
    fn unexpected(&self, pos: usize) -> (r: ParseError)
        requires
            self.wf(),
        ensures
            pos < self.tokens@.len() ==> r == (ParseError::UnexpectedToken {
                token: self.tokens@[pos as int],
                index: pos,
                span: self.spans@[pos as int],
            }),
            pos >= self.tokens@.len() ==> r is UnexpectedEof,
    {
        if pos < self.tokens.len() {
            ParseError::UnexpectedToken { token: self.tokens[pos].copy(), index: pos, span: self.spans[pos] }
        } else {
            ParseError::UnexpectedEof
        }
    }

    /// Whether the token at `pos` is `t`, a token without payload.
    fn is(&self, pos: usize, t: Token) -> (r: bool)
        ensures
            r ==> pos < self.tokens@.len() && self.tokens@[pos as int] == t,
            is_unit(t) ==> (r == (pos < self.tokens@.len() && self.tokens@[pos as int] == t)),
    {
        pos < self.tokens.len() && self.tokens[pos].same_unit(&t)
    }

    /// Whether the token at `pos` is the identifier `w`, used as a contextual keyword.
    fn is_word(&self, pos: usize, w: &str) -> (r: bool)
        ensures
            r ==> pos < self.tokens@.len() && (self.tokens@[pos as int] matches Token::Ident(s) && s@ == w@),
            r == word_at(self.tokens@, pos as int, w@),
    {
        if pos < self.tokens.len() {
            match &self.tokens[pos] {
                Token::Ident(s) => {
                    let ws = String::from_str(w);
                    *s == ws
                },
                _ => false,
            }
        } else {
            false
        }
    }

    /// Consumes the token `t` at `pos`.
    fn expect(&self, pos: usize, t: Token) -> (r: Result<usize, ParseError>)
        requires
            self.wf(),
        ensures
            is_unit(t) ==> ((r is Ok) == tok_at(self.tokens@, pos as int, t)),
            r matches Err(e) ==> !(e is Lexical),
            r matches Err(ParseError::UnexpectedToken { token, index, span }) ==> index < self.tokens@.len()
                && token == self.tokens@[index as int] && span == self.spans@[index as int],
            r matches Ok(p) ==> p == pos + 1 && p <= self.tokens@.len() && self.tokens@[pos as int] == t,
    {
        if self.is(pos, t) {
            Ok(pos + 1)
        } else {
            Err(self.unexpected(pos))
        }
    }

    /// Consumes an identifier at `pos` and returns its name.
    fn ident(&self, pos: usize) -> (r: Result<(String, usize), ParseError>)
        requires
            self.wf(),
        ensures
            (r is Ok) == ident_at(self.tokens@, pos as int),
            r matches Err(e) ==> !(e is Lexical),
            r matches Err(ParseError::UnexpectedToken { token, index, span }) ==> index < self.tokens@.len()
                && token == self.tokens@[index as int] && span == self.spans@[index as int],
            r matches Ok((s, p)) ==> p == pos + 1 && p <= self.tokens@.len()
                && self.tokens@[pos as int] == Token::Ident(s),
    {
        if pos < self.tokens.len() {
            match &self.tokens[pos] {
                Token::Ident(s) => Ok((s.clone(), pos + 1)),
                _ => Err(self.unexpected(pos)),
            }
        } else {
            Err(ParseError::UnexpectedEof)
        }
    }

    /// The primitive type a token names.
    fn primitive(&self, pos: usize) -> (r: Option<Type>)
        requires
            pos < self.tokens@.len(),
        ensures
            (r is Some) == is_primitive_token(self.tokens@[pos as int]),
            r matches Some(t) ==> !(t is ErrorUnion) && !(t is Pointer) && !(t is Array) && !(t is Path)
                && render_type(t) == seq![self.tokens@[pos as int]],
    {
        match &self.tokens[pos] {
            Token::U8 => Some(Type::U8),
            Token::U16 => Some(Type::U16),
            Token::U32 => Some(Type::U32),
            Token::U64 => Some(Type::U64),
            Token::USize => Some(Type::USize),
            Token::I8 => Some(Type::I8),
            Token::I16 => Some(Type::I16),
            Token::I32 => Some(Type::I32),
            Token::I64 => Some(Type::I64),
            Token::ISize => Some(Type::ISize),
            Token::F32 => Some(Type::F32),
            Token::F64 => Some(Type::F64),
            Token::Bool => Some(Type::Bool),
            Token::OkLiteral => Some(Type::OkType),
            Token::SelfKeyword => Some(Type::SelfType),
            _ => None,
        }
    }

    /// `a::b::C[T, U]`: identifiers joined by `::`, with optional generic arguments.
    pub fn parse_path(&self, pos: usize) -> (r: Result<(Path, usize), ParseError>)
        requires
            self.wf(),
            pos <= self.tokens@.len(),
        ensures
            (r is Ok) == (path_end(self.tokens@, pos as int) is Some),
            r is Ok ==> path_end(self.tokens@, pos as int) == Some(r->Ok_0.1 as int),
            r matches Err(e) ==> !(e is Lexical),
            r matches Err(ParseError::UnexpectedToken { token, index, span }) ==> index < self.tokens@.len()
                && token == self.tokens@[index as int] && span == self.spans@[index as int],
            r matches Ok((path, p)) ==> pos < p <= self.tokens@.len() && path.segments@.len() >= 1
                && self.tokens@.subrange(pos as int, p as int) == render_path(path),
        decreases self.tokens@.len() - pos, 5int,
    {
        let (segments, p) = self.parse_segments(pos)?;
        if self.is(p, Token::LBracket) {
            let (generic_args, q) = self.parse_type_list(p + 1)?;
            let path = Path { segments, generic_args };
            assert(self.tokens@.subrange(pos as int, q as int) =~= self.tokens@.subrange(pos as int, p as int)
                + seq![Token::LBracket] + self.tokens@.subrange(p + 1, q as int));
            return Ok((path, q));
        }
        let path = Path { segments, generic_args: Vec::new() };
        assert(render_path(path) =~= render_segments(path.segments@));
        Ok((path, p))
    }

    /// Identifiers joined by `::`.
    fn parse_segments(&self, pos: usize) -> (r: Result<(Vec<String>, usize), ParseError>)
        requires
            self.wf(),
            pos <= self.tokens@.len(),
        ensures
            (r is Ok) == (segs_end(self.tokens@, pos as int) is Some),
            r is Ok ==> segs_end(self.tokens@, pos as int) == Some(r->Ok_0.1 as int),
            r matches Err(e) ==> !(e is Lexical),
            r matches Err(ParseError::UnexpectedToken { token, index, span }) ==> index < self.tokens@.len()
                && token == self.tokens@[index as int] && span == self.spans@[index as int],
            r matches Ok((segs, p)) ==> pos < p <= self.tokens@.len() && segs@.len() >= 1
                && self.tokens@.subrange(pos as int, p as int) == render_segments(segs@),
    {
        let (first, mut p) = self.ident(pos)?;
        let mut segments: Vec<String> = Vec::new();
        segments.push(first);
        assert(self.tokens@.subrange(pos as int, p as int) =~= seq![Token::Ident(first)]);
        while self.is(p, Token::ColonColon)
            invariant
                self.wf(),
                pos < p <= self.tokens@.len(),
                segments@.len() >= 1,
                self.tokens@.subrange(pos as int, p as int) == render_segments(segments@),
                segs_end(self.tokens@, pos as int) == segs_loop(self.tokens@, p as int),
            decreases self.tokens@.len() - p,
        {
            let (s, q) = self.ident(p + 1)?;
            let ghost old_segs = segments@;
            segments.push(s);
            assert(segments@.drop_last() =~= old_segs);
            assert(self.tokens@.subrange(pos as int, q as int) =~= self.tokens@.subrange(pos as int, p as int)
                + seq![Token::ColonColon, Token::Ident(s)]);
            p = q;
        }
        Ok((segments, p))
    }

    /// `T, U, V]`: types separated by commas, through the closing bracket.
    fn parse_type_list(&self, pos: usize) -> (r: Result<(Vec<Type>, usize), ParseError>)
        requires
            self.wf(),
            pos <= self.tokens@.len(),
        ensures
            (r is Ok) == (type_list_end(self.tokens@, pos as int) is Some),
            r is Ok ==> type_list_end(self.tokens@, pos as int) == Some(r->Ok_0.1 as int),
            r matches Err(e) ==> !(e is Lexical),
            r matches Err(ParseError::UnexpectedToken { token, index, span }) ==> index < self.tokens@.len()
                && token == self.tokens@[index as int] && span == self.spans@[index as int],
            r matches Ok((ts, p)) ==> pos < p <= self.tokens@.len() && ts@.len() >= 1
                && self.tokens@.subrange(pos as int, p as int) == render_types(ts@) + seq![Token::RBracket],
        decreases self.tokens@.len() - pos, 13int,
    {
        let mut ts: Vec<Type> = Vec::new();
        let (t, mut p) = self.parse_type(pos)?;
        ts.push(t);
        assert(render_types(ts@) == render_type(ts@[0]));
        while self.is(p, Token::Comma)
            invariant
                self.wf(),
                pos < p <= self.tokens@.len(),
                ts@.len() >= 1,
                self.tokens@.subrange(pos as int, p as int) == render_types(ts@),
                type_list_end(self.tokens@, pos as int) == type_list_loop(self.tokens@, p as int),
            decreases self.tokens@.len() - p,
        {
            let (t, q) = self.parse_type(p + 1)?;
            let ghost old_ts = ts@;
            ts.push(t);
            assert(ts@.drop_last() =~= old_ts);
            assert(self.tokens@.subrange(pos as int, q as int) =~= self.tokens@.subrange(pos as int, p as int)
                + seq![Token::Comma] + self.tokens@.subrange(p + 1, q as int));
            p = q;
        }
        let q = self.expect(p, Token::RBracket)?;
        assert(self.tokens@.subrange(pos as int, q as int) =~= self.tokens@.subrange(pos as int, p as int)
            + seq![Token::RBracket]);
        Ok((ts, q))
    }

    /// A full type: a base type, optionally followed by `! ErrorPath`.
    pub fn parse_type(&self, pos: usize) -> (r: Result<(Type, usize), ParseError>)
        requires
            self.wf(),
            pos <= self.tokens@.len(),
        ensures
            (r is Ok) == (type_end(self.tokens@, pos as int) is Some),
            r is Ok ==> type_end(self.tokens@, pos as int) == Some(r->Ok_0.1 as int),
            r matches Err(e) ==> !(e is Lexical),
            r matches Err(ParseError::UnexpectedToken { token, index, span }) ==> index < self.tokens@.len()
                && token == self.tokens@[index as int] && span == self.spans@[index as int],
            r matches Ok((t, p)) ==> pos < p <= self.tokens@.len() && type_ok(t)
                && self.tokens@.subrange(pos as int, p as int) == render_type(t),
        decreases self.tokens@.len() - pos, 12int,
    {
        let (base, p) = self.parse_base_type(pos)?;
        if self.is(p, Token::Bang) {
            let (err, q) = self.parse_path(p + 1)?;
            let t = Type::ErrorUnion { ok_type: Box::new(base), err_type: err };
            assert(self.tokens@.subrange(pos as int, q as int) =~= self.tokens@.subrange(pos as int, p as int)
                + seq![Token::Bang] + self.tokens@.subrange(p + 1, q as int));
            Ok((t, q))
        } else {
            Ok((base, p))
        }
    }

    /// A type without a trailing `! E`: pointer, array, primitive or path.
    #[verifier::rlimit(100)]
    fn parse_base_type(&self, pos: usize) -> (r: Result<(Type, usize), ParseError>)
        requires
            self.wf(),
            pos <= self.tokens@.len(),
        ensures
            (r is Ok) == (base_type_end(self.tokens@, pos as int) is Some),
            r is Ok ==> base_type_end(self.tokens@, pos as int) == Some(r->Ok_0.1 as int),
            r matches Err(e) ==> !(e is Lexical),
            r matches Err(ParseError::UnexpectedToken { token, index, span }) ==> index < self.tokens@.len()
                && token == self.tokens@[index as int] && span == self.spans@[index as int],
            r matches Ok((t, p)) ==> pos < p <= self.tokens@.len() && type_ok(t) && !(t is ErrorUnion)
                && self.tokens@.subrange(pos as int, p as int) == render_type(t),
        decreases self.tokens@.len() - pos, 11int,
    {
        if pos >= self.tokens.len() {
            return Err(ParseError::UnexpectedEof);
        }
        let nullable = self.is(pos, Token::Question);
        let star = if nullable {
            pos + 1
        } else {
            pos
        };
        if self.is(star, Token::Star) {
            let mutable = self.is(star + 1, Token::Mut);
            let next = if mutable {
                star + 2
            } else {
                star + 1
            };
            let (element, p) = self.parse_base_type(next)?;
            let t = Type::Pointer { nullable, mutable, element_type: Box::new(element) };
            assert(self.tokens@.subrange(pos as int, p as int) =~= self.tokens@.subrange(pos as int, star as int)
                + seq![Token::Star] + self.tokens@.subrange(star + 1, next as int) + self.tokens@.subrange(next as int, p as int));
            assert(self.tokens@.subrange(pos as int, star as int) =~= (if nullable {
                seq![Token::Question]
            } else {
                Seq::<Token>::empty()
            }));
            assert(self.tokens@.subrange(star + 1, next as int) =~= (if mutable {
                seq![Token::Mut]
            } else {
                Seq::<Token>::empty()
            }));
            return Ok((t, p));
        }
        if nullable {
            return Err(self.unexpected(star));
        }
        if self.is(pos, Token::LBracket) {
            let (element, p) = self.parse_type(pos + 1)?;
            if self.is(p, Token::Semicolon) {
                let (size, q) = self.parse_expression(p + 1)?;
                let q2 = self.expect(q, Token::RBracket)?;
                let t = Type::Array { element_type: Box::new(element), size: Some(Box::new(size)) };
                assert(self.tokens@.subrange(pos as int, q2 as int) =~= seq![Token::LBracket]
                    + self.tokens@.subrange(pos + 1, p as int) + (seq![Token::Semicolon]
                    + self.tokens@.subrange(p + 1, q as int)) + seq![Token::RBracket]);
                return Ok((t, q2));
            }
            let p2 = self.expect(p, Token::RBracket)?;
            let t = Type::Array { element_type: Box::new(element), size: None };
            assert(self.tokens@.subrange(pos as int, p2 as int) =~= seq![Token::LBracket]
                + self.tokens@.subrange(pos + 1, p as int) + Seq::<Token>::empty() + seq![Token::RBracket]);
            return Ok((t, p2));
        }
        match self.primitive(pos) {
            Some(t) => {
                assert(self.tokens@.subrange(pos as int, pos + 1) =~= seq![self.tokens@[pos as int]]);
                Ok((t, pos + 1))
            },
            None => {
                let (path, p) = self.parse_path(pos)?;
                Ok((Type::Path(path), p))
            },
        }
    }

    /// An expression.
    pub fn parse_expression(&self, pos: usize) -> (r: Result<(Expression, usize), ParseError>)
        requires
            self.wf(),
            pos <= self.tokens@.len(),
        ensures
            (r is Ok) == (expr_end(self.tokens@, pos as int) is Some),
            r is Ok ==> expr_end(self.tokens@, pos as int) == Some(r->Ok_0.1 as int),
            r matches Err(e) ==> !(e is Lexical),
            r matches Err(ParseError::UnexpectedToken { token, index, span }) ==> index < self.tokens@.len()
                && token == self.tokens@[index as int] && span == self.spans@[index as int],
            r matches Ok((e, p)) ==> pos < p <= self.tokens@.len() && prec_ok(e)
                && self.tokens@.subrange(pos as int, p as int) == render_expr(e),
        decreases self.tokens@.len() - pos, 30int,
    {
        self.parse_binary(pos, 1)
    }

    /// The binary operator of strength `level` that the token at `pos` spells.
    fn binop_at(&self, pos: usize, level: u8) -> (r: Option<BinaryOperator>)
        requires
            1 <= level <= 10,
        ensures
            (r is Some) == (binop_level(self.tokens@, pos as int) == level as int),
            r matches Some(op) ==> binop_prec(op) == level && pos < self.tokens@.len()
                && self.tokens@[pos as int] == binop_token(op),
    {
        if pos >= self.tokens.len() {
            return None;
        }
        let op = match &self.tokens[pos] {
            Token::OrOr => BinaryOperator::LogicalOr,
            Token::AndAnd => BinaryOperator::LogicalAnd,
            Token::Or => BinaryOperator::BitwiseOr,
            Token::Caret => BinaryOperator::BitwiseXor,
            Token::And => BinaryOperator::BitwiseAnd,
            Token::EqEq => BinaryOperator::Equal,
            Token::Ne => BinaryOperator::NotEqual,
            Token::Lt => BinaryOperator::LessThan,
            Token::Gt => BinaryOperator::GreaterThan,
            Token::Le => BinaryOperator::LessThanOrEqual,
            Token::Ge => BinaryOperator::GreaterThanOrEqual,
            Token::Shl => BinaryOperator::ShiftLeft,
            Token::Shr => BinaryOperator::ShiftRight,
            Token::Plus => BinaryOperator::Add,
            Token::Minus => BinaryOperator::Subtract,
            Token::Star => BinaryOperator::Multiply,
            Token::Slash => BinaryOperator::Divide,
            Token::Percent => BinaryOperator::Modulo,
            _ => {
                return None;
            },
        };
        let l: u8 = match op {
            BinaryOperator::LogicalOr => 1,
            BinaryOperator::LogicalAnd => 2,
            BinaryOperator::BitwiseOr => 3,
            BinaryOperator::BitwiseXor => 4,
            BinaryOperator::BitwiseAnd => 5,
            BinaryOperator::Equal | BinaryOperator::NotEqual => 6,
            BinaryOperator::LessThan | BinaryOperator::GreaterThan | BinaryOperator::LessThanOrEqual
            | BinaryOperator::GreaterThanOrEqual => 7,
            BinaryOperator::ShiftLeft | BinaryOperator::ShiftRight => 8,
            BinaryOperator::Add | BinaryOperator::Subtract => 9,
            _ => 10,
        };
        if l == level {
            Some(op)
        } else {
            None
        }
    }

    /// The prefix operator the token at `pos` spells.
    fn unop_at(&self, pos: usize) -> (r: Option<UnaryOperator>)
        ensures
            (r is Some) == unop_at_spec(self.tokens@, pos as int),
            r matches Some(op) ==> pos < self.tokens@.len() && self.tokens@[pos as int] == unop_token(op),
    {
        if pos >= self.tokens.len() {
            return None;
        }
        match &self.tokens[pos] {
            Token::Bang => Some(UnaryOperator::LogicalNot),
            Token::Tilde => Some(UnaryOperator::BitwiseNot),
            Token::Minus => Some(UnaryOperator::Negate),
            Token::Plus => Some(UnaryOperator::Plus),
            Token::And => Some(UnaryOperator::AddressOf),
            Token::Star => Some(UnaryOperator::Dereference),
            _ => None,
        }
    }

    /// Operators of strength `level` and tighter, left associative.
    fn parse_binary(&self, pos: usize, level: u8) -> (r: Result<(Expression, usize), ParseError>)
        requires
            self.wf(),
            pos <= self.tokens@.len(),
            1 <= level <= 10,
        ensures
            (r is Ok) == (bin_end(self.tokens@, pos as int, level as int) is Some),
            r is Ok ==> bin_end(self.tokens@, pos as int, level as int) == Some(r->Ok_0.1 as int),
            r matches Err(e) ==> !(e is Lexical),
            r matches Err(ParseError::UnexpectedToken { token, index, span }) ==> index < self.tokens@.len()
                && token == self.tokens@[index as int] && span == self.spans@[index as int],
            r matches Ok((e, p)) ==> pos < p <= self.tokens@.len() && prec_ok(e) && expr_prec(e) >= level
                && self.tokens@.subrange(pos as int, p as int) == render_expr(e),
        decreases self.tokens@.len() - pos, 29 - level,
    {
        let (mut lhs, mut p) = if level == 10 {
            self.parse_unary(pos)?
        } else {
            self.parse_binary(pos, level + 1)?
        };
        loop
            invariant
                self.wf(),
                1 <= level <= 10,
                pos < p <= self.tokens@.len(),
                prec_ok(lhs),
                expr_prec(lhs) >= level,
                self.tokens@.subrange(pos as int, p as int) == render_expr(lhs),
                bin_end(self.tokens@, pos as int, level as int) == bin_loop(self.tokens@, p as int, level as int),
            decreases self.tokens@.len() - p,
        {
            match self.binop_at(p, level) {
                None => {
                    return Ok((lhs, p));
                },
                Some(op) => {
                    let (rhs, q) = if level == 10 {
                        self.parse_unary(p + 1)?
                    } else {
                        self.parse_binary(p + 1, level + 1)?
                    };
                    assert(self.tokens@.subrange(pos as int, q as int) =~= self.tokens@.subrange(pos as int, p as int)
                        + seq![binop_token(op)] + self.tokens@.subrange(p + 1, q as int));
                    lhs = Expression::BinaryOp(BinaryOpExpr { lhs: Box::new(lhs), op, rhs: Box::new(rhs) });
                    p = q;
                },
            }
        }
    }

    /// Prefix operators, then a postfix expression.
    fn parse_unary(&self, pos: usize) -> (r: Result<(Expression, usize), ParseError>)
        requires
            self.wf(),
            pos <= self.tokens@.len(),
        ensures
            (r is Ok) == (unary_end(self.tokens@, pos as int) is Some),
            r is Ok ==> unary_end(self.tokens@, pos as int) == Some(r->Ok_0.1 as int),
            r matches Err(e) ==> !(e is Lexical),
            r matches Err(ParseError::UnexpectedToken { token, index, span }) ==> index < self.tokens@.len()
                && token == self.tokens@[index as int] && span == self.spans@[index as int],
            r matches Ok((e, p)) ==> pos < p <= self.tokens@.len() && prec_ok(e) && expr_prec(e) >= 11
                && self.tokens@.subrange(pos as int, p as int) == render_expr(e),
        decreases self.tokens@.len() - pos, 15int,
    {
        match self.unop_at(pos) {
            Some(op) => {
                let (operand, p) = self.parse_unary(pos + 1)?;
                assert(self.tokens@.subrange(pos as int, p as int) =~= seq![unop_token(op)]
                    + self.tokens@.subrange(pos + 1, p as int));
                Ok((Expression::UnaryOp(UnaryOpExpr { op, operand: Box::new(operand) }), p))
            },
            None => self.parse_postfix(pos),
        }
    }

    /// A primary expression followed by calls, indexing, field accesses,
    /// type accesses and casts.
    fn parse_postfix(&self, pos: usize) -> (r: Result<(Expression, usize), ParseError>)
        requires
            self.wf(),
            pos <= self.tokens@.len(),
        ensures
            (r is Ok) == (postfix_end(self.tokens@, pos as int) is Some),
            r is Ok ==> postfix_end(self.tokens@, pos as int) == Some(r->Ok_0.1 as int),
            r matches Err(e) ==> !(e is Lexical),
            r matches Err(ParseError::UnexpectedToken { token, index, span }) ==> index < self.tokens@.len()
                && token == self.tokens@[index as int] && span == self.spans@[index as int],
            r matches Ok((e, p)) ==> pos < p <= self.tokens@.len() && prec_ok(e) && expr_prec(e) == 12
                && self.tokens@.subrange(pos as int, p as int) == render_expr(e),
        decreases self.tokens@.len() - pos, 14int,
    {
        let (mut e, mut p) = self.parse_primary(pos)?;
        loop
            invariant
                self.wf(),
                pos < p <= self.tokens@.len(),
                prec_ok(e),
                expr_prec(e) == 12,
                self.tokens@.subrange(pos as int, p as int) == render_expr(e),
                postfix_end(self.tokens@, pos as int) == postfix_loop(self.tokens@, p as int),
            decreases self.tokens@.len() - p,
        {
            let (e2, q, done) = self.postfix_step(pos, e, p)?;
            if done {
                return Ok((e2, q));
            }
            e = e2;
            p = q;
        }
    }

    /// One postfix form applied to `e`, which spans `pos..p`: the extended
    /// expression and where it ends, or `done` when no postfix form follows.
    #[verifier::rlimit(100)]
    fn postfix_step(&self, pos: usize, e: Expression, p: usize) -> (r: Result<(Expression, usize, bool), ParseError>)
        requires
            self.wf(),
            pos < p <= self.tokens@.len(),
            prec_ok(e),
            expr_prec(e) == 12,
            self.tokens@.subrange(pos as int, p as int) == render_expr(e),
        ensures
            r matches Err(err) ==> !(err is Lexical) && postfix_loop(self.tokens@, p as int) is None,
            r matches Err(ParseError::UnexpectedToken { token, index, span }) ==> index < self.tokens@.len()
                && token == self.tokens@[index as int] && span == self.spans@[index as int],
            r matches Ok((e2, q, done)) ==> if done {
                q == p && e2 == e && postfix_loop(self.tokens@, p as int) == Some(p as int)
            } else {
                p < q <= self.tokens@.len() && postfix_loop(self.tokens@, p as int) == postfix_loop(
                    self.tokens@,
                    q as int,
                ) && prec_ok(e2) && expr_prec(e2) == 12 && self.tokens@.subrange(pos as int, q as int)
                    == render_expr(e2)
            },
        decreases self.tokens@.len() - p, 0int,
    {
        if self.is(p, Token::LParen) {
            let (args, q) = self.parse_expression_list(p + 1, Token::RParen)?;
            assert(self.tokens@.subrange(pos as int, q as int) =~= self.tokens@.subrange(pos as int, p as int)
                + seq![Token::LParen] + self.tokens@.subrange(p + 1, q as int));
            Ok((Expression::Call(CallExpr { callee: Box::new(e), args }), q, false))
        } else if self.is(p, Token::LBracket) {
            let (index, q) = self.parse_expression(p + 1)?;
            let q2 = self.expect(q, Token::RBracket)?;
            assert(self.tokens@.subrange(pos as int, q2 as int) =~= self.tokens@.subrange(pos as int, p as int)
                + seq![Token::LBracket] + self.tokens@.subrange(p + 1, q as int) + seq![Token::RBracket]);
            Ok((Expression::Index(IndexExpr { object: Box::new(e), index: Box::new(index) }), q2, false))
        } else if self.is(p, Token::Dot) {
            let (field, q) = self.ident(p + 1)?;
            assert(self.tokens@.subrange(pos as int, q as int) =~= self.tokens@.subrange(pos as int, p as int)
                + seq![Token::Dot, Token::Ident(field)]);
            Ok((Expression::FieldAccess(FieldAccessExpr { object: Box::new(e), field }), q, false))
        } else if self.is(p, Token::ColonColon) {
            let (member, q) = self.ident(p + 1)?;
            assert(self.tokens@.subrange(pos as int, q as int) =~= self.tokens@.subrange(pos as int, p as int)
                + seq![Token::ColonColon, Token::Ident(member)]);
            Ok((Expression::TypeAccess(TypeAccessExpr { object: Box::new(e), member }), q, false))
        } else if self.is(p, Token::As) {
            let (t, q) = self.parse_type(p + 1)?;
            assert(self.tokens@.subrange(pos as int, q as int) =~= self.tokens@.subrange(pos as int, p as int)
                + seq![Token::As] + self.tokens@.subrange(p + 1, q as int));
            Ok((Expression::Cast(CastExpr { expr: Box::new(e), target_type: Box::new(t) }), q, false))
        } else {
            Ok((e, p, true))
        }
    }

    /// Expressions separated by commas, through the token `close`; possibly none.
    fn parse_expression_list(&self, pos: usize, close: Token) -> (r: Result<(Vec<Expression>, usize), ParseError>)
        requires
            self.wf(),
            pos <= self.tokens@.len(),
        ensures
            is_unit(close) ==> (r is Ok) == (expr_list_end(self.tokens@, pos as int, close) is Some),
            is_unit(close) ==> (r is Ok ==> expr_list_end(self.tokens@, pos as int, close) == Some(r->Ok_0.1 as int)),
            r matches Err(e) ==> !(e is Lexical),
            r matches Err(ParseError::UnexpectedToken { token, index, span }) ==> index < self.tokens@.len()
                && token == self.tokens@[index as int] && span == self.spans@[index as int],
            r matches Ok((es, p)) ==> pos < p <= self.tokens@.len()
                && self.tokens@.subrange(pos as int, p as int) == render_exprs(es@) + seq![close],
        decreases self.tokens@.len() - pos, 31int,
    {
        let mut es: Vec<Expression> = Vec::new();
        if self.is(pos, close.copy()) {
            assert(self.tokens@.subrange(pos as int, pos + 1) =~= Seq::<Token>::empty() + seq![close]);
            return Ok((es, pos + 1));
        }
        let (e, mut p) = self.parse_expression(pos)?;
        es.push(e);
        assert(render_exprs(es@) == render_expr(es@[0]));
        while self.is(p, Token::Comma)
            invariant
                self.wf(),
                pos < p <= self.tokens@.len(),
                es@.len() >= 1,
                self.tokens@.subrange(pos as int, p as int) == render_exprs(es@),
                is_unit(close) ==> expr_list_end(self.tokens@, pos as int, close) == expr_list_loop(self.tokens@, p as int, close),
            decreases self.tokens@.len() - p,
        {
            let (e, q) = self.parse_expression(p + 1)?;
            let ghost old_es = es@;
            es.push(e);
            assert(es@.drop_last() =~= old_es);
            assert(self.tokens@.subrange(pos as int, q as int) =~= self.tokens@.subrange(pos as int, p as int)
                + seq![Token::Comma] + self.tokens@.subrange(p + 1, q as int));
            p = q;
        }
        let q = self.expect(p, close)?;
        assert(self.tokens@.subrange(pos as int, q as int) =~= self.tokens@.subrange(pos as int, p as int)
            + seq![self.tokens@[p as int]]);
        Ok((es, q))
    }

    /// A literal, a path, a parenthesized expression or an array literal.
    fn parse_primary(&self, pos: usize) -> (r: Result<(Expression, usize), ParseError>)
        requires
            self.wf(),
            pos <= self.tokens@.len(),
        ensures
            (r is Ok) == (primary_end(self.tokens@, pos as int) is Some),
            r is Ok ==> primary_end(self.tokens@, pos as int) == Some(r->Ok_0.1 as int),
            r matches Err(e) ==> !(e is Lexical),
            r matches Err(ParseError::UnexpectedToken { token, index, span }) ==> index < self.tokens@.len()
                && token == self.tokens@[index as int] && span == self.spans@[index as int],
            r matches Ok((e, p)) ==> pos < p <= self.tokens@.len() && prec_ok(e) && expr_prec(e) == 12
                && self.tokens@.subrange(pos as int, p as int) == render_expr(e),
        decreases self.tokens@.len() - pos, 13int,
    {
        if pos >= self.tokens.len() {
            return Err(ParseError::UnexpectedEof);
        }
        let ghost one = self.tokens@.subrange(pos as int, pos + 1);
        assert(one =~= seq![self.tokens@[pos as int]]);
        match &self.tokens[pos] {
            Token::IntegerLiteral(l) => Ok((Expression::IntegerLiteral(l.copy()), pos + 1)),
            Token::FloatLiteral(l) => Ok((Expression::FloatLiteral(l.copy()), pos + 1)),
            Token::True => Ok((Expression::BooleanLiteral(true), pos + 1)),
            Token::False => Ok((Expression::BooleanLiteral(false), pos + 1)),
            Token::CharLiteral(s) => Ok((Expression::CharLiteral(s.clone()), pos + 1)),
            Token::StringLiteral(s) => Ok((Expression::StringLiteral(s.clone()), pos + 1)),
            Token::OkLiteral => Ok((Expression::OkLiteral, pos + 1)),
            Token::InterpolatedString(s) => {
                let parts = parse_interp_parts(s.clone());
                Ok((Expression::InterpolatedString(InterpolatedStringExpr { raw: s.clone(), parts }), pos + 1))
            },
            Token::Ident(_) => {
                let (segments, p) = self.parse_segments(pos)?;
                let path = Path { segments, generic_args: Vec::new() };
                assert(render_path(path) =~= render_segments(path.segments@));
                Ok((Expression::Path(path), p))
            },
            Token::LParen => {
                let (inner, p) = self.parse_expression(pos + 1)?;
                let q = self.expect(p, Token::RParen)?;
                assert(self.tokens@.subrange(pos as int, q as int) =~= seq![Token::LParen]
                    + self.tokens@.subrange(pos + 1, p as int) + seq![Token::RParen]);
                Ok((Expression::Parenthesized(Box::new(inner)), q))
            },
            Token::LBracket => {
                let (elements, p) = self.parse_expression_list(pos + 1, Token::RBracket)?;
                assert(self.tokens@.subrange(pos as int, p as int) =~= seq![Token::LBracket]
                    + self.tokens@.subrange(pos + 1, p as int));
                Ok((Expression::ArrayLiteral(ArrayLiteralExpr { elements }), p))
            },
            _ => Err(self.unexpected(pos)),
        }
    }

    /// `a::b::c` in expression position (brackets after it index).
    fn parse_expr_path(&self, pos: usize) -> (r: Result<(Path, usize), ParseError>)
        requires
            self.wf(),
            pos <= self.tokens@.len(),
        ensures
            (r is Ok) == (segs_end(self.tokens@, pos as int) is Some),
            r is Ok ==> segs_end(self.tokens@, pos as int) == Some(r->Ok_0.1 as int),
            r matches Err(e) ==> !(e is Lexical),
            r matches Err(ParseError::UnexpectedToken { token, index, span }) ==> index < self.tokens@.len()
                && token == self.tokens@[index as int] && span == self.spans@[index as int],
            r matches Ok((path, p)) ==> pos < p <= self.tokens@.len() && path.segments@.len() >= 1
                && self.tokens@.subrange(pos as int, p as int) == render_path(path),
    {
        let (segments, p) = self.parse_segments(pos)?;
        let path = Path { segments, generic_args: Vec::new() };
        assert(render_path(path) =~= render_segments(path.segments@));
        Ok((path, p))
    }
}

/// The clauses a declaration header may be followed by, already parsed.
struct Clauses {
    where_clause: Vec<GenericParameter>,
    requires: Vec<Type>,
    extends: Vec<Type>,
}

impl Parser {
    /// Skips any newlines at `pos`.
    fn skip_newlines(&self, pos: usize) -> (r: usize)
        requires
            self.wf(),
            pos <= self.tokens@.len(),
        ensures
            pos <= r <= self.tokens@.len(),
            forall|i: int| pos <= i < r ==> self.tokens@[i] == Token::Newline,
            r < self.tokens@.len() ==> self.tokens@[r as int] != Token::Newline,
            r == skip_nl(self.tokens@, pos as int),
    {
        let mut p = pos;
        while self.is(p, Token::Newline)
            invariant
                skip_nl(self.tokens@, pos as int) == skip_nl(self.tokens@, p as int),
                self.wf(),
                pos <= p <= self.tokens@.len(),
                forall|i: int| pos <= i < p ==> self.tokens@[i] == Token::Newline,
            decreases self.tokens@.len() - p,
        {
            p = p + 1;
        }
        p
    }

    /// The end of a line: newlines are consumed; a `Dedent` or the end of
    /// input ends the line without being consumed.
    fn line_end(&self, pos: usize) -> (r: Result<usize, ParseError>)
        requires
            self.wf(),
            pos <= self.tokens@.len(),
        ensures
            (r is Ok) == (line_end_spec(self.tokens@, pos as int) is Some),
            r matches Ok(q) ==> line_end_spec(self.tokens@, pos as int) == Some(q as int),
            r matches Err(e) ==> !(e is Lexical),
            r matches Err(ParseError::UnexpectedToken { token, index, span }) ==> index < self.tokens@.len()
                && token == self.tokens@[index as int] && span == self.spans@[index as int],
            r matches Ok(p) ==> pos <= p <= self.tokens@.len(),
    {
        if pos >= self.tokens.len() || self.is(pos, Token::Dedent) {
            Ok(pos)
        } else if self.is(pos, Token::Newline) {
            Ok(self.skip_newlines(pos))
        } else {
            Err(self.unexpected(pos))
        }
    }

    /// Whether an indented block starts at `pos`: a newline, then `Indent`.
    fn block_starts(&self, pos: usize) -> (r: bool)
        requires
            self.wf(),
            pos <= self.tokens@.len(),
        ensures
            r == block_starts_spec(self.tokens@, pos as int),
    {
        let p = self.skip_newlines(pos);
        p > pos && self.is(p, Token::Indent)
    }

    /// Consumes the newlines and the `Indent` that open a block.
    fn open_block(&self, pos: usize) -> (r: Result<usize, ParseError>)
        requires
            self.wf(),
            pos <= self.tokens@.len(),
        ensures
            (r is Ok) == (open_block_spec(self.tokens@, pos as int) is Some),
            r matches Ok(q) ==> open_block_spec(self.tokens@, pos as int) == Some(q as int),
            r matches Err(e) ==> !(e is Lexical),
            r matches Err(ParseError::UnexpectedToken { token, index, span }) ==> index < self.tokens@.len()
                && token == self.tokens@[index as int] && span == self.spans@[index as int],
            r matches Ok(p) ==> pos < p <= self.tokens@.len(),
    {
        let p = self.expect(pos, Token::Newline)?;
        let p = self.skip_newlines(p);
        self.expect(p, Token::Indent)
    }

    /// Bounds `A + B + C`.
    fn parse_bounds(&self, pos: usize) -> (r: Result<(Vec<Type>, usize), ParseError>)
        requires
            self.wf(),
            pos <= self.tokens@.len(),
        ensures
            (r is Ok) == (bounds_end(self.tokens@, pos as int) is Some),
            r is Ok ==> bounds_end(self.tokens@, pos as int) == Some(r->Ok_0.1 as int),
            r matches Err(e) ==> !(e is Lexical),
            r matches Err(ParseError::UnexpectedToken { token, index, span }) ==> index < self.tokens@.len()
                && token == self.tokens@[index as int] && span == self.spans@[index as int],
            r matches Ok((bs, p)) ==> pos < p <= self.tokens@.len() && bs@.len() >= 1
                && self.tokens@.subrange(pos as int, p as int) == render_bounds(bs@),
    {
        let mut bs: Vec<Type> = Vec::new();
        let (t, mut p) = self.parse_type(pos)?;
        bs.push(t);
        assert(render_bounds(bs@) == render_type(bs@[0]));
        while self.is(p, Token::Plus)
            invariant
                self.wf(),
                pos < p <= self.tokens@.len(),
                bs@.len() >= 1,
                self.tokens@.subrange(pos as int, p as int) == render_bounds(bs@),
                bounds_end(self.tokens@, pos as int) == bounds_loop(self.tokens@, p as int),
            decreases self.tokens@.len() - p,
        {
            let (t, q) = self.parse_type(p + 1)?;
            let ghost old_bs = bs@;
            bs.push(t);
            assert(bs@.drop_last() =~= old_bs);
            assert(self.tokens@.subrange(pos as int, q as int) =~= self.tokens@.subrange(pos as int, p as int)
                + seq![Token::Plus] + self.tokens@.subrange(p + 1, q as int));
            p = q;
        }
        Ok((bs, p))
    }

    /// One generic parameter: `const N: T`, or `T`, `T: Bounds`, `T = D`, `T: Bounds = D`.
    #[verifier::rlimit(100)]
    fn parse_generic_param(&self, pos: usize) -> (r: Result<(GenericParameter, usize), ParseError>)
        requires
            self.wf(),
            pos <= self.tokens@.len(),
        ensures
            (r is Ok) == (generic_param_end(self.tokens@, pos as int) is Some),
            r is Ok ==> generic_param_end(self.tokens@, pos as int) == Some(r->Ok_0.1 as int),
            r matches Err(e) ==> !(e is Lexical),
            r matches Err(ParseError::UnexpectedToken { token, index, span }) ==> index < self.tokens@.len()
                && token == self.tokens@[index as int] && span == self.spans@[index as int],
            r matches Ok((g, p)) ==> pos < p <= self.tokens@.len()
                && self.tokens@.subrange(pos as int, p as int) == render_generic_param(g),
    {
        if self.is(pos, Token::Const) {
            let (name, p1) = self.ident(pos + 1)?;
            let p2 = self.expect(p1, Token::Colon)?;
            let (ty, p3) = self.parse_type(p2)?;
            assert(self.tokens@.subrange(pos as int, p3 as int) =~= seq![Token::Const, Token::Ident(name), Token::Colon]
                + self.tokens@.subrange(p2 as int, p3 as int));
            return Ok((GenericParameter::Const { name, ty }, p3));
        }
        let (name, p0) = self.ident(pos)?;
        let mut p = p0;
        let mut bounds: Vec<Type> = Vec::new();
        if self.is(p, Token::Colon) {
            let (bs, q) = self.parse_bounds(p + 1)?;
            assert(self.tokens@.subrange(p as int, q as int) =~= seq![Token::Colon] + self.tokens@.subrange(p + 1, q as int));
            bounds = bs;
            p = q;
        } else {
            assert(self.tokens@.subrange(p as int, p as int) =~= Seq::<Token>::empty());
        }
        let pb = p;
        let mut default: Option<Box<Type>> = None;
        if self.is(p, Token::Eq) {
            let (t, q) = self.parse_type(p + 1)?;
            assert(self.tokens@.subrange(p as int, q as int) =~= seq![Token::Eq] + self.tokens@.subrange(p + 1, q as int));
            default = Some(Box::new(t));
            p = q;
        } else {
            assert(self.tokens@.subrange(p as int, p as int) =~= Seq::<Token>::empty());
        }
        let g = GenericParameter::Type { name, bounds, default };
        assert(self.tokens@.subrange(pos as int, p as int) =~= self.tokens@.subrange(pos as int, p0 as int)
            + self.tokens@.subrange(p0 as int, pb as int) + self.tokens@.subrange(pb as int, p as int));
        Ok((g, p))
    }

    /// `[P, P, ...]` if present at `pos`; otherwise no parameters.
    pub fn parse_generic_params(&self, pos: usize) -> (r: Result<(Vec<GenericParameter>, usize), ParseError>)
        requires
            self.wf(),
            pos <= self.tokens@.len(),
        ensures
            (r is Ok) == (generic_params_end(self.tokens@, pos as int) is Some),
            r is Ok ==> generic_params_end(self.tokens@, pos as int) == Some(r->Ok_0.1 as int),
            r matches Err(e) ==> !(e is Lexical),
            r matches Err(ParseError::UnexpectedToken { token, index, span }) ==> index < self.tokens@.len()
                && token == self.tokens@[index as int] && span == self.spans@[index as int],
            r matches Ok((gs, p)) ==> pos <= p <= self.tokens@.len() && (if pos < self.tokens@.len()
                && self.tokens@[pos as int] == Token::LBracket {
                gs@.len() >= 1 && self.tokens@.subrange(pos as int, p as int) == seq![Token::LBracket]
                    + render_generic_params(gs@) + seq![Token::RBracket]
            } else {
                gs@.len() == 0 && p == pos
            }),
    {
        let mut gs: Vec<GenericParameter> = Vec::new();
        if !self.is(pos, Token::LBracket) {
            return Ok((gs, pos));
        }
        let (g, mut p) = self.parse_generic_param(pos + 1)?;
        gs.push(g);
        assert(render_generic_params(gs@) == render_generic_param(gs@[0]));
        while self.is(p, Token::Comma)
            invariant
                self.wf(),
                pos < p <= self.tokens@.len(),
                gs@.len() >= 1,
                self.tokens@.subrange(pos + 1, p as int) == render_generic_params(gs@),
                generic_params_end(self.tokens@, pos as int) == generic_list_loop(self.tokens@, p as int),
            decreases self.tokens@.len() - p,
        {
            let (g, q) = self.parse_generic_param(p + 1)?;
            let ghost old_gs = gs@;
            gs.push(g);
            assert(gs@.drop_last() =~= old_gs);
            assert(self.tokens@.subrange(pos + 1, q as int) =~= self.tokens@.subrange(pos + 1, p as int)
                + seq![Token::Comma] + self.tokens@.subrange(p + 1, q as int));
            p = q;
        }
        let q = self.expect(p, Token::RBracket)?;
        assert(self.tokens@.subrange(pos as int, q as int) =~= seq![Token::LBracket]
            + self.tokens@.subrange(pos + 1, p as int) + seq![Token::RBracket]);
        Ok((gs, q))
    }

    /// The lines of a `where` block after its keyword: `name: Bounds` each.
    fn parse_where_block(&self, pos: usize) -> (r: Result<(Vec<GenericParameter>, usize), ParseError>)
        requires
            self.wf(),
            pos <= self.tokens@.len(),
        ensures
            (r is Ok) == (where_block_end(self.tokens@, pos as int) is Some),
            r is Ok ==> where_block_end(self.tokens@, pos as int) == Some(r->Ok_0.1 as int),
            r matches Err(e) ==> !(e is Lexical),
            r matches Err(ParseError::UnexpectedToken { token, index, span }) ==> index < self.tokens@.len()
                && token == self.tokens@[index as int] && span == self.spans@[index as int],
            r matches Ok((gs, p)) ==> pos < p <= self.tokens@.len(),
    {
        let mut gs: Vec<GenericParameter> = Vec::new();
        let mut p = self.open_block(pos)?;
        loop
            invariant
                where_block_end(self.tokens@, pos as int) == where_loop(self.tokens@, p as int),
                self.wf(),
                pos < p <= self.tokens@.len(),
            decreases self.tokens@.len() - p,
        {
            if self.is(p, Token::Dedent) {
                return Ok((gs, p + 1));
            }
            let (name, q) = self.ident(p)?;
            let q = self.expect(q, Token::Colon)?;
            let (bounds, q) = self.parse_bounds(q)?;
            gs.push(GenericParameter::Type { name, bounds, default: None });
            p = self.line_end(q)?;
        }
    }

    /// The lines of a `requires` or `extends` block after its keyword: one type each.
    fn parse_type_block(&self, pos: usize) -> (r: Result<(Vec<Type>, usize), ParseError>)
        requires
            self.wf(),
            pos <= self.tokens@.len(),
        ensures
            (r is Ok) == (type_block_end(self.tokens@, pos as int) is Some),
            r is Ok ==> type_block_end(self.tokens@, pos as int) == Some(r->Ok_0.1 as int),
            r matches Err(e) ==> !(e is Lexical),
            r matches Err(ParseError::UnexpectedToken { token, index, span }) ==> index < self.tokens@.len()
                && token == self.tokens@[index as int] && span == self.spans@[index as int],
            r matches Ok((ts, p)) ==> pos < p <= self.tokens@.len(),
    {
        let mut ts: Vec<Type> = Vec::new();
        let mut p = self.open_block(pos)?;
        loop
            invariant
                type_block_end(self.tokens@, pos as int) == type_block_loop(self.tokens@, p as int),
                self.wf(),
                pos < p <= self.tokens@.len(),
            decreases self.tokens@.len() - p,
        {
            if self.is(p, Token::Dedent) {
                return Ok((ts, p + 1));
            }
            let (t, q) = self.parse_type(p)?;
            ts.push(t);
            p = self.line_end(q)?;
        }
    }

    /// A `where`, `requires` or `extends` clause at `pos`, added to `cl`.
    /// Returns the position after it, or `pos` when no clause starts there.
    fn parse_clause(&self, pos: usize, cl: &mut Clauses) -> (r: Result<usize, ParseError>)
        requires
            self.wf(),
            pos <= self.tokens@.len(),
        ensures
            (r is Ok) == (clause_end(self.tokens@, pos as int) is Some),
            r matches Ok(q) ==> clause_end(self.tokens@, pos as int) == Some(q as int),
            r matches Err(e) ==> !(e is Lexical),
            r matches Err(ParseError::UnexpectedToken { token, index, span }) ==> index < self.tokens@.len()
                && token == self.tokens@[index as int] && span == self.spans@[index as int],
            r matches Ok(p) ==> pos <= p <= self.tokens@.len(),
    {
        if self.is_word(pos, "where") {
            let (mut gs, p) = self.parse_where_block(pos + 1)?;
            cl.where_clause.append(&mut gs);
            Ok(self.skip_newlines(p))
        } else if self.is_word(pos, "requires") {
            let (mut ts, p) = self.parse_type_block(pos + 1)?;
            cl.requires.append(&mut ts);
            Ok(self.skip_newlines(p))
        } else if self.is_word(pos, "extends") {
            let (mut ts, p) = self.parse_type_block(pos + 1)?;
            cl.extends.append(&mut ts);
            Ok(self.skip_newlines(p))
        } else {
            Ok(pos)
        }
    }

    /// `type Name[params] = T`, or with a `where` block between header and `= T`.
    pub fn parse_type_alias(&self, pos: usize) -> (r: Result<(TypeAlias, usize), ParseError>)
        requires
            self.wf(),
            pos <= self.tokens@.len(),
        ensures
            (r is Ok) == (type_alias_end(self.tokens@, pos as int) is Some),
            r is Ok ==> type_alias_end(self.tokens@, pos as int) == Some(r->Ok_0.1 as int),
            r matches Err(e) ==> !(e is Lexical),
            r matches Err(ParseError::UnexpectedToken { token, index, span }) ==> index < self.tokens@.len()
                && token == self.tokens@[index as int] && span == self.spans@[index as int],
            r matches Ok((a, p)) ==> pos + 1 < p <= self.tokens@.len() && self.tokens@[pos as int] == Token::Type
                && self.tokens@[pos + 1] == Token::Ident(a.name),
    {
        let p = self.expect(pos, Token::Type)?;
        let (name, p) = self.ident(p)?;
        let (generic_params, p) = self.parse_generic_params(p)?;
        if self.is(p, Token::Eq) {
            let (aliased_type, p) = self.parse_type(p + 1)?;
            return Ok((TypeAlias { name, generic_params, aliased_type }, p));
        }
        let p = self.open_block(p)?;
        if !self.is_word(p, "where") {
            return Err(self.unexpected(p));
        }
        let (where_clause, p) = self.parse_where_block(p + 1)?;
        let p = self.expect(p, Token::Eq)?;
        let (aliased_type, p) = self.parse_type(p)?;
        let p = self.line_end(p)?;
        let p = self.expect(p, Token::Dedent)?;
        let generic_params = merge_where_clause(generic_params, where_clause);
        Ok((TypeAlias { name, generic_params, aliased_type }, p))
    }

    /// `struct Name[params]` and an indented block of clauses and `name: T` fields.
    #[verifier::rlimit(100)]
    pub fn parse_struct(&self, pos: usize) -> (r: Result<(Struct, usize), ParseError>)
        requires
            self.wf(),
            pos <= self.tokens@.len(),
        ensures
            (r is Ok) == (record_end(self.tokens@, pos as int, Token::Struct) is Some),
            r is Ok ==> record_end(self.tokens@, pos as int, Token::Struct) == Some(r->Ok_0.1 as int),
            r matches Err(e) ==> !(e is Lexical),
            r matches Err(ParseError::UnexpectedToken { token, index, span }) ==> index < self.tokens@.len()
                && token == self.tokens@[index as int] && span == self.spans@[index as int],
            r matches Ok((s, p)) ==> pos + 1 < p <= self.tokens@.len() && self.tokens@[pos as int] == Token::Struct
                && self.tokens@[pos + 1] == Token::Ident(s.name)
                && merged_generics_at(self.tokens@, pos + 2, s.generic_params@),
    {
        let p = self.expect(pos, Token::Struct)?;
        let (name, p) = self.ident(p)?;
        let (generic_params, mut p) = self.parse_generic_params(p)?;
        let ghost hdr = generic_params@;
        proof {
            lemma_generics_at(self.tokens@, pos + 2, hdr, p as int);
        }
        let mut cl = Clauses { where_clause: Vec::new(), requires: Vec::new(), extends: Vec::new() };
        let mut fields: Vec<StructField> = Vec::new();
        if self.block_starts(p) {
            p = self.open_block(p)?;
            loop
                invariant_except_break
                    record_end(self.tokens@, pos as int, Token::Struct) == field_loop(self.tokens@, p as int),
                invariant
                    self.wf(),
                    pos + 1 < p <= self.tokens@.len(),
                    self.tokens@[pos as int] == Token::Struct,
                    self.tokens@[pos + 1] == Token::Ident(name),
                    generics_at(self.tokens@, pos + 2, hdr),
                ensures
                    record_end(self.tokens@, pos as int, Token::Struct) == Some(p as int),
                    pos + 1 < p <= self.tokens@.len(),
                decreases self.tokens@.len() - p,
            {
                if self.is(p, Token::Dedent) {
                    p = p + 1;
                    break;
                }
                let q = self.parse_clause(p, &mut cl)?;
                if q > p {
                    p = q;
                } else if self.is_word(p, "pass") {
                    p = self.line_end(p + 1)?;
                } else {
                    let (fname, q) = self.ident(p)?;
                    let q = self.expect(q, Token::Colon)?;
                    let (ty, q) = self.parse_type(q)?;
                    fields.push(StructField { name: fname, ty });
                    p = self.line_end(q)?;
                }
            }
        }
        let ghost wh = cl.where_clause@;
        let generic_params = merge_where_clause(generic_params, cl.where_clause);
        Ok((Struct { name, generic_params, requires: cl.requires, fields }, p))
    }

    /// `union Name[params]` and an indented block of clauses and `name: T` variants.
    #[verifier::rlimit(100)]
    pub fn parse_union(&self, pos: usize) -> (r: Result<(Union, usize), ParseError>)
        requires
            self.wf(),
            pos <= self.tokens@.len(),
        ensures
            (r is Ok) == (record_end(self.tokens@, pos as int, Token::Union) is Some),
            r is Ok ==> record_end(self.tokens@, pos as int, Token::Union) == Some(r->Ok_0.1 as int),
            r matches Err(e) ==> !(e is Lexical),
            r matches Err(ParseError::UnexpectedToken { token, index, span }) ==> index < self.tokens@.len()
                && token == self.tokens@[index as int] && span == self.spans@[index as int],
            r matches Ok((u, p)) ==> pos + 1 < p <= self.tokens@.len() && self.tokens@[pos as int] == Token::Union
                && self.tokens@[pos + 1] == Token::Ident(u.name)
                && merged_generics_at(self.tokens@, pos + 2, u.generic_params@),
    {
        let p = self.expect(pos, Token::Union)?;
        let (name, p) = self.ident(p)?;
        let (generic_params, mut p) = self.parse_generic_params(p)?;
        let ghost hdr = generic_params@;
        proof {
            lemma_generics_at(self.tokens@, pos + 2, hdr, p as int);
        }
        let mut cl = Clauses { where_clause: Vec::new(), requires: Vec::new(), extends: Vec::new() };
        let mut variants: Vec<UnionVariant> = Vec::new();
        if self.block_starts(p) {
            p = self.open_block(p)?;
            loop
                invariant_except_break
                    record_end(self.tokens@, pos as int, Token::Union) == field_loop(self.tokens@, p as int),
                invariant
                    self.wf(),
                    pos + 1 < p <= self.tokens@.len(),
                    self.tokens@[pos as int] == Token::Union,
                    self.tokens@[pos + 1] == Token::Ident(name),
                    generics_at(self.tokens@, pos + 2, hdr),
                ensures
                    record_end(self.tokens@, pos as int, Token::Union) == Some(p as int),
                    pos + 1 < p <= self.tokens@.len(),
                decreases self.tokens@.len() - p,
            {
                if self.is(p, Token::Dedent) {
                    p = p + 1;
                    break;
                }
                let q = self.parse_clause(p, &mut cl)?;
                if q > p {
                    p = q;
                } else if self.is_word(p, "pass") {
                    p = self.line_end(p + 1)?;
                } else {
                    let (vname, q) = self.ident(p)?;
                    let q = self.expect(q, Token::Colon)?;
                    let (ty, q) = self.parse_type(q)?;
                    variants.push(UnionVariant { name: vname, ty });
                    p = self.line_end(q)?;
                }
            }
        }
        let ghost wh = cl.where_clause@;
        let generic_params = merge_where_clause(generic_params, cl.where_clause);
        Ok((Union { name, generic_params, requires: cl.requires, variants }, p))
    }

    /// `enum[Repr] Name[params]` and an indented block of clauses and
    /// `Name` or `Name = value` variants.
    #[verifier::rlimit(100)]
    pub fn parse_enum(&self, pos: usize) -> (r: Result<(Enum, usize), ParseError>)
        requires
            self.wf(),
            pos <= self.tokens@.len(),
        ensures
            (r is Ok) == (enum_end(self.tokens@, pos as int) is Some),
            r is Ok ==> enum_end(self.tokens@, pos as int) == Some(r->Ok_0.1 as int),
            r matches Err(e) ==> !(e is Lexical),
            r matches Err(ParseError::UnexpectedToken { token, index, span }) ==> index < self.tokens@.len()
                && token == self.tokens@[index as int] && span == self.spans@[index as int],
            r matches Ok((e, p)) ==> pos < p <= self.tokens@.len() && self.tokens@[pos as int] == Token::Enum
                && (e.representation is None ==> self.tokens@[pos + 1] == Token::Ident(e.name)),
    {
        let mut p = self.expect(pos, Token::Enum)?;
        let mut representation: Option<Type> = None;
        if self.is(p, Token::LBracket) {
            let (t, q) = self.parse_type(p + 1)?;
            let q = self.expect(q, Token::RBracket)?;
            representation = Some(t);
            p = q;
        }
        let (name, p) = self.ident(p)?;
        let (generic_params, mut p) = self.parse_generic_params(p)?;
        let ghost hdr = generic_params@;
        let mut cl = Clauses { where_clause: Vec::new(), requires: Vec::new(), extends: Vec::new() };
        let mut variants: Vec<EnumVariant> = Vec::new();
        if self.block_starts(p) {
            p = self.open_block(p)?;
            loop
                invariant_except_break
                    enum_end(self.tokens@, pos as int) == variant_loop(self.tokens@, p as int),
                invariant
                    self.wf(),
                    pos < p <= self.tokens@.len(),
                ensures
                    enum_end(self.tokens@, pos as int) == Some(p as int),
                    pos + 1 < p <= self.tokens@.len(),
                decreases self.tokens@.len() - p,
            {
                if self.is(p, Token::Dedent) {
                    p = p + 1;
                    break;
                }
                let q = self.parse_clause(p, &mut cl)?;
                if q > p {
                    p = q;
                } else if self.is_word(p, "pass") {
                    p = self.line_end(p + 1)?;
                } else {
                    let (vname, q) = self.ident(p)?;
                    let mut value: Option<Expression> = None;
                    let mut q = q;
                    if self.is(q, Token::Eq) {
                        let (v, q2) = self.parse_expression(q + 1)?;
                        value = Some(v);
                        q = q2;
                    }
                    variants.push(EnumVariant { name: vname, value });
                    p = self.line_end(q)?;
                }
            }
        }
        let ghost wh = cl.where_clause@;
        let generic_params = merge_where_clause(generic_params, cl.where_clause);
        Ok((Enum { name, representation, generic_params, requires: cl.requires, variants }, p))
    }

    /// Whether the bracket at `pos` closes, at its matching `]`, right before a `::`.
    fn brackets_then_path(&self, pos: usize) -> (r: bool)
        requires
            self.wf(),
            pos <= self.tokens@.len(),
        ensures
            r == bracket_close(self.tokens@, pos as int, 0),
    {
        let mut depth: usize = 0;
        let mut p = pos;
        while p < self.tokens.len()
            invariant
                self.wf(),
                pos <= p <= self.tokens@.len(),
                depth <= p - pos,
                bracket_close(self.tokens@, pos as int, 0) == bracket_close(self.tokens@, p as int, depth as int),
            decreases self.tokens@.len() - p,
        {
            if self.is(p, Token::LBracket) {
                depth = depth + 1;
            } else if self.is(p, Token::RBracket) {
                if depth <= 1 {
                    return self.is(p + 1, Token::ColonColon);
                }
                depth = depth - 1;
            }
            p = p + 1;
        }
        false
    }

    /// `Seg[Args]::Seg::name`: receiver segments, each with optional generic
    /// arguments and each followed by `::`, then the final name.
    fn parse_qualified_name(&self, pos: usize) -> (r: Result<(Vec<ConstPathSegment>, String, usize), ParseError>)
        requires
            self.wf(),
            pos <= self.tokens@.len(),
        ensures
            (r is Ok) == (qname_end(self.tokens@, pos as int) is Some),
            r is Ok ==> qname_end(self.tokens@, pos as int) == Some(r->Ok_0.2 as int),
            r matches Err(e) ==> !(e is Lexical),
            r matches Err(ParseError::UnexpectedToken { token, index, span }) ==> index < self.tokens@.len()
                && token == self.tokens@[index as int] && span == self.spans@[index as int],
            r matches Ok((segs, name, p)) ==> pos < p <= self.tokens@.len(),
    {
        let mut receiver: Vec<ConstPathSegment> = Vec::new();
        let (first, mut p) = self.ident(pos)?;
        let mut name = first;
        loop
            invariant
                qname_end(self.tokens@, pos as int) == qname_loop(self.tokens@, p as int),
                self.wf(),
                pos < p <= self.tokens@.len(),
            decreases self.tokens@.len() - p,
        {
            if self.is(p, Token::LBracket) && self.brackets_then_path(p) {
                let (generic_args, q) = self.parse_type_list(p + 1)?;
                let q = self.expect(q, Token::ColonColon)?;
                let (next, q) = self.ident(q)?;
                receiver.push(ConstPathSegment { name, generic_args });
                name = next;
                p = q;
            } else if self.is(p, Token::ColonColon) {
                let (next, q) = self.ident(p + 1)?;
                receiver.push(ConstPathSegment { name, generic_args: Vec::new() });
                name = next;
                p = q;
            } else {
                return Ok((receiver, name, p));
            }
        }
    }

    /// `const[params] Receiver::NAME: T = value`; the type is optional.
    pub fn parse_const(&self, pos: usize) -> (r: Result<(ConstStatement, usize), ParseError>)
        requires
            self.wf(),
            pos <= self.tokens@.len(),
        ensures
            (r is Ok) == (const_end(self.tokens@, pos as int) is Some),
            r is Ok ==> const_end(self.tokens@, pos as int) == Some(r->Ok_0.1 as int),
            r matches Err(e) ==> !(e is Lexical),
            r matches Err(ParseError::UnexpectedToken { token, index, span }) ==> index < self.tokens@.len()
                && token == self.tokens@[index as int] && span == self.spans@[index as int],
            r matches Ok((c, p)) ==> pos < p <= self.tokens@.len() && self.tokens@[pos as int] == Token::Const,
    {
        let p = self.expect(pos, Token::Const)?;
        let (generic_params, p) = self.parse_generic_params(p)?;
        let (receiver, name, mut p) = self.parse_qualified_name(p)?;
        let mut ty: Option<Type> = None;
        if self.is(p, Token::Colon) {
            let (t, q) = self.parse_type(p + 1)?;
            ty = Some(t);
            p = q;
        }
        let p = self.expect(p, Token::Eq)?;
        let (value, p) = self.parse_expression(p)?;
        Ok((ConstStatement { generic_params, receiver, name, ty, value }, p))
    }

    /// Whether the token at `pos` introduces a function: `fn`, or its longer spelling `func`.
    fn fn_keyword(&self, pos: usize) -> (r: bool)
        ensures
            r == fn_keyword_at(self.tokens@, pos as int),
            r ==> pos < self.tokens@.len(),
    {
        self.is(pos, Token::Fn) || self.is_word(pos, "func")
    }

    /// Whether a declaration starts at `pos`.
    fn item_starts(&self, pos: usize) -> (r: bool)
        ensures
            r == item_starts_spec(self.tokens@, pos as int),
    {
        self.fn_keyword(pos) || self.is(pos, Token::Type) || self.is(pos, Token::Struct) || self.is(pos, Token::Enum)
            || self.is(pos, Token::Union) || self.is(pos, Token::Interface) || self.is(pos, Token::Const)
            || self.is_word(pos, "namespace")
    }

    /// `self`, `*self` or `*mut self` at `pos`, if present.
    fn parse_self_param(&self, pos: usize) -> (r: Option<(SelfParameter, usize)>)
        requires
            self.wf(),
            pos <= self.tokens@.len(),
        ensures
            (r is Some) == (self_param_end(self.tokens@, pos as int) is Some),
            r is Some ==> self_param_end(self.tokens@, pos as int) == Some((r->0).1 as int),
            r matches Some((s, p)) ==> pos < p <= self.tokens@.len(),
    {
        if self.is_word(pos, "self") {
            return Some((SelfParameter { is_pointer: false, is_mutable: false }, pos + 1));
        }
        if self.is(pos, Token::Star) {
            if self.is_word(pos + 1, "self") {
                return Some((SelfParameter { is_pointer: true, is_mutable: false }, pos + 2));
            }
            if self.is(pos + 1, Token::Mut) && self.is_word(pos + 2, "self") {
                return Some((SelfParameter { is_pointer: true, is_mutable: true }, pos + 3));
            }
        }
        None
    }

    /// `fn Receiver::name[params](self, a: T) -> R`, with where, requires
    /// and extends clauses left for the caller.
    #[verifier::rlimit(100)]
    pub fn parse_signature(&self, pos: usize) -> (r: Result<(FunctionSignature, usize), ParseError>)
        requires
            self.wf(),
            pos <= self.tokens@.len(),
        ensures
            (r is Ok) == (signature_end(self.tokens@, pos as int) is Some),
            r is Ok ==> signature_end(self.tokens@, pos as int) == Some(r->Ok_0.1 as int),
            r matches Err(e) ==> !(e is Lexical),
            r matches Err(ParseError::UnexpectedToken { token, index, span }) ==> index < self.tokens@.len()
                && token == self.tokens@[index as int] && span == self.spans@[index as int],
            r matches Ok((s, p)) ==> pos < p <= self.tokens@.len(),
    {
        if !self.fn_keyword(pos) {
            return Err(self.unexpected(pos));
        }
        let (receiver, name, p) = self.parse_qualified_name(pos + 1)?;
        let (generic_params, p) = self.parse_generic_params(p)?;
        let mut p = self.expect(p, Token::LParen)?;
        let mut self_param: Option<SelfParameter> = None;
        let mut params: Vec<FunctionParameter> = Vec::new();
        if let Some((sp, q)) = self.parse_self_param(p) {
            self_param = Some(sp);
            p = q;
            if self.is(p, Token::Comma) {
                p = p + 1;
            }
        }
        let ghost c1 = p as int;
        if !self.is(p, Token::RParen) {
            loop
                invariant_except_break
                    params_loop(self.tokens@, c1) == params_loop(self.tokens@, p as int),
                invariant
                    signature_end(self.tokens@, pos as int) == match params_loop(self.tokens@, c1) {
                        None => None,
                        Some(d) => sig_tail(self.tokens@, d),
                    },
                    self.wf(),
                    pos < p <= self.tokens@.len(),
                ensures
                    params_loop(self.tokens@, c1) == Some(p as int),
                    pos < p <= self.tokens@.len(),
                decreases self.tokens@.len() - p,
            {
                let (pname, q) = self.ident(p)?;
                let q = self.expect(q, Token::Colon)?;
                let (ty, q) = self.parse_type(q)?;
                params.push(FunctionParameter { name: pname, ty });
                if self.is(q, Token::Comma) && !self.is(q + 1, Token::RParen) {
                    p = q + 1;
                } else if self.is(q, Token::Comma) {
                    p = q + 1;
                    break;
                } else {
                    p = q;
                    break;
                }
            }
        }
        let mut p = self.expect(p, Token::RParen)?;
        let mut return_type: Option<Type> = None;
        if self.is(p, Token::Arrow) {
            let (t, q) = self.parse_type(p + 1)?;
            return_type = Some(t);
            p = q;
        }
        Ok((FunctionSignature { receiver, name, generic_params, self_param, params, return_type }, p))
    }
}

impl Parser {
    /// An indented block of statements after a header; a block holding
    /// only `pass` has no statements.
    #[verifier::rlimit(100)]
    pub fn parse_block(&self, pos: usize) -> (r: Result<(Block, usize), ParseError>)
        requires
            self.wf(),
            pos <= self.tokens@.len(),
        ensures
            (r is Ok) == (block_end(self.tokens@, pos as int) is Some),
            r is Ok ==> block_end(self.tokens@, pos as int) == Some(r->Ok_0.1 as int),
            r matches Err(e) ==> !(e is Lexical),
            r matches Err(ParseError::UnexpectedToken { token, index, span }) ==> index < self.tokens@.len()
                && token == self.tokens@[index as int] && span == self.spans@[index as int],
            r matches Ok((b, p)) ==> pos < p <= self.tokens@.len(),
        decreases self.tokens@.len() - pos, 7int,
    {
        let mut p = self.open_block(pos)?;
        let mut statements: Vec<Statement> = Vec::new();
        let mut only_pass = true;
        loop
            invariant_except_break
                block_end(self.tokens@, pos as int) == stmts_loop(self.tokens@, p as int),
            invariant
                self.wf(),
                pos < p <= self.tokens@.len(),
            ensures
                block_end(self.tokens@, pos as int) == Some(p as int),
                pos < p <= self.tokens@.len(),
            decreases self.tokens@.len() - p,
        {
            if self.is(p, Token::Dedent) {
                p = p + 1;
                break;
            }
            let (st, q) = self.parse_statement(p)?;
            match st {
                Statement::Pass => {},
                _ => {
                    only_pass = false;
                },
            }
            statements.push(st);
            p = q;
        }
        if only_pass {
            statements = Vec::new();
        }
        Ok((Block { statements }, p))
    }

    /// The assignment operator at `pos`: `Some(None)` for `=`, `Some(Some(op))`
    /// for a compound form such as `+=`.
    fn assign_op_at(&self, pos: usize) -> (r: Option<Option<BinaryOperator>>)
        ensures
            (r is Some) == assign_at(self.tokens@, pos as int),
            r is Some ==> pos < self.tokens@.len(),
    {
        if pos >= self.tokens.len() {
            return None;
        }
        match &self.tokens[pos] {
            Token::Eq => Some(None),
            Token::PlusEq => Some(Some(BinaryOperator::Add)),
            Token::MinusEq => Some(Some(BinaryOperator::Subtract)),
            Token::StarEq => Some(Some(BinaryOperator::Multiply)),
            Token::SlashEq => Some(Some(BinaryOperator::Divide)),
            Token::PercentEq => Some(Some(BinaryOperator::Modulo)),
            Token::AndEq => Some(Some(BinaryOperator::BitwiseAnd)),
            Token::OrEq => Some(Some(BinaryOperator::BitwiseOr)),
            Token::CaretEq => Some(Some(BinaryOperator::BitwiseXor)),
            Token::ShlEq => Some(Some(BinaryOperator::ShiftLeft)),
            Token::ShrEq => Some(Some(BinaryOperator::ShiftRight)),
            _ => None,
        }
    }

    /// One statement, through the end of its line or block.
    #[verifier::rlimit(100)]
    pub fn parse_statement(&self, pos: usize) -> (r: Result<(Statement, usize), ParseError>)
        requires
            self.wf(),
            pos <= self.tokens@.len(),
        ensures
            (r is Ok) == (statement_end(self.tokens@, pos as int) is Some),
            r is Ok ==> statement_end(self.tokens@, pos as int) == Some(r->Ok_0.1 as int),
            r matches Err(e) ==> !(e is Lexical),
            r matches Err(ParseError::UnexpectedToken { token, index, span }) ==> index < self.tokens@.len()
                && token == self.tokens@[index as int] && span == self.spans@[index as int],
            r matches Ok((s, p)) ==> pos < p <= self.tokens@.len(),
        decreases self.tokens@.len() - pos, 6int,
    {
        if self.item_starts(pos) {
            let (item, p) = self.parse_item(pos)?;
            let p = self.skip_newlines(p);
            return Ok((Statement::Item(item), p));
        }
        if self.is_word(pos, "pass") {
            let p = self.line_end(pos + 1)?;
            return Ok((Statement::Pass, p));
        }
        if self.is(pos, Token::Let) {
            let mutable = self.is(pos + 1, Token::Mut);
            let p = if mutable {
                pos + 2
            } else {
                pos + 1
            };
            let (name, mut p) = self.ident(p)?;
            let mut ty: Option<Type> = None;
            if self.is(p, Token::Colon) {
                let (t, q) = self.parse_type(p + 1)?;
                ty = Some(t);
                p = q;
            }
            let p = self.expect(p, Token::Eq)?;
            let (value, p) = self.parse_expression(p)?;
            let p = self.line_end(p)?;
            return Ok((Statement::Let(LetStatement { mutable, name, ty, value }), p));
        }
        if self.is(pos, Token::Return) {
            let p = pos + 1;
            if p >= self.tokens.len() || self.is(p, Token::Newline) || self.is(p, Token::Dedent) {
                let p = self.line_end(p)?;
                return Ok((Statement::Return(None), p));
            }
            let (value, p) = self.parse_expression(p)?;
            let p = self.line_end(p)?;
            return Ok((Statement::Return(Some(value)), p));
        }
        if self.is(pos, Token::If) {
            let (condition, p) = self.parse_expression(pos + 1)?;
            let (then_body, mut p) = self.parse_block(p)?;
            let mut elif_clauses: Vec<ElifClause> = Vec::new();
            while self.is_word(p, "elif")
                invariant
                    statement_end(self.tokens@, pos as int) == elif_loop(self.tokens@, p as int),
                    self.wf(),
                    pos < p <= self.tokens@.len(),
                decreases self.tokens@.len() - p,
            {
                let (c, q) = self.parse_expression(p + 1)?;
                let (body, q) = self.parse_block(q)?;
                elif_clauses.push(ElifClause { condition: c, body });
                p = q;
            }
            let mut else_body: Option<Block> = None;
            if self.is(p, Token::Else) {
                let (body, q) = self.parse_block(p + 1)?;
                else_body = Some(body);
                p = q;
            }
            return Ok((Statement::If(IfStatement { condition, then_body, elif_clauses, else_body }), p));
        }
        if self.is(pos, Token::While) {
            let (condition, p) = self.parse_expression(pos + 1)?;
            let (body, p) = self.parse_block(p)?;
            return Ok((Statement::While(WhileStatement { condition, body }), p));
        }
        if self.is(pos, Token::For) {
            let (pattern, p) = self.ident(pos + 1)?;
            let p = self.expect(p, Token::In)?;
            let (iterable, p) = self.parse_expression(p)?;
            let (body, p) = self.parse_block(p)?;
            return Ok((Statement::For(ForStatement { pattern, iterable, body }), p));
        }
        let (e, p) = self.parse_expression(pos)?;
        match self.assign_op_at(p) {
            Some(op) => {
                let (value, q) = self.parse_expression(p + 1)?;
                let q = self.line_end(q)?;
                Ok((Statement::Assign(AssignStatement { target: e, op, value }), q))
            },
            None => {
                let p = self.line_end(p)?;
                Ok((Statement::Expression(e), p))
            },
        }
    }

    /// A function: its signature and, when an indented block follows, its
    /// body, which may open with a `where` block.
    #[verifier::rlimit(100)]
    pub fn parse_function(&self, pos: usize) -> (r: Result<(Function, usize), ParseError>)
        requires
            self.wf(),
            pos <= self.tokens@.len(),
        ensures
            (r is Ok) == (function_end(self.tokens@, pos as int) is Some),
            r is Ok ==> function_end(self.tokens@, pos as int) == Some(r->Ok_0.1 as int),
            r matches Err(e) ==> !(e is Lexical),
            r matches Err(ParseError::UnexpectedToken { token, index, span }) ==> index < self.tokens@.len()
                && token == self.tokens@[index as int] && span == self.spans@[index as int],
            r matches Ok((f, p)) ==> pos < p <= self.tokens@.len(),
        decreases self.tokens@.len() - pos, 3int,
    {
        let (signature, p) = self.parse_signature(pos)?;
        if !self.block_starts(p) {
            return Ok((Function { signature, body: Block { statements: Vec::new() } }, p));
        }
        let q = self.skip_newlines(p);
        if self.is(q, Token::Indent) && self.is_word(q + 1, "where") {
            let (where_clause, q2) = self.parse_where_block(q + 2)?;
            let FunctionSignature { receiver, name, generic_params, self_param, params, return_type } =
                signature;
            let generic_params = merge_where_clause(generic_params, where_clause);
            let signature = FunctionSignature { receiver, name, generic_params, self_param, params, return_type };
            let mut p2 = self.skip_newlines(q2);
            let mut statements: Vec<Statement> = Vec::new();
            let mut only_pass = true;
            loop
                invariant_except_break
                    function_end(self.tokens@, pos as int) == stmts_loop(self.tokens@, p2 as int),
                invariant
                    self.wf(),
                    pos < p2 <= self.tokens@.len(),
                ensures
                    function_end(self.tokens@, pos as int) == Some(p2 as int),
                    pos < p2 <= self.tokens@.len(),
                decreases self.tokens@.len() - p2,
            {
                if self.is(p2, Token::Dedent) {
                    p2 = p2 + 1;
                    break;
                }
                let (st, r2) = self.parse_statement(p2)?;
                match st {
                    Statement::Pass => {},
                    _ => {
                        only_pass = false;
                    },
                }
                statements.push(st);
                p2 = r2;
            }
            if only_pass {
                statements = Vec::new();
            }
            return Ok((Function { signature, body: Block { statements } }, p2));
        }
        let (body, p) = self.parse_block(p)?;
        Ok((Function { signature, body }, p))
    }

    /// `interface Name[params]` and an indented block of clauses and method signatures.
    #[verifier::rlimit(100)]
    pub fn parse_interface(&self, pos: usize) -> (r: Result<(Interface, usize), ParseError>)
        requires
            self.wf(),
            pos <= self.tokens@.len(),
        ensures
            (r is Ok) == (interface_end(self.tokens@, pos as int) is Some),
            r is Ok ==> interface_end(self.tokens@, pos as int) == Some(r->Ok_0.1 as int),
            r matches Err(e) ==> !(e is Lexical),
            r matches Err(ParseError::UnexpectedToken { token, index, span }) ==> index < self.tokens@.len()
                && token == self.tokens@[index as int] && span == self.spans@[index as int],
            r matches Ok((i, p)) ==> pos + 1 < p <= self.tokens@.len() && self.tokens@[pos as int] == Token::Interface
                && self.tokens@[pos + 1] == Token::Ident(i.name)
                && merged_generics_at(self.tokens@, pos + 2, i.generic_params@),
    {
        let p = self.expect(pos, Token::Interface)?;
        let (name, p) = self.ident(p)?;
        let (generic_params, mut p) = self.parse_generic_params(p)?;
        let ghost hdr = generic_params@;
        proof {
            lemma_generics_at(self.tokens@, pos + 2, hdr, p as int);
        }
        let mut cl = Clauses { where_clause: Vec::new(), requires: Vec::new(), extends: Vec::new() };
        let mut methods: Vec<FunctionSignature> = Vec::new();
        if self.block_starts(p) {
            p = self.open_block(p)?;
            loop
                invariant_except_break
                    interface_end(self.tokens@, pos as int) == method_loop(self.tokens@, p as int),
                invariant
                    self.wf(),
                    pos + 1 < p <= self.tokens@.len(),
                    self.tokens@[pos as int] == Token::Interface,
                    self.tokens@[pos + 1] == Token::Ident(name),
                    generics_at(self.tokens@, pos + 2, hdr),
                ensures
                    interface_end(self.tokens@, pos as int) == Some(p as int),
                    pos + 1 < p <= self.tokens@.len(),
                decreases self.tokens@.len() - p,
            {
                if self.is(p, Token::Dedent) {
                    p = p + 1;
                    break;
                }
                let q = self.parse_clause(p, &mut cl)?;
                if q > p {
                    p = q;
                } else if self.is_word(p, "pass") {
                    p = self.line_end(p + 1)?;
                } else {
                    let (sig, q) = self.parse_signature(p)?;
                    methods.push(sig);
                    p = self.line_end(q)?;
                }
            }
        }
        let ghost wh = cl.where_clause@;
        let generic_params = merge_where_clause(generic_params, cl.where_clause);
        Ok((Interface { name, generic_params, extends: cl.extends, methods }, p))
    }

    /// `namespace a::b` and an indented block of items.
    #[verifier::rlimit(100)]
    pub fn parse_namespace(&self, pos: usize) -> (r: Result<(Namespace, usize), ParseError>)
        requires
            self.wf(),
            pos <= self.tokens@.len(),
        ensures
            (r is Ok) == (namespace_end(self.tokens@, pos as int) is Some),
            r is Ok ==> namespace_end(self.tokens@, pos as int) == Some(r->Ok_0.1 as int),
            r matches Err(e) ==> !(e is Lexical),
            r matches Err(ParseError::UnexpectedToken { token, index, span }) ==> index < self.tokens@.len()
                && token == self.tokens@[index as int] && span == self.spans@[index as int],
            r matches Ok((n, p)) ==> pos < p <= self.tokens@.len() && (self.tokens@[pos as int] matches Token::Ident(
                w,
            ) && w@ == "namespace"@) && self.tokens@.subrange(pos + 1, pos + 1 + render_path(n.name).len())
                == render_path(n.name),
        decreases self.tokens@.len() - pos, 4int,
    {
        if !self.is_word(pos, "namespace") {
            return Err(self.unexpected(pos));
        }
        let (name, mut p) = self.parse_expr_path(pos + 1)?;
        let mut items: Vec<NamespaceItem> = Vec::new();
        if self.block_starts(p) {
            p = self.open_block(p)?;
            loop
                invariant_except_break
                    namespace_end(self.tokens@, pos as int) == ns_loop(self.tokens@, p as int),
                invariant
                    self.wf(),
                    pos < p <= self.tokens@.len(),
                ensures
                    namespace_end(self.tokens@, pos as int) == Some(p as int),
                    pos < p <= self.tokens@.len(),
                decreases self.tokens@.len() - p,
            {
                if self.is(p, Token::Dedent) {
                    p = p + 1;
                    break;
                }
                if self.is_word(p, "pass") {
                    p = self.line_end(p + 1)?;
                } else {
                    let (item, q) = self.parse_item(p)?;
                    items.push(item);
                    p = self.skip_newlines(q);
                }
            }
        }
        Ok((Namespace { name, items }, p))
    }

    /// One declaration at namespace scope, chosen by its first token.
    pub fn parse_item(&self, pos: usize) -> (r: Result<(NamespaceItem, usize), ParseError>)
        requires
            self.wf(),
            pos <= self.tokens@.len(),
        ensures
            (r is Ok) == (item_end(self.tokens@, pos as int) is Some),
            r is Ok ==> item_end(self.tokens@, pos as int) == Some(r->Ok_0.1 as int),
            r matches Err(e) ==> !(e is Lexical),
            r matches Err(ParseError::UnexpectedToken { token, index, span }) ==> index < self.tokens@.len()
                && token == self.tokens@[index as int] && span == self.spans@[index as int],
            r matches Ok((i, p)) ==> pos < p <= self.tokens@.len(),
        decreases self.tokens@.len() - pos, 5int,
    {
        if self.fn_keyword(pos) {
            let (f, p) = self.parse_function(pos)?;
            Ok((NamespaceItem::Function(f), p))
        } else if self.is(pos, Token::Type) {
            let (a, p) = self.parse_type_alias(pos)?;
            Ok((NamespaceItem::TypeAlias(a), p))
        } else if self.is(pos, Token::Struct) {
            let (s, p) = self.parse_struct(pos)?;
            Ok((NamespaceItem::Struct(s), p))
        } else if self.is(pos, Token::Enum) {
            let (e, p) = self.parse_enum(pos)?;
            Ok((NamespaceItem::Enum(e), p))
        } else if self.is(pos, Token::Union) {
            let (u, p) = self.parse_union(pos)?;
            Ok((NamespaceItem::Union(u), p))
        } else if self.is(pos, Token::Interface) {
            let (i, p) = self.parse_interface(pos)?;
            Ok((NamespaceItem::Interface(i), p))
        } else if self.is_word(pos, "namespace") {
            let (n, p) = self.parse_namespace(pos)?;
            Ok((NamespaceItem::Namespace(n), p))
        } else if self.is(pos, Token::Const) {
            let (c, p) = self.parse_const(pos)?;
            let p = self.line_end(p)?;
            Ok((NamespaceItem::Const(c), p))
        } else {
            Err(self.unexpected(pos))
        }
    }

    /// The whole token stream as a source file: items separated by newlines.
    #[verifier::rlimit(100)]
    pub fn parse_source_file(&self) -> (r: Result<SourceFile, ParseError>)
        requires
            self.wf(),
        ensures
            (r is Ok) == source_file_ok(self.tokens@),
            r matches Err(e) ==> !(e is Lexical),
            r matches Err(ParseError::UnexpectedToken { token, index, span }) ==> index < self.tokens@.len()
                && token == self.tokens@[index as int] && span == self.spans@[index as int],
            r matches Ok(f) ==> (f.items@.len() == 0 <==> forall|i: int| 0 <= i < self.tokens@.len() ==> self.tokens@[i] == Token::Newline),
    {
        let mut items: Vec<NamespaceItem> = Vec::new();
        let mut p = self.skip_newlines(0);
        let ghost first: int = p as int;
        while p < self.tokens.len()
            invariant
                source_file_ok(self.tokens@) == file_loop(self.tokens@, p as int),
                self.wf(),
                p <= self.tokens@.len(),
                0 <= first <= self.tokens@.len(),
                forall|i: int| 0 <= i < first ==> self.tokens@[i] == Token::Newline,
                first < self.tokens@.len() ==> self.tokens@[first] != Token::Newline,
                items@.len() == 0 ==> p == first,
                items@.len() > 0 ==> first < self.tokens@.len(),
            decreases self.tokens@.len() - p,
        {
            let (item, q) = self.parse_item(p)?;
            items.push(item);
            p = self.skip_newlines(q);
        }
        Ok(SourceFile { items })
    }
}

/// Lexes `source` and sets up a parser over its layout-aware tokens.
pub fn parser_for(source: &str) -> (r: Result<Parser, ParseError>)
    ensures
        r matches Ok(p) ==> p.wf() && stream_of(source@, p.tokens@) && spanned_stream_of(source@, p.tokens@, p.spans@),
        r matches Err(ParseError::Lexical(e)) ==> first_lex_error(source@, e),
        r matches Err(e) ==> (e is Lexical || e is UnexpectedEof),
        r matches Err(ParseError::UnexpectedEof) ==> exists|ts: Seq<Token>| stream_of(source@, ts) && ts.len() >= usize::MAX,
{
    match crate::layout::tokenize(source) {
        Err(e) => Err(ParseError::Lexical(e)),
        Ok((tokens, spans)) => match Parser::new(tokens, spans) {
            Some(p) => Ok(p),
            None => Err(ParseError::UnexpectedEof),
        },
    }
}

/// The value a production parsed from the start of the stream, provided
/// only newlines follow it; anything else left over is an error.
fn finish<T>(p: &Parser, r: Result<(T, usize), ParseError>) -> (out: Result<T, ParseError>)
    requires
        p.wf(),
        r matches Err(ParseError::UnexpectedToken { token, index, span }) ==> index < p.tokens@.len()
            && token == p.tokens@[index as int] && span == p.spans@[index as int],
    ensures
        out matches Err(ParseError::UnexpectedToken { token, index, span }) ==> index < p.tokens@.len()
            && token == p.tokens@[index as int] && span == p.spans@[index as int],
        out matches Ok(v) ==> (r matches Ok((w, q)) && w == v && q <= p.tokens@.len() && forall|i: int|
            q <= i < p.tokens@.len() ==> p.tokens@[i] == Token::Newline),
        out is Err ==> (out->Err_0 is Lexical ==> r is Err && r->Err_0 == out->Err_0),
        out is Err && r is Ok ==> (r->Ok_0.1 > p.tokens@.len() || exists|i: int|
            r->Ok_0.1 <= i < p.tokens@.len() && p.tokens@[i] != Token::Newline),
        r is Err ==> out is Err,
{
    match r {
        Err(e) => Err(e),
        Ok((v, q)) => {
            if q > p.tokens.len() {
                return Err(ParseError::UnexpectedEof);
            }
            let q2 = p.skip_newlines(q);
            if q2 < p.tokens.len() {
                Err(p.unexpected(q2))
            } else {
                Ok(v)
            }
        },
    }
}

/// Parses `source` as a whole file.
pub fn parse_source_file(source: &str) -> (r: Result<SourceFile, ParseError>)
    ensures
        r matches Ok(f) ==> exists|ts: Seq<Token>|
            stream_of(source@, ts) && (f.items@.len() == 0 ==> forall|i: int| 0 <= i < ts.len() ==> ts[i] == Token::Newline),
        r matches Err(ParseError::Lexical(e)) ==> first_lex_error(source@, e),
        r matches Err(ParseError::UnexpectedToken { token, index, span }) ==> exists|ts: Seq<Token>, sps: Seq<Span>|
            spanned_stream_of(source@, ts, sps) && index < ts.len() && token == ts[index as int] && span == sps[index as int],
        r is Ok ==> exists|ts: Seq<Token>| stream_of(source@, ts) && source_file_ok(ts),
        r matches Err(err) ==> (err is Lexical) || exists|ts: Seq<Token>| #[trigger] stream_of(source@, ts) && (ts.len()
            >= usize::MAX || !source_file_ok(ts)),
{
    let p = match parser_for(source) {
        Ok(p) => p,
        Err(e) => {
            return Err(e);
        },
    };
    let r = p.parse_source_file();
    proof {
        assert(stream_of(source@, p.tokens@));
        if r is Err {
            assert(!source_file_ok(p.tokens@));
        }
    }
    r
}

/// Parses `source` as one expression.
pub fn parse_expression(source: &str) -> (r: Result<Expression, ParseError>)
    ensures
        r matches Ok(e) ==> prec_ok(e) && exists|ts: Seq<Token>, k: int| stream_of(source@, ts) && 0 < k <= ts.len() && expr_end(ts, 0) == Some(k)
            && ts.subrange(0, k) == render_expr(e)
            && forall|i: int| k <= i < ts.len() ==> ts[i] == Token::Newline,
        r matches Err(ParseError::Lexical(le)) ==> first_lex_error(source@, le),
        r matches Err(err) ==> (err is Lexical) || exists|ts: Seq<Token>| stream_of(source@, ts) && (ts.len() >= usize::MAX
            || expr_end(ts, 0) is None || exists|i: int| expr_end(ts, 0)->0 <= i < ts.len() && ts[i] != Token::Newline),
        r matches Err(ParseError::UnexpectedToken { token, index, span }) ==> exists|ts: Seq<Token>, sps: Seq<Span>|
            spanned_stream_of(source@, ts, sps) && index < ts.len() && token == ts[index as int] && span == sps[index as int],
{
    let p = match parser_for(source) {
        Ok(p) => p,
        Err(e) => {
            return Err(e);
        },
    };
    proof {
        assert(stream_of(source@, p.tokens@));
    }
    let (v, q) = match p.parse_expression(0) {
        Ok(x) => x,
        Err(e) => {
            return Err(e);
        },
    };
    let q2 = p.skip_newlines(q);
    if q2 < p.tokens.len() {
        proof {
            assert(p.tokens@[q2 as int] != Token::Newline);
        }
        Err(p.unexpected(q2))
    } else {
        proof {
            assert(stream_of(source@, p.tokens@));
            assert(p.tokens@.subrange(0, q as int) == p.tokens@.subrange(0, q as int));
        }
        Ok(v)
    }
}

/// Parses `source` as one type.
pub fn parse_type(source: &str) -> (r: Result<Type, ParseError>)
    ensures
        r matches Ok(t) ==> type_ok(t) && exists|ts: Seq<Token>, k: int| stream_of(source@, ts) && 0 < k <= ts.len() && type_end(ts, 0) == Some(k)
            && ts.subrange(0, k) == render_type(t)
            && forall|i: int| k <= i < ts.len() ==> ts[i] == Token::Newline,
        r matches Err(ParseError::Lexical(le)) ==> first_lex_error(source@, le),
        r matches Err(err) ==> (err is Lexical) || exists|ts: Seq<Token>| stream_of(source@, ts) && (ts.len() >= usize::MAX
            || type_end(ts, 0) is None || exists|i: int| type_end(ts, 0)->0 <= i < ts.len() && ts[i] != Token::Newline),
        r matches Err(ParseError::UnexpectedToken { token, index, span }) ==> exists|ts: Seq<Token>, sps: Seq<Span>|
            spanned_stream_of(source@, ts, sps) && index < ts.len() && token == ts[index as int] && span == sps[index as int],
{
    let p = match parser_for(source) {
        Ok(p) => p,
        Err(e) => {
            return Err(e);
        },
    };
    proof {
        assert(stream_of(source@, p.tokens@));
    }
    let (v, q) = match p.parse_type(0) {
        Ok(x) => x,
        Err(e) => {
            return Err(e);
        },
    };
    let q2 = p.skip_newlines(q);
    if q2 < p.tokens.len() {
        proof {
            assert(p.tokens@[q2 as int] != Token::Newline);
        }
        Err(p.unexpected(q2))
    } else {
        proof {
            assert(stream_of(source@, p.tokens@));
            assert(p.tokens@.subrange(0, q as int) == p.tokens@.subrange(0, q as int));
        }
        Ok(v)
    }
}

/// Parses `source` as one type alias.
pub fn parse_type_alias(source: &str) -> (r: Result<TypeAlias, ParseError>)
    ensures
        r matches Ok(a) ==> exists|ts: Seq<Token>| stream_of(source@, ts) && ts.len() >= 2 && ts[0] == Token::Type && ts[1] == Token::Ident(a.name),
        r matches Err(ParseError::Lexical(le)) ==> first_lex_error(source@, le),
        r matches Err(ParseError::UnexpectedToken { token, index, span }) ==> exists|ts: Seq<Token>, sps: Seq<Span>|
            spanned_stream_of(source@, ts, sps) && index < ts.len() && token == ts[index as int] && span == sps[index as int],
        r is Ok ==> exists|ts: Seq<Token>, k: int| stream_of(source@, ts) && type_alias_end(ts, 0) == Some(k) && 0 <= k <= ts.len()
            && forall|i: int| k <= i < ts.len() ==> ts[i] == Token::Newline,
        r matches Err(err) ==> (err is Lexical) || exists|ts: Seq<Token>| stream_of(source@, ts) && (ts.len() >= usize::MAX
            || type_alias_end(ts, 0) is None || exists|i: int| type_alias_end(ts, 0)->0 <= i < ts.len() && ts[i] != Token::Newline),
{
    let p = parser_for(source)?;
    let r = p.parse_type_alias(0);
    let out = finish(&p, r);
    proof {
        assert(stream_of(source@, p.tokens@));
    }
    out
}

/// Parses `source` as one struct.
pub fn parse_struct(source: &str) -> (r: Result<Struct, ParseError>)
    ensures
        r matches Ok(st) ==> exists|ts: Seq<Token>| stream_of(source@, ts) && ts.len() >= 2 && ts[0] == Token::Struct && ts[1] == Token::Ident(st.name),
        r matches Err(ParseError::Lexical(le)) ==> first_lex_error(source@, le),
        r matches Err(ParseError::UnexpectedToken { token, index, span }) ==> exists|ts: Seq<Token>, sps: Seq<Span>|
            spanned_stream_of(source@, ts, sps) && index < ts.len() && token == ts[index as int] && span == sps[index as int],
        r is Ok ==> exists|ts: Seq<Token>, k: int| stream_of(source@, ts) && record_end(ts, 0, Token::Struct) == Some(k) && 0 <= k <= ts.len()
            && forall|i: int| k <= i < ts.len() ==> ts[i] == Token::Newline,
        r matches Err(err) ==> (err is Lexical) || exists|ts: Seq<Token>| stream_of(source@, ts) && (ts.len() >= usize::MAX
            || record_end(ts, 0, Token::Struct) is None || exists|i: int| record_end(ts, 0, Token::Struct)->0 <= i < ts.len() && ts[i] != Token::Newline),
{
    let p = parser_for(source)?;
    let r = p.parse_struct(0);
    let out = finish(&p, r);
    proof {
        assert(stream_of(source@, p.tokens@));
    }
    out
}

/// Parses `source` as one enum.
pub fn parse_enum(source: &str) -> (r: Result<Enum, ParseError>)
    ensures
        r matches Ok(en) ==> exists|ts: Seq<Token>| stream_of(source@, ts) && ts.len() >= 1 && ts[0] == Token::Enum && (en.representation is None ==> ts[1] == Token::Ident(en.name)),
        r matches Err(ParseError::Lexical(le)) ==> first_lex_error(source@, le),
        r matches Err(ParseError::UnexpectedToken { token, index, span }) ==> exists|ts: Seq<Token>, sps: Seq<Span>|
            spanned_stream_of(source@, ts, sps) && index < ts.len() && token == ts[index as int] && span == sps[index as int],
        r is Ok ==> exists|ts: Seq<Token>, k: int| stream_of(source@, ts) && enum_end(ts, 0) == Some(k) && 0 <= k <= ts.len()
            && forall|i: int| k <= i < ts.len() ==> ts[i] == Token::Newline,
        r matches Err(err) ==> (err is Lexical) || exists|ts: Seq<Token>| stream_of(source@, ts) && (ts.len() >= usize::MAX
            || enum_end(ts, 0) is None || exists|i: int| enum_end(ts, 0)->0 <= i < ts.len() && ts[i] != Token::Newline),
{
    let p = parser_for(source)?;
    let r = p.parse_enum(0);
    let out = finish(&p, r);
    proof {
        assert(stream_of(source@, p.tokens@));
    }
    out
}

/// Parses `source` as one union.
pub fn parse_union(source: &str) -> (r: Result<Union, ParseError>)
    ensures
        r matches Ok(u) ==> exists|ts: Seq<Token>| stream_of(source@, ts) && ts.len() >= 2 && ts[0] == Token::Union && ts[1] == Token::Ident(u.name),
        r matches Err(ParseError::Lexical(le)) ==> first_lex_error(source@, le),
        r matches Err(ParseError::UnexpectedToken { token, index, span }) ==> exists|ts: Seq<Token>, sps: Seq<Span>|
            spanned_stream_of(source@, ts, sps) && index < ts.len() && token == ts[index as int] && span == sps[index as int],
        r is Ok ==> exists|ts: Seq<Token>, k: int| stream_of(source@, ts) && record_end(ts, 0, Token::Union) == Some(k) && 0 <= k <= ts.len()
            && forall|i: int| k <= i < ts.len() ==> ts[i] == Token::Newline,
        r matches Err(err) ==> (err is Lexical) || exists|ts: Seq<Token>| stream_of(source@, ts) && (ts.len() >= usize::MAX
            || record_end(ts, 0, Token::Union) is None || exists|i: int| record_end(ts, 0, Token::Union)->0 <= i < ts.len() && ts[i] != Token::Newline),
{
    let p = parser_for(source)?;
    let r = p.parse_union(0);
    let out = finish(&p, r);
    proof {
        assert(stream_of(source@, p.tokens@));
    }
    out
}

/// Parses `source` as one function.
pub fn parse_function(source: &str) -> (r: Result<Function, ParseError>)
    ensures
        r matches Ok(f) ==> exists|ts: Seq<Token>| stream_of(source@, ts) && ts.len() >= 1,
        r matches Err(ParseError::Lexical(le)) ==> first_lex_error(source@, le),
        r matches Err(ParseError::UnexpectedToken { token, index, span }) ==> exists|ts: Seq<Token>, sps: Seq<Span>|
            spanned_stream_of(source@, ts, sps) && index < ts.len() && token == ts[index as int] && span == sps[index as int],
        r is Ok ==> exists|ts: Seq<Token>, k: int| stream_of(source@, ts) && function_end(ts, 0) == Some(k) && 0 <= k <= ts.len()
            && forall|i: int| k <= i < ts.len() ==> ts[i] == Token::Newline,
        r matches Err(err) ==> (err is Lexical) || exists|ts: Seq<Token>| stream_of(source@, ts) && (ts.len() >= usize::MAX
            || function_end(ts, 0) is None || exists|i: int| function_end(ts, 0)->0 <= i < ts.len() && ts[i] != Token::Newline),
{
    let p = parser_for(source)?;
    let r = p.parse_function(0);
    let out = finish(&p, r);
    proof {
        assert(stream_of(source@, p.tokens@));
    }
    out
}

/// Parses `source` as one interface.
pub fn parse_interface(source: &str) -> (r: Result<Interface, ParseError>)
    ensures
        r matches Ok(i) ==> exists|ts: Seq<Token>| stream_of(source@, ts) && ts.len() >= 2 && ts[0] == Token::Interface && ts[1] == Token::Ident(i.name),
        r matches Err(ParseError::Lexical(le)) ==> first_lex_error(source@, le),
        r matches Err(ParseError::UnexpectedToken { token, index, span }) ==> exists|ts: Seq<Token>, sps: Seq<Span>|
            spanned_stream_of(source@, ts, sps) && index < ts.len() && token == ts[index as int] && span == sps[index as int],
        r is Ok ==> exists|ts: Seq<Token>, k: int| stream_of(source@, ts) && interface_end(ts, 0) == Some(k) && 0 <= k <= ts.len()
            && forall|i: int| k <= i < ts.len() ==> ts[i] == Token::Newline,
        r matches Err(err) ==> (err is Lexical) || exists|ts: Seq<Token>| stream_of(source@, ts) && (ts.len() >= usize::MAX
            || interface_end(ts, 0) is None || exists|i: int| interface_end(ts, 0)->0 <= i < ts.len() && ts[i] != Token::Newline),
{
    let p = parser_for(source)?;
    let r = p.parse_interface(0);
    let out = finish(&p, r);
    proof {
        assert(stream_of(source@, p.tokens@));
    }
    out
}

/// Parses `source` as one namespace.
pub fn parse_namespace(source: &str) -> (r: Result<Namespace, ParseError>)
    ensures
        r matches Ok(n) ==> exists|ts: Seq<Token>| stream_of(source@, ts) && ts.len() >= 1 && (ts[0] matches Token::Ident(w) && w@ == "namespace"@) && ts.subrange(1, 1 + render_path(n.name).len() as int) == render_path(n.name),
        r matches Err(ParseError::Lexical(le)) ==> first_lex_error(source@, le),
        r matches Err(ParseError::UnexpectedToken { token, index, span }) ==> exists|ts: Seq<Token>, sps: Seq<Span>|
            spanned_stream_of(source@, ts, sps) && index < ts.len() && token == ts[index as int] && span == sps[index as int],
        r is Ok ==> exists|ts: Seq<Token>, k: int| stream_of(source@, ts) && namespace_end(ts, 0) == Some(k) && 0 <= k <= ts.len()
            && forall|i: int| k <= i < ts.len() ==> ts[i] == Token::Newline,
        r matches Err(err) ==> (err is Lexical) || exists|ts: Seq<Token>| stream_of(source@, ts) && (ts.len() >= usize::MAX
            || namespace_end(ts, 0) is None || exists|i: int| namespace_end(ts, 0)->0 <= i < ts.len() && ts[i] != Token::Newline),
{
    let p = parser_for(source)?;
    let r = p.parse_namespace(0);
    let out = finish(&p, r);
    proof {
        assert(stream_of(source@, p.tokens@));
    }
    out
}

/// Parses `source` as one constant declaration.
pub fn parse_const(source: &str) -> (r: Result<ConstStatement, ParseError>)
    ensures
        r matches Ok(c) ==> exists|ts: Seq<Token>| stream_of(source@, ts) && ts.len() >= 1 && ts[0] == Token::Const,
        r matches Err(ParseError::Lexical(le)) ==> first_lex_error(source@, le),
        r matches Err(ParseError::UnexpectedToken { token, index, span }) ==> exists|ts: Seq<Token>, sps: Seq<Span>|
            spanned_stream_of(source@, ts, sps) && index < ts.len() && token == ts[index as int] && span == sps[index as int],
        r is Ok ==> exists|ts: Seq<Token>, k: int| stream_of(source@, ts) && const_end(ts, 0) == Some(k) && 0 <= k <= ts.len()
            && forall|i: int| k <= i < ts.len() ==> ts[i] == Token::Newline,
        r matches Err(err) ==> (err is Lexical) || exists|ts: Seq<Token>| stream_of(source@, ts) && (ts.len() >= usize::MAX
            || const_end(ts, 0) is None || exists|i: int| const_end(ts, 0)->0 <= i < ts.len() && ts[i] != Token::Newline),
{
    let p = parser_for(source)?;
    let r = p.parse_const(0);
    let out = finish(&p, r);
    proof {
        assert(stream_of(source@, p.tokens@));
    }
    out
}

proof fn lemma_segments_first(segs: Seq<String>)
    requires
        segs.len() >= 1,
    ensures
        render_segments(segs).len() >= 1 && render_segments(segs)[0] == Token::Ident(segs[0]),
    decreases segs.len(),
{
    if segs.len() > 1 {
        lemma_segments_first(segs.drop_last());
        assert(segs.drop_last()[0] == segs[0]);
    }
}

proof fn lemma_path_first(p: Path)
    requires
        render_path(p).len() >= 1,
    ensures
        render_path(p)[0] is Ident || render_path(p)[0] == Token::LBracket,
{
    if p.segments@.len() >= 1 {
        lemma_segments_first(p.segments@);
    } else {
        assert(render_segments(p.segments@) =~= Seq::<Token>::empty());
    }
}

/// The only operator-free tree spelling an integer literal token is that literal.
proof fn lemma_render_literal(e: Expression, l: IntegerLiteral)
    requires
        render_expr(e) == seq![Token::IntegerLiteral(l)],
    ensures
        e == Expression::IntegerLiteral(l),
{
    let r = render_expr(e);
    assert(r[0] == Token::IntegerLiteral(l));
    match e {
        Expression::Path(p) => lemma_path_first(p),
        Expression::BinaryOp(b) => {
            let k = render_expr(*b.lhs).len();
            assert(r =~= render_expr(*b.lhs) + seq![binop_token(b.op)] + render_expr(*b.rhs));
            assert(r[k as int] == binop_token(b.op));
        },
        Expression::Cast(c) => {
            let k = render_expr(*c.expr).len();
            assert(r =~= render_expr(*c.expr) + seq![Token::As] + render_type(*c.target_type));
            assert(r[k as int] == Token::As);
        },
        Expression::UnaryOp(u) => {
            assert(r =~= seq![unop_token(u.op)] + render_expr(*u.operand));
        },
        Expression::Call(c) => {
            assert(r =~= render_expr(*c.callee) + seq![Token::LParen] + render_exprs(c.args@) + seq![Token::RParen]);
        },
        Expression::Index(i) => {
            assert(r =~= render_expr(*i.object) + seq![Token::LBracket] + render_expr(*i.index) + seq![Token::RBracket]);
        },
        Expression::FieldAccess(f) => {
            assert(r =~= render_expr(*f.object) + seq![Token::Dot, Token::Ident(f.field)]);
        },
        Expression::TypeAccess(f) => {
            assert(r =~= render_expr(*f.object) + seq![Token::ColonColon, Token::Ident(f.member)]);
        },
        Expression::ArrayLiteral(a) => {
            assert(r =~= seq![Token::LBracket] + render_exprs(a.elements@) + seq![Token::RBracket]);
        },
        Expression::Parenthesized(x) => {
            assert(r =~= seq![Token::LParen] + render_expr(*x) + seq![Token::RParen]);
        },
        _ => {},
    }
}

/// `x op y` with integer literals `x` and `y` is spelled only by the binary operation itself.
proof fn lemma_render_binary3(e: Expression, a: IntegerLiteral, o: BinaryOperator, b: IntegerLiteral)
    requires
        render_expr(e) == seq![Token::IntegerLiteral(a), binop_token(o), Token::IntegerLiteral(b)],
    ensures
        e == Expression::BinaryOp(BinaryOpExpr {
            lhs: Box::new(Expression::IntegerLiteral(a)),
            op: o,
            rhs: Box::new(Expression::IntegerLiteral(b)),
        }),
{
    let r = render_expr(e);
    assert(r[0] == Token::IntegerLiteral(a));
    assert(r[1] == binop_token(o));
    assert(r[2] == Token::IntegerLiteral(b));
    match e {
        Expression::Path(p) => lemma_path_first(p),
        Expression::BinaryOp(bo) => {
            let k = render_expr(*bo.lhs).len();
            assert(r =~= render_expr(*bo.lhs) + seq![binop_token(bo.op)] + render_expr(*bo.rhs));
            assert(r[k as int] == binop_token(bo.op));
            assert(k == 1);
            assert(render_expr(*bo.lhs) =~= r.subrange(0, 1));
            assert(render_expr(*bo.rhs) =~= r.subrange(2, 3));
            assert(r.subrange(0, 1) =~= seq![Token::IntegerLiteral(a)]);
            assert(r.subrange(2, 3) =~= seq![Token::IntegerLiteral(b)]);
            lemma_render_literal(*bo.lhs, a);
            lemma_render_literal(*bo.rhs, b);
        },
        Expression::Cast(c) => {
            let k = render_expr(*c.expr).len();
            assert(r =~= render_expr(*c.expr) + seq![Token::As] + render_type(*c.target_type));
            assert(r[k as int] == Token::As);
        },
        Expression::UnaryOp(u) => {
            assert(r =~= seq![unop_token(u.op)] + render_expr(*u.operand));
        },
        Expression::Call(c) => {
            let k = render_expr(*c.callee).len();
            assert(r =~= render_expr(*c.callee) + seq![Token::LParen] + render_exprs(c.args@) + seq![Token::RParen]);
            assert(r[r.len() - 1] == Token::RParen);
        },
        Expression::Index(i) => {
            assert(r =~= render_expr(*i.object) + seq![Token::LBracket] + render_expr(*i.index) + seq![Token::RBracket]);
            assert(r[r.len() - 1] == Token::RBracket);
        },
        Expression::FieldAccess(f) => {
            assert(r =~= render_expr(*f.object) + seq![Token::Dot, Token::Ident(f.field)]);
            assert(r[r.len() - 1] == Token::Ident(f.field));
        },
        Expression::TypeAccess(f) => {
            assert(r =~= render_expr(*f.object) + seq![Token::ColonColon, Token::Ident(f.member)]);
            assert(r[r.len() - 1] == Token::Ident(f.member));
        },
        Expression::ArrayLiteral(al) => {
            assert(r =~= seq![Token::LBracket] + render_exprs(al.elements@) + seq![Token::RBracket]);
        },
        Expression::Parenthesized(x) => {
            assert(r =~= seq![Token::LParen] + render_expr(*x) + seq![Token::RParen]);
        },
        _ => {},
    }
}

/// One precedence table decides every `x op1 y op2 z`: a tree that agrees
/// with the table and spells those tokens groups to the left when `op1`
/// binds at least as tightly as `op2`, and to the right otherwise; so
/// `2 + 3 * 4` groups `3 * 4`, and so does `3 * 4 + 2`.
#[verifier::rlimit(100)]
pub proof fn lemma_one_precedence_table(
    e: Expression,
    x: IntegerLiteral,
    o1: BinaryOperator,
    y: IntegerLiteral,
    o2: BinaryOperator,
    z: IntegerLiteral,
)
    requires
        prec_ok(e),
        render_expr(e) == seq![
            Token::IntegerLiteral(x),
            binop_token(o1),
            Token::IntegerLiteral(y),
            binop_token(o2),
            Token::IntegerLiteral(z),
        ],
    ensures
        e == if binop_prec(o1) >= binop_prec(o2) {
            Expression::BinaryOp(BinaryOpExpr {
                lhs: Box::new(Expression::BinaryOp(BinaryOpExpr {
                    lhs: Box::new(Expression::IntegerLiteral(x)),
                    op: o1,
                    rhs: Box::new(Expression::IntegerLiteral(y)),
                })),
                op: o2,
                rhs: Box::new(Expression::IntegerLiteral(z)),
            })
        } else {
            Expression::BinaryOp(BinaryOpExpr {
                lhs: Box::new(Expression::IntegerLiteral(x)),
                op: o1,
                rhs: Box::new(Expression::BinaryOp(BinaryOpExpr {
                    lhs: Box::new(Expression::IntegerLiteral(y)),
                    op: o2,
                    rhs: Box::new(Expression::IntegerLiteral(z)),
                })),
            })
        },
{
    let r = render_expr(e);
    assert(r[0] == Token::IntegerLiteral(x));
    assert(r[1] == binop_token(o1));
    assert(r[2] == Token::IntegerLiteral(y));
    assert(r[3] == binop_token(o2));
    assert(r[4] == Token::IntegerLiteral(z));
    match e {
        Expression::Path(p) => lemma_path_first(p),
        Expression::BinaryOp(bo) => {
            let k = render_expr(*bo.lhs).len();
            assert(r =~= render_expr(*bo.lhs) + seq![binop_token(bo.op)] + render_expr(*bo.rhs));
            assert(r[k as int] == binop_token(bo.op));
            if k == 1 {
                assert(bo.op == o1);
                assert(render_expr(*bo.lhs) =~= r.subrange(0, 1));
                assert(render_expr(*bo.rhs) =~= r.subrange(2, 5));
                assert(r.subrange(0, 1) =~= seq![Token::IntegerLiteral(x)]);
                assert(r.subrange(2, 5) =~= seq![Token::IntegerLiteral(y), binop_token(o2), Token::IntegerLiteral(z)]);
                lemma_render_literal(*bo.lhs, x);
                lemma_render_binary3(*bo.rhs, y, o2, z);
            } else {
                assert(k == 3);
                assert(bo.op == o2);
                assert(render_expr(*bo.lhs) =~= r.subrange(0, 3));
                assert(render_expr(*bo.rhs) =~= r.subrange(4, 5));
                assert(r.subrange(0, 3) =~= seq![Token::IntegerLiteral(x), binop_token(o1), Token::IntegerLiteral(y)]);
                assert(r.subrange(4, 5) =~= seq![Token::IntegerLiteral(z)]);
                lemma_render_binary3(*bo.lhs, x, o1, y);
                lemma_render_literal(*bo.rhs, z);
            }
        },
        Expression::Cast(c) => {
            let k = render_expr(*c.expr).len();
            assert(r =~= render_expr(*c.expr) + seq![Token::As] + render_type(*c.target_type));
            assert(r[k as int] == Token::As);
        },
        Expression::UnaryOp(u) => {
            assert(r =~= seq![unop_token(u.op)] + render_expr(*u.operand));
        },
        Expression::Call(c) => {
            assert(r =~= render_expr(*c.callee) + seq![Token::LParen] + render_exprs(c.args@) + seq![Token::RParen]);
            assert(r[r.len() - 1] == Token::RParen);
        },
        Expression::Index(i) => {
            assert(r =~= render_expr(*i.object) + seq![Token::LBracket] + render_expr(*i.index) + seq![Token::RBracket]);
            assert(r[r.len() - 1] == Token::RBracket);
        },
        Expression::FieldAccess(f) => {
            assert(r =~= render_expr(*f.object) + seq![Token::Dot, Token::Ident(f.field)]);
            assert(r[r.len() - 1] == Token::Ident(f.field));
        },
        Expression::TypeAccess(f) => {
            assert(r =~= render_expr(*f.object) + seq![Token::ColonColon, Token::Ident(f.member)]);
            assert(r[r.len() - 1] == Token::Ident(f.member));
        },
        Expression::ArrayLiteral(al) => {
            assert(r =~= seq![Token::LBracket] + render_exprs(al.elements@) + seq![Token::RBracket]);
        },
        Expression::Parenthesized(px) => {
            assert(r =~= seq![Token::LParen] + render_expr(*px) + seq![Token::RParen]);
        },
        _ => {},
    }
}

} // verus!
