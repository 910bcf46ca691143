//! The syntax tree. Every node owns its children; nothing is shared.

use vstd::prelude::*;
use crate::float::FloatLiteral;
use crate::integer::IntegerLiteral;

verus! {

/// A qualified name with optional generic arguments, e.g. `std::Vec[T]`.
#[derive(Debug, PartialEq)]
pub struct Path {
    pub segments: Vec<String>,
    pub generic_args: Vec<Type>,
}

impl Path {
    /// The one-segment path `name`.
    pub fn simple(name: String) -> (r: Path)
        ensures
            r.segments@ == seq![name],
            r.generic_args@.len() == 0,
    {
        let mut segments: Vec<String> = Vec::new();
        segments.push(name);
        Path { segments, generic_args: Vec::new() }
    }

    pub fn with_generics(segments: Vec<String>, generic_args: Vec<Type>) -> (r: Path)
        ensures
            r.segments == segments,
            r.generic_args == generic_args,
    {
        Path { segments, generic_args }
    }
}

/// The receiver of a method: `self`, `*self` or `*mut self`.
#[derive(Debug, Clone, Copy, PartialEq, Eq, Structural)]
pub struct SelfParameter {
    pub is_pointer: bool,
    pub is_mutable: bool,
}

/// A type expression.
#[derive(Debug, PartialEq)]
pub enum Type {
    U8,
    U16,
    U32,
    U64,
    USize,
    I8,
    I16,
    I32,
    I64,
    ISize,
    F32,
    F64,
    Bool,
    /// The `ok` (unit) type.
    OkType,
    /// `Self`
    SelfType,
    /// `?*mut T`: `nullable` for the leading `?`, `mutable` for `mut`.
    Pointer { nullable: bool, mutable: bool, element_type: Box<Type> },
    /// A named type such as `Vec[T]`.
    Path(Path),
    /// `[T]` (no size) or `[T; N]`.
    Array { element_type: Box<Type>, size: Option<Box<Expression>> },
    /// `T ! E`: a value of `ok`, or an error of the named type `err`.
    ErrorUnion { ok_type: Box<Type>, err_type: Path },
}

/// A binary operator.
#[derive(Debug, Clone, Copy, PartialEq, Eq, Structural)]
pub enum BinaryOperator {
    Add,
    Subtract,
    Multiply,
    Divide,
    Modulo,
    Equal,
    NotEqual,
    LessThan,
    GreaterThan,
    LessThanOrEqual,
    GreaterThanOrEqual,
    LogicalAnd,
    LogicalOr,
    BitwiseAnd,
    BitwiseOr,
    BitwiseXor,
    ShiftLeft,
    ShiftRight,
}

/// A prefix operator.
#[derive(Debug, Clone, Copy, PartialEq, Eq, Structural)]
pub enum UnaryOperator {
    /// `!`
    LogicalNot,
    /// `~`
    BitwiseNot,
    /// `-`
    Negate,
    /// `+`
    Plus,
    /// `&`
    AddressOf,
    /// `*`
    Dereference,
}

/// An expression.
#[derive(Debug, PartialEq)]
pub enum Expression {
    IntegerLiteral(IntegerLiteral),
    FloatLiteral(FloatLiteral),
    BooleanLiteral(bool),
    CharLiteral(String),
    StringLiteral(String),
    OkLiteral,
    /// A name, possibly qualified: `x`, `std::max`.
    Path(Path),
    ArrayLiteral(ArrayLiteralExpr),
    InterpolatedString(InterpolatedStringExpr),
    BinaryOp(BinaryOpExpr),
    UnaryOp(UnaryOpExpr),
    FieldAccess(FieldAccessExpr),
    /// `object::member` after a non-path expression, e.g. `make()::Item`.
    TypeAccess(TypeAccessExpr),
    Call(CallExpr),
    Index(IndexExpr),
    Cast(CastExpr),
    Parenthesized(Box<Expression>),
}

/// `[a, b, c]`
#[derive(Debug, PartialEq)]
pub struct ArrayLiteralExpr {
    pub elements: Vec<Expression>,
}

/// `$"..."`: the body as written and its parts.
#[derive(Debug, PartialEq)]
pub struct InterpolatedStringExpr {
    pub raw: String,
    pub parts: Vec<InterpolatedPart>,
}

/// A piece of an interpolated string: plain text, or a `{...}` placeholder
/// kept as its source text.
#[derive(Debug, PartialEq)]
pub enum InterpolatedPart {
    Text(String),
    Expression(Box<Expression>),
}

/// `object.field`
#[derive(Debug, PartialEq)]
pub struct FieldAccessExpr {
    pub object: Box<Expression>,
    pub field: String,
}

/// `object::member`
#[derive(Debug, PartialEq)]
pub struct TypeAccessExpr {
    pub object: Box<Expression>,
    pub member: String,
}

/// `callee(args)`
#[derive(Debug, PartialEq)]
pub struct CallExpr {
    pub callee: Box<Expression>,
    pub args: Vec<Expression>,
}

/// `object[index]`
#[derive(Debug, PartialEq)]
pub struct IndexExpr {
    pub object: Box<Expression>,
    pub index: Box<Expression>,
}

/// `expr as Type`
#[derive(Debug, PartialEq)]
pub struct CastExpr {
    pub expr: Box<Expression>,
    pub target_type: Box<Type>,
}

/// `lhs op rhs`
#[derive(Debug, PartialEq)]
pub struct BinaryOpExpr {
    pub lhs: Box<Expression>,
    pub op: BinaryOperator,
    pub rhs: Box<Expression>,
}

/// `op operand`
#[derive(Debug, PartialEq)]
pub struct UnaryOpExpr {
    pub op: UnaryOperator,
    pub operand: Box<Expression>,
}

/// A generic parameter: `T`, `T: A + B`, `T = D`, or `const N: usize`.
#[derive(Debug, PartialEq)]
pub enum GenericParameter {
    Type { name: String, bounds: Vec<Type>, default: Option<Box<Type>> },
    Const { name: String, ty: Type },
}

/// `type Name[params] = Type`
#[derive(Debug, PartialEq)]
pub struct TypeAlias {
    pub name: String,
    /// Parameters, with any where-clause folded in.
    pub generic_params: Vec<GenericParameter>,
    pub aliased_type: Type,
}

/// `enum[repr] Name[params]` with its variants.
#[derive(Debug, PartialEq)]
pub struct Enum {
    pub name: String,
    pub representation: Option<Type>,
    pub generic_params: Vec<GenericParameter>,
    pub requires: Vec<Type>,
    pub variants: Vec<EnumVariant>,
}

/// `Name` or `Name = value`
#[derive(Debug, PartialEq)]
pub struct EnumVariant {
    pub name: String,
    pub value: Option<Expression>,
}

/// `union Name[params]` with its variants.
#[derive(Debug, PartialEq)]
pub struct Union {
    pub name: String,
    pub generic_params: Vec<GenericParameter>,
    pub requires: Vec<Type>,
    pub variants: Vec<UnionVariant>,
}

/// `name: Type`
#[derive(Debug, PartialEq)]
pub struct UnionVariant {
    pub name: String,
    pub ty: Type,
}

/// `struct Name[params]` with its fields.
#[derive(Debug, PartialEq)]
pub struct Struct {
    pub name: String,
    pub generic_params: Vec<GenericParameter>,
    pub requires: Vec<Type>,
    pub fields: Vec<StructField>,
}

/// `name: Type`
#[derive(Debug, PartialEq)]
pub struct StructField {
    pub name: String,
    pub ty: Type,
}

/// A function with its body.
#[derive(Debug, PartialEq)]
pub struct Function {
    pub signature: FunctionSignature,
    pub body: Block,
}

/// One segment of a receiver path, e.g. `Option[T]` in `Option[T]::none`.
#[derive(Debug, PartialEq)]
pub struct ConstPathSegment {
    pub name: String,
    pub generic_args: Vec<Type>,
}

/// `fn Receiver::name[params](self, p: T) -> R`
#[derive(Debug, PartialEq)]
pub struct FunctionSignature {
    /// The `::`-joined receiver segments before the name; empty for a free function.
    pub receiver: Vec<ConstPathSegment>,
    pub name: String,
    pub generic_params: Vec<GenericParameter>,
    pub self_param: Option<SelfParameter>,
    pub params: Vec<FunctionParameter>,
    pub return_type: Option<Type>,
}

/// `name: Type`
#[derive(Debug, PartialEq)]
pub struct FunctionParameter {
    pub name: String,
    pub ty: Type,
}

/// An indented block of statements; a block holding only `pass` is empty.
#[derive(Debug, PartialEq)]
pub struct Block {
    pub statements: Vec<Statement>,
}

/// `interface Name[params]` with its method signatures.
#[derive(Debug, PartialEq)]
pub struct Interface {
    pub name: String,
    pub generic_params: Vec<GenericParameter>,
    pub extends: Vec<Type>,
    pub methods: Vec<FunctionSignature>,
}

/// `namespace a::b` with its items.
#[derive(Debug, PartialEq)]
pub struct Namespace {
    pub name: Path,
    pub items: Vec<NamespaceItem>,
}

/// The items of a source file: its namespace-scope declarations in order.
#[derive(Debug, PartialEq)]
pub struct SourceFile {
    pub items: Vec<NamespaceItem>,
}

impl SourceFile {
    pub fn new(items: Vec<NamespaceItem>) -> (r: SourceFile)
        ensures
            r.items == items,
    {
        SourceFile { items }
    }

    pub fn items(&self) -> (r: &Vec<NamespaceItem>)
        ensures
            *r == self.items,
    {
        &self.items
    }
}

/// A declaration at namespace scope.
#[derive(Debug, PartialEq)]
pub enum NamespaceItem {
    Namespace(Namespace),
    Function(Function),
    TypeAlias(TypeAlias),
    Struct(Struct),
    Enum(Enum),
    Union(Union),
    Interface(Interface),
    Const(ConstStatement),
}

/// `const[T] Receiver[T]::NAME: Type = value`
#[derive(Debug, PartialEq)]
pub struct ConstStatement {
    pub generic_params: Vec<GenericParameter>,
    /// The `::`-joined receiver segments before the name; empty for a free constant.
    pub receiver: Vec<ConstPathSegment>,
    pub name: String,
    pub ty: Option<Type>,
    pub value: Expression,
}

/// A statement of a function body.
#[derive(Debug, PartialEq)]
pub enum Statement {
    /// `pass`
    Pass,
    Expression(Expression),
    /// `let name: Type = value`
    Let(LetStatement),
    /// `target = value`, or a compound form such as `target += value`
    Assign(AssignStatement),
    /// `return` or `return value`
    Return(Option<Expression>),
    /// `if cond` block, `elif` blocks, `else` block
    If(IfStatement),
    /// `while cond` block
    While(WhileStatement),
    /// `for name in iterable` block
    For(ForStatement),
    /// A declaration nested in a body.
    Item(NamespaceItem),
}

#[derive(Debug, PartialEq)]
pub struct LetStatement {
    pub mutable: bool,
    pub name: String,
    pub ty: Option<Type>,
    pub value: Expression,
}

/// An assignment; `op` is the operator of a compound form (`+` for `+=`).
#[derive(Debug, PartialEq)]
pub struct AssignStatement {
    pub target: Expression,
    pub op: Option<BinaryOperator>,
    pub value: Expression,
}

#[derive(Debug, PartialEq)]
pub struct IfStatement {
    pub condition: Expression,
    pub then_body: Block,
    pub elif_clauses: Vec<ElifClause>,
    pub else_body: Option<Block>,
}

#[derive(Debug, PartialEq)]
pub struct ElifClause {
    pub condition: Expression,
    pub body: Block,
}

#[derive(Debug, PartialEq)]
pub struct WhileStatement {
    pub condition: Expression,
    pub body: Block,
}

#[derive(Debug, PartialEq)]
pub struct ForStatement {
    pub pattern: String,
    pub iterable: Expression,
    pub body: Block,
}

/// What the merge reads of a generic parameter: whether it is a type
/// parameter, its name, and its bounds (none for a const parameter).
pub open spec fn param_view(g: GenericParameter) -> (bool, Seq<char>, Seq<Type>) {
    match g {
        GenericParameter::Type { name, bounds, .. } => (true, name@, bounds@),
        GenericParameter::Const { name, .. } => (false, name@, Seq::empty()),
    }
}

pub open spec fn params_view(gs: Seq<GenericParameter>) -> Seq<(bool, Seq<char>, Seq<Type>)> {
    gs.map_values(|g: GenericParameter| param_view(g))
}

/// The index of the first parameter (type or const) named `name` at or after `i`, or -1.
pub open spec fn find_type_param(ps: Seq<(bool, Seq<char>, Seq<Type>)>, name: Seq<char>, i: int) -> int
    decreases ps.len() - i,
{
    if i < 0 || i >= ps.len() {
        -1
    } else if ps[i].1 == name {
        i
    } else {
        find_type_param(ps, name, i + 1)
    }
}

/// Folds one where-clause constraint into the parameters: its bounds go to
/// the end of the first parameter of the same name when that is a type
/// parameter; a constraint naming a const parameter is left out; a name not
/// yet present is appended as a new type parameter. A const entry in the
/// where-clause changes nothing.
pub open spec fn merge_one(ps: Seq<(bool, Seq<char>, Seq<Type>)>, c: (bool, Seq<char>, Seq<Type>)) -> Seq<(bool, Seq<char>, Seq<Type>)> {
    if !c.0 {
        ps
    } else {
        let i = find_type_param(ps, c.1, 0);
        if i >= 0 {
            if ps[i].0 {
                ps.update(i, (true, c.1, ps[i].2 + c.2))
            } else {
                ps
            }
        } else {
            ps.push(c)
        }
    }
}

/// Folds the constraints `w` into `ps`, in order.
pub open spec fn merge_all(ps: Seq<(bool, Seq<char>, Seq<Type>)>, w: Seq<(bool, Seq<char>, Seq<Type>)>) -> Seq<(bool, Seq<char>, Seq<Type>)>
    decreases w.len(),
{
    if w.len() == 0 {
        ps
    } else {
        merge_one(merge_all(ps, w.drop_last()), w.last())
    }
}

/// No two parameters share a name.
pub open spec fn names_distinct(ps: Seq<(bool, Seq<char>, Seq<Type>)>) -> bool {
    forall|a: int, b: int| 0 <= a < b < ps.len() ==> #[trigger] ps[a].1 != #[trigger] ps[b].1
}

/// What the merge leaves as it was: the default of a type parameter, a
/// const parameter whole.
pub open spec fn keeps_rest(new: GenericParameter, old: GenericParameter) -> bool {
    match old {
        GenericParameter::Type { default, .. } => new matches GenericParameter::Type { default: d, .. } && d == default,
        GenericParameter::Const { .. } => new == old,
    }
}

proof fn lemma_find_bounds(ps: Seq<(bool, Seq<char>, Seq<Type>)>, name: Seq<char>, i: int)
    requires
        0 <= i,
    ensures
        find_type_param(ps, name, i) == -1 || (i <= find_type_param(ps, name, i) < ps.len()
            && ps[find_type_param(ps, name, i)].1 == name),
        find_type_param(ps, name, i) == -1 ==> forall|j: int| i <= j < ps.len() ==> ps[j].1 != name,
    decreases ps.len() - i,
{
    if i < ps.len() && !(ps[i].1 == name) {
        lemma_find_bounds(ps, name, i + 1);
    }
}

/// The index of the first parameter of `params` named `name`.
fn find_param(params: &Vec<GenericParameter>, name: &String) -> (r: Option<usize>)
    ensures
        r matches Some(i) ==> find_type_param(params_view(params@), name@, 0) == i,
        r is None ==> find_type_param(params_view(params@), name@, 0) == -1,
{
    let ghost ps = params_view(params@);
    let mut j: usize = 0;
    while j < params.len()
        invariant
            j <= params@.len(),
            ps == params_view(params@),
            find_type_param(ps, name@, 0) == find_type_param(ps, name@, j as int),
        decreases params@.len() - j,
    {
        let hit = match &params[j] {
            GenericParameter::Type { name: pn, .. } => *pn == *name,
            GenericParameter::Const { name: pn, .. } => *pn == *name,
        };
        assert(ps[j as int] == param_view(params@[j as int]));
        if hit {
            return Some(j);
        }
        j = j + 1;
    }
    None
}

/// Folds where-clause constraints into a generic parameter list. Each type
/// constraint's bounds are appended, in order, to the first type parameter
/// of the same name; a constraint naming a const parameter is left out; a
/// constraint on a name not yet present is appended as a new type parameter
/// without default. Const entries in the where-clause are ignored. When the
/// parameters' names are distinct, so are the result's.
pub fn merge_where_clause(params: Vec<GenericParameter>, where_clause: Vec<GenericParameter>) -> (r: Vec<GenericParameter>)
    ensures
        params_view(r@) == merge_all(params_view(params@), params_view(where_clause@)),
        r@.len() >= params@.len(),
        forall|i: int| 0 <= i < params@.len() ==> keeps_rest(#[trigger] r@[i], params@[i]),
        forall|i: int| params@.len() <= i < r@.len() ==> (#[trigger] r@[i] matches GenericParameter::Type { default, .. } && default is None),
        names_distinct(params_view(params@)) ==> names_distinct(params_view(r@)),
{
    let ghost p0 = params@;
    let ghost w0 = where_clause@;
    let total = where_clause.len();
    let mut params = params;
    let mut rest = where_clause;
    let mut k: usize = 0;
    let ghost wv = params_view(w0);
    assert(wv.subrange(0, 0) =~= Seq::<(bool, Seq<char>, Seq<Type>)>::empty());
    while rest.len() > 0
        invariant
            k + rest@.len() == w0.len(),
            total == w0.len(),
            rest@ == w0.subrange(k as int, w0.len() as int),
            wv == params_view(w0),
            params_view(params@) == merge_all(params_view(p0), wv.subrange(0, k as int)),
            params@.len() >= p0.len(),
            forall|i: int| 0 <= i < p0.len() ==> keeps_rest(#[trigger] params@[i], p0[i]),
            forall|i: int| p0.len() <= i < params@.len() ==> (#[trigger] params@[i] matches GenericParameter::Type { default, .. } && default is None),
            names_distinct(params_view(p0)) ==> names_distinct(params_view(params@)),
        decreases rest@.len(),
    {
        let c = rest.remove(0);
        let ghost before = params@;
        let ghost pv = params_view(before);
        assert(c == w0[k as int]);
        assert(wv.subrange(0, k + 1).drop_last() =~= wv.subrange(0, k as int));
        assert(wv.subrange(0, k + 1).last() == param_view(c));
        match c {
            GenericParameter::Type { name, mut bounds, default: _ } => {
                match find_param(&params, &name) {
                    Some(j) => {
                        proof {
                            lemma_find_bounds(pv, name@, 0);
                        }
                        let p = params.remove(j);
                        match p {
                            GenericParameter::Type { name: pn, bounds: mut pb, default: pd } => {
                                let ghost old_pb = pb@;
                                let ghost cb = bounds@;
                                proof {
                                    assert(pv[j as int] == param_view(before[j as int]));
                                }
                                pb.append(&mut bounds);
                                let ghost np = GenericParameter::Type { name: pn, bounds: pb, default: pd };
                                params.insert(j, GenericParameter::Type { name: pn, bounds: pb, default: pd });
                                proof {
                                    assert(params@ =~= before.update(j as int, np));
                                    assert(params_view(params@) =~= pv.update(j as int, (true, name@, pv[j as int].2 + cb)));
                                    assert forall|a: int, b: int| 0 <= a < b < params_view(params@).len() && names_distinct(pv)
                                        implies #[trigger] params_view(params@)[a].1 != #[trigger] params_view(params@)[b].1 by {
                                        assert(params_view(params@)[a].1 == pv[a].1);
                                        assert(params_view(params@)[b].1 == pv[b].1);
                                    }
                                    assert forall|i: int| 0 <= i < p0.len() implies keeps_rest(#[trigger] params@[i], p0[i]) by {
                                        if i != j {
                                            assert(params@[i] == before[i]);
                                        }
                                    }
                                    assert forall|i: int| p0.len() <= i < params@.len() implies (#[trigger] params@[i] matches GenericParameter::Type { default, .. } && default is None) by {
                                        if i != j {
                                            assert(params@[i] == before[i]);
                                        }
                                    }
                                }
                            },
                            GenericParameter::Const { name: pn, ty } => {
                                proof {
                                    assert(pv[j as int] == param_view(before[j as int]));
                                }
                                params.insert(j, GenericParameter::Const { name: pn, ty });
                                assert(params@ =~= before);
                            },
                        }
                    },
                    None => {
                        params.push(GenericParameter::Type { name, bounds, default: None });
                        proof {
                            assert(params_view(params@) =~= pv.push(param_view(c)));
                            lemma_find_bounds(pv, name@, 0);
                            assert forall|a: int, b: int| 0 <= a < b < params_view(params@).len() && names_distinct(pv)
                                implies #[trigger] params_view(params@)[a].1 != #[trigger] params_view(params@)[b].1 by {
                                if b == pv.len() {
                                    assert(params_view(params@)[b].1 == name@);
                                    assert(params_view(params@)[a].1 == pv[a].1);
                                } else {
                                    assert(params_view(params@)[a].1 == pv[a].1);
                                    assert(params_view(params@)[b].1 == pv[b].1);
                                }
                            }
                        }
                    },
                }
            },
            GenericParameter::Const { .. } => {},
        }
        k = k + 1;
    }
    assert(wv.subrange(0, k as int) =~= wv);
    params
}

/// The scanner state while splitting an interpolated string: finished
/// parts, pending text, pending placeholder text, and brace depth.
pub open spec fn interp_step(st: (Seq<Seq<char>>, Seq<char>, Seq<char>, nat), c: char) -> (Seq<Seq<char>>, Seq<char>, Seq<char>, nat) {
    let (parts, text, expr, depth) = st;
    if depth == 0 && c == '{' {
        (if text.len() > 0 {
            parts.push(text)
        } else {
            parts
        }, Seq::empty(), expr, 1)
    } else if c == '{' {
        (parts, text, expr.push(c), depth + 1)
    } else if depth == 1 && c == '}' {
        (parts.push(seq!['{'] + expr + seq!['}']), text, Seq::empty(), 0)
    } else if depth > 1 && c == '}' {
        (parts, text, expr.push(c), (depth - 1) as nat)
    } else if depth == 0 {
        (parts, text.push(c), expr, 0)
    } else {
        (parts, text, expr.push(c), depth)
    }
}

/// The scanner state after reading `raw`.
pub open spec fn interp_scan(raw: Seq<char>) -> (Seq<Seq<char>>, Seq<char>, Seq<char>, nat)
    decreases raw.len(),
{
    if raw.len() == 0 {
        (Seq::empty(), Seq::empty(), Seq::empty(), 0)
    } else {
        interp_step(interp_scan(raw.drop_last()), raw.last())
    }
}

/// The parts of an interpolated string's body: runs of plain text, and each
/// outermost `{...}` placeholder with its braces, in order. Text after an
/// unclosed `{` is dropped; a `}` outside any placeholder is plain text.
pub open spec fn interp_parts(raw: Seq<char>) -> Seq<Seq<char>> {
    let (parts, text, _, _) = interp_scan(raw);
    if text.len() > 0 {
        parts.push(text)
    } else {
        parts
    }
}

/// The text a part holds.
pub open spec fn part_text(p: InterpolatedPart) -> Seq<char> {
    match p {
        InterpolatedPart::Text(s) => s@,
        InterpolatedPart::Expression(_) => Seq::empty(),
    }
}

/// Splits the body of an interpolated string (the text between `$"` and
/// `"`) into text parts and `{...}` placeholder parts, each kept as its
/// source text.
pub fn parse_interp_parts(raw: String) -> (r: Vec<InterpolatedPart>)
    ensures
        r@.map_values(|p: InterpolatedPart| part_text(p)) == interp_parts(raw@),
{
    let cs = crate::text::chars_of(raw.as_str());
    let n = cs.len();
    let mut parts: Vec<InterpolatedPart> = Vec::new();
    let mut text = String::new();
    let mut expr = String::new();
    let mut depth: usize = 0;
    let mut i: usize = 0;
    assert(cs@.subrange(0, 0) =~= Seq::<char>::empty());
    assert(parts@.map_values(|p: InterpolatedPart| part_text(p)) =~= Seq::<Seq<char>>::empty());
    while i < n
        invariant
            n == cs@.len(),
            cs@ == raw@,
            i <= n,
            depth <= i,
            interp_scan(cs@.subrange(0, i as int)) == (
                parts@.map_values(|p: InterpolatedPart| part_text(p)),
                text@,
                expr@,
                depth as nat,
            ),
        decreases n - i,
    {
        let c = cs[i];
        assert(cs@.subrange(0, i + 1).drop_last() =~= cs@.subrange(0, i as int));
        assert(cs@.subrange(0, i + 1).last() == c);
        let ghost pv = parts@.map_values(|p: InterpolatedPart| part_text(p));
        if depth == 0 && c == '{' {
            if !text.as_str().is_empty() {
                let t = text;
                parts.push(InterpolatedPart::Text(t));
                assert(parts@.map_values(|p: InterpolatedPart| part_text(p)) =~= pv.push(t@));
            }
            text = String::new();
            depth = 1;
        } else if c == '{' {
            depth = depth + 1;
            crate::text::push_char(&mut expr, c);
        } else if depth == 1 && c == '}' {
            let mut whole = String::new();
            crate::text::push_char(&mut whole, '{');
            whole.append(expr.as_str());
            crate::text::push_char(&mut whole, '}');
            assert(whole@ =~= seq!['{'] + expr@ + seq!['}']);
            parts.push(InterpolatedPart::Text(whole));
            assert(parts@.map_values(|p: InterpolatedPart| part_text(p)) =~= pv.push(
                seq!['{'] + expr@ + seq!['}'],
            ));
            expr = String::new();
            depth = 0;
        } else if depth > 1 && c == '}' {
            depth = depth - 1;
            crate::text::push_char(&mut expr, c);
        } else if depth == 0 {
            crate::text::push_char(&mut text, c);
        } else {
            crate::text::push_char(&mut expr, c);
        }
        i = i + 1;
    }
    assert(cs@.subrange(0, n as int) =~= raw@);
    if !text.as_str().is_empty() {
        let ghost pv = parts@.map_values(|p: InterpolatedPart| part_text(p));
        let t = text;
        parts.push(InterpolatedPart::Text(t));
        assert(parts@.map_values(|p: InterpolatedPart| part_text(p)) =~= pv.push(t@));
    }
    parts
}

impl Struct {
    pub fn name(&self) -> (r: &String)
        ensures
            *r == self.name,
    {
        &self.name
    }

    pub fn generic_params(&self) -> (r: &Vec<GenericParameter>)
        ensures
            *r == self.generic_params,
    {
        &self.generic_params
    }

    pub fn requires_clause(&self) -> (r: &Vec<Type>)
        ensures
            *r == self.requires,
    {
        &self.requires
    }

    pub fn fields(&self) -> (r: &Vec<StructField>)
        ensures
            *r == self.fields,
    {
        &self.fields
    }
}

impl StructField {
    pub fn name(&self) -> (r: &String)
        ensures
            *r == self.name,
    {
        &self.name
    }

    pub fn ty(&self) -> (r: &Type)
        ensures
            *r == self.ty,
    {
        &self.ty
    }
}

impl Enum {
    pub fn name(&self) -> (r: &String)
        ensures
            *r == self.name,
    {
        &self.name
    }

    pub fn representation(&self) -> (r: &Option<Type>)
        ensures
            *r == self.representation,
    {
        &self.representation
    }

    pub fn generic_params(&self) -> (r: &Vec<GenericParameter>)
        ensures
            *r == self.generic_params,
    {
        &self.generic_params
    }

    pub fn requires_clause(&self) -> (r: &Vec<Type>)
        ensures
            *r == self.requires,
    {
        &self.requires
    }

    pub fn variants(&self) -> (r: &Vec<EnumVariant>)
        ensures
            *r == self.variants,
    {
        &self.variants
    }
}

impl EnumVariant {
    pub fn name(&self) -> (r: &String)
        ensures
            *r == self.name,
    {
        &self.name
    }

    pub fn value(&self) -> (r: &Option<Expression>)
        ensures
            *r == self.value,
    {
        &self.value
    }
}

impl Union {
    pub fn name(&self) -> (r: &String)
        ensures
            *r == self.name,
    {
        &self.name
    }

    pub fn generic_params(&self) -> (r: &Vec<GenericParameter>)
        ensures
            *r == self.generic_params,
    {
        &self.generic_params
    }

    pub fn requires_clause(&self) -> (r: &Vec<Type>)
        ensures
            *r == self.requires,
    {
        &self.requires
    }

    pub fn variants(&self) -> (r: &Vec<UnionVariant>)
        ensures
            *r == self.variants,
    {
        &self.variants
    }
}

impl UnionVariant {
    pub fn name(&self) -> (r: &String)
        ensures
            *r == self.name,
    {
        &self.name
    }

    pub fn ty(&self) -> (r: &Type)
        ensures
            *r == self.ty,
    {
        &self.ty
    }
}

impl TypeAlias {
    pub fn name(&self) -> (r: &String)
        ensures
            *r == self.name,
    {
        &self.name
    }

    pub fn generic_params(&self) -> (r: &Vec<GenericParameter>)
        ensures
            *r == self.generic_params,
    {
        &self.generic_params
    }

    pub fn aliased_type(&self) -> (r: &Type)
        ensures
            *r == self.aliased_type,
    {
        &self.aliased_type
    }
}

impl Function {
    pub fn signature(&self) -> (r: &FunctionSignature)
        ensures
            *r == self.signature,
    {
        &self.signature
    }

    pub fn body(&self) -> (r: &Block)
        ensures
            *r == self.body,
    {
        &self.body
    }
}

impl FunctionSignature {
    pub fn name(&self) -> (r: &String)
        ensures
            *r == self.name,
    {
        &self.name
    }

    pub fn generic_params(&self) -> (r: &Vec<GenericParameter>)
        ensures
            *r == self.generic_params,
    {
        &self.generic_params
    }

    pub fn params(&self) -> (r: &Vec<FunctionParameter>)
        ensures
            *r == self.params,
    {
        &self.params
    }

    pub fn return_type(&self) -> (r: &Option<Type>)
        ensures
            *r == self.return_type,
    {
        &self.return_type
    }
}

impl FunctionParameter {
    pub fn name(&self) -> (r: &String)
        ensures
            *r == self.name,
    {
        &self.name
    }

    pub fn ty(&self) -> (r: &Type)
        ensures
            *r == self.ty,
    {
        &self.ty
    }
}

impl Block {
    pub fn statements(&self) -> (r: &Vec<Statement>)
        ensures
            *r == self.statements,
    {
        &self.statements
    }
}

impl Interface {
    pub fn name(&self) -> (r: &String)
        ensures
            *r == self.name,
    {
        &self.name
    }

    pub fn generic_params(&self) -> (r: &Vec<GenericParameter>)
        ensures
            *r == self.generic_params,
    {
        &self.generic_params
    }

    pub fn extends_clause(&self) -> (r: &Vec<Type>)
        ensures
            *r == self.extends,
    {
        &self.extends
    }

    pub fn methods(&self) -> (r: &Vec<FunctionSignature>)
        ensures
            *r == self.methods,
    {
        &self.methods
    }
}

impl Namespace {
    pub fn items(&self) -> (r: &Vec<NamespaceItem>)
        ensures
            *r == self.items,
    {
        &self.items
    }
}

impl BinaryOpExpr {
    pub fn lhs(&self) -> (r: &Box<Expression>)
        ensures
            *r == self.lhs,
    {
        &self.lhs
    }

    pub fn op(&self) -> (r: &BinaryOperator)
        ensures
            *r == self.op,
    {
        &self.op
    }

    pub fn rhs(&self) -> (r: &Box<Expression>)
        ensures
            *r == self.rhs,
    {
        &self.rhs
    }
}

impl UnaryOpExpr {
    pub fn op(&self) -> (r: &UnaryOperator)
        ensures
            *r == self.op,
    {
        &self.op
    }

    pub fn operand(&self) -> (r: &Box<Expression>)
        ensures
            *r == self.operand,
    {
        &self.operand
    }
}

impl ArrayLiteralExpr {
    pub fn elements(&self) -> (r: &Vec<Expression>)
        ensures
            *r == self.elements,
    {
        &self.elements
    }
}

/// `segs` joined by `::`.
pub open spec fn joined_name(segs: Seq<String>) -> Seq<char>
    decreases segs.len(),
{
    if segs.len() == 0 {
        Seq::empty()
    } else if segs.len() == 1 {
        segs[0]@
    } else {
        joined_name(segs.drop_last()) + seq![':', ':'] + segs.last()@
    }
}

impl Namespace {
    /// The namespace's name as written, segments joined by `::`.
    pub fn name(&self) -> (r: String)
        ensures
            r@ == joined_name(self.name.segments@),
    {
        let mut out = String::new();
        let n = self.name.segments.len();
        let mut i: usize = 0;
        while i < n
            invariant
                n == self.name.segments@.len(),
                i <= n,
                out@ == joined_name(self.name.segments@.subrange(0, i as int)),
            decreases n - i,
        {
            let ghost before = out@;
            if i > 0 {
                crate::text::push_char(&mut out, ':');
                crate::text::push_char(&mut out, ':');
            }
            out.append(self.name.segments[i].as_str());
            let ghost next = self.name.segments@.subrange(0, i + 1);
            assert(next.drop_last() =~= self.name.segments@.subrange(0, i as int));
            if i == 0 {
                assert(out@ =~= next[0]@);
            } else {
                assert(out@ =~= before + seq![':', ':'] + next.last()@);
            }
            i = i + 1;
        }
        assert(self.name.segments@.subrange(0, n as int) =~= self.name.segments@);
        out
    }
}

} // verus!
