//! Integer literals: base, digits without separators, and type suffix.

use vstd::prelude::*;
use crate::error::{LexicalError, Span};
use crate::text::{chars_of, ends_with, push_char, starts_with, starts_with_exec};

verus! {

/// The radix an integer literal is written in.
#[derive(Debug, Clone, Copy, PartialEq, Eq, Structural)]
pub enum Base {
    Binary,
    Octal,
    Decimal,
    Hex,
}

impl Default for Base {
    fn default() -> (r: Base)
        ensures
            r == Base::Decimal,
    {
        Base::Decimal
    }
}

/// The radix of a base as a number.
pub open spec fn radix_of(b: Base) -> nat {
    match b {
        Base::Binary => 2,
        Base::Octal => 8,
        Base::Decimal => 10,
        Base::Hex => 16,
    }
}

/// The type suffix an integer literal may carry.
#[derive(Debug, Clone, Copy, PartialEq, Eq, Structural)]
pub enum IntegerSuffix {
    U8,
    U16,
    U32,
    U64,
    I8,
    I16,
    I32,
    I64,
    USize,
    ISize,
}

impl Default for IntegerSuffix {
    fn default() -> (r: IntegerSuffix)
        ensures
            r == IntegerSuffix::I32,
    {
        IntegerSuffix::I32
    }
}

/// The source spelling of a suffix.
pub open spec fn int_suffix_text(x: IntegerSuffix) -> Seq<char> {
    match x {
        IntegerSuffix::U8 => seq!['u', '8'],
        IntegerSuffix::U16 => seq!['u', '1', '6'],
        IntegerSuffix::U32 => seq!['u', '3', '2'],
        IntegerSuffix::U64 => seq!['u', '6', '4'],
        IntegerSuffix::I8 => seq!['i', '8'],
        IntegerSuffix::I16 => seq!['i', '1', '6'],
        IntegerSuffix::I32 => seq!['i', '3', '2'],
        IntegerSuffix::I64 => seq!['i', '6', '4'],
        IntegerSuffix::USize => seq!['u', 's', 'i', 'z', 'e'],
        IntegerSuffix::ISize => seq!['i', 's', 'i', 'z', 'e'],
    }
}

/// The suffix a lexeme ends with, looked up in table order.
pub open spec fn int_suffix_of(s: Seq<char>) -> Option<IntegerSuffix> {
    if ends_with(s, int_suffix_text(IntegerSuffix::U8)) {
        Some(IntegerSuffix::U8)
    } else if ends_with(s, int_suffix_text(IntegerSuffix::U16)) {
        Some(IntegerSuffix::U16)
    } else if ends_with(s, int_suffix_text(IntegerSuffix::U32)) {
        Some(IntegerSuffix::U32)
    } else if ends_with(s, int_suffix_text(IntegerSuffix::U64)) {
        Some(IntegerSuffix::U64)
    } else if ends_with(s, int_suffix_text(IntegerSuffix::I8)) {
        Some(IntegerSuffix::I8)
    } else if ends_with(s, int_suffix_text(IntegerSuffix::I16)) {
        Some(IntegerSuffix::I16)
    } else if ends_with(s, int_suffix_text(IntegerSuffix::I32)) {
        Some(IntegerSuffix::I32)
    } else if ends_with(s, int_suffix_text(IntegerSuffix::I64)) {
        Some(IntegerSuffix::I64)
    } else if ends_with(s, int_suffix_text(IntegerSuffix::USize)) {
        Some(IntegerSuffix::USize)
    } else if ends_with(s, int_suffix_text(IntegerSuffix::ISize)) {
        Some(IntegerSuffix::ISize)
    } else {
        None
    }
}

/// The spelling of a suffix as text.
pub open spec fn int_suffix_from_text(s: Seq<char>) -> Option<IntegerSuffix> {
    if int_suffix_of(s) is Some && int_suffix_text(int_suffix_of(s)->0) == s {
        int_suffix_of(s)
    } else {
        None
    }
}

impl IntegerSuffix {
    /// The suffix spelled exactly `s`, if any.
    pub fn from_text(s: &str) -> (r: Option<IntegerSuffix>)
        ensures
            r == int_suffix_from_text(s@),
    {
        let cs = chars_of(s);
        let n = cs.len();
        let x = int_suffix_in(&cs, 0, n);
        match x {
            Some(v) => {
                let t = int_suffix_chars(v);
                if t.len() == n {
                    assert(cs@.subrange(0, n as int) =~= cs@);
                    assert(cs@.subrange(n - t@.len(), n as int) =~= cs@);
                    Some(v)
                } else {
                    None
                }
            },
            None => None,
        }
    }

    /// The source spelling of the suffix.
    pub fn to_text(&self) -> (r: String)
        ensures
            r@ == int_suffix_text(*self),
    {
        let cs = int_suffix_chars(*self);
        crate::text::string_of(&cs, 0, cs.len())
    }
}

fn int_suffix_chars(x: IntegerSuffix) -> (r: Vec<char>)
    ensures
        r@ == int_suffix_text(x),
{
    match x {
        IntegerSuffix::U8 => vec!['u', '8'],
        IntegerSuffix::U16 => vec!['u', '1', '6'],
        IntegerSuffix::U32 => vec!['u', '3', '2'],
        IntegerSuffix::U64 => vec!['u', '6', '4'],
        IntegerSuffix::I8 => vec!['i', '8'],
        IntegerSuffix::I16 => vec!['i', '1', '6'],
        IntegerSuffix::I32 => vec!['i', '3', '2'],
        IntegerSuffix::I64 => vec!['i', '6', '4'],
        IntegerSuffix::USize => vec!['u', 's', 'i', 'z', 'e'],
        IntegerSuffix::ISize => vec!['i', 's', 'i', 'z', 'e'],
    }
}

fn ends_with_suffix(cs: &Vec<char>, from: usize, to: usize, x: IntegerSuffix) -> (r: bool)
    requires
        from <= to <= cs@.len(),
    ensures
        r == ends_with(cs@.subrange(from as int, to as int), int_suffix_text(x)),
{
    let t = int_suffix_chars(x);
    crate::text::ends_with_exec(cs, from, to, &t)
}

/// The suffix that `cs[from..to]` ends with.
fn int_suffix_in(cs: &Vec<char>, from: usize, to: usize) -> (r: Option<IntegerSuffix>)
    requires
        from <= to <= cs@.len(),
    ensures
        r == int_suffix_of(cs@.subrange(from as int, to as int)),
{
    if ends_with_suffix(cs, from, to, IntegerSuffix::U8) {
        Some(IntegerSuffix::U8)
    } else if ends_with_suffix(cs, from, to, IntegerSuffix::U16) {
        Some(IntegerSuffix::U16)
    } else if ends_with_suffix(cs, from, to, IntegerSuffix::U32) {
        Some(IntegerSuffix::U32)
    } else if ends_with_suffix(cs, from, to, IntegerSuffix::U64) {
        Some(IntegerSuffix::U64)
    } else if ends_with_suffix(cs, from, to, IntegerSuffix::I8) {
        Some(IntegerSuffix::I8)
    } else if ends_with_suffix(cs, from, to, IntegerSuffix::I16) {
        Some(IntegerSuffix::I16)
    } else if ends_with_suffix(cs, from, to, IntegerSuffix::I32) {
        Some(IntegerSuffix::I32)
    } else if ends_with_suffix(cs, from, to, IntegerSuffix::I64) {
        Some(IntegerSuffix::I64)
    } else if ends_with_suffix(cs, from, to, IntegerSuffix::USize) {
        Some(IntegerSuffix::USize)
    } else if ends_with_suffix(cs, from, to, IntegerSuffix::ISize) {
        Some(IntegerSuffix::ISize)
    } else {
        None
    }
}


/// An integer literal: its base, its digits with `_` separators removed,
/// and its optional type suffix.
#[derive(Debug, Clone, PartialEq)]
pub struct IntegerLiteral {
    pub base: Base,
    pub digits: String,
    pub suffix: Option<IntegerSuffix>,
}

/// Why the digits of an integer literal do not denote a value.
#[derive(Debug, Clone, Copy, PartialEq, Eq, Structural)]
pub enum IntError {
    /// There are no digits.
    Empty,
    /// A character is not a digit of the literal's radix.
    InvalidDigit,
    /// The value does not fit the target type.
    PosOverflow,
}

/// The value of `c` as a digit of the given radix, if it is one.
pub open spec fn digit_value(c: char, radix: nat) -> Option<nat> {
    let d: int = if '0' <= c && c <= '9' {
        c as int - '0' as int
    } else if 'a' <= c && c <= 'z' {
        c as int - 'a' as int + 10
    } else if 'A' <= c && c <= 'Z' {
        c as int - 'A' as int + 10
    } else {
        99
    };
    if d < radix {
        Some(d as nat)
    } else {
        None
    }
}

/// Reads the digits `s` left to right onto the running value `acc`, stopping
/// at the first character that is no digit or the first prefix whose value
/// exceeds `bound`.
pub open spec fn read_digits(s: Seq<char>, radix: nat, acc: nat, bound: nat) -> Result<nat, IntError>
    decreases s.len(),
{
    if s.len() == 0 {
        Ok(acc)
    } else {
        match digit_value(s[0], radix) {
            None => Err(IntError::InvalidDigit),
            Some(d) => {
                let next = acc * radix + d;
                if next > bound {
                    Err(IntError::PosOverflow)
                } else {
                    read_digits(s.drop_first(), radix, next, bound)
                }
            },
        }
    }
}

/// The value of a digit string in a radix, or why it has none, for values up to `bound`.
pub open spec fn digits_value(s: Seq<char>, radix: nat, bound: nat) -> Result<nat, IntError> {
    if s.len() == 0 {
        Err(IntError::Empty)
    } else if s[0] == '+' {
        if s.len() == 1 {
            Err(IntError::InvalidDigit)
        } else {
            read_digits(s.drop_first(), radix, 0, bound)
        }
    } else {
        read_digits(s, radix, 0, bound)
    }
}

/// `s` with every `_` removed.
pub open spec fn without_underscores(s: Seq<char>) -> Seq<char>
    decreases s.len(),
{
    if s.len() == 0 {
        s
    } else if s.last() == '_' {
        without_underscores(s.drop_last())
    } else {
        without_underscores(s.drop_last()).push(s.last())
    }
}

/// A lexeme without its integer suffix.
pub open spec fn int_number_part(s: Seq<char>) -> Seq<char> {
    match int_suffix_of(s) {
        Some(x) => s.subrange(0, s.len() - int_suffix_text(x).len()),
        None => s,
    }
}

/// The base a number part is written in, from its prefix.
pub open spec fn base_of_number(n: Seq<char>) -> Base {
    if starts_with(n, seq!['0', 'b']) {
        Base::Binary
    } else if starts_with(n, seq!['0', 'o']) {
        Base::Octal
    } else if starts_with(n, seq!['0', 'x']) {
        Base::Hex
    } else {
        Base::Decimal
    }
}

/// The digits of a number part: after its base prefix, separators removed.
pub open spec fn digits_of_number(n: Seq<char>) -> Seq<char> {
    if base_of_number(n) == Base::Decimal {
        without_underscores(n)
    } else {
        without_underscores(n.subrange(2, n.len() as int))
    }
}

/// The scanned form of an integer lexeme: base, digits and suffix.
pub open spec fn scan_integer_spec(s: Seq<char>) -> (Base, Seq<char>, Option<IntegerSuffix>) {
    let n = int_number_part(s);
    (base_of_number(n), digits_of_number(n), int_suffix_of(s))
}

/// Builds an [`IntegerLiteral`] field by field; `digits` must be given,
/// `base` defaults to decimal and `suffix` to none.
#[derive(Debug, Clone)]
pub struct IntegerLiteralBuilder {
    pub base: Option<Base>,
    pub digits: Option<String>,
    pub suffix: Option<Option<IntegerSuffix>>,
}

/// A builder was asked to build with a required field never set.
#[derive(Debug, Clone, Copy, PartialEq, Eq, Structural)]
pub enum BuildError {
    MissingDigits,
}

impl IntegerLiteralBuilder {
    pub fn base(self, value: Base) -> (r: IntegerLiteralBuilder)
        ensures
            r.base == Some(value),
            r.digits == self.digits,
            r.suffix == self.suffix,
    {
        IntegerLiteralBuilder { base: Some(value), digits: self.digits, suffix: self.suffix }
    }

    pub fn digits(self, value: String) -> (r: IntegerLiteralBuilder)
        ensures
            r.base == self.base,
            r.digits == Some(value),
            r.suffix == self.suffix,
    {
        IntegerLiteralBuilder { base: self.base, digits: Some(value), suffix: self.suffix }
    }

    pub fn suffix(self, value: Option<IntegerSuffix>) -> (r: IntegerLiteralBuilder)
        ensures
            r.base == self.base,
            r.digits == self.digits,
            r.suffix == Some(value),
    {
        IntegerLiteralBuilder { base: self.base, digits: self.digits, suffix: Some(value) }
    }

    /// The literal with the fields set so far; fails when no digits were given.
    pub fn build(self) -> (r: Result<IntegerLiteral, BuildError>)
        ensures
            self.digits is None <==> r is Err,
            r is Ok ==> r->Ok_0.digits == self.digits->0 && r->Ok_0.base == (match self.base {
                Some(b) => b,
                None => Base::Decimal,
            }) && r->Ok_0.suffix == (match self.suffix {
                Some(x) => x,
                None => None,
            }),
    {
        match self.digits {
            None => Err(BuildError::MissingDigits),
            Some(d) => {
                let base = match self.base {
                    Some(b) => b,
                    None => Base::Decimal,
                };
                let suffix = match self.suffix {
                    Some(x) => x,
                    None => None,
                };
                Ok(IntegerLiteral { base, digits: d, suffix })
            },
        }
    }
}

impl IntegerLiteral {
    pub fn new(base: Base, digits: String, suffix: Option<IntegerSuffix>) -> (r: IntegerLiteral)
        ensures
            r.base == base,
            r.digits == digits,
            r.suffix == suffix,
    {
        IntegerLiteral { base, digits, suffix }
    }

    /// An empty builder.
    pub fn builder() -> (r: IntegerLiteralBuilder)
        ensures
            r.base is None,
            r.digits is None,
            r.suffix is None,
    {
        IntegerLiteralBuilder { base: None, digits: None, suffix: None }
    }

    /// The base of the literal.
    pub fn base(&self) -> (r: &Base)
        ensures
            *r == self.base,
    {
        &self.base
    }

    /// The digits, without base prefix, suffix or separators.
    pub fn digits(&self) -> (r: &str)
        ensures
            r@ == self.digits@,
    {
        self.digits.as_str()
    }

    /// The suffix, if present.
    pub fn suffix(&self) -> (r: Option<&IntegerSuffix>)
        ensures
            r matches Some(x) ==> self.suffix == Some(*x),
            r is None <==> self.suffix is None,
    {
        match &self.suffix {
            Some(x) => Some(x),
            None => None,
        }
    }

    /// The value of the literal in its radix. A leading `+` is allowed, as
    /// std's radix parse allows it; `-` or a lone `+` is `InvalidDigit`.
    pub fn as_u64(&self) -> (r: Result<u64, IntError>)
        ensures
            r matches Ok(v) ==> digits_value(self.digits@, radix_of(self.base), u64::MAX as nat)
                == Ok::<nat, IntError>(v as nat),
            r matches Err(e) ==> digits_value(self.digits@, radix_of(self.base), u64::MAX as nat)
                == Err::<nat, IntError>(e),
    {
        let radix: u64 = match self.base {
            Base::Binary => 2,
            Base::Octal => 8,
            Base::Decimal => 10,
            Base::Hex => 16,
        };
        read_value_in(&chars_of(self.digits.as_str()), radix, u64::MAX)
    }

    /// The value of the literal in its radix, as a `usize`: the `u64`
    /// reading, with `PosOverflow` when that value does not fit.
    pub fn as_usize(&self) -> (r: Result<usize, IntError>)
        ensures
            r matches Ok(v) ==> digits_value(self.digits@, radix_of(self.base), u64::MAX as nat)
                == Ok::<nat, IntError>(v as nat),
            r matches Err(e) ==> digits_value(self.digits@, radix_of(self.base), u64::MAX as nat)
                == Err::<nat, IntError>(e) || (e == IntError::PosOverflow && (digits_value(
                self.digits@,
                radix_of(self.base),
                u64::MAX as nat,
            ) matches Ok(w) && w > usize::MAX)),
    {
        match self.as_u64() {
            Ok(v) => if v > usize::MAX as u64 {
                Err(IntError::PosOverflow)
            } else {
                Ok(v as usize)
            },
            Err(e) => Err(e),
        }
    }

    /// The literal as written: base prefix, digits, suffix.
    pub fn to_text(&self) -> (r: String)
        ensures
            r@ == base_prefix(self.base) + self.digits@ + match self.suffix {
                Some(x) => int_suffix_text(x),
                None => Seq::empty(),
            },
    {
        let mut out = String::new();
        match self.base {
            Base::Binary => {
                push_char(&mut out, '0');
                push_char(&mut out, 'b');
            },
            Base::Octal => {
                push_char(&mut out, '0');
                push_char(&mut out, 'o');
            },
            Base::Decimal => {},
            Base::Hex => {
                push_char(&mut out, '0');
                push_char(&mut out, 'x');
            },
        }
        assert(out@ =~= base_prefix(self.base));
        out.append(self.digits.as_str());
        match self.suffix {
            Some(x) => {
                let t = x.to_text();
                out.append(t.as_str());
            },
            None => {
                assert(out@ =~= out@ + Seq::<char>::empty());
            },
        }
        out
    }
}

/// The prefix that marks a base in source text.
pub open spec fn base_prefix(b: Base) -> Seq<char> {
    match b {
        Base::Binary => seq!['0', 'b'],
        Base::Octal => seq!['0', 'o'],
        Base::Decimal => Seq::empty(),
        Base::Hex => seq!['0', 'x'],
    }
}

fn digit_value_exec(c: char, radix: u64) -> (r: Option<u64>)
    requires
        2 <= radix <= 16,
    ensures
        r matches Some(d) ==> digit_value(c, radix as nat) == Some(d as nat),
        r is None ==> digit_value(c, radix as nat) is None,
{
    let d: u64 = if '0' <= c && c <= '9' {
        (c as u32 - '0' as u32) as u64
    } else if 'a' <= c && c <= 'z' {
        (c as u32 - 'a' as u32 + 10) as u64
    } else if 'A' <= c && c <= 'Z' {
        (c as u32 - 'A' as u32 + 10) as u64
    } else {
        99
    };
    if d < radix {
        Some(d)
    } else {
        None
    }
}

pub(crate) fn read_value_in(ds: &Vec<char>, radix: u64, bound: u64) -> (r: Result<u64, IntError>)
    requires
        2 <= radix <= 16,
    ensures
        r matches Ok(v) ==> digits_value(ds@, radix as nat, bound as nat) == Ok::<nat, IntError>(v as nat) && v <= bound,
        r matches Err(e) ==> digits_value(ds@, radix as nat, bound as nat) == Err::<nat, IntError>(e),
{
    if ds.len() == 0 {
        return Err(IntError::Empty);
    }
    let mut acc: u64 = 0;
    let mut i: usize = 0;
    if ds[0] == '+' {
        if ds.len() == 1 {
            return Err(IntError::InvalidDigit);
        }
        i = 1;
        assert(ds@.subrange(1, ds@.len() as int) =~= ds@.drop_first());
    } else {
        assert(ds@.subrange(0, ds@.len() as int) =~= ds@);
    }
    while i < ds.len()
        invariant
            2 <= radix <= 16,
            i <= ds@.len(),
            acc <= bound,
            digits_value(ds@, radix as nat, bound as nat) == read_digits(
                ds@.subrange(i as int, ds@.len() as int),
                radix as nat,
                acc as nat,
                bound as nat,
            ),
        decreases ds@.len() - i,
    {
        let ghost rest = ds@.subrange(i as int, ds@.len() as int);
        assert(rest[0] == ds@[i as int]);
        assert(rest.drop_first() =~= ds@.subrange(i + 1, ds@.len() as int));
        let d = match digit_value_exec(ds[i], radix) {
            Some(d) => d,
            None => {
                return Err(IntError::InvalidDigit);
            },
        };
        let next: Option<u64> = match acc.checked_mul(radix) {
            Some(m) => m.checked_add(d),
            None => None,
        };
        match next {
            Some(n) => {
                if n > bound {
                    return Err(IntError::PosOverflow);
                }
                acc = n;
            },
            None => {
                assert(acc * radix + d > u64::MAX) by (nonlinear_arith)
                    requires
                        acc * radix > u64::MAX || acc * radix + d > u64::MAX,
                        d >= 0;
                return Err(IntError::PosOverflow);
            },
        }
        i = i + 1;
    }
    assert(ds@.subrange(i as int, ds@.len() as int) =~= Seq::<char>::empty());
    Ok(acc)
}

/// Scans an integer lexeme `cs[from..to]` into a literal; `span` locates it
/// in the source for the error.
pub(crate) fn scan_integer(cs: &Vec<char>, from: usize, to: usize, span: Span) -> (r: Result<IntegerLiteral, LexicalError>)
    requires
        from <= to <= cs@.len(),
    ensures
        ({
            let (b, d, x) = scan_integer_spec(cs@.subrange(from as int, to as int));
            &&& r is Ok <==> d.len() > 0
            &&& r matches Ok(lit) ==> lit.base == b && lit.digits@ == d && lit.suffix == x
            &&& r matches Err(e) ==> e matches LexicalError::InvalidInteger { span: sp, .. } && sp == span
        }),
{
    let ghost s = cs@.subrange(from as int, to as int);
    let suffix = int_suffix_in(cs, from, to);
    let end = match suffix {
        Some(x) => {
            let t = int_suffix_chars(x);
            to - t.len()
        },
        None => to,
    };
    assert(cs@.subrange(from as int, end as int) =~= int_number_part(s));
    let b_pre = vec!['0', 'b'];
    let o_pre = vec!['0', 'o'];
    let x_pre = vec!['0', 'x'];
    let base = if starts_with_exec(cs, from, end, &b_pre) {
        Base::Binary
    } else if starts_with_exec(cs, from, end, &o_pre) {
        Base::Octal
    } else if starts_with_exec(cs, from, end, &x_pre) {
        Base::Hex
    } else {
        Base::Decimal
    };
    let start = if base == Base::Decimal {
        from
    } else {
        from + 2
    };
    assert(cs@.subrange(start as int, end as int) =~= (if base == Base::Decimal {
        int_number_part(s)
    } else {
        int_number_part(s).subrange(2, int_number_part(s).len() as int)
    }));
    let digits = strip_underscores(cs, start, end);
    if digits.as_str().is_empty() {
        let mut reason = String::new();
        reason.append("integer literal cannot be empty");
        return Err(LexicalError::InvalidInteger { span, reason });
    }
    Ok(IntegerLiteral { base, digits, suffix })
}

/// The characters `cs[from..to]` without `_`.
pub(crate) fn strip_underscores(cs: &Vec<char>, from: usize, to: usize) -> (r: String)
    requires
        from <= to <= cs@.len(),
    ensures
        r@ == without_underscores(cs@.subrange(from as int, to as int)),
{
    let mut out = String::new();
    let mut i: usize = from;
    assert(cs@.subrange(from as int, from as int) =~= Seq::<char>::empty());
    while i < to
        invariant
            from <= i <= to <= cs@.len(),
            out@ == without_underscores(cs@.subrange(from as int, i as int)),
        decreases to - i,
    {
        let ghost next = cs@.subrange(from as int, i + 1);
        assert(next.drop_last() =~= cs@.subrange(from as int, i as int));
        assert(next.last() == cs@[i as int]);
        if cs[i] != '_' {
            push_char(&mut out, cs[i]);
        }
        i = i + 1;
    }
    out
}

/// Scans an integer lexeme such as `0x_FFu8` into its base, digits and
/// suffix. Fails with `InvalidInteger` at `span` when no digit remains.
pub fn parse_integer(raw: &str, span: Span) -> (r: Result<IntegerLiteral, LexicalError>)
    ensures
        ({
            let (b, d, x) = scan_integer_spec(raw@);
            &&& r is Ok <==> d.len() > 0
            &&& r matches Ok(lit) ==> lit.base == b && lit.digits@ == d && lit.suffix == x
            &&& r matches Err(e) ==> e matches LexicalError::InvalidInteger { span: sp, .. } && sp == span
        }),
{
    let cs = chars_of(raw);
    assert(cs@.subrange(0, cs@.len() as int) =~= raw@);
    scan_integer(&cs, 0, cs.len(), span)
}

impl IntegerLiteral {
    /// An equal, independent copy.
    pub fn copy(&self) -> (r: IntegerLiteral)
        ensures
            r == *self,
    {
        IntegerLiteral { base: self.base, digits: self.digits.clone(), suffix: self.suffix }
    }
}

/// No character of `s` is `u` or `i`, the letters integer suffixes begin with.
pub open spec fn free_of_suffix_letters(s: Seq<char>) -> bool {
    forall|i: int| 0 <= i < s.len() ==> s[i] != 'u' && s[i] != 'i'
}

/// A base prefix as written in source: `0b`, `0o`, `0x`, or nothing.
pub open spec fn is_base_prefix(p: Seq<char>) -> bool {
    p == seq!['0', 'b'] || p == seq!['0', 'o'] || p == seq!['0', 'x'] || p.len() == 0
}

/// Characters that may follow a base prefix: decimal digits and `_`, or for
/// a prefixed literal also the letters of hexadecimal digits.
pub open spec fn body_chars_ok(prefixed: bool, s: Seq<char>) -> bool {
    forall|i: int|
        0 <= i < s.len() ==> (#[trigger] s[i] == '_' || ('0' <= s[i] && s[i] <= '9') || (prefixed && (
        ('a' <= s[i] && s[i] <= 'f') || ('A' <= s[i] && s[i] <= 'F'))))
}

proof fn lemma_without_underscores_concat(a: Seq<char>, b: Seq<char>)
    ensures
        without_underscores(a + b) == without_underscores(a) + without_underscores(b),
    decreases b.len(),
{
    if b.len() == 0 {
        assert(a + b =~= a);
        assert(without_underscores(a) + without_underscores(b) =~= without_underscores(a));
    } else {
        lemma_without_underscores_concat(a, b.drop_last());
        assert((a + b).drop_last() =~= a + b.drop_last());
        assert((a + b).last() == b.last());
        if b.last() != '_' {
            assert(without_underscores(a) + without_underscores(b.drop_last()).push(b.last())
                =~= (without_underscores(a) + without_underscores(b.drop_last())).push(b.last()));
        }
    }
}

#[verifier::rlimit(60)]
proof fn lemma_not_ends(p: Seq<char>, k: IntegerSuffix, j: IntegerSuffix)
    requires
        free_of_suffix_letters(p),
        j != k,
    ensures
        !ends_with(p + int_suffix_text(k), int_suffix_text(j)),
{
    let s = p + int_suffix_text(k);
    let tk = int_suffix_text(k);
    let tj = int_suffix_text(j);
    if tj.len() <= s.len() {
        let w = s.subrange(s.len() - tj.len(), s.len() as int);
        if tj.len() > tk.len() {
            assert(w[0] == p[p.len() - (tj.len() - tk.len())]);
            assert(tj[0] == 'u' || tj[0] == 'i');
            assert(w[0] != tj[0]);
        } else {
            assert(w[0] == tk[tk.len() - tj.len()]);
            assert(w[1] == tk[tk.len() - tj.len() + 1]);
            assert(w[0] != tj[0] || w[1] != tj[1]);
        }
    }
}

proof fn lemma_suffix_found(p: Seq<char>, k: IntegerSuffix)
    requires
        free_of_suffix_letters(p),
    ensures
        int_suffix_of(p + int_suffix_text(k)) == Some(k),
{
    let s = p + int_suffix_text(k);
    let t = int_suffix_text(k);
    assert(s.subrange(s.len() - t.len(), s.len() as int) =~= t);
    if k != IntegerSuffix::U8 {
        lemma_not_ends(p, k, IntegerSuffix::U8);
    }
    if k != IntegerSuffix::U16 {
        lemma_not_ends(p, k, IntegerSuffix::U16);
    }
    if k != IntegerSuffix::U32 {
        lemma_not_ends(p, k, IntegerSuffix::U32);
    }
    if k != IntegerSuffix::U64 {
        lemma_not_ends(p, k, IntegerSuffix::U64);
    }
    if k != IntegerSuffix::I8 {
        lemma_not_ends(p, k, IntegerSuffix::I8);
    }
    if k != IntegerSuffix::I16 {
        lemma_not_ends(p, k, IntegerSuffix::I16);
    }
    if k != IntegerSuffix::I32 {
        lemma_not_ends(p, k, IntegerSuffix::I32);
    }
    if k != IntegerSuffix::I64 {
        lemma_not_ends(p, k, IntegerSuffix::I64);
    }
    if k != IntegerSuffix::USize {
        lemma_not_ends(p, k, IntegerSuffix::USize);
    }
}

proof fn lemma_suffix_absent(p: Seq<char>)
    requires
        free_of_suffix_letters(p),
    ensures
        int_suffix_of(p) is None,
{
    assert forall|j: IntegerSuffix| #[trigger] int_suffix_text(j).len() <= p.len() implies
        p.subrange(p.len() - int_suffix_text(j).len(), p.len() as int) != int_suffix_text(j) by {
        let tj = int_suffix_text(j);
        let w = p.subrange(p.len() - tj.len(), p.len() as int);
        assert(w[0] == p[p.len() - tj.len()]);
        assert(tj[0] == 'u' || tj[0] == 'i');
    }
}

/// Where the `_` separators of an integer literal stand does not matter:
/// putting one more between any two parts of its digits leaves the base,
/// the digits and the suffix the scanner reads unchanged.
pub proof fn lemma_underscore_placement(pre: Seq<char>, x: Seq<char>, y: Seq<char>, suffix: Option<IntegerSuffix>)
    requires
        is_base_prefix(pre),
        body_chars_ok(pre.len() > 0, x),
        body_chars_ok(pre.len() > 0, y),
    ensures
        ({
            let sfx = match suffix {
                Some(k) => int_suffix_text(k),
                None => Seq::<char>::empty(),
            };
            scan_integer_spec(pre + x + y + sfx) == scan_integer_spec(pre + x + seq!['_'] + y + sfx)
        }),
{
    let sfx = match suffix {
        Some(k) => int_suffix_text(k),
        None => Seq::<char>::empty(),
    };
    let n1 = pre + x + y;
    let n2 = pre + x + seq!['_'] + y;
    let s1 = n1 + sfx;
    let s2 = n2 + sfx;
    assert(pre + x + y + sfx =~= s1);
    assert(pre + x + seq!['_'] + y + sfx =~= s2);
    assert(free_of_suffix_letters(n1)) by {
        assert forall|i: int| 0 <= i < n1.len() implies n1[i] != 'u' && n1[i] != 'i' by {
            if i >= pre.len() + x.len() {
                assert(n1[i] == y[i - pre.len() - x.len()]);
            } else if i >= pre.len() {
                assert(n1[i] == x[i - pre.len()]);
            }
        }
    }
    assert(free_of_suffix_letters(n2)) by {
        assert forall|i: int| 0 <= i < n2.len() implies n2[i] != 'u' && n2[i] != 'i' by {
            if i > pre.len() + x.len() {
                assert(n2[i] == y[i - pre.len() - x.len() - 1]);
            } else if i >= pre.len() && i < pre.len() + x.len() {
                assert(n2[i] == x[i - pre.len()]);
            }
        }
    }
    match suffix {
        Some(k) => {
            lemma_suffix_found(n1, k);
            lemma_suffix_found(n2, k);
            assert(int_number_part(s1) =~= n1);
            assert(int_number_part(s2) =~= n2);
        },
        None => {
            assert(s1 =~= n1);
            assert(s2 =~= n2);
            lemma_suffix_absent(n1);
            lemma_suffix_absent(n2);
        },
    }
    // the base prefix decides the base in both
    if pre.len() == 0 {
        assert(!starts_with(n1, seq!['0', 'b']) && !starts_with(n1, seq!['0', 'o']) && !starts_with(n1, seq!['0', 'x'])) by {
            if n1.len() >= 2 {
                if x.len() >= 2 {
                    assert(n1[1] == x[1]);
                } else if x.len() == 1 {
                    assert(n1[1] == y[0]);
                } else {
                    assert(n1[1] == y[1]);
                }
                assert(n1.subrange(0, 2)[1] == n1[1]);
            }
        }
        assert(!starts_with(n2, seq!['0', 'b']) && !starts_with(n2, seq!['0', 'o']) && !starts_with(n2, seq!['0', 'x'])) by {
            if n2.len() >= 2 {
                if x.len() >= 2 {
                    assert(n2[1] == x[1]);
                } else if x.len() == 1 {
                    assert(n2[1] == '_');
                } else {
                    assert(n2[1] == y[0]);
                }
                assert(n2.subrange(0, 2)[1] == n2[1]);
            }
        }
        assert(n1 =~= x + y);
        assert(n2 =~= x + (seq!['_'] + y));
        lemma_without_underscores_concat(x, y);
        lemma_without_underscores_concat(x, seq!['_'] + y);
        lemma_without_underscores_concat(seq!['_'], y);
        assert(without_underscores(seq!['_']) =~= Seq::<char>::empty()) by {
            assert(seq!['_'].drop_last() =~= Seq::<char>::empty());
            assert(seq!['_'].last() == '_');
            assert(without_underscores(Seq::<char>::empty()) =~= Seq::<char>::empty());
        }
        assert(without_underscores(seq!['_'] + y) =~= without_underscores(y));
    } else {
        assert(n1.subrange(0, 2) =~= pre);
        assert(n2.subrange(0, 2) =~= pre);
        assert(n1.subrange(2, n1.len() as int) =~= x + y);
        assert(n2.subrange(2, n2.len() as int) =~= x + (seq!['_'] + y));
        lemma_without_underscores_concat(x, y);
        lemma_without_underscores_concat(x, seq!['_'] + y);
        lemma_without_underscores_concat(seq!['_'], y);
        assert(without_underscores(seq!['_']) =~= Seq::<char>::empty()) by {
            assert(seq!['_'].drop_last() =~= Seq::<char>::empty());
            assert(seq!['_'].last() == '_');
            assert(without_underscores(Seq::<char>::empty()) =~= Seq::<char>::empty());
        }
        assert(without_underscores(seq!['_'] + y) =~= without_underscores(y));
    }
}

/// What an integer lexeme `pre + b + suffix` scans to: the base its prefix
/// names, the body's digits without separators, and the suffix.
proof fn lemma_scan_shape(pre: Seq<char>, b: Seq<char>, suffix: Option<IntegerSuffix>)
    requires
        is_base_prefix(pre),
        body_chars_ok(pre.len() > 0, b),
    ensures
        ({
            let sfx = match suffix {
                Some(k) => int_suffix_text(k),
                None => Seq::<char>::empty(),
            };
            scan_integer_spec(pre + b + sfx) == (base_of_number(pre), without_underscores(b), suffix)
        }),
{
    let sfx = match suffix {
        Some(k) => int_suffix_text(k),
        None => Seq::<char>::empty(),
    };
    let n = pre + b;
    let s = n + sfx;
    assert(free_of_suffix_letters(n)) by {
        assert forall|i: int| 0 <= i < n.len() implies n[i] != 'u' && n[i] != 'i' by {
            if i >= pre.len() {
                assert(n[i] == b[i - pre.len()]);
            }
        }
    }
    match suffix {
        Some(k) => {
            lemma_suffix_found(n, k);
            assert(int_number_part(s) =~= n);
        },
        None => {
            assert(s =~= n);
            lemma_suffix_absent(n);
        },
    }
    if pre.len() == 0 {
        assert(n =~= b);
        assert(!starts_with(n, seq!['0', 'b']) && !starts_with(n, seq!['0', 'o']) && !starts_with(n, seq!['0', 'x'])) by {
            if n.len() >= 2 {
                assert(n.subrange(0, 2)[1] == b[1]);
            }
        }
        assert(!starts_with(pre, seq!['0', 'b']) && !starts_with(pre, seq!['0', 'o']) && !starts_with(pre, seq!['0', 'x']));
    } else {
        assert(n.subrange(0, 2) =~= pre);
        assert(pre.subrange(0, 2) =~= pre);
        assert(n.subrange(2, n.len() as int) =~= b);
    }
}

/// Underscore placement never changes an integer literal: two lexemes with
/// the same base prefix and suffix whose digits agree once every `_` is
/// removed scan to the same base, digits and suffix.
pub proof fn lemma_underscores_irrelevant(pre: Seq<char>, b1: Seq<char>, b2: Seq<char>, suffix: Option<IntegerSuffix>)
    requires
        is_base_prefix(pre),
        body_chars_ok(pre.len() > 0, b1),
        body_chars_ok(pre.len() > 0, b2),
        without_underscores(b1) == without_underscores(b2),
    ensures
        ({
            let sfx = match suffix {
                Some(k) => int_suffix_text(k),
                None => Seq::<char>::empty(),
            };
            scan_integer_spec(pre + b1 + sfx) == scan_integer_spec(pre + b2 + sfx)
        }),
{
    lemma_scan_shape(pre, b1, suffix);
    lemma_scan_shape(pre, b2, suffix);
}

} // verus!
