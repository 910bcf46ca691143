//! Float literals: mantissa digits, optional exponent and optional suffix.

use vstd::prelude::*;
use crate::integer::{digits_value, without_underscores, strip_underscores, read_value_in};
use crate::text::{chars_of, decimal, ends_with, ends_with_exec, push_char, push_decimal, string_of};

verus! {

/// The type suffix a float literal may carry.
#[derive(Debug, Clone, Copy, PartialEq, Eq, Structural)]
pub enum FloatSuffix {
    F32,
    F64,
}

/// The source spelling of a float suffix.
pub open spec fn float_suffix_text(x: FloatSuffix) -> Seq<char> {
    match x {
        FloatSuffix::F32 => seq!['f', '3', '2'],
        FloatSuffix::F64 => seq!['f', '6', '4'],
    }
}

/// The float suffix a lexeme ends with.
pub open spec fn float_suffix_of(s: Seq<char>) -> Option<FloatSuffix> {
    if ends_with(s, float_suffix_text(FloatSuffix::F32)) {
        Some(FloatSuffix::F32)
    } else if ends_with(s, float_suffix_text(FloatSuffix::F64)) {
        Some(FloatSuffix::F64)
    } else {
        None
    }
}

impl FloatSuffix {
    /// The source spelling of the suffix.
    pub fn to_text(&self) -> (r: String)
        ensures
            r@ == float_suffix_text(*self),
    {
        let cs = float_suffix_chars(*self);
        string_of(&cs, 0, cs.len())
    }
}

fn float_suffix_chars(x: FloatSuffix) -> (r: Vec<char>)
    ensures
        r@ == float_suffix_text(x),
{
    match x {
        FloatSuffix::F32 => vec!['f', '3', '2'],
        FloatSuffix::F64 => vec!['f', '6', '4'],
    }
}

/// The exponent of a float literal, by the sign it was written with.
#[derive(Debug, Clone, Copy, PartialEq, Eq, Structural)]
pub enum FloatExponent {
    /// `e+N`
    Positive(u32),
    /// `e-N`
    Negative(u32),
    /// `eN`
    Unsigned(u32),
}

/// A float literal: the digits before the exponent with `_` separators
/// removed, the exponent, and the suffix.
#[derive(Debug, Clone, PartialEq)]
pub struct FloatLiteral {
    pub digits: String,
    pub exponent: Option<FloatExponent>,
    pub suffix: Option<FloatSuffix>,
}

/// Builds a [`FloatLiteral`] field by field; `digits` must be given,
/// `exponent` and `suffix` default to none.
#[derive(Debug, Clone)]
pub struct FloatLiteralBuilder {
    pub digits: Option<String>,
    pub exponent: Option<Option<FloatExponent>>,
    pub suffix: Option<Option<FloatSuffix>>,
}

impl FloatLiteralBuilder {
    pub fn digits(self, value: String) -> (r: FloatLiteralBuilder)
        ensures
            r.digits == Some(value),
            r.exponent == self.exponent,
            r.suffix == self.suffix,
    {
        FloatLiteralBuilder { digits: Some(value), exponent: self.exponent, suffix: self.suffix }
    }

    pub fn exponent(self, value: Option<FloatExponent>) -> (r: FloatLiteralBuilder)
        ensures
            r.digits == self.digits,
            r.exponent == Some(value),
            r.suffix == self.suffix,
    {
        FloatLiteralBuilder { digits: self.digits, exponent: Some(value), suffix: self.suffix }
    }

    pub fn suffix(self, value: Option<FloatSuffix>) -> (r: FloatLiteralBuilder)
        ensures
            r.digits == self.digits,
            r.exponent == self.exponent,
            r.suffix == Some(value),
    {
        FloatLiteralBuilder { digits: self.digits, exponent: self.exponent, suffix: Some(value) }
    }

    /// The literal with the fields set so far; fails when no digits were given.
    pub fn build(self) -> (r: Result<FloatLiteral, crate::integer::BuildError>)
        ensures
            self.digits is None <==> r is Err,
            r is Ok ==> r->Ok_0.digits == self.digits->0 && r->Ok_0.exponent == (match self.exponent {
                Some(x) => x,
                None => None,
            }) && r->Ok_0.suffix == (match self.suffix {
                Some(x) => x,
                None => None,
            }),
    {
        match self.digits {
            None => Err(crate::integer::BuildError::MissingDigits),
            Some(d) => {
                let exponent = match self.exponent {
                    Some(x) => x,
                    None => None,
                };
                let suffix = match self.suffix {
                    Some(x) => x,
                    None => None,
                };
                Ok(FloatLiteral { digits: d, exponent, suffix })
            },
        }
    }
}

impl FloatLiteral {
    pub fn new(digits: String, exponent: Option<FloatExponent>, suffix: Option<FloatSuffix>) -> (r: FloatLiteral)
        ensures
            r.digits == digits,
            r.exponent == exponent,
            r.suffix == suffix,
    {
        FloatLiteral { digits, exponent, suffix }
    }

    /// An empty builder.
    pub fn builder() -> (r: FloatLiteralBuilder)
        ensures
            r.digits is None,
            r.exponent is None,
            r.suffix is None,
    {
        FloatLiteralBuilder { digits: None, exponent: None, suffix: None }
    }
}

/// A lexeme without its float suffix.
pub open spec fn float_number_part(s: Seq<char>) -> Seq<char> {
    match float_suffix_of(s) {
        Some(x) => s.subrange(0, s.len() - 3),
        None => s,
    }
}

/// The index of the first `e` or `E` at or after `i`, or the length when there is none.
pub open spec fn exponent_mark(n: Seq<char>, i: int) -> int
    decreases n.len() - i,
{
    if i < 0 || i >= n.len() {
        n.len() as int
    } else if n[i] == 'e' || n[i] == 'E' {
        i
    } else {
        exponent_mark(n, i + 1)
    }
}

/// The value of exponent digits (separators removed), when it fits a `u32`.
pub open spec fn exponent_value(t: Seq<char>) -> Option<u32> {
    match digits_value(without_underscores(t), 10, u32::MAX as nat) {
        Ok(v) => Some(v as u32),
        Err(_) => None,
    }
}

/// The exponent written in `t`, the text after the `e`: its first character
/// chooses the sign, the rest is the value.
pub open spec fn exponent_of(t: Seq<char>) -> Option<FloatExponent> {
    if t.len() == 0 {
        None
    } else if t[0] == '+' {
        match exponent_value(t.drop_first()) {
            Some(v) => Some(FloatExponent::Positive(v)),
            None => None,
        }
    } else if t[0] == '-' {
        match exponent_value(t.drop_first()) {
            Some(v) => Some(FloatExponent::Negative(v)),
            None => None,
        }
    } else if '0' <= t[0] && t[0] <= '9' {
        match exponent_value(t) {
            Some(v) => Some(FloatExponent::Unsigned(v)),
            None => None,
        }
    } else {
        None
    }
}

/// The scanned form of a float lexeme: digits (separators removed),
/// exponent and suffix, or
/// `None` when an exponent mark is not followed by a valid exponent.
pub open spec fn scan_float_spec(s: Seq<char>) -> Option<(Seq<char>, Option<FloatExponent>, Option<FloatSuffix>)> {
    let n = float_number_part(s);
    let m = exponent_mark(n, 0);
    if m < n.len() {
        match exponent_of(n.subrange(m + 1, n.len() as int)) {
            Some(e) => Some((without_underscores(n.subrange(0, m)), Some(e), float_suffix_of(s))),
            None => None,
        }
    } else {
        Some((without_underscores(n), None, float_suffix_of(s)))
    }
}

fn exponent_value_exec(cs: &Vec<char>, from: usize, to: usize) -> (r: Option<u32>)
    requires
        from <= to <= cs@.len(),
    ensures
        r == exponent_value(cs@.subrange(from as int, to as int)),
{
    let stripped = strip_underscores(cs, from, to);
    let ds = chars_of(stripped.as_str());
    match read_value_in(&ds, 10, u32::MAX as u64) {
        Ok(v) => Some(v as u32),
        Err(_) => None,
    }
}

/// Scans a float lexeme `cs[from..to]`.
pub(crate) fn scan_float(cs: &Vec<char>, from: usize, to: usize) -> (r: Option<FloatLiteral>)
    requires
        from <= to <= cs@.len(),
    ensures
        r is Some <==> scan_float_spec(cs@.subrange(from as int, to as int)) is Some,
        r matches Some(lit) ==> ({
            let (d, e, x) = scan_float_spec(cs@.subrange(from as int, to as int))->0;
            lit.digits@ == d && lit.exponent == e && lit.suffix == x
        }),
{
    let ghost s = cs@.subrange(from as int, to as int);
    let f32_text = vec!['f', '3', '2'];
    let f64_text = vec!['f', '6', '4'];
    let suffix = if ends_with_exec(cs, from, to, &f32_text) {
        Some(FloatSuffix::F32)
    } else if ends_with_exec(cs, from, to, &f64_text) {
        Some(FloatSuffix::F64)
    } else {
        None
    };
    let end = match suffix {
        Some(_) => to - 3,
        None => to,
    };
    let ghost n = float_number_part(s);
    assert(cs@.subrange(from as int, end as int) =~= n);
    let mut m: usize = from;
    while m < end && cs[m] != 'e' && cs[m] != 'E'
        invariant
            from <= m <= end <= cs@.len(),
            n == cs@.subrange(from as int, end as int),
            exponent_mark(n, 0) == exponent_mark(n, m - from),
        decreases end - m,
    {
        m = m + 1;
    }
    if m < end {
        assert(exponent_mark(n, 0) == m - from);
        let digits = strip_underscores(cs, from, m);
        assert(cs@.subrange(from as int, m as int) =~= n.subrange(0, m - from));
        let ghost t = n.subrange(m - from + 1, n.len() as int);
        assert(t =~= cs@.subrange(m + 1, end as int));
        if m + 1 >= end {
            return None;
        }
        let c = cs[m + 1];
        assert(t[0] == c);
        let exponent = if c == '+' || c == '-' {
            assert(t.drop_first() =~= cs@.subrange(m + 2, end as int));
            match exponent_value_exec(cs, m + 2, end) {
                Some(v) => if c == '+' {
                    FloatExponent::Positive(v)
                } else {
                    FloatExponent::Negative(v)
                },
                None => {
                    return None;
                },
            }
        } else if '0' <= c && c <= '9' {
            match exponent_value_exec(cs, m + 1, end) {
                Some(v) => FloatExponent::Unsigned(v),
                None => {
                    return None;
                },
            }
        } else {
            return None;
        };
        Some(FloatLiteral { digits, exponent: Some(exponent), suffix })
    } else {
        assert(exponent_mark(n, 0) == n.len());
        let digits = strip_underscores(cs, from, end);
        Some(FloatLiteral { digits, exponent: None, suffix })
    }
}

/// Scans a float lexeme such as `1.5e-3f64` into its digits, exponent and
/// suffix; `None` when the text after an `e` is not a valid exponent.
pub fn parse_float(raw: &str) -> (r: Option<FloatLiteral>)
    ensures
        r is Some <==> scan_float_spec(raw@) is Some,
        r matches Some(lit) ==> ({
            let (d, e, x) = scan_float_spec(raw@)->0;
            lit.digits@ == d && lit.exponent == e && lit.suffix == x
        }),
{
    let cs = chars_of(raw);
    assert(cs@.subrange(0, cs@.len() as int) =~= raw@);
    scan_float(&cs, 0, cs.len())
}

impl FloatLiteral {
    /// An equal, independent copy.
    pub fn copy(&self) -> (r: FloatLiteral)
        ensures
            r == *self,
    {
        FloatLiteral { digits: self.digits.clone(), exponent: self.exponent, suffix: self.suffix }
    }
}

/// The source spelling of an exponent: `e+N`, `e-N` or `eN`.
pub open spec fn exponent_text(e: FloatExponent) -> Seq<char> {
    match e {
        FloatExponent::Positive(v) => seq!['e', '+'] + decimal(v as nat),
        FloatExponent::Negative(v) => seq!['e', '-'] + decimal(v as nat),
        FloatExponent::Unsigned(v) => seq!['e'] + decimal(v as nat),
    }
}

impl FloatSuffix {
    /// The suffix spelled exactly `s`, if any.
    pub fn from_text(s: &str) -> (r: Option<FloatSuffix>)
        ensures
            r matches Some(x) ==> float_suffix_text(x) == s@,
            r is None ==> s@ != float_suffix_text(FloatSuffix::F32) && s@ != float_suffix_text(FloatSuffix::F64),
    {
        let cs = chars_of(s);
        if cs.len() != 3 || cs[0] != 'f' {
            return None;
        }
        if cs[1] == '3' && cs[2] == '2' {
            assert(cs@ =~= float_suffix_text(FloatSuffix::F32));
            Some(FloatSuffix::F32)
        } else if cs[1] == '6' && cs[2] == '4' {
            assert(cs@ =~= float_suffix_text(FloatSuffix::F64));
            Some(FloatSuffix::F64)
        } else {
            None
        }
    }
}

impl FloatExponent {
    /// The source spelling of the exponent.
    pub fn to_text(&self) -> (r: String)
        ensures
            r@ == exponent_text(*self),
    {
        let mut out = String::new();
        push_char(&mut out, 'e');
        match *self {
            FloatExponent::Positive(v) => {
                push_char(&mut out, '+');
                push_decimal(&mut out, v as u64);
            },
            FloatExponent::Negative(v) => {
                push_char(&mut out, '-');
                push_decimal(&mut out, v as u64);
            },
            FloatExponent::Unsigned(v) => {
                push_decimal(&mut out, v as u64);
            },
        }
        assert(out@ =~= exponent_text(*self));
        out
    }
}

impl FloatLiteral {
    /// The literal as written: digits, exponent, suffix.
    pub fn to_text(&self) -> (r: String)
        ensures
            r@ == self.digits@ + (match self.exponent {
                Some(e) => exponent_text(e),
                None => Seq::empty(),
            }) + (match self.suffix {
                Some(x) => float_suffix_text(x),
                None => Seq::empty(),
            }),
    {
        let mut out = String::new();
        out.append(self.digits.as_str());
        assert(out@ =~= self.digits@);
        match self.exponent {
            Some(e) => {
                let t = e.to_text();
                out.append(t.as_str());
            },
            None => {
                assert(out@ =~= out@ + Seq::<char>::empty());
            },
        }
        let ghost mid = out@;
        match self.suffix {
            Some(x) => {
                let t = x.to_text();
                out.append(t.as_str());
            },
            None => {
                assert(out@ =~= mid + Seq::<char>::empty());
            },
        }
        out
    }
}

/// Characters of a float mantissa: digits, `_` and `.`.
pub open spec fn mantissa_chars_ok(m: Seq<char>) -> bool {
    forall|i: int| 0 <= i < m.len() ==> (#[trigger] m[i] == '_' || m[i] == '.' || ('0' <= m[i] && m[i] <= '9'))
}

/// Characters of exponent digits: digits and `_`, starting with a digit.
pub open spec fn exponent_digits_ok(x: Seq<char>) -> bool {
    x.len() >= 1 && '0' <= x[0] && x[0] <= '9' && forall|i: int|
        0 <= i < x.len() ==> (#[trigger] x[i] == '_' || ('0' <= x[i] && x[i] <= '9'))
}

/// The exponent part `e`, a sign (`+`, `-` or none) and the digits `x`; nothing when `x` is absent.
pub open spec fn exponent_part(sign: Seq<char>, x: Option<Seq<char>>) -> Seq<char> {
    match x {
        Some(d) => seq!['e'] + sign + d,
        None => Seq::empty(),
    }
}

proof fn lemma_mark_past_mantissa(n: Seq<char>, mlen: int, i: int)
    requires
        0 <= i <= mlen <= n.len(),
        forall|j: int| 0 <= j < mlen ==> n[j] != 'e' && n[j] != 'E',
    ensures
        exponent_mark(n, i) == exponent_mark(n, mlen),
    decreases mlen - i,
{
    if i < mlen {
        lemma_mark_past_mantissa(n, mlen, i + 1);
    }
}

/// What a float lexeme `m + exponent + suffix` scans to.
proof fn lemma_float_shape(m: Seq<char>, sign: Seq<char>, x: Option<Seq<char>>, suffix: Option<FloatSuffix>)
    requires
        mantissa_chars_ok(m),
        sign == Seq::<char>::empty() || sign == seq!['+'] || sign == seq!['-'],
        x matches Some(d) ==> exponent_digits_ok(d),
    ensures
        ({
            let sfx = match suffix {
                Some(k) => float_suffix_text(k),
                None => Seq::<char>::empty(),
            };
            scan_float_spec(m + exponent_part(sign, x) + sfx) == match x {
                Some(d) => match exponent_of(sign + d) {
                    Some(e) => Some((without_underscores(m), Some(e), suffix)),
                    None => None,
                },
                None => Some((without_underscores(m), None, suffix)),
            }
        }),
{
    let sfx = match suffix {
        Some(k) => float_suffix_text(k),
        None => Seq::<char>::empty(),
    };
    let ep = exponent_part(sign, x);
    let n = m + ep;
    let s = n + sfx;
    assert(forall|i: int| 0 <= i < n.len() ==> n[i] != 'f') by {
        assert forall|i: int| 0 <= i < n.len() implies n[i] != 'f' by {
            if i >= m.len() {
                let j = i - m.len();
                match x {
                    Some(d) => {
                        assert(ep == seq!['e'] + sign + d);
                        if j == 0 {
                            assert(n[i] == 'e');
                        } else if j < 1 + sign.len() {
                            assert(n[i] == sign[j - 1]);
                        } else {
                            assert(n[i] == d[j - 1 - sign.len()]);
                        }
                    },
                    None => {},
                }
            }
        }
    }
    match suffix {
        Some(k) => {
            assert(s.subrange(s.len() - 3, s.len() as int) =~= float_suffix_text(k));
            if k == FloatSuffix::F64 {
                assert(s.subrange(s.len() - 3, s.len() as int)[2] != float_suffix_text(FloatSuffix::F32)[2]);
            }
            assert(float_number_part(s) =~= n);
        },
        None => {
            assert(s =~= n);
            if n.len() >= 3 {
                assert(n.subrange(n.len() - 3, n.len() as int)[0] == n[n.len() - 3]);
            }
            assert(float_number_part(s) =~= n);
        },
    }
    lemma_mark_past_mantissa(n, m.len() as int, 0);
    match x {
        Some(d) => {
            assert(n[m.len() as int] == 'e');
            assert(exponent_mark(n, m.len() as int) == m.len());
            assert(n.subrange(0, m.len() as int) =~= m);
            assert(n.subrange(m.len() as int + 1, n.len() as int) =~= sign + d);
        },
        None => {
            assert(n =~= m);
            assert(exponent_mark(n, m.len() as int) == n.len());
        },
    }
}

/// Underscore placement never changes a float literal: lexemes whose
/// mantissas agree once every `_` is removed, with the same exponent sign,
/// exponent digits that agree without `_`, and the same suffix, scan alike.
pub proof fn lemma_float_underscores_irrelevant(
    m1: Seq<char>,
    m2: Seq<char>,
    sign: Seq<char>,
    x1: Option<Seq<char>>,
    x2: Option<Seq<char>>,
    suffix: Option<FloatSuffix>,
)
    requires
        mantissa_chars_ok(m1),
        mantissa_chars_ok(m2),
        without_underscores(m1) == without_underscores(m2),
        sign == Seq::<char>::empty() || sign == seq!['+'] || sign == seq!['-'],
        x1 is Some <==> x2 is Some,
        x1 matches Some(d) ==> exponent_digits_ok(d),
        x2 matches Some(d) ==> exponent_digits_ok(d),
        x1 is Some ==> without_underscores(x1->0) == without_underscores(x2->0),
    ensures
        ({
            let sfx = match suffix {
                Some(k) => float_suffix_text(k),
                None => Seq::<char>::empty(),
            };
            scan_float_spec(m1 + exponent_part(sign, x1) + sfx) == scan_float_spec(m2 + exponent_part(sign, x2) + sfx)
        }),
{
    lemma_float_shape(m1, sign, x1, suffix);
    lemma_float_shape(m2, sign, x2, suffix);
    if x1 is Some {
        let d1 = x1->0;
        let d2 = x2->0;
        if sign.len() == 0 {
            assert(sign + d1 =~= d1);
            assert(sign + d2 =~= d2);
        } else {
            assert((sign + d1).drop_first() =~= d1);
            assert((sign + d2).drop_first() =~= d2);
            assert((sign + d1)[0] == sign[0]);
            assert((sign + d2)[0] == sign[0]);
        }
    }
}

} // verus!
