//! The layout transformer: turns significant indentation into explicit
//! `Indent` / `Dedent` tokens around the raw token stream.
//!
//! Its behaviour is modelled by [`layout`], a function from the raw items the
//! token lexer produced (newlines, and tokens with the indentation width of
//! their line) to the tokens emitted. The transformer keeps that model as
//! ghost state and proves that what it emits is exactly the model's output.

use vstd::prelude::*;
use crate::error::{LexicalError, Span};
use crate::lexer::{byte_span, lex_ok, lex_outcome, lex_span, lexed_token, LexKind, Lexer};
use crate::token::{keyword_of, operator_of};
use crate::token::Token;

verus! {

/// What the layout transformer reads from the token lexer: a newline, or a
/// token together with the indentation width of the line it stands on.
pub enum RawItem {
    Newline,
    Token(Token, usize),
}

/// Where reading resumes after the lexemes `ranges`: the end of the last one.
pub open spec fn items_end(ranges: Seq<(int, int)>) -> int {
    if ranges.len() == 0 {
        0
    } else {
        ranges.last().1
    }
}

/// A raw item is what the lexeme of kind `k` at `s..e` gives: a newline, or
/// its token with the indentation width of the line it starts on.
pub open spec fn item_matches(item: RawItem, cs: Seq<char>, s: int, e: int, k: LexKind) -> bool {
    match item {
        RawItem::Newline => k is Newline,
        RawItem::Token(t, w) => !(k is Newline) && lexed_token(k, cs.subrange(s, e), t) && w == capped_width(cs, s),
    }
}

/// Item `i` is the lexeme found where the previous one ended (at the start
/// for the first), and that lexeme is a token.
pub open spec fn lexed_item_at(items: Seq<RawItem>, ranges: Seq<(int, int)>, cs: Seq<char>, i: int) -> bool {
    let prev = if i == 0 {
        0
    } else {
        ranges[i - 1].1
    };
    let (s, e, k) = lex_span(cs, prev);
    &&& ranges[i] == (s, e)
    &&& !(k is End)
    &&& lex_ok(k, cs.subrange(s, e))
    &&& item_matches(items[i], cs, s, e, k)
}

/// The raw items are the successive lexemes of `cs` from its start, one
/// after the other, each a token; `ranges` says where each was read.
pub open spec fn lexed_items(items: Seq<RawItem>, ranges: Seq<(int, int)>, cs: Seq<char>) -> bool {
    &&& items.len() == ranges.len()
    &&& forall|i: int| 0 <= i < items.len() ==> #[trigger] lexed_item_at(items, ranges, cs, i)
}

/// The next lexeme from `pos` that is a token (or the end), stepping over
/// lexemes that raise an error: scanning resumes after rejected text.
pub open spec fn next_token_lexeme(cs: Seq<char>, pos: int) -> (int, int, LexKind)
    decreases cs.len() - pos,
{
    let (s, e, k) = lex_span(cs, pos);
    if !(k is End) && !lex_ok(k, cs.subrange(s, e)) && pos < e <= cs.len() {
        next_token_lexeme(cs, e)
    } else {
        (s, e, k)
    }
}

/// Item `i` is the next token lexeme after the previous item (after the
/// start for the first), with any rejected text between them stepped over.
pub open spec fn scanned_item_at(items: Seq<RawItem>, ranges: Seq<(int, int)>, cs: Seq<char>, i: int) -> bool {
    let prev = if i == 0 {
        0
    } else {
        ranges[i - 1].1
    };
    let (s, e, k) = next_token_lexeme(cs, prev);
    &&& ranges[i] == (s, e)
    &&& !(k is End)
    &&& lex_ok(k, cs.subrange(s, e))
    &&& item_matches(items[i], cs, s, e, k)
}

/// The raw items are the successive token lexemes of `cs`, rejected text
/// between them stepped over.
pub open spec fn scanned_items(items: Seq<RawItem>, ranges: Seq<(int, int)>, cs: Seq<char>) -> bool {
    &&& items.len() == ranges.len()
    &&& forall|i: int| 0 <= i < items.len() ==> #[trigger] scanned_item_at(items, ranges, cs, i)
}

proof fn lemma_push_scanned(items: Seq<RawItem>, ranges: Seq<(int, int)>, cs: Seq<char>, item: RawItem)
    requires
        scanned_items(items, ranges, cs),
        ({
            let (s, e, k) = next_token_lexeme(cs, items_end(ranges));
            !(k is End) && lex_ok(k, cs.subrange(s, e)) && item_matches(item, cs, s, e, k)
        }),
    ensures
        scanned_items(
            items.push(item),
            ranges.push((next_token_lexeme(cs, items_end(ranges)).0, next_token_lexeme(cs, items_end(ranges)).1)),
            cs,
        ),
{
    let (s, e, k) = next_token_lexeme(cs, items_end(ranges));
    let ni = items.push(item);
    let nr = ranges.push((s, e));
    assert forall|i: int| 0 <= i < ni.len() implies #[trigger] scanned_item_at(ni, nr, cs, i) by {
        if i < items.len() {
            assert(scanned_item_at(items, ranges, cs, i));
            assert(ni[i] == items[i]);
            assert(nr[i] == ranges[i]);
            if i > 0 {
                assert(nr[i - 1] == ranges[i - 1]);
            }
        } else {
            assert(ni[i] == item);
            assert(nr[i] == (s, e));
            if i > 0 {
                assert(nr[i - 1] == ranges[i - 1]);
            }
        }
    }
}

/// `ts` is the layout-aware token stream of `source`: the layout of the
/// successive lexemes of the whole text, all of them tokens.
pub open spec fn stream_of(source: Seq<char>, ts: Seq<Token>) -> bool {
    exists|items: Seq<RawItem>, ranges: Seq<(int, int)>|
        raw_items_ok(items) && lexed_items(items, ranges, source) && lex_span(source, items_end(ranges)).2 is End
            && ts == layout(items)
}

/// `e` is the first lexical error of `source`: the lexemes before it are
/// tokens, and the next one raises `e`.
pub open spec fn first_lex_error(source: Seq<char>, e: LexicalError) -> bool {
    exists|items: Seq<RawItem>, ranges: Seq<(int, int)>|
        lexed_items(items, ranges, source) && ({
            let (s, e2, k) = lex_span(source, items_end(ranges));
            lex_outcome(source, s, e2, k, Err(e))
        })
}

proof fn lemma_lexed_not_layout(k: LexKind, w: Seq<char>, t: Token)
    requires
        !(k is Newline),
        lexed_token(k, w, t),
    ensures
        !(t is Indent) && !(t is Dedent),
{
}

proof fn lemma_push_item(items: Seq<RawItem>, ranges: Seq<(int, int)>, cs: Seq<char>, item: RawItem)
    requires
        lexed_items(items, ranges, cs),
        ({
            let (s, e, k) = lex_span(cs, items_end(ranges));
            !(k is End) && lex_ok(k, cs.subrange(s, e)) && item_matches(item, cs, s, e, k)
        }),
    ensures
        lexed_items(
            items.push(item),
            ranges.push((lex_span(cs, items_end(ranges)).0, lex_span(cs, items_end(ranges)).1)),
            cs,
        ),
{
    let (s, e, k) = lex_span(cs, items_end(ranges));
    let ni = items.push(item);
    let nr = ranges.push((s, e));
    assert forall|i: int| 0 <= i < ni.len() implies #[trigger] lexed_item_at(ni, nr, cs, i) by {
        if i < items.len() {
            assert(lexed_item_at(items, ranges, cs, i));
            assert(ni[i] == items[i]);
            assert(nr[i] == ranges[i]);
            if i > 0 {
                assert(nr[i - 1] == ranges[i - 1]);
            }
        } else {
            assert(ni[i] == item);
            assert(nr[i] == (s, e));
            if i > 0 {
                assert(nr[i - 1] == ranges[i - 1]);
            }
        }
    }
}

/// `n` copies of token `t`.
pub open spec fn repeat(t: Token, n: nat) -> Seq<Token> {
    Seq::new(n, |i: int| t)
}

/// The levels pushed when indentation grows by `k` steps of 4 above `top`.
pub open spec fn pushes(top: usize, k: nat) -> Seq<usize> {
    Seq::new(k, |i: int| (top + 4 * (i + 1)) as usize)
}

/// How many levels at the top of `stack` lie deeper than `width`.
pub open spec fn pop_count(stack: Seq<usize>, width: usize) -> nat
    decreases stack.len(),
{
    if stack.len() == 0 || stack.last() <= width {
        0
    } else {
        1 + pop_count(stack.drop_last(), width)
    }
}

/// The new stack and the `Indent` / `Dedent` tokens for a line of indentation `width`.
pub open spec fn indent_step(stack: Seq<usize>, width: usize) -> (Seq<usize>, Seq<Token>) {
    let top = stack.last();
    if width > top {
        let k = ((width - top) / 4) as nat;
        (stack + pushes(top, k), repeat(Token::Indent, k))
    } else if width < top {
        let m = pop_count(stack, width);
        (stack.subrange(0, stack.len() - m), repeat(Token::Dedent, m))
    } else {
        (stack, Seq::empty())
    }
}

/// The state after one raw item, and the tokens it emits. The state is the
/// indentation stack and whether a line has just begun.
pub open spec fn layout_item(st: (Seq<usize>, bool), item: RawItem) -> ((Seq<usize>, bool), Seq<Token>) {
    match item {
        RawItem::Newline => ((st.0, true), seq![Token::Newline]),
        RawItem::Token(t, w) => if st.1 {
            let (s2, out) = indent_step(st.0, w);
            ((s2, false), out.push(t))
        } else {
            (st, seq![t])
        },
    }
}

/// The state after reading `items` from the start, and the tokens emitted so far.
pub open spec fn layout_run(items: Seq<RawItem>) -> ((Seq<usize>, bool), Seq<Token>)
    decreases items.len(),
{
    if items.len() == 0 {
        ((seq![0usize], true), Seq::empty())
    } else {
        let (st, out) = layout_run(items.drop_last());
        let (st2, o2) = layout_item(st, items.last());
        (st2, out + o2)
    }
}

/// The whole token stream for `items`: what they emit, then one `Dedent` for
/// each level still open at the end.
pub open spec fn layout(items: Seq<RawItem>) -> Seq<Token> {
    let (st, out) = layout_run(items);
    out + repeat(Token::Dedent, (st.0.len() - 1) as nat)
}

/// The lexeme range each token emitted for `items` comes from: every token
/// an item emits (its `Indent`s or `Dedent`s and the item's own token)
/// carries that item's range, `ranges[i]` for item `i`.
pub open spec fn layout_run_spans(items: Seq<RawItem>, ranges: Seq<(int, int)>) -> Seq<(int, int)>
    decreases items.len(),
{
    if items.len() == 0 {
        Seq::empty()
    } else {
        let prev = items.drop_last();
        let o2 = layout_item(layout_run(prev).0, items.last()).1;
        layout_run_spans(prev, ranges) + Seq::new(o2.len(), |i: int| ranges[items.len() - 1])
    }
}

proof fn lemma_run_spans_push(items: Seq<RawItem>, ranges: Seq<(int, int)>, x: (int, int))
    requires
        items.len() <= ranges.len(),
    ensures
        layout_run_spans(items, ranges.push(x)) == layout_run_spans(items, ranges),
    decreases items.len(),
{
    if items.len() > 0 {
        lemma_run_spans_push(items.drop_last(), ranges, x);
        assert(ranges.push(x)[items.len() - 1] == ranges[items.len() - 1]);
        let o2 = layout_item(layout_run(items.drop_last()).0, items.last()).1;
        assert(Seq::new(o2.len(), |i: int| ranges.push(x)[items.len() - 1]) =~= Seq::new(
            o2.len(),
            |i: int| ranges[items.len() - 1],
        ));
    }
}

proof fn lemma_spans_step(
    items: Seq<RawItem>,
    ranges: Seq<(int, int)>,
    spans: Seq<(int, int)>,
    item: RawItem,
    rng: (int, int),
    queued: nat,
)
    requires
        items.len() == ranges.len(),
        spans + Seq::new(0, |i: int| rng) == layout_run_spans(items, ranges)
            || spans == layout_run_spans(items, ranges),
        layout_item(layout_run(items).0, item).1.len() == queued + 1,
    ensures
        spans.push(rng) + Seq::new(queued, |i: int| rng) == layout_run_spans(items.push(item), ranges.push(rng)),
{
    assert(spans + Seq::new(0, |i: int| rng) =~= spans);
    lemma_run_spans_push(items, ranges, rng);
    let ni = items.push(item);
    assert(ni.drop_last() =~= items);
    assert(ni.last() == item);
    assert(ranges.push(rng)[ni.len() - 1] == rng);
    assert(spans.push(rng) + Seq::new(queued, |i: int| rng) =~= spans + Seq::new(queued + 1, |i: int| ranges.push(rng)[ni.len() - 1]));
}

/// The ranges of the whole stream for `items`: as [`layout_run_spans`], then
/// the empty range at the end of the text `n` for each closing `Dedent`.
pub open spec fn layout_spans(items: Seq<RawItem>, ranges: Seq<(int, int)>, n: int) -> Seq<(int, int)> {
    layout_run_spans(items, ranges) + Seq::new((layout_run(items).0.0.len() - 1) as nat, |i: int| (n, n))
}

/// The stack is a valid indentation stack: it starts at level 0.
pub open spec fn stack_ok(stack: Seq<usize>) -> bool {
    stack.len() >= 1 && stack[0] == 0
}

/// The indentation width of the line holding character `i`: spaces count 1,
/// tabs 4, counted from the line's start up to the first other character.
pub open spec fn line_width(cs: Seq<char>, i: int) -> nat {
    leading_width(cs, line_start(cs, i), i)
}

/// The index where the line holding character `i` begins.
pub open spec fn line_start(cs: Seq<char>, i: int) -> int
    decreases i,
{
    if i <= 0 {
        0
    } else if cs[i - 1] == '\n' {
        i
    } else {
        line_start(cs, i - 1)
    }
}

/// The width of the blanks at the front of `cs[j..i]`.
pub open spec fn leading_width(cs: Seq<char>, j: int, i: int) -> nat
    decreases i - j,
{
    if j >= i {
        0
    } else if cs[j] == ' ' {
        1 + leading_width(cs, j + 1, i)
    } else if cs[j] == '\t' {
        4 + leading_width(cs, j + 1, i)
    } else {
        0
    }
}

/// `line_width`, capped at the largest `usize`.
pub open spec fn capped_width(cs: Seq<char>, i: int) -> usize {
    if line_width(cs, i) > usize::MAX {
        usize::MAX
    } else {
        line_width(cs, i) as usize
    }
}

proof fn lemma_pop_count_bound(stack: Seq<usize>, width: usize)
    ensures
        pop_count(stack, width) <= stack.len(),
        stack_ok(stack) ==> pop_count(stack, width) < stack.len(),
    decreases stack.len(),
{
    if stack.len() > 0 && stack.last() > width {
        lemma_pop_count_bound(stack.drop_last(), width);
        if stack_ok(stack) && stack.len() == 1 {
            assert(stack.last() == 0);
        }
        if stack_ok(stack) && stack.len() > 1 {
            assert(stack_ok(stack.drop_last()));
        }
    }
}

proof fn lemma_indent_step_ok(stack: Seq<usize>, width: usize)
    requires
        stack_ok(stack),
    ensures
        stack_ok(indent_step(stack, width).0),
{
    lemma_pop_count_bound(stack, width);
    let top = stack.last();
    if width > top {
        let k = ((width - top) / 4) as nat;
        assert((stack + pushes(top, k))[0] == stack[0]);
    }
}

proof fn lemma_layout_run_ok(items: Seq<RawItem>)
    ensures
        stack_ok(layout_run(items).0.0),
    decreases items.len(),
{
    if items.len() > 0 {
        lemma_layout_run_ok(items.drop_last());
        let (st, out) = layout_run(items.drop_last());
        match items.last() {
            RawItem::Newline => {},
            RawItem::Token(t, w) => {
                if st.1 {
                    lemma_indent_step_ok(st.0, w);
                }
            },
        }
    }
}

/// Computes the indentation width of the line holding character `i`.
fn line_width_exec(cs: &Vec<char>, i: usize) -> (r: usize)
    requires
        i <= cs@.len(),
    ensures
        r == capped_width(cs@, i as int),
{
    let mut j = i;
    while j > 0 && cs[j - 1] != '\n'
        invariant
            j <= i <= cs@.len(),
            line_start(cs@, i as int) == line_start(cs@, j as int),
        decreases j,
    {
        j = j - 1;
    }
    assert(line_start(cs@, i as int) == j);
    let mut k = j;
    let mut w: usize = 0;
    while k < i && (cs[k] == ' ' || cs[k] == '\t')
        invariant
            j <= k <= i <= cs@.len(),
            w < usize::MAX ==> leading_width(cs@, j as int, i as int) == w + leading_width(
                cs@,
                k as int,
                i as int,
            ),
            w == usize::MAX ==> leading_width(cs@, j as int, i as int) >= usize::MAX,
        decreases i - k,
    {
        let add: usize = if cs[k] == ' ' {
            1
        } else {
            4
        };
        w = w.saturating_add(add);
        k = k + 1;
    }
    w
}

/// How many times `t` occurs in `s`.
pub open spec fn count_of(s: Seq<Token>, t: Token) -> nat
    decreases s.len(),
{
    if s.len() == 0 {
        0
    } else {
        count_of(s.drop_last(), t) + if s.last() == t {
            1nat
        } else {
            0nat
        }
    }
}

/// No raw item is a layout token: the token lexer never makes one.
pub open spec fn raw_items_ok(items: Seq<RawItem>) -> bool {
    forall|i: int|
        0 <= i < items.len() ==> match #[trigger] items[i] {
            RawItem::Token(t, _) => !(t is Indent) && !(t is Dedent),
            RawItem::Newline => true,
        }
}

proof fn lemma_count_concat(a: Seq<Token>, b: Seq<Token>, t: Token)
    ensures
        count_of(a + b, t) == count_of(a, t) + count_of(b, t),
    decreases b.len(),
{
    if b.len() == 0 {
        assert(a + b =~= a);
    } else {
        lemma_count_concat(a, b.drop_last(), t);
        assert((a + b).drop_last() =~= a + b.drop_last());
    }
}

proof fn lemma_count_repeat(t: Token, n: nat, u: Token)
    ensures
        count_of(repeat(t, n), u) == if t == u {
            n
        } else {
            0
        },
    decreases n,
{
    if n > 0 {
        lemma_count_repeat(t, (n - 1) as nat, u);
        assert(repeat(t, n).drop_last() =~= repeat(t, (n - 1) as nat));
    }
}

proof fn lemma_count_single(t: Token, u: Token)
    ensures
        count_of(seq![t], u) == if t == u {
            1nat
        } else {
            0nat
        },
{
    assert(seq![t].drop_last() =~= Seq::<Token>::empty());
    assert(seq![t].last() == t);
    assert(count_of(Seq::<Token>::empty(), u) == 0);
}

/// While reading, every open level above the base was opened by an `Indent`
/// that no `Dedent` has closed yet.
proof fn lemma_run_balance(items: Seq<RawItem>)
    requires
        raw_items_ok(items),
    ensures
        count_of(layout_run(items).1, Token::Indent) == count_of(layout_run(items).1, Token::Dedent)
            + layout_run(items).0.0.len() - 1,
    decreases items.len(),
{
    if items.len() > 0 {
        let prev = items.drop_last();
        assert(raw_items_ok(prev)) by {
            assert forall|i: int| 0 <= i < prev.len() implies match #[trigger] prev[i] {
                RawItem::Token(t, _) => !(t is Indent) && !(t is Dedent),
                RawItem::Newline => true,
            } by {
                assert(prev[i] == items[i]);
            }
        }
        lemma_run_balance(prev);
        lemma_layout_run_ok(prev);
        let (st, out) = layout_run(prev);
        let item = items.last();
        assert(item == items[items.len() - 1]);
        let (st2, o2) = layout_item(st, item);
        lemma_count_concat(out, o2, Token::Indent);
        lemma_count_concat(out, o2, Token::Dedent);
        match item {
            RawItem::Newline => {
                lemma_count_single(Token::Newline, Token::Indent);
                lemma_count_single(Token::Newline, Token::Dedent);
            },
            RawItem::Token(t, w) => {
                lemma_count_single(t, Token::Indent);
                lemma_count_single(t, Token::Dedent);
                if st.1 {
                    let (s2, ind) = indent_step(st.0, w);
                    assert(ind.push(t) =~= ind + seq![t]);
                    lemma_count_concat(ind, seq![t], Token::Indent);
                    lemma_count_concat(ind, seq![t], Token::Dedent);
                    let top = st.0.last();
                    lemma_pop_count_bound(st.0, w);
                    if w > top {
                        let k = ((w - top) / 4) as nat;
                        lemma_count_repeat(Token::Indent, k, Token::Indent);
                        lemma_count_repeat(Token::Indent, k, Token::Dedent);
                    } else if w < top {
                        let m = pop_count(st.0, w);
                        lemma_count_repeat(Token::Dedent, m, Token::Indent);
                        lemma_count_repeat(Token::Dedent, m, Token::Dedent);
                    } else {
                        assert(count_of(Seq::<Token>::empty(), Token::Indent) == 0);
                        assert(count_of(Seq::<Token>::empty(), Token::Dedent) == 0);
                    }
                }
            },
        }
    }
}

/// Every complete token stream is balanced: it holds as many `Indent` as
/// `Dedent` tokens, counting the `Dedent`s that close the open blocks at the
/// end of input.
pub proof fn lemma_layout_balanced(items: Seq<RawItem>)
    requires
        raw_items_ok(items),
    ensures
        count_of(layout(items), Token::Indent) == count_of(layout(items), Token::Dedent),
{
    lemma_run_balance(items);
    lemma_layout_run_ok(items);
    let (st, out) = layout_run(items);
    let d = repeat(Token::Dedent, (st.0.len() - 1) as nat);
    lemma_count_concat(out, d, Token::Indent);
    lemma_count_concat(out, d, Token::Dedent);
    lemma_count_repeat(Token::Dedent, (st.0.len() - 1) as nat, Token::Indent);
    lemma_count_repeat(Token::Dedent, (st.0.len() - 1) as nat, Token::Dedent);
}

/// `s` with every run of consecutive `Newline` tokens shortened to one.
pub open spec fn collapse_newlines(s: Seq<Token>) -> Seq<Token>
    decreases s.len(),
{
    if s.len() < 2 {
        s
    } else if s[0] == Token::Newline && s[1] == Token::Newline {
        collapse_newlines(s.drop_first())
    } else {
        seq![s[0]] + collapse_newlines(s.drop_first())
    }
}

/// The state and output after reading `items` from state `st`.
pub open spec fn layout_from(st: (Seq<usize>, bool), items: Seq<RawItem>) -> ((Seq<usize>, bool), Seq<Token>)
    decreases items.len(),
{
    if items.len() == 0 {
        (st, Seq::empty())
    } else {
        let (s1, o1) = layout_from(st, items.drop_last());
        let (s2, o2) = layout_item(s1, items.last());
        (s2, o1 + o2)
    }
}

proof fn lemma_run_is_from(items: Seq<RawItem>)
    ensures
        layout_run(items) == layout_from((seq![0usize], true), items),
    decreases items.len(),
{
    if items.len() > 0 {
        lemma_run_is_from(items.drop_last());
    }
}

proof fn lemma_from_split(st: (Seq<usize>, bool), a: Seq<RawItem>, b: Seq<RawItem>)
    ensures
        layout_from(st, a + b) == ({
            let (s1, o1) = layout_from(st, a);
            let (s2, o2) = layout_from(s1, b);
            (s2, o1 + o2)
        }),
    decreases b.len(),
{
    if b.len() == 0 {
        assert(a + b =~= a);
        assert(layout_from(st, a).1 + Seq::<Token>::empty() =~= layout_from(st, a).1);
    } else {
        lemma_from_split(st, a, b.drop_last());
        assert((a + b).drop_last() =~= a + b.drop_last());
        assert((a + b).last() == b.last());
        let (s1, o1) = layout_from(st, a);
        let (s2, o2) = layout_from(s1, b.drop_last());
        let (s3, o3) = layout_item(s2, b.last());
        assert(o1 + o2 + o3 =~= o1 + (o2 + o3));
    }
}

proof fn lemma_collapse_double(x: Seq<Token>, y: Seq<Token>)
    ensures
        collapse_newlines(x + seq![Token::Newline, Token::Newline] + y) == collapse_newlines(
            x + seq![Token::Newline] + y,
        ),
    decreases x.len(),
{
    let s = x + seq![Token::Newline, Token::Newline] + y;
    let s2 = x + seq![Token::Newline] + y;
    if x.len() == 0 {
        assert(s.drop_first() =~= s2);
    } else {
        lemma_collapse_double(x.drop_first(), y);
        assert(s.drop_first() =~= x.drop_first() + seq![Token::Newline, Token::Newline] + y);
        assert(s2.drop_first() =~= x.drop_first() + seq![Token::Newline] + y);
        assert(s[0] == s2[0]);
        assert(s[1] == s2[1]);
    }
}

/// A blank or comment-only line adds one raw `Newline` to the input. Put
/// right after the `Newline` that ends a line, it changes the emitted stream
/// only by a doubled `Newline`: with runs of newlines collapsed, the streams
/// with and without it are the same.
pub proof fn lemma_blank_line_invisible(a: Seq<RawItem>, b: Seq<RawItem>)
    requires
        a.len() > 0,
        a.last() is Newline,
    ensures
        collapse_newlines(layout(a + seq![RawItem::Newline] + b)) == collapse_newlines(layout(a + b)),
{
    let init = (seq![0usize], true);
    let with = a + seq![RawItem::Newline] + b;
    lemma_run_is_from(with);
    lemma_run_is_from(a + b);
    lemma_from_split(init, a + seq![RawItem::Newline], b);
    lemma_from_split(init, a, seq![RawItem::Newline]);
    lemma_from_split(init, a, b);
    let (sa, oa) = layout_from(init, a);
    // the state after `a` is at a line start, and `a`'s output ends in a newline
    assert(a =~= a.drop_last().push(a.last()));
    let (sp, op) = layout_from(init, a.drop_last());
    assert(sa == (sp.0, true));
    assert(oa == op + seq![Token::Newline]);
    assert(seq![RawItem::Newline].drop_last() =~= Seq::<RawItem>::empty());
    assert(layout_from(sa, Seq::<RawItem>::empty()) == (sa, Seq::<Token>::empty()));
    assert(seq![RawItem::Newline].last() == RawItem::Newline);
    let (s1, o1) = layout_from(sa, seq![RawItem::Newline]);
    assert(o1 =~= Seq::<Token>::empty() + seq![Token::Newline]);
    assert(s1 == sa);
    assert(o1 =~= seq![Token::Newline]);
    let (sb, ob) = layout_from(sa, b);
    let tail = repeat(Token::Dedent, (sb.0.len() - 1) as nat);
    assert(layout(with) =~= op + seq![Token::Newline, Token::Newline] + (ob + tail));
    assert(layout(a + b) =~= op + seq![Token::Newline] + (ob + tail));
    lemma_collapse_double(op, ob + tail);
}

/// Applies a line of indentation `width` to the stack, returning the
/// `Indent` or `Dedent` tokens to emit before the line's first token.
fn handle_indentation(stack: &mut Vec<usize>, width: usize) -> (toks: Vec<Token>)
    requires
        stack_ok(old(stack)@),
    ensures
        (final(stack)@, toks@) == indent_step(old(stack)@, width),
{
    let ghost s0 = stack@;
    let top = stack[stack.len() - 1];
    let mut toks: Vec<Token> = Vec::new();
    if width > top {
        let k = (width - top) / 4;
        let mut i: usize = 0;
        while i < k
            invariant
                k == (width - top) / 4,
                top == s0.last(),
                width > top,
                i <= k,
                stack@ =~= s0 + pushes(top, i as nat),
                toks@ =~= repeat(Token::Indent, i as nat),
            decreases k - i,
        {
            assert(4 * (i + 1) <= width - top) by (nonlinear_arith)
                requires
                    i < k,
                    k == (width - top) / 4,
                    width > top,
            ;
            let v = top + 4 * (i + 1);
            stack.push(v);
            toks.push(Token::Indent);
            i = i + 1;
        }
    } else if width < top {
        proof {
            lemma_pop_count_bound(s0, width);
        }
        while stack[stack.len() - 1] > width
            invariant
                stack_ok(s0),
                1 <= stack@.len() <= s0.len(),
                stack@ == s0.subrange(0, stack@.len() as int),
                pop_count(s0, width) == (s0.len() - stack@.len()) + pop_count(stack@, width),
                toks@ =~= repeat(Token::Dedent, (s0.len() - stack@.len()) as nat),
            decreases stack@.len(),
        {
            proof {
                lemma_pop_count_bound(stack@, width);
                assert(stack_ok(stack@));
                assert(stack@.drop_last() =~= s0.subrange(0, stack@.len() - 1));
            }
            stack.pop();
            toks.push(Token::Dedent);
        }
        assert(pop_count(stack@, width) == 0);
    } else {
        assert(toks@ =~= Seq::<Token>::empty());
    }
    toks
}

/// A copy of a layout token.
fn copy_layout_token(t: &Token) -> (r: Token)
    requires
        *t is Indent || *t is Dedent,
    ensures
        r == *t,
{
    match t {
        Token::Indent => Token::Indent,
        _ => Token::Dedent,
    }
}

/// The layout transformer: wraps the token lexer and inserts `Indent` and
/// `Dedent` tokens where the indentation of a line grows or shrinks by steps
/// of 4 (a tab counts 4). A line less indented than the current block closes
/// every deeper block, even when its width matches no open level exactly.
pub struct IndentLexer {
    pub lexer: Lexer,
    /// Open indentation levels, the base level 0 at the bottom.
    pub indent_stack: Vec<usize>,
    /// Tokens decided but not yet handed out, first one first.
    pub pending: Vec<Token>,
    /// Whether the next non-newline token starts a line.
    pub at_line_start: bool,
    /// Whether the token lexer is exhausted.
    pub finished: bool,
    /// Whether the token lexer has reported an error.
    pub errored: bool,
    /// The raw items read from the token lexer so far.
    pub consumed: Ghost<Seq<RawItem>>,
    /// The tokens handed out so far.
    pub emitted: Ghost<Seq<Token>>,
    /// Where in the source each consumed item was read.
    pub ranges: Ghost<Seq<(int, int)>>,
    /// The lexer's last token range when each token was handed out.
    pub spans: Ghost<Seq<(int, int)>>,
}

impl IndentLexer {
    /// The transformer's state is the model's state after the items it has
    /// consumed, and what it has handed out is the model's output.
    pub open spec fn wf(&self) -> bool {
        let (st, out) = layout_run(self.consumed@);
        &&& self.lexer.wf()
        &&& raw_items_ok(self.consumed@)
        &&& !self.errored ==> lexed_items(self.consumed@, self.ranges@, self.lexer.chars@)
        &&& scanned_items(self.consumed@, self.ranges@, self.lexer.chars@)
        &&& !self.finished ==> next_token_lexeme(self.lexer.chars@, items_end(self.ranges@)) == next_token_lexeme(
            self.lexer.chars@,
            self.lexer.pos as int,
        )
        &&& self.finished ==> next_token_lexeme(self.lexer.chars@, items_end(self.ranges@)).2 is End
        &&& !self.errored && !self.finished ==> self.lexer.pos == items_end(self.ranges@)
        &&& self.finished ==> self.lexer.pos == self.lexer.chars@.len()
        &&& self.finished && !self.errored ==> lex_span(self.lexer.chars@, items_end(self.ranges@)).2 is End
        &&& stack_ok(st.0)
        &&& self.emitted@.len() == self.spans@.len()
        &&& self.consumed@.len() == self.ranges@.len()
        &&& !self.finished ==> self.spans@ + Seq::new(
            self.pending@.len(),
            |i: int| (self.lexer.start as int, self.lexer.end as int),
        ) == layout_run_spans(self.consumed@, self.ranges@)
        &&& self.finished ==> self.lexer.start == self.lexer.chars@.len() && self.lexer.end == self.lexer.chars@.len()
            && self.spans@ == layout_run_spans(self.consumed@, self.ranges@) + Seq::new(
            (st.0.len() - self.indent_stack@.len()) as nat,
            |i: int| (self.lexer.chars@.len() as int, self.lexer.chars@.len() as int),
        )
        &&& !self.finished ==> {
            &&& self.indent_stack@ == st.0
            &&& self.at_line_start == st.1
            &&& self.emitted@ + self.pending@ == out
        }
        &&& self.finished ==> {
            &&& self.pending@.len() == 0
            &&& 1 <= self.indent_stack@.len() <= st.0.len()
            &&& self.indent_stack@ == st.0.subrange(0, self.indent_stack@.len() as int)
            &&& self.emitted@ == out + repeat(
                Token::Dedent,
                (st.0.len() - self.indent_stack@.len()) as nat,
            )
        }
    }

    /// Work left: source characters, then queued tokens, then open levels.
    pub open spec fn remaining(&self) -> (int, int, int) {
        (
            self.lexer.chars@.len() - self.lexer.pos,
            self.pending@.len() as int,
            self.indent_stack@.len() as int,
        )
    }

    /// A transformer at the start of `source`.
    pub fn new(source: &str) -> (r: IndentLexer)
        ensures
            r.wf(),
            r.lexer.chars@ == source@,
            r.consumed@.len() == 0,
            r.emitted@.len() == 0,
            !r.errored,
    {
        let lexer = Lexer::new(source);
        let mut indent_stack: Vec<usize> = Vec::new();
        indent_stack.push(0);
        let r = IndentLexer {
            lexer,
            indent_stack,
            pending: Vec::new(),
            at_line_start: true,
            finished: false,
            errored: false,
            consumed: Ghost(Seq::empty()),
            emitted: Ghost(Seq::empty()),
            ranges: Ghost(Seq::empty()),
            spans: Ghost(Seq::empty()),
        };
        assert(r.indent_stack@ =~= seq![0usize]);
        assert(r.emitted@ + r.pending@ =~= Seq::<Token>::empty());
        r
    }

    /// The byte span of the token lexer's last token.
    pub fn span(&self) -> (r: Span)
        requires
            self.wf(),
        ensures
            r.start == self.lexer.offsets@[self.lexer.start as int],
            r.end == self.lexer.offsets@[self.lexer.end as int],
    {
        self.lexer.span()
    }

    /// The text of the token lexer's last token.
    pub fn slice(&self) -> (r: String)
        requires
            self.wf(),
        ensures
            r@ == self.lexer.chars@.subrange(self.lexer.start as int, self.lexer.end as int),
    {
        self.lexer.slice()
    }

    /// The next token of the layout-aware stream: a queued token if any; else
    /// the lexer's next token, preceded by the `Indent`s or `Dedent`s its line
    /// calls for when it is the first token of a line; at the end, one
    /// `Dedent` per open level; then `None`. Lexical errors pass through.
    #[verifier::rlimit(100)]
    pub fn next(&mut self) -> (r: Option<Result<Token, LexicalError>>)
        requires
            old(self).wf(),
        ensures
            final(self).wf(),
            final(self).lexer.chars == old(self).lexer.chars,
            r is None ==> final(self).emitted@ == layout(final(self).consumed@),
            r is None ==> final(self).emitted@ == old(self).emitted@,
            r is None ==> final(self).lexer.pos == final(self).lexer.chars@.len(),
            r is None ==> final(self).finished && final(self).indent_stack@.len() == 1,
            r is None && !final(self).errored ==> lex_span(final(self).lexer.chars@, items_end(final(self).ranges@)).2 is End,
            !(r matches Some(Err(_))) ==> final(self).errored == old(self).errored,
            r matches Some(Err(e)) ==> (!old(self).errored ==> ({
                let (s, e2, k) = lex_span(old(self).lexer.chars@, items_end(old(self).ranges@));
                lex_outcome(old(self).lexer.chars@, s, e2, k, Err(e))
            })),
            r matches Some(Err(_)) ==> final(self).consumed@ == old(self).consumed@ && final(self).ranges@ == old(self).ranges@,
            r matches Some(Err(e)) ==> ({
                let (s, e2, k) = lex_span(old(self).lexer.chars@, old(self).lexer.pos as int);
                lex_outcome(old(self).lexer.chars@, s, e2, k, Err(e))
            }),
            r matches Some(Ok(t)) ==> final(self).emitted@ == old(self).emitted@.push(t),
            r matches Some(Ok(_)) ==> final(self).spans@ == old(self).spans@.push(
                (final(self).lexer.start as int, final(self).lexer.end as int),
            ),
            !(r matches Some(Ok(_))) ==> final(self).spans@ == old(self).spans@,
            r matches Some(Err(_)) ==> final(self).emitted@ == old(self).emitted@,
            r is Some ==> ({
                let (a0, a1, a2) = final(self).remaining();
                let (b0, b1, b2) = old(self).remaining();
                a0 < b0 || (a0 == b0 && (a1 < b1 || (a1 == b1 && a2 < b2)))
            }),
            final(self).remaining().0 >= 0,
            final(self).remaining().1 >= 0,
            final(self).remaining().2 >= 0,
    {
        if self.pending.len() > 0 {
            let t = self.pending.remove(0);
            proof {
                self.emitted@ = self.emitted@.push(t);
                self.spans@ = self.spans@.push((self.lexer.start as int, self.lexer.end as int));
                assert(self.emitted@ + self.pending@ =~= old(self).emitted@ + old(self).pending@);
                let f = |i: int| (self.lexer.start as int, self.lexer.end as int);
                assert(self.spans@ + Seq::new(self.pending@.len(), f) =~= old(self).spans@ + Seq::new(
                    old(self).pending@.len(),
                    f,
                ));
            }
            return Some(Ok(t));
        }
        if self.finished {
            if self.indent_stack.len() > 1 {
                self.indent_stack.pop();
                proof {
                    let st = layout_run(self.consumed@).0;
                    assert(self.indent_stack@ =~= st.0.subrange(0, self.indent_stack@.len() as int));
                    self.emitted@ = self.emitted@.push(Token::Dedent);
                    self.spans@ = self.spans@.push((self.lexer.start as int, self.lexer.end as int));
                    let g = |i: int| (self.lexer.chars@.len() as int, self.lexer.chars@.len() as int);
                    assert(Seq::new((st.0.len() - old(self).indent_stack@.len()) as nat, g).push(
                        (self.lexer.start as int, self.lexer.end as int),
                    ) =~= Seq::new((st.0.len() - self.indent_stack@.len()) as nat, g));
                    assert(repeat(Token::Dedent, (st.0.len() - old(self).indent_stack@.len()) as nat).push(
                        Token::Dedent,
                    ) =~= repeat(Token::Dedent, (st.0.len() - self.indent_stack@.len()) as nat));
                }
                return Some(Ok(Token::Dedent));
            }
            proof {
                let st = layout_run(self.consumed@).0;
                assert(st.0[0] == 0);
            }
            return None;
        }
        let ghost before = self.lexer;
        match self.lexer.next_token() {
            None => {
                self.finished = true;
                proof {
                    assert(lex_span(before.chars@, before.pos as int).2 is End);
                    assert(next_token_lexeme(before.chars@, before.pos as int).2 is End);
                    if !self.errored {
                        assert(before.pos as int == items_end(self.ranges@));
                    }
                    let (st, out) = layout_run(self.consumed@);
                    assert(self.indent_stack@ =~= st.0.subrange(0, self.indent_stack@.len() as int));
                    assert(self.emitted@ =~= out + repeat(Token::Dedent, 0));
                }
                if self.indent_stack.len() > 1 {
                    self.indent_stack.pop();
                    proof {
                        let st = layout_run(self.consumed@).0;
                        assert(self.indent_stack@ =~= st.0.subrange(0, self.indent_stack@.len() as int));
                        self.emitted@ = self.emitted@.push(Token::Dedent);
                        self.spans@ = self.spans@.push((self.lexer.start as int, self.lexer.end as int));
                        let g = |i: int| (self.lexer.chars@.len() as int, self.lexer.chars@.len() as int);
                        let f = |i: int| (before.start as int, before.end as int);
                        assert(old(self).spans@ + Seq::new(0, f) =~= old(self).spans@);
                        assert(self.spans@ =~= layout_run_spans(self.consumed@, self.ranges@) + Seq::new(1, g));
                        assert(layout_run(self.consumed@).1 + repeat(Token::Dedent, 1) =~= old(self).emitted@.push(
                            Token::Dedent,
                        ));
                    }
                    return Some(Ok(Token::Dedent));
                }
                proof {
                    let st = layout_run(self.consumed@).0;
                    assert(st.0[0] == 0);
                }
                None
            },
            Some(Err(e)) => {
                self.errored = true;
                proof {
                    assert(next_token_lexeme(self.lexer.chars@, before.pos as int) == next_token_lexeme(
                        self.lexer.chars@,
                        self.lexer.pos as int,
                    ));
                }
                Some(Err(e))
            },
            Some(Ok(t)) => {
                let is_newline = match t {
                    Token::Newline => true,
                    _ => false,
                };
                if is_newline {
                    self.at_line_start = true;
                    proof {
                        let old_items = self.consumed@;
                        let old_ranges = self.ranges@;
                        self.consumed@ = self.consumed@.push(RawItem::Newline);
                        assert(self.consumed@.drop_last() =~= old_items);
                        if !old(self).errored {
                            lemma_push_item(old_items, old_ranges, self.lexer.chars@, RawItem::Newline);
                        }
                        assert(next_token_lexeme(self.lexer.chars@, before.pos as int) == lex_span(
                            self.lexer.chars@,
                            before.pos as int,
                        ));
                        lemma_push_scanned(old_items, old_ranges, self.lexer.chars@, RawItem::Newline);
                        self.ranges@ = self.ranges@.push((self.lexer.start as int, self.lexer.end as int));
                        self.emitted@ = self.emitted@.push(Token::Newline);
                        lemma_spans_step(old_items, old_ranges, old(self).spans@, RawItem::Newline, (self.lexer.start as int, self.lexer.end as int), 0);
                        self.spans@ = self.spans@.push((self.lexer.start as int, self.lexer.end as int));
                        let (st, out) = layout_run(old_items);
                        assert(self.pending@.len() == 0);
                        assert(layout_run(self.consumed@).1 =~= out + seq![Token::Newline]);
                        assert(self.emitted@ + self.pending@ =~= old(self).emitted@ + old(self).pending@ + seq![Token::Newline]);
                        assert(raw_items_ok(self.consumed@)) by {
                            assert forall|i: int| 0 <= i < self.consumed@.len() implies match #[trigger] self.consumed@[i] {
                                RawItem::Token(t, _) => !(t is Indent) && !(t is Dedent),
                                RawItem::Newline => true,
                            } by {
                                if i < old_items.len() {
                                    assert(self.consumed@[i] == old_items[i]);
                                }
                            }
                        }
                        lemma_layout_run_ok(self.consumed@);
                    }
                    return Some(Ok(Token::Newline));
                }
                let ghost items0 = self.consumed@;
                let ghost ranges0 = self.ranges@;
                let ghost rng = (self.lexer.start as int, self.lexer.end as int);
                let ghost width = capped_width(self.lexer.chars@, self.lexer.start as int);
                proof {
                    let old_items = self.consumed@;
                    let old_ranges = self.ranges@;
                    self.consumed@ = self.consumed@.push(RawItem::Token(t, width));
                    if !old(self).errored {
                        lemma_push_item(old_items, old_ranges, self.lexer.chars@, RawItem::Token(t, width));
                    }
                    assert(next_token_lexeme(self.lexer.chars@, before.pos as int) == lex_span(
                        self.lexer.chars@,
                        before.pos as int,
                    ));
                    lemma_push_scanned(old_items, old_ranges, self.lexer.chars@, RawItem::Token(t, width));
                    self.ranges@ = self.ranges@.push((self.lexer.start as int, self.lexer.end as int));
                    lemma_lexed_not_layout(lex_span(old(self).lexer.chars@, old(self).lexer.pos as int).2,
                        self.lexer.chars@.subrange(self.lexer.start as int, self.lexer.end as int), t);
                    assert(self.consumed@.drop_last() =~= old_items);
                    assert(raw_items_ok(self.consumed@)) by {
                        assert forall|i: int| 0 <= i < self.consumed@.len() implies match #[trigger] self.consumed@[i] {
                            RawItem::Token(t, _) => !(t is Indent) && !(t is Dedent),
                            RawItem::Newline => true,
                        } by {
                            if i < old_items.len() {
                                assert(self.consumed@[i] == old_items[i]);
                            }
                        }
                    }
                    lemma_layout_run_ok(self.consumed@);
                }
                if self.at_line_start {
                    self.at_line_start = false;
                    let w = line_width_exec(&self.lexer.chars, self.lexer.start);
                    let toks = handle_indentation(&mut self.indent_stack, w);
                    proof {
                        let (st, out) = layout_run(old(self).consumed@);
                        assert(st.1);
                        assert(layout_run(self.consumed@).1 =~= out + toks@.push(t));
                    }
                    if toks.len() > 0 {
                        let first = copy_layout_token(&toks[0]);
                        let mut rest: Vec<Token> = Vec::new();
                        let mut i: usize = 1;
                        while i < toks.len()
                            invariant
                                1 <= i <= toks@.len(),
                                rest@ =~= toks@.subrange(1, i as int),
                                forall|j: int| 0 <= j < toks@.len() ==> (#[trigger] toks@[j] is Indent || toks@[j] is Dedent),
                            decreases toks@.len() - i,
                        {
                            let x = copy_layout_token(&toks[i]);
                            rest.push(x);
                            i = i + 1;
                        }
                        rest.push(t);
                        self.pending = rest;
                        proof {
                            self.emitted@ = self.emitted@.push(first);
                            lemma_spans_step(items0, ranges0, old(self).spans@, RawItem::Token(t, width), rng, toks@.len() as nat);
                            self.spans@ = self.spans@.push((self.lexer.start as int, self.lexer.end as int));
                            assert(old(self).pending@.len() == 0);
                            assert(self.pending@ =~= toks@.subrange(1, toks@.len() as int).push(t));
                            assert(toks@ =~= seq![toks@[0]] + toks@.subrange(1, toks@.len() as int));
                            assert(self.emitted@ + self.pending@ =~= old(self).emitted@ + toks@.push(t));
                        }
                        return Some(Ok(first));
                    }
                    proof {
                        self.emitted@ = self.emitted@.push(t);
                        lemma_spans_step(items0, ranges0, old(self).spans@, RawItem::Token(t, width), rng, 0);
                        self.spans@ = self.spans@.push((self.lexer.start as int, self.lexer.end as int));
                        assert(self.emitted@ + self.pending@ =~= old(self).emitted@ + toks@.push(t));
                    }
                    return Some(Ok(t));
                }
                proof {
                    self.emitted@ = self.emitted@.push(t);
                    lemma_spans_step(items0, ranges0, old(self).spans@, RawItem::Token(t, width), rng, 0);
                    self.spans@ = self.spans@.push((self.lexer.start as int, self.lexer.end as int));
                    let (st, out) = layout_run(old(self).consumed@);
                    assert(layout_run(self.consumed@).1 =~= out + seq![t]);
                    assert(self.emitted@ + self.pending@ =~= old(self).emitted@ + seq![t]);
                }
                Some(Ok(t))
            },
        }
    }
}

/// `ts` with spans `sps` is the layout-aware token stream of `source`: the
/// layout of the successive lexemes of the whole text, each token paired
/// with the byte span of the lexeme it came from (an `Indent` or `Dedent`
/// with that of the token it precedes, a closing `Dedent` with the empty
/// span at the end of the text).
pub open spec fn spanned_stream_of(source: Seq<char>, ts: Seq<Token>, sps: Seq<Span>) -> bool {
    exists|items: Seq<RawItem>, ranges: Seq<(int, int)>|
        raw_items_ok(items) && lexed_items(items, ranges, source) && lex_span(source, items_end(ranges)).2 is End
            && ts == layout(items) && sps.len() == ts.len() && forall|i: int|
            0 <= i < sps.len() ==> #[trigger] sps[i] == byte_span(
                source,
                layout_spans(items, ranges, source.len() as int)[i].0,
                layout_spans(items, ranges, source.len() as int)[i].1,
            )
}

proof fn lemma_finished_stream(lx: &IndentLexer, ts: Seq<Token>, sps: Seq<Span>, source: Seq<char>)
    requires
        sps.len() == ts.len(),
        lx.spans@.len() == ts.len(),
        forall|j: int| 0 <= j < sps.len() ==> #[trigger] sps[j] == byte_span(source, lx.spans@[j].0, lx.spans@[j].1),
        lx.finished,
        lx.indent_stack@.len() == 1,
        lx.wf(),
        !lx.errored,
        lx.lexer.chars@ == source,
        lex_span(source, items_end(lx.ranges@)).2 is End,
        ts == layout(lx.consumed@),
    ensures
        count_of(ts, Token::Indent) == count_of(ts, Token::Dedent),
        stream_of(source, ts),
        spanned_stream_of(source, ts, sps),
{
    lemma_layout_balanced(lx.consumed@);
    assert(lx.spans@ == layout_spans(lx.consumed@, lx.ranges@, source.len() as int));
    assert(raw_items_ok(lx.consumed@) && lexed_items(lx.consumed@, lx.ranges@, source)
        && lex_span(source, items_end(lx.ranges@)).2 is End && ts == layout(lx.consumed@));
}

/// The layout-aware token stream of `source` with the byte span of each
/// token (layout tokens carry the span of the lexer's last token), or the
/// first lexical error. The stream is the model's output for raw items read
/// from `source` in order, each spelled by its own slice of the text, so it
/// holds as many `Indent`s as `Dedent`s.
pub fn tokenize(source: &str) -> (r: Result<(Vec<Token>, Vec<Span>), LexicalError>)
    ensures
        r matches Ok((ts, sps)) ==> {
            &&& ts@.len() == sps@.len()
            &&& count_of(ts@, Token::Indent) == count_of(ts@, Token::Dedent)
            &&& stream_of(source@, ts@)
            &&& spanned_stream_of(source@, ts@, sps@)
        },
        r matches Err(e) ==> first_lex_error(source@, e),
{
    let mut lx = IndentLexer::new(source);
    let ghost text = source@;
    let mut ts: Vec<Token> = Vec::new();
    let mut sps: Vec<Span> = Vec::new();
    loop
        invariant
            lx.wf(),
            !lx.errored,
            lx.lexer.chars@ == text,
            text == source@,
            ts@ == lx.emitted@,
            ts@.len() == sps@.len(),
            lx.spans@.len() == sps@.len(),
            forall|j: int| 0 <= j < sps@.len() ==> #[trigger] sps@[j] == byte_span(text, lx.spans@[j].0, lx.spans@[j].1),
            lx.remaining().0 >= 0,
            lx.remaining().1 >= 0,
            lx.remaining().2 >= 0,
        decreases lx.remaining().0, lx.remaining().1, lx.remaining().2,
    {
        let ghost items0 = lx.consumed@;
        let ghost ranges0 = lx.ranges@;
        match lx.next() {
            None => {
                proof {
                    lemma_finished_stream(&lx, ts@, sps@, source@);
                }
                return Ok((ts, sps));
            },
            Some(Err(e)) => {
                assert(lexed_items(items0, ranges0, source@));
                assert(first_lex_error(source@, e));
                return Err(e);
            },
            Some(Ok(t)) => {
                ts.push(t);
                let sp = lx.span();
                proof {
                    assert(sp == byte_span(text, lx.lexer.start as int, lx.lexer.end as int));
                }
                sps.push(sp);
            },
        }
    }
}

/// `s` without its `Indent` and `Dedent` tokens.
pub open spec fn strip_layout(s: Seq<Token>) -> Seq<Token>
    decreases s.len(),
{
    if s.len() == 0 {
        s
    } else if s.last() is Indent || s.last() is Dedent {
        strip_layout(s.drop_last())
    } else {
        strip_layout(s.drop_last()).push(s.last())
    }
}

/// The tokens the raw items carry, newlines included, in order.
pub open spec fn raw_tokens(items: Seq<RawItem>) -> Seq<Token>
    decreases items.len(),
{
    if items.len() == 0 {
        Seq::empty()
    } else {
        raw_tokens(items.drop_last()).push(
            match items.last() {
                RawItem::Newline => Token::Newline,
                RawItem::Token(t, _) => t,
            },
        )
    }
}

proof fn lemma_strip_concat(a: Seq<Token>, b: Seq<Token>)
    ensures
        strip_layout(a + b) == strip_layout(a) + strip_layout(b),
    decreases b.len(),
{
    if b.len() == 0 {
        assert(a + b =~= a);
        assert(strip_layout(a) + strip_layout(b) =~= strip_layout(a));
    } else {
        lemma_strip_concat(a, b.drop_last());
        assert((a + b).drop_last() =~= a + b.drop_last());
        assert((a + b).last() == b.last());
        if !(b.last() is Indent || b.last() is Dedent) {
            assert(strip_layout(a) + strip_layout(b.drop_last()).push(b.last()) =~= (strip_layout(a)
                + strip_layout(b.drop_last())).push(b.last()));
        }
    }
}

proof fn lemma_strip_repeat(t: Token, n: nat)
    requires
        t is Indent || t is Dedent,
    ensures
        strip_layout(repeat(t, n)) == Seq::<Token>::empty(),
    decreases n,
{
    if n > 0 {
        assert(repeat(t, n).drop_last() =~= repeat(t, (n - 1) as nat));
        lemma_strip_repeat(t, (n - 1) as nat);
    }
}

proof fn lemma_strip_single(t: Token)
    requires
        !(t is Indent) && !(t is Dedent),
    ensures
        strip_layout(seq![t]) == seq![t],
{
    assert(seq![t].drop_last() =~= Seq::<Token>::empty());
    assert(seq![t].last() == t);
    assert(strip_layout(Seq::<Token>::empty()) == Seq::<Token>::empty());
    assert(Seq::<Token>::empty().push(t) =~= seq![t]);
}

proof fn lemma_strip_run(items: Seq<RawItem>)
    requires
        raw_items_ok(items),
    ensures
        strip_layout(layout_run(items).1) == raw_tokens(items),
    decreases items.len(),
{
    if items.len() > 0 {
        let prev = items.drop_last();
        assert(raw_items_ok(prev)) by {
            assert forall|i: int| 0 <= i < prev.len() implies match #[trigger] prev[i] {
                RawItem::Token(t, _) => !(t is Indent) && !(t is Dedent),
                RawItem::Newline => true,
            } by {
                assert(prev[i] == items[i]);
            }
        }
        lemma_strip_run(prev);
        let (st, out) = layout_run(prev);
        let item = items.last();
        assert(item == items[items.len() - 1]);
        let (st2, o2) = layout_item(st, item);
        lemma_strip_concat(out, o2);
        match item {
            RawItem::Newline => {
                lemma_strip_single(Token::Newline);
                assert(Seq::<Token>::empty().push(Token::Newline) =~= seq![Token::Newline]);
            },
            RawItem::Token(t, w) => {
                lemma_strip_single(t);
                if st.1 {
                    let (s2, ind) = indent_step(st.0, w);
                    assert(ind.push(t) =~= ind + seq![t]);
                    lemma_strip_concat(ind, seq![t]);
                    let top = st.0.last();
                    if w > top {
                        lemma_strip_repeat(Token::Indent, ((w - top) / 4) as nat);
                    } else if w < top {
                        lemma_strip_repeat(Token::Dedent, pop_count(st.0, w));
                    } else {
                        assert(strip_layout(Seq::<Token>::empty()) == Seq::<Token>::empty());
                    }
                    assert(strip_layout(ind) + seq![t] =~= seq![t]);
                }
            },
        }
        assert(raw_tokens(items) == raw_tokens(prev).push(
            match item {
                RawItem::Newline => Token::Newline,
                RawItem::Token(t, _) => t,
            },
        ));
    }
}

/// The layout stage only inserts `Indent` and `Dedent` tokens: with those
/// removed, its output is the raw tokens (newlines included) in the order
/// they were read, none dropped, changed or moved.
pub proof fn lemma_layout_keeps_raw_tokens(items: Seq<RawItem>)
    requires
        raw_items_ok(items),
    ensures
        strip_layout(layout(items)) == raw_tokens(items),
{
    lemma_strip_run(items);
    lemma_layout_run_ok(items);
    let (st, out) = layout_run(items);
    lemma_strip_concat(out, repeat(Token::Dedent, (st.0.len() - 1) as nat));
    lemma_strip_repeat(Token::Dedent, (st.0.len() - 1) as nat);
    assert(strip_layout(out) + Seq::<Token>::empty() =~= strip_layout(out));
}

} // verus!
