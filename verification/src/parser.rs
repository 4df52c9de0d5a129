use vstd::prelude::*;

use crate::ast::{ExprKindView, ExprView, Expression};
use crate::errors::{error_init, Error, ErrorView, Reason};
use crate::lexer::{error_views, token_models};
use crate::span::{max_usize, min_usize, Span};
use crate::tokens::{same_variant, Token, TokenModel, TokenType, TokenView};

verus! {

/// Turns a token stream into expressions and statements. Errors it can
/// recover from are collected in `diagnostics`; the others end the parse.
pub struct Parser {
    pub tokens: Vec<Token>,
    pub current: usize,
    pub diagnostics: Vec<Error>,
}

/// The model of the parser's progress: the position reached and the
/// diagnostics recorded so far.
pub struct PState {
    pub pos: int,
    pub diags: Seq<ErrorView>,
}

/// The result of parsing from some state, and the state afterwards.
pub struct Parsed<T> {
    pub result: Result<T, ErrorView>,
    pub st: PState,
}

/// How many tokens are left from `pos` on.
pub open spec fn rem(ts: Seq<TokenModel>, pos: int) -> nat {
    if pos <= ts.len() {
        (ts.len() - pos) as nat
    } else {
        0
    }
}

/// The token at position `i`, `EOF` outside the stream.
pub open spec fn tok(ts: Seq<TokenModel>, i: int) -> TokenView {
    if 0 <= i < ts.len() {
        ts[i].token
    } else {
        TokenView::EOF
    }
}

/// The span of the token at position `i`, empty outside the stream.
pub open spec fn span_at(ts: Seq<TokenModel>, i: int) -> Span {
    if 0 <= i < ts.len() {
        ts[i].span
    } else {
        Span { start: 0, end: 0 }
    }
}

/// Whether token `t` is of one of the variants in `kinds`.
pub open spec fn matches_any(t: TokenView, kinds: Seq<TokenView>) -> bool {
    exists|k: int| 0 <= k < kinds.len() && same_variant(t, #[trigger] kinds[k])
}

/// The state after moving past one token.
pub open spec fn adv(ts: Seq<TokenModel>, st: PState) -> PState {
    PState { pos: if st.pos < ts.len() { st.pos + 1 } else { st.pos }, diags: st.diags }
}

/// The error the parser reports.
pub open spec fn parse_error(message: Seq<char>) -> ErrorView {
    error_init(message, None, Reason::Parse)
}

/// The state with one more diagnostic recorded.
pub open spec fn diag(st: PState, message: Seq<char>) -> PState {
    PState { pos: st.pos, diags: st.diags.push(parse_error(message)) }
}

/// The state after consuming a token of variant `kind` if it is next.
pub open spec fn skip_if(ts: Seq<TokenModel>, st: PState, kind: TokenView) -> PState {
    if same_variant(tok(ts, st.pos), kind) {
        adv(ts, st)
    } else {
        st
    }
}

pub open spec fn join(a: Span, b: Span) -> Span {
    Span { start: min_usize(a.start, b.start), end: max_usize(a.end, b.end) }
}

pub open spec fn mk(kind: ExprKindView, span: Span) -> ExprView {
    ExprView { kind, span }
}

pub open spec fn fail<T, U>(p: Parsed<T>, x: ErrorView) -> Parsed<U> {
    Parsed { result: Err(x), st: p.st }
}

/// Whether the parse from `a` to `b` went forward without leaving the stream.
pub open spec fn moved(ts: Seq<TokenModel>, a: PState, b: PState) -> bool {
    a.pos < b.pos <= ts.len()
}

/// Whether `b` is no earlier than `a` and still inside the stream.
pub open spec fn kept(ts: Seq<TokenModel>, a: PState, b: PState) -> bool {
    a.pos <= b.pos <= ts.len()
}

pub open spec fn equality_ops() -> Seq<TokenView> {
    seq![TokenView::BangEqual, TokenView::Compare]
}

pub open spec fn comparison_ops() -> Seq<TokenView> {
    seq![
        TokenView::Less,
        TokenView::LessEqual,
        TokenView::Greater,
        TokenView::GreaterEqual,
        TokenView::PlusEqual,
        TokenView::MinusEqual,
        TokenView::StarEqual,
        TokenView::SlashEqual,
    ]
}

pub open spec fn term_ops() -> Seq<TokenView> {
    seq![TokenView::Plus, TokenView::Minus]
}

pub open spec fn factor_ops() -> Seq<TokenView> {
    seq![TokenView::Star, TokenView::Slash]
}

pub open spec fn unary_ops() -> Seq<TokenView> {
    seq![TokenView::Bang, TokenView::Minus]
}

/// The operator a compound assignment applies: `+=` applies `+`, and so on.
pub open spec fn compound_base(op: TokenView) -> Option<TokenView> {
    match op {
        TokenView::PlusEqual => Some(TokenView::Plus),
        TokenView::MinusEqual => Some(TokenView::Minus),
        TokenView::StarEqual => Some(TokenView::Star),
        TokenView::SlashEqual => Some(TokenView::Slash),
        _ => None,
    }
}

/// `left op right`, spanning both operands.
pub open spec fn binary(left: ExprView, op: TokenView, right: ExprView) -> ExprView {
    mk(
        ExprKindView::Binary { left: Box::new(left), operator: op, right: Box::new(right) },
        join(left.span, right.span),
    )
}

/// What a comparison-level operator builds: a compound assignment to a plain
/// name becomes `name = name op right`; anything else is a binary node.
pub open spec fn comparison_node(left: ExprView, op: TokenView, right: ExprView) -> ExprView {
    let span = join(left.span, right.span);
    match (compound_base(op), left.kind) {
        (Some(base), ExprKindView::Identifier(name)) => mk(
            ExprKindView::Assign {
                name,
                value: Box::new(
                    mk(
                        ExprKindView::Binary {
                            left: Box::new(mk(ExprKindView::Identifier(name), left.span)),
                            operator: base,
                            right: Box::new(right),
                        },
                        span,
                    ),
                ),
            },
            span,
        ),
        _ => binary(left, op, right),
    }
}

/// Parsing an expression: the lowest-precedence level, equality.
pub open spec fn p_expression(ts: Seq<TokenModel>, st: PState) -> Parsed<ExprView>
    decreases rem(ts, st.pos), 12int,
{
    p_equality(ts, st)
}

pub open spec fn p_equality(ts: Seq<TokenModel>, st: PState) -> Parsed<ExprView>
    decreases rem(ts, st.pos), 11int,
{
    let l = p_comparison(ts, st);
    match l.result {
        Err(x) => fail(l, x),
        Ok(left) => if kept(ts, st, l.st) {
            p_equality_rest(ts, l.st, left)
        } else {
            l
        },
    }
}

/// Folding `== right` and `!= right` onto `left` while such operators follow.
pub open spec fn p_equality_rest(ts: Seq<TokenModel>, st: PState, left: ExprView) -> Parsed<ExprView>
    decreases rem(ts, st.pos), 10int,
{
    let op = tok(ts, st.pos);
    if matches_any(op, equality_ops()) && 0 <= st.pos < ts.len() {
        let r = p_comparison(ts, adv(ts, st));
        match r.result {
            Err(x) => fail(r, x),
            Ok(right) => {
                let e = binary(left, op, right);
                if moved(ts, st, r.st) {
                    p_equality_rest(ts, r.st, e)
                } else {
                    Parsed { result: Ok(e), st: r.st }
                }
            },
        }
    } else {
        Parsed { result: Ok(left), st }
    }
}

pub open spec fn p_comparison(ts: Seq<TokenModel>, st: PState) -> Parsed<ExprView>
    decreases rem(ts, st.pos), 9int,
{
    let l = p_term(ts, st);
    match l.result {
        Err(x) => fail(l, x),
        Ok(left) => if kept(ts, st, l.st) {
            p_comparison_rest(ts, l.st, left)
        } else {
            l
        },
    }
}

pub open spec fn p_comparison_rest(ts: Seq<TokenModel>, st: PState, left: ExprView) -> Parsed<ExprView>
    decreases rem(ts, st.pos), 8int,
{
    let op = tok(ts, st.pos);
    if matches_any(op, comparison_ops()) && 0 <= st.pos < ts.len() {
        let r = p_term(ts, adv(ts, st));
        match r.result {
            Err(x) => fail(r, x),
            Ok(right) => {
                let e = comparison_node(left, op, right);
                if moved(ts, st, r.st) {
                    p_comparison_rest(ts, r.st, e)
                } else {
                    Parsed { result: Ok(e), st: r.st }
                }
            },
        }
    } else {
        Parsed { result: Ok(left), st }
    }
}

pub open spec fn p_term(ts: Seq<TokenModel>, st: PState) -> Parsed<ExprView>
    decreases rem(ts, st.pos), 7int,
{
    let l = p_factor(ts, st);
    match l.result {
        Err(x) => fail(l, x),
        Ok(left) => if kept(ts, st, l.st) {
            p_term_rest(ts, l.st, left)
        } else {
            l
        },
    }
}

pub open spec fn p_term_rest(ts: Seq<TokenModel>, st: PState, left: ExprView) -> Parsed<ExprView>
    decreases rem(ts, st.pos), 6int,
{
    let op = tok(ts, st.pos);
    if matches_any(op, term_ops()) && 0 <= st.pos < ts.len() {
        let r = p_factor(ts, adv(ts, st));
        match r.result {
            Err(x) => fail(r, x),
            Ok(right) => {
                let e = binary(left, op, right);
                if moved(ts, st, r.st) {
                    p_term_rest(ts, r.st, e)
                } else {
                    Parsed { result: Ok(e), st: r.st }
                }
            },
        }
    } else {
        Parsed { result: Ok(left), st }
    }
}

pub open spec fn p_factor(ts: Seq<TokenModel>, st: PState) -> Parsed<ExprView>
    decreases rem(ts, st.pos), 5int,
{
    let l = p_unary(ts, st);
    match l.result {
        Err(x) => fail(l, x),
        Ok(left) => if kept(ts, st, l.st) {
            p_factor_rest(ts, l.st, left)
        } else {
            l
        },
    }
}

pub open spec fn p_factor_rest(ts: Seq<TokenModel>, st: PState, left: ExprView) -> Parsed<ExprView>
    decreases rem(ts, st.pos), 4int,
{
    let op = tok(ts, st.pos);
    if matches_any(op, factor_ops()) && 0 <= st.pos < ts.len() {
        let r = p_unary(ts, adv(ts, st));
        match r.result {
            Err(x) => fail(r, x),
            Ok(right) => {
                let e = binary(left, op, right);
                if moved(ts, st, r.st) {
                    p_factor_rest(ts, r.st, e)
                } else {
                    Parsed { result: Ok(e), st: r.st }
                }
            },
        }
    } else {
        Parsed { result: Ok(left), st }
    }
}

pub open spec fn p_unary(ts: Seq<TokenModel>, st: PState) -> Parsed<ExprView>
    decreases rem(ts, st.pos), 3int,
{
    let op = tok(ts, st.pos);
    if matches_any(op, unary_ops()) && 0 <= st.pos < ts.len() {
        let r = p_unary(ts, adv(ts, st));
        match r.result {
            Err(x) => fail(r, x),
            Ok(operand) => Parsed {
                result: Ok(
                    mk(
                        ExprKindView::Unary { operator: op, operand: Box::new(operand) },
                        join(span_at(ts, st.pos), operand.span),
                    ),
                ),
                st: r.st,
            },
        }
    } else {
        p_primary(ts, st)
    }
}

/// Parsing a primary expression: a name (maybe called, assigned or indexed),
/// an array literal, a literal, or a parenthesised expression.
pub open spec fn p_primary(ts: Seq<TokenModel>, st: PState) -> Parsed<ExprView>
    decreases rem(ts, st.pos), 2int,
{
    let start = span_at(ts, st.pos);
    let t = tok(ts, st.pos);
    if !(0 <= st.pos < ts.len()) {
        Parsed { result: Err(parse_error("Expected expression"@)), st }
    } else {
        let st1 = adv(ts, st);
        match t {
            TokenView::Identifier(name) => p_name_tail(ts, st1, name, start),
            TokenView::LeftBracket => {
                let a = p_array_items(ts, st1, Seq::empty());
                match a.result {
                    Err(x) => fail(a, x),
                    Ok(items) => {
                        let st3 = skip_if(ts, a.st, TokenView::RightBracket);
                        Parsed {
                            result: Ok(
                                mk(ExprKindView::ArrayLiteral(items), join(start, span_at(ts, st3.pos - 1))),
                            ),
                            st: st3,
                        }
                    },
                }
            },
            TokenView::NumberLiteral(n) => Parsed { result: Ok(mk(ExprKindView::Integer(n), start)), st: st1 },
            TokenView::StringLiteral(s) => Parsed { result: Ok(mk(ExprKindView::Str(s), start)), st: st1 },
            TokenView::CharacterLiteral(c) => Parsed {
                result: Ok(mk(ExprKindView::Character(c), start)),
                st: st1,
            },
            TokenView::BoolLiteral(b) => Parsed { result: Ok(mk(ExprKindView::Bool(b), start)), st: st1 },
            TokenView::LeftParen => {
                let i = p_expression(ts, st1);
                match i.result {
                    Err(x) => fail(i, x),
                    Ok(inner) => {
                        let st3 = skip_if(ts, i.st, TokenView::RightParen);
                        Parsed {
                            result: Ok(
                                mk(ExprKindView::Grouping(Box::new(inner)), join(start, span_at(ts, st3.pos - 1))),
                            ),
                            st: st3,
                        }
                    },
                }
            },
            _ => Parsed { result: Err(parse_error("Expected expression"@)), st },
        }
    }
}

/// What follows a name at `st`: call arguments, an assignment, indices, or nothing.
pub open spec fn p_name_tail(ts: Seq<TokenModel>, st: PState, name: Seq<char>, start: Span) -> Parsed<ExprView>
    decreases rem(ts, st.pos), 16int,
{
    if tok(ts, st.pos) is LeftParen {
        p_call_tail(ts, st, name, start)
    } else if tok(ts, st.pos) is Assign {
        let v = p_expression(ts, adv(ts, st));
        match v.result {
            Err(x) => fail(v, x),
            Ok(value) => Parsed {
                result: Ok(
                    mk(ExprKindView::Assign { name, value: Box::new(value) }, join(start, value.span)),
                ),
                st: v.st,
            },
        }
    } else if tok(ts, st.pos) is LeftBracket {
        p_index_tail(ts, st, name, start)
    } else {
        Parsed { result: Ok(mk(ExprKindView::Identifier(name), start)), st }
    }
}

/// A call: `(`, the arguments, `)`.
pub open spec fn p_call_tail(ts: Seq<TokenModel>, st: PState, name: Seq<char>, start: Span) -> Parsed<ExprView>
    decreases rem(ts, st.pos), 15int,
{
    let st2 = adv(ts, st);
    let a = if tok(ts, st2.pos) is RightParen {
        Parsed { result: Ok(Seq::empty()), st: st2 }
    } else if rem(ts, st2.pos) < rem(ts, st.pos) {
        p_args(ts, st2, Seq::empty())
    } else {
        Parsed { result: Ok(Seq::empty()), st: st2 }
    };
    match a.result {
        Err(x) => fail(a, x),
        Ok(args) => {
            let st3 = skip_if(ts, a.st, TokenView::RightParen);
            Parsed {
                result: Ok(mk(ExprKindView::Call { name, args }, join(start, span_at(ts, st3.pos - 1)))),
                st: st3,
            }
        },
    }
}

/// An indexing: `[`, an index, `]`, then what `p_index_chain` parses.
pub open spec fn p_index_tail(ts: Seq<TokenModel>, st: PState, name: Seq<char>, start: Span) -> Parsed<ExprView>
    decreases rem(ts, st.pos), 15int,
{
    let i = if rem(ts, adv(ts, st).pos) < rem(ts, st.pos) {
        p_expression(ts, adv(ts, st))
    } else {
        Parsed { result: Err(parse_error("Expected expression"@)), st }
    };
    match i.result {
        Err(x) => fail(i, x),
        Ok(index) => {
            let st3 = skip_if(ts, i.st, TokenView::RightBracket);
            let target = mk(ExprKindView::Identifier(name), start);
            if moved(ts, st, st3) {
                p_index_chain(ts, st3, target, index, start, span_at(ts, st3.pos - 1))
            } else {
                Parsed { result: Ok(index_node(target, index, start, span_at(ts, st3.pos - 1))), st: st3 }
            }
        },
    }
}

/// `target[index]`, spanning from `start` to `end`.
pub open spec fn index_node(target: ExprView, index: ExprView, start: Span, end: Span) -> ExprView {
    mk(ExprKindView::Index { target: Box::new(target), index: Box::new(index) }, join(start, end))
}

/// Parsing call arguments separated by commas, after those in `acc`.
pub open spec fn p_args(ts: Seq<TokenModel>, st: PState, acc: Seq<ExprView>) -> Parsed<Seq<ExprView>>
    decreases rem(ts, st.pos), 13int,
{
    let e = p_expression(ts, st);
    match e.result {
        Err(x) => fail(e, x),
        Ok(arg) => {
            let acc2 = acc.push(arg);
            if tok(ts, e.st.pos) is Comma && kept(ts, st, e.st) && e.st.pos < ts.len() {
                p_args(ts, adv(ts, e.st), acc2)
            } else {
                Parsed { result: Ok(acc2), st: e.st }
            }
        },
    }
}

/// Parsing array items up to the closing bracket, after those in `acc`; a
/// missing comma between items is recorded and parsing goes on.
pub open spec fn p_array_items(ts: Seq<TokenModel>, st: PState, acc: Seq<ExprView>) -> Parsed<
    Seq<ExprView>,
>
    decreases rem(ts, st.pos), 13int,
{
    if tok(ts, st.pos) is RightBracket {
        Parsed { result: Ok(acc), st }
    } else {
        let e = p_expression(ts, st);
        match e.result {
            Err(x) => fail(e, x),
            Ok(item) => {
                let acc2 = acc.push(item);
                if tok(ts, e.st.pos) is RightBracket {
                    Parsed { result: Ok(acc2), st: e.st }
                } else {
                    let st2 = if tok(ts, e.st.pos) is Comma {
                        adv(ts, e.st)
                    } else {
                        diag(e.st, "expected ',' between array items"@)
                    };
                    if moved(ts, st, st2) {
                        p_array_items(ts, st2, acc2)
                    } else {
                        Parsed { result: Ok(acc2), st: st2 }
                    }
                }
            },
        }
    }
}

/// After `target[index]` (whose closing bracket ends at `end`): further
/// `[index]` suffixes, then maybe `= value`, which turns the outermost
/// indexing into an indexed assignment.
pub open spec fn p_index_chain(
    ts: Seq<TokenModel>,
    st: PState,
    target: ExprView,
    index: ExprView,
    start: Span,
    end: Span,
) -> Parsed<ExprView>
    decreases rem(ts, st.pos), 13int,
{
    if tok(ts, st.pos) is LeftBracket && 0 <= st.pos < ts.len() {
        let i = p_expression(ts, adv(ts, st));
        match i.result {
            Err(x) => fail(i, x),
            Ok(next) => {
                let st2 = skip_if(ts, i.st, TokenView::RightBracket);
                let outer = index_node(target, index, start, end);
                if moved(ts, st, st2) {
                    p_index_chain(ts, st2, outer, next, start, span_at(ts, st2.pos - 1))
                } else {
                    Parsed { result: Ok(index_node(outer, next, start, span_at(ts, st2.pos - 1))), st: st2 }
                }
            },
        }
    } else if tok(ts, st.pos) is Assign && 0 <= st.pos < ts.len() {
        let v = p_expression(ts, adv(ts, st));
        match v.result {
            Err(x) => fail(v, x),
            Ok(value) => Parsed {
                result: Ok(
                    mk(
                        ExprKindView::IndexAssign {
                            target: Box::new(target),
                            index: Box::new(index),
                            value: Box::new(value),
                        },
                        join(start, value.span),
                    ),
                ),
                st: v.st,
            },
        }
    } else {
        Parsed { result: Ok(index_node(target, index, start, end)), st }
    }
}


/// The parse a run of an exec parser gives: this result, and this state afterwards.
pub open spec fn agrees<T>(p: Parsed<T>, r: Result<T, ErrorView>, st: PState) -> bool {
    p.result == r && p.st == st
}

pub open spec fn expr_result(r: Result<Expression, Error>) -> Result<ExprView, ErrorView> {
    match r {
        Ok(e) => Ok(e@),
        Err(x) => Err(x@),
    }
}

pub proof fn lemma_ops(op: TokenView)
    ensures
        matches_any(op, equality_ops()) <==> (op is BangEqual || op is Compare),
        matches_any(op, comparison_ops()) <==> (op is Less || op is LessEqual || op is Greater
            || op is GreaterEqual || op is PlusEqual || op is MinusEqual || op is StarEqual
            || op is SlashEqual),
        matches_any(op, term_ops()) <==> (op is Plus || op is Minus),
        matches_any(op, factor_ops()) <==> (op is Star || op is Slash),
        matches_any(op, unary_ops()) <==> (op is Bang || op is Minus),
{
    let e = equality_ops();
    assert(e.len() == 2 && e[0] == TokenView::BangEqual && e[1] == TokenView::Compare);
    if op is BangEqual {
        assert(same_variant(op, e[0]));
    }
    if op is Compare {
        assert(same_variant(op, e[1]));
    }
    let c = comparison_ops();
    assert(c.len() == 8);
    assert(c[0] == TokenView::Less && c[1] == TokenView::LessEqual && c[2] == TokenView::Greater
        && c[3] == TokenView::GreaterEqual && c[4] == TokenView::PlusEqual && c[5]
        == TokenView::MinusEqual && c[6] == TokenView::StarEqual && c[7] == TokenView::SlashEqual);
    if op is Less {
        assert(same_variant(op, c[0]));
    }
    if op is LessEqual {
        assert(same_variant(op, c[1]));
    }
    if op is Greater {
        assert(same_variant(op, c[2]));
    }
    if op is GreaterEqual {
        assert(same_variant(op, c[3]));
    }
    if op is PlusEqual {
        assert(same_variant(op, c[4]));
    }
    if op is MinusEqual {
        assert(same_variant(op, c[5]));
    }
    if op is StarEqual {
        assert(same_variant(op, c[6]));
    }
    if op is SlashEqual {
        assert(same_variant(op, c[7]));
    }
    let t = term_ops();
    assert(t.len() == 2 && t[0] == TokenView::Plus && t[1] == TokenView::Minus);
    if op is Plus {
        assert(same_variant(op, t[0]));
    }
    if op is Minus {
        assert(same_variant(op, t[1]));
    }
    let f = factor_ops();
    assert(f.len() == 2 && f[0] == TokenView::Star && f[1] == TokenView::Slash);
    if op is Star {
        assert(same_variant(op, f[0]));
    }
    if op is Slash {
        assert(same_variant(op, f[1]));
    }
    let u = unary_ops();
    assert(u.len() == 2 && u[0] == TokenView::Bang && u[1] == TokenView::Minus);
    if op is Bang {
        assert(same_variant(op, u[0]));
    }
    if op is Minus {
        assert(same_variant(op, u[1]));
    }
}

impl Parser {
    /// The tokens being parsed, by their models.
    pub open spec fn ts(&self) -> Seq<TokenModel> {
        token_models(self.tokens@)
    }

    /// The parser's progress: position and diagnostics.
    pub open spec fn state(&self) -> PState {
        PState { pos: self.current as int, diags: error_views(self.diagnostics@) }
    }

    /// A parser at the start of `tokens`.
    pub fn new(tokens: Vec<Token>) -> (p: Parser)
        ensures
            p.tokens == tokens,
            p.current == 0,
            p.diagnostics@.len() == 0,
    {
        Parser { tokens, current: 0, diagnostics: Vec::new() }
    }

    /// The token at the current position, `EOF` past the end.
    pub fn peek(&self) -> (t: TokenType)
        ensures
            t@ == tok(self.ts(), self.current as int),
    {
        if self.current < self.tokens.len() {
            self.tokens[self.current].token.duplicate()
        } else {
            TokenType::EOF
        }
    }

    /// The token just before the current position, `EOF` at the start.
    pub fn previous(&self) -> (t: TokenType)
        ensures
            t@ == tok(self.ts(), self.current - 1),
    {
        if self.current > 0 && self.current - 1 < self.tokens.len() {
            self.tokens[self.current - 1].token.duplicate()
        } else {
            TokenType::EOF
        }
    }

    /// Whether the current token is of the same variant as `kind`.
    pub fn check(&self, kind: &TokenType) -> (b: bool)
        ensures
            b == same_variant(tok(self.ts(), self.current as int), kind@),
    {
        if self.current < self.tokens.len() {
            self.tokens[self.current].token.same_variant(kind)
        } else {
            TokenType::EOF.same_variant(kind)
        }
    }

    /// The span of the current token.
    pub fn peek_span(&self) -> (s: Span)
        ensures
            s == span_at(self.ts(), self.current as int),
    {
        if self.current < self.tokens.len() {
            self.tokens[self.current].span
        } else {
            Span { start: 0, end: 0 }
        }
    }

    /// The span of the token just before the current position.
    pub fn previous_span(&self) -> (s: Span)
        ensures
            s == span_at(self.ts(), self.current - 1),
    {
        if self.current > 0 && self.current - 1 < self.tokens.len() {
            self.tokens[self.current - 1].span
        } else {
            Span { start: 0, end: 0 }
        }
    }

    /// Moves past the current token, unless the stream is exhausted.
    pub fn advance(&mut self)
        ensures
            final(self).tokens == old(self).tokens,
            final(self).state() == adv(old(self).ts(), old(self).state()),
    {
        if self.current < self.tokens.len() {
            self.current = self.current + 1;
        }
    }

    /// Consumes the current token when it is of the same variant as `kind`.
    pub fn match_type(&mut self, kind: &TokenType) -> (b: bool)
        ensures
            final(self).tokens == old(self).tokens,
            b == same_variant(tok(old(self).ts(), old(self).current as int), kind@),
            final(self).state() == skip_if(old(self).ts(), old(self).state(), kind@),
    {
        if self.check(kind) {
            self.advance();
            true
        } else {
            false
        }
    }

    /// Records a diagnostic the parse can go on after.
    pub fn report(&mut self, message: String)
        ensures
            final(self).tokens == old(self).tokens,
            final(self).state() == diag(old(self).state(), message@),
    {
        let ghost before = self.diagnostics@;
        self.diagnostics.push(Error::init(message, None, Reason::Parse));
        proof {
            assert(error_views(self.diagnostics@) =~= error_views(before).push(parse_error(message@)));
        }
    }
}

} // verus!
