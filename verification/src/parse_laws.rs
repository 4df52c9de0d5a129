use vstd::prelude::*;

use crate::ast::{ExprKindView, ExprView};
use crate::parser::{
    adv, comparison_node, join, lemma_ops, p_comparison, p_equality_rest, p_factor, p_factor_rest,
    p_expression, p_index_chain, p_name_tail, p_primary, p_term, p_term_rest, p_unary, parse_error, span_at, tok, PState, Parsed,
};
use crate::span::Span;
use crate::tokens::{TokenModel, TokenView};

verus! {

/// Whether `op` is a compound assignment and `base` the operator it applies.
pub open spec fn compound_pair(op: TokenView, base: TokenView) -> bool {
    ||| op == TokenView::PlusEqual && base == TokenView::Plus
    ||| op == TokenView::MinusEqual && base == TokenView::Minus
    ||| op == TokenView::StarEqual && base == TokenView::Star
    ||| op == TokenView::SlashEqual && base == TokenView::Slash
}

/// Whether `t` is an operator of the comparison level: an ordering or a
/// compound assignment.
pub open spec fn is_comparison_op(t: TokenView) -> bool {
    t is Less || t is LessEqual || t is Greater || t is GreaterEqual || t is PlusEqual || t is MinusEqual
        || t is StarEqual || t is SlashEqual
}

/// The node `left op right`, spanning both operands.
pub open spec fn binary_node(left: ExprView, op: TokenView, right: ExprView) -> ExprView {
    ExprView {
        kind: ExprKindView::Binary { left: Box::new(left), operator: op, right: Box::new(right) },
        span: join(left.span, right.span),
    }
}

/// `name op= right` is `name = name base right`: an assignment to the name
/// whose value is the name itself on the left of the base operator and the
/// right operand on its right; any other left operand, or any other
/// comparison operator, builds the plain node `left op right`.
pub proof fn law_compound_assignment_node(
    name: Seq<char>,
    name_span: Span,
    op: TokenView,
    base: TokenView,
    left: ExprView,
    right: ExprView,
)
    ensures
        compound_pair(op, base) ==> comparison_node(
            ExprView { kind: ExprKindView::Identifier(name), span: name_span },
            op,
            right,
        ) == (ExprView {
            kind: ExprKindView::Assign {
                name,
                value: Box::new(
                    binary_node(ExprView { kind: ExprKindView::Identifier(name), span: name_span }, base, right),
                ),
            },
            span: join(name_span, right.span),
        }),
        !(left.kind is Identifier) ==> comparison_node(left, op, right) == binary_node(left, op, right),
        (op is Less || op is LessEqual || op is Greater || op is GreaterEqual) ==> comparison_node(
            left,
            op,
            right,
        ) == binary_node(left, op, right),
{
}

/// Parsing `name op= <term>` at the comparison level, where no comparison
/// operator follows the term, gives `name = name base <term>` and stops after
/// the term.
pub proof fn law_compound_assignment_parse(
    ts: Seq<TokenModel>,
    st: PState,
    name: Seq<char>,
    op: TokenView,
    base: TokenView,
)
    requires
        0 <= st.pos,
        st.pos + 1 < ts.len(),
        tok(ts, st.pos) == TokenView::Identifier(name),
        tok(ts, st.pos + 1) == op,
        compound_pair(op, base),
        p_term(ts, PState { pos: st.pos + 2, diags: st.diags }).result is Ok,
        !is_comparison_op(tok(ts, p_term(ts, PState { pos: st.pos + 2, diags: st.diags }).st.pos)),
    ensures
        ({
            let r = p_term(ts, PState { pos: st.pos + 2, diags: st.diags });
            let right = r.result->Ok_0;
            let target = ExprView { kind: ExprKindView::Identifier(name), span: span_at(ts, st.pos) };
            p_comparison(ts, st) == Parsed {
                result: Ok(
                    ExprView {
                        kind: ExprKindView::Assign { name, value: Box::new(binary_node(target, base, right)) },
                        span: join(span_at(ts, st.pos), right.span),
                    },
                ),
                st: r.st,
            }
        }),
{
    let st1 = adv(ts, st);
    lemma_ops(op);
    lemma_ops(TokenView::Identifier(name));
    let r = p_term(ts, PState { pos: st.pos + 2, diags: st.diags });
    lemma_ops(tok(ts, r.st.pos));
    let target = ExprView { kind: ExprKindView::Identifier(name), span: span_at(ts, st.pos) };
    assert(p_unary(ts, st) == Parsed { result: Ok(target), st: st1 });
    assert(p_factor_rest(ts, st1, target) == Parsed { result: Ok(target), st: st1 });
    assert(p_factor(ts, st) == Parsed { result: Ok(target), st: st1 });
    assert(p_term_rest(ts, st1, target) == Parsed { result: Ok(target), st: st1 });
    assert(p_term(ts, st) == Parsed { result: Ok(target), st: st1 });
    assert(adv(ts, st1) == PState { pos: st.pos + 2, diags: st.diags });
    law_compound_assignment_node(name, span_at(ts, st.pos), op, base, target, r.result->Ok_0);
}

/// After `left`, a `+` or `-` followed by a factor and no further `+` or `-`
/// gives the node with `left` on the left and the factor on the right.
pub proof fn law_term_keeps_operand_order(ts: Seq<TokenModel>, st: PState, left: ExprView)
    requires
        0 <= st.pos < ts.len(),
        tok(ts, st.pos) is Plus || tok(ts, st.pos) is Minus,
        p_factor(ts, adv(ts, st)).result is Ok,
        !(tok(ts, p_factor(ts, adv(ts, st)).st.pos) is Plus || tok(ts, p_factor(ts, adv(ts, st)).st.pos) is Minus),
    ensures
        p_term_rest(ts, st, left) == (Parsed {
            result: Ok(binary_node(left, tok(ts, st.pos), p_factor(ts, adv(ts, st)).result->Ok_0)),
            st: p_factor(ts, adv(ts, st)).st,
        }),
{
    let r = p_factor(ts, adv(ts, st));
    lemma_ops(tok(ts, st.pos));
    lemma_ops(tok(ts, r.st.pos));
    let e = binary_node(left, tok(ts, st.pos), r.result->Ok_0);
    assert(p_term_rest(ts, r.st, e) == Parsed { result: Ok(e), st: r.st });
}

/// After `left`, a `*` or `/` followed by a unary operand and no further `*`
/// or `/` gives the node with `left` on the left and the operand on the right.
pub proof fn law_factor_keeps_operand_order(ts: Seq<TokenModel>, st: PState, left: ExprView)
    requires
        0 <= st.pos < ts.len(),
        tok(ts, st.pos) is Star || tok(ts, st.pos) is Slash,
        p_unary(ts, adv(ts, st)).result is Ok,
        !(tok(ts, p_unary(ts, adv(ts, st)).st.pos) is Star || tok(ts, p_unary(ts, adv(ts, st)).st.pos) is Slash),
    ensures
        p_factor_rest(ts, st, left) == (Parsed {
            result: Ok(binary_node(left, tok(ts, st.pos), p_unary(ts, adv(ts, st)).result->Ok_0)),
            st: p_unary(ts, adv(ts, st)).st,
        }),
{
    let r = p_unary(ts, adv(ts, st));
    lemma_ops(tok(ts, st.pos));
    lemma_ops(tok(ts, r.st.pos));
    let e = binary_node(left, tok(ts, st.pos), r.result->Ok_0);
    assert(p_factor_rest(ts, r.st, e) == Parsed { result: Ok(e), st: r.st });
}

/// After `left`, a `==` or `!=` followed by a comparison and no further `==`
/// or `!=` gives the node with `left` on the left and the comparison on the
/// right.
pub proof fn law_equality_keeps_operand_order(ts: Seq<TokenModel>, st: PState, left: ExprView)
    requires
        0 <= st.pos < ts.len(),
        tok(ts, st.pos) is Compare || tok(ts, st.pos) is BangEqual,
        p_comparison(ts, adv(ts, st)).result is Ok,
        !(tok(ts, p_comparison(ts, adv(ts, st)).st.pos) is Compare || tok(ts, p_comparison(ts, adv(ts, st)).st.pos)
            is BangEqual),
    ensures
        p_equality_rest(ts, st, left) == (Parsed {
            result: Ok(binary_node(left, tok(ts, st.pos), p_comparison(ts, adv(ts, st)).result->Ok_0)),
            st: p_comparison(ts, adv(ts, st)).st,
        }),
{
    let r = p_comparison(ts, adv(ts, st));
    lemma_ops(tok(ts, st.pos));
    lemma_ops(tok(ts, r.st.pos));
    let e = binary_node(left, tok(ts, st.pos), r.result->Ok_0);
    assert(p_equality_rest(ts, r.st, e) == Parsed { result: Ok(e), st: r.st });
}

/// A unary operator before an operand gives the unary node over that operand,
/// spanning from the operator to the operand's end.
pub proof fn law_unary_node(ts: Seq<TokenModel>, st: PState)
    requires
        0 <= st.pos < ts.len(),
        tok(ts, st.pos) is Bang || tok(ts, st.pos) is Minus,
        p_unary(ts, adv(ts, st)).result is Ok,
    ensures
        ({
            let r = p_unary(ts, adv(ts, st));
            p_unary(ts, st) == Parsed {
                result: Ok(
                    ExprView {
                        kind: ExprKindView::Unary {
                            operator: tok(ts, st.pos),
                            operand: Box::new(r.result->Ok_0),
                        },
                        span: join(span_at(ts, st.pos), r.result->Ok_0.span),
                    },
                ),
                st: r.st,
            }
        }),
{
    lemma_ops(tok(ts, st.pos));
}

/// The node for `kind` at the span of token `i`, with the parse after that token.
pub open spec fn one_token(ts: Seq<TokenModel>, st: PState, kind: ExprKindView) -> Parsed<ExprView> {
    Parsed { result: Ok(ExprView { kind, span: span_at(ts, st.pos) }), st: adv(ts, st) }
}

/// A literal token parses to the literal it carries, spanning the token; a
/// name followed by no `(`, `=` or `[` parses to that name; a token that can
/// start no expression, or the end of the tokens, is "Expected expression".
pub proof fn law_primary_tokens(ts: Seq<TokenModel>, st: PState)
    requires
        0 <= st.pos,
    ensures
        ({
            let t = tok(ts, st.pos);
            &&& (st.pos < ts.len() && t is NumberLiteral) ==> p_primary(ts, st) == one_token(
                ts,
                st,
                ExprKindView::Integer(t->NumberLiteral_0),
            )
            &&& (st.pos < ts.len() && t is StringLiteral) ==> p_primary(ts, st) == one_token(
                ts,
                st,
                ExprKindView::Str(t->StringLiteral_0),
            )
            &&& (st.pos < ts.len() && t is CharacterLiteral) ==> p_primary(ts, st) == one_token(
                ts,
                st,
                ExprKindView::Character(t->CharacterLiteral_0),
            )
            &&& (st.pos < ts.len() && t is BoolLiteral) ==> p_primary(ts, st) == one_token(
                ts,
                st,
                ExprKindView::Bool(t->BoolLiteral_0),
            )
            &&& (st.pos < ts.len() && t is Identifier && !(tok(ts, st.pos + 1) is LeftParen || tok(ts, st.pos + 1) is Assign
                || tok(ts, st.pos + 1) is LeftBracket)) ==> p_primary(ts, st) == one_token(
                ts,
                st,
                ExprKindView::Identifier(t->Identifier_0),
            )
            &&& (st.pos >= ts.len() || t is RightParen || t is RightBracket || t is Comma || t is EOF || t is If
                || t is Else || t is While) ==> p_primary(ts, st) == Parsed::<ExprView> {
                result: Err(parse_error("Expected expression"@)),
                st,
            }
        }),
{
}

/// After a name: `= value` is an assignment of the value parsed after `=`;
/// `( )` is a call with no arguments; `[ index ]` with no further `[` or `=`
/// is the indexing of the name by the index parsed between the brackets.
pub proof fn law_name_forms(ts: Seq<TokenModel>, st: PState, name: Seq<char>, start: Span)
    requires
        0 <= st.pos < ts.len(),
    ensures
        (tok(ts, st.pos) is Assign && p_expression(ts, adv(ts, st)).result is Ok) ==> p_name_tail(ts, st, name, start)
            == (Parsed {
            result: Ok(
                ExprView {
                    kind: ExprKindView::Assign { name, value: Box::new(p_expression(ts, adv(ts, st)).result->Ok_0) },
                    span: join(start, p_expression(ts, adv(ts, st)).result->Ok_0.span),
                },
            ),
            st: p_expression(ts, adv(ts, st)).st,
        }),
        (tok(ts, st.pos) is LeftParen && st.pos + 1 < ts.len() && tok(ts, st.pos + 1) is RightParen) ==> p_name_tail(
            ts,
            st,
            name,
            start,
        ) == (Parsed {
            result: Ok(
                ExprView {
                    kind: ExprKindView::Call { name, args: Seq::empty() },
                    span: join(start, span_at(ts, st.pos + 1)),
                },
            ),
            st: PState { pos: st.pos + 2, diags: st.diags },
        }),
        ({
            let i = p_expression(ts, adv(ts, st));
            let after = i.st.pos;
            (tok(ts, st.pos) is LeftBracket && i.result is Ok && after < ts.len() && tok(ts, after) is RightBracket
                && !(tok(ts, after + 1) is LeftBracket) && !(tok(ts, after + 1) is Assign)) ==> p_name_tail(
                ts,
                st,
                name,
                start,
            ) == (Parsed {
                result: Ok(
                    ExprView {
                        kind: ExprKindView::Index {
                            target: Box::new(ExprView { kind: ExprKindView::Identifier(name), span: start }),
                            index: Box::new(i.result->Ok_0),
                        },
                        span: join(start, span_at(ts, after)),
                    },
                ),
                st: PState { pos: after + 1, diags: i.st.diags },
            })
        }),
{
    let i = p_expression(ts, adv(ts, st));
    if tok(ts, st.pos) is LeftBracket && i.result is Ok && i.st.pos < ts.len() && tok(ts, i.st.pos) is RightBracket
        && !(tok(ts, i.st.pos + 1) is LeftBracket) && !(tok(ts, i.st.pos + 1) is Assign) {
        let st3 = PState { pos: i.st.pos + 1, diags: i.st.diags };
        let target = ExprView { kind: ExprKindView::Identifier(name), span: start };
        let index = i.result->Ok_0;
        assert(p_index_chain(ts, st3, target, index, start, span_at(ts, st3.pos - 1)) == Parsed {
            result: Ok(crate::parser::index_node(target, index, start, span_at(ts, st3.pos - 1))),
            st: st3,
        });
    }
}

} // verus!
