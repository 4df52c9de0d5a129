use vstd::prelude::*;

use crate::ast::{
    expr_models, lemma_expr_models_push, ExprKindView, ExprView, Expression, ExpressionKind,
};
use crate::errors::{Error, ErrorView, Reason};
use crate::parser::{
    join, mk, agrees, expr_result, lemma_ops, p_args, p_array_items, p_comparison,
    p_comparison_rest, p_equality, p_equality_rest, p_expression, p_factor, p_factor_rest,
    p_index_chain, p_primary, p_term, p_term_rest, p_unary, p_name_tail, p_call_tail,
    p_index_tail, rem, Parser,
};
use crate::span::Span;
use crate::text::{copy_string, string_of};
use crate::tokens::TokenType;

verus! {

pub open spec fn list_result(r: Result<Vec<Expression>, Error>) -> Result<Seq<ExprView>, ErrorView> {
    match r {
        Ok(v) => Ok(expr_models(v@)),
        Err(x) => Err(x@),
    }
}

/// What every parsing function keeps: the tokens, a position that only moves
/// forward inside the stream, and forward movement whenever it succeeds.
pub open spec fn progress<T>(old_p: Parser, new_p: Parser, ok: bool, strict: bool) -> bool {
    &&& new_p.tokens == old_p.tokens
    &&& old_p.current <= new_p.current <= new_p.tokens.len()
    &&& (ok && strict ==> old_p.current < new_p.current)
}

/// Builds what a comparison-level operator gives: a compound assignment to a
/// plain name becomes `name = name op right`; anything else a binary node.
fn comparison_node_exec(left: Expression, op: TokenType, base: Option<TokenType>, right: Expression) -> (e:
    Expression)
    requires
        match crate::parser::compound_base(op@) {
            Some(b) => base matches Some(x) && x@ == b,
            None => base is None,
        },
    ensures
        e@ == crate::parser::comparison_node(left@, op@, right@),
{
    let span = left.span.join(right.span);
    let target_name = match &left.kind {
        ExpressionKind::Identifier(name) => Some(copy_string(name)),
        _ => None,
    };
    proof {
        if target_name is Some {
            assert(left@.kind == ExprKindView::Identifier(target_name->0@));
        } else {
            assert(!(left@.kind is Identifier));
        }
    }
    match base {
        Some(b) => {
            match target_name {
                Some(name) => {
                    let ghost nv = name@;
                    let ghost bv = b@;
                    let lhs = Expression::new(ExpressionKind::Identifier(copy_string(&name)), left.span);
                    assert(lhs@ == crate::parser::mk(ExprKindView::Identifier(nv), left.span));
                    let value = Expression::new(
                        ExpressionKind::Binary { left: Box::new(lhs), operator: b, right: Box::new(right) },
                        span,
                    );
                    let e = Expression::new(ExpressionKind::Assign { name, value: Box::new(value) }, span);
                    assert(e@.kind == ExprKindView::Assign { name: nv, value: Box::new(value@) });
                    e
                },
                None => Expression::new(
                    ExpressionKind::Binary { left: Box::new(left), operator: op, right: Box::new(right) },
                    span,
                ),
            }
        },
        None => Expression::new(
            ExpressionKind::Binary { left: Box::new(left), operator: op, right: Box::new(right) },
            span,
        ),
    }
}

impl Parser {
    /// Parses an expression.
    pub fn parse_expression(&mut self) -> (r: Result<Expression, Error>)
        requires
            old(self).current <= old(self).tokens.len(),
        ensures
            progress::<Expression>(*old(self), *final(self), r is Ok, true),
            agrees(p_expression(old(self).ts(), old(self).state()), expr_result(r), final(self).state()),
        decreases rem(old(self).ts(), old(self).current as int), 12int,
    {
        self.parse_equality()
    }

    /// Parses a chain of `==` and `!=` comparisons, grouping to the left.
    pub fn parse_equality(&mut self) -> (r: Result<Expression, Error>)
        requires
            old(self).current <= old(self).tokens.len(),
        ensures
            progress::<Expression>(*old(self), *final(self), r is Ok, true),
            agrees(p_equality(old(self).ts(), old(self).state()), expr_result(r), final(self).state()),
        decreases rem(old(self).ts(), old(self).current as int), 11int,
    {
        let left = self.parse_comparsion()?;
        self.parse_equality_rest(left)
    }

    fn parse_equality_rest(&mut self, left: Expression) -> (r: Result<Expression, Error>)
        requires
            old(self).current <= old(self).tokens.len(),
        ensures
            progress::<Expression>(*old(self), *final(self), r is Ok, false),
            agrees(
                p_equality_rest(old(self).ts(), old(self).state(), left@),
                expr_result(r),
                final(self).state(),
            ),
        decreases rem(old(self).ts(), old(self).current as int), 10int,
    {
        let op = self.peek();
        proof {
            lemma_ops(op@);
        }
        match op {
            TokenType::BangEqual | TokenType::Compare => {},
            _ => {
                return Ok(left);
            },
        }
        self.advance();
        let right = self.parse_comparsion()?;
        let span = left.span.join(right.span);
        let e = Expression::new(
            ExpressionKind::Binary { left: Box::new(left), operator: op, right: Box::new(right) },
            span,
        );
        self.parse_equality_rest(e)
    }

    /// Parses a chain of ordering comparisons and compound assignments,
    /// grouping to the left; `name += x` and the like become `name = name + x`.
    pub fn parse_comparsion(&mut self) -> (r: Result<Expression, Error>)
        requires
            old(self).current <= old(self).tokens.len(),
        ensures
            progress::<Expression>(*old(self), *final(self), r is Ok, true),
            agrees(p_comparison(old(self).ts(), old(self).state()), expr_result(r), final(self).state()),
        decreases rem(old(self).ts(), old(self).current as int), 9int,
    {
        let left = self.parse_term()?;
        self.parse_comparison_rest(left)
    }

    fn parse_comparison_rest(&mut self, left: Expression) -> (r: Result<Expression, Error>)
        requires
            old(self).current <= old(self).tokens.len(),
        ensures
            progress::<Expression>(*old(self), *final(self), r is Ok, false),
            agrees(
                p_comparison_rest(old(self).ts(), old(self).state(), left@),
                expr_result(r),
                final(self).state(),
            ),
        decreases rem(old(self).ts(), old(self).current as int), 8int,
    {
        let op = self.peek();
        proof {
            lemma_ops(op@);
        }
        let base = match op {
            TokenType::Less | TokenType::LessEqual | TokenType::Greater | TokenType::GreaterEqual => None,
            TokenType::PlusEqual => Some(TokenType::Plus),
            TokenType::MinusEqual => Some(TokenType::Minus),
            TokenType::StarEqual => Some(TokenType::Star),
            TokenType::SlashEqual => Some(TokenType::Slash),
            _ => {
                return Ok(left);
            },
        };
        self.advance();
        let right = self.parse_term()?;
        let e = comparison_node_exec(left, op, base, right);
        self.parse_comparison_rest(e)
    }

    /// Parses a chain of `+` and `-`, grouping to the left.
    pub fn parse_term(&mut self) -> (r: Result<Expression, Error>)
        requires
            old(self).current <= old(self).tokens.len(),
        ensures
            progress::<Expression>(*old(self), *final(self), r is Ok, true),
            agrees(p_term(old(self).ts(), old(self).state()), expr_result(r), final(self).state()),
        decreases rem(old(self).ts(), old(self).current as int), 7int,
    {
        let left = self.parse_factor()?;
        self.parse_term_rest(left)
    }

    fn parse_term_rest(&mut self, left: Expression) -> (r: Result<Expression, Error>)
        requires
            old(self).current <= old(self).tokens.len(),
        ensures
            progress::<Expression>(*old(self), *final(self), r is Ok, false),
            agrees(
                p_term_rest(old(self).ts(), old(self).state(), left@),
                expr_result(r),
                final(self).state(),
            ),
        decreases rem(old(self).ts(), old(self).current as int), 6int,
    {
        let op = self.peek();
        proof {
            lemma_ops(op@);
        }
        match op {
            TokenType::Plus | TokenType::Minus => {},
            _ => {
                return Ok(left);
            },
        }
        self.advance();
        let right = self.parse_factor()?;
        let span = left.span.join(right.span);
        let e = Expression::new(
            ExpressionKind::Binary { left: Box::new(left), operator: op, right: Box::new(right) },
            span,
        );
        self.parse_term_rest(e)
    }

    /// Parses a chain of `*` and `/`, grouping to the left.
    pub fn parse_factor(&mut self) -> (r: Result<Expression, Error>)
        requires
            old(self).current <= old(self).tokens.len(),
        ensures
            progress::<Expression>(*old(self), *final(self), r is Ok, true),
            agrees(p_factor(old(self).ts(), old(self).state()), expr_result(r), final(self).state()),
        decreases rem(old(self).ts(), old(self).current as int), 5int,
    {
        let left = self.parse_unary()?;
        self.parse_factor_rest(left)
    }

    fn parse_factor_rest(&mut self, left: Expression) -> (r: Result<Expression, Error>)
        requires
            old(self).current <= old(self).tokens.len(),
        ensures
            progress::<Expression>(*old(self), *final(self), r is Ok, false),
            agrees(
                p_factor_rest(old(self).ts(), old(self).state(), left@),
                expr_result(r),
                final(self).state(),
            ),
        decreases rem(old(self).ts(), old(self).current as int), 4int,
    {
        let op = self.peek();
        proof {
            lemma_ops(op@);
        }
        match op {
            TokenType::Star | TokenType::Slash => {},
            _ => {
                return Ok(left);
            },
        }
        self.advance();
        let right = self.parse_unary()?;
        let span = left.span.join(right.span);
        let e = Expression::new(
            ExpressionKind::Binary { left: Box::new(left), operator: op, right: Box::new(right) },
            span,
        );
        self.parse_factor_rest(e)
    }

    /// Parses prefix `!` and `-` applied to a primary expression.
    pub fn parse_unary(&mut self) -> (r: Result<Expression, Error>)
        requires
            old(self).current <= old(self).tokens.len(),
        ensures
            progress::<Expression>(*old(self), *final(self), r is Ok, true),
            agrees(p_unary(old(self).ts(), old(self).state()), expr_result(r), final(self).state()),
        decreases rem(old(self).ts(), old(self).current as int), 3int,
    {
        let start = self.peek_span();
        let op = self.peek();
        proof {
            lemma_ops(op@);
        }
        match op {
            TokenType::Bang | TokenType::Minus => {
                self.advance();
                let operand = self.parse_unary()?;
                let span = start.join(operand.span);
                Ok(Expression::new(ExpressionKind::Unary { operator: op, operand: Box::new(operand) }, span))
            },
            _ => self.parse_primary(),
        }
    }
}


impl Parser {
    /// Parses a primary expression: a name (maybe called, assigned, indexed or
    /// index-assigned), an array literal, a literal, or a parenthesised
    /// expression. Anything else, the end of the tokens included, stops the
    /// parse with the error "Expected expression", returned to the caller
    /// rather than ending the program.
    #[verifier::rlimit(100)]
    pub fn parse_primary(&mut self) -> (r: Result<Expression, Error>)
        requires
            old(self).current <= old(self).tokens.len(),
        ensures
            progress::<Expression>(*old(self), *final(self), r is Ok, true),
            agrees(p_primary(old(self).ts(), old(self).state()), expr_result(r), final(self).state()),
        decreases rem(old(self).ts(), old(self).current as int), 2int,
    {
        let start = self.peek_span();
        if self.current >= self.tokens.len() {
            return Err(Error::init(string_of("Expected expression"), None, Reason::Parse));
        }
        let t = self.peek();
        match t {
            TokenType::Identifier(name) => {
                self.advance();
                self.parse_name_tail(name, start)
            },
            TokenType::LeftBracket => {
                self.advance();
                let items = self.parse_array_items(Vec::new())?;
                self.match_type(&TokenType::RightBracket);
                let span = start.join(self.previous_span());
                Ok(Expression::new(ExpressionKind::ArrayLiteral(items), span))
            },
            TokenType::NumberLiteral(n) => {
                self.advance();
                Ok(Expression::new(ExpressionKind::Integer(n), start))
            },
            TokenType::StringLiteral(s) => {
                self.advance();
                Ok(Expression::new(ExpressionKind::String(s), start))
            },
            TokenType::CharacterLiteral(c) => {
                self.advance();
                Ok(Expression::new(ExpressionKind::Character(c), start))
            },
            TokenType::BoolLiteral(b) => {
                self.advance();
                Ok(Expression::new(ExpressionKind::Bool(b), start))
            },
            TokenType::LeftParen => {
                self.advance();
                let inner = self.parse_expression()?;
                self.match_type(&TokenType::RightParen);
                let span = start.join(self.previous_span());
                Ok(Expression::new(ExpressionKind::Grouping(Box::new(inner)), span))
            },
            _ => Err(Error::init(string_of("Expected expression"), None, Reason::Parse)),
        }
    }

    /// What follows a name: call arguments, an assignment, indices, or nothing.
    #[verifier::rlimit(100)]
    fn parse_name_tail(&mut self, name: String, start: Span) -> (r: Result<Expression, Error>)
        requires
            old(self).current <= old(self).tokens.len(),
        ensures
            progress::<Expression>(*old(self), *final(self), r is Ok, false),
            agrees(
                p_name_tail(old(self).ts(), old(self).state(), name@, start),
                expr_result(r),
                final(self).state(),
            ),
        decreases rem(old(self).ts(), old(self).current as int), 16int,
    {
        if self.check(&TokenType::LeftParen) {
            self.parse_call_tail(name, start)
        } else if self.check(&TokenType::Assign) {
            self.advance();
            let value = self.parse_expression()?;
            let span = start.join(value.span);
            Ok(Expression::new(ExpressionKind::Assign { name, value: Box::new(value) }, span))
        } else if self.check(&TokenType::LeftBracket) {
            self.parse_index_tail(name, start)
        } else {
            Ok(Expression::new(ExpressionKind::Identifier(name), start))
        }
    }

    /// A call after its name: `(`, the arguments, `)`.
    #[verifier::rlimit(100)]
    fn parse_call_tail(&mut self, name: String, start: Span) -> (r: Result<Expression, Error>)
        requires
            old(self).current < old(self).tokens.len(),
        ensures
            progress::<Expression>(*old(self), *final(self), r is Ok, false),
            agrees(
                p_call_tail(old(self).ts(), old(self).state(), name@, start),
                expr_result(r),
                final(self).state(),
            ),
        decreases rem(old(self).ts(), old(self).current as int), 15int,
    {
        self.advance();
        let args = if self.check(&TokenType::RightParen) {
            let v: Vec<Expression> = Vec::new();
            proof {
                assert(expr_models(v@) =~= Seq::<ExprView>::empty());
            }
            v
        } else {
            proof {
                assert(expr_models(Seq::<Expression>::empty()) =~= Seq::<ExprView>::empty());
            }
            self.parse_args(Vec::new())?
        };
        self.match_type(&TokenType::RightParen);
        let span = start.join(self.previous_span());
        Ok(Expression::new(ExpressionKind::Call { name, args }, span))
    }

    /// An indexing after its name: `[`, an index, `]`, then further indices
    /// and maybe `= value`.
    #[verifier::rlimit(100)]
    fn parse_index_tail(&mut self, name: String, start: Span) -> (r: Result<Expression, Error>)
        requires
            old(self).current < old(self).tokens.len(),
        ensures
            progress::<Expression>(*old(self), *final(self), r is Ok, false),
            agrees(
                p_index_tail(old(self).ts(), old(self).state(), name@, start),
                expr_result(r),
                final(self).state(),
            ),
        decreases rem(old(self).ts(), old(self).current as int), 15int,
    {
        self.advance();
        let index = self.parse_expression()?;
        self.match_type(&TokenType::RightBracket);
        let end = self.previous_span();
        let target = Expression::new(ExpressionKind::Identifier(name), start);
        self.parse_index_chain(target, index, start, end)
    }

    /// Parses call arguments separated by commas, after those in `acc`.
    fn parse_args(&mut self, acc: Vec<Expression>) -> (r: Result<Vec<Expression>, Error>)
        requires
            old(self).current <= old(self).tokens.len(),
        ensures
            progress::<Vec<Expression>>(*old(self), *final(self), r is Ok, true),
            agrees(
                p_args(old(self).ts(), old(self).state(), expr_models(acc@)),
                list_result(r),
                final(self).state(),
            ),
        decreases rem(old(self).ts(), old(self).current as int), 13int,
    {
        let arg = self.parse_expression()?;
        let mut acc = acc;
        proof {
            lemma_expr_models_push(acc@, arg);
        }
        acc.push(arg);
        if self.check(&TokenType::Comma) && self.current < self.tokens.len() {
            self.advance();
            self.parse_args(acc)
        } else {
            Ok(acc)
        }
    }

    /// Parses array items up to the closing bracket, after those in `acc`; a
    /// missing comma between items is recorded and parsing goes on.
    fn parse_array_items(&mut self, acc: Vec<Expression>) -> (r: Result<Vec<Expression>, Error>)
        requires
            old(self).current <= old(self).tokens.len(),
        ensures
            progress::<Vec<Expression>>(*old(self), *final(self), r is Ok, false),
            agrees(
                p_array_items(old(self).ts(), old(self).state(), expr_models(acc@)),
                list_result(r),
                final(self).state(),
            ),
        decreases rem(old(self).ts(), old(self).current as int), 13int,
    {
        if self.check(&TokenType::RightBracket) {
            return Ok(acc);
        }
        let item = self.parse_expression()?;
        let mut acc = acc;
        proof {
            lemma_expr_models_push(acc@, item);
        }
        acc.push(item);
        if self.check(&TokenType::RightBracket) {
            return Ok(acc);
        }
        if self.check(&TokenType::Comma) {
            self.advance();
        } else {
            self.report(string_of("expected ',' between array items"));
        }
        self.parse_array_items(acc)
    }

    /// After `target[index]` (whose closing bracket ends at `end`): further
    /// `[index]` suffixes, then maybe `= value`.
    fn parse_index_chain(&mut self, target: Expression, index: Expression, start: Span, end: Span) -> (r:
        Result<Expression, Error>)
        requires
            old(self).current <= old(self).tokens.len(),
        ensures
            progress::<Expression>(*old(self), *final(self), r is Ok, false),
            agrees(
                p_index_chain(old(self).ts(), old(self).state(), target@, index@, start, end),
                expr_result(r),
                final(self).state(),
            ),
        decreases rem(old(self).ts(), old(self).current as int), 13int,
    {
        if self.check(&TokenType::LeftBracket) && self.current < self.tokens.len() {
            self.advance();
            let next = self.parse_expression()?;
            self.match_type(&TokenType::RightBracket);
            let next_end = self.previous_span();
            let outer = Expression::new(
                ExpressionKind::Index { target: Box::new(target), index: Box::new(index) },
                start.join(end),
            );
            self.parse_index_chain(outer, next, start, next_end)
        } else if self.check(&TokenType::Assign) && self.current < self.tokens.len() {
            self.advance();
            let value = self.parse_expression()?;
            let span = start.join(value.span);
            Ok(
                Expression::new(
                    ExpressionKind::IndexAssign {
                        target: Box::new(target),
                        index: Box::new(index),
                        value: Box::new(value),
                    },
                    span,
                ),
            )
        } else {
            Ok(
                Expression::new(
                    ExpressionKind::Index { target: Box::new(target), index: Box::new(index) },
                    start.join(end),
                ),
            )
        }
    }
}

} // verus!
