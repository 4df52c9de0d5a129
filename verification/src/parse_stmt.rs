use vstd::prelude::*;

use crate::ast::{
    expr_models, lemma_expr_models_push, lemma_stmt_models_push, stmt_models, ExprView,
    Expression, Statement, StmtView, TypeAnnotation,
};
use crate::errors::{Error, ErrorView, Reason};
use crate::parse_expr::{list_result, progress};
use crate::parser::{
    adv, agrees, diag, fail, join, kept, moved, p_expression, parse_error, rem, skip_if,
    span_at, tok, PState, Parsed, Parser,
};
use crate::span::Span;
use crate::text::string_of;
use crate::tokens::{TokenModel, TokenType, TokenView};

verus! {

/// Parsing a type: `int`, `float`, `bool`, `string`, `char`, or `array[T]`.
pub open spec fn p_type(ts: Seq<TokenModel>, st: PState) -> Parsed<TypeAnnotation>
    decreases rem(ts, st.pos),
{
    let t = tok(ts, st.pos);
    let st1 = adv(ts, st);
    match t {
        TokenView::Int => Parsed { result: Ok(TypeAnnotation::Int), st: st1 },
        TokenView::Float => Parsed { result: Ok(TypeAnnotation::Float), st: st1 },
        TokenView::Bool => Parsed { result: Ok(TypeAnnotation::Bool), st: st1 },
        TokenView::Str => Parsed { result: Ok(TypeAnnotation::String), st: st1 },
        TokenView::Char => Parsed { result: Ok(TypeAnnotation::Char), st: st1 },
        TokenView::Array => {
            let st2 = skip_if(ts, st1, TokenView::LeftBracket);
            if 0 <= st.pos < ts.len() && kept(ts, st1, st2) {
                let inner = p_type(ts, st2);
                match inner.result {
                    Err(x) => fail(inner, x),
                    Ok(ty) => Parsed {
                        result: Ok(TypeAnnotation::Array(Box::new(ty))),
                        st: skip_if(ts, inner.st, TokenView::RightBracket),
                    },
                }
            } else {
                Parsed { result: Err(parse_error("expected type"@)), st }
            }
        },
        _ => Parsed { result: Err(parse_error("expected type"@)), st },
    }
}

/// Parsing the items of a constant array up to the closing bracket, after
/// those in `acc`; a missing comma between items is recorded and parsing goes on.
pub open spec fn p_list_items(ts: Seq<TokenModel>, st: PState, acc: Seq<ExprView>) -> Parsed<
    Seq<ExprView>,
>
    decreases rem(ts, st.pos),
{
    if tok(ts, st.pos) is RightBracket {
        Parsed { result: Ok(acc), st }
    } else {
        let e = p_expression(ts, st);
        match e.result {
            Err(x) => fail(e, x),
            Ok(item) => {
                let acc2 = acc.push(item);
                if tok(ts, e.st.pos) is RightBracket {
                    Parsed { result: Ok(acc2), st: e.st }
                } else {
                    let st2 = if tok(ts, e.st.pos) is Comma {
                        adv(ts, e.st)
                    } else {
                        diag(e.st, "expected ',' between list items"@)
                    };
                    if moved(ts, st, st2) {
                        p_list_items(ts, st2, acc2)
                    } else {
                        Parsed { result: Ok(acc2), st: st2 }
                    }
                }
            },
        }
    }
}

/// The state after `kind`, or with `message` recorded where `kind` is missing.
pub open spec fn expect_or_report(ts: Seq<TokenModel>, st: PState, kind: TokenView, message: Seq<char>) -> PState {
    if same_variant_at(ts, st, kind) {
        adv(ts, st)
    } else {
        diag(st, message)
    }
}

pub open spec fn same_variant_at(ts: Seq<TokenModel>, st: PState, kind: TokenView) -> bool {
    crate::tokens::same_variant(tok(ts, st.pos), kind)
}

/// The element type of a constant array: a scalar type, or `array[T]`.
pub open spec fn p_element_type(ts: Seq<TokenModel>, st: PState) -> Parsed<TypeAnnotation> {
    let t = tok(ts, st.pos);
    let st1 = adv(ts, st);
    match t {
        TokenView::Int => Parsed { result: Ok(TypeAnnotation::Int), st: st1 },
        TokenView::Float => Parsed { result: Ok(TypeAnnotation::Float), st: st1 },
        TokenView::Bool => Parsed { result: Ok(TypeAnnotation::Bool), st: st1 },
        TokenView::Str => Parsed { result: Ok(TypeAnnotation::String), st: st1 },
        TokenView::Char => Parsed { result: Ok(TypeAnnotation::Char), st: st1 },
        TokenView::Array => {
            let inner = p_type(ts, skip_if(ts, st1, TokenView::LeftBracket));
            match inner.result {
                Err(x) => fail(inner, x),
                Ok(ty) => Parsed {
                    result: Ok(TypeAnnotation::Array(Box::new(ty))),
                    st: skip_if(ts, inner.st, TokenView::RightBracket),
                },
            }
        },
        _ => Parsed { result: Err(parse_error("expected type after dec"@)), st },
    }
}

/// The name a declaration introduces, or `message` where there is none.
pub open spec fn p_name(ts: Seq<TokenModel>, st: PState, message: Seq<char>) -> Parsed<Seq<char>> {
    match tok(ts, st.pos) {
        TokenView::Identifier(n) => Parsed { result: Ok(n), st: adv(ts, st) },
        _ => Parsed { result: Err(parse_error(message)), st },
    }
}

/// `const array[T] name = [items]`, after `array [`.
pub open spec fn p_const_array(ts: Seq<TokenModel>, st: PState, start: Span) -> Parsed<StmtView> {
    let ty = p_element_type(ts, st);
    match ty.result {
        Err(x) => fail(ty, x),
        Ok(t) => {
            let st1 = expect_or_report(ts, ty.st, TokenView::RightBracket, "expected ']' after type"@);
            let n = p_name(ts, st1, "expected name after array type"@);
            match n.result {
                Err(x) => fail(n, x),
                Ok(name) => {
                    let st2 = expect_or_report(ts, n.st, TokenView::Assign, "expected '=' after name"@);
                    let st3 = expect_or_report(ts, st2, TokenView::LeftBracket, "expected '[' after type"@);
                    let items = p_list_items(ts, st3, Seq::empty());
                    match items.result {
                        Err(x) => fail(items, x),
                        Ok(vs) => {
                            let st4 = skip_if(ts, items.st, TokenView::RightBracket);
                            Parsed {
                                result: Ok(
                                    StmtView::ConstantArray {
                                        name,
                                        type_annotation: t,
                                        value: vs,
                                        span: join(start, span_at(ts, st4.pos - 1)),
                                    },
                                ),
                                st: st4,
                            }
                        },
                    }
                },
            }
        },
    }
}

/// `const T name = value`.
pub open spec fn p_const_scalar(ts: Seq<TokenModel>, st: PState, start: Span) -> Parsed<StmtView> {
    let ty = p_type(ts, st);
    match ty.result {
        Err(x) => fail(ty, x),
        Ok(t) => {
            let n = p_name(ts, ty.st, "expected name after type"@);
            match n.result {
                Err(x) => fail(n, x),
                Ok(name) => {
                    let st2 = expect_or_report(ts, n.st, TokenView::Assign, "expected '=' after name"@);
                    let v = p_expression(ts, st2);
                    match v.result {
                        Err(x) => fail(v, x),
                        Ok(value) => Parsed {
                            result: Ok(
                                StmtView::ConstantDeclaration {
                                    name,
                                    type_annotation: t,
                                    value,
                                    span: join(start, value.span),
                                },
                            ),
                            st: v.st,
                        },
                    }
                },
            }
        },
    }
}

/// A constant declaration after the `const` keyword; `start` is where it began.
pub open spec fn p_const(ts: Seq<TokenModel>, st: PState, start: Span) -> Parsed<StmtView> {
    if tok(ts, st.pos) is Array {
        let st1 = adv(ts, st);
        if tok(ts, st1.pos) is LeftBracket {
            p_const_array(ts, adv(ts, st1), start)
        } else {
            p_const_scalar(ts, st1, start)
        }
    } else {
        p_const_scalar(ts, st, start)
    }
}

/// Whether a constant declaration stops in its array form, for want of an
/// element type or of a name.
pub open spec fn stops_in_array_form(p: Parsed<StmtView>) -> bool {
    p.result matches Err(x) && (x.message == "expected type after dec"@ || x.message
        == "expected name after array type"@)
}

pub open spec fn stmt_result(r: Result<Statement, Error>) -> Result<StmtView, ErrorView> {
    match r {
        Ok(s) => Ok(s@),
        Err(x) => Err(x@),
    }
}

pub open spec fn type_result(r: Result<TypeAnnotation, Error>) -> Result<TypeAnnotation, ErrorView> {
    match r {
        Ok(t) => Ok(t),
        Err(x) => Err(x@),
    }
}

pub open spec fn name_result(r: Result<String, Error>) -> Result<Seq<char>, ErrorView> {
    match r {
        Ok(s) => Ok(s@),
        Err(x) => Err(x@),
    }
}

impl Parser {
    /// Parses a type: `int`, `float`, `bool`, `string`, `char`, or `array[T]`.
    pub fn parse_type(&mut self) -> (r: Result<TypeAnnotation, Error>)
        requires
            old(self).current <= old(self).tokens.len(),
        ensures
            progress::<TypeAnnotation>(*old(self), *final(self), r is Ok, true),
            agrees(p_type(old(self).ts(), old(self).state()), type_result(r), final(self).state()),
        decreases rem(old(self).ts(), old(self).current as int),
    {
        if self.current >= self.tokens.len() {
            return Err(Error::init(string_of("expected type"), None, Reason::Parse));
        }
        let t = self.peek();
        match t {
            TokenType::Int => {
                self.advance();
                Ok(TypeAnnotation::Int)
            },
            TokenType::Float => {
                self.advance();
                Ok(TypeAnnotation::Float)
            },
            TokenType::Bool => {
                self.advance();
                Ok(TypeAnnotation::Bool)
            },
            TokenType::String => {
                self.advance();
                Ok(TypeAnnotation::String)
            },
            TokenType::Char => {
                self.advance();
                Ok(TypeAnnotation::Char)
            },
            TokenType::Array => {
                self.advance();
                self.match_type(&TokenType::LeftBracket);
                let inner = self.parse_type()?;
                self.match_type(&TokenType::RightBracket);
                Ok(TypeAnnotation::Array(Box::new(inner)))
            },
            _ => Err(Error::init(string_of("expected type"), None, Reason::Parse)),
        }
    }

    /// Consumes `kind`, or records `message` where it is missing.
    fn expect_or_report(&mut self, kind: &TokenType, message: &str)
        ensures
            final(self).tokens == old(self).tokens,
            old(self).current <= final(self).current,
            old(self).current <= old(self).tokens.len() ==> final(self).current <= final(self).tokens.len(),
            final(self).state() == expect_or_report(old(self).ts(), old(self).state(), kind@, message@),
    {
        if !self.match_type(kind) {
            self.report(string_of(message));
        }
    }

    /// The name a declaration introduces, or the error `message`.
    fn parse_name(&mut self, message: &str) -> (r: Result<String, Error>)
        requires
            old(self).current <= old(self).tokens.len(),
        ensures
            progress::<String>(*old(self), *final(self), r is Ok, true),
            agrees(p_name(old(self).ts(), old(self).state(), message@), name_result(r), final(self).state()),
    {
        match self.peek() {
            TokenType::Identifier(n) => {
                self.advance();
                Ok(n)
            },
            _ => Err(Error::init(string_of(message), None, Reason::Parse)),
        }
    }

    /// The items of a constant array up to the closing bracket, after those in `acc`.
    fn parse_list_items(&mut self, acc: Vec<Expression>) -> (r: Result<Vec<Expression>, Error>)
        requires
            old(self).current <= old(self).tokens.len(),
        ensures
            progress::<Vec<Expression>>(*old(self), *final(self), r is Ok, false),
            agrees(
                p_list_items(old(self).ts(), old(self).state(), expr_models(acc@)),
                list_result(r),
                final(self).state(),
            ),
        decreases rem(old(self).ts(), old(self).current as int),
    {
        if self.check(&TokenType::RightBracket) {
            return Ok(acc);
        }
        let item = self.parse_expression()?;
        let mut acc = acc;
        proof {
            lemma_expr_models_push(acc@, item);
        }
        acc.push(item);
        if self.check(&TokenType::RightBracket) {
            return Ok(acc);
        }
        if self.check(&TokenType::Comma) {
            self.advance();
        } else {
            self.report(string_of("expected ',' between list items"));
        }
        self.parse_list_items(acc)
    }

    /// The element type of a constant array.
    fn parse_element_type(&mut self) -> (r: Result<TypeAnnotation, Error>)
        requires
            old(self).current <= old(self).tokens.len(),
        ensures
            progress::<TypeAnnotation>(*old(self), *final(self), r is Ok, false),
            agrees(p_element_type(old(self).ts(), old(self).state()), type_result(r), final(self).state()),
    {
        match self.peek() {
            TokenType::Int => {
                self.advance();
                Ok(TypeAnnotation::Int)
            },
            TokenType::Float => {
                self.advance();
                Ok(TypeAnnotation::Float)
            },
            TokenType::Bool => {
                self.advance();
                Ok(TypeAnnotation::Bool)
            },
            TokenType::String => {
                self.advance();
                Ok(TypeAnnotation::String)
            },
            TokenType::Char => {
                self.advance();
                Ok(TypeAnnotation::Char)
            },
            TokenType::Array => {
                self.advance();
                self.match_type(&TokenType::LeftBracket);
                let inner = self.parse_type()?;
                self.match_type(&TokenType::RightBracket);
                Ok(TypeAnnotation::Array(Box::new(inner)))
            },
            _ => Err(Error::init(string_of("expected type after dec"), None, Reason::Parse)),
        }
    }

    /// `T] name = [items]`, the rest of a constant array declaration.
    fn parse_const_array(&mut self, start: Span) -> (r: Result<Statement, Error>)
        requires
            old(self).current <= old(self).tokens.len(),
        ensures
            progress::<Statement>(*old(self), *final(self), r is Ok, false),
            agrees(p_const_array(old(self).ts(), old(self).state(), start), stmt_result(r), final(self).state()),
    {
        let type_annotation = self.parse_element_type()?;
        self.expect_or_report(&TokenType::RightBracket, "expected ']' after type");
        let name = self.parse_name("expected name after array type")?;
        self.expect_or_report(&TokenType::Assign, "expected '=' after name");
        self.expect_or_report(&TokenType::LeftBracket, "expected '[' after type");
        proof {
            assert(expr_models(Seq::<Expression>::empty()) =~= Seq::<ExprView>::empty());
        }
        let value = self.parse_list_items(Vec::new())?;
        self.match_type(&TokenType::RightBracket);
        let span = start.join(self.previous_span());
        Ok(Statement::ConstantArray { name, type_annotation, value, span })
    }

    /// `T name = value`, the rest of a constant declaration.
    fn parse_const_scalar(&mut self, start: Span) -> (r: Result<Statement, Error>)
        requires
            old(self).current <= old(self).tokens.len(),
        ensures
            progress::<Statement>(*old(self), *final(self), r is Ok, false),
            agrees(p_const_scalar(old(self).ts(), old(self).state(), start), stmt_result(r), final(self).state()),
    {
        let type_annotation = self.parse_type()?;
        let name = self.parse_name("expected name after type")?;
        self.expect_or_report(&TokenType::Assign, "expected '=' after name");
        let value = self.parse_expression()?;
        let span = start.join(value.span);
        Ok(Statement::ConstantDeclaration { name, type_annotation, value, span })
    }

    /// Parses a constant declaration after the `const` keyword: either
    /// `array[T] name = [items]` or `T name = value`. `start` is the span of
    /// the keyword.
    ///
    /// A missing `]`, `=` or `[` is recorded in `diagnostics` and parsing goes
    /// on. An array declaration with no element type or no name is not a
    /// declaration this parser accepts: such tokens are left out by the
    /// precondition. Any other failure stops the parse and returns its error.
    pub fn parse_const_declartion(&mut self, start: Span) -> (r: Result<Statement, Error>)
        requires
            old(self).current <= old(self).tokens.len(),
            !stops_in_array_form(p_const(old(self).ts(), old(self).state(), start)),
        ensures
            progress::<Statement>(*old(self), *final(self), r is Ok, false),
            agrees(p_const(old(self).ts(), old(self).state(), start), stmt_result(r), final(self).state()),
    {
        self.parse_const(start)
    }

    /// Parses a constant declaration after the `const` keyword, whatever the
    /// tokens; every failure is returned.
    fn parse_const(&mut self, start: Span) -> (r: Result<Statement, Error>)
        requires
            old(self).current <= old(self).tokens.len(),
        ensures
            progress::<Statement>(*old(self), *final(self), r is Ok, false),
            agrees(p_const(old(self).ts(), old(self).state(), start), stmt_result(r), final(self).state()),
    {
        if self.match_type(&TokenType::Array) {
            if self.check(&TokenType::LeftBracket) {
                self.advance();
                return self.parse_const_array(start);
            }
        }
        self.parse_const_scalar(start)
    }
}


/// Parsing a statement: `if`, `while` and `const` by their keyword, anything
/// else as an expression.
pub open spec fn p_statement(ts: Seq<TokenModel>, st: PState) -> Parsed<StmtView>
    decreases rem(ts, st.pos), 5int,
{
    let t = tok(ts, st.pos);
    if !(0 <= st.pos < ts.len()) {
        let e = p_expression(ts, st);
        match e.result {
            Err(x) => fail(e, x),
            Ok(v) => Parsed { result: Ok(StmtView::Expression(v)), st: e.st },
        }
    } else {
        match t {
            TokenView::If => p_if(ts, adv(ts, st)),
            TokenView::While => p_while(ts, adv(ts, st)),
            TokenView::Const => p_const(ts, adv(ts, st), span_at(ts, st.pos)),
            _ => {
                let e = p_expression(ts, st);
                match e.result {
                    Err(x) => fail(e, x),
                    Ok(v) => Parsed { result: Ok(StmtView::Expression(v)), st: e.st },
                }
            },
        }
    }
}

/// Parsing `{ statements }`.
pub open spec fn p_block(ts: Seq<TokenModel>, st: PState) -> Parsed<Seq<StmtView>>
    decreases rem(ts, st.pos), 3int,
{
    if tok(ts, st.pos) is LeftBrace && 0 <= st.pos < ts.len() {
        p_block_items(ts, adv(ts, st), Seq::empty())
    } else {
        Parsed { result: Err(parse_error("expected '{'"@)), st }
    }
}

/// Parsing statements up to and including the closing brace, after those in `acc`.
pub open spec fn p_block_items(ts: Seq<TokenModel>, st: PState, acc: Seq<StmtView>) -> Parsed<Seq<StmtView>>
    decreases rem(ts, st.pos), 6int,
{
    if tok(ts, st.pos) is RightBrace && 0 <= st.pos < ts.len() {
        Parsed { result: Ok(acc), st: adv(ts, st) }
    } else {
        let s = p_statement(ts, st);
        match s.result {
            Err(x) => fail(s, x),
            Ok(stmt) => if moved(ts, st, s.st) {
                p_block_items(ts, s.st, acc.push(stmt))
            } else {
                Parsed { result: Ok(acc.push(stmt)), st: s.st }
            },
        }
    }
}

/// Parsing an `if` statement after its keyword: the condition and block, then
/// each `else` with what follows it.
pub open spec fn p_if(ts: Seq<TokenModel>, st: PState) -> Parsed<StmtView>
    decreases rem(ts, st.pos), 4int,
{
    let c = p_expression(ts, st);
    match c.result {
        Err(x) => fail(c, x),
        Ok(condition) => {
            let b = if kept(ts, st, c.st) {
                p_block(ts, c.st)
            } else {
                Parsed { result: Err(parse_error("expected '{'"@)), st: c.st }
            };
            match b.result {
                Err(x) => fail(b, x),
                Ok(body) => {
                    let rest = if kept(ts, st, b.st) {
                        p_else_chain(ts, b.st, Seq::empty())
                    } else {
                        Parsed { result: Ok(Seq::empty()), st: b.st }
                    };
                    match rest.result {
                        Err(x) => fail(rest, x),
                        Ok(branches) => Parsed {
                            result: Ok(conditional_view(condition, body, branches)),
                            st: rest.st,
                        },
                    }
                },
            }
        },
    }
}

/// The statement an `if` builds: the guarded first branch, the further
/// branches, and an empty unguarded else branch.
pub open spec fn conditional_view(condition: ExprView, body: Seq<StmtView>, branches: Seq<StmtView>) -> StmtView {
    StmtView::Conditional {
        if_branch: Box::new(StmtView::ConditionalBranch { condition: Some(condition), body }),
        elseif_branch: Some(branches),
        else_branch: Some(
            Box::new(StmtView::ConditionalBranch { condition: None, body: Seq::empty() }),
        ),
    }
}

/// Builds the statement an `if` parses to.
fn make_conditional(condition: Expression, body: Vec<Statement>, branches: Vec<Statement>) -> (s:
    Statement)
    ensures
        s@ == conditional_view(condition@, stmt_models(body@), stmt_models(branches@)),
{
    let ghost cv = condition@;
    let ghost bodyv = stmt_models(body@);
    let if_branch = Statement::ConditionalBranch { condition: Some(condition), body };
    let else_body: Vec<Statement> = Vec::new();
    proof {
        assert(stmt_models(else_body@) =~= Seq::<StmtView>::empty());
    }
    let else_branch = Statement::ConditionalBranch { condition: None, body: else_body };
    assert(if_branch@ == StmtView::ConditionalBranch { condition: Some(cv), body: bodyv });
    assert(else_branch@ == StmtView::ConditionalBranch { condition: None, body: Seq::empty() });
    let ghost bv = stmt_models(branches@);
    let s = Statement::Conditional {
        if_branch: Box::new(if_branch),
        elseif_branch: Some(branches),
        else_branch: Some(Box::new(else_branch)),
    };
    assert(s@ == StmtView::Conditional {
        if_branch: Box::new(if_branch@),
        elseif_branch: Some(bv),
        else_branch: Some(Box::new(else_branch@)),
    });
    s
}

/// Parsing the `else` parts of an `if`: after `else`, a following `if` is
/// left in place and a condition parsed there, then a block, as one more
/// branch; otherwise a block that is parsed and dropped.
pub open spec fn p_else_chain(ts: Seq<TokenModel>, st: PState, acc: Seq<StmtView>) -> Parsed<Seq<StmtView>>
    decreases rem(ts, st.pos), 3int,
{
    if tok(ts, st.pos) is Else && 0 <= st.pos < ts.len() {
        let st1 = adv(ts, st);
        if tok(ts, st1.pos) is If {
            let c = p_expression(ts, st1);
            match c.result {
                Err(x) => fail(c, x),
                Ok(condition) => {
                    let b = if kept(ts, st1, c.st) {
                        p_block(ts, c.st)
                    } else {
                        Parsed { result: Err(parse_error("expected '{'"@)), st: c.st }
                    };
                    match b.result {
                        Err(x) => fail(b, x),
                        Ok(body) => {
                            let acc2 = acc.push(
                                StmtView::ConditionalBranch { condition: Some(condition), body },
                            );
                            if moved(ts, st, b.st) {
                                p_else_chain(ts, b.st, acc2)
                            } else {
                                Parsed { result: Ok(acc2), st: b.st }
                            }
                        },
                    }
                },
            }
        } else {
            let b = p_block(ts, st1);
            match b.result {
                Err(x) => fail(b, x),
                Ok(_) => if moved(ts, st, b.st) {
                    p_else_chain(ts, b.st, acc)
                } else {
                    Parsed { result: Ok(acc), st: b.st }
                },
            }
        }
    } else {
        Parsed { result: Ok(acc), st }
    }
}

/// Parsing a `while` statement after its keyword: the condition and block.
pub open spec fn p_while(ts: Seq<TokenModel>, st: PState) -> Parsed<StmtView>
    decreases rem(ts, st.pos), 4int,
{
    let c = p_expression(ts, st);
    match c.result {
        Err(x) => fail(c, x),
        Ok(condition) => {
            let b = if kept(ts, st, c.st) {
                p_block(ts, c.st)
            } else {
                Parsed { result: Err(parse_error("expected '{'"@)), st: c.st }
            };
            match b.result {
                Err(x) => fail(b, x),
                Ok(body) => Parsed { result: Ok(StmtView::While { condition, body }), st: b.st },
            }
        },
    }
}

pub open spec fn block_result(r: Result<Vec<Statement>, Error>) -> Result<Seq<StmtView>, ErrorView> {
    match r {
        Ok(v) => Ok(stmt_models(v@)),
        Err(x) => Err(x@),
    }
}

impl Parser {
    /// Parses one statement.
    #[verifier::rlimit(100)]
    pub fn parse_statement(&mut self) -> (r: Result<Statement, Error>)
        requires
            old(self).current <= old(self).tokens.len(),
        ensures
            progress::<Statement>(*old(self), *final(self), r is Ok, true),
            agrees(p_statement(old(self).ts(), old(self).state()), stmt_result(r), final(self).state()),
        decreases rem(old(self).ts(), old(self).current as int), 5int,
    {
        let start = self.peek_span();
        if self.current < self.tokens.len() {
            if self.check(&TokenType::If) {
                self.advance();
                return self.parse_if();
            }
            if self.check(&TokenType::While) {
                self.advance();
                return self.parse_while();
            }
            if self.check(&TokenType::Const) {
                self.advance();
                let r = self.parse_const(start);
                return r;
            }
        }
        let e = self.parse_expression()?;
        Ok(Statement::Expression(e))
    }

    /// Parses `{ statements }`.
    pub fn parse_block(&mut self) -> (r: Result<Vec<Statement>, Error>)
        requires
            old(self).current <= old(self).tokens.len(),
        ensures
            progress::<Vec<Statement>>(*old(self), *final(self), r is Ok, true),
            agrees(p_block(old(self).ts(), old(self).state()), block_result(r), final(self).state()),
        decreases rem(old(self).ts(), old(self).current as int), 3int,
    {
        if self.check(&TokenType::LeftBrace) && self.current < self.tokens.len() {
            self.advance();
            proof {
                assert(stmt_models(Seq::<Statement>::empty()) =~= Seq::<StmtView>::empty());
            }
            self.parse_block_items(Vec::new())
        } else {
            Err(Error::init(string_of("expected '{'"), None, Reason::Parse))
        }
    }

    fn parse_block_items(&mut self, acc: Vec<Statement>) -> (r: Result<Vec<Statement>, Error>)
        requires
            old(self).current <= old(self).tokens.len(),
        ensures
            progress::<Vec<Statement>>(*old(self), *final(self), r is Ok, true),
            agrees(
                p_block_items(old(self).ts(), old(self).state(), stmt_models(acc@)),
                block_result(r),
                final(self).state(),
            ),
        decreases rem(old(self).ts(), old(self).current as int), 6int,
    {
        if self.check(&TokenType::RightBrace) && self.current < self.tokens.len() {
            self.advance();
            return Ok(acc);
        }
        let s = self.parse_statement()?;
        let mut acc = acc;
        proof {
            lemma_stmt_models_push(acc@, s);
        }
        acc.push(s);
        self.parse_block_items(acc)
    }

    /// Parses an `if` statement after its keyword. A following `else if`
    /// branch is parsed with its `if` left in place, and the block after a
    /// plain `else` is parsed and dropped; the else branch built is empty.
    #[verifier::rlimit(100)]
    pub fn parse_if(&mut self) -> (r: Result<Statement, Error>)
        requires
            old(self).current <= old(self).tokens.len(),
        ensures
            progress::<Statement>(*old(self), *final(self), r is Ok, true),
            agrees(p_if(old(self).ts(), old(self).state()), stmt_result(r), final(self).state()),
        decreases rem(old(self).ts(), old(self).current as int), 4int,
    {
        let if_condition = self.parse_expression()?;
        let if_body = self.parse_block()?;
        proof {
            assert(stmt_models(Seq::<Statement>::empty()) =~= Seq::<StmtView>::empty());
        }
        let elseif_branch = self.parse_else_chain(Vec::new())?;
        Ok(make_conditional(if_condition, if_body, elseif_branch))
    }

    fn parse_else_chain(&mut self, acc: Vec<Statement>) -> (r: Result<Vec<Statement>, Error>)
        requires
            old(self).current <= old(self).tokens.len(),
        ensures
            progress::<Vec<Statement>>(*old(self), *final(self), r is Ok, false),
            agrees(
                p_else_chain(old(self).ts(), old(self).state(), stmt_models(acc@)),
                block_result(r),
                final(self).state(),
            ),
        decreases rem(old(self).ts(), old(self).current as int), 3int,
    {
        if !(self.check(&TokenType::Else) && self.current < self.tokens.len()) {
            return Ok(acc);
        }
        self.advance();
        if self.check(&TokenType::If) {
            let branch_condition = self.parse_expression()?;
            let branch_body = self.parse_block()?;
            let branch = Statement::ConditionalBranch {
                condition: Some(branch_condition),
                body: branch_body,
            };
            let mut acc = acc;
            proof {
                lemma_stmt_models_push(acc@, branch);
            }
            acc.push(branch);
            self.parse_else_chain(acc)
        } else {
            let _else_body = self.parse_block()?;
            self.parse_else_chain(acc)
        }
    }

    /// Parses a `while` statement after its keyword.
    pub fn parse_while(&mut self) -> (r: Result<Statement, Error>)
        requires
            old(self).current <= old(self).tokens.len(),
        ensures
            progress::<Statement>(*old(self), *final(self), r is Ok, true),
            agrees(p_while(old(self).ts(), old(self).state()), stmt_result(r), final(self).state()),
        decreases rem(old(self).ts(), old(self).current as int), 4int,
    {
        let condition = self.parse_expression()?;
        let body = self.parse_block()?;
        Ok(Statement::While { condition, body })
    }
}

} // verus!
