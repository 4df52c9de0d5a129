use vstd::prelude::*;

use crate::span::Span;
use crate::tokens::{TokenType, TokenView};

verus! {

/// An expression node with the span of source it was parsed from.
#[derive(Debug)]
pub struct Expression {
    pub kind: ExpressionKind,
    pub span: Span,
}

/// The shapes an expression can take.
#[derive(Debug)]
pub enum ExpressionKind {
    Integer(i64),
    String(String),
    Bool(bool),
    Character(char),
    Index { target: Box<Expression>, index: Box<Expression> },
    ArrayLiteral(Vec<Expression>),
    IndexAssign { target: Box<Expression>, index: Box<Expression>, value: Box<Expression> },
    Grouping(Box<Expression>),
    Binary { left: Box<Expression>, operator: TokenType, right: Box<Expression> },
    Unary { operator: TokenType, operand: Box<Expression> },
    Identifier(String),
    Assign { name: String, value: Box<Expression> },
    Call { name: String, args: Vec<Expression> },
}

/// The model of an expression.
pub struct ExprView {
    pub kind: ExprKindView,
    pub span: Span,
}

/// The model of an expression's shape: names and strings as character sequences.
pub enum ExprKindView {
    Integer(i64),
    Str(Seq<char>),
    Bool(bool),
    Character(char),
    Index { target: Box<ExprView>, index: Box<ExprView> },
    ArrayLiteral(Seq<ExprView>),
    IndexAssign { target: Box<ExprView>, index: Box<ExprView>, value: Box<ExprView> },
    Grouping(Box<ExprView>),
    Binary { left: Box<ExprView>, operator: TokenView, right: Box<ExprView> },
    Unary { operator: TokenView, operand: Box<ExprView> },
    Identifier(Seq<char>),
    Assign { name: Seq<char>, value: Box<ExprView> },
    Call { name: Seq<char>, args: Seq<ExprView> },
}

impl Expression {
    pub open spec fn model(self) -> ExprView
        decreases self, 2int,
    {
        ExprView { kind: self.kind.model(), span: self.span }
    }

    pub fn new(kind: ExpressionKind, span: Span) -> (e: Expression)
        ensures
            e.kind == kind,
            e.span == span,
    {
        Expression { kind, span }
    }
}

impl ExpressionKind {
    pub open spec fn model(self) -> ExprKindView
        decreases self, 1int,
    {
        match self {
            ExpressionKind::Integer(i) => ExprKindView::Integer(i),
            ExpressionKind::String(s) => ExprKindView::Str(s@),
            ExpressionKind::Bool(b) => ExprKindView::Bool(b),
            ExpressionKind::Character(c) => ExprKindView::Character(c),
            ExpressionKind::Index { target, index } => ExprKindView::Index {
                target: Box::new(target.model()),
                index: Box::new(index.model()),
            },
            ExpressionKind::ArrayLiteral(items) => ExprKindView::ArrayLiteral(expr_models(items@)),
            ExpressionKind::IndexAssign { target, index, value } => ExprKindView::IndexAssign {
                target: Box::new(target.model()),
                index: Box::new(index.model()),
                value: Box::new(value.model()),
            },
            ExpressionKind::Grouping(inner) => ExprKindView::Grouping(Box::new(inner.model())),
            ExpressionKind::Binary { left, operator, right } => ExprKindView::Binary {
                left: Box::new(left.model()),
                operator: operator@,
                right: Box::new(right.model()),
            },
            ExpressionKind::Unary { operator, operand } => ExprKindView::Unary {
                operator: operator@,
                operand: Box::new(operand.model()),
            },
            ExpressionKind::Identifier(name) => ExprKindView::Identifier(name@),
            ExpressionKind::Assign { name, value } => ExprKindView::Assign {
                name: name@,
                value: Box::new(value.model()),
            },
            ExpressionKind::Call { name, args } => ExprKindView::Call {
                name: name@,
                args: expr_models(args@),
            },
        }
    }
}

/// The models of a sequence of expressions, in order.
pub open spec fn expr_models(s: Seq<Expression>) -> Seq<ExprView>
    decreases s, 0int,
{
    if s.len() == 0 {
        Seq::empty()
    } else {
        expr_models(s.subrange(0, s.len() - 1)).push(s[s.len() - 1].model())
    }
}

pub proof fn lemma_expr_models_index(s: Seq<Expression>)
    ensures
        expr_models(s).len() == s.len(),
        forall|i: int| 0 <= i < s.len() ==> #[trigger] expr_models(s)[i] == s[i].model(),
    decreases s.len(),
{
    if s.len() > 0 {
        let p = s.subrange(0, s.len() - 1);
        lemma_expr_models_index(p);
        assert forall|i: int| 0 <= i < s.len() implies #[trigger] expr_models(s)[i]
            == s[i].model() by {
            if i < s.len() - 1 {
                assert(p[i] == s[i]);
            }
        }
    }
}

impl View for Expression {
    type V = ExprView;

    open spec fn view(&self) -> ExprView {
        self.model()
    }
}

/// A declared type.
#[derive(Debug)]
pub enum TypeAnnotation {
    Int,
    Float,
    Bool,
    String,
    Char,
    Array(Box<TypeAnnotation>),
}

/// A statement of the language.
#[derive(Debug)]
pub enum Statement {
    VariableDeclaration { name: String, type_annotation: TokenType, value: Expression },
    Expression(Expression),
    While { condition: Expression, body: Vec<Statement> },
    ConditionalBranch { condition: Option<Expression>, body: Vec<Statement> },
    Conditional {
        if_branch: Box<Statement>,
        elseif_branch: Option<Vec<Statement>>,
        else_branch: Option<Box<Statement>>,
    },
    ConstantDeclaration {
        name: String,
        type_annotation: TypeAnnotation,
        value: Expression,
        span: Span,
    },
    ConstantArray { name: String, type_annotation: TypeAnnotation, value: Vec<Expression>, span: Span },
}

/// The model of a statement.
pub enum StmtView {
    VariableDeclaration { name: Seq<char>, type_annotation: TokenView, value: ExprView },
    Expression(ExprView),
    While { condition: ExprView, body: Seq<StmtView> },
    ConditionalBranch { condition: Option<ExprView>, body: Seq<StmtView> },
    Conditional {
        if_branch: Box<StmtView>,
        elseif_branch: Option<Seq<StmtView>>,
        else_branch: Option<Box<StmtView>>,
    },
    ConstantDeclaration {
        name: Seq<char>,
        type_annotation: TypeAnnotation,
        value: ExprView,
        span: Span,
    },
    ConstantArray {
        name: Seq<char>,
        type_annotation: TypeAnnotation,
        value: Seq<ExprView>,
        span: Span,
    },
}

impl Statement {
    pub open spec fn model(self) -> StmtView
        decreases self, 1int,
    {
        match self {
            Statement::VariableDeclaration { name, type_annotation, value } =>
                StmtView::VariableDeclaration {
                    name: name@,
                    type_annotation: type_annotation@,
                    value: value.model(),
                },
            Statement::Expression(e) => StmtView::Expression(e.model()),
            Statement::While { condition, body } => StmtView::While {
                condition: condition.model(),
                body: stmt_models(body@),
            },
            Statement::ConditionalBranch { condition, body } => StmtView::ConditionalBranch {
                condition: match condition {
                    Some(c) => Some(c.model()),
                    None => None,
                },
                body: stmt_models(body@),
            },
            Statement::Conditional { if_branch, elseif_branch, else_branch } =>
                StmtView::Conditional {
                    if_branch: Box::new(if_branch.model()),
                    elseif_branch: match elseif_branch {
                        Some(bs) => Some(stmt_models(bs@)),
                        None => None,
                    },
                    else_branch: match else_branch {
                        Some(b) => Some(Box::new(b.model())),
                        None => None,
                    },
                },
            Statement::ConstantDeclaration { name, type_annotation, value, span } =>
                StmtView::ConstantDeclaration {
                    name: name@,
                    type_annotation,
                    value: value.model(),
                    span,
                },
            Statement::ConstantArray { name, type_annotation, value, span } =>
                StmtView::ConstantArray {
                    name: name@,
                    type_annotation,
                    value: expr_models(value@),
                    span,
                },
        }
    }
}

/// The models of a sequence of statements, in order.
pub open spec fn stmt_models(s: Seq<Statement>) -> Seq<StmtView>
    decreases s, 0int,
{
    if s.len() == 0 {
        Seq::empty()
    } else {
        stmt_models(s.subrange(0, s.len() - 1)).push(s[s.len() - 1].model())
    }
}

pub proof fn lemma_stmt_models_index(s: Seq<Statement>)
    ensures
        stmt_models(s).len() == s.len(),
        forall|i: int| 0 <= i < s.len() ==> #[trigger] stmt_models(s)[i] == s[i].model(),
    decreases s.len(),
{
    if s.len() > 0 {
        let p = s.subrange(0, s.len() - 1);
        lemma_stmt_models_index(p);
        assert forall|i: int| 0 <= i < s.len() implies #[trigger] stmt_models(s)[i]
            == s[i].model() by {
            if i < s.len() - 1 {
                assert(p[i] == s[i]);
            }
        }
    }
}

impl View for Statement {
    type V = StmtView;

    open spec fn view(&self) -> StmtView {
        self.model()
    }
}


pub proof fn lemma_expr_models_push(s: Seq<Expression>, x: Expression)
    ensures
        expr_models(s.push(x)) == expr_models(s).push(x@),
{
    assert(s.push(x).subrange(0, s.len() as int) =~= s);
}

pub proof fn lemma_stmt_models_push(s: Seq<Statement>, x: Statement)
    ensures
        stmt_models(s.push(x)) == stmt_models(s).push(x@),
{
    assert(s.push(x).subrange(0, s.len() as int) =~= s);
}

} // verus!
