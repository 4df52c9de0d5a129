use vstd::prelude::*;

use crate::errors::{Error, ErrorView, SourceFileView};
use crate::evaluator::{result_view, runtime_error, Evaluator};
use crate::span::Span;
use crate::tokens::{TokenType, TokenView};
use crate::value::{Value, ValueView};

verus! {

/// The message for operands that the operator `op` does not accept.
pub open spec fn mismatch_message(op: TokenView) -> Seq<char> {
    match op {
        TokenView::Plus => "type mismatch on +"@,
        TokenView::Minus => "type mismatch on -"@,
        TokenView::Star => "type mismatch on *"@,
        TokenView::Slash => "type mismatch on /"@,
        TokenView::Less => "type mismatch on <"@,
        TokenView::Greater => "type mismatch on >"@,
        TokenView::LessEqual => "type mismatch on <="@,
        TokenView::GreaterEqual => "type mismatch on >="@,
        TokenView::BangEqual => "type mismatch on !="@,
        TokenView::Compare => "type mismatch on =="@,
        TokenView::Bang => "type mismatch on !"@,
        _ => "unknown binary operator"@,
    }
}

/// The message for an integer result that does not fit in 64 bits.
pub open spec fn overflow_message(op: TokenView) -> Seq<char> {
    match op {
        TokenView::Plus => "integer overflow on +"@,
        TokenView::Minus => "integer overflow on -"@,
        TokenView::Star => "integer overflow on *"@,
        _ => "integer overflow on /"@,
    }
}

/// Integer arithmetic as the operator `op` does it, `None` where the result does
/// not fit (`Slash` truncates toward zero).
pub open spec fn int_arith(op: TokenView, a: i64, b: i64) -> Option<i64> {
    match op {
        TokenView::Plus => a.checked_add(b),
        TokenView::Minus => a.checked_sub(b),
        TokenView::Star => a.checked_mul(b),
        _ => a.checked_div(b),
    }
}

pub open spec fn is_arith(op: TokenView) -> bool {
    op is Plus || op is Minus || op is Star || op is Slash
}

pub open spec fn is_ordering(op: TokenView) -> bool {
    op is Less || op is Greater || op is LessEqual || op is GreaterEqual
}

pub open spec fn is_equality(op: TokenView) -> bool {
    op is BangEqual || op is Compare
}

/// How two integers compare under the ordering operator `op`.
pub open spec fn int_order(op: TokenView, a: i64, b: i64) -> bool {
    match op {
        TokenView::Less => a < b,
        TokenView::Greater => a > b,
        TokenView::LessEqual => a <= b,
        _ => a >= b,
    }
}

/// Whether two values of one kind are equal, if they are of a kind that `==` accepts.
pub open spec fn same_kind_equal(l: ValueView, r: ValueView) -> Option<bool> {
    match (l, r) {
        (ValueView::Integer(a), ValueView::Integer(b)) => Some(a == b),
        (ValueView::Str(a), ValueView::Str(b)) => Some(a == b),
        (ValueView::Char(a), ValueView::Char(b)) => Some(a == b),
        (ValueView::Bool(a), ValueView::Bool(b)) => Some(a == b),
        _ => None,
    }
}

/// What the binary operator `op` gives on `l` and `r`, or the message of the error.
pub open spec fn binary_result(op: TokenView, l: ValueView, r: ValueView) -> Result<ValueView, Seq<char>> {
    if is_arith(op) {
        match (l, r) {
            (ValueView::Integer(a), ValueView::Integer(b)) => {
                if op is Slash && b == 0 {
                    Err("division by zero"@)
                } else {
                    match int_arith(op, a, b) {
                        Some(c) => Ok(ValueView::Integer(c)),
                        None => Err(overflow_message(op)),
                    }
                }
            },
            _ => Err(mismatch_message(op)),
        }
    } else if is_ordering(op) {
        match (l, r) {
            (ValueView::Integer(a), ValueView::Integer(b)) => Ok(ValueView::Bool(int_order(op, a, b))),
            _ => Err(mismatch_message(op)),
        }
    } else if is_equality(op) {
        match same_kind_equal(l, r) {
            Some(eq) => Ok(ValueView::Bool(if op is Compare { eq } else { !eq })),
            None => Err(mismatch_message(op)),
        }
    } else {
        Err("unknown binary operator"@)
    }
}

/// What the unary operator `op` gives on `v`, or the message of the error.
pub open spec fn unary_result(op: TokenView, v: ValueView) -> Result<ValueView, Seq<char>> {
    match op {
        TokenView::Bang => match v {
            ValueView::Bool(b) => Ok(ValueView::Bool(!b)),
            _ => Err("type mismatch on !"@),
        },
        TokenView::Minus => match v {
            ValueView::Integer(i) => if i == i64::MIN {
                Err("integer overflow on -"@)
            } else {
                Ok(ValueView::Integer((-i) as i64))
            },
            _ => Err("type mismatch on -"@),
        },
        _ => Err("unknown unary operator"@),
    }
}

/// An operator's result as the evaluator reports it: the value, or a runtime error at `span`.
pub open spec fn lift(r: Result<ValueView, Seq<char>>, span: Span, src: Option<SourceFileView>) -> Result<
    ValueView,
    ErrorView,
> {
    match r {
        Ok(v) => Ok(v),
        Err(m) => Err(runtime_error(m, span, src)),
    }
}

impl Evaluator {
    /// Applies the binary operator `operator` to two evaluated operands.
    pub fn match_binary_operator(
        &mut self,
        left: Value,
        right: Value,
        operator: &TokenType,
        span: Span,
    ) -> (r: Result<Value, Error>)
        ensures
            *final(self) == *old(self),
            result_view(r) == lift(binary_result(operator@, left@, right@), span, old(self).src()),
    {
        let mismatch: &str = match operator {
            TokenType::Plus => "type mismatch on +",
            TokenType::Minus => "type mismatch on -",
            TokenType::Star => "type mismatch on *",
            TokenType::Slash => "type mismatch on /",
            TokenType::Less => "type mismatch on <",
            TokenType::Greater => "type mismatch on >",
            TokenType::LessEqual => "type mismatch on <=",
            TokenType::GreaterEqual => "type mismatch on >=",
            TokenType::BangEqual => "type mismatch on !=",
            TokenType::Compare => "type mismatch on ==",
            _ => return Err(self.err(crate::text::string_of("unknown binary operator"), span)),
        };
        let v = match operator {
            TokenType::Plus | TokenType::Minus | TokenType::Star | TokenType::Slash => {
                match (left, right) {
                    (Value::Integer(a), Value::Integer(b)) => {
                        let c = match operator {
                            TokenType::Plus => a.checked_add(b),
                            TokenType::Minus => a.checked_sub(b),
                            TokenType::Star => a.checked_mul(b),
                            _ => {
                                if b == 0 {
                                    return Err(
                                        self.err(crate::text::string_of("division by zero"), span),
                                    );
                                }
                                a.checked_div(b)
                            },
                        };
                        match c {
                            Some(c) => Value::Integer(c),
                            None => {
                                let msg: &str = match operator {
                                    TokenType::Plus => "integer overflow on +",
                                    TokenType::Minus => "integer overflow on -",
                                    TokenType::Star => "integer overflow on *",
                                    _ => "integer overflow on /",
                                };
                                return Err(self.err(crate::text::string_of(msg), span));
                            },
                        }
                    },
                    _ => return Err(self.err(crate::text::string_of(mismatch), span)),
                }
            },
            TokenType::Less | TokenType::Greater | TokenType::LessEqual | TokenType::GreaterEqual => {
                match (left, right) {
                    (Value::Integer(a), Value::Integer(b)) => Value::Bool(
                        match operator {
                            TokenType::Less => a < b,
                            TokenType::Greater => a > b,
                            TokenType::LessEqual => a <= b,
                            _ => a >= b,
                        },
                    ),
                    _ => return Err(self.err(crate::text::string_of(mismatch), span)),
                }
            },
            _ => {
                let eq = match (left, right) {
                    (Value::Integer(a), Value::Integer(b)) => a == b,
                    (Value::String(a), Value::String(b)) => a == b,
                    (Value::Char(a), Value::Char(b)) => a == b,
                    (Value::Bool(a), Value::Bool(b)) => a == b,
                    _ => return Err(self.err(crate::text::string_of(mismatch), span)),
                };
                match operator {
                    TokenType::Compare => Value::Bool(eq),
                    _ => Value::Bool(!eq),
                }
            },
        };
        Ok(v)
    }

    /// Applies the unary operator `operator` to an evaluated operand.
    pub fn match_unary_operator(&mut self, operand: Value, operator: &TokenType, span: Span) -> (r:
        Result<Value, Error>)
        ensures
            *final(self) == *old(self),
            result_view(r) == lift(unary_result(operator@, operand@), span, old(self).src()),
    {
        let v = match operator {
            TokenType::Bang => match operand {
                Value::Bool(b) => Value::Bool(!b),
                _ => return Err(self.err(crate::text::string_of("type mismatch on !"), span)),
            },
            TokenType::Minus => match operand {
                Value::Integer(i) => {
                    if i == i64::MIN {
                        return Err(self.err(crate::text::string_of("integer overflow on -"), span));
                    }
                    Value::Integer(-i)
                },
                _ => return Err(self.err(crate::text::string_of("type mismatch on -"), span)),
            },
            _ => return Err(self.err(crate::text::string_of("unknown unary operator"), span)),
        };
        Ok(v)
    }
}

} // verus!
