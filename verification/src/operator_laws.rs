use vstd::prelude::*;

use crate::operators::{binary_result, unary_result};
use crate::tokens::TokenView;
use crate::value::ValueView;

verus! {

/// The integer whose absolute value is `a`'s.
pub open spec fn abs(a: int) -> int {
    if a < 0 {
        -a
    } else {
        a
    }
}

/// `a / b` rounded toward zero, as integer division of the language rounds.
pub open spec fn quotient_toward_zero(a: int, b: int) -> int {
    if (a < 0) == (b < 0) {
        abs(a) / abs(b)
    } else {
        -(abs(a) / abs(b))
    }
}

/// What `x` is, as a result of an integer operation: the integer when it
/// fits in 64 bits, else the overflow error with the operator's symbol.
pub open spec fn fitting(x: int, overflow: Seq<char>) -> Result<ValueView, Seq<char>> {
    if i64::MIN <= x <= i64::MAX {
        Ok(ValueView::Integer(x as i64))
    } else {
        Err(overflow)
    }
}

/// On two integers, `+`, `-` and `*` give the sum, the difference and the
/// product, or the overflow error where it does not fit in 64 bits.
pub proof fn law_integer_arithmetic(a: i64, b: i64)
    ensures
        binary_result(TokenView::Plus, ValueView::Integer(a), ValueView::Integer(b)) == fitting(
            a + b,
            "integer overflow on +"@,
        ),
        binary_result(TokenView::Minus, ValueView::Integer(a), ValueView::Integer(b)) == fitting(
            a - b,
            "integer overflow on -"@,
        ),
        binary_result(TokenView::Star, ValueView::Integer(a), ValueView::Integer(b)) == fitting(
            a * b,
            "integer overflow on *"@,
        ),
{
}

/// On two integers, `/` is refused when dividing by zero, and otherwise gives
/// the quotient rounded toward zero (which overflows only for the smallest
/// integer divided by -1).
pub proof fn law_integer_division(a: i64, b: i64)
    ensures
        b == 0 ==> binary_result(TokenView::Slash, ValueView::Integer(a), ValueView::Integer(b))
            == Err::<ValueView, Seq<char>>("division by zero"@),
        b != 0 ==> binary_result(TokenView::Slash, ValueView::Integer(a), ValueView::Integer(b))
            == fitting(quotient_toward_zero(a as int, b as int), "integer overflow on /"@),
        (b != 0 && !(a == i64::MIN && b == -1)) ==> binary_result(
            TokenView::Slash,
            ValueView::Integer(a),
            ValueView::Integer(b),
        ) is Ok,
{
    if b != 0 {
        let x = a as int;
        let d = b as int;
        let q = quotient_toward_zero(x, d);
        if x > 0 && d > 0 {
            assert(q == x / d);
        } else if x < 0 && d < 0 {
            assert(q == (x * -1) / (d * -1));
        } else if x < 0 && d > 0 {
            assert(q == ((x * -1) / d) * -1);
        } else if x > 0 && d < 0 {
            assert(q == (x / (d * -1)) * -1);
        } else {
            assert(x == 0);
            assert(abs(x) / abs(d) == 0) by (nonlinear_arith)
                requires
                    abs(x) == 0,
                    abs(d) > 0,
            ;
        }
        if !(a == i64::MIN && b == -1) {
            assert(abs(x) / abs(d) <= abs(x)) by (nonlinear_arith)
                requires
                    abs(x) >= 0,
                    abs(d) >= 1,
            ;
            if abs(d) == 1 {
                assert(abs(x) / abs(d) == abs(x));
            } else {
                assert(abs(x) / abs(d) <= abs(x) / 2) by (nonlinear_arith)
                    requires
                        abs(x) >= 0,
                        abs(d) >= 2,
                ;
            }
        }
    }
}

/// On two integers, `<`, `>`, `<=` and `>=` give whether the integers are so
/// ordered, and `==` and `!=` give whether they are equal and unequal.
pub proof fn law_integer_comparison(a: i64, b: i64)
    ensures
        binary_result(TokenView::Less, ValueView::Integer(a), ValueView::Integer(b)) == Ok::<
            ValueView,
            Seq<char>,
        >(ValueView::Bool(a < b)),
        binary_result(TokenView::Greater, ValueView::Integer(a), ValueView::Integer(b)) == Ok::<
            ValueView,
            Seq<char>,
        >(ValueView::Bool(a > b)),
        binary_result(TokenView::LessEqual, ValueView::Integer(a), ValueView::Integer(b)) == Ok::<
            ValueView,
            Seq<char>,
        >(ValueView::Bool(a <= b)),
        binary_result(TokenView::GreaterEqual, ValueView::Integer(a), ValueView::Integer(b))
            == Ok::<ValueView, Seq<char>>(ValueView::Bool(a >= b)),
        binary_result(TokenView::Compare, ValueView::Integer(a), ValueView::Integer(b)) == Ok::<
            ValueView,
            Seq<char>,
        >(ValueView::Bool(a == b)),
        binary_result(TokenView::BangEqual, ValueView::Integer(a), ValueView::Integer(b)) == Ok::<
            ValueView,
            Seq<char>,
        >(ValueView::Bool(a != b)),
{
}

/// `==` and `!=` on two strings, two characters or two booleans give whether
/// they are equal and unequal.
pub proof fn law_equality_of_same_kind(s: Seq<char>, t: Seq<char>, c: char, d: char, p: bool, q: bool)
    ensures
        binary_result(TokenView::Compare, ValueView::Str(s), ValueView::Str(t)) == Ok::<
            ValueView,
            Seq<char>,
        >(ValueView::Bool(s == t)),
        binary_result(TokenView::BangEqual, ValueView::Str(s), ValueView::Str(t)) == Ok::<
            ValueView,
            Seq<char>,
        >(ValueView::Bool(s != t)),
        binary_result(TokenView::Compare, ValueView::Char(c), ValueView::Char(d)) == Ok::<
            ValueView,
            Seq<char>,
        >(ValueView::Bool(c == d)),
        binary_result(TokenView::BangEqual, ValueView::Char(c), ValueView::Char(d)) == Ok::<
            ValueView,
            Seq<char>,
        >(ValueView::Bool(c != d)),
        binary_result(TokenView::Compare, ValueView::Bool(p), ValueView::Bool(q)) == Ok::<
            ValueView,
            Seq<char>,
        >(ValueView::Bool(p == q)),
        binary_result(TokenView::BangEqual, ValueView::Bool(p), ValueView::Bool(q)) == Ok::<
            ValueView,
            Seq<char>,
        >(ValueView::Bool(p != q)),
{
}

/// Whether two values are of different kinds.
pub open spec fn different_kinds(l: ValueView, r: ValueView) -> bool {
    !((l is Integer && r is Integer) || (l is Str && r is Str) || (l is Char && r is Char) || (
    l is Bool && r is Bool) || (l is Values && r is Values))
}

/// Arithmetic and ordering accept integers only, and `==` and `!=` refuse
/// operands of different kinds and arrays: each such refusal is the type
/// mismatch error naming the operator.
pub proof fn law_operand_mismatch(l: ValueView, r: ValueView)
    ensures
        !(l is Integer && r is Integer) ==> {
            &&& binary_result(TokenView::Plus, l, r) == Err::<ValueView, Seq<char>>("type mismatch on +"@)
            &&& binary_result(TokenView::Minus, l, r) == Err::<ValueView, Seq<char>>("type mismatch on -"@)
            &&& binary_result(TokenView::Star, l, r) == Err::<ValueView, Seq<char>>("type mismatch on *"@)
            &&& binary_result(TokenView::Slash, l, r) == Err::<ValueView, Seq<char>>("type mismatch on /"@)
            &&& binary_result(TokenView::Less, l, r) == Err::<ValueView, Seq<char>>("type mismatch on <"@)
            &&& binary_result(TokenView::Greater, l, r) == Err::<ValueView, Seq<char>>("type mismatch on >"@)
            &&& binary_result(TokenView::LessEqual, l, r) == Err::<ValueView, Seq<char>>(
                "type mismatch on <="@,
            )
            &&& binary_result(TokenView::GreaterEqual, l, r) == Err::<ValueView, Seq<char>>(
                "type mismatch on >="@,
            )
        },
        (different_kinds(l, r) || l is Values) ==> {
            &&& binary_result(TokenView::Compare, l, r) == Err::<ValueView, Seq<char>>(
                "type mismatch on =="@,
            )
            &&& binary_result(TokenView::BangEqual, l, r) == Err::<ValueView, Seq<char>>(
                "type mismatch on !="@,
            )
        },
{
}

/// `-` negates an integer (the smallest one overflows) and `!` negates a
/// boolean; on anything else each is the type mismatch error.
pub proof fn law_unary_operators(v: ValueView)
    ensures
        v matches ValueView::Integer(i) ==> unary_result(TokenView::Minus, v) == (if i == i64::MIN {
            Err::<ValueView, Seq<char>>("integer overflow on -"@)
        } else {
            Ok(ValueView::Integer((-i) as i64))
        }),
        v matches ValueView::Bool(b) ==> unary_result(TokenView::Bang, v) == Ok::<ValueView, Seq<char>>(
            ValueView::Bool(!b),
        ),
        !(v is Integer) ==> unary_result(TokenView::Minus, v) == Err::<ValueView, Seq<char>>(
            "type mismatch on -"@,
        ),
        !(v is Bool) ==> unary_result(TokenView::Bang, v) == Err::<ValueView, Seq<char>>(
            "type mismatch on !"@,
        ),
{
}

} // verus!
