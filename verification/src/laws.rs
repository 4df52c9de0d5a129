use vstd::prelude::*;

use crate::environment::{
    bind, distinct_names, is_first, lemma_bind_distinct, lemma_first_exists, lemma_position_is, lookup,
    position, BindingView,
};
use crate::errors::SourceFileView;
use crate::ast::{ExprKindView, ExprView, StmtView};
use crate::evaluate::{
    index_value, done, evaluated, made_since, eval, eval_index_assign, eval_list, resolve_target, set_path, write_path, Outcome,
};
use crate::evaluator::HostCall;
use crate::execute::{exec_stmt, exec_while, max_iterations};
use crate::evaluator::{
    assign_variable, constant_assignment_error, declare_constant, read_variable, redeclaration_error,
};
use crate::execute::{exec_block, executed_block, first_error, halts, then_run};
use crate::lexer::{escape_of, scan_char_literal, CharScan};
use crate::operators::{binary_result, lift, unary_result};
use crate::span::Span;
use crate::tokens::TokenView;
use crate::value::ValueView;

verus! {

proof fn lemma_bind_position(env: Seq<BindingView>, name: Seq<char>, value: ValueView, constant: bool)
    ensures
        position(bind(env, name, value, constant), name) is Some,
        lookup(bind(env, name, value, constant), name) == Some((value, constant)),
{
    let env2 = bind(env, name, value, constant);
    match position(env, name) {
        Some(i) => {
            let k = choose|k: int| is_first(env, name, k);
            assert(is_first(env, name, k));
            assert(is_first(env2, name, i)) by {
                assert forall|j: int| 0 <= j < i implies (#[trigger] env2[j]).0 != name by {
                    assert(env2[j] == env[j]);
                }
            }
            lemma_position_is(env2, name, i);
        },
        None => {
            let i = env.len() as int;
            assert forall|j: int| 0 <= j < i implies (#[trigger] env2[j]).0 != name by {
                assert(env2[j] == env[j]);
                if env[j].0 == name {
                    lemma_first_exists(env, name, j);
                }
            }
            assert(is_first(env2, name, i));
            lemma_position_is(env2, name, i);
        },
    }
}

proof fn lemma_bind_other(env: Seq<BindingView>, name: Seq<char>, value: ValueView, constant: bool, other: Seq<char>)
    requires
        other != name,
    ensures
        lookup(bind(env, name, value, constant), other) == lookup(env, other),
{
    let env2 = bind(env, name, value, constant);
    match position(env, other) {
        Some(i) => {
            let k = choose|k: int| is_first(env, other, k);
            assert(is_first(env, other, k));
            assert(env2[k] == env[k]) by {
                if position(env, name) is Some {
                    let p = position(env, name)->0;
                    let pk = choose|pk: int| is_first(env, name, pk);
                    assert(is_first(env, name, pk));
                    assert(p != k);
                }
            }
            assert(is_first(env2, other, k)) by {
                assert forall|j: int| 0 <= j < k implies (#[trigger] env2[j]).0 != other by {
                    if position(env, name) is Some {
                        assert(env2[j].0 == env[j].0 || env2[j].0 == name);
                    } else {
                        assert(env2[j] == env[j]);
                    }
                }
            }
            lemma_position_is(env2, other, k);
        },
        None => {
            assert forall|i: int| !is_first(env2, other, i) by {
                if is_first(env2, other, i) {
                    if i < env.len() {
                        assert(env2[i].0 == env[i].0 || env2[i].0 == name);
                        assert(env[i].0 == other);
                        lemma_first_exists(env, other, i);
                    }
                }
            }
        },
    }
}

/// Reading a variable gives back the value last assigned to it.
pub proof fn law_read_after_assign(
    env: Seq<BindingView>,
    name: Seq<char>,
    value: ValueView,
    span: Span,
    read_span: Span,
    src: Option<SourceFileView>,
)
    requires
        assign_variable(env, name, value, span, src) is Ok,
    ensures
        read_variable(assign_variable(env, name, value, span, src)->Ok_0, name, read_span, src) == Ok::<
            ValueView,
            crate::errors::ErrorView,
        >(value),
{
    lemma_bind_position(env, name, value, false);
}

/// Assigning one variable leaves every other variable as it was.
pub proof fn law_assign_isolated(
    env: Seq<BindingView>,
    name: Seq<char>,
    value: ValueView,
    span: Span,
    src: Option<SourceFileView>,
    other: Seq<char>,
)
    requires
        assign_variable(env, name, value, span, src) is Ok,
        other != name,
    ensures
        lookup(assign_variable(env, name, value, span, src)->Ok_0, other) == lookup(env, other),
{
    lemma_bind_other(env, name, value, false, other);
}

/// A declared constant reads back its value, and every later assignment to it
/// is refused with the error naming it, leaving the bindings unchanged.
pub proof fn law_constant_is_fixed(
    env: Seq<BindingView>,
    name: Seq<char>,
    value: ValueView,
    span: Span,
    src: Option<SourceFileView>,
    new_value: ValueView,
    later: Span,
)
    requires
        declare_constant(env, name, value, span, src) is Ok,
    ensures
        read_variable(declare_constant(env, name, value, span, src)->Ok_0, name, later, src) == Ok::<
            ValueView,
            crate::errors::ErrorView,
        >(value),
        assign_variable(declare_constant(env, name, value, span, src)->Ok_0, name, new_value, later, src)
            == Err::<Seq<BindingView>, crate::errors::ErrorView>(constant_assignment_error(name, later, src)),
{
    lemma_bind_position(env, name, value, true);
}

/// A name can be declared constant only while it is unbound: once assigned, a
/// constant declaration of it is refused.
pub proof fn law_no_redeclaration(
    env: Seq<BindingView>,
    name: Seq<char>,
    value: ValueView,
    span: Span,
    src: Option<SourceFileView>,
    const_value: ValueView,
    later: Span,
)
    requires
        assign_variable(env, name, value, span, src) is Ok,
    ensures
        declare_constant(assign_variable(env, name, value, span, src)->Ok_0, name, const_value, later, src)
            == Err::<Seq<BindingView>, crate::errors::ErrorView>(redeclaration_error(name, later, src)),
{
    lemma_bind_position(env, name, value, false);
}

/// `!=` gives the negation of `==` wherever `==` gives a value.
pub proof fn law_not_equal_negates_equal(l: ValueView, r: ValueView)
    ensures
        binary_result(TokenView::Compare, l, r) is Ok <==> binary_result(TokenView::BangEqual, l, r) is Ok,
        binary_result(TokenView::Compare, l, r) matches Ok(ValueView::Bool(b)) ==> binary_result(
            TokenView::BangEqual,
            l,
            r,
        ) == Ok::<ValueView, Seq<char>>(ValueView::Bool(!b)),
{
}

/// `l < r` is `r > l`, and `l <= r` is `r >= l`.
pub proof fn law_ordering_converse(a: i64, b: i64)
    ensures
        binary_result(TokenView::Less, ValueView::Integer(a), ValueView::Integer(b)) == binary_result(
            TokenView::Greater,
            ValueView::Integer(b),
            ValueView::Integer(a),
        ),
        binary_result(TokenView::LessEqual, ValueView::Integer(a), ValueView::Integer(b))
            == binary_result(TokenView::GreaterEqual, ValueView::Integer(b), ValueView::Integer(a)),
{
}

/// Integer addition and multiplication do not depend on the order of their operands.
pub proof fn law_add_mul_commute(a: i64, b: i64)
    ensures
        binary_result(TokenView::Plus, ValueView::Integer(a), ValueView::Integer(b)) == binary_result(
            TokenView::Plus,
            ValueView::Integer(b),
            ValueView::Integer(a),
        ),
        binary_result(TokenView::Star, ValueView::Integer(a), ValueView::Integer(b)) == binary_result(
            TokenView::Star,
            ValueView::Integer(b),
            ValueView::Integer(a),
        ),
{
    assert(a * b == b * a) by (nonlinear_arith);
}

/// Negating twice gives back the operand, for `!` on booleans and for `-` on
/// integers other than the smallest.
pub proof fn law_double_negation(v: ValueView)
    ensures
        v is Bool ==> (unary_result(TokenView::Bang, v) is Ok && unary_result(
            TokenView::Bang,
            unary_result(TokenView::Bang, v)->Ok_0,
        ) == Ok::<ValueView, Seq<char>>(v)),
        (v is Integer && v->Integer_0 != i64::MIN) ==> (unary_result(TokenView::Minus, v) is Ok
            && unary_result(TokenView::Minus, unary_result(TokenView::Minus, v)->Ok_0) == Ok::<
            ValueView,
            Seq<char>,
        >(v)),
{
}

/// The element at `path` inside `v`, if there is one.
pub open spec fn get_path(v: ValueView, path: Seq<i64>) -> Option<ValueView>
    decreases path.len(),
{
    if path.len() == 0 {
        Some(v)
    } else {
        match v {
            ValueView::Values(items) => {
                let n = path[0];
                if 0 <= n < items.len() {
                    get_path(items[n as int], path.drop_first())
                } else {
                    None
                }
            },
            _ => None,
        }
    }
}

/// Reading an element back after an indexed write at the same place gives
/// what was written.
pub proof fn law_read_after_indexed_write(root: ValueView, path: Seq<i64>, v: ValueView)
    requires
        set_path(root, path, v) is Ok,
    ensures
        get_path(set_path(root, path, v)->Ok_0, path) == Some(v),
    decreases path.len(),
{
    if path.len() > 0 {
        match root {
            ValueView::Values(items) => {
                let n = path[0];
                law_read_after_indexed_write(items[n as int], path.drop_first(), v);
            },
            _ => {},
        }
    }
}

/// After an indexed write into a variable succeeds, the variable holds an
/// array whose element at that place is the value written.
pub proof fn law_variable_read_after_indexed_write(
    env: Seq<BindingView>,
    name: Seq<char>,
    path: Seq<i64>,
    v: ValueView,
    span: Span,
    read_span: Span,
    src: Option<SourceFileView>,
)
    requires
        write_path(env, name, path, v, span, src).0 is Ok,
    ensures
        write_path(env, name, path, v, span, src).0 == Ok::<ValueView, crate::errors::ErrorView>(v),
        read_variable(write_path(env, name, path, v, span, src).1, name, read_span, src) matches Ok(root)
            && get_path(root, path) == Some(v),
{
    let root = read_variable(env, name, span, src)->Ok_0;
    let u = set_path(root, path, v)->Ok_0;
    law_read_after_assign(env, name, u, span, read_span, src);
    law_read_after_indexed_write(root, path, v);
}

/// An indexed write fails exactly where the place it names does not exist.
pub proof fn law_indexed_write_needs_place(root: ValueView, path: Seq<i64>, v: ValueView)
    ensures
        set_path(root, path, v) is Ok <==> get_path(root, path) is Some,
    decreases path.len(),
{
    if path.len() > 0 {
        match root {
            ValueView::Values(items) => {
                let n = path[0];
                if 0 <= n < items.len() {
                    law_indexed_write_needs_place(items[n as int], path.drop_first(), v);
                }
            },
            _ => {},
        }
    }
}

/// Whether two runs end alike: both succeed or both fail with the same error,
/// with the same bindings, remaining calls and faithfulness.
pub open spec fn same_run(a: Outcome<()>, b: Outcome<()>) -> bool {
    &&& (a.result is Ok <==> b.result is Ok)
    &&& (a.result is Err ==> a.result == b.result)
    &&& a.env == b.env
    &&& a.rest == b.rest
    &&& a.faithful == b.faithful
}

/// Running `first` and then `second` from where it left off, whatever
/// `first` gave unless it stopped at an unanswered call; the first error of
/// the two is the result.
pub open spec fn run_then(
    env: Seq<BindingView>,
    first: Seq<crate::ast::StmtView>,
    second: Seq<crate::ast::StmtView>,
    cs: Seq<crate::evaluator::HostCall>,
    src: Option<SourceFileView>,
) -> Outcome<()> {
    let o1 = exec_block(env, first, cs, src);
    if halts(o1.result) {
        o1
    } else {
        then_run(o1, exec_block(o1.env, second, o1.rest, src))
    }
}

/// Running a block is running its first part, then its second part from
/// where the first left off, a failing statement included (only a stop at an
/// unanswered call ends it early); the block's error is the first one met.
pub proof fn law_block_sequence(
    env: Seq<BindingView>,
    first: Seq<crate::ast::StmtView>,
    second: Seq<crate::ast::StmtView>,
    cs: Seq<crate::evaluator::HostCall>,
    src: Option<SourceFileView>,
)
    ensures
        same_run(exec_block(env, first + second, cs, src), run_then(env, first, second, cs, src)),
    decreases second.len(),
{
    let o1 = exec_block(env, first, cs, src);
    if second.len() == 0 {
        assert(first + second =~= first);
    } else {
        let init = second.subrange(0, second.len() - 1);
        let last = second[second.len() - 1];
        law_block_sequence(env, first, init, cs, src);
        let whole = first + second;
        assert(whole.subrange(0, whole.len() - 1) =~= first + init);
        assert(whole[whole.len() - 1] == last);
        let o = exec_block(env, first + init, cs, src);
        let c = crate::execute::exec_stmt(o.env, last, o.rest, src);
        assert(exec_block(env, whole, cs, src) == if halts(o.result) {
            o
        } else {
            then_run(o, c)
        });
        if !halts(o1.result) {
            let b = exec_block(o1.env, init, o1.rest, src);
            assert(b.env == o.env && b.rest == o.rest);
            assert(halts(o.result) == halts(b.result));
            assert(exec_block(o1.env, second, o1.rest, src) == if halts(b.result) {
                b
            } else {
                then_run(b, c)
            });
        } else {
            assert(halts(o.result));
        }
    }
}

/// Two runs of `evaluate_block` compose: a run of `s ++ t`, and a run of `s`
/// followed by a run of `t` from the bindings it left, that were given the
/// same host calls, end with the same bindings and the same result (the first
/// error met), unless the run of `s` stopped at an unanswered call.
pub proof fn law_block_runs_compose(
    env0: Seq<BindingView>,
    s: Seq<StmtView>,
    t: Seq<StmtView>,
    c0: Seq<HostCall>,
    c1: Seq<HostCall>,
    d0: Seq<HostCall>,
    d1: Seq<HostCall>,
    d2: Seq<HostCall>,
    src: Option<SourceFileView>,
    r: Result<(), crate::errors::ErrorView>,
    env1: Seq<BindingView>,
    r1: Result<(), crate::errors::ErrorView>,
    envm: Seq<BindingView>,
    r2: Result<(), crate::errors::ErrorView>,
    env2: Seq<BindingView>,
)
    requires
        executed_block(env0, s + t, c0, c1, src, r, env1),
        executed_block(env0, s, d0, d1, src, r1, envm),
        executed_block(envm, t, d1, d2, src, r2, env2),
        made_since(c0, c1) == made_since(d0, d1) + made_since(d1, d2),
        !halts(r1),
    ensures
        env1 == env2,
        r is Ok <==> first_error(r1, r2) is Ok,
        r is Err ==> r == first_error(r1, r2),
{
    let cs = made_since(c0, c1);
    let m2 = made_since(d1, d2);
    let e = Seq::<HostCall>::empty();
    assert(cs + e == cs);
    assert(m2 + e == m2);
    assert(exec_block(env0, s + t, cs + e, src) == (Outcome { result: r, env: env1, rest: e, faithful: true }));
    assert(exec_block(env0, s, made_since(d0, d1) + m2, src) == (Outcome {
        result: r1,
        env: envm,
        rest: m2,
        faithful: true,
    }));
    assert(exec_block(envm, t, m2 + e, src) == (Outcome { result: r2, env: env2, rest: e, faithful: true }));
    law_block_sequence(env0, s, t, cs, src);
}

/// A run of `evaluate_block` on no statements succeeds, makes no host call and
/// leaves the bindings as they were.
pub proof fn law_empty_block_run(
    env0: Seq<BindingView>,
    c0: Seq<HostCall>,
    c1: Seq<HostCall>,
    src: Option<SourceFileView>,
    r: Result<(), crate::errors::ErrorView>,
    env1: Seq<BindingView>,
)
    requires
        executed_block(env0, Seq::empty(), c0, c1, src, r, env1),
    ensures
        r is Ok,
        env1 == env0,
        c1 == c0,
{
    let e = Seq::<HostCall>::empty();
    let o = exec_block(env0, Seq::empty(), made_since(c0, c1) + e, src);
    assert(o.rest == made_since(c0, c1) + e);
    assert(made_since(c0, c1) + e == made_since(c0, c1));
    assert(made_since(c0, c1).len() == 0);
    assert(c1 =~= c0) by {
        assert(c1.take(c0.len() as int) == c0);
    }
}

/// Two runs of `evaluate` compose: a run of `left op right`, and runs of `left`
/// and then of `right` from the bindings it left, given the same host calls,
/// end with the same bindings; where both operands give values, the result is
/// the operator applied to them (what `match_binary_operator` gives), and
/// where the left one fails, its error is the result.
pub proof fn law_binary_runs_compose(
    env0: Seq<BindingView>,
    left: ExprView,
    op: TokenView,
    right: ExprView,
    span: Span,
    c0: Seq<HostCall>,
    c1: Seq<HostCall>,
    d0: Seq<HostCall>,
    d1: Seq<HostCall>,
    d2: Seq<HostCall>,
    src: Option<SourceFileView>,
    r: Result<ValueView, crate::errors::ErrorView>,
    env1: Seq<BindingView>,
    rl: Result<ValueView, crate::errors::ErrorView>,
    envm: Seq<BindingView>,
    rr: Result<ValueView, crate::errors::ErrorView>,
    env2: Seq<BindingView>,
)
    requires
        evaluated(
            env0,
            ExprView {
                kind: ExprKindView::Binary { left: Box::new(left), operator: op, right: Box::new(right) },
                span,
            },
            c0,
            c1,
            src,
            r,
            env1,
        ),
        evaluated(env0, left, d0, d1, src, rl, envm),
        rl is Ok ==> evaluated(envm, right, d1, d2, src, rr, env2),
        rl is Ok ==> made_since(c0, c1) == made_since(d0, d1) + made_since(d1, d2),
        rl is Err ==> made_since(c0, c1) == made_since(d0, d1),
    ensures
        rl is Err ==> r == rl && env1 == envm,
        rl is Ok ==> env1 == env2,
        (rl is Ok && rr is Err) ==> r == rr,
        (rl is Ok && rr is Ok) ==> r == lift(binary_result(op, rl->Ok_0, rr->Ok_0), span, src),
{
    let cs = made_since(c0, c1);
    let e = Seq::<HostCall>::empty();
    assert(cs + e == cs);
    law_evaluation_composes(env0, left, op, right, Seq::empty(), span, cs, src);
    let whole = ExprView {
        kind: ExprKindView::Binary { left: Box::new(left), operator: op, right: Box::new(right) },
        span,
    };
    assert(eval(env0, whole, cs + e, src) == (Outcome { result: r, env: env1, rest: e, faithful: true }));
    if rl is Ok {
        let m2 = made_since(d1, d2);
        assert(m2 + e == m2);
        assert(eval(env0, left, made_since(d0, d1) + m2, src) == (Outcome {
            result: rl,
            env: envm,
            rest: m2,
            faithful: true,
        }));
        assert(eval(envm, right, m2 + e, src) == (Outcome { result: rr, env: env2, rest: e, faithful: true }));
    } else {
        assert(made_since(d0, d1) + e == made_since(d0, d1));
        assert(eval(env0, left, made_since(d0, d1) + e, src) == (Outcome {
            result: rl,
            env: envm,
            rest: e,
            faithful: true,
        }));
    }
}

/// A character literal of one plain character scans to that character and
/// ends after the closing quote.
pub proof fn law_plain_char_literal(src: Seq<char>, cur: int, c: char)
    requires
        0 <= cur,
        cur + 1 < src.len(),
        src[cur] == c,
        c != '\\',
        src[cur + 1] == '\'',
    ensures
        scan_char_literal(src, cur) == CharScan::Scanned(c, cur + 2),
{
}

/// An escape sequence scans to the character it stands for; an unknown one is
/// reported with the escaped character in the message.
pub proof fn law_escaped_char_literal(src: Seq<char>, cur: int, e: char)
    requires
        0 <= cur,
        cur + 2 < src.len(),
        src[cur] == '\\',
        src[cur + 1] == e,
        src[cur + 2] == '\'',
    ensures
        escape_of(e) matches Some(v) ==> scan_char_literal(src, cur) == CharScan::Scanned(v, cur + 3),
        escape_of(e) is None ==> scan_char_literal(src, cur) == CharScan::Failed(
            "unknown escape sequence '\\"@.push(e) + "'"@,
            cur + 2,
        ),
{
}


/// Evaluating `left op right` step by step: the left operand, then (unless it
/// failed) the right one from the bindings and calls it left, then the
/// operator as `match_binary_operator` applies it.
pub open spec fn binary_in_steps(
    env: Seq<BindingView>,
    left: ExprView,
    op: TokenView,
    right: ExprView,
    span: Span,
    cs: Seq<HostCall>,
    src: Option<SourceFileView>,
) -> Outcome<ValueView> {
    let o1 = eval(env, left, cs, src);
    match o1.result {
        Err(_) => o1,
        Ok(l) => {
            let o2 = eval(o1.env, right, o1.rest, src);
            let f = o1.faithful && o2.faithful;
            match o2.result {
                Err(x) => Outcome { result: Err(x), env: o2.env, rest: o2.rest, faithful: f },
                Ok(r) => Outcome {
                    result: lift(binary_result(op, l, r), span, src),
                    env: o2.env,
                    rest: o2.rest,
                    faithful: f,
                },
            }
        },
    }
}

/// Evaluating `op operand` step by step: the operand, then (unless it failed)
/// the operator as `match_unary_operator` applies it.
pub open spec fn unary_in_steps(
    env: Seq<BindingView>,
    op: TokenView,
    operand: ExprView,
    span: Span,
    cs: Seq<HostCall>,
    src: Option<SourceFileView>,
) -> Outcome<ValueView> {
    let o = eval(env, operand, cs, src);
    match o.result {
        Err(_) => o,
        Ok(v) => Outcome { result: lift(unary_result(op, v), span, src), env: o.env, rest: o.rest, faithful: o.faithful },
    }
}

/// Evaluation composes: an operator node gives what evaluating its operands
/// in order and then applying the operator gives, a grouping gives what its
/// inner expression gives, and a name gives what reading the variable gives
/// (as `get_value` does), with the bindings and calls left unchanged.
pub proof fn law_evaluation_composes(
    env: Seq<BindingView>,
    left: ExprView,
    op: TokenView,
    right: ExprView,
    name: Seq<char>,
    span: Span,
    cs: Seq<HostCall>,
    src: Option<SourceFileView>,
)
    ensures
        eval(
            env,
            ExprView {
                kind: ExprKindView::Binary { left: Box::new(left), operator: op, right: Box::new(right) },
                span,
            },
            cs,
            src,
        ) == binary_in_steps(env, left, op, right, span, cs, src),
        eval(
            env,
            ExprView { kind: ExprKindView::Unary { operator: op, operand: Box::new(left) }, span },
            cs,
            src,
        ) == unary_in_steps(env, op, left, span, cs, src),
        eval(env, ExprView { kind: ExprKindView::Grouping(Box::new(left)), span }, cs, src) == eval(
            env,
            left,
            cs,
            src,
        ),
        eval(env, ExprView { kind: ExprKindView::Identifier(name), span }, cs, src) == (Outcome {
            result: read_variable(env, name, span, src),
            env,
            rest: cs,
            faithful: true,
        }),
{
}

/// Whether every name bound in `env0` is still bound in `env1`, every
/// constant of `env0` still holds its value in `env1`, every variable of
/// `env0` is still a variable in `env1`, and names that had one slot each in
/// `env0` still have one slot each in `env1`.
pub open spec fn persists(env0: Seq<BindingView>, env1: Seq<BindingView>) -> bool {
    &&& forall|name: Seq<char>|
        #![trigger lookup(env0, name)]
        {
            &&& lookup(env0, name) is Some ==> lookup(env1, name) is Some
            &&& lookup(env0, name) matches Some((_, true)) ==> lookup(env1, name) == lookup(env0, name)
            &&& lookup(env0, name) matches Some((_, false)) ==> lookup(env1, name) matches Some((_, false))
        }
    &&& distinct_names(env0) ==> distinct_names(env1)
}

/// Whether every name bound in `env1` and not in `env0` is a variable.
pub open spec fn only_variables_added(env0: Seq<BindingView>, env1: Seq<BindingView>) -> bool {
    forall|name: Seq<char>|
        #![trigger lookup(env1, name)]
        lookup(env0, name) is None && lookup(env1, name) is Some ==> lookup(env1, name) matches Some(
            (_, false),
        )
}

/// `persists`, and whatever is new is a variable: what evaluating an
/// expression does to the bindings.
pub open spec fn keeps_as_variables(env0: Seq<BindingView>, env1: Seq<BindingView>) -> bool {
    persists(env0, env1) && only_variables_added(env0, env1)
}

proof fn lemma_persists_trans(a: Seq<BindingView>, b: Seq<BindingView>, c: Seq<BindingView>)
    requires
        persists(a, b),
        persists(b, c),
    ensures
        persists(a, c),
{
    assert forall|name: Seq<char>|
        #![trigger lookup(a, name)]
        {
            &&& lookup(a, name) is Some ==> lookup(c, name) is Some
            &&& lookup(a, name) matches Some((_, true)) ==> lookup(c, name) == lookup(a, name)
            &&& lookup(a, name) matches Some((_, false)) ==> lookup(c, name) matches Some((_, false))
        } by {
        if lookup(a, name) is Some {
            assert(lookup(b, name) is Some);
        }
    }
}

proof fn lemma_keeps_trans(a: Seq<BindingView>, b: Seq<BindingView>, c: Seq<BindingView>)
    requires
        keeps_as_variables(a, b),
        keeps_as_variables(b, c),
    ensures
        keeps_as_variables(a, c),
{
    lemma_persists_trans(a, b, c);
    assert forall|name: Seq<char>|
        #![trigger lookup(c, name)]
        lookup(a, name) is None && lookup(c, name) is Some implies lookup(c, name) matches Some(
            (_, false),
        ) by {
        if lookup(b, name) is Some {
            assert(lookup(b, name) matches Some((_, false)));
        }
    }
}

proof fn lemma_bind_persists(env: Seq<BindingView>, name: Seq<char>, value: ValueView, constant: bool)
    requires
        !(lookup(env, name) matches Some((_, true))),
        constant ==> lookup(env, name) is None,
    ensures
        persists(env, bind(env, name, value, constant)),
        !constant ==> only_variables_added(env, bind(env, name, value, constant)),
{
    let env2 = bind(env, name, value, constant);
    lemma_bind_position(env, name, value, constant);
    if distinct_names(env) {
        lemma_bind_distinct(env, name, value, constant);
    }
    assert forall|other: Seq<char>|
        #![trigger lookup(env, other)]
        {
            &&& lookup(env, other) is Some ==> lookup(env2, other) is Some
            &&& lookup(env, other) matches Some((_, true)) ==> lookup(env2, other) == lookup(env, other)
            &&& lookup(env, other) matches Some((_, false)) ==> lookup(env2, other) matches Some(
                (_, false),
            )
        } by {
        if other != name {
            lemma_bind_other(env, name, value, constant, other);
        }
    }
    if !constant {
        assert forall|other: Seq<char>|
            #![trigger lookup(env2, other)]
            lookup(env, other) is None && lookup(env2, other) is Some implies lookup(env2, other) matches Some(
                (_, false),
            ) by {
            if other != name {
                lemma_bind_other(env, name, value, constant, other);
            }
        }
    }
}

proof fn lemma_assign_persists(
    env: Seq<BindingView>,
    name: Seq<char>,
    value: ValueView,
    span: Span,
    src: Option<SourceFileView>,
)
    ensures
        assign_variable(env, name, value, span, src) matches Ok(env2) ==> keeps_as_variables(env, env2),
{
    if assign_variable(env, name, value, span, src) is Ok {
        lemma_bind_persists(env, name, value, false);
    }
}

proof fn lemma_declare_persists(
    env: Seq<BindingView>,
    name: Seq<char>,
    value: ValueView,
    span: Span,
    src: Option<SourceFileView>,
)
    ensures
        declare_constant(env, name, value, span, src) matches Ok(env2) ==> persists(env, env2),
{
    if declare_constant(env, name, value, span, src) is Ok {
        lemma_bind_persists(env, name, value, true);
    }
}

proof fn lemma_eval_persists(env: Seq<BindingView>, e: ExprView, cs: Seq<HostCall>, src: Option<SourceFileView>)
    ensures
        keeps_as_variables(env, eval(env, e, cs, src).env),
    decreases e, 1int,
{
    match e.kind {
        ExprKindView::Index { target, index } => {
            lemma_eval_persists(env, *target, cs, src);
            let o1 = eval(env, *target, cs, src);
            if o1.result is Ok {
                lemma_eval_persists(o1.env, *index, o1.rest, src);
                lemma_keeps_trans(env, o1.env, eval(o1.env, *index, o1.rest, src).env);
            }
        },
        ExprKindView::ArrayLiteral(items) => {
            lemma_list_persists(env, items, cs, src);
        },
        ExprKindView::IndexAssign { .. } => {
            lemma_index_assign_persists(env, e, cs, src);
        },
        ExprKindView::Grouping(inner) => {
            lemma_eval_persists(env, *inner, cs, src);
        },
        ExprKindView::Binary { left, right, .. } => {
            lemma_eval_persists(env, *left, cs, src);
            let o1 = eval(env, *left, cs, src);
            if o1.result is Ok {
                lemma_eval_persists(o1.env, *right, o1.rest, src);
                lemma_keeps_trans(env, o1.env, eval(o1.env, *right, o1.rest, src).env);
            }
        },
        ExprKindView::Unary { operand, .. } => {
            lemma_eval_persists(env, *operand, cs, src);
        },
        ExprKindView::Assign { name, value } => {
            lemma_eval_persists(env, *value, cs, src);
            let o = eval(env, *value, cs, src);
            if o.result is Ok {
                lemma_assign_persists(o.env, name, o.result->Ok_0, e.span, src);
                if assign_variable(o.env, name, o.result->Ok_0, e.span, src) is Ok {
                    lemma_keeps_trans(
                        env,
                        o.env,
                        assign_variable(o.env, name, o.result->Ok_0, e.span, src)->Ok_0,
                    );
                }
            }
        },
        ExprKindView::Call { args, .. } => {
            lemma_list_persists(env, args, cs, src);
        },
        _ => {},
    }
}

proof fn lemma_list_persists(env: Seq<BindingView>, es: Seq<ExprView>, cs: Seq<HostCall>, src: Option<SourceFileView>)
    ensures
        keeps_as_variables(env, eval_list(env, es, cs, src).env),
    decreases es, 0int,
{
    if es.len() > 0 {
        let init = es.subrange(0, es.len() - 1);
        lemma_list_persists(env, init, cs, src);
        let o1 = eval_list(env, init, cs, src);
        if o1.result is Ok {
            lemma_eval_persists(o1.env, es[es.len() - 1], o1.rest, src);
            lemma_keeps_trans(env, o1.env, eval(o1.env, es[es.len() - 1], o1.rest, src).env);
        }
    }
}

proof fn lemma_resolve_persists(env: Seq<BindingView>, t: ExprView, cs: Seq<HostCall>, src: Option<SourceFileView>)
    ensures
        keeps_as_variables(env, resolve_target(env, t, cs, src).env),
    decreases t, 1int,
{
    match t.kind {
        ExprKindView::Index { target, index } => {
            lemma_resolve_persists(env, *target, cs, src);
            let o1 = resolve_target(env, *target, cs, src);
            if o1.result is Ok {
                lemma_eval_persists(o1.env, *index, o1.rest, src);
                lemma_keeps_trans(env, o1.env, eval(o1.env, *index, o1.rest, src).env);
            }
        },
        _ => {},
    }
}

proof fn lemma_index_assign_persists(env: Seq<BindingView>, e: ExprView, cs: Seq<HostCall>, src: Option<SourceFileView>)
    ensures
        keeps_as_variables(env, eval_index_assign(env, e, cs, src).env),
    decreases e, 0int,
{
    match e.kind {
        ExprKindView::IndexAssign { target, index, value } => {
            lemma_resolve_persists(env, *target, cs, src);
            let o1 = resolve_target(env, *target, cs, src);
            if o1.result is Ok {
                let (name, path0) = o1.result->Ok_0;
                lemma_eval_persists(o1.env, *index, o1.rest, src);
                let o2 = eval(o1.env, *index, o1.rest, src);
                lemma_keeps_trans(env, o1.env, o2.env);
                if o2.result is Ok && o2.result->Ok_0 is Integer {
                    let n = o2.result->Ok_0->Integer_0;
                    lemma_eval_persists(o2.env, *value, o2.rest, src);
                    let o3 = eval(o2.env, *value, o2.rest, src);
                    lemma_keeps_trans(env, o2.env, o3.env);
                    if o3.result is Ok {
                        let v = o3.result->Ok_0;
                        match read_variable(o3.env, name, e.span, src) {
                            Ok(root) => {
                                match set_path(root, path0.push(n), v) {
                                    Ok(u) => {
                                        lemma_assign_persists(o3.env, name, u, e.span, src);
                                        if assign_variable(o3.env, name, u, e.span, src) is Ok {
                                            lemma_keeps_trans(
                                                env,
                                                o3.env,
                                                assign_variable(o3.env, name, u, e.span, src)->Ok_0,
                                            );
                                        }
                                    },
                                    Err(_) => {},
                                }
                            },
                            Err(_) => {},
                        }
                    }
                }
            }
        },
        _ => {},
    }
}

/// Evaluating an expression never unbinds a name, never changes a constant,
/// never turns a variable into a constant, never gives a name a second slot,
/// and binds every new name as a variable, whatever the host
/// answers and whether or not the evaluation fails.
pub proof fn law_constants_survive_evaluation(
    env: Seq<BindingView>,
    e: ExprView,
    cs: Seq<HostCall>,
    src: Option<SourceFileView>,
)
    ensures
        persists(env, eval(env, e, cs, src).env),
        only_variables_added(env, eval(env, e, cs, src).env),
{
    lemma_eval_persists(env, e, cs, src);
}

proof fn lemma_stmt_persists(env: Seq<BindingView>, s: StmtView, cs: Seq<HostCall>, src: Option<SourceFileView>)
    ensures
        persists(env, exec_stmt(env, s, cs, src).env),
    decreases s, 0int,
{
    match s {
        StmtView::VariableDeclaration { name, value, .. } => {
            lemma_eval_persists(env, value, cs, src);
            let o = eval(env, value, cs, src);
            if o.result is Ok {
                lemma_assign_persists(o.env, name, o.result->Ok_0, value.span, src);
                if assign_variable(o.env, name, o.result->Ok_0, value.span, src) is Ok {
                    lemma_persists_trans(env, o.env, assign_variable(o.env, name, o.result->Ok_0, value.span, src)->Ok_0);
                }
            }
        },
        StmtView::Expression(e) => {
            lemma_eval_persists(env, e, cs, src);
        },
        StmtView::While { condition, body } => {
            lemma_while_persists(env, condition, body, cs, src, max_iterations());
        },
        StmtView::ConditionalBranch { condition, body } => match condition {
            Some(c) => {
                lemma_eval_persists(env, c, cs, src);
                let o = eval(env, c, cs, src);
                if o.result == Ok::<ValueView, crate::errors::ErrorView>(ValueView::Bool(true)) {
                    lemma_block_persists(o.env, body, o.rest, src);
                    lemma_persists_trans(env, o.env, exec_block(o.env, body, o.rest, src).env);
                }
            },
            None => {
                lemma_block_persists(env, body, cs, src);
            },
        },
        StmtView::Conditional { if_branch, elseif_branch, else_branch } => {
            lemma_stmt_persists(env, *if_branch, cs, src);
            let o1 = exec_stmt(env, *if_branch, cs, src);
            let o2 = match elseif_branch {
                Some(bs) => exec_block(o1.env, bs, o1.rest, src),
                None => done(Ok(()), o1.env, o1.rest),
            };
            match elseif_branch {
                Some(bs) => {
                    lemma_block_persists(o1.env, bs, o1.rest, src);
                },
                None => {},
            }
            lemma_persists_trans(env, o1.env, o2.env);
            match else_branch {
                Some(b) => {
                    lemma_stmt_persists(o2.env, *b, o2.rest, src);
                    lemma_persists_trans(env, o2.env, exec_stmt(o2.env, *b, o2.rest, src).env);
                },
                None => {},
            }
        },
        StmtView::ConstantDeclaration { name, value, span, .. } => {
            lemma_eval_persists(env, value, cs, src);
            let o = eval(env, value, cs, src);
            if o.result is Ok {
                lemma_declare_persists(o.env, name, o.result->Ok_0, span, src);
                if declare_constant(o.env, name, o.result->Ok_0, span, src) is Ok {
                    lemma_persists_trans(env, o.env, declare_constant(o.env, name, o.result->Ok_0, span, src)->Ok_0);
                }
            }
        },
        StmtView::ConstantArray { name, value, span, .. } => {
            lemma_list_persists(env, value, cs, src);
            let o = eval_list(env, value, cs, src);
            if o.result is Ok {
                let v = ValueView::Values(o.result->Ok_0);
                lemma_declare_persists(o.env, name, v, span, src);
                if declare_constant(o.env, name, v, span, src) is Ok {
                    lemma_persists_trans(env, o.env, declare_constant(o.env, name, v, span, src)->Ok_0);
                }
            }
        },
    }
}

proof fn lemma_block_persists(env: Seq<BindingView>, ss: Seq<StmtView>, cs: Seq<HostCall>, src: Option<SourceFileView>)
    ensures
        persists(env, exec_block(env, ss, cs, src).env),
    decreases ss, 0int,
{
    if ss.len() > 0 {
        let init = ss.subrange(0, ss.len() - 1);
        lemma_block_persists(env, init, cs, src);
        let o1 = exec_block(env, init, cs, src);
        lemma_stmt_persists(o1.env, ss[ss.len() - 1], o1.rest, src);
        lemma_persists_trans(env, o1.env, exec_stmt(o1.env, ss[ss.len() - 1], o1.rest, src).env);
    }
}

proof fn lemma_while_persists(
    env: Seq<BindingView>,
    cond: ExprView,
    body: Seq<StmtView>,
    cs: Seq<HostCall>,
    src: Option<SourceFileView>,
    fuel: nat,
)
    ensures
        persists(env, exec_while(env, cond, body, cs, src, fuel).env),
    decreases body, fuel,
{
    if fuel > 0 {
        lemma_eval_persists(env, cond, cs, src);
        let o1 = eval(env, cond, cs, src);
        if o1.result == Ok::<ValueView, crate::errors::ErrorView>(ValueView::Bool(true)) {
            lemma_block_persists(o1.env, body, o1.rest, src);
            let o2 = exec_block(o1.env, body, o1.rest, src);
            lemma_persists_trans(env, o1.env, o2.env);
            lemma_while_persists(o2.env, cond, body, o2.rest, src, (fuel - 1) as nat);
            lemma_persists_trans(
                env,
                o2.env,
                exec_while(o2.env, cond, body, o2.rest, src, (fuel - 1) as nat).env,
            );
        }
    }
}

/// Running a statement never unbinds a name, never changes a constant, never
/// turns a variable into a constant and never gives a name a second slot,
/// whatever the host answers; a failing statement included.
pub proof fn law_constants_survive_execution(
    env: Seq<BindingView>,
    s: StmtView,
    cs: Seq<HostCall>,
    src: Option<SourceFileView>,
)
    ensures
        persists(env, exec_stmt(env, s, cs, src).env),
{
    lemma_stmt_persists(env, s, cs, src);
}

/// A variable declaration evaluates its value and then binds the name to it
/// as a variable, overwriting an earlier variable of that name and leaving
/// every other name as it was; it is refused on a constant, and it fails
/// with its value's error, the bindings then being those the evaluation left.
pub proof fn law_variable_declaration(
    env: Seq<BindingView>,
    name: Seq<char>,
    ty: TokenView,
    value: ExprView,
    cs: Seq<HostCall>,
    src: Option<SourceFileView>,
)
    ensures
        ({
            let o = eval(env, value, cs, src);
            let x = exec_stmt(env, StmtView::VariableDeclaration { name, type_annotation: ty, value }, cs, src);
            &&& o.result matches Err(e) ==> x.result == Err::<(), crate::errors::ErrorView>(e) && x.env == o.env
            &&& (o.result is Ok && lookup(o.env, name) matches Some((_, true))) ==> (x.result matches Err(e)
                && e.message == "cannot assign to constant '"@ + name + "'"@ && x.env == o.env)
            &&& (o.result is Ok && !(lookup(o.env, name) matches Some((_, true)))) ==> {
                &&& x.result is Ok
                &&& lookup(x.env, name) == Some((o.result->Ok_0, false))
                &&& forall|other: Seq<char>| other != name ==> #[trigger] lookup(x.env, other) == lookup(o.env, other)
            }
            &&& x.rest == o.rest
        }),
{
    let o = eval(env, value, cs, src);
    if o.result is Ok {
        let v = o.result->Ok_0;
        lemma_bind_position(o.env, name, v, false);
        assert forall|other: Seq<char>| other != name implies #[trigger] lookup(
            bind(o.env, name, v, false),
            other,
        ) == lookup(o.env, other) by {
            lemma_bind_other(o.env, name, v, false, other);
        }
    }
}

/// A constant declaration evaluates its value and then binds the name to it
/// as a constant, leaving every other name as it was; it is refused on a name
/// already bound, and it fails with its value's error.
pub proof fn law_constant_declaration(
    env: Seq<BindingView>,
    name: Seq<char>,
    ty: crate::ast::TypeAnnotation,
    value: ExprView,
    span: Span,
    cs: Seq<HostCall>,
    src: Option<SourceFileView>,
)
    ensures
        ({
            let o = eval(env, value, cs, src);
            let x = exec_stmt(
                env,
                StmtView::ConstantDeclaration { name, type_annotation: ty, value, span },
                cs,
                src,
            );
            &&& o.result matches Err(e) ==> x.result == Err::<(), crate::errors::ErrorView>(e) && x.env == o.env
            &&& (o.result is Ok && lookup(o.env, name) is Some) ==> (x.result matches Err(e) && e.message
                == "'"@ + name + "' is already declared"@ && e.span == Some(span) && x.env == o.env)
            &&& (o.result is Ok && lookup(o.env, name) is None) ==> {
                &&& x.result is Ok
                &&& lookup(x.env, name) == Some((o.result->Ok_0, true))
                &&& forall|other: Seq<char>| other != name ==> #[trigger] lookup(x.env, other) == lookup(o.env, other)
            }
            &&& x.rest == o.rest
        }),
{
    let o = eval(env, value, cs, src);
    if o.result is Ok {
        let v = o.result->Ok_0;
        lemma_bind_position(o.env, name, v, true);
        assert forall|other: Seq<char>| other != name implies #[trigger] lookup(
            bind(o.env, name, v, true),
            other,
        ) == lookup(o.env, other) by {
            lemma_bind_other(o.env, name, v, true, other);
        }
    }
}

/// An assignment `name = value` gives the value and binds the name to it as
/// a variable, leaving every other name as it was; it is refused on a
/// constant, and it fails with its value's error.
pub proof fn law_assignment_expression(
    env: Seq<BindingView>,
    name: Seq<char>,
    value: ExprView,
    span: Span,
    cs: Seq<HostCall>,
    src: Option<SourceFileView>,
)
    ensures
        ({
            let o = eval(env, value, cs, src);
            let x = eval(env, ExprView { kind: ExprKindView::Assign { name, value: Box::new(value) }, span }, cs, src);
            &&& o.result is Err ==> x.result == o.result && x.env == o.env
            &&& (o.result is Ok && lookup(o.env, name) matches Some((_, true))) ==> (x.result matches Err(e)
                && e.message == "cannot assign to constant '"@ + name + "'"@ && e.span == Some(span) && x.env
                == o.env)
            &&& (o.result is Ok && !(lookup(o.env, name) matches Some((_, true)))) ==> {
                &&& x.result == o.result
                &&& lookup(x.env, name) == Some((o.result->Ok_0, false))
                &&& forall|other: Seq<char>| other != name ==> #[trigger] lookup(x.env, other) == lookup(o.env, other)
            }
            &&& x.rest == o.rest
        }),
{
    let o = eval(env, value, cs, src);
    if o.result is Ok {
        let v = o.result->Ok_0;
        lemma_bind_position(o.env, name, v, false);
        assert forall|other: Seq<char>| other != name implies #[trigger] lookup(
            bind(o.env, name, v, false),
            other,
        ) == lookup(o.env, other) by {
            lemma_bind_other(o.env, name, v, false, other);
        }
    }
}

/// An expression statement evaluates its expression and keeps the bindings
/// it leaves; it succeeds exactly when the expression gives a value.
pub proof fn law_expression_statement(env: Seq<BindingView>, e: ExprView, cs: Seq<HostCall>, src: Option<SourceFileView>)
    ensures
        ({
            let o = eval(env, e, cs, src);
            let x = exec_stmt(env, StmtView::Expression(e), cs, src);
            &&& x.env == o.env
            &&& x.rest == o.rest
            &&& x.result is Ok <==> o.result is Ok
            &&& o.result matches Err(err) ==> x.result == Err::<(), crate::errors::ErrorView>(err)
        }),
{
}

/// A guarded branch runs its body exactly when its guard gives `true`: on
/// `false` it succeeds with the bindings the guard left, on a value that is
/// not a boolean it is the error "condition must be a bool" at the guard, and
/// on `true` it gives what its body gives when run after the guard.
pub proof fn law_guarded_branch(
    env: Seq<BindingView>,
    c: ExprView,
    body: Seq<StmtView>,
    cs: Seq<HostCall>,
    src: Option<SourceFileView>,
)
    ensures
        ({
            let o = eval(env, c, cs, src);
            let x = exec_stmt(env, StmtView::ConditionalBranch { condition: Some(c), body }, cs, src);
            let b = exec_block(o.env, body, o.rest, src);
            &&& o.result == Ok::<ValueView, crate::errors::ErrorView>(ValueView::Bool(false)) ==> (x.result is Ok
                && x.env == o.env && x.rest == o.rest)
            &&& (o.result matches Ok(v) && !(v is Bool)) ==> (x.result matches Err(e) && e.message
                == "condition must be a bool"@ && e.span == Some(c.span) && x.env == o.env)
            &&& o.result == Ok::<ValueView, crate::errors::ErrorView>(ValueView::Bool(true)) ==> (x.result
                == b.result && x.env == b.env && x.rest == b.rest)
            &&& o.result matches Err(e) ==> x.result == Err::<(), crate::errors::ErrorView>(e)
        }),
        exec_stmt(env, StmtView::ConditionalBranch { condition: None, body }, cs, src) == exec_block(
            env,
            body,
            cs,
            src,
        ),
{
}

/// A loop whose condition gives `false` runs nothing more and succeeds; one
/// whose condition gives a value that is not a boolean is the error
/// "condition must be a bool"; one whose condition gives `true` runs its
/// body and then goes on as the same loop from the bindings the body left,
/// with the body's error, if any, coming first (unless the loop later stops
/// at an unanswered call).
pub proof fn law_while_loop(
    env: Seq<BindingView>,
    c: ExprView,
    body: Seq<StmtView>,
    cs: Seq<HostCall>,
    src: Option<SourceFileView>,
    fuel: nat,
)
    requires
        fuel > 0,
    ensures
        ({
            let o = eval(env, c, cs, src);
            let x = exec_while(env, c, body, cs, src, fuel);
            let b = exec_block(o.env, body, o.rest, src);
            let next = exec_while(b.env, c, body, b.rest, src, (fuel - 1) as nat);
            &&& o.result == Ok::<ValueView, crate::errors::ErrorView>(ValueView::Bool(false)) ==> (x.result is Ok
                && x.env == o.env && x.rest == o.rest)
            &&& (o.result matches Ok(v) && !(v is Bool)) ==> (x.result matches Err(e) && e.message
                == "condition must be a bool"@ && x.env == o.env)
            &&& (o.result == Ok::<ValueView, crate::errors::ErrorView>(ValueView::Bool(true)) && b.result is Ok)
                ==> (x.result == next.result && x.env == next.env && x.rest == next.rest)
            &&& (o.result == Ok::<ValueView, crate::errors::ErrorView>(ValueView::Bool(true)) && b.result is Err
                && !halts(b.result)) ==> (x.env == next.env && x.rest == next.rest && x.result == (if halts(
                next.result,
            ) {
                next.result
            } else {
                b.result
            }))
        }),
{
}

/// An `if` statement runs its first branch, then its further branches from
/// the bindings the first left, then its else branch from the bindings those
/// left, each whatever the earlier parts gave (a stop at an unanswered call
/// aside); it succeeds exactly when all three parts do, and its error is the
/// first one met.
pub proof fn law_conditional_statement(
    env: Seq<BindingView>,
    if_branch: StmtView,
    branches: Seq<StmtView>,
    else_branch: StmtView,
    cs: Seq<HostCall>,
    src: Option<SourceFileView>,
)
    ensures
        ({
            let o1 = exec_stmt(env, if_branch, cs, src);
            let o2 = exec_block(o1.env, branches, o1.rest, src);
            let o3 = exec_stmt(o2.env, else_branch, o2.rest, src);
            let x = exec_stmt(
                env,
                StmtView::Conditional {
                    if_branch: Box::new(if_branch),
                    elseif_branch: Some(branches),
                    else_branch: Some(Box::new(else_branch)),
                },
                cs,
                src,
            );
            (!halts(o1.result) && !halts(o2.result) && !halts(o3.result)) ==> {
                &&& x.env == o3.env
                &&& x.rest == o3.rest
                &&& (x.result is Ok <==> (o1.result is Ok && o2.result is Ok && o3.result is Ok))
                &&& o1.result is Err ==> x.result == o1.result
                &&& (o1.result is Ok && o2.result is Err) ==> x.result == o2.result
                &&& (o1.result is Ok && o2.result is Ok) ==> x.result == o3.result
            }
        }),
{
}

/// The six escapes stand for newline, tab, carriage return, backslash, quote
/// and the null character; any other escaped character is reported.
pub proof fn law_escape_characters(src: Seq<char>, cur: int)
    requires
        0 <= cur,
        cur + 2 < src.len(),
        src[cur] == '\\',
        src[cur + 2] == '\'',
    ensures
        src[cur + 1] == 'n' ==> scan_char_literal(src, cur) == CharScan::Scanned('\n', cur + 3),
        src[cur + 1] == 't' ==> scan_char_literal(src, cur) == CharScan::Scanned('\t', cur + 3),
        src[cur + 1] == 'r' ==> scan_char_literal(src, cur) == CharScan::Scanned('\r', cur + 3),
        src[cur + 1] == '\\' ==> scan_char_literal(src, cur) == CharScan::Scanned('\\', cur + 3),
        src[cur + 1] == '\'' ==> scan_char_literal(src, cur) == CharScan::Scanned('\'', cur + 3),
        src[cur + 1] == '0' ==> scan_char_literal(src, cur) == CharScan::Scanned('\0', cur + 3),
        !(src[cur + 1] == 'n' || src[cur + 1] == 't' || src[cur + 1] == 'r' || src[cur + 1] == '\\'
            || src[cur + 1] == '\'' || src[cur + 1] == '0') ==> scan_char_literal(src, cur)
            == CharScan::Failed("unknown escape sequence '\\"@.push(src[cur + 1]) + "'"@, cur + 2),
{
}

/// A literal left open is reported: at the end of the source, and where the
/// character (plain or escaped) is not followed by the closing quote.
pub proof fn law_unterminated_char_literal(src: Seq<char>, cur: int)
    requires
        0 <= cur,
    ensures
        cur + 1 >= src.len() ==> (scan_char_literal(src, cur) matches CharScan::Failed(m, _) && m
            == "unterminated character literal"@),
        (cur + 1 < src.len() && src[cur] != '\\' && src[cur + 1] != '\'') ==> scan_char_literal(src, cur)
            == CharScan::Failed("unterminated character literal"@, cur + 1),
{
}

/// Reading `items[n]` gives the `n`th item when `n` lies in the array, and
/// otherwise the error naming the index and the length.
pub proof fn law_array_indexing(
    items: Seq<ValueView>,
    n: i64,
    span: Span,
    target_span: Span,
    index_span: Span,
    src: Option<SourceFileView>,
)
    ensures
        0 <= n < items.len() ==> index_value(
            ValueView::Values(items),
            ValueView::Integer(n),
            span,
            target_span,
            index_span,
            src,
        ) == Ok::<ValueView, crate::errors::ErrorView>(items[n as int]),
        !(0 <= n < items.len()) ==> (index_value(
            ValueView::Values(items),
            ValueView::Integer(n),
            span,
            target_span,
            index_span,
            src,
        ) matches Err(e) && e.message == "index "@ + crate::text::int_to_decimal(n as int)
            + " out of bounds (len "@ + crate::text::nat_to_decimal(items.len()) + ")"@ && e.span == Some(span)),
{
}

/// Writing `v` at index `n` of an array replaces that item and keeps every
/// other one, when `n` lies in the array; otherwise it is the error naming the
/// index and the length.
pub proof fn law_array_write(items: Seq<ValueView>, n: i64, v: ValueView)
    ensures
        0 <= n < items.len() ==> set_path(ValueView::Values(items), seq![n], v) == Ok::<ValueView, Seq<char>>(
            ValueView::Values(items.update(n as int, v)),
        ),
        !(0 <= n < items.len()) ==> set_path(ValueView::Values(items), seq![n], v) == Err::<
            ValueView,
            Seq<char>,
        >(
            "index "@ + crate::text::int_to_decimal(n as int) + " out of bounds (len "@
                + crate::text::nat_to_decimal(items.len()) + ")"@,
        ),
{
    assert(seq![n].drop_first() =~= Seq::<i64>::empty());
    if 0 <= n < items.len() {
        assert(set_path(items[n as int], Seq::<i64>::empty(), v) == Ok::<ValueView, Seq<char>>(v));
    }
}

/// The literal expressions for `ns`, all at `span`.
pub open spec fn literals(ns: Seq<i64>, span: Span) -> Seq<ExprView> {
    Seq::new(ns.len(), |i: int| ExprView { kind: ExprKindView::Integer(ns[i]), span })
}

/// A list of expressions is evaluated item by item, in order: on integer
/// literals it gives their values in the same order, makes no host call and
/// leaves the bindings as they were.
pub proof fn law_list_keeps_order(
    env: Seq<BindingView>,
    ns: Seq<i64>,
    span: Span,
    cs: Seq<HostCall>,
    src: Option<SourceFileView>,
)
    ensures
        eval_list(env, literals(ns, span), cs, src) == (Outcome {
            result: Ok::<Seq<ValueView>, crate::errors::ErrorView>(Seq::new(ns.len(), |i: int| ValueView::Integer(ns[i]))),
            env,
            rest: cs,
            faithful: true,
        }),
    decreases ns.len(),
{
    let es = literals(ns, span);
    if ns.len() > 0 {
        let init = ns.subrange(0, ns.len() - 1);
        law_list_keeps_order(env, init, span, cs, src);
        assert(es.subrange(0, es.len() - 1) =~= literals(init, span));
        let vs0 = Seq::new(init.len(), |i: int| ValueView::Integer(init[i]));
        let last = es[es.len() - 1];
        assert(last == ExprView { kind: ExprKindView::Integer(ns[ns.len() - 1]), span });
        assert(eval(env, last, cs, src) == done(
            Ok::<ValueView, crate::errors::ErrorView>(ValueView::Integer(ns[ns.len() - 1])),
            env,
            cs,
        ));
        assert(vs0.push(ValueView::Integer(ns[ns.len() - 1])) =~= Seq::new(ns.len(), |i: int| ValueView::Integer(ns[i])));
    } else {
        assert(es.len() == 0);
        assert(Seq::new(ns.len(), |i: int| ValueView::Integer(ns[i])) =~= Seq::<ValueView>::empty());
    }
}

/// Evaluating `target[index]` evaluates the target, then (unless it failed)
/// the index from the bindings and calls it left, then reads the item.
pub proof fn law_indexing_composes(
    env: Seq<BindingView>,
    target: ExprView,
    index: ExprView,
    span: Span,
    cs: Seq<HostCall>,
    src: Option<SourceFileView>,
)
    ensures
        ({
            let o1 = eval(env, target, cs, src);
            let o2 = eval(o1.env, index, o1.rest, src);
            let x = eval(
                env,
                ExprView { kind: ExprKindView::Index { target: Box::new(target), index: Box::new(index) }, span },
                cs,
                src,
            );
            &&& o1.result is Err ==> x == o1
            &&& (o1.result is Ok && o2.result is Err) ==> (x.result == o2.result && x.env == o2.env && x.rest == o2.rest)
            &&& (o1.result is Ok && o2.result is Ok) ==> (x.result == index_value(
                o1.result->Ok_0,
                o2.result->Ok_0,
                span,
                target.span,
                index.span,
                src,
            ) && x.env == o2.env && x.rest == o2.rest)
        }),
{
}

} // verus!
