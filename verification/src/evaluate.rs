use vstd::prelude::*;

use crate::ast::{
    expr_models, lemma_expr_models_index, ExprKindView, ExprView, Expression, ExpressionKind,
};
use crate::environment::BindingView;
use crate::errors::{with_label_view, Error, ErrorView, SourceFileView};
use crate::evaluator::{
    assign_variable, call_result, read_variable, result_view, runtime_error,
    undefined_function_error, Evaluator, HostCall, Host,
};
use crate::operators::{binary_result, lift, unary_result};
use crate::span::Span;
use crate::text::{int_to_decimal, nat_to_decimal, push_i64, push_str, push_u64, string_of};
use crate::value::{kind_name_of, lemma_models_index, models, Value, ValueView};

verus! {

/// The result of running a piece of the program from some state: what it gave,
/// the bindings afterwards, the standard-library calls not yet consumed, and
/// whether every call consumed was made with the name and arguments the program
/// handed to it.
pub struct Outcome<T> {
    pub result: Result<T, ErrorView>,
    pub env: Seq<BindingView>,
    pub rest: Seq<HostCall>,
    pub faithful: bool,
}

/// The message for an index outside an array.
pub open spec fn out_of_bounds_message(n: i64, len: nat) -> Seq<char> {
    "index "@ + int_to_decimal(n as int) + " out of bounds (len "@ + nat_to_decimal(len) + ")"@
}

/// Reading `a[i]`: the element, or the error (with labels on both operands).
pub open spec fn index_value(
    a: ValueView,
    i: ValueView,
    span: Span,
    target_span: Span,
    index_span: Span,
    src: Option<SourceFileView>,
) -> Result<ValueView, ErrorView> {
    match (a, i) {
        (ValueView::Values(items), ValueView::Integer(n)) => {
            if 0 <= n < items.len() {
                Ok(items[n as int])
            } else {
                Err(
                    with_label_view(
                        runtime_error(out_of_bounds_message(n, items.len()), span, src),
                        target_span,
                        "this array has length "@ + nat_to_decimal(items.len()),
                    ),
                )
            }
        },
        _ => Err(
            with_label_view(
                with_label_view(
                    runtime_error("invalid index operation"@, span, src),
                    target_span,
                    "this is "@ + kind_name_of(a),
                ),
                index_span,
                "this is "@ + kind_name_of(i),
            ),
        ),
    }
}

/// `root` with the element at `path` (one index per nesting level) replaced by
/// `v`, or the message of the error.
pub open spec fn set_path(root: ValueView, path: Seq<i64>, v: ValueView) -> Result<ValueView, Seq<char>>
    decreases path.len(),
{
    if path.len() == 0 {
        Ok(v)
    } else {
        match root {
            ValueView::Values(items) => {
                let n = path[0];
                if 0 <= n < items.len() {
                    match set_path(items[n as int], path.drop_first(), v) {
                        Ok(x) => Ok(ValueView::Values(items.update(n as int, x))),
                        Err(m) => Err(m),
                    }
                } else {
                    Err(out_of_bounds_message(n, items.len()))
                }
            },
            _ => Err("invalid index operation"@),
        }
    }
}

/// `o` with its result replaced by `result` and its faithfulness by `faithful`.
pub open spec fn relabel<T, U>(o: Outcome<T>, result: Result<U, ErrorView>, faithful: bool) -> Outcome<U> {
    Outcome { result, env: o.env, rest: o.rest, faithful }
}

pub open spec fn done<T>(result: Result<T, ErrorView>, env: Seq<BindingView>, rest: Seq<HostCall>) -> Outcome<T> {
    Outcome { result, env, rest, faithful: true }
}

/// Evaluating an expression: the value (or error), the bindings after its
/// assignments, and the calls it consumed from `cs`, left to right.
pub open spec fn eval(
    env: Seq<BindingView>,
    e: ExprView,
    cs: Seq<HostCall>,
    src: Option<SourceFileView>,
) -> Outcome<ValueView>
    decreases e, 1int,
{
    match e.kind {
        ExprKindView::Integer(i) => done(Ok(ValueView::Integer(i)), env, cs),
        ExprKindView::Str(s) => done(Ok(ValueView::Str(s)), env, cs),
        ExprKindView::Bool(b) => done(Ok(ValueView::Bool(b)), env, cs),
        ExprKindView::Character(c) => done(Ok(ValueView::Char(c)), env, cs),
        ExprKindView::Index { target, index } => {
            let o1 = eval(env, *target, cs, src);
            match o1.result {
                Err(x) => relabel(o1, Err(x), o1.faithful),
                Ok(a) => {
                    let o2 = eval(o1.env, *index, o1.rest, src);
                    let f = o1.faithful && o2.faithful;
                    match o2.result {
                        Err(x) => relabel(o2, Err(x), f),
                        Ok(i) => relabel(
                            o2,
                            index_value(a, i, e.span, target.span, index.span, src),
                            f,
                        ),
                    }
                },
            }
        },
        ExprKindView::ArrayLiteral(items) => {
            let o = eval_list(env, items, cs, src);
            match o.result {
                Err(x) => relabel(o, Err(x), o.faithful),
                Ok(vs) => relabel(o, Ok(ValueView::Values(vs)), o.faithful),
            }
        },
        ExprKindView::IndexAssign { .. } => eval_index_assign(env, e, cs, src),
        ExprKindView::Grouping(inner) => eval(env, *inner, cs, src),
        ExprKindView::Binary { left, operator, right } => {
            let o1 = eval(env, *left, cs, src);
            match o1.result {
                Err(x) => relabel(o1, Err(x), o1.faithful),
                Ok(l) => {
                    let o2 = eval(o1.env, *right, o1.rest, src);
                    let f = o1.faithful && o2.faithful;
                    match o2.result {
                        Err(x) => relabel(o2, Err(x), f),
                        Ok(r) => relabel(o2, lift(binary_result(operator, l, r), e.span, src), f),
                    }
                },
            }
        },
        ExprKindView::Unary { operator, operand } => {
            let o = eval(env, *operand, cs, src);
            match o.result {
                Err(x) => relabel(o, Err(x), o.faithful),
                Ok(v) => relabel(o, lift(unary_result(operator, v), e.span, src), o.faithful),
            }
        },
        ExprKindView::Identifier(name) => done(read_variable(env, name, e.span, src), env, cs),
        ExprKindView::Assign { name, value } => {
            let o = eval(env, *value, cs, src);
            match o.result {
                Err(x) => relabel(o, Err(x), o.faithful),
                Ok(v) => match assign_variable(o.env, name, v, e.span, src) {
                    Ok(env2) => Outcome { result: Ok(v), env: env2, rest: o.rest, faithful: o.faithful },
                    Err(x) => relabel(o, Err(x), o.faithful),
                },
            }
        },
        ExprKindView::Call { name, args } => {
            let o = eval_list(env, args, cs, src);
            match o.result {
                Err(x) => relabel(o, Err(x), o.faithful),
                Ok(vs) => {
                    if o.rest.len() == 0 {
                        relabel(o, Err(undefined_function_error(name, Seq::empty(), e.span, src)), false)
                    } else {
                        let c = o.rest[0];
                        Outcome {
                            result: call_result(name, c.reply, e.span, src),
                            env: o.env,
                            rest: o.rest.drop_first(),
                            faithful: o.faithful && c.name == name && c.args == vs,
                        }
                    }
                },
            }
        },
    }
}

/// Evaluating expressions left to right, stopping at the first error.
pub open spec fn eval_list(
    env: Seq<BindingView>,
    es: Seq<ExprView>,
    cs: Seq<HostCall>,
    src: Option<SourceFileView>,
) -> Outcome<Seq<ValueView>>
    decreases es, 0int,
{
    if es.len() == 0 {
        done(Ok(Seq::empty()), env, cs)
    } else {
        let o1 = eval_list(env, es.subrange(0, es.len() - 1), cs, src);
        match o1.result {
            Err(x) => relabel(o1, Err(x), o1.faithful),
            Ok(vs) => {
                let o2 = eval(o1.env, es[es.len() - 1], o1.rest, src);
                let f = o1.faithful && o2.faithful;
                match o2.result {
                    Err(x) => relabel(o2, Err(x), f),
                    Ok(v) => relabel(o2, Ok(vs.push(v)), f),
                }
            },
        }
    }
}

/// Resolving the place an indexed assignment writes to: the variable at the root
/// of the chain of indexings, and the indices from the outermost array inwards.
pub open spec fn resolve_target(
    env: Seq<BindingView>,
    t: ExprView,
    cs: Seq<HostCall>,
    src: Option<SourceFileView>,
) -> Outcome<(Seq<char>, Seq<i64>)>
    decreases t, 1int,
{
    match t.kind {
        ExprKindView::Identifier(name) => done(Ok((name, Seq::empty())), env, cs),
        ExprKindView::Index { target, index } => {
            let o1 = resolve_target(env, *target, cs, src);
            match o1.result {
                Err(x) => relabel(o1, Err(x), o1.faithful),
                Ok((name, path)) => {
                    let o2 = eval(o1.env, *index, o1.rest, src);
                    let f = o1.faithful && o2.faithful;
                    match o2.result {
                        Err(x) => relabel(o2, Err(x), f),
                        Ok(ValueView::Integer(n)) => relabel(o2, Ok((name, path.push(n))), f),
                        Ok(_) => relabel(
                            o2,
                            Err(runtime_error("invalid index operation"@, index.span, src)),
                            f,
                        ),
                    }
                },
            }
        },
        _ => done(Err(runtime_error("invalid assignment target"@, t.span, src)), env, cs),
    }
}

/// Evaluating `target[index] = value`: the place, then the value; the variable at
/// the root is then rebound to its updated contents, and the value is the result.
pub open spec fn eval_index_assign(
    env: Seq<BindingView>,
    e: ExprView,
    cs: Seq<HostCall>,
    src: Option<SourceFileView>,
) -> Outcome<ValueView>
    decreases e, 0int,
{
    match e.kind {
        ExprKindView::IndexAssign { target, index, value } => {
            let o1 = resolve_target(env, *target, cs, src);
            match o1.result {
                Err(x) => relabel(o1, Err(x), o1.faithful),
                Ok((name, path0)) => {
                    let o2 = eval(o1.env, *index, o1.rest, src);
                    let f2 = o1.faithful && o2.faithful;
                    match o2.result {
                        Err(x) => relabel(o2, Err(x), f2),
                        Ok(ValueView::Integer(n)) => {
                            let o3 = eval(o2.env, *value, o2.rest, src);
                            let f3 = f2 && o3.faithful;
                            match o3.result {
                                Err(x) => relabel(o3, Err(x), f3),
                                Ok(v) => store(o3, name, path0.push(n), v, e.span, src, f3),
                            }
                        },
                        Ok(_) => relabel(
                            o2,
                            Err(runtime_error("invalid index operation"@, index.span, src)),
                            f2,
                        ),
                    }
                },
            }
        },
        _ => done(Err(runtime_error("invalid assignment target"@, e.span, src)), env, cs),
    }
}

/// Writing `v` at `path` inside the variable `name`, after the evaluation `o`.
pub open spec fn store(
    o: Outcome<ValueView>,
    name: Seq<char>,
    path: Seq<i64>,
    v: ValueView,
    span: Span,
    src: Option<SourceFileView>,
    f: bool,
) -> Outcome<ValueView> {
    let (r, env2) = write_path(o.env, name, path, v, span, src);
    Outcome { result: r, env: env2, rest: o.rest, faithful: f }
}

/// Writing `v` at `path` inside the variable `name`: the value written (or the
/// error) and the bindings afterwards.
pub open spec fn write_path(
    env: Seq<BindingView>,
    name: Seq<char>,
    path: Seq<i64>,
    v: ValueView,
    span: Span,
    src: Option<SourceFileView>,
) -> (Result<ValueView, ErrorView>, Seq<BindingView>) {
    match read_variable(env, name, span, src) {
        Err(x) => (Err(x), env),
        Ok(root) => match set_path(root, path, v) {
            Err(m) => (Err(runtime_error(m, span, src)), env),
            Ok(u) => match assign_variable(env, name, u, span, src) {
                Err(x) => (Err(x), env),
                Ok(env4) => (Ok(v), env4),
            },
        },
    }
}

/// Whether the call log `b` continues the call log `a`.
pub open spec fn extends(a: Seq<HostCall>, b: Seq<HostCall>) -> bool {
    a.len() <= b.len() && b.take(a.len() as int) == a
}

/// The calls logged in `b` after those of `a`.
pub open spec fn made_since(a: Seq<HostCall>, b: Seq<HostCall>) -> Seq<HostCall> {
    b.skip(a.len() as int)
}

pub proof fn lemma_chain(c0: Seq<HostCall>, c1: Seq<HostCall>, c2: Seq<HostCall>)
    requires
        extends(c0, c1),
        extends(c1, c2),
    ensures
        extends(c0, c2),
        forall|extra: Seq<HostCall>|
            #![trigger made_since(c0, c2) + extra]
            made_since(c0, c2) + extra == made_since(c0, c1) + (made_since(c1, c2) + extra),
{
    assert(c2.take(c0.len() as int) =~= c0) by {
        assert forall|i: int| 0 <= i < c0.len() implies c2.take(c0.len() as int)[i] == c0[i] by {
            assert(c2.take(c1.len() as int)[i] == c2[i]);
            assert(c1.take(c0.len() as int)[i] == c1[i]);
        }
    }
    assert(made_since(c0, c2) =~= made_since(c0, c1) + made_since(c1, c2)) by {
        assert forall|i: int| 0 <= i < made_since(c0, c2).len() implies made_since(c0, c2)[i]
            == (made_since(c0, c1) + made_since(c1, c2))[i] by {
            if i < c1.len() - c0.len() {
                assert(c2.take(c1.len() as int)[c0.len() + i] == c2[c0.len() + i]);
            }
        }
    }
    assert forall|extra: Seq<HostCall>|
        #![trigger made_since(c0, c2) + extra]
        made_since(c0, c2) + extra == made_since(c0, c1) + (made_since(c1, c2) + extra) by {
        assert(made_since(c0, c2) + extra =~= made_since(c0, c1) + (made_since(c1, c2) + extra));
    }
}

pub proof fn lemma_none_made(c: Seq<HostCall>)
    ensures
        extends(c, c),
        forall|extra: Seq<HostCall>| #![trigger made_since(c, c) + extra] made_since(c, c) + extra == extra,
{
    assert(c.take(c.len() as int) =~= c);
    assert forall|extra: Seq<HostCall>| #![trigger made_since(c, c) + extra] made_since(c, c) + extra == extra by {
        assert(made_since(c, c) + extra =~= extra);
    }
}

pub open spec fn pair_view(r: Result<(String, Vec<i64>), Error>) -> Result<(Seq<char>, Seq<i64>), ErrorView> {
    match r {
        Ok((s, p)) => Ok((s@, p@)),
        Err(e) => Err(e@),
    }
}

pub open spec fn list_view(r: Result<Vec<Value>, Error>) -> Result<Seq<ValueView>, ErrorView> {
    match r {
        Ok(vs) => Ok(models(vs@)),
        Err(e) => Err(e@),
    }
}

/// The message for an index outside an array.
fn out_of_bounds_text(n: i64, len: usize) -> (s: String)
    ensures
        s@ == out_of_bounds_message(n, len as nat),
{
    let mut s = String::new();
    push_str(&mut s, "index ");
    push_i64(&mut s, n);
    push_str(&mut s, " out of bounds (len ");
    push_u64(&mut s, len as u64);
    push_str(&mut s, ")");
    proof {
        assert(s@ =~= out_of_bounds_message(n, len as nat));
    }
    s
}

/// `root` with the element at `path[start..]` replaced by `v`.
fn set_path_exec(root: Value, path: &Vec<i64>, start: usize, v: Value) -> (r: Result<Value, String>)
    requires
        start <= path.len(),
    ensures
        match r {
            Ok(x) => set_path(root@, path@.skip(start as int), v@) == Ok::<ValueView, Seq<char>>(x@),
            Err(m) => set_path(root@, path@.skip(start as int), v@) == Err::<ValueView, Seq<char>>(m@),
        },
    decreases path.len() - start,
{
    if start == path.len() {
        proof {
            assert(path@.skip(start as int).len() == 0);
        }
        return Ok(v);
    }
    proof {
        assert(path@.skip(start as int)[0] == path@[start as int]);
        assert(path@.skip(start as int).drop_first() =~= path@.skip(start + 1));
    }
    match root {
        Value::Values(mut items) => {
            let ghost before = items@;
            proof {
                lemma_models_index(before);
            }
            let n = path[start];
            if n < 0 || (n as u64) >= (items.len() as u64) {
                return Err(out_of_bounds_text(n, items.len()));
            }
            let idx = n as usize;
            let child = items.remove(idx);
            match set_path_exec(child, path, start + 1, v) {
                Ok(nc) => {
                    let ghost ncv = nc@;
                    items.insert(idx, nc);
                    proof {
                        assert(items@ =~= before.update(idx as int, items@[idx as int]));
                        lemma_models_index(items@);
                        assert(models(items@) =~= models(before).update(idx as int, ncv));
                    }
                    Ok(Value::Values(items))
                },
                Err(m) => Err(m),
            }
        },
        _ => Err(string_of("invalid index operation")),
    }
}

impl Evaluator {
    /// Reads `arr[idx]`, reporting a bad index or operand kind at `span`.
    fn index_into(&self, arr: &Value, idx: &Value, span: Span, target_span: Span, index_span: Span) -> (r:
        Result<Value, Error>)
        ensures
            result_view(r) == index_value(arr@, idx@, span, target_span, index_span, self.src()),
    {
        match (arr, idx) {
            (Value::Values(items), Value::Integer(i)) => {
                let i = *i;
                proof {
                    lemma_models_index(items@);
                }
                if i < 0 || (i as u64) >= (items.len() as u64) {
                    let mut label = string_of("this array has length ");
                    push_u64(&mut label, items.len() as u64);
                    return Err(
                        self.err(out_of_bounds_text(i, items.len()), span).with_label(target_span, label),
                    );
                }
                Ok(items[i as usize].duplicate())
            },
            _ => {
                let mut l1 = string_of("this is ");
                push_str(&mut l1, arr.kind_name());
                let mut l2 = string_of("this is ");
                push_str(&mut l2, idx.kind_name());
                Err(
                    self.err(string_of("invalid index operation"), span).with_label(
                        target_span,
                        l1,
                    ).with_label(index_span, l2),
                )
            },
        }
    }

    /// Writes `v` at `path` inside the variable `name`.
    fn write_path(&mut self, name: String, path: &Vec<i64>, v: &Value, span: Span) -> (r: Result<
        Value,
        Error,
    >)
        ensures
            (result_view(r), final(self).env()) == write_path(
                old(self).env(),
                name@,
                path@,
                v@,
                span,
                old(self).src(),
            ),
            final(self).source_file == old(self).source_file,
    {
        let root = match self.get_value(name.as_str(), span) {
            Ok(x) => x,
            Err(e) => return Err(e),
        };
        proof {
            assert(path@.skip(0) =~= path@);
        }
        let updated = match set_path_exec(root, path, 0, v.duplicate()) {
            Ok(u) => u,
            Err(m) => return Err(self.err(m, span)),
        };
        match self.insert_value(name, updated, span) {
            Ok(()) => Ok(v.duplicate()),
            Err(e) => Err(e),
        }
    }
}

/// What a run of `evaluate` from `env0` and call log `c0` to `env1` and call log
/// `c1` means: the calls logged in between, followed by any others, make `eval`
/// give `r` and leave the others unconsumed.
pub open spec fn evaluated(
    env0: Seq<BindingView>,
    e: ExprView,
    c0: Seq<HostCall>,
    c1: Seq<HostCall>,
    src: Option<SourceFileView>,
    r: Result<ValueView, ErrorView>,
    env1: Seq<BindingView>,
) -> bool {
    &&& extends(c0, c1)
    &&& forall|extra: Seq<HostCall>|
        #[trigger] eval(env0, e, made_since(c0, c1) + extra, src) == (Outcome {
            result: r,
            env: env1,
            rest: extra,
            faithful: true,
        })
}

impl Evaluator {
    /// Evaluates `expression`, taking the answers to its calls from `host`.
    ///
    /// The calls made are appended to the call log; replaying `eval` on the
    /// calls made gives exactly this result and these bindings.
    pub fn evaluate(&mut self, expression: &Expression, host: &mut Host) -> (r: Result<
        Value,
        Error,
    >)
        requires
            old(host).wf(),
        ensures
            final(host).wf(),
            final(host).answers == old(host).answers,
            final(self).source_file == old(self).source_file,
            evaluated(
                old(self).env(),
                expression@,
                old(host).calls@,
                final(host).calls@,
                old(self).src(),
                result_view(r),
                final(self).env(),
            ),
        decreases expression, 1int,
    {
        let ghost c0 = host.calls@;
        let ghost env0 = self.env();
        let ghost src = self.src();
        let ghost e = expression@;
        match &expression.kind {
            ExpressionKind::Index { .. } => self.eval_index(expression, host),
            ExpressionKind::ArrayLiteral(..) => self.eval_array(expression, host),
            ExpressionKind::IndexAssign { .. } => self.eval_index_assign(expression, host),
            ExpressionKind::Binary { .. } => self.eval_binary(expression, host),
            ExpressionKind::Unary { .. } => self.eval_unary(expression, host),
            ExpressionKind::Assign { .. } => self.eval_assign(expression, host),
            ExpressionKind::Call { .. } => self.eval_call(expression, host),
            ExpressionKind::Grouping(inner) => {
                let r = self.evaluate(inner, host);
                proof {
                    assert forall|extra: Seq<HostCall>| #[trigger]
                        eval(env0, e, made_since(c0, host.calls@) + extra, src) == (Outcome {
                            result: result_view(r),
                            env: self.env(),
                            rest: extra,
                            faithful: true,
                        }) by {
                        assert(eval(env0, e, made_since(c0, host.calls@) + extra, src) == eval(
                            env0,
                            inner.model(),
                            made_since(c0, host.calls@) + extra,
                            src,
                        ));
                    }
                }
                r
            },
            _ => {
                let r = match &expression.kind {
                    ExpressionKind::Integer(i) => Ok(Value::Integer(*i)),
                    ExpressionKind::String(s) => Ok(Value::String(crate::text::copy_string(s))),
                    ExpressionKind::Bool(b) => Ok(Value::Bool(*b)),
                    ExpressionKind::Character(c) => Ok(Value::Char(*c)),
                    ExpressionKind::Identifier(name) => self.get_value(name.as_str(), expression.span),
                    _ => {
                        proof {
                            assert(false);
                        }
                        Err(self.err(string_of(""), expression.span))
                    },
                };
                proof {
                    lemma_none_made(c0);
                    assert forall|extra: Seq<HostCall>| #[trigger]
                        eval(env0, e, made_since(c0, host.calls@) + extra, src) == (Outcome {
                            result: result_view(r),
                            env: self.env(),
                            rest: extra,
                            faithful: true,
                        }) by {
                        assert(made_since(c0, c0) + extra == extra);
                    }
                }
                r
            },
        }
    }

    fn eval_index(&mut self, expression: &Expression, host: &mut Host) -> (r: Result<
        Value,
        Error,
    >)
        requires
            old(host).wf(),
            expression.kind is Index,
        ensures
            final(host).wf(),
            final(host).answers == old(host).answers,
            final(self).source_file == old(self).source_file,
            evaluated(
                old(self).env(),
                expression@,
                old(host).calls@,
                final(host).calls@,
                old(self).src(),
                result_view(r),
                final(self).env(),
            ),
        decreases expression, 0int,
    {
        let ghost c0 = host.calls@;
        let ghost env0 = self.env();
        let ghost src = self.src();
        let ghost e = expression@;
        match &expression.kind {
            ExpressionKind::Index { target, index } => {
                let ghost tv = target.model();
                let ghost iv = index.model();
                let arr = match self.evaluate(target, host) {
                    Ok(v) => v,
                    Err(x) => {
                        proof {
                            assert forall|extra: Seq<HostCall>| #[trigger]
                                eval(env0, e, made_since(c0, host.calls@) + extra, src) == (Outcome {
                                    result: Err::<ValueView, ErrorView>(x@),
                                    env: self.env(),
                                    rest: extra,
                                    faithful: true,
                                }) by {
                                let o1 = eval(env0, tv, made_since(c0, host.calls@) + extra, src);
                                assert(o1.result == Err::<ValueView, ErrorView>(x@));
                            }
                        }
                        return Err(x);
                    },
                };
                let ghost c1 = host.calls@;
                let ghost env1 = self.env();
                let idx = match self.evaluate(index, host) {
                    Ok(v) => v,
                    Err(x) => {
                        proof {
                            lemma_chain(c0, c1, host.calls@);
                            assert forall|extra: Seq<HostCall>| #[trigger]
                                eval(env0, e, made_since(c0, host.calls@) + extra, src) == (Outcome {
                                    result: Err::<ValueView, ErrorView>(x@),
                                    env: self.env(),
                                    rest: extra,
                                    faithful: true,
                                }) by {
                                let rest1 = made_since(c1, host.calls@) + extra;
                                assert(made_since(c0, host.calls@) + extra == made_since(c0, c1) + rest1);
                                let o1 = eval(env0, tv, made_since(c0, c1) + rest1, src);
                                assert(o1.result == Ok::<ValueView, ErrorView>(arr@));
                                assert(o1.env == env1 && o1.rest == rest1 && o1.faithful);
                                let o2 = eval(env1, iv, rest1, src);
                                assert(o2.result == Err::<ValueView, ErrorView>(x@));
                            }
                        }
                        return Err(x);
                    },
                };
                let ghost c2 = host.calls@;
                let ghost env2 = self.env();
                let r = self.index_into(&arr, &idx, expression.span, target.span, index.span);
                proof {
                    lemma_chain(c0, c1, c2);
                    assert forall|extra: Seq<HostCall>| #[trigger]
                        eval(env0, e, made_since(c0, host.calls@) + extra, src) == (Outcome {
                            result: result_view(r),
                            env: self.env(),
                            rest: extra,
                            faithful: true,
                        }) by {
                        let rest1 = made_since(c1, c2) + extra;
                        assert(made_since(c0, c2) + extra == made_since(c0, c1) + rest1);
                        let o1 = eval(env0, tv, made_since(c0, c1) + rest1, src);
                        assert(o1.result == Ok::<ValueView, ErrorView>(arr@));
                        assert(o1.env == env1 && o1.rest == rest1 && o1.faithful);
                        let o2 = eval(env1, iv, rest1, src);
                        assert(o2.result == Ok::<ValueView, ErrorView>(idx@));
                        assert(o2.env == env2 && o2.rest == extra && o2.faithful);
                    }
                }
                r
            },
            _ => {
                proof {
                    assert(false);
                }
                Err(self.err(string_of(""), expression.span))
            },
        }
    }

    fn eval_binary(&mut self, expression: &Expression, host: &mut Host) -> (r: Result<
        Value,
        Error,
    >)
        requires
            old(host).wf(),
            expression.kind is Binary,
        ensures
            final(host).wf(),
            final(host).answers == old(host).answers,
            final(self).source_file == old(self).source_file,
            evaluated(
                old(self).env(),
                expression@,
                old(host).calls@,
                final(host).calls@,
                old(self).src(),
                result_view(r),
                final(self).env(),
            ),
        decreases expression, 0int,
    {
        let ghost c0 = host.calls@;
        let ghost env0 = self.env();
        let ghost src = self.src();
        let ghost e = expression@;
        match &expression.kind {
            ExpressionKind::Binary { left, operator, right } => {
                let ghost lv = left.model();
                let ghost rv = right.model();
                let a = match self.evaluate(left, host) {
                    Ok(v) => v,
                    Err(x) => {
                        proof {
                            assert forall|extra: Seq<HostCall>| #[trigger]
                                eval(env0, e, made_since(c0, host.calls@) + extra, src) == (Outcome {
                                    result: Err::<ValueView, ErrorView>(x@),
                                    env: self.env(),
                                    rest: extra,
                                    faithful: true,
                                }) by {
                                let o1 = eval(env0, lv, made_since(c0, host.calls@) + extra, src);
                                assert(o1.result == Err::<ValueView, ErrorView>(x@));
                            }
                        }
                        return Err(x);
                    },
                };
                let ghost c1 = host.calls@;
                let ghost env1 = self.env();
                let b = match self.evaluate(right, host) {
                    Ok(v) => v,
                    Err(x) => {
                        proof {
                            lemma_chain(c0, c1, host.calls@);
                            assert forall|extra: Seq<HostCall>| #[trigger]
                                eval(env0, e, made_since(c0, host.calls@) + extra, src) == (Outcome {
                                    result: Err::<ValueView, ErrorView>(x@),
                                    env: self.env(),
                                    rest: extra,
                                    faithful: true,
                                }) by {
                                let rest1 = made_since(c1, host.calls@) + extra;
                                assert(made_since(c0, host.calls@) + extra == made_since(c0, c1) + rest1);
                                let o1 = eval(env0, lv, made_since(c0, c1) + rest1, src);
                                assert(o1.result == Ok::<ValueView, ErrorView>(a@));
                                assert(o1.env == env1 && o1.rest == rest1 && o1.faithful);
                                let o2 = eval(env1, rv, rest1, src);
                                assert(o2.result == Err::<ValueView, ErrorView>(x@));
                            }
                        }
                        return Err(x);
                    },
                };
                let ghost c2 = host.calls@;
                let ghost env2 = self.env();
                let ghost av = a@;
                let ghost bv = b@;
                let r = self.match_binary_operator(a, b, operator, expression.span);
                proof {
                    lemma_chain(c0, c1, c2);
                    assert forall|extra: Seq<HostCall>| #[trigger]
                        eval(env0, e, made_since(c0, host.calls@) + extra, src) == (Outcome {
                            result: result_view(r),
                            env: self.env(),
                            rest: extra,
                            faithful: true,
                        }) by {
                        let rest1 = made_since(c1, c2) + extra;
                        assert(made_since(c0, c2) + extra == made_since(c0, c1) + rest1);
                        let o1 = eval(env0, lv, made_since(c0, c1) + rest1, src);
                        assert(o1.result == Ok::<ValueView, ErrorView>(av));
                        assert(o1.env == env1 && o1.rest == rest1 && o1.faithful);
                        let o2 = eval(env1, rv, rest1, src);
                        assert(o2.result == Ok::<ValueView, ErrorView>(bv));
                        assert(o2.env == env2 && o2.rest == extra && o2.faithful);
                    }
                }
                r
            },
            _ => {
                proof {
                    assert(false);
                }
                Err(self.err(string_of(""), expression.span))
            },
        }
    }

    fn eval_unary(&mut self, expression: &Expression, host: &mut Host) -> (r: Result<
        Value,
        Error,
    >)
        requires
            old(host).wf(),
            expression.kind is Unary,
        ensures
            final(host).wf(),
            final(host).answers == old(host).answers,
            final(self).source_file == old(self).source_file,
            evaluated(
                old(self).env(),
                expression@,
                old(host).calls@,
                final(host).calls@,
                old(self).src(),
                result_view(r),
                final(self).env(),
            ),
        decreases expression, 0int,
    {
        let ghost c0 = host.calls@;
        let ghost env0 = self.env();
        let ghost src = self.src();
        let ghost e = expression@;
        match &expression.kind {
            ExpressionKind::Unary { operator, operand } => {
                let ghost ov = operand.model();
                let a = match self.evaluate(operand, host) {
                    Ok(v) => v,
                    Err(x) => {
                        proof {
                            assert forall|extra: Seq<HostCall>| #[trigger]
                                eval(env0, e, made_since(c0, host.calls@) + extra, src) == (Outcome {
                                    result: Err::<ValueView, ErrorView>(x@),
                                    env: self.env(),
                                    rest: extra,
                                    faithful: true,
                                }) by {
                                let o1 = eval(env0, ov, made_since(c0, host.calls@) + extra, src);
                                assert(o1.result == Err::<ValueView, ErrorView>(x@));
                            }
                        }
                        return Err(x);
                    },
                };
                let ghost c1 = host.calls@;
                let ghost env1 = self.env();
                let ghost av = a@;
                let r = self.match_unary_operator(a, operator, expression.span);
                proof {
                    assert forall|extra: Seq<HostCall>| #[trigger]
                        eval(env0, e, made_since(c0, host.calls@) + extra, src) == (Outcome {
                            result: result_view(r),
                            env: self.env(),
                            rest: extra,
                            faithful: true,
                        }) by {
                        let o1 = eval(env0, ov, made_since(c0, c1) + extra, src);
                        assert(o1.result == Ok::<ValueView, ErrorView>(av));
                        assert(o1.env == env1 && o1.rest == extra && o1.faithful);
                    }
                }
                r
            },
            _ => {
                proof {
                    assert(false);
                }
                Err(self.err(string_of(""), expression.span))
            },
        }
    }

    fn eval_assign(&mut self, expression: &Expression, host: &mut Host) -> (r: Result<
        Value,
        Error,
    >)
        requires
            old(host).wf(),
            expression.kind is Assign,
        ensures
            final(host).wf(),
            final(host).answers == old(host).answers,
            final(self).source_file == old(self).source_file,
            evaluated(
                old(self).env(),
                expression@,
                old(host).calls@,
                final(host).calls@,
                old(self).src(),
                result_view(r),
                final(self).env(),
            ),
        decreases expression, 0int,
    {
        let ghost c0 = host.calls@;
        let ghost env0 = self.env();
        let ghost src = self.src();
        let ghost e = expression@;
        match &expression.kind {
            ExpressionKind::Assign { name, value } => {
                let ghost vv = value.model();
                let a = match self.evaluate(value, host) {
                    Ok(v) => v,
                    Err(x) => {
                        proof {
                            assert forall|extra: Seq<HostCall>| #[trigger]
                                eval(env0, e, made_since(c0, host.calls@) + extra, src) == (Outcome {
                                    result: Err::<ValueView, ErrorView>(x@),
                                    env: self.env(),
                                    rest: extra,
                                    faithful: true,
                                }) by {
                                let o1 = eval(env0, vv, made_since(c0, host.calls@) + extra, src);
                                assert(o1.result == Err::<ValueView, ErrorView>(x@));
                            }
                        }
                        return Err(x);
                    },
                };
                let ghost c1 = host.calls@;
                let ghost env1 = self.env();
                let ghost av = a@;
                let stored = a.duplicate();
                let r = match self.insert_value(crate::text::copy_string(name), stored, expression.span) {
                    Ok(()) => Ok(a),
                    Err(x) => Err(x),
                };
                proof {
                    assert forall|extra: Seq<HostCall>| #[trigger]
                        eval(env0, e, made_since(c0, host.calls@) + extra, src) == (Outcome {
                            result: result_view(r),
                            env: self.env(),
                            rest: extra,
                            faithful: true,
                        }) by {
                        let o1 = eval(env0, vv, made_since(c0, c1) + extra, src);
                        assert(o1.result == Ok::<ValueView, ErrorView>(av));
                        assert(o1.env == env1 && o1.rest == extra && o1.faithful);
                    }
                }
                r
            },
            _ => {
                proof {
                    assert(false);
                }
                Err(self.err(string_of(""), expression.span))
            },
        }
    }

    fn eval_array(&mut self, expression: &Expression, host: &mut Host) -> (r: Result<
        Value,
        Error,
    >)
        requires
            old(host).wf(),
            expression.kind is ArrayLiteral,
        ensures
            final(host).wf(),
            final(host).answers == old(host).answers,
            final(self).source_file == old(self).source_file,
            evaluated(
                old(self).env(),
                expression@,
                old(host).calls@,
                final(host).calls@,
                old(self).src(),
                result_view(r),
                final(self).env(),
            ),
        decreases expression, 0int,
    {
        let ghost c0 = host.calls@;
        let ghost env0 = self.env();
        let ghost src = self.src();
        let ghost e = expression@;
        match &expression.kind {
            ExpressionKind::ArrayLiteral(items) => {
                let ghost ivs = expr_models(items@);
                let r = match self.evaluate_list(items, host) {
                    Ok(values) => Ok(Value::Values(values)),
                    Err(x) => Err(x),
                };
                proof {
                    assert forall|extra: Seq<HostCall>| #[trigger]
                        eval(env0, e, made_since(c0, host.calls@) + extra, src) == (Outcome {
                            result: result_view(r),
                            env: self.env(),
                            rest: extra,
                            faithful: true,
                        }) by {
                        let o = eval_list(env0, ivs, made_since(c0, host.calls@) + extra, src);
                        assert(o.env == self.env() && o.rest == extra && o.faithful);
                    }
                }
                r
            },
            _ => {
                proof {
                    assert(false);
                }
                Err(self.err(string_of(""), expression.span))
            },
        }
    }

    fn eval_call(&mut self, expression: &Expression, host: &mut Host) -> (r: Result<
        Value,
        Error,
    >)
        requires
            old(host).wf(),
            expression.kind is Call,
        ensures
            final(host).wf(),
            final(host).answers == old(host).answers,
            final(self).source_file == old(self).source_file,
            evaluated(
                old(self).env(),
                expression@,
                old(host).calls@,
                final(host).calls@,
                old(self).src(),
                result_view(r),
                final(self).env(),
            ),
        decreases expression, 0int,
    {
        let ghost c0 = host.calls@;
        let ghost env0 = self.env();
        let ghost src = self.src();
        let ghost e = expression@;
        match &expression.kind {
            ExpressionKind::Call { name, args } => {
                let ghost avs = expr_models(args@);
                let values = match self.evaluate_list(args, host) {
                    Ok(vs) => vs,
                    Err(x) => {
                        proof {
                            assert forall|extra: Seq<HostCall>| #[trigger]
                                eval(env0, e, made_since(c0, host.calls@) + extra, src) == (Outcome {
                                    result: Err::<ValueView, ErrorView>(x@),
                                    env: self.env(),
                                    rest: extra,
                                    faithful: true,
                                }) by {
                                let o = eval_list(env0, avs, made_since(c0, host.calls@) + extra, src);
                                assert(o.result == Err::<Seq<ValueView>, ErrorView>(x@));
                            }
                        }
                        return Err(x);
                    },
                };
                let ghost c1 = host.calls@;
                let ghost env1 = self.env();
                let ghost vs = models(values@);
                let r = self.call_function(name.as_str(), values, expression.span, host);
                let ghost c2 = host.calls@;
                proof {
                    let entry = c2.last();
                    assert(c2.take(c1.len() as int) =~= c1);
                    assert(made_since(c1, c2) =~= seq![entry]);
                    assert(extends(c1, c2));
                    lemma_chain(c0, c1, c2);
                    assert forall|extra: Seq<HostCall>| #[trigger]
                        eval(env0, e, made_since(c0, c2) + extra, src) == (Outcome {
                            result: result_view(r),
                            env: self.env(),
                            rest: extra,
                            faithful: true,
                        }) by {
                        let tail = made_since(c1, c2) + extra;
                        assert(made_since(c0, c2) + extra == made_since(c0, c1) + tail);
                        let o = eval_list(env0, avs, made_since(c0, c1) + tail, src);
                        assert(o.result == Ok::<Seq<ValueView>, ErrorView>(vs));
                        assert(o.env == env1 && o.rest == tail && o.faithful);
                        assert(tail.len() > 0);
                        assert(tail[0] == entry);
                        assert(tail.drop_first() =~= extra);
                    }
                }
                r
            },
            _ => {
                proof {
                    assert(false);
                }
                Err(self.err(string_of(""), expression.span))
            },
        }
    }

    fn eval_index_assign(&mut self, expression: &Expression, host: &mut Host) -> (r: Result<
        Value,
        Error,
    >)
        requires
            old(host).wf(),
            expression.kind is IndexAssign,
        ensures
            final(host).wf(),
            final(host).answers == old(host).answers,
            final(self).source_file == old(self).source_file,
            evaluated(
                old(self).env(),
                expression@,
                old(host).calls@,
                final(host).calls@,
                old(self).src(),
                result_view(r),
                final(self).env(),
            ),
        decreases expression, 0int,
    {
        let ghost c0 = host.calls@;
        let ghost env0 = self.env();
        let ghost src = self.src();
        let ghost e = expression@;
        match &expression.kind {
            ExpressionKind::IndexAssign { target, index, value } => {
                let ghost tv = target.model();
                let ghost iv = index.model();
                let ghost vv = value.model();
                let (name, mut path) = match self.resolve_target(target, host) {
                    Ok(p) => p,
                    Err(x) => {
                        proof {
                            assert forall|extra: Seq<HostCall>| #[trigger]
                                eval(env0, e, made_since(c0, host.calls@) + extra, src) == (Outcome {
                                    result: Err::<ValueView, ErrorView>(x@),
                                    env: self.env(),
                                    rest: extra,
                                    faithful: true,
                                }) by {
                                let cs = made_since(c0, host.calls@) + extra;
                                assert(eval(env0, e, cs, src) == eval_index_assign(env0, e, cs, src));
                                let o1 = resolve_target(env0, tv, cs, src);
                                assert(o1.result == Err::<(Seq<char>, Seq<i64>), ErrorView>(x@));
                            }
                        }
                        return Err(x);
                    },
                };
                let ghost c1 = host.calls@;
                let ghost env1 = self.env();
                let ghost nv = name@;
                let ghost path0 = path@;
                let idx = match self.evaluate(index, host) {
                    Ok(v) => v,
                    Err(x) => {
                        proof {
                            lemma_chain(c0, c1, host.calls@);
                            assert forall|extra: Seq<HostCall>| #[trigger]
                                eval(env0, e, made_since(c0, host.calls@) + extra, src) == (Outcome {
                                    result: Err::<ValueView, ErrorView>(x@),
                                    env: self.env(),
                                    rest: extra,
                                    faithful: true,
                                }) by {
                                let cs = made_since(c0, host.calls@) + extra;
                                let rest1 = made_since(c1, host.calls@) + extra;
                                assert(cs == made_since(c0, c1) + rest1);
                                assert(eval(env0, e, cs, src) == eval_index_assign(env0, e, cs, src));
                                let o1 = resolve_target(env0, tv, made_since(c0, c1) + rest1, src);
                                assert(o1.result == Ok::<(Seq<char>, Seq<i64>), ErrorView>((nv, path0)));
                                assert(o1.env == env1 && o1.rest == rest1 && o1.faithful);
                                let o2 = eval(env1, iv, rest1, src);
                                assert(o2.result == Err::<ValueView, ErrorView>(x@));
                            }
                        }
                        return Err(x);
                    },
                };
                let ghost c2 = host.calls@;
                let ghost env2 = self.env();
                let ghost idxv = idx@;
                proof {
                    lemma_chain(c0, c1, c2);
                }
                let n = match idx {
                    Value::Integer(n) => n,
                    _ => {
                        let r = Err(self.err(string_of("invalid index operation"), index.span));
                        proof {
                            assert forall|extra: Seq<HostCall>| #[trigger]
                                eval(env0, e, made_since(c0, host.calls@) + extra, src) == (Outcome {
                                    result: result_view(r),
                                    env: self.env(),
                                    rest: extra,
                                    faithful: true,
                                }) by {
                                let cs = made_since(c0, host.calls@) + extra;
                                let rest1 = made_since(c1, c2) + extra;
                                assert(cs == made_since(c0, c1) + rest1);
                                assert(eval(env0, e, cs, src) == eval_index_assign(env0, e, cs, src));
                                let o1 = resolve_target(env0, tv, made_since(c0, c1) + rest1, src);
                                assert(o1.result == Ok::<(Seq<char>, Seq<i64>), ErrorView>((nv, path0)));
                                assert(o1.env == env1 && o1.rest == rest1 && o1.faithful);
                                let o2 = eval(env1, iv, rest1, src);
                                assert(o2.result == Ok::<ValueView, ErrorView>(idxv));
                                assert(o2.env == env2 && o2.rest == extra && o2.faithful);
                            }
                        }
                        return r;
                    },
                };
                path.push(n);
                let a = match self.evaluate(value, host) {
                    Ok(v) => v,
                    Err(x) => {
                        proof {
                            lemma_chain(c0, c2, host.calls@);
                            assert forall|extra: Seq<HostCall>| #[trigger]
                                eval(env0, e, made_since(c0, host.calls@) + extra, src) == (Outcome {
                                    result: Err::<ValueView, ErrorView>(x@),
                                    env: self.env(),
                                    rest: extra,
                                    faithful: true,
                                }) by {
                                let cs = made_since(c0, host.calls@) + extra;
                                let rest2 = made_since(c2, host.calls@) + extra;
                                let rest1 = made_since(c1, c2) + rest2;
                                assert(cs == made_since(c0, c2) + rest2);
                                assert(made_since(c0, c2) + rest2 == made_since(c0, c1) + rest1);
                                assert(eval(env0, e, cs, src) == eval_index_assign(env0, e, cs, src));
                                let o1 = resolve_target(env0, tv, made_since(c0, c1) + rest1, src);
                                assert(o1.result == Ok::<(Seq<char>, Seq<i64>), ErrorView>((nv, path0)));
                                assert(o1.env == env1 && o1.rest == rest1 && o1.faithful);
                                let o2 = eval(env1, iv, rest1, src);
                                assert(o2.result == Ok::<ValueView, ErrorView>(ValueView::Integer(n)));
                                assert(o2.env == env2 && o2.rest == rest2 && o2.faithful);
                                let o3 = eval(env2, vv, rest2, src);
                                assert(o3.result == Err::<ValueView, ErrorView>(x@));
                            }
                        }
                        return Err(x);
                    },
                };
                let ghost c3 = host.calls@;
                let ghost env3 = self.env();
                let ghost av = a@;
                proof {
                    lemma_chain(c0, c2, c3);
                }
                let r = self.write_path(name, &path, &a, expression.span);
                proof {
                    assert forall|extra: Seq<HostCall>| #[trigger]
                        eval(env0, e, made_since(c0, host.calls@) + extra, src) == (Outcome {
                            result: result_view(r),
                            env: self.env(),
                            rest: extra,
                            faithful: true,
                        }) by {
                        let cs = made_since(c0, c3) + extra;
                        let rest2 = made_since(c2, c3) + extra;
                        let rest1 = made_since(c1, c2) + rest2;
                        assert(cs == made_since(c0, c2) + rest2);
                        assert(made_since(c0, c2) + rest2 == made_since(c0, c1) + rest1);
                        assert(eval(env0, e, cs, src) == eval_index_assign(env0, e, cs, src));
                        let o1 = resolve_target(env0, tv, made_since(c0, c1) + rest1, src);
                        assert(o1.result == Ok::<(Seq<char>, Seq<i64>), ErrorView>((nv, path0)));
                        assert(o1.env == env1 && o1.rest == rest1 && o1.faithful);
                        let o2 = eval(env1, iv, rest1, src);
                        assert(o2.result == Ok::<ValueView, ErrorView>(ValueView::Integer(n)));
                        assert(o2.env == env2 && o2.rest == rest2 && o2.faithful);
                        let o3 = eval(env2, vv, rest2, src);
                        assert(o3.result == Ok::<ValueView, ErrorView>(av));
                        assert(o3.env == env3 && o3.rest == extra && o3.faithful);
                    }
                }
                r
            },
            _ => {
                proof {
                    assert(false);
                }
                Err(self.err(string_of(""), expression.span))
            },
        }
    }

    /// Evaluates `items` left to right, stopping at the first error.
    pub(crate) fn evaluate_list(&mut self, items: &Vec<Expression>, host: &mut Host) -> (r: Result<
        Vec<Value>,
        Error,
    >)
        requires
            old(host).wf(),
        ensures
            final(host).wf(),
            final(host).answers == old(host).answers,
            final(self).source_file == old(self).source_file,
            extends(old(host).calls@, final(host).calls@),
            forall|extra: Seq<HostCall>|
                #[trigger] eval_list(
                    old(self).env(),
                    expr_models(items@),
                    made_since(old(host).calls@, final(host).calls@) + extra,
                    old(self).src(),
                ) == (Outcome {
                    result: list_view(r),
                    env: final(self).env(),
                    rest: extra,
                    faithful: true,
                }),
        decreases items, 0int,
    {
        let ghost c0 = host.calls@;
        let ghost env0 = self.env();
        let ghost src = self.src();
        let ghost es = expr_models(items@);
        proof {
            lemma_expr_models_index(items@);
            lemma_none_made(c0);
            assert(es.take(0).len() == 0);
            assert(models(Seq::<Value>::empty()) =~= Seq::<ValueView>::empty());
        }
        let mut values: Vec<Value> = Vec::new();
        let mut i: usize = 0;
        while i < items.len()
            invariant
                host.wf(),
                host.answers == old(host).answers,
                i <= items.len(),
                es == expr_models(items@),
                es.len() == items.len(),
                forall|j: int| 0 <= j < items.len() ==> #[trigger] es[j] == items@[j]@,
                self.source_file == old(self).source_file,
                src == self.src(),
                src == old(self).src(),
                c0 == old(host).calls@,
                env0 == old(self).env(),
                extends(c0, host.calls@),
                forall|extra: Seq<HostCall>|
                    #[trigger] eval_list(env0, es.take(i as int), made_since(c0, host.calls@) + extra, src)
                        == (Outcome {
                        result: Ok::<Seq<ValueView>, ErrorView>(models(values@)),
                        env: self.env(),
                        rest: extra,
                        faithful: true,
                    }),
            decreases items.len() - i,
        {
            proof {
                assert(decreases_to!(items => items@));
                assert(decreases_to!(items@ => items@[i as int]));
            }
            let ghost c1 = host.calls@;
            let ghost env1 = self.env();
            let ghost before = values@;
            let ghost pre = es.take(i as int);
            let ghost now = es.take(i + 1);
            proof {
                assert(now.subrange(0, i as int) =~= pre);
                assert(now[i as int] == items@[i as int]@);
            }
            match self.evaluate(&items[i], host) {
                Ok(v) => {
                    let ghost vv = v@;
                    values.push(v);
                    proof {
                        lemma_chain(c0, c1, host.calls@);
                        assert(values@.subrange(0, values@.len() - 1) =~= before);
                        assert(models(values@) == models(before).push(vv));
                        assert forall|extra: Seq<HostCall>| #[trigger]
                            eval_list(env0, now, made_since(c0, host.calls@) + extra, src) == (Outcome {
                                result: Ok::<Seq<ValueView>, ErrorView>(models(values@)),
                                env: self.env(),
                                rest: extra,
                                faithful: true,
                            }) by {
                            let rest1 = made_since(c1, host.calls@) + extra;
                            assert(made_since(c0, host.calls@) + extra == made_since(c0, c1) + rest1);
                            let o1 = eval_list(env0, pre, made_since(c0, c1) + rest1, src);
                            assert(o1.result == Ok::<Seq<ValueView>, ErrorView>(models(before)));
                            assert(o1.env == env1 && o1.rest == rest1 && o1.faithful);
                            let o2 = eval(env1, items@[i as int]@, rest1, src);
                            assert(o2.result == Ok::<ValueView, ErrorView>(vv));
                            assert(o2.env == self.env() && o2.rest == extra && o2.faithful);
                            assert(now.subrange(0, now.len() - 1) == pre);
                            assert(now[now.len() - 1] == items@[i as int]@);
                        }
                    }
                },
                Err(x) => {
                    proof {
                        lemma_chain(c0, c1, host.calls@);
                        assert(es.take(es.len() as int) =~= es);
                        assert forall|extra: Seq<HostCall>| #[trigger]
                            eval_list(env0, now, made_since(c0, host.calls@) + extra, src) == (Outcome {
                                result: Err::<Seq<ValueView>, ErrorView>(x@),
                                env: self.env(),
                                rest: extra,
                                faithful: true,
                            }) by {
                            let rest1 = made_since(c1, host.calls@) + extra;
                            assert(made_since(c0, host.calls@) + extra == made_since(c0, c1) + rest1);
                            let o1 = eval_list(env0, pre, made_since(c0, c1) + rest1, src);
                            assert(o1.result == Ok::<Seq<ValueView>, ErrorView>(models(before)));
                            assert(o1.env == env1 && o1.rest == rest1 && o1.faithful);
                            let o2 = eval(env1, items@[i as int]@, rest1, src);
                            assert(o2.result == Err::<ValueView, ErrorView>(x@));
                            assert(now.subrange(0, now.len() - 1) == pre);
                            assert(now[now.len() - 1] == items@[i as int]@);
                        }
                        lemma_eval_list_error_prefix(env0, es, (i + 1) as int, made_since(c0, host.calls@), src, x@, self.env());
                    }
                    return Err(x);
                },
            }
            i = i + 1;
        }
        proof {
            assert(es.take(i as int) =~= es);
        }
        Ok(values)
    }

    /// Resolves the variable and the indices an indexed assignment writes to.
    fn resolve_target(&mut self, t: &Expression, host: &mut Host) -> (r: Result<
        (String, Vec<i64>),
        Error,
    >)
        requires
            old(host).wf(),
        ensures
            final(host).wf(),
            final(host).answers == old(host).answers,
            final(self).source_file == old(self).source_file,
            extends(old(host).calls@, final(host).calls@),
            forall|extra: Seq<HostCall>|
                #[trigger] resolve_target(
                    old(self).env(),
                    t@,
                    made_since(old(host).calls@, final(host).calls@) + extra,
                    old(self).src(),
                ) == (Outcome {
                    result: pair_view(r),
                    env: final(self).env(),
                    rest: extra,
                    faithful: true,
                }),
        decreases t, 1int,
    {
        let ghost c0 = host.calls@;
        let ghost env0 = self.env();
        let ghost src = self.src();
        match &t.kind {
            ExpressionKind::Identifier(name) => {
                proof {
                    lemma_none_made(c0);
                }
                let path: Vec<i64> = Vec::new();
                proof {
                    assert(path@ =~= Seq::<i64>::empty());
                }
                Ok((crate::text::copy_string(name), path))
            },
            ExpressionKind::Index { target, index } => {
                let ghost tv = target.model();
                let ghost iv = index.model();
                let ghost e = t@;
                let (name, mut path) = match self.resolve_target(target, host) {
                    Ok(p) => p,
                    Err(x) => {
                        proof {
                            assert forall|extra: Seq<HostCall>| #[trigger]
                                resolve_target(env0, e, made_since(c0, host.calls@) + extra, src) == (Outcome {
                                    result: Err::<(Seq<char>, Seq<i64>), ErrorView>(x@),
                                    env: self.env(),
                                    rest: extra,
                                    faithful: true,
                                }) by {
                                let o1 = resolve_target(env0, tv, made_since(c0, host.calls@) + extra, src);
                                assert(o1.result == Err::<(Seq<char>, Seq<i64>), ErrorView>(x@));
                            }
                        }
                        return Err(x);
                    },
                };
                let ghost c1 = host.calls@;
                let ghost env1 = self.env();
                let ghost nv = name@;
                let ghost path0 = path@;
                let idx = match self.evaluate(index, host) {
                    Ok(v) => v,
                    Err(x) => {
                        proof {
                            lemma_chain(c0, c1, host.calls@);
                            assert forall|extra: Seq<HostCall>| #[trigger]
                                resolve_target(env0, e, made_since(c0, host.calls@) + extra, src) == (Outcome {
                                    result: Err::<(Seq<char>, Seq<i64>), ErrorView>(x@),
                                    env: self.env(),
                                    rest: extra,
                                    faithful: true,
                                }) by {
                                let rest1 = made_since(c1, host.calls@) + extra;
                                assert(made_since(c0, host.calls@) + extra == made_since(c0, c1) + rest1);
                                let o1 = resolve_target(env0, tv, made_since(c0, c1) + rest1, src);
                                assert(o1.result == Ok::<(Seq<char>, Seq<i64>), ErrorView>((nv, path0)));
                                assert(o1.env == env1 && o1.rest == rest1 && o1.faithful);
                                let o2 = eval(env1, iv, rest1, src);
                                assert(o2.result == Err::<ValueView, ErrorView>(x@));
                            }
                        }
                        return Err(x);
                    },
                };
                let ghost c2 = host.calls@;
                let ghost env2 = self.env();
                let ghost idxv = idx@;
                proof {
                    lemma_chain(c0, c1, c2);
                }
                let r = match idx {
                    Value::Integer(n) => {
                        path.push(n);
                        Ok((name, path))
                    },
                    _ => Err(self.err(string_of("invalid index operation"), index.span)),
                };
                proof {
                    assert forall|extra: Seq<HostCall>| #[trigger]
                        resolve_target(env0, e, made_since(c0, c2) + extra, src) == (Outcome {
                            result: pair_view(r),
                            env: self.env(),
                            rest: extra,
                            faithful: true,
                        }) by {
                        let rest1 = made_since(c1, c2) + extra;
                        assert(made_since(c0, c2) + extra == made_since(c0, c1) + rest1);
                        let o1 = resolve_target(env0, tv, made_since(c0, c1) + rest1, src);
                        assert(o1.result == Ok::<(Seq<char>, Seq<i64>), ErrorView>((nv, path0)));
                        assert(o1.env == env1 && o1.rest == rest1 && o1.faithful);
                        let o2 = eval(env1, iv, rest1, src);
                        assert(o2.result == Ok::<ValueView, ErrorView>(idxv));
                        assert(o2.env == env2 && o2.rest == extra && o2.faithful);
                    }
                }
                r
            },
            _ => {
                proof {
                    lemma_none_made(c0);
                }
                Err(self.err(string_of("invalid assignment target"), t.span))
            },
        }
    }
}

/// An error while evaluating the first `k` expressions is the error of the whole list.
pub proof fn lemma_eval_list_error_prefix(
    env: Seq<BindingView>,
    es: Seq<ExprView>,
    k: int,
    cs: Seq<HostCall>,
    src: Option<SourceFileView>,
    x: ErrorView,
    env1: Seq<BindingView>,
)
    requires
        0 <= k <= es.len(),
        forall|extra: Seq<HostCall>|
            #[trigger] eval_list(env, es.take(k), cs + extra, src) == (Outcome {
                result: Err::<Seq<ValueView>, ErrorView>(x),
                env: env1,
                rest: extra,
                faithful: true,
            }),
    ensures
        forall|extra: Seq<HostCall>|
            #[trigger] eval_list(env, es, cs + extra, src) == (Outcome {
                result: Err::<Seq<ValueView>, ErrorView>(x),
                env: env1,
                rest: extra,
                faithful: true,
            }),
    decreases es.len() - k,
{
    if k == es.len() {
        assert(es.take(k) =~= es);
    } else {
        assert forall|extra: Seq<HostCall>|
            #[trigger] eval_list(env, es.take(k + 1), cs + extra, src) == (Outcome {
                result: Err::<Seq<ValueView>, ErrorView>(x),
                env: env1,
                rest: extra,
                faithful: true,
            }) by {
            let t = es.take(k + 1);
            assert(t.len() == k + 1);
            assert(t.subrange(0, t.len() - 1) =~= es.take(k));
            let o1 = eval_list(env, t.subrange(0, t.len() - 1), cs + extra, src);
            assert(o1.result == Err::<Seq<ValueView>, ErrorView>(x));
            assert(eval_list(env, t, cs + extra, src) == relabel(o1, Err::<Seq<ValueView>, ErrorView>(x), o1.faithful));
        }
        lemma_eval_list_error_prefix(env, es, k + 1, cs, src, x, env1);
    }
}

} // verus!
