use vstd::prelude::*;

use crate::ast::{expr_models, stmt_models, lemma_stmt_models_index, ExprView, Statement, StmtView};
use crate::environment::BindingView;
use crate::errors::{Error, ErrorView, Reason, SourceFileView};
use crate::evaluate::{
    eval, eval_list, extends, lemma_chain, lemma_none_made, made_since, relabel, done, Outcome,
};
use crate::evaluator::{
    assign_variable, declare_constant, runtime_error, unit_result_view, Evaluator, HostCall,
    Host,
};
use crate::span::Span;
use crate::text::{copy_string, string_of};
use crate::value::{models, Value, ValueView};

verus! {

/// The error for a condition that is not a boolean.
pub open spec fn condition_error(span: Span, src: Option<SourceFileView>) -> ErrorView {
    runtime_error("condition must be a bool"@, span, src)
}

/// The error for a loop that has run out of iterations.
pub open spec fn loop_limit_error(span: Span, src: Option<SourceFileView>) -> ErrorView {
    runtime_error("loop iteration limit reached"@, span, src)
}

/// How many times a `while` loop may run its body before it stops with
/// "loop iteration limit reached". The language sets no bound of its own;
/// this one makes every run of a loop end.
pub open spec fn max_iterations() -> nat {
    u64::MAX as nat
}

/// Whether a result is the stop at a call the host has not answered yet.
pub open spec fn halts(r: Result<(), ErrorView>) -> bool {
    r matches Err(x) && x.reason == Reason::Host
}

/// The first error of two results met one after the other, or success; a
/// stop at an unanswered call takes the place of an earlier error.
pub open spec fn first_error(a: Result<(), ErrorView>, b: Result<(), ErrorView>) -> Result<(), ErrorView> {
    match a {
        Err(x) => if halts(b) {
            b
        } else {
            Err(x)
        },
        Ok(_) => b,
    }
}

/// Running `o2` after `o1`, whatever `o1` gave: the bindings and remaining
/// calls of the second, and the first error of the two.
pub open spec fn then_run(o1: Outcome<()>, o2: Outcome<()>) -> Outcome<()> {
    Outcome {
        result: first_error(o1.result, o2.result),
        env: o2.env,
        rest: o2.rest,
        faithful: o1.faithful && o2.faithful,
    }
}

/// Running a statement from the bindings `env`, consuming standard-library calls from `cs`.
pub open spec fn exec_stmt(
    env: Seq<BindingView>,
    s: StmtView,
    cs: Seq<HostCall>,
    src: Option<SourceFileView>,
) -> Outcome<()>
    decreases s, 0int,
{
    match s {
        StmtView::VariableDeclaration { name, value, .. } => {
            let o = eval(env, value, cs, src);
            match o.result {
                Err(x) => relabel(o, Err(x), o.faithful),
                Ok(v) => match assign_variable(o.env, name, v, value.span, src) {
                    Ok(env2) => Outcome { result: Ok(()), env: env2, rest: o.rest, faithful: o.faithful },
                    Err(x) => relabel(o, Err(x), o.faithful),
                },
            }
        },
        StmtView::Expression(e) => {
            let o = eval(env, e, cs, src);
            match o.result {
                Err(x) => relabel(o, Err(x), o.faithful),
                Ok(_) => relabel(o, Ok(()), o.faithful),
            }
        },
        StmtView::While { condition, body } => exec_while(env, condition, body, cs, src, max_iterations()),
        StmtView::ConditionalBranch { condition, body } => match condition {
            Some(c) => {
                let o = eval(env, c, cs, src);
                match o.result {
                    Err(x) => relabel(o, Err(x), o.faithful),
                    Ok(ValueView::Bool(true)) => then_run(
                        relabel(o, Ok(()), o.faithful),
                        exec_block(o.env, body, o.rest, src),
                    ),
                    Ok(ValueView::Bool(false)) => relabel(o, Ok(()), o.faithful),
                    Ok(_) => relabel(o, Err(condition_error(c.span, src)), o.faithful),
                }
            },
            None => exec_block(env, body, cs, src),
        },
        StmtView::Conditional { if_branch, elseif_branch, else_branch } => {
            let o1 = exec_stmt(env, *if_branch, cs, src);
            if halts(o1.result) {
                o1
            } else {
                let o2 = match elseif_branch {
                    Some(bs) => exec_block(o1.env, bs, o1.rest, src),
                    None => done(Ok(()), o1.env, o1.rest),
                };
                let o12 = then_run(o1, o2);
                if halts(o12.result) {
                    o12
                } else {
                    let o3 = match else_branch {
                        Some(b) => exec_stmt(o2.env, *b, o2.rest, src),
                        None => done(Ok(()), o2.env, o2.rest),
                    };
                    then_run(o12, o3)
                }
            }
        },
        StmtView::ConstantDeclaration { name, value, span, .. } => {
            let o = eval(env, value, cs, src);
            match o.result {
                Err(x) => relabel(o, Err(x), o.faithful),
                Ok(v) => match declare_constant(o.env, name, v, span, src) {
                    Ok(env2) => Outcome { result: Ok(()), env: env2, rest: o.rest, faithful: o.faithful },
                    Err(x) => relabel(o, Err(x), o.faithful),
                },
            }
        },
        StmtView::ConstantArray { name, value, span, .. } => {
            let o = eval_list(env, value, cs, src);
            match o.result {
                Err(x) => relabel(o, Err(x), o.faithful),
                Ok(vs) => match declare_constant(o.env, name, ValueView::Values(vs), span, src) {
                    Ok(env2) => Outcome { result: Ok(()), env: env2, rest: o.rest, faithful: o.faithful },
                    Err(x) => relabel(o, Err(x), o.faithful),
                },
            }
        },
    }
}

/// Running statements in order: every statement runs, a failing one included,
/// and the block gives the first error met; only a stop at an unanswered call
/// ends the block early.
pub open spec fn exec_block(
    env: Seq<BindingView>,
    ss: Seq<StmtView>,
    cs: Seq<HostCall>,
    src: Option<SourceFileView>,
) -> Outcome<()>
    decreases ss, 0int,
{
    if ss.len() == 0 {
        done(Ok(()), env, cs)
    } else {
        let o1 = exec_block(env, ss.subrange(0, ss.len() - 1), cs, src);
        if halts(o1.result) {
            o1
        } else {
            then_run(o1, exec_stmt(o1.env, ss[ss.len() - 1], o1.rest, src))
        }
    }
}

/// Running a `while` loop that may still run its body `fuel` times. A failing
/// body does not stop the loop (its error is kept as the loop's); a failing
/// or non-boolean condition does, and so do a stop at an unanswered call and
/// running out of fuel.
pub open spec fn exec_while(
    env: Seq<BindingView>,
    cond: ExprView,
    body: Seq<StmtView>,
    cs: Seq<HostCall>,
    src: Option<SourceFileView>,
    fuel: nat,
) -> Outcome<()>
    decreases body, fuel,
{
    if fuel == 0 {
        done(Err(loop_limit_error(cond.span, src)), env, cs)
    } else {
        let o1 = eval(env, cond, cs, src);
        match o1.result {
            Err(x) => relabel(o1, Err(x), o1.faithful),
            Ok(ValueView::Bool(false)) => relabel(o1, Ok(()), o1.faithful),
            Ok(ValueView::Bool(true)) => {
                let o2 = exec_block(o1.env, body, o1.rest, src);
                let o12 = then_run(relabel(o1, Ok(()), o1.faithful), o2);
                if halts(o12.result) {
                    o12
                } else {
                    then_run(o12, exec_while(o2.env, cond, body, o2.rest, src, (fuel - 1) as nat))
                }
            },
            Ok(_) => relabel(o1, Err(condition_error(cond.span, src)), o1.faithful),
        }
    }
}

/// The result an error kept so far stands for.
pub open spec fn first_view(first: Option<Error>) -> Result<(), ErrorView> {
    match first {
        None => Ok(()),
        Some(e) => Err(e@),
    }
}

/// `o` with `first` (an error met before it) taking precedence over its own result.
pub open spec fn after(first: Result<(), ErrorView>, o: Outcome<()>) -> Outcome<()> {
    Outcome { result: first_error(first, o.result), env: o.env, rest: o.rest, faithful: o.faithful }
}

/// Keeps the first error: `first` where there is one, else the error of `r`.
fn merge_first(first: Option<Error>, r: Result<(), Error>) -> (f: Option<Error>)
    ensures
        first_view(f) == first_error(first_view(first), unit_result_view(r)),
{
    match r {
        Ok(()) => first,
        Err(x) => match first {
            None => Some(x),
            Some(e) => if x.reason == Reason::Host {
                Some(x)
            } else {
                Some(e)
            },
        },
    }
}

/// Whether the kept error is a stop at an unanswered call.
fn halted(first: &Option<Error>) -> (b: bool)
    ensures
        b == halts(first_view(*first)),
{
    match first {
        Some(e) => e.reason == Reason::Host,
        None => false,
    }
}

/// The result that the kept error `first` stands for.
fn first_result(first: Option<Error>) -> (r: Result<(), Error>)
    ensures
        unit_result_view(r) == first_view(first),
{
    match first {
        None => Ok(()),
        Some(e) => Err(e),
    }
}

/// What a run of a statement from `env0` and call log `c0` to `env1` and call log
/// `c1` means: the calls logged in between, followed by any others, make
/// `exec_stmt` give `r` and leave the others unconsumed.
pub open spec fn executed(
    env0: Seq<BindingView>,
    s: StmtView,
    c0: Seq<HostCall>,
    c1: Seq<HostCall>,
    src: Option<SourceFileView>,
    r: Result<(), ErrorView>,
    env1: Seq<BindingView>,
) -> bool {
    &&& extends(c0, c1)
    &&& forall|extra: Seq<HostCall>|
        #[trigger] exec_stmt(env0, s, made_since(c0, c1) + extra, src) == (Outcome {
            result: r,
            env: env1,
            rest: extra,
            faithful: true,
        })
}

/// The same as `executed`, for a block of statements.
pub open spec fn executed_block(
    env0: Seq<BindingView>,
    ss: Seq<StmtView>,
    c0: Seq<HostCall>,
    c1: Seq<HostCall>,
    src: Option<SourceFileView>,
    r: Result<(), ErrorView>,
    env1: Seq<BindingView>,
) -> bool {
    &&& extends(c0, c1)
    &&& forall|extra: Seq<HostCall>|
        #[trigger] exec_block(env0, ss, made_since(c0, c1) + extra, src) == (Outcome {
            result: r,
            env: env1,
            rest: extra,
            faithful: true,
        })
}

impl Evaluator {
    /// Runs one statement, taking the answers to its calls from `host`.
    ///
    /// A statement stops at an error in its own expressions, which it returns.
    /// A block, the parts of an `if`, and the iterations of a loop run on past
    /// a failing statement and the whole gives the first error met. A loop or
    /// branch condition that is not a boolean is the error "condition must be
    /// a bool", returned rather than ending the program; a loop that has run
    /// its body `u64::MAX` times stops with "loop iteration limit reached". A
    /// call the host has not answered yet stops the whole run at once.
    pub fn evaluate_statement(&mut self, statement: &Statement, host: &mut Host) -> (r:
        Result<(), Error>)
        requires
            old(host).wf(),
        ensures
            final(host).wf(),
            final(host).answers == old(host).answers,
            final(self).source_file == old(self).source_file,
            executed(
                old(self).env(),
                statement@,
                old(host).calls@,
                final(host).calls@,
                old(self).src(),
                unit_result_view(r),
                final(self).env(),
            ),
        decreases statement, 2int,
    {
        match statement {
            Statement::While { .. } => self.evaluate_while(statement, host),
            Statement::ConditionalBranch { .. } => self.evaluate_branch(statement, host),
            Statement::Conditional { .. } => self.evaluate_conditional(statement, host),
            Statement::ConstantArray { .. } => self.evaluate_constant_array(statement, host),
            _ => self.evaluate_simple(statement, host),
        }
    }

    /// Runs a declaration or an expression statement.
    fn evaluate_simple(&mut self, statement: &Statement, host: &mut Host) -> (r: Result<
        (),
        Error,
    >)
        requires
            old(host).wf(),
            statement is VariableDeclaration || statement is Expression
                || statement is ConstantDeclaration,
        ensures
            final(host).wf(),
            final(host).answers == old(host).answers,
            final(self).source_file == old(self).source_file,
            executed(
                old(self).env(),
                statement@,
                old(host).calls@,
                final(host).calls@,
                old(self).src(),
                unit_result_view(r),
                final(self).env(),
            ),
        decreases statement, 1int,
    {
        let ghost c0 = host.calls@;
        let ghost env0 = self.env();
        let ghost src = self.src();
        let ghost s = statement@;
        let value = match statement {
            Statement::VariableDeclaration { value, .. } => value,
            Statement::Expression(e) => e,
            Statement::ConstantDeclaration { value, .. } => value,
            _ => {
                proof {
                    assert(false);
                }
                return Ok(());
            },
        };
        let ghost vv = value@;
        let v = match self.evaluate(value, host) {
            Ok(v) => v,
            Err(x) => {
                proof {
                    assert forall|extra: Seq<HostCall>| #[trigger]
                        exec_stmt(env0, s, made_since(c0, host.calls@) + extra, src) == (Outcome {
                            result: Err::<(), ErrorView>(x@),
                            env: self.env(),
                            rest: extra,
                            faithful: true,
                        }) by {
                        let o = eval(env0, vv, made_since(c0, host.calls@) + extra, src);
                        assert(o.result == Err::<ValueView, ErrorView>(x@));
                    }
                }
                return Err(x);
            },
        };
        let ghost c1 = host.calls@;
        let ghost env1 = self.env();
        let ghost v_view = v@;
        let r = match statement {
            Statement::VariableDeclaration { name, .. } => self.insert_value(copy_string(name), v, value.span),
            Statement::ConstantDeclaration { name, span, .. } => self.insert_const(copy_string(name), v, *span),
            _ => Ok(()),
        };
        proof {
            assert forall|extra: Seq<HostCall>| #[trigger]
                exec_stmt(env0, s, made_since(c0, host.calls@) + extra, src) == (Outcome {
                    result: unit_result_view(r),
                    env: self.env(),
                    rest: extra,
                    faithful: true,
                }) by {
                let o = eval(env0, vv, made_since(c0, c1) + extra, src);
                assert(o.result == Ok::<ValueView, ErrorView>(v_view));
                assert(o.env == env1 && o.rest == extra && o.faithful);
            }
        }
        r
    }

    /// Runs a constant array declaration.
    fn evaluate_constant_array(&mut self, statement: &Statement, host: &mut Host) -> (r:
        Result<(), Error>)
        requires
            old(host).wf(),
            statement is ConstantArray,
        ensures
            final(host).wf(),
            final(host).answers == old(host).answers,
            final(self).source_file == old(self).source_file,
            executed(
                old(self).env(),
                statement@,
                old(host).calls@,
                final(host).calls@,
                old(self).src(),
                unit_result_view(r),
                final(self).env(),
            ),
        decreases statement, 1int,
    {
        let ghost c0 = host.calls@;
        let ghost env0 = self.env();
        let ghost src = self.src();
        let ghost s = statement@;
        match statement {
            Statement::ConstantArray { name, value, span, .. } => {
                let ghost ivs = expr_models(value@);
                let vals = match self.evaluate_items(value, host) {
                    Ok(vs) => vs,
                    Err(x) => {
                        proof {
                            assert forall|extra: Seq<HostCall>| #[trigger]
                                exec_stmt(env0, s, made_since(c0, host.calls@) + extra, src) == (Outcome {
                                    result: Err::<(), ErrorView>(x@),
                                    env: self.env(),
                                    rest: extra,
                                    faithful: true,
                                }) by {
                                let o = eval_list(env0, ivs, made_since(c0, host.calls@) + extra, src);
                                assert(o.result == Err::<Seq<ValueView>, ErrorView>(x@));
                            }
                        }
                        return Err(x);
                    },
                };
                let ghost c1 = host.calls@;
                let ghost env1 = self.env();
                let ghost vs = models(vals@);
                let r = self.insert_const(copy_string(name), Value::Values(vals), *span);
                proof {
                    assert forall|extra: Seq<HostCall>| #[trigger]
                        exec_stmt(env0, s, made_since(c0, host.calls@) + extra, src) == (Outcome {
                            result: unit_result_view(r),
                            env: self.env(),
                            rest: extra,
                            faithful: true,
                        }) by {
                        let o = eval_list(env0, ivs, made_since(c0, c1) + extra, src);
                        assert(o.result == Ok::<Seq<ValueView>, ErrorView>(vs));
                        assert(o.env == env1 && o.rest == extra && o.faithful);
                    }
                }
                r
            },
            _ => {
                proof {
                    assert(false);
                }
                Ok(())
            },
        }
    }

    /// Runs a guarded block: its body when the guard holds or when there is none.
    fn evaluate_branch(&mut self, statement: &Statement, host: &mut Host) -> (r: Result<
        (),
        Error,
    >)
        requires
            old(host).wf(),
            statement is ConditionalBranch,
        ensures
            final(host).wf(),
            final(host).answers == old(host).answers,
            final(self).source_file == old(self).source_file,
            executed(
                old(self).env(),
                statement@,
                old(host).calls@,
                final(host).calls@,
                old(self).src(),
                unit_result_view(r),
                final(self).env(),
            ),
        decreases statement, 1int,
    {
        let ghost c0 = host.calls@;
        let ghost env0 = self.env();
        let ghost src = self.src();
        let ghost s = statement@;
        match statement {
            Statement::ConditionalBranch { condition, body } => {
                let ghost bv = stmt_models(body@);
                match condition {
                    None => {
                        let r = self.evaluate_block(body, host);
                        proof {
                            assert forall|extra: Seq<HostCall>| #[trigger]
                                exec_stmt(env0, s, made_since(c0, host.calls@) + extra, src) == (Outcome {
                                    result: unit_result_view(r),
                                    env: self.env(),
                                    rest: extra,
                                    faithful: true,
                                }) by {
                                let o = exec_block(env0, bv, made_since(c0, host.calls@) + extra, src);
                                assert(o.result == unit_result_view(r));
                            }
                        }
                        r
                    },
                    Some(c) => {
                        let ghost cv = c@;
                        let v = match self.evaluate(c, host) {
                            Ok(v) => v,
                            Err(x) => {
                                proof {
                                    assert forall|extra: Seq<HostCall>| #[trigger]
                                        exec_stmt(env0, s, made_since(c0, host.calls@) + extra, src) == (Outcome {
                                            result: Err::<(), ErrorView>(x@),
                                            env: self.env(),
                                            rest: extra,
                                            faithful: true,
                                        }) by {
                                        let o = eval(env0, cv, made_since(c0, host.calls@) + extra, src);
                                        assert(o.result == Err::<ValueView, ErrorView>(x@));
                                    }
                                }
                                return Err(x);
                            },
                        };
                        let ghost c1 = host.calls@;
                        let ghost env1 = self.env();
                        let ghost v_view = v@;
                        let r = match v {
                            Value::Bool(true) => self.evaluate_block(body, host),
                            Value::Bool(false) => Ok(()),
                            _ => Err(self.err(string_of("condition must be a bool"), c.span)),
                        };
                        let ghost c2 = host.calls@;
                        proof {
                            if !(v_view == ValueView::Bool(true)) {
                                lemma_none_made(c1);
                            }
                            lemma_chain(c0, c1, c2);
                            assert forall|extra: Seq<HostCall>| #[trigger]
                                exec_stmt(env0, s, made_since(c0, c2) + extra, src) == (Outcome {
                                    result: unit_result_view(r),
                                    env: self.env(),
                                    rest: extra,
                                    faithful: true,
                                }) by {
                                let rest1 = made_since(c1, c2) + extra;
                                assert(made_since(c0, c2) + extra == made_since(c0, c1) + rest1);
                                let o = eval(env0, cv, made_since(c0, c1) + rest1, src);
                                assert(o.result == Ok::<ValueView, ErrorView>(v_view));
                                assert(o.env == env1 && o.rest == rest1 && o.faithful);
                                if v_view == ValueView::Bool(true) {
                                    let o2 = exec_block(env1, bv, rest1, src);
                                    assert(o2.result == unit_result_view(r));
                                } else {
                                    assert(rest1 == extra);
                                }
                            }
                        }
                        r
                    },
                }
            },
            _ => {
                proof {
                    assert(false);
                }
                Ok(())
            },
        }
    }

    /// Runs an if statement: its first branch, then each further branch, then
    /// the else branch, each on its own guard and each whatever the ones before
    /// gave; the statement gives the first error met.
    fn evaluate_conditional(&mut self, statement: &Statement, host: &mut Host) -> (r:
        Result<(), Error>)
        requires
            old(host).wf(),
            statement is Conditional,
        ensures
            final(host).wf(),
            final(host).answers == old(host).answers,
            final(self).source_file == old(self).source_file,
            executed(
                old(self).env(),
                statement@,
                old(host).calls@,
                final(host).calls@,
                old(self).src(),
                unit_result_view(r),
                final(self).env(),
            ),
        decreases statement, 1int,
    {
        let ghost c0 = host.calls@;
        let ghost env0 = self.env();
        let ghost src = self.src();
        let ghost s = statement@;
        match statement {
            Statement::Conditional { if_branch, elseif_branch, else_branch } => {
                let ghost ifv = if_branch.model();
                let r1 = self.evaluate_statement(if_branch, host);
                let ghost c1 = host.calls@;
                let ghost env1 = self.env();
                let f1 = merge_first(None, r1);
                if halted(&f1) {
                    proof {
                        assert forall|extra: Seq<HostCall>| #[trigger]
                            exec_stmt(env0, s, made_since(c0, c1) + extra, src) == (Outcome {
                                result: first_view(f1),
                                env: self.env(),
                                rest: extra,
                                faithful: true,
                            }) by {
                            let o1 = exec_stmt(env0, ifv, made_since(c0, c1) + extra, src);
                            assert(o1.result == unit_result_view(r1));
                        }
                    }
                    return first_result(f1);
                }
                let r2 = match elseif_branch {
                    Some(bs) => self.evaluate_block(bs, host),
                    None => Ok(()),
                };
                let ghost c2 = host.calls@;
                let ghost env2 = self.env();
                proof {
                    if elseif_branch is None {
                        lemma_none_made(c1);
                    }
                    lemma_chain(c0, c1, c2);
                }
                let ghost o2f = |cs: Seq<HostCall>|
                    match s {
                        StmtView::Conditional { elseif_branch: eb, .. } => match eb {
                            Some(bs) => exec_block(env1, bs, cs, src),
                            None => done(Ok(()), env1, cs),
                        },
                        _ => done(Ok(()), env1, cs),
                    };
                proof {
                    assert forall|extra: Seq<HostCall>| #[trigger] o2f(made_since(c1, c2) + extra) == (Outcome {
                        result: unit_result_view(r2),
                        env: env2,
                        rest: extra,
                        faithful: true,
                    }) by {
                        match elseif_branch {
                            Some(bs) => {
                                assert(exec_block(env1, stmt_models(bs@), made_since(c1, c2) + extra, src).result
                                    == unit_result_view(r2));
                            },
                            None => {
                                assert(made_since(c1, c2) + extra == extra);
                            },
                        }
                    }
                }
                let f12 = merge_first(f1, r2);
                if halted(&f12) {
                    proof {
                        assert forall|extra: Seq<HostCall>| #[trigger]
                            exec_stmt(env0, s, made_since(c0, c2) + extra, src) == (Outcome {
                                result: first_view(f12),
                                env: self.env(),
                                rest: extra,
                                faithful: true,
                            }) by {
                            let rest1 = made_since(c1, c2) + extra;
                            assert(made_since(c0, c2) + extra == made_since(c0, c1) + rest1);
                            let o1 = exec_stmt(env0, ifv, made_since(c0, c1) + rest1, src);
                            assert(o1.result == unit_result_view(r1));
                            assert(o1.env == env1 && o1.rest == rest1 && o1.faithful);
                            let o2 = o2f(rest1);
                            assert(o2.result == unit_result_view(r2));
                            assert(o2.env == env2 && o2.rest == extra && o2.faithful);
                        }
                    }
                    return first_result(f12);
                }
                let r3 = match else_branch {
                    Some(b) => self.evaluate_statement(b, host),
                    None => Ok(()),
                };
                let ghost c3 = host.calls@;
                let first = merge_first(f12, r3);
                proof {
                    if else_branch is None {
                        lemma_none_made(c2);
                    }
                    lemma_chain(c0, c2, c3);
                    lemma_chain(c0, c1, c2);
                    assert forall|extra: Seq<HostCall>| #[trigger]
                        exec_stmt(env0, s, made_since(c0, c3) + extra, src) == (Outcome {
                            result: first_view(first),
                            env: self.env(),
                            rest: extra,
                            faithful: true,
                        }) by {
                        let rest2 = made_since(c2, c3) + extra;
                        let rest1 = made_since(c1, c2) + rest2;
                        assert(made_since(c0, c3) + extra == made_since(c0, c2) + rest2);
                        assert(made_since(c0, c2) + rest2 == made_since(c0, c1) + rest1);
                        let o1 = exec_stmt(env0, ifv, made_since(c0, c1) + rest1, src);
                        assert(o1.result == unit_result_view(r1));
                        assert(o1.env == env1 && o1.rest == rest1 && o1.faithful);
                        let o2 = o2f(rest1);
                        assert(o2.result == unit_result_view(r2));
                        assert(o2.env == env2 && o2.rest == rest2 && o2.faithful);
                        match else_branch {
                            Some(b) => {
                                let o3 = exec_stmt(env2, b.model(), rest2, src);
                                assert(o3.result == unit_result_view(r3));
                                assert(o3.env == self.env() && o3.rest == extra && o3.faithful);
                            },
                            None => {
                                assert(rest2 == extra);
                            },
                        }
                    }
                }
                first_result(first)
            },
            _ => {
                proof {
                    assert(false);
                }
                Ok(())
            },
        }
    }

    /// Runs a while loop: the body for as long as the condition holds, up to
    /// `u64::MAX` times; a failing body does not stop it, and the loop gives
    /// the first error met.
    #[verifier::rlimit(100)]
    fn evaluate_while(&mut self, statement: &Statement, host: &mut Host) -> (r: Result<
        (),
        Error,
    >)
        requires
            old(host).wf(),
            statement is While,
        ensures
            final(host).wf(),
            final(host).answers == old(host).answers,
            final(self).source_file == old(self).source_file,
            executed(
                old(self).env(),
                statement@,
                old(host).calls@,
                final(host).calls@,
                old(self).src(),
                unit_result_view(r),
                final(self).env(),
            ),
        decreases statement, 1int,
    {
        let ghost c0 = host.calls@;
        let ghost env0 = self.env();
        let ghost src = self.src();
        let ghost s = statement@;
        match statement {
            Statement::While { condition, body } => {
                let ghost cv = condition@;
                let ghost bv = stmt_models(body@);
                let mut fuel: u64 = u64::MAX;
                let mut first: Option<Error> = None;
                proof {
                    lemma_none_made(c0);
                    assert forall|extra: Seq<HostCall>| #[trigger]
                        exec_stmt(env0, s, made_since(c0, host.calls@) + extra, src)
                            == after(first_view(first), exec_while(self.env(), cv, bv, extra, src, fuel as nat)) by {
                        assert(made_since(c0, host.calls@) + extra == extra);
                    }
                }
                loop
                    invariant
                        !halts(first_view(first)),
                        host.wf(),
                        host.answers == old(host).answers,
                        self.source_file == old(self).source_file,
                        src == self.src(),
                        src == old(self).src(),
                        c0 == old(host).calls@,
                        env0 == old(self).env(),
                        s == statement@,
                        s == (StmtView::While { condition: cv, body: bv }),
                        cv == condition@,
                        bv == stmt_models(body@),
                        extends(c0, host.calls@),
                        forall|extra: Seq<HostCall>|
                            #[trigger] exec_stmt(env0, s, made_since(c0, host.calls@) + extra, src)
                                == after(first_view(first), exec_while(self.env(), cv, bv, extra, src, fuel as nat)),
                    decreases fuel,
                {
                    let ghost ca = host.calls@;
                    let ghost enva = self.env();
                    let ghost fa = first_view(first);
                    if fuel == 0 {
                        let r = Err(self.err(string_of("loop iteration limit reached"), condition.span));
                        let f = merge_first(first, r);
                        proof {
                            assert forall|extra: Seq<HostCall>| #[trigger]
                                exec_stmt(env0, s, made_since(c0, ca) + extra, src) == (Outcome {
                                    result: first_view(f),
                                    env: self.env(),
                                    rest: extra,
                                    faithful: true,
                                }) by {
                                assert(exec_while(enva, cv, bv, extra, src, 0) == done::<()>(
                                    Err(loop_limit_error(cv.span, src)),
                                    enva,
                                    extra,
                                ));
                            }
                        }
                        return first_result(f);
                    }
                    let cond = self.evaluate(condition, host);
                    let ghost cb = host.calls@;
                    let ghost envb = self.env();
                    proof {
                        lemma_chain(c0, ca, cb);
                    }
                    let v = match cond {
                        Ok(v) => v,
                        Err(x) => {
                            let f = merge_first(first, Err(x));
                            proof {
                                assert forall|extra: Seq<HostCall>| #[trigger]
                                    exec_stmt(env0, s, made_since(c0, cb) + extra, src) == (Outcome {
                                        result: first_view(f),
                                        env: self.env(),
                                        rest: extra,
                                        faithful: true,
                                    }) by {
                                    let rest1 = made_since(ca, cb) + extra;
                                    assert(made_since(c0, cb) + extra == made_since(c0, ca) + rest1);
                                    let o1 = eval(enva, cv, rest1, src);
                                    assert(o1.result == Err::<ValueView, ErrorView>(x@));
                                    assert(o1.env == envb && o1.rest == extra && o1.faithful);
                                }
                            }
                            return first_result(f);
                        },
                    };
                    let ghost v_view = v@;
                    match v {
                        Value::Bool(true) => {},
                        Value::Bool(false) => {
                            let f = merge_first(first, Ok(()));
                            proof {
                                assert forall|extra: Seq<HostCall>| #[trigger]
                                    exec_stmt(env0, s, made_since(c0, cb) + extra, src) == (Outcome {
                                        result: first_view(f),
                                        env: self.env(),
                                        rest: extra,
                                        faithful: true,
                                    }) by {
                                    let rest1 = made_since(ca, cb) + extra;
                                    assert(made_since(c0, cb) + extra == made_since(c0, ca) + rest1);
                                    let o1 = eval(enva, cv, rest1, src);
                                    assert(o1.result == Ok::<ValueView, ErrorView>(v_view));
                                    assert(o1.env == envb && o1.rest == extra && o1.faithful);
                                }
                            }
                            return first_result(f);
                        },
                        _ => {
                            let r = Err(self.err(string_of("condition must be a bool"), condition.span));
                            let f = merge_first(first, r);
                            proof {
                                assert forall|extra: Seq<HostCall>| #[trigger]
                                    exec_stmt(env0, s, made_since(c0, cb) + extra, src) == (Outcome {
                                        result: first_view(f),
                                        env: self.env(),
                                        rest: extra,
                                        faithful: true,
                                    }) by {
                                    let rest1 = made_since(ca, cb) + extra;
                                    assert(made_since(c0, cb) + extra == made_since(c0, ca) + rest1);
                                    let o1 = eval(enva, cv, rest1, src);
                                    assert(o1.result == Ok::<ValueView, ErrorView>(v_view));
                                    assert(o1.env == envb && o1.rest == extra && o1.faithful);
                                }
                            }
                            return first_result(f);
                        },
                    }
                    let rb = self.run_loop_body(statement, host);
                    let ghost cc = host.calls@;
                    let ghost envc = self.env();
                    first = merge_first(first, rb);
                    proof {
                        lemma_chain(c0, cb, cc);
                        lemma_chain(ca, cb, cc);
                        lemma_chain(c0, ca, cc);
                    }
                    if halted(&first) {
                        proof {
                            assert forall|extra: Seq<HostCall>| #[trigger]
                                exec_stmt(env0, s, made_since(c0, cc) + extra, src) == (Outcome {
                                    result: first_view(first),
                                    env: self.env(),
                                    rest: extra,
                                    faithful: true,
                                }) by {
                                let rest2 = made_since(cb, cc) + extra;
                                let rest1 = made_since(ca, cb) + rest2;
                                assert(made_since(c0, cc) + extra == made_since(c0, ca) + (made_since(ca, cc) + extra));
                                assert(made_since(ca, cc) + extra == rest1);
                                let o1 = eval(enva, cv, rest1, src);
                                assert(o1.result == Ok::<ValueView, ErrorView>(v_view));
                                assert(o1.env == envb && o1.rest == rest2 && o1.faithful);
                                let o2 = exec_block(envb, bv, rest2, src);
                                assert(o2.result == unit_result_view(rb));
                                assert(o2.env == envc && o2.rest == extra && o2.faithful);
                            }
                        }
                        return first_result(first);
                    }
                    proof {
                        assert forall|extra: Seq<HostCall>| #[trigger]
                            exec_stmt(env0, s, made_since(c0, cc) + extra, src)
                                == after(first_view(first), exec_while(envc, cv, bv, extra, src, (fuel - 1) as nat)) by {
                            let rest2 = made_since(cb, cc) + extra;
                            let rest1 = made_since(ca, cb) + rest2;
                            assert(made_since(c0, cc) + extra == made_since(c0, ca) + (made_since(ca, cc) + extra));
                            assert(made_since(ca, cc) + extra == rest1);
                            let o1 = eval(enva, cv, rest1, src);
                            assert(o1.result == Ok::<ValueView, ErrorView>(v_view));
                            assert(o1.env == envb && o1.rest == rest2 && o1.faithful);
                            let o2 = exec_block(envb, bv, rest2, src);
                            assert(o2.result == unit_result_view(rb));
                            assert(o2.env == envc && o2.rest == extra && o2.faithful);
                            assert(!halts(o2.result));
                        }
                    }
                    fuel = fuel - 1;
                }
            },
            _ => {
                proof {
                    assert(false);
                }
                Ok(())
            },
        }
    }

    /// Runs the body of a while loop once.
    fn run_loop_body(&mut self, statement: &Statement, host: &mut Host) -> (r: Result<
        (),
        Error,
    >)
        requires
            old(host).wf(),
            statement is While,
        ensures
            final(host).wf(),
            final(host).answers == old(host).answers,
            final(self).source_file == old(self).source_file,
            match statement@ {
                StmtView::While { body, .. } => executed_block(
                    old(self).env(),
                    body,
                    old(host).calls@,
                    final(host).calls@,
                    old(self).src(),
                    unit_result_view(r),
                    final(self).env(),
                ),
                _ => false,
            },
        decreases statement, 0int,
    {
        match statement {
            Statement::While { body, .. } => self.evaluate_block(body, host),
            _ => {
                proof {
                    assert(false);
                }
                Ok(())
            },
        }
    }

    /// Runs every statement of `statements` in order, a failing one included,
    /// and gives the first error met.
    pub fn evaluate_block(&mut self, statements: &Vec<Statement>, host: &mut Host) -> (r:
        Result<(), Error>)
        requires
            old(host).wf(),
        ensures
            final(host).wf(),
            final(host).answers == old(host).answers,
            final(self).source_file == old(self).source_file,
            executed_block(
                old(self).env(),
                stmt_models(statements@),
                old(host).calls@,
                final(host).calls@,
                old(self).src(),
                unit_result_view(r),
                final(self).env(),
            ),
        decreases statements, 0int,
    {
        let ghost c0 = host.calls@;
        let ghost env0 = self.env();
        let ghost src = self.src();
        let ghost ss = stmt_models(statements@);
        proof {
            lemma_stmt_models_index(statements@);
            lemma_none_made(c0);
            assert(ss.take(0).len() == 0);
        }
        let mut first: Option<Error> = None;
        let mut i: usize = 0;
        while i < statements.len()
            invariant
                !halts(first_view(first)),
                host.wf(),
                host.answers == old(host).answers,
                i <= statements.len(),
                ss == stmt_models(statements@),
                ss.len() == statements.len(),
                forall|j: int| 0 <= j < statements.len() ==> #[trigger] ss[j] == statements@[j]@,
                self.source_file == old(self).source_file,
                src == self.src(),
                src == old(self).src(),
                c0 == old(host).calls@,
                env0 == old(self).env(),
                extends(c0, host.calls@),
                forall|extra: Seq<HostCall>|
                    #[trigger] exec_block(env0, ss.take(i as int), made_since(c0, host.calls@) + extra, src)
                        == (Outcome {
                        result: first_view(first),
                        env: self.env(),
                        rest: extra,
                        faithful: true,
                    }),
            decreases statements.len() - i,
        {
            proof {
                assert(decreases_to!(statements => statements@));
                assert(decreases_to!(statements@ => statements@[i as int]));
            }
            let ghost c1 = host.calls@;
            let ghost env1 = self.env();
            let ghost pre = ss.take(i as int);
            let ghost now = ss.take(i + 1);
            let ghost before = first_view(first);
            proof {
                assert(now.subrange(0, i as int) =~= pre);
                assert(now[i as int] == statements@[i as int]@);
            }
            let r = self.evaluate_statement(&statements[i], host);
            first = merge_first(first, r);
            let stop = halted(&first);
            proof {
                lemma_chain(c0, c1, host.calls@);
                assert forall|extra: Seq<HostCall>| #[trigger]
                    exec_block(env0, now, made_since(c0, host.calls@) + extra, src) == (Outcome {
                        result: first_view(first),
                        env: self.env(),
                        rest: extra,
                        faithful: true,
                    }) by {
                    let rest1 = made_since(c1, host.calls@) + extra;
                    assert(made_since(c0, host.calls@) + extra == made_since(c0, c1) + rest1);
                    let o1 = exec_block(env0, pre, made_since(c0, c1) + rest1, src);
                    assert(o1.result == before);
                    assert(!halts(before));
                    assert(o1.env == env1 && o1.rest == rest1 && o1.faithful);
                    let o2 = exec_stmt(env1, statements@[i as int]@, rest1, src);
                    assert(o2.result == unit_result_view(r));
                    assert(o2.env == self.env() && o2.rest == extra && o2.faithful);
                    assert(now.subrange(0, now.len() - 1) == pre);
                    assert(now[now.len() - 1] == statements@[i as int]@);
                }
            }
            if stop {
                proof {
                    lemma_block_halt_prefix(env0, ss, i + 1, made_since(c0, host.calls@), src, first_view(first), self.env());
                }
                return first_result(first);
            }
            i = i + 1;
        }
        proof {
            assert(ss.take(i as int) =~= ss);
        }
        first_result(first)
    }

    /// Evaluates array items left to right, stopping at the first error.
    fn evaluate_items(&mut self, items: &Vec<crate::ast::Expression>, host: &mut Host) -> (r: Result<
        Vec<Value>,
        Error,
    >)
        requires
            old(host).wf(),
        ensures
            final(host).wf(),
            final(host).answers == old(host).answers,
            final(self).source_file == old(self).source_file,
            extends(old(host).calls@, final(host).calls@),
            forall|extra: Seq<HostCall>|
                #[trigger] eval_list(
                    old(self).env(),
                    expr_models(items@),
                    made_since(old(host).calls@, final(host).calls@) + extra,
                    old(self).src(),
                ) == (Outcome {
                    result: crate::evaluate::list_view(r),
                    env: final(self).env(),
                    rest: extra,
                    faithful: true,
                }),
    {
        self.evaluate_list(items, host)
    }
}

/// A stop at an unanswered call within the first `k` statements is where the
/// whole block stops.
proof fn lemma_block_halt_prefix(
    env: Seq<BindingView>,
    ss: Seq<StmtView>,
    k: int,
    cs: Seq<HostCall>,
    src: Option<SourceFileView>,
    x: Result<(), ErrorView>,
    env1: Seq<BindingView>,
)
    requires
        0 <= k <= ss.len(),
        halts(x),
        forall|extra: Seq<HostCall>|
            #[trigger] exec_block(env, ss.take(k), cs + extra, src) == (Outcome {
                result: x,
                env: env1,
                rest: extra,
                faithful: true,
            }),
    ensures
        forall|extra: Seq<HostCall>|
            #[trigger] exec_block(env, ss, cs + extra, src) == (Outcome {
                result: x,
                env: env1,
                rest: extra,
                faithful: true,
            }),
    decreases ss.len() - k,
{
    if k == ss.len() {
        assert(ss.take(k) =~= ss);
    } else {
        assert forall|extra: Seq<HostCall>|
            #[trigger] exec_block(env, ss.take(k + 1), cs + extra, src) == (Outcome {
                result: x,
                env: env1,
                rest: extra,
                faithful: true,
            }) by {
            let t = ss.take(k + 1);
            assert(t.len() == k + 1);
            assert(t.subrange(0, t.len() - 1) =~= ss.take(k));
            let o1 = exec_block(env, t.subrange(0, t.len() - 1), cs + extra, src);
            assert(o1.result == x);
        }
        lemma_block_halt_prefix(env, ss, k + 1, cs, src, x, env1);
    }
}

} // verus!
