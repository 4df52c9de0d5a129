use lib::ast::{Expression, ExpressionKind, Statement, TypeAnnotation};
use lib::errors::{Error, Reason, SourceFile};
use lib::evaluator::{Evaluator, Host, HostAnswer};
use lib::span::Span;
use lib::tokens::TokenType;
use lib::value::Value;

/// A small host library: `double(n)` and `len(array)`.
fn answer_for(name: &str, args: &[Value]) -> HostAnswer {
    match (name, args) {
        ("double", [Value::Integer(n)]) => HostAnswer::Returned(Value::Integer(n * 2)),
        ("len", [Value::Values(items)]) => HostAnswer::Returned(Value::Integer(items.len() as i64)),
        ("double", _) | ("len", _) => HostAnswer::Returned(Value::Bool(false)),
        _ => HostAnswer::Unknown(vec!["double".to_string(), "len".to_string()]),
    }
}

/// Runs `e` on a fresh evaluator; each call the run asks for is answered by
/// `answer_for` and the run is made again with that answer added. Gives the
/// result, the evaluator after the last run, and the calls asked for.
fn run_with_host(e: &Expression) -> (Result<Value, Error>, Evaluator, Vec<String>) {
    let mut asked: Vec<(String, Vec<Value>)> = Vec::new();
    loop {
        let answers = asked.iter().map(|(n, a)| answer_for(n, a)).collect();
        let mut ev = Evaluator::new();
        let mut host = Host::new(answers);
        let r = ev.evaluate(e, &mut host);
        match host.request.take() {
            Some(req) => asked.push((req.name, req.args)),
            None => return (r, ev, asked.into_iter().map(|(n, _)| n).collect()),
        }
    }
}

fn sp(a: usize, b: usize) -> Span {
    Span::new(a, b)
}

fn ex(kind: ExpressionKind) -> Expression {
    Expression::new(kind, sp(0, 1))
}

fn num(n: i64) -> Expression {
    ex(ExpressionKind::Integer(n))
}

fn var(name: &str) -> Expression {
    ex(ExpressionKind::Identifier(name.to_string()))
}

fn string(s: &str) -> Expression {
    ex(ExpressionKind::String(s.to_string()))
}

fn boolean(b: bool) -> Expression {
    ex(ExpressionKind::Bool(b))
}

fn bin(l: Expression, op: TokenType, r: Expression) -> Expression {
    ex(ExpressionKind::Binary { left: Box::new(l), operator: op, right: Box::new(r) })
}

fn un(op: TokenType, e: Expression) -> Expression {
    ex(ExpressionKind::Unary { operator: op, operand: Box::new(e) })
}

fn assign(name: &str, e: Expression) -> Expression {
    ex(ExpressionKind::Assign { name: name.to_string(), value: Box::new(e) })
}

fn array(items: Vec<Expression>) -> Expression {
    ex(ExpressionKind::ArrayLiteral(items))
}

fn index(t: Expression, i: Expression) -> Expression {
    ex(ExpressionKind::Index { target: Box::new(t), index: Box::new(i) })
}

fn index_assign(t: Expression, i: Expression, v: Expression) -> Expression {
    ex(ExpressionKind::IndexAssign { target: Box::new(t), index: Box::new(i), value: Box::new(v) })
}

fn call(name: &str, args: Vec<Expression>) -> Expression {
    ex(ExpressionKind::Call { name: name.to_string(), args })
}

fn eval(ev: &mut Evaluator, e: &Expression) -> Result<Value, Error> {
    let mut host = Host::new(vec![]);
    ev.evaluate(e, &mut host)
}

fn eval_fresh(e: &Expression) -> Result<Value, Error> {
    eval(&mut Evaluator::new(), e)
}

fn int_value(r: Result<Value, Error>) -> i64 {
    match r {
        Ok(Value::Integer(n)) => n,
        other => panic!("expected an integer, got {:?}", other),
    }
}

fn bool_value(r: Result<Value, Error>) -> bool {
    match r {
        Ok(Value::Bool(b)) => b,
        other => panic!("expected a bool, got {:?}", other),
    }
}

fn ints(v: &Value) -> Vec<i64> {
    match v {
        Value::Values(items) => items
            .iter()
            .map(|x| match x {
                Value::Integer(n) => *n,
                _ => panic!("expected integers"),
            })
            .collect(),
        _ => panic!("expected an array"),
    }
}

fn message(r: Result<Value, Error>) -> String {
    match r {
        Err(e) => {
            assert_eq!(e.reason, Reason::Runtime);
            e.message
        },
        Ok(v) => panic!("expected an error, got {:?}", v),
    }
}

fn run(ev: &mut Evaluator, s: &Statement) -> Result<(), Error> {
    let mut host = Host::new(vec![]);
    ev.evaluate_statement(s, &mut host)
}

#[test]
fn literals_evaluate_to_themselves() {
    assert_eq!(int_value(eval_fresh(&num(7))), 7);
    assert!(bool_value(eval_fresh(&boolean(true))));
    assert!(matches!(eval_fresh(&string("hi")), Ok(Value::String(s)) if s == "hi"));
    assert!(matches!(eval_fresh(&ex(ExpressionKind::Character('c'))), Ok(Value::Char('c'))));
}

#[test]
fn integer_arithmetic() {
    assert_eq!(int_value(eval_fresh(&bin(num(2), TokenType::Plus, num(3)))), 5);
    assert_eq!(int_value(eval_fresh(&bin(num(2), TokenType::Minus, num(3)))), -1);
    assert_eq!(int_value(eval_fresh(&bin(num(4), TokenType::Star, num(3)))), 12);
    assert_eq!(int_value(eval_fresh(&bin(num(7), TokenType::Slash, num(2)))), 3);
    assert_eq!(int_value(eval_fresh(&bin(num(-7), TokenType::Slash, num(2)))), -3);
}

#[test]
fn nested_arithmetic_follows_tree() {
    let e = bin(num(1), TokenType::Plus, bin(num(2), TokenType::Star, num(3)));
    assert_eq!(int_value(eval_fresh(&e)), 7);
    let g = bin(ex(ExpressionKind::Grouping(Box::new(bin(num(1), TokenType::Plus, num(2))))), TokenType::Star, num(3));
    assert_eq!(int_value(eval_fresh(&g)), 9);
}

#[test]
fn division_by_zero_is_an_error() {
    assert_eq!(message(eval_fresh(&bin(num(1), TokenType::Slash, num(0)))), "division by zero");
}

#[test]
fn overflow_is_an_error() {
    let e = bin(num(i64::MAX), TokenType::Plus, num(1));
    assert_eq!(message(eval_fresh(&e)), "integer overflow on +");
    let e = bin(num(i64::MIN), TokenType::Minus, num(1));
    assert_eq!(message(eval_fresh(&e)), "integer overflow on -");
    let e = bin(num(i64::MAX), TokenType::Star, num(2));
    assert_eq!(message(eval_fresh(&e)), "integer overflow on *");
    let e = bin(num(i64::MIN), TokenType::Slash, num(-1));
    assert_eq!(message(eval_fresh(&e)), "integer overflow on /");
    assert_eq!(message(eval_fresh(&un(TokenType::Minus, num(i64::MIN)))), "integer overflow on -");
}

#[test]
fn type_mismatch_messages() {
    assert_eq!(message(eval_fresh(&bin(num(1), TokenType::Plus, string("a")))), "type mismatch on +");
    assert_eq!(message(eval_fresh(&bin(boolean(true), TokenType::Less, num(1)))), "type mismatch on <");
    assert_eq!(message(eval_fresh(&bin(num(1), TokenType::Compare, boolean(true)))), "type mismatch on ==");
    assert_eq!(message(eval_fresh(&bin(string("a"), TokenType::BangEqual, num(1)))), "type mismatch on !=");
    assert_eq!(message(eval_fresh(&un(TokenType::Bang, num(1)))), "type mismatch on !");
    assert_eq!(message(eval_fresh(&un(TokenType::Minus, boolean(true)))), "type mismatch on -");
}

#[test]
fn comparisons_and_equality() {
    assert!(bool_value(eval_fresh(&bin(num(1), TokenType::Less, num(2)))));
    assert!(!bool_value(eval_fresh(&bin(num(2), TokenType::Greater, num(2)))));
    assert!(bool_value(eval_fresh(&bin(num(2), TokenType::GreaterEqual, num(2)))));
    assert!(bool_value(eval_fresh(&bin(num(2), TokenType::LessEqual, num(3)))));
    assert!(bool_value(eval_fresh(&bin(string("a"), TokenType::Compare, string("a")))));
    assert!(bool_value(eval_fresh(&bin(string("a"), TokenType::BangEqual, string("b")))));
    let c = |x| ex(ExpressionKind::Character(x));
    assert!(bool_value(eval_fresh(&bin(c('x'), TokenType::Compare, c('x')))));
    assert!(!bool_value(eval_fresh(&bin(boolean(true), TokenType::Compare, boolean(false)))));
}

#[test]
fn not_equal_is_negated_equal() {
    let pairs = vec![(num(3), num(3)), (num(3), num(4))];
    for (a, b) in pairs {
        let eq = bool_value(eval_fresh(&bin(num(int_value(eval_fresh(&a))), TokenType::Compare, num(int_value(eval_fresh(&b))))));
        let ne = bool_value(eval_fresh(&bin(a, TokenType::BangEqual, b)));
        assert_eq!(ne, !eq);
    }
}

#[test]
fn unary_operators() {
    assert_eq!(int_value(eval_fresh(&un(TokenType::Minus, num(5)))), -5);
    assert!(!bool_value(eval_fresh(&un(TokenType::Bang, boolean(true)))));
    assert!(bool_value(eval_fresh(&un(TokenType::Bang, un(TokenType::Bang, boolean(true))))));
}

#[test]
fn operator_functions_directly() {
    let mut ev = Evaluator::new();
    let r = ev.match_binary_operator(Value::Integer(6), Value::Integer(7), &TokenType::Star, sp(0, 3));
    assert_eq!(int_value(r), 42);
    let r = ev.match_binary_operator(Value::Integer(1), Value::Integer(1), &TokenType::Assign, sp(0, 3));
    assert_eq!(message(r), "unknown binary operator");
    let r = ev.match_unary_operator(Value::Integer(1), &TokenType::Plus, sp(0, 1));
    assert_eq!(message(r), "unknown unary operator");
    let r = ev.match_unary_operator(Value::Bool(false), &TokenType::Bang, sp(0, 1));
    assert!(bool_value(r));
}

#[test]
fn error_carries_span_and_source() {
    let ev = Evaluator::new().with_source_file(SourceFile::new("prog.x".to_string(), "1/0".to_string()));
    let mut ev = ev;
    let e = Expression::new(
        ExpressionKind::Binary { left: Box::new(num(1)), operator: TokenType::Slash, right: Box::new(num(0)) },
        sp(0, 3),
    );
    let err = eval(&mut ev, &e).unwrap_err();
    assert_eq!(err.span, Some(sp(0, 3)));
    assert_eq!(err.source_file.as_ref().map(|f| f.text.clone()), Some("1/0".to_string()));
    let plain = Evaluator::new().err("x".to_string(), sp(1, 2));
    assert!(plain.source_file.is_none());
    assert_eq!(plain.reason, Reason::Runtime);
    let mut ev = Evaluator::default();
    ev.set_source_file(SourceFile::new("a".to_string(), String::new()));
    assert!(ev.err("y".to_string(), sp(0, 0)).source_file.is_some());
}

#[test]
fn read_after_assign() {
    let mut ev = Evaluator::new();
    assert_eq!(int_value(eval(&mut ev, &assign("x", num(3)))), 3);
    assert_eq!(int_value(eval(&mut ev, &var("x"))), 3);
    assert_eq!(int_value(eval(&mut ev, &assign("x", bin(var("x"), TokenType::Plus, num(1))))), 4);
    assert_eq!(int_value(ev.get_value("x", sp(0, 1))), 4);
}

#[test]
fn assignment_leaves_other_names_alone() {
    let mut ev = Evaluator::new();
    ev.insert_value("a".to_string(), Value::Integer(1), sp(0, 1)).unwrap();
    ev.insert_value("b".to_string(), Value::Integer(2), sp(0, 1)).unwrap();
    ev.insert_value("a".to_string(), Value::Integer(10), sp(0, 1)).unwrap();
    assert_eq!(int_value(ev.get_value("a", sp(0, 1))), 10);
    assert_eq!(int_value(ev.get_value("b", sp(0, 1))), 2);
}

#[test]
fn undefined_variable_suggests_a_name() {
    let mut ev = Evaluator::new();
    ev.insert_value("count".to_string(), Value::Integer(1), sp(0, 1)).unwrap();
    let err = ev.get_value("cont", sp(3, 7)).unwrap_err();
    assert_eq!(err.message, "undefined variable cont");
    assert_eq!(err.help, Some("did you mean `count`?".to_string()));
    assert_eq!(err.span, Some(sp(3, 7)));
    let err = ev.get_value("zzzzzz", sp(0, 1)).unwrap_err();
    assert_eq!(err.help, None);
}

#[test]
fn constants_cannot_be_assigned() {
    let mut ev = Evaluator::new();
    ev.insert_const("k".to_string(), Value::Integer(1), sp(0, 1)).unwrap();
    let err = ev.insert_value("k".to_string(), Value::Integer(2), sp(4, 5)).unwrap_err();
    assert_eq!(err.message, "cannot assign to constant 'k'");
    assert_eq!(int_value(ev.get_value("k", sp(0, 1))), 1);
    let r = eval(&mut ev, &assign("k", num(9)));
    assert_eq!(message(r), "cannot assign to constant 'k'");
    assert_eq!(int_value(ev.get_value("k", sp(0, 1))), 1);
}

#[test]
fn constants_cannot_be_redeclared() {
    let mut ev = Evaluator::new();
    ev.insert_value("v".to_string(), Value::Integer(1), sp(0, 1)).unwrap();
    let err = ev.insert_const("v".to_string(), Value::Integer(2), sp(0, 1)).unwrap_err();
    assert_eq!(err.message, "'v' is already declared");
    ev.insert_const("c".to_string(), Value::Bool(true), sp(0, 1)).unwrap();
    let err = ev.insert_const("c".to_string(), Value::Bool(false), sp(0, 1)).unwrap_err();
    assert_eq!(err.message, "'c' is already declared");
}

#[test]
fn array_literal_and_indexing() {
    let arr = array(vec![num(10), num(20), num(30)]);
    assert_eq!(ints(&eval_fresh(&arr).unwrap()), vec![10, 20, 30]);
    assert_eq!(int_value(eval_fresh(&index(arr, num(1)))), 20);
}

#[test]
fn index_out_of_bounds() {
    let arr = array(vec![num(1), num(2), num(3)]);
    let err = eval_fresh(&index(arr, num(5))).unwrap_err();
    assert_eq!(err.message, "index 5 out of bounds (len 3)");
    assert_eq!(err.labels.len(), 1);
    assert_eq!(err.labels[0].message, "this array has length 3");
    let err = eval_fresh(&index(array(vec![]), num(-1))).unwrap_err();
    assert_eq!(err.message, "index -1 out of bounds (len 0)");
}

#[test]
fn indexing_a_non_array() {
    let err = eval_fresh(&index(num(1), num(0))).unwrap_err();
    assert_eq!(err.message, "invalid index operation");
    assert_eq!(err.labels.len(), 2);
    assert_eq!(err.labels[0].message, "this is int");
    assert_eq!(err.labels[1].message, "this is int");
    let err = eval_fresh(&index(array(vec![]), string("a"))).unwrap_err();
    assert_eq!(err.labels[0].message, "this is array");
    assert_eq!(err.labels[1].message, "this is string");
}

#[test]
fn indexed_assignment_writes_one_element() {
    let mut ev = Evaluator::new();
    eval(&mut ev, &assign("a", array(vec![num(1), num(2), num(3)]))).unwrap();
    assert_eq!(int_value(eval(&mut ev, &index_assign(var("a"), num(1), num(9)))), 9);
    assert_eq!(ints(&ev.get_value("a", sp(0, 1)).unwrap()), vec![1, 9, 3]);
    assert_eq!(int_value(eval(&mut ev, &index(var("a"), num(1)))), 9);
}

#[test]
fn nested_indexed_assignment() {
    let mut ev = Evaluator::new();
    let m = array(vec![array(vec![num(1), num(2)]), array(vec![num(3), num(4)])]);
    eval(&mut ev, &assign("m", m)).unwrap();
    eval(&mut ev, &index_assign(index(var("m"), num(1)), num(0), num(7))).unwrap();
    let row = eval(&mut ev, &index(var("m"), num(1))).unwrap();
    assert_eq!(ints(&row), vec![7, 4]);
    let row0 = eval(&mut ev, &index(var("m"), num(0))).unwrap();
    assert_eq!(ints(&row0), vec![1, 2]);
}

#[test]
fn indexed_assignment_errors() {
    let mut ev = Evaluator::new();
    eval(&mut ev, &assign("a", array(vec![num(1)]))).unwrap();
    let r = eval(&mut ev, &index_assign(var("a"), num(3), num(0)));
    assert_eq!(message(r), "index 3 out of bounds (len 1)");
    let r = eval(&mut ev, &index_assign(var("a"), boolean(true), num(0)));
    assert_eq!(message(r), "invalid index operation");
    let r = eval(&mut ev, &index_assign(var("nope"), num(0), num(0)));
    assert_eq!(message(r), "undefined variable nope");
    let r = eval(&mut ev, &index_assign(num(1), num(0), num(0)));
    assert_eq!(message(r), "invalid assignment target");
    assert_eq!(ints(&ev.get_value("a", sp(0, 1)).unwrap()), vec![1]);
}

#[test]
fn indexed_assignment_on_a_constant() {
    let mut ev = Evaluator::new();
    ev.insert_const("c".to_string(), Value::Values(vec![Value::Integer(1)]), sp(0, 1)).unwrap();
    let r = eval(&mut ev, &index_assign(var("c"), num(0), num(5)));
    assert_eq!(message(r), "cannot assign to constant 'c'");
    assert_eq!(ints(&ev.get_value("c", sp(0, 1)).unwrap()), vec![1]);
}

#[test]
fn calls_go_to_the_host() {
    let e = bin(
        call("double", vec![bin(num(2), TokenType::Plus, num(3))]),
        TokenType::Plus,
        call("len", vec![array(vec![num(1), num(2)])]),
    );
    let (r, _, asked) = run_with_host(&e);
    assert_eq!(int_value(r), 12);
    assert_eq!(asked, vec!["double".to_string(), "len".to_string()]);
}

#[test]
fn an_unanswered_call_is_requested() {
    let mut ev = Evaluator::new();
    let mut host = Host::new(vec![]);
    let err = ev.evaluate(&call("double", vec![bin(num(2), TokenType::Plus, num(3))]), &mut host).unwrap_err();
    assert_eq!(err.reason, Reason::Host);
    assert_eq!(err.message, "call awaits the host: double");
    let req = host.request.expect("a request");
    assert_eq!(req.name, "double");
    assert!(matches!(req.args.as_slice(), [Value::Integer(5)]));
    assert_eq!(host.used, 0);
}

#[test]
fn answers_are_taken_in_order() {
    let mut ev = Evaluator::new();
    let mut host = Host::new(vec![HostAnswer::Returned(Value::Integer(7)), HostAnswer::Returned(Value::Integer(9))]);
    let e = bin(call("f", vec![]), TokenType::Minus, call("g", vec![num(1)]));
    assert_eq!(int_value(ev.evaluate(&e, &mut host)), -2);
    assert_eq!(host.used, 2);
    assert!(host.request.is_none());
    let err = ev.evaluate(&call("h", vec![]), &mut host).unwrap_err();
    assert_eq!(err.reason, Reason::Host);
    assert_eq!(host.request.as_ref().map(|r| r.name.clone()), Some("h".to_string()));
    // Only the first unanswered call is kept.
    let _ = ev.evaluate(&call("k", vec![]), &mut host);
    assert_eq!(host.request.as_ref().map(|r| r.name.clone()), Some("h".to_string()));
}

#[test]
fn unknown_function_suggests_a_name() {
    let (r, _, _) = run_with_host(&call("dubble", vec![num(1)]));
    let err = r.unwrap_err();
    assert_eq!(err.message, "undefined function dubble");
    assert_eq!(err.help, Some("did you mean `double`?".to_string()));
    let ev = Evaluator::new();
    let err = ev.answer("print", &HostAnswer::Unknown(vec!["double".to_string()]), sp(0, 5)).unwrap_err();
    assert_eq!(err.message, "undefined function print");
    assert_eq!(err.help, None);
}

#[test]
fn call_function_directly() {
    let mut ev = Evaluator::new();
    let mut host = Host::new(vec![HostAnswer::Returned(Value::Integer(42))]);
    let r = ev.call_function("double", vec![Value::Integer(21)], sp(0, 1), &mut host);
    assert_eq!(int_value(r), 42);
    assert_eq!(host.used, 1);
    let ev = Evaluator::new();
    assert!(bool_value(ev.answer("x", &HostAnswer::Returned(Value::Bool(true)), sp(0, 1))));
}

#[test]
fn argument_errors_stop_the_call() {
    let (r, _, asked) = run_with_host(&call("double", vec![var("missing")]));
    assert_eq!(message(r), "undefined variable missing");
    assert!(asked.is_empty());
}

#[test]
fn an_unanswered_call_stops_a_loop() {
    // while x != 0 { x = read() }: without an answer the loop stops at once.
    let mut ev = Evaluator::new();
    ev.insert_value("x".to_string(), Value::Integer(1), sp(0, 1)).unwrap();
    let s = Statement::While {
        condition: bin(var("x"), TokenType::BangEqual, num(0)),
        body: vec![Statement::Expression(assign("x", call("read", vec![]))), Statement::Expression(assign("y", num(1)))],
    };
    let mut host = Host::new(vec![]);
    let err = ev.evaluate_statement(&s, &mut host).unwrap_err();
    assert_eq!(err.reason, Reason::Host);
    assert!(ev.get_value("y", sp(0, 1)).is_err());
    let mut ev = Evaluator::new();
    ev.insert_value("x".to_string(), Value::Integer(1), sp(0, 1)).unwrap();
    let mut host = Host::new(vec![HostAnswer::Returned(Value::Integer(0))]);
    ev.evaluate_statement(&s, &mut host).unwrap();
    assert_eq!(int_value(ev.get_value("y", sp(0, 1))), 1);
}
#[test]
fn evaluation_stops_at_first_error() {
    let mut ev = Evaluator::new();
    let e = bin(assign("x", num(1)), TokenType::Plus, bin(num(1), TokenType::Slash, num(0)));
    assert_eq!(message(eval(&mut ev, &e)), "division by zero");
    // The assignment on the left ran before the error.
    assert_eq!(int_value(ev.get_value("x", sp(0, 1))), 1);
}

#[test]
fn variable_declaration_statement() {
    let mut ev = Evaluator::new();
    let s = Statement::VariableDeclaration { name: "n".to_string(), type_annotation: TokenType::Int, value: num(4) };
    run(&mut ev, &s).unwrap();
    assert_eq!(int_value(ev.get_value("n", sp(0, 1))), 4);
}

#[test]
fn while_loop_counts() {
    let mut ev = Evaluator::new();
    ev.insert_value("i".to_string(), Value::Integer(0), sp(0, 1)).unwrap();
    ev.insert_value("sum".to_string(), Value::Integer(0), sp(0, 1)).unwrap();
    let body = vec![
        Statement::Expression(assign("sum", bin(var("sum"), TokenType::Plus, var("i")))),
        Statement::Expression(assign("i", bin(var("i"), TokenType::Plus, num(1)))),
    ];
    let s = Statement::While { condition: bin(var("i"), TokenType::Less, num(5)), body };
    run(&mut ev, &s).unwrap();
    assert_eq!(int_value(ev.get_value("i", sp(0, 1))), 5);
    assert_eq!(int_value(ev.get_value("sum", sp(0, 1))), 10);
}

#[test]
fn while_condition_must_be_bool() {
    let mut ev = Evaluator::new();
    let s = Statement::While { condition: num(1), body: vec![] };
    let err = run(&mut ev, &s).unwrap_err();
    assert_eq!(err.message, "condition must be a bool");
}

#[test]
fn while_body_error_does_not_stop_loop() {
    let mut ev = Evaluator::new();
    ev.insert_value("i".to_string(), Value::Integer(0), sp(0, 1)).unwrap();
    let body = vec![
        Statement::Expression(var("nothing")),
        Statement::Expression(assign("i", bin(var("i"), TokenType::Plus, num(1)))),
    ];
    let s = Statement::While { condition: bin(var("i"), TokenType::Less, num(3)), body };
    let err = run(&mut ev, &s).unwrap_err();
    assert_eq!(err.message, "undefined variable nothing");
    assert_eq!(int_value(ev.get_value("i", sp(0, 1))), 3);
}

#[test]
fn conditional_branches() {
    let mut ev = Evaluator::new();
    let taken = Statement::ConditionalBranch {
        condition: Some(boolean(true)),
        body: vec![Statement::Expression(assign("t", num(1)))],
    };
    let skipped = Statement::ConditionalBranch {
        condition: Some(boolean(false)),
        body: vec![Statement::Expression(assign("s", num(1)))],
    };
    run(&mut ev, &taken).unwrap();
    run(&mut ev, &skipped).unwrap();
    assert_eq!(int_value(ev.get_value("t", sp(0, 1))), 1);
    assert!(ev.get_value("s", sp(0, 1)).is_err());
    let bad = Statement::ConditionalBranch { condition: Some(num(0)), body: vec![] };
    assert_eq!(run(&mut ev, &bad).unwrap_err().message, "condition must be a bool");
}

#[test]
fn conditional_runs_each_part_in_turn() {
    let mut ev = Evaluator::new();
    let s = Statement::Conditional {
        if_branch: Box::new(Statement::ConditionalBranch {
            condition: Some(boolean(true)),
            body: vec![Statement::Expression(assign("a", num(1)))],
        }),
        elseif_branch: Some(vec![Statement::ConditionalBranch {
            condition: Some(boolean(true)),
            body: vec![Statement::Expression(assign("b", num(2)))],
        }]),
        else_branch: Some(Box::new(Statement::ConditionalBranch {
            condition: None,
            body: vec![Statement::Expression(assign("c", num(3)))],
        })),
    };
    run(&mut ev, &s).unwrap();
    assert_eq!(int_value(ev.get_value("a", sp(0, 1))), 1);
    assert_eq!(int_value(ev.get_value("b", sp(0, 1))), 2);
    assert_eq!(int_value(ev.get_value("c", sp(0, 1))), 3);
}

#[test]
fn constant_declarations() {
    let mut ev = Evaluator::new();
    let s = Statement::ConstantDeclaration {
        name: "k".to_string(),
        type_annotation: TypeAnnotation::Int,
        value: num(8),
        span: sp(0, 9),
    };
    run(&mut ev, &s).unwrap();
    assert_eq!(int_value(ev.get_value("k", sp(0, 1))), 8);
    let err = run(&mut ev, &s).unwrap_err();
    assert_eq!(err.message, "'k' is already declared");
    assert_eq!(err.span, Some(sp(0, 9)));
    let arr = Statement::ConstantArray {
        name: "xs".to_string(),
        type_annotation: TypeAnnotation::Int,
        value: vec![num(1), num(2)],
        span: sp(0, 5),
    };
    run(&mut ev, &arr).unwrap();
    assert_eq!(ints(&ev.get_value("xs", sp(0, 1)).unwrap()), vec![1, 2]);
    let r = eval(&mut ev, &assign("xs", num(0)));
    assert_eq!(message(r), "cannot assign to constant 'xs'");
}

#[test]
fn block_runs_every_statement_and_gives_first_error() {
    let mut ev = Evaluator::new();
    let mut host = Host::new(vec![]);
    let block = vec![
        Statement::Expression(assign("x", num(1))),
        Statement::Expression(assign("x", bin(var("x"), TokenType::Star, num(5)))),
        Statement::Expression(bin(num(1), TokenType::Slash, num(0))),
        Statement::Expression(assign("y", num(1))),
    ];
    let err = ev.evaluate_block(&block, &mut host).unwrap_err();
    assert_eq!(err.message, "division by zero");
    assert_eq!(int_value(ev.get_value("x", sp(0, 1))), 5);
    assert_eq!(int_value(ev.get_value("y", sp(0, 1))), 1);
    assert!(ev.evaluate_block(&vec![], &mut host).is_ok());
}

#[test]
fn ordering_converse_on_examples() {
    for (a, b) in vec![(1, 2), (2, 2), (5, -3)] {
        let lt = bool_value(eval_fresh(&bin(num(a), TokenType::Less, num(b))));
        let gt = bool_value(eval_fresh(&bin(num(b), TokenType::Greater, num(a))));
        assert_eq!(lt, gt);
        let le = bool_value(eval_fresh(&bin(num(a), TokenType::LessEqual, num(b))));
        let ge = bool_value(eval_fresh(&bin(num(b), TokenType::GreaterEqual, num(a))));
        assert_eq!(le, ge);
    }
}

#[test]
fn addition_and_multiplication_commute_on_examples() {
    for (a, b) in vec![(3, 4), (-7, 2), (i64::MAX, 1)] {
        let ab = eval_fresh(&bin(num(a), TokenType::Plus, num(b)));
        let ba = eval_fresh(&bin(num(b), TokenType::Plus, num(a)));
        match (ab, ba) {
            (Ok(Value::Integer(x)), Ok(Value::Integer(y))) => assert_eq!(x, y),
            (Err(x), Err(y)) => assert_eq!(x.message, y.message),
            _ => panic!("addition of {} and {} depends on order", a, b),
        }
        let ab = int_value(eval_fresh(&bin(num(a % 1000), TokenType::Star, num(b % 1000))));
        let ba = int_value(eval_fresh(&bin(num(b % 1000), TokenType::Star, num(a % 1000))));
        assert_eq!(ab, ba);
    }
}

#[test]
fn double_negation_gives_back_the_integer() {
    assert_eq!(int_value(eval_fresh(&un(TokenType::Minus, un(TokenType::Minus, num(12))))), 12);
    assert_eq!(int_value(eval_fresh(&un(TokenType::Minus, un(TokenType::Minus, num(i64::MAX))))), i64::MAX);
}

#[test]
fn constants_survive_a_failing_statement() {
    let mut ev = Evaluator::new();
    ev.insert_const("k".to_string(), Value::Integer(3), sp(0, 1)).unwrap();
    ev.insert_value("t".to_string(), Value::Integer(0), sp(0, 1)).unwrap();
    let body = vec![
        Statement::Expression(assign("k", num(4))),
        Statement::Expression(assign("t", bin(var("t"), TokenType::Plus, num(1)))),
    ];
    let s = Statement::While { condition: bin(var("t"), TokenType::Less, num(2)), body };
    let err = run(&mut ev, &s).unwrap_err();
    assert_eq!(err.message, "cannot assign to constant 'k'");
    assert_eq!(int_value(ev.get_value("k", sp(0, 1))), 3);
    assert_eq!(int_value(ev.get_value("t", sp(0, 1))), 2);
}

#[test]
fn block_sequence_with_a_failing_statement() {
    let s = vec![Statement::Expression(var("x_undefined"))];
    let t = vec![Statement::Expression(assign("x", num(1)))];
    let mut whole = Evaluator::new();
    let mut host = Host::new(vec![]);
    let joined = vec![Statement::Expression(var("x_undefined")), Statement::Expression(assign("x", num(1)))];
    let r_whole = whole.evaluate_block(&joined, &mut host);
    let mut parts = Evaluator::new();
    let r_s = parts.evaluate_block(&s, &mut host);
    let r_t = parts.evaluate_block(&t, &mut host);
    assert_eq!(r_whole.unwrap_err().message, r_s.unwrap_err().message);
    assert!(r_t.is_ok());
    assert_eq!(int_value(whole.get_value("x", sp(0, 1))), 1);
    assert_eq!(int_value(parts.get_value("x", sp(0, 1))), 1);
}

#[test]
fn failing_if_branch_does_not_stop_the_rest() {
    let mut ev = Evaluator::new();
    let s = Statement::Conditional {
        if_branch: Box::new(Statement::ConditionalBranch { condition: Some(num(1)), body: vec![] }),
        elseif_branch: Some(vec![Statement::ConditionalBranch {
            condition: Some(boolean(true)),
            body: vec![Statement::Expression(var("missing")), Statement::Expression(assign("b", num(2)))],
        }]),
        else_branch: Some(Box::new(Statement::ConditionalBranch {
            condition: None,
            body: vec![Statement::Expression(assign("c", num(3)))],
        })),
    };
    let err = run(&mut ev, &s).unwrap_err();
    assert_eq!(err.message, "condition must be a bool");
    assert_eq!(int_value(ev.get_value("b", sp(0, 1))), 2);
    assert_eq!(int_value(ev.get_value("c", sp(0, 1))), 3);
}

#[test]
fn new_names_from_expressions_are_variables() {
    let mut ev = Evaluator::new();
    eval(&mut ev, &assign("fresh", num(1))).unwrap();
    eval(&mut ev, &assign("fresh", num(2))).unwrap();
    assert_eq!(int_value(ev.get_value("fresh", sp(0, 1))), 2);
    let err = ev.insert_const("fresh".to_string(), Value::Integer(3), sp(0, 1)).unwrap_err();
    assert_eq!(err.message, "'fresh' is already declared");
}
