use lib::ast::{Expression, ExpressionKind, Statement, TypeAnnotation};
use lib::errors::Reason;
use lib::parser::Parser;
use lib::span::Span;
use lib::tokens::{Token, TokenType};

/// Tokens laid out one per position: token `i` spans `[2i, 2i + 1)`.
fn tokens(kinds: Vec<TokenType>) -> Vec<Token> {
    let mut out = Vec::new();
    for (i, k) in kinds.into_iter().enumerate() {
        out.push(Token { token: k, span: Span::new(2 * i, 2 * i + 1) });
    }
    out
}

fn parser(kinds: Vec<TokenType>) -> Parser {
    Parser::new(tokens(kinds))
}

fn id(name: &str) -> TokenType {
    TokenType::Identifier(name.to_string())
}

fn num(n: i64) -> TokenType {
    TokenType::NumberLiteral(n)
}

fn int_of(e: &Expression) -> i64 {
    match e.kind {
        ExpressionKind::Integer(n) => n,
        _ => panic!("expected an integer, got {:?}", e),
    }
}

fn name_of(e: &Expression) -> String {
    match &e.kind {
        ExpressionKind::Identifier(n) => n.clone(),
        _ => panic!("expected an identifier, got {:?}", e),
    }
}

fn binary_parts(e: &Expression) -> (&Expression, &TokenType, &Expression) {
    match &e.kind {
        ExpressionKind::Binary { left, operator, right } => (left, operator, right),
        _ => panic!("expected a binary node, got {:?}", e),
    }
}

#[test]
fn multiplication_binds_tighter_than_addition() {
    let mut p = parser(vec![num(1), TokenType::Plus, num(2), TokenType::Star, num(3)]);
    let e = p.parse_expression().unwrap();
    let (l, op, r) = binary_parts(&e);
    assert_eq!(int_of(l), 1);
    assert!(matches!(op, TokenType::Plus));
    let (rl, rop, rr) = binary_parts(r);
    assert_eq!(int_of(rl), 2);
    assert!(matches!(rop, TokenType::Star));
    assert_eq!(int_of(rr), 3);
    assert_eq!(e.span, Span::new(0, 9));
    assert_eq!(p.current, 5);
}

#[test]
fn subtraction_is_left_associative() {
    let mut p = parser(vec![num(1), TokenType::Minus, num(2), TokenType::Minus, num(3)]);
    let e = p.parse_term().unwrap();
    let (l, op, r) = binary_parts(&e);
    assert!(matches!(op, TokenType::Minus));
    assert_eq!(int_of(r), 3);
    let (ll, _, lr) = binary_parts(l);
    assert_eq!(int_of(ll), 1);
    assert_eq!(int_of(lr), 2);
}

#[test]
fn division_is_left_associative() {
    let mut p = parser(vec![num(8), TokenType::Slash, num(4), TokenType::Slash, num(2)]);
    let e = p.parse_factor().unwrap();
    let (l, op, r) = binary_parts(&e);
    assert!(matches!(op, TokenType::Slash));
    assert_eq!(int_of(r), 2);
    let (ll, _, lr) = binary_parts(l);
    assert_eq!(int_of(ll), 8);
    assert_eq!(int_of(lr), 4);
}

#[test]
fn equality_below_comparison() {
    let mut p = parser(vec![num(1), TokenType::Less, num(2), TokenType::Compare, TokenType::BoolLiteral(true)]);
    let e = p.parse_equality().unwrap();
    let (l, op, r) = binary_parts(&e);
    assert!(matches!(op, TokenType::Compare));
    assert!(matches!(r.kind, ExpressionKind::Bool(true)));
    let (_, lop, _) = binary_parts(l);
    assert!(matches!(lop, TokenType::Less));
}

#[test]
fn comparison_operators_chain_left() {
    let mut p = parser(vec![num(1), TokenType::LessEqual, num(2), TokenType::GreaterEqual, num(3)]);
    let e = p.parse_comparsion().unwrap();
    let (l, op, _) = binary_parts(&e);
    assert!(matches!(op, TokenType::GreaterEqual));
    let (_, lop, _) = binary_parts(l);
    assert!(matches!(lop, TokenType::LessEqual));
}

#[test]
fn compound_assignment_desugars_to_assignment() {
    let mut p = parser(vec![id("x"), TokenType::PlusEqual, num(1)]);
    let e = p.parse_expression().unwrap();
    match &e.kind {
        ExpressionKind::Assign { name, value } => {
            assert_eq!(name, "x");
            let (l, op, r) = binary_parts(value);
            assert_eq!(name_of(l), "x");
            assert!(matches!(op, TokenType::Plus));
            assert_eq!(int_of(r), 1);
        },
        _ => panic!("expected an assignment, got {:?}", e),
    }
    assert_eq!(e.span, Span::new(0, 5));
}

#[test]
fn each_compound_operator_applies_its_base() {
    let cases = vec![
        (TokenType::MinusEqual, "-"),
        (TokenType::StarEqual, "*"),
        (TokenType::SlashEqual, "/"),
    ];
    for (op, text) in cases {
        let mut p = parser(vec![id("y"), op, num(2)]);
        let e = p.parse_expression().unwrap();
        let base = match &e.kind {
            ExpressionKind::Assign { value, .. } => binary_parts(value).1,
            _ => panic!("expected an assignment for {}", text),
        };
        let ok = match text {
            "-" => matches!(base, TokenType::Minus),
            "*" => matches!(base, TokenType::Star),
            _ => matches!(base, TokenType::Slash),
        };
        assert!(ok, "wrong base operator for {}", text);
    }
}

#[test]
fn compound_operator_on_non_name_stays_binary() {
    let mut p = parser(vec![num(1), TokenType::PlusEqual, num(2)]);
    let e = p.parse_expression().unwrap();
    let (_, op, _) = binary_parts(&e);
    assert!(matches!(op, TokenType::PlusEqual));
}

#[test]
fn unary_operators_nest() {
    let mut p = parser(vec![TokenType::Minus, TokenType::Bang, id("x")]);
    let e = p.parse_unary().unwrap();
    match &e.kind {
        ExpressionKind::Unary { operator: TokenType::Minus, operand } => match &operand.kind {
            ExpressionKind::Unary { operator: TokenType::Bang, operand } => {
                assert_eq!(name_of(operand), "x");
            },
            _ => panic!("expected `!`"),
        },
        _ => panic!("expected `-`"),
    }
    assert_eq!(e.span, Span::new(0, 5));
}

#[test]
fn plain_assignment() {
    let mut p = parser(vec![id("x"), TokenType::Assign, num(4), TokenType::Plus, num(1)]);
    let e = p.parse_expression().unwrap();
    match &e.kind {
        ExpressionKind::Assign { name, value } => {
            assert_eq!(name, "x");
            let (_, op, _) = binary_parts(value);
            assert!(matches!(op, TokenType::Plus));
        },
        _ => panic!("expected an assignment"),
    }
}

#[test]
fn call_with_arguments() {
    let mut p = parser(vec![
        id("f"),
        TokenType::LeftParen,
        num(1),
        TokenType::Comma,
        num(2),
        TokenType::RightParen,
    ]);
    let e = p.parse_expression().unwrap();
    match &e.kind {
        ExpressionKind::Call { name, args } => {
            assert_eq!(name, "f");
            assert_eq!(args.len(), 2);
            assert_eq!(int_of(&args[0]), 1);
            assert_eq!(int_of(&args[1]), 2);
        },
        _ => panic!("expected a call"),
    }
    assert_eq!(e.span, Span::new(0, 11));
    assert_eq!(p.current, 6);
}

#[test]
fn call_without_arguments() {
    let mut p = parser(vec![id("g"), TokenType::LeftParen, TokenType::RightParen]);
    let e = p.parse_expression().unwrap();
    match &e.kind {
        ExpressionKind::Call { name, args } => {
            assert_eq!(name, "g");
            assert!(args.is_empty());
        },
        _ => panic!("expected a call"),
    }
}

#[test]
fn nested_indexing() {
    let mut p = parser(vec![
        id("a"),
        TokenType::LeftBracket,
        num(1),
        TokenType::RightBracket,
        TokenType::LeftBracket,
        num(2),
        TokenType::RightBracket,
    ]);
    let e = p.parse_expression().unwrap();
    match &e.kind {
        ExpressionKind::Index { target, index } => {
            assert_eq!(int_of(index), 2);
            match &target.kind {
                ExpressionKind::Index { target, index } => {
                    assert_eq!(name_of(target), "a");
                    assert_eq!(int_of(index), 1);
                },
                _ => panic!("expected inner index"),
            }
        },
        _ => panic!("expected an index"),
    }
    assert_eq!(e.span, Span::new(0, 13));
}

#[test]
fn indexed_assignment() {
    let mut p = parser(vec![
        id("a"),
        TokenType::LeftBracket,
        num(1),
        TokenType::RightBracket,
        TokenType::Assign,
        num(5),
    ]);
    let e = p.parse_expression().unwrap();
    match &e.kind {
        ExpressionKind::IndexAssign { target, index, value } => {
            assert_eq!(name_of(target), "a");
            assert_eq!(int_of(index), 1);
            assert_eq!(int_of(value), 5);
        },
        _ => panic!("expected an indexed assignment"),
    }
}

#[test]
fn nested_indexed_assignment_parses() {
    let mut p = parser(vec![
        id("m"),
        TokenType::LeftBracket,
        num(0),
        TokenType::RightBracket,
        TokenType::LeftBracket,
        num(1),
        TokenType::RightBracket,
        TokenType::Assign,
        num(7),
    ]);
    let e = p.parse_expression().unwrap();
    match &e.kind {
        ExpressionKind::IndexAssign { target, index, value } => {
            assert_eq!(int_of(index), 1);
            assert_eq!(int_of(value), 7);
            match &target.kind {
                ExpressionKind::Index { target, index } => {
                    assert_eq!(name_of(target), "m");
                    assert_eq!(int_of(index), 0);
                },
                _ => panic!("expected an index target"),
            }
        },
        _ => panic!("expected an indexed assignment"),
    }
}

#[test]
fn array_literal() {
    let mut p = parser(vec![
        TokenType::LeftBracket,
        num(1),
        TokenType::Comma,
        num(2),
        TokenType::RightBracket,
    ]);
    let e = p.parse_expression().unwrap();
    match &e.kind {
        ExpressionKind::ArrayLiteral(items) => {
            assert_eq!(items.len(), 2);
            assert_eq!(int_of(&items[1]), 2);
        },
        _ => panic!("expected an array literal"),
    }
    assert!(p.diagnostics.is_empty());
    assert_eq!(e.span, Span::new(0, 9));
}

#[test]
fn empty_array_literal() {
    let mut p = parser(vec![TokenType::LeftBracket, TokenType::RightBracket]);
    let e = p.parse_expression().unwrap();
    assert!(matches!(&e.kind, ExpressionKind::ArrayLiteral(items) if items.is_empty()));
}

#[test]
fn missing_comma_in_array_is_diagnosed() {
    let mut p = parser(vec![TokenType::LeftBracket, num(1), num(2), TokenType::RightBracket]);
    let e = p.parse_expression().unwrap();
    assert!(matches!(&e.kind, ExpressionKind::ArrayLiteral(items) if items.len() == 2));
    assert_eq!(p.diagnostics.len(), 1);
    assert_eq!(p.diagnostics[0].message, "expected ',' between array items");
    assert_eq!(p.diagnostics[0].reason, Reason::Parse);
}

#[test]
fn grouping_overrides_precedence() {
    let mut p = parser(vec![
        TokenType::LeftParen,
        num(1),
        TokenType::Plus,
        num(2),
        TokenType::RightParen,
        TokenType::Star,
        num(3),
    ]);
    let e = p.parse_expression().unwrap();
    let (l, op, _) = binary_parts(&e);
    assert!(matches!(op, TokenType::Star));
    match &l.kind {
        ExpressionKind::Grouping(inner) => {
            let (_, iop, _) = binary_parts(inner);
            assert!(matches!(iop, TokenType::Plus));
        },
        _ => panic!("expected a grouping"),
    }
}

#[test]
fn literals_parse_to_their_kinds() {
    let mut p = parser(vec![TokenType::StringLiteral("hi".to_string())]);
    assert!(matches!(&p.parse_expression().unwrap().kind, ExpressionKind::String(s) if s == "hi"));
    let mut p = parser(vec![TokenType::CharacterLiteral('z')]);
    assert!(matches!(p.parse_expression().unwrap().kind, ExpressionKind::Character('z')));
    let mut p = parser(vec![TokenType::BoolLiteral(false)]);
    assert!(matches!(p.parse_expression().unwrap().kind, ExpressionKind::Bool(false)));
}

#[test]
fn missing_expression_is_an_error() {
    let mut p = parser(vec![]);
    let e = p.parse_expression().unwrap_err();
    assert_eq!(e.message, "Expected expression");
    assert_eq!(e.reason, Reason::Parse);
    let mut p = parser(vec![TokenType::RightParen]);
    assert_eq!(p.parse_expression().unwrap_err().message, "Expected expression");
    assert_eq!(p.current, 0);
    let mut p = parser(vec![num(1), TokenType::Plus]);
    assert_eq!(p.parse_expression().unwrap_err().message, "Expected expression");
}

#[test]
fn const_scalar_declaration() {
    // `const int x = 5`, with `const` already consumed.
    let mut p = parser(vec![TokenType::Const, TokenType::Int, id("x"), TokenType::Assign, num(5)]);
    let start = p.peek_span();
    p.advance();
    let s = p.parse_const_declartion(start).unwrap();
    match &s {
        Statement::ConstantDeclaration { name, type_annotation, value, span } => {
            assert_eq!(name, "x");
            assert!(matches!(type_annotation, TypeAnnotation::Int));
            assert_eq!(int_of(value), 5);
            assert_eq!(*span, Span::new(0, 9));
        },
        _ => panic!("expected a constant declaration"),
    }
    assert!(p.diagnostics.is_empty());
}

#[test]
fn const_array_declaration() {
    // `const array[int] xs = [1, 2]`
    let mut p = parser(vec![
        TokenType::Const,
        TokenType::Array,
        TokenType::LeftBracket,
        TokenType::Int,
        TokenType::RightBracket,
        id("xs"),
        TokenType::Assign,
        TokenType::LeftBracket,
        num(1),
        TokenType::Comma,
        num(2),
        TokenType::RightBracket,
    ]);
    let start = p.peek_span();
    p.advance();
    let s = p.parse_const_declartion(start).unwrap();
    match &s {
        Statement::ConstantArray { name, type_annotation, value, span } => {
            assert_eq!(name, "xs");
            assert!(matches!(type_annotation, TypeAnnotation::Int));
            assert_eq!(value.len(), 2);
            assert_eq!(int_of(&value[0]), 1);
            assert_eq!(*span, Span::new(0, 23));
        },
        _ => panic!("expected a constant array"),
    }
    assert_eq!(p.current, 12);
    assert!(p.diagnostics.is_empty());
}

#[test]
fn const_array_type_scalar_declaration() {
    // `const array[int] ys = 3` parses through `array [` as an array declaration
    // whose `[` is missing, which is diagnosed.
    let mut p = parser(vec![
        TokenType::Const,
        TokenType::Array,
        TokenType::LeftBracket,
        TokenType::Int,
        TokenType::RightBracket,
        id("ys"),
        TokenType::Assign,
        num(3),
        TokenType::RightBracket,
    ]);
    let start = p.peek_span();
    p.advance();
    let s = p.parse_const_declartion(start).unwrap();
    assert!(matches!(&s, Statement::ConstantArray { value, .. } if value.len() == 1));
    assert_eq!(p.diagnostics.len(), 1);
    assert_eq!(p.diagnostics[0].message, "expected '[' after type");
}

#[test]
fn const_missing_equals_is_diagnosed() {
    let mut p = parser(vec![TokenType::Int, id("x"), num(5)]);
    let s = p.parse_const_declartion(Span::new(0, 0)).unwrap();
    assert!(matches!(&s, Statement::ConstantDeclaration { name, .. } if name == "x"));
    assert_eq!(p.diagnostics.len(), 1);
    assert_eq!(p.diagnostics[0].message, "expected '=' after name");
}

#[test]
fn const_missing_name_is_an_error() {
    let mut p = parser(vec![TokenType::Int, TokenType::Assign, num(5)]);
    let e = p.parse_const_declartion(Span::new(0, 0)).unwrap_err();
    assert_eq!(e.message, "expected name after type");
}

#[test]
fn const_missing_type_is_an_error() {
    let mut p = parser(vec![id("x"), TokenType::Assign, num(5)]);
    let e = p.parse_const_declartion(Span::new(0, 0)).unwrap_err();
    assert_eq!(e.message, "expected type");
}

#[test]
fn nested_array_type() {
    let mut p = parser(vec![
        TokenType::Array,
        TokenType::LeftBracket,
        TokenType::Bool,
        TokenType::RightBracket,
    ]);
    let t = p.parse_type().unwrap();
    assert!(matches!(t, TypeAnnotation::Array(inner) if matches!(*inner, TypeAnnotation::Bool)));
    assert_eq!(p.current, 4);
}

#[test]
fn if_statement_with_else() {
    // `if x { y } else { z }`, with `if` already consumed.
    let mut p = parser(vec![
        id("x"),
        TokenType::LeftBrace,
        id("y"),
        TokenType::RightBrace,
        TokenType::Else,
        TokenType::LeftBrace,
        id("z"),
        TokenType::RightBrace,
    ]);
    let s = p.parse_if().unwrap();
    match &s {
        Statement::Conditional { if_branch, elseif_branch, else_branch } => {
            match &**if_branch {
                Statement::ConditionalBranch { condition: Some(c), body } => {
                    assert_eq!(name_of(c), "x");
                    assert_eq!(body.len(), 1);
                },
                _ => panic!("expected a guarded branch"),
            }
            assert!(matches!(elseif_branch, Some(bs) if bs.is_empty()));
            // The block after a plain `else` is parsed and not kept.
            match else_branch {
                Some(b) => assert!(matches!(&**b, Statement::ConditionalBranch { condition: None, body } if body.is_empty())),
                None => panic!("expected an else branch"),
            }
        },
        _ => panic!("expected a conditional"),
    }
    assert_eq!(p.current, 8);
}

#[test]
fn if_statement_without_else() {
    let mut p = parser(vec![TokenType::BoolLiteral(true), TokenType::LeftBrace, TokenType::RightBrace]);
    let s = p.parse_if().unwrap();
    assert!(matches!(&s, Statement::Conditional { elseif_branch: Some(bs), .. } if bs.is_empty()));
    assert_eq!(p.current, 3);
}

#[test]
fn else_if_reads_the_if_keyword_as_its_condition() {
    let mut p = parser(vec![
        id("a"),
        TokenType::LeftBrace,
        TokenType::RightBrace,
        TokenType::Else,
        TokenType::If,
        id("b"),
        TokenType::LeftBrace,
        TokenType::RightBrace,
    ]);
    let e = p.parse_if().unwrap_err();
    assert_eq!(e.message, "Expected expression");
}

#[test]
fn if_without_block_is_an_error() {
    let mut p = parser(vec![id("a"), id("b")]);
    assert_eq!(p.parse_if().unwrap_err().message, "expected '{'");
}

#[test]
fn while_statement() {
    let mut p = parser(vec![
        id("x"),
        TokenType::LeftBrace,
        id("y"),
        id("z"),
        TokenType::RightBrace,
    ]);
    let s = p.parse_while().unwrap();
    match &s {
        Statement::While { condition, body } => {
            assert_eq!(name_of(condition), "x");
            assert_eq!(body.len(), 2);
        },
        _ => panic!("expected a while loop"),
    }
}

#[test]
fn while_without_block_is_an_error() {
    let mut p = parser(vec![id("x"), id("y")]);
    assert_eq!(p.parse_while().unwrap_err().message, "expected '{'");
}

#[test]
fn statement_dispatch() {
    let mut p = parser(vec![TokenType::While, id("c"), TokenType::LeftBrace, TokenType::RightBrace]);
    assert!(matches!(p.parse_statement().unwrap(), Statement::While { .. }));
    let mut p = parser(vec![num(3)]);
    assert!(matches!(p.parse_statement().unwrap(), Statement::Expression(_)));
    let mut p = parser(vec![TokenType::Const, TokenType::Bool, id("f"), TokenType::Assign, TokenType::BoolLiteral(false)]);
    assert!(matches!(p.parse_statement().unwrap(), Statement::ConstantDeclaration { .. }));
}

#[test]
fn parser_cursor_helpers() {
    let mut p = parser(vec![num(1), TokenType::Plus]);
    assert!(matches!(p.peek(), TokenType::NumberLiteral(1)));
    assert!(matches!(p.previous(), TokenType::EOF));
    assert!(p.check(&TokenType::NumberLiteral(9)));
    assert!(!p.match_type(&TokenType::Plus));
    assert!(p.match_type(&TokenType::NumberLiteral(0)));
    assert_eq!(p.previous_span(), Span::new(0, 1));
    assert_eq!(p.peek_span(), Span::new(2, 3));
    p.advance();
    p.advance();
    assert!(matches!(p.peek(), TokenType::EOF));
    assert_eq!(p.current, 2);
    p.report("note".to_string());
    assert_eq!(p.diagnostics[0].message, "note");
}

#[test]
fn array_constant_without_name_is_refused() {
    // `const array[int] = 1`: the statement parser reports the missing name.
    let mut p = parser(vec![
        TokenType::Const,
        TokenType::Array,
        TokenType::LeftBracket,
        TokenType::Int,
        TokenType::RightBracket,
        TokenType::Assign,
        num(1),
    ]);
    assert_eq!(p.parse_statement().unwrap_err().message, "expected name after array type");
    let mut p = parser(vec![TokenType::Const, TokenType::Array, TokenType::LeftBracket, TokenType::Assign]);
    assert_eq!(p.parse_statement().unwrap_err().message, "expected type after dec");
}
