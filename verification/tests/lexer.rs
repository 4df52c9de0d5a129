use lib::errors::Reason;
use lib::lexer::Tokenizer;
use lib::tokens::TokenType;

fn scan(source: &str) -> Tokenizer {
    let mut t = Tokenizer::new(source);
    // The opening quote is consumed before the literal is scanned.
    t.advance();
    t.start = 0;
    t.character_literal();
    t
}

fn scanned_char(source: &str) -> char {
    let t = scan(source);
    assert!(t.errors.is_empty(), "unexpected error for {:?}", source);
    assert_eq!(t.tokens.len(), 1);
    match t.tokens[0].token {
        TokenType::CharacterLiteral(c) => c,
        _ => panic!("expected a character literal"),
    }
}

fn scan_error(source: &str) -> String {
    let t = scan(source);
    assert!(t.tokens.is_empty());
    assert_eq!(t.errors.len(), 1);
    assert_eq!(t.errors[0].reason, Reason::Lexer);
    assert_eq!(t.errors[0].line, Some(1));
    t.errors[0].message.clone()
}

#[test]
fn plain_character_literal() {
    let t = scan("'a'");
    assert_eq!(t.tokens.len(), 1);
    assert!(matches!(t.tokens[0].token, TokenType::CharacterLiteral('a')));
    assert_eq!(t.tokens[0].span.start, 0);
    assert_eq!(t.tokens[0].span.end, 3);
    assert_eq!(t.current, 3);
    assert!(t.errors.is_empty());
}

#[test]
fn character_literal_leaves_rest_of_source() {
    let t = scan("'x' + 1");
    assert_eq!(t.current, 3);
    assert!(matches!(t.tokens[0].token, TokenType::CharacterLiteral('x')));
}

#[test]
fn escaped_character_literals() {
    assert_eq!(scanned_char("'\\n'"), '\n');
    assert_eq!(scanned_char("'\\t'"), '\t');
    assert_eq!(scanned_char("'\\r'"), '\r');
    assert_eq!(scanned_char("'\\\\'"), '\\');
    assert_eq!(scanned_char("'\\''"), '\'');
    assert_eq!(scanned_char("'\\0'"), '\0');
}

#[test]
fn escaped_literal_span_covers_both_characters() {
    let t = scan("'\\n'");
    assert_eq!(t.tokens[0].span.end, 4);
    assert_eq!(t.current, 4);
}

#[test]
fn non_ascii_character_literal() {
    assert_eq!(scanned_char("'é'"), 'é');
}

#[test]
fn unknown_escape_is_reported() {
    assert_eq!(scan_error("'\\q'"), "unknown escape sequence '\\q'");
    let t = scan("'\\q'");
    assert_eq!(t.current, 3);
}

#[test]
fn unterminated_character_literal() {
    assert_eq!(scan_error("'a"), "unterminated character literal");
    assert_eq!(scan_error("'ab'"), "unterminated character literal");
    assert_eq!(scan_error("'\\n"), "unterminated character literal");
}

#[test]
fn quote_at_end_of_source() {
    assert_eq!(scan_error("'"), "unterminated character literal");
    let t = scan("'");
    assert_eq!(t.current, 1);
}

#[test]
fn advance_and_peek() {
    let mut t = Tokenizer::new("ab");
    assert_eq!(t.peek(), 'a');
    assert_eq!(t.advance(), 'a');
    assert_eq!(t.advance(), 'b');
    assert!(t.is_at_end());
    assert_eq!(t.peek(), '\0');
}
