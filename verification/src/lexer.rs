use vstd::prelude::*;

use crate::errors::{error_init, Error, ErrorView, Reason};
use crate::span::Span;
use crate::suggest::chars_of;
use crate::text::{push_char, push_str, string_of};
use crate::tokens::{Token, TokenModel, TokenType};

verus! {

/// Turns source text into tokens, recording the errors it meets on the way.
pub struct Tokenizer {
    pub source: Vec<char>,
    pub start: usize,
    pub current: usize,
    pub line: usize,
    pub tokens: Vec<Token>,
    pub errors: Vec<Error>,
}

pub open spec fn token_models(s: Seq<Token>) -> Seq<TokenModel> {
    s.map_values(|t: Token| t@)
}

pub open spec fn error_views(s: Seq<Error>) -> Seq<ErrorView> {
    s.map_values(|e: Error| e@)
}

/// How scanning a character literal ends: with the character and the position
/// after the closing quote, or with a message and the position reached.
pub enum CharScan {
    Scanned(char, int),
    Failed(Seq<char>, int),
}

/// The character an escape sequence `\c` stands for, if `c` names one.
pub open spec fn escape_of(c: char) -> Option<char> {
    if c == 'n' {
        Some('\n')
    } else if c == 't' {
        Some('\t')
    } else if c == 'r' {
        Some('\r')
    } else if c == '\\' {
        Some('\\')
    } else if c == '\'' {
        Some('\'')
    } else if c == '0' {
        Some('\0')
    } else {
        None
    }
}

/// Scanning a character literal whose opening quote ends just before `cur`:
/// one character or one escape sequence, then the closing quote.
pub open spec fn scan_char_literal(src: Seq<char>, cur: int) -> CharScan {
    let c1 = if cur < src.len() { cur + 1 } else { cur };
    if c1 >= src.len() {
        CharScan::Failed("unterminated character literal"@, c1)
    } else {
        let character = src[c1 - 1];
        if character == '\\' {
            let escaped = src[c1];
            let c2 = c1 + 1;
            match escape_of(escaped) {
                None => CharScan::Failed("unknown escape sequence '\\"@.push(escaped) + "'"@, c2),
                Some(value) => if c2 < src.len() && src[c2] == '\'' {
                    CharScan::Scanned(value, c2 + 1)
                } else {
                    CharScan::Failed("unterminated character literal"@, c2)
                },
            }
        } else {
            if c1 < src.len() && src[c1] == '\'' {
                CharScan::Scanned(character, c1 + 1)
            } else {
                CharScan::Failed("unterminated character literal"@, c1)
            }
        }
    }
}

impl Tokenizer {
    /// A tokenizer at the start of `source`.
    pub fn new(source: &str) -> (t: Tokenizer)
        ensures
            t.source@ == source@,
            t.start == 0,
            t.current == 0,
            t.line == 1,
            t.tokens@.len() == 0,
            t.errors@.len() == 0,
    {
        Tokenizer {
            source: chars_of(source),
            start: 0,
            current: 0,
            line: 1,
            tokens: Vec::new(),
            errors: Vec::new(),
        }
    }

    pub fn is_at_end(&self) -> (b: bool)
        ensures
            b == (self.current >= self.source.len()),
    {
        self.current >= self.source.len()
    }

    /// The character at the current position, `'\0'` past the end.
    pub fn peek(&self) -> (c: char)
        ensures
            c == (if self.current < self.source.len() {
                self.source@[self.current as int]
            } else {
                '\0'
            }),
    {
        if self.current < self.source.len() {
            self.source[self.current]
        } else {
            '\0'
        }
    }

    /// Moves past the current character and gives it; stays put past the end.
    pub fn advance(&mut self) -> (c: char)
        ensures
            final(self).source == old(self).source,
            final(self).start == old(self).start,
            final(self).line == old(self).line,
            final(self).tokens == old(self).tokens,
            final(self).errors == old(self).errors,
            old(self).current < old(self).source.len() ==> final(self).current == old(self).current + 1
                && c == old(self).source@[old(self).current as int],
            old(self).current >= old(self).source.len() ==> final(self).current == old(self).current
                && c == '\0',
    {
        if self.current < self.source.len() {
            let c = self.source[self.current];
            self.current = self.current + 1;
            c
        } else {
            '\0'
        }
    }

    /// Adds a token of kind `token` covering the text from `start` to the current position.
    pub fn add_token(&mut self, token: TokenType)
        ensures
            final(self).source == old(self).source,
            final(self).start == old(self).start,
            final(self).current == old(self).current,
            final(self).line == old(self).line,
            final(self).errors == old(self).errors,
            final(self).tokens@ == old(self).tokens@.push(
                Token { token, span: Span { start: old(self).start, end: old(self).current } },
            ),
    {
        let span = Span { start: self.start, end: self.current };
        self.tokens.push(Token { token, span });
    }

    /// Records a lexer error on the current line.
    fn report(&mut self, message: String)
        ensures
            final(self).source == old(self).source,
            final(self).start == old(self).start,
            final(self).current == old(self).current,
            final(self).line == old(self).line,
            final(self).tokens == old(self).tokens,
            error_views(final(self).errors@) == error_views(old(self).errors@).push(
                error_init(message@, Some(old(self).line), Reason::Lexer),
            ),
    {
        let e = Error::init(message, Some(self.line), Reason::Lexer);
        let ghost before = self.errors@;
        self.errors.push(e);
        proof {
            assert(error_views(self.errors@) =~= error_views(before).push(
                error_init(message@, Some(old(self).line), Reason::Lexer),
            ));
        }
    }

    /// Scans a single-quoted character literal whose opening quote has been
    /// consumed: one character, or one of the escapes `\n \t \r \\ \' \0`, then
    /// the closing quote. Adds a `CharacterLiteral` token, or records an error.
    pub fn character_literal(&mut self)
        ensures
            final(self).source == old(self).source,
            final(self).start == old(self).start,
            final(self).line == old(self).line,
            match scan_char_literal(old(self).source@, old(self).current as int) {
                CharScan::Scanned(value, end) => {
                    &&& final(self).current == end
                    &&& final(self).errors == old(self).errors
                    &&& final(self).tokens@ == old(self).tokens@.push(
                        Token {
                            token: TokenType::CharacterLiteral(value),
                            span: Span { start: old(self).start, end: end as usize },
                        },
                    )
                },
                CharScan::Failed(message, end) => {
                    &&& final(self).current == end
                    &&& final(self).tokens == old(self).tokens
                    &&& error_views(final(self).errors@) == error_views(old(self).errors@).push(
                        error_init(message, Some(old(self).line), Reason::Lexer),
                    )
                },
            },
    {
        self.advance();
        if self.is_at_end() {
            self.report(string_of("unterminated character literal"));
            return;
        }
        let character = self.source[self.current - 1];
        let value: char = if character == '\\' {
            let escaped = self.source[self.current];
            self.advance();
            match escaped {
                'n' => '\n',
                't' => '\t',
                'r' => '\r',
                '\\' => '\\',
                '\'' => '\'',
                '0' => '\0',
                _ => {
                    let mut message = string_of("unknown escape sequence '\\");
                    push_char(&mut message, escaped);
                    push_str(&mut message, "'");
                    self.report(message);
                    return;
                },
            }
        } else {
            character
        };
        if self.peek() != '\'' {
            self.report(string_of("unterminated character literal"));
            return;
        }
        self.advance();
        self.add_token(TokenType::CharacterLiteral(value));
    }
}

} // verus!
