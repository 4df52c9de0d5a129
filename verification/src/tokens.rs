use vstd::prelude::*;

use crate::span::Span;
use crate::text::copy_string;

verus! {

/// The kinds of tokens the lexer produces, with their payloads.
#[derive(Debug)]
pub enum TokenType {
    Plus,
    Minus,
    Star,
    Slash,
    Bang,
    Assign,
    Compare,
    BangEqual,
    Less,
    LessEqual,
    Greater,
    GreaterEqual,
    PlusEqual,
    MinusEqual,
    StarEqual,
    SlashEqual,
    LeftParen,
    RightParen,
    LeftBracket,
    RightBracket,
    LeftBrace,
    RightBrace,
    Comma,
    Identifier(String),
    NumberLiteral(i64),
    StringLiteral(String),
    CharacterLiteral(char),
    BoolLiteral(bool),
    Int,
    Float,
    Bool,
    String,
    Char,
    Array,
    If,
    Else,
    While,
    Const,
    EOF,
}

/// The model of a token: the same variants, with text payloads as character sequences.
pub enum TokenView {
    Plus,
    Minus,
    Star,
    Slash,
    Bang,
    Assign,
    Compare,
    BangEqual,
    Less,
    LessEqual,
    Greater,
    GreaterEqual,
    PlusEqual,
    MinusEqual,
    StarEqual,
    SlashEqual,
    LeftParen,
    RightParen,
    LeftBracket,
    RightBracket,
    LeftBrace,
    RightBrace,
    Comma,
    Identifier(Seq<char>),
    NumberLiteral(i64),
    StringLiteral(Seq<char>),
    CharacterLiteral(char),
    BoolLiteral(bool),
    Int,
    Float,
    Bool,
    Str,
    Char,
    Array,
    If,
    Else,
    While,
    Const,
    EOF,
}

impl View for TokenType {
    type V = TokenView;

    open spec fn view(&self) -> TokenView {
        match self {
            TokenType::Plus => TokenView::Plus,
            TokenType::Minus => TokenView::Minus,
            TokenType::Star => TokenView::Star,
            TokenType::Slash => TokenView::Slash,
            TokenType::Bang => TokenView::Bang,
            TokenType::Assign => TokenView::Assign,
            TokenType::Compare => TokenView::Compare,
            TokenType::BangEqual => TokenView::BangEqual,
            TokenType::Less => TokenView::Less,
            TokenType::LessEqual => TokenView::LessEqual,
            TokenType::Greater => TokenView::Greater,
            TokenType::GreaterEqual => TokenView::GreaterEqual,
            TokenType::PlusEqual => TokenView::PlusEqual,
            TokenType::MinusEqual => TokenView::MinusEqual,
            TokenType::StarEqual => TokenView::StarEqual,
            TokenType::SlashEqual => TokenView::SlashEqual,
            TokenType::LeftParen => TokenView::LeftParen,
            TokenType::RightParen => TokenView::RightParen,
            TokenType::LeftBracket => TokenView::LeftBracket,
            TokenType::RightBracket => TokenView::RightBracket,
            TokenType::LeftBrace => TokenView::LeftBrace,
            TokenType::RightBrace => TokenView::RightBrace,
            TokenType::Comma => TokenView::Comma,
            TokenType::Identifier(s) => TokenView::Identifier(s@),
            TokenType::NumberLiteral(n) => TokenView::NumberLiteral(*n),
            TokenType::StringLiteral(s) => TokenView::StringLiteral(s@),
            TokenType::CharacterLiteral(c) => TokenView::CharacterLiteral(*c),
            TokenType::BoolLiteral(b) => TokenView::BoolLiteral(*b),
            TokenType::Int => TokenView::Int,
            TokenType::Float => TokenView::Float,
            TokenType::Bool => TokenView::Bool,
            TokenType::String => TokenView::Str,
            TokenType::Char => TokenView::Char,
            TokenType::Array => TokenView::Array,
            TokenType::If => TokenView::If,
            TokenType::Else => TokenView::Else,
            TokenType::While => TokenView::While,
            TokenType::Const => TokenView::Const,
            TokenType::EOF => TokenView::EOF,
        }
    }
}

/// A token together with where it stands in the source.
#[derive(Debug)]
pub struct Token {
    pub token: TokenType,
    pub span: Span,
}

pub struct TokenModel {
    pub token: TokenView,
    pub span: Span,
}

impl View for Token {
    type V = TokenModel;

    open spec fn view(&self) -> TokenModel {
        TokenModel { token: self.token@, span: self.span }
    }
}

/// Whether two tokens are of the same variant, whatever their payloads.
pub open spec fn same_variant(a: TokenView, b: TokenView) -> bool {
    match (a, b) {
        (TokenView::Identifier(_), TokenView::Identifier(_)) => true,
        (TokenView::NumberLiteral(_), TokenView::NumberLiteral(_)) => true,
        (TokenView::StringLiteral(_), TokenView::StringLiteral(_)) => true,
        (TokenView::CharacterLiteral(_), TokenView::CharacterLiteral(_)) => true,
        (TokenView::BoolLiteral(_), TokenView::BoolLiteral(_)) => true,
        _ => a == b,
    }
}

impl TokenType {
    /// A copy of this token kind with the same payload.
    pub fn duplicate(&self) -> (t: TokenType)
        ensures
            t@ == self@,
    {
        match self {
            TokenType::Plus => TokenType::Plus,
            TokenType::Minus => TokenType::Minus,
            TokenType::Star => TokenType::Star,
            TokenType::Slash => TokenType::Slash,
            TokenType::Bang => TokenType::Bang,
            TokenType::Assign => TokenType::Assign,
            TokenType::Compare => TokenType::Compare,
            TokenType::BangEqual => TokenType::BangEqual,
            TokenType::Less => TokenType::Less,
            TokenType::LessEqual => TokenType::LessEqual,
            TokenType::Greater => TokenType::Greater,
            TokenType::GreaterEqual => TokenType::GreaterEqual,
            TokenType::PlusEqual => TokenType::PlusEqual,
            TokenType::MinusEqual => TokenType::MinusEqual,
            TokenType::StarEqual => TokenType::StarEqual,
            TokenType::SlashEqual => TokenType::SlashEqual,
            TokenType::LeftParen => TokenType::LeftParen,
            TokenType::RightParen => TokenType::RightParen,
            TokenType::LeftBracket => TokenType::LeftBracket,
            TokenType::RightBracket => TokenType::RightBracket,
            TokenType::LeftBrace => TokenType::LeftBrace,
            TokenType::RightBrace => TokenType::RightBrace,
            TokenType::Comma => TokenType::Comma,
            TokenType::Identifier(s) => TokenType::Identifier(copy_string(s)),
            TokenType::NumberLiteral(n) => TokenType::NumberLiteral(*n),
            TokenType::StringLiteral(s) => TokenType::StringLiteral(copy_string(s)),
            TokenType::CharacterLiteral(c) => TokenType::CharacterLiteral(*c),
            TokenType::BoolLiteral(b) => TokenType::BoolLiteral(*b),
            TokenType::Int => TokenType::Int,
            TokenType::Float => TokenType::Float,
            TokenType::Bool => TokenType::Bool,
            TokenType::String => TokenType::String,
            TokenType::Char => TokenType::Char,
            TokenType::Array => TokenType::Array,
            TokenType::If => TokenType::If,
            TokenType::Else => TokenType::Else,
            TokenType::While => TokenType::While,
            TokenType::Const => TokenType::Const,
            TokenType::EOF => TokenType::EOF,
        }
    }

    /// Whether `self` and `other` are the same variant, payloads aside.
    pub fn same_variant(&self, other: &TokenType) -> (b: bool)
        ensures
            b == same_variant(self@, other@),
    {
        match (self, other) {
            (TokenType::Identifier(_), TokenType::Identifier(_)) => true,
            (TokenType::NumberLiteral(_), TokenType::NumberLiteral(_)) => true,
            (TokenType::StringLiteral(_), TokenType::StringLiteral(_)) => true,
            (TokenType::CharacterLiteral(_), TokenType::CharacterLiteral(_)) => true,
            (TokenType::BoolLiteral(_), TokenType::BoolLiteral(_)) => true,
            (TokenType::Identifier(_), _) => false,
            (TokenType::NumberLiteral(_), _) => false,
            (TokenType::StringLiteral(_), _) => false,
            (TokenType::CharacterLiteral(_), _) => false,
            (TokenType::BoolLiteral(_), _) => false,
            (_, TokenType::Identifier(_)) => false,
            (_, TokenType::NumberLiteral(_)) => false,
            (_, TokenType::StringLiteral(_)) => false,
            (_, TokenType::CharacterLiteral(_)) => false,
            (_, TokenType::BoolLiteral(_)) => false,
            _ => self.tag() == other.tag(),
        }
    }

    /// A number that tells payload-free variants apart.
    fn tag(&self) -> (n: u8)
        ensures
            self@ is Plus ==> n == 0,
            self@ is Minus ==> n == 1,
            self@ is Star ==> n == 2,
            self@ is Slash ==> n == 3,
            self@ is Bang ==> n == 4,
            self@ is Assign ==> n == 5,
            self@ is Compare ==> n == 6,
            self@ is BangEqual ==> n == 7,
            self@ is Less ==> n == 8,
            self@ is LessEqual ==> n == 9,
            self@ is Greater ==> n == 10,
            self@ is GreaterEqual ==> n == 11,
            self@ is PlusEqual ==> n == 12,
            self@ is MinusEqual ==> n == 13,
            self@ is StarEqual ==> n == 14,
            self@ is SlashEqual ==> n == 15,
            self@ is LeftParen ==> n == 16,
            self@ is RightParen ==> n == 17,
            self@ is LeftBracket ==> n == 18,
            self@ is RightBracket ==> n == 19,
            self@ is LeftBrace ==> n == 20,
            self@ is RightBrace ==> n == 21,
            self@ is Comma ==> n == 22,
            self@ is Int ==> n == 23,
            self@ is Float ==> n == 24,
            self@ is Bool ==> n == 25,
            self@ is Str ==> n == 26,
            self@ is Char ==> n == 27,
            self@ is Array ==> n == 28,
            self@ is If ==> n == 29,
            self@ is Else ==> n == 30,
            self@ is While ==> n == 31,
            self@ is Const ==> n == 32,
            self@ is EOF ==> n == 33,
            self@ is Identifier || self@ is NumberLiteral || self@ is StringLiteral
                || self@ is CharacterLiteral || self@ is BoolLiteral ==> n == 34,
    {
        match self {
            TokenType::Plus => 0,
            TokenType::Minus => 1,
            TokenType::Star => 2,
            TokenType::Slash => 3,
            TokenType::Bang => 4,
            TokenType::Assign => 5,
            TokenType::Compare => 6,
            TokenType::BangEqual => 7,
            TokenType::Less => 8,
            TokenType::LessEqual => 9,
            TokenType::Greater => 10,
            TokenType::GreaterEqual => 11,
            TokenType::PlusEqual => 12,
            TokenType::MinusEqual => 13,
            TokenType::StarEqual => 14,
            TokenType::SlashEqual => 15,
            TokenType::LeftParen => 16,
            TokenType::RightParen => 17,
            TokenType::LeftBracket => 18,
            TokenType::RightBracket => 19,
            TokenType::LeftBrace => 20,
            TokenType::RightBrace => 21,
            TokenType::Comma => 22,
            TokenType::Int => 23,
            TokenType::Float => 24,
            TokenType::Bool => 25,
            TokenType::String => 26,
            TokenType::Char => 27,
            TokenType::Array => 28,
            TokenType::If => 29,
            TokenType::Else => 30,
            TokenType::While => 31,
            TokenType::Const => 32,
            TokenType::EOF => 33,
            _ => 34,
        }
    }
}

} // verus!
