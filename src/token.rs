//! Tokens, and their model with character sequences for payloads.
use vstd::prelude::*;

verus! {

/// A classified token. `Number` carries the literal's text (ASCII digits with
/// at most one `.`, which is followed by a digit); its value is the decimal
/// number that text spells.
#[derive(Debug, PartialEq)]
pub enum TokenType {
    // Single-character tokens.
    LeftParen,
    RightParen,
    LeftBrace,
    RightBrace,
    // One or two character tokens.
    Comma,
    Dot,
    Minus,
    Plus,
    Semicolon,
    Slash,
    Star,
    Bang,
    BangEqual,
    Equal,
    EqualEqual,
    Greater,
    GreaterEqual,
    Less,
    LessEqual,
    // Literals.
    Identifier(String),
    String(String),
    Number(String),
    // Keywords.
    And,
    Class,
    Else,
    False,
    Fun,
    For,
    If,
    Nil,
    Or,
    Print,
    Return,
    Super,
    This,
    True,
    Var,
    While,
    Error(String),
    Eof,
}

/// The mathematical model of a [`TokenType`]: payloads become character
/// sequences.
pub enum Token {
    // Single-character tokens.
    LeftParen,
    RightParen,
    LeftBrace,
    RightBrace,
    // One or two character tokens.
    Comma,
    Dot,
    Minus,
    Plus,
    Semicolon,
    Slash,
    Star,
    Bang,
    BangEqual,
    Equal,
    EqualEqual,
    Greater,
    GreaterEqual,
    Less,
    LessEqual,
    // Literals.
    Identifier(Seq<char>),
    String(Seq<char>),
    Number(Seq<char>),
    // Keywords.
    And,
    Class,
    Else,
    False,
    Fun,
    For,
    If,
    Nil,
    Or,
    Print,
    Return,
    Super,
    This,
    True,
    Var,
    While,
    Error(Seq<char>),
    Eof,
}

impl View for TokenType {
    type V = Token;

    open spec fn view(&self) -> Token {
        match self {
            TokenType::LeftParen => Token::LeftParen,
            TokenType::RightParen => Token::RightParen,
            TokenType::LeftBrace => Token::LeftBrace,
            TokenType::RightBrace => Token::RightBrace,
            TokenType::Comma => Token::Comma,
            TokenType::Dot => Token::Dot,
            TokenType::Minus => Token::Minus,
            TokenType::Plus => Token::Plus,
            TokenType::Semicolon => Token::Semicolon,
            TokenType::Slash => Token::Slash,
            TokenType::Star => Token::Star,
            TokenType::Bang => Token::Bang,
            TokenType::BangEqual => Token::BangEqual,
            TokenType::Equal => Token::Equal,
            TokenType::EqualEqual => Token::EqualEqual,
            TokenType::Greater => Token::Greater,
            TokenType::GreaterEqual => Token::GreaterEqual,
            TokenType::Less => Token::Less,
            TokenType::LessEqual => Token::LessEqual,
            TokenType::And => Token::And,
            TokenType::Class => Token::Class,
            TokenType::Else => Token::Else,
            TokenType::False => Token::False,
            TokenType::Fun => Token::Fun,
            TokenType::For => Token::For,
            TokenType::If => Token::If,
            TokenType::Nil => Token::Nil,
            TokenType::Or => Token::Or,
            TokenType::Print => Token::Print,
            TokenType::Return => Token::Return,
            TokenType::Super => Token::Super,
            TokenType::This => Token::This,
            TokenType::True => Token::True,
            TokenType::Var => Token::Var,
            TokenType::While => Token::While,
            TokenType::Eof => Token::Eof,
            TokenType::Identifier(text) => Token::Identifier(text@),
            TokenType::String(text) => Token::String(text@),
            TokenType::Number(text) => Token::Number(text@),
            TokenType::Error(text) => Token::Error(text@),
        }
    }
}

} // verus!
