//! The closed set of lexical categories a token can belong to.

use vstd::prelude::*;

verus! {

/// An enum for token types.
///
/// Every token the scanner produces carries exactly one of these categories;
/// the set is closed, so consumers can match exhaustively.
#[derive(Debug, Clone, Copy, PartialEq, Eq, Structural)]
pub enum TokenType {
    // single-character tokens
    LeftParen,
    RightParen,
    LeftBrace,
    RightBrace,
    Comma,
    Dot,
    Minus,
    Negative,
    Plus,
    Semicolon,
    Slash,
    Star,
    Not,
    NotEqual,
    Greater,
    GreaterEqual,
    Less,
    LessEqual,
    Assignment,
    EqualityTest,
    // literals
    Identifier,
    String,
    Number,
    // keywords
    And,
    Else,
    False,
    Fun,
    For,
    If,
    Nil,
    Or,
    Print,
    Return,
    True,
    Var,
    While,
    // end of input
    EOF,
}

impl TokenType {
    /// The printable name of this category, as a sequence of characters.
    pub open spec fn spec_name(self) -> Seq<char> {
        match self {
            TokenType::LeftParen => "LeftParen"@,
            TokenType::RightParen => "RightParen"@,
            TokenType::LeftBrace => "LeftBrace"@,
            TokenType::RightBrace => "RightBrace"@,
            TokenType::Comma => "Comma"@,
            TokenType::Dot => "Dot"@,
            TokenType::Minus => "Minus"@,
            TokenType::Negative => "Negative"@,
            TokenType::Plus => "Plus"@,
            TokenType::Semicolon => "Semicolon"@,
            TokenType::Slash => "Slash"@,
            TokenType::Star => "Star"@,
            TokenType::Not => "Not"@,
            TokenType::NotEqual => "NotEqual"@,
            TokenType::Greater => "Greater"@,
            TokenType::GreaterEqual => "GreaterEqual"@,
            TokenType::Less => "Less"@,
            TokenType::LessEqual => "LessEqual"@,
            TokenType::Assignment => "Assignment"@,
            TokenType::EqualityTest => "EqualityTest"@,
            TokenType::Identifier => "Identifier"@,
            TokenType::String => "String"@,
            TokenType::Number => "Number"@,
            TokenType::And => "And"@,
            TokenType::Else => "Else"@,
            TokenType::False => "False"@,
            TokenType::Fun => "Fun"@,
            TokenType::For => "For"@,
            TokenType::If => "If"@,
            TokenType::Nil => "Nil"@,
            TokenType::Or => "Or"@,
            TokenType::Print => "Print"@,
            TokenType::Return => "Return"@,
            TokenType::True => "True"@,
            TokenType::Var => "Var"@,
            TokenType::While => "While"@,
            TokenType::EOF => "EOF"@,
        }
    }

    /// The printable name of this category.
    pub fn name(&self) -> (r: &'static str)
        ensures
            r@ == self.spec_name(),
    {
        match self {
            TokenType::LeftParen => "LeftParen",
            TokenType::RightParen => "RightParen",
            TokenType::LeftBrace => "LeftBrace",
            TokenType::RightBrace => "RightBrace",
            TokenType::Comma => "Comma",
            TokenType::Dot => "Dot",
            TokenType::Minus => "Minus",
            TokenType::Negative => "Negative",
            TokenType::Plus => "Plus",
            TokenType::Semicolon => "Semicolon",
            TokenType::Slash => "Slash",
            TokenType::Star => "Star",
            TokenType::Not => "Not",
            TokenType::NotEqual => "NotEqual",
            TokenType::Greater => "Greater",
            TokenType::GreaterEqual => "GreaterEqual",
            TokenType::Less => "Less",
            TokenType::LessEqual => "LessEqual",
            TokenType::Assignment => "Assignment",
            TokenType::EqualityTest => "EqualityTest",
            TokenType::Identifier => "Identifier",
            TokenType::String => "String",
            TokenType::Number => "Number",
            TokenType::And => "And",
            TokenType::Else => "Else",
            TokenType::False => "False",
            TokenType::Fun => "Fun",
            TokenType::For => "For",
            TokenType::If => "If",
            TokenType::Nil => "Nil",
            TokenType::Or => "Or",
            TokenType::Print => "Print",
            TokenType::Return => "Return",
            TokenType::True => "True",
            TokenType::Var => "Var",
            TokenType::While => "While",
            TokenType::EOF => "EOF",
        }
    }
}

} // verus!
