//! The token model: one immutable value per recognized lexical unit.

use vstd::prelude::*;

use crate::token_type::TokenType;

verus! {

/// The conceptual value a literal token denotes, distinct from its source
/// text. `NoLiteral` is the payload of every non-literal token.
#[derive(Debug, Clone, PartialEq)]
pub enum Literal {
    String(String),
    Bool(bool),
    NoLiteral,
}

/// The mathematical model of a [`Literal`]: the same tagged union with the
/// text payload abstracted to a sequence of characters.
#[verifier::ext_equal]
pub enum SpecLiteral {
    Str(Seq<char>),
    Bool(bool),
    NoLiteral,
}

impl View for Literal {
    type V = SpecLiteral;

    open spec fn view(&self) -> SpecLiteral {
        match self {
            Literal::String(s) => SpecLiteral::Str(s@),
            Literal::Bool(b) => SpecLiteral::Bool(*b),
            Literal::NoLiteral => SpecLiteral::NoLiteral,
        }
    }
}

impl DeepView for Literal {
    type V = SpecLiteral;

    open spec fn deep_view(&self) -> SpecLiteral {
        self.view()
    }
}

/// One lexical unit found in the source.
///
/// `lexeme` is the exact substring of the source that produced the token
/// (empty for the end-of-input marker); `line` is the 0-based source line on
/// which the token starts; `start` is the character offset of the token's
/// first character and `length` its length in characters, so that
/// `lexeme == source[start .. start + length]`. Tokens are immutable once
/// created.
#[derive(Debug, Clone, PartialEq)]
pub struct Token {
    pub token_type: TokenType,
    pub lexeme: String,
    pub literal: Literal,
    pub line: usize,
    pub start: usize,
    pub length: usize,
}

/// The mathematical model of a [`Token`].
#[verifier::ext_equal]
pub struct SpecToken {
    pub token_type: TokenType,
    pub lexeme: Seq<char>,
    pub literal: SpecLiteral,
    pub line: nat,
    pub start: nat,
    pub length: nat,
}

impl View for Token {
    type V = SpecToken;

    open spec fn view(&self) -> SpecToken {
        SpecToken {
            token_type: self.token_type,
            lexeme: self.lexeme@,
            literal: self.literal@,
            line: self.line as nat,
            start: self.start as nat,
            length: self.length as nat,
        }
    }
}

impl DeepView for Token {
    type V = SpecToken;

    open spec fn deep_view(&self) -> SpecToken {
        self.view()
    }
}

/// The decimal representation of `n`, most significant digit first.
pub open spec fn dec_rep(n: nat) -> Seq<char>
    decreases n,
{
    if n < 10 {
        seq![digit_char(n)]
    } else {
        dec_rep(n / 10) + seq![digit_char(n % 10)]
    }
}

/// The character for one decimal digit.
pub open spec fn digit_char(d: nat) -> char {
    if d == 0 {
        '0'
    } else if d == 1 {
        '1'
    } else if d == 2 {
        '2'
    } else if d == 3 {
        '3'
    } else if d == 4 {
        '4'
    } else if d == 5 {
        '5'
    } else if d == 6 {
        '6'
    } else if d == 7 {
        '7'
    } else if d == 8 {
        '8'
    } else {
        '9'
    }
}

/// The one-character string for a decimal digit.
fn digit_str(d: usize) -> (r: &'static str)
    requires
        d < 10,
    ensures
        r@ == seq![digit_char(d as nat)],
{
    proof {
        reveal_strlit("0");
        reveal_strlit("1");
        reveal_strlit("2");
        reveal_strlit("3");
        reveal_strlit("4");
        reveal_strlit("5");
        reveal_strlit("6");
        reveal_strlit("7");
        reveal_strlit("8");
        reveal_strlit("9");
    }
    match d {
        0 => "0",
        1 => "1",
        2 => "2",
        3 => "3",
        4 => "4",
        5 => "5",
        6 => "6",
        7 => "7",
        8 => "8",
        _ => "9",
    }
}

/// Render `n` in decimal.
pub fn usize_to_string(n: usize) -> (r: String)
    ensures
        r@ == dec_rep(n as nat),
    decreases n,
{
    let d: usize = n % 10;
    let ds = digit_str(d);
    if n < 10 {
        ds.to_owned()
    } else {
        let mut prefix = usize_to_string(n / 10);
        prefix.append(ds);
        prefix
    }
}

impl Token {
    /// Create a new `Token` from its parts.
    pub fn new(
        token_type: TokenType,
        lexeme: String,
        literal: Literal,
        line: usize,
        start: usize,
        length: usize,
    ) -> (r: Token)
        ensures
            r@ == (SpecToken {
                token_type,
                lexeme: lexeme@,
                literal: literal@,
                line: line as nat,
                start: start as nat,
                length: length as nat,
            }),
    {
        Token { token_type, lexeme, literal, line, start, length }
    }

    /// Render the token as "<category> <lexeme> <line>".
    pub fn to_string(&self) -> (r: String)
        ensures
            r@ == self.token_type.spec_name() + seq![' '] + self.lexeme@ + seq![' ']
                + dec_rep(self.line as nat),
    {
        proof {
            reveal_strlit(" ");
        }
        let mut s = self.token_type.name().to_owned();
        s.append(" ");
        s.append(self.lexeme.as_str());
        s.append(" ");
        let line_str = usize_to_string(self.line);
        s.append(line_str.as_str());
        s
    }
}

} // verus!
