//! The mathematical model of the scan.
//!
//! `scan_spec` maps a source text, as a sequence of characters, to the exact
//! token sequence and diagnostic sequence the scanner produces. It is written
//! as the state machine the per-lexeme recognizer follows: `scan_at` is the
//! at-lexeme-start state, `scan_in_comment` the inside-a-line-comment state,
//! and `scan_in_string` the inside-a-string-literal state.
//!
//! Conventions, held consistently:
//! - positions and lengths count characters, not bytes;
//! - lines are 0-based; the counter advances on every line break consumed,
//!   including one inside a string literal (a line comment stops before its
//!   line break, which the at-lexeme-start state then consumes);
//! - a token's `line` and `start` are those of its first character; the
//!   end-of-input token stands at the end of the source with length 0 and
//!   the line the scan finished on.

use vstd::prelude::*;

use crate::diagnostics::SpecDiagnostic;
use crate::token::{SpecLiteral, SpecToken};
use crate::token_type::TokenType;

verus! {

/// The complete outcome of a scan: the tokens in source order and the
/// diagnostics in the order they were discovered.
#[verifier::ext_equal]
pub struct ScanOut {
    pub tokens: Seq<SpecToken>,
    pub diags: Seq<SpecDiagnostic>,
}

/// Characters that map one-to-one and unconditionally to a token type.
pub open spec fn is_simple_char(c: char) -> bool {
    ||| c == '('
    ||| c == ')'
    ||| c == '{'
    ||| c == '}'
    ||| c == ','
    ||| c == '.'
    ||| c == '-'
    ||| c == '⁻'
    ||| c == '+'
    ||| c == ';'
    ||| c == '*'
    ||| c == '≤'
    ||| c == '≥'
    ||| c == '≠'
    ||| c == '¬'
    ||| c == '≟'
    ||| c == '←'
}

/// The token type of a single-character token.
pub open spec fn simple_token_type(c: char) -> TokenType {
    if c == '(' {
        TokenType::LeftParen
    } else if c == ')' {
        TokenType::RightParen
    } else if c == '{' {
        TokenType::LeftBrace
    } else if c == '}' {
        TokenType::RightBrace
    } else if c == ',' {
        TokenType::Comma
    } else if c == '.' {
        TokenType::Dot
    } else if c == '-' {
        TokenType::Minus
    } else if c == '⁻' {
        TokenType::Negative
    } else if c == '+' {
        TokenType::Plus
    } else if c == ';' {
        TokenType::Semicolon
    } else if c == '*' {
        TokenType::Star
    } else if c == '≤' {
        TokenType::LessEqual
    } else if c == '≥' {
        TokenType::GreaterEqual
    } else if c == '≠' {
        TokenType::NotEqual
    } else if c == '¬' {
        TokenType::Not
    } else if c == '≟' {
        TokenType::EqualityTest
    } else {
        TokenType::Assignment
    }
}

/// Lead characters of the one-character lookahead: followed by `=` they
/// form a compound operator, alone they stand for themselves.
pub open spec fn is_lookahead_char(c: char) -> bool {
    c == '!' || c == '=' || c == '<' || c == '>'
}

/// The token type emitted when a lookahead lead character stands alone.
pub open spec fn lookahead_simple_type(c: char) -> TokenType {
    if c == '!' {
        TokenType::Not
    } else if c == '=' {
        TokenType::Assignment
    } else if c == '<' {
        TokenType::Less
    } else {
        TokenType::Greater
    }
}

/// The token type emitted when a lookahead lead character is followed by `=`.
pub open spec fn lookahead_compound_type(c: char) -> TokenType {
    if c == '!' {
        TokenType::NotEqual
    } else if c == '=' {
        TokenType::EqualityTest
    } else if c == '<' {
        TokenType::LessEqual
    } else {
        TokenType::GreaterEqual
    }
}

/// Whitespace that is skipped without producing a token or advancing the
/// line counter.
pub open spec fn is_blank(c: char) -> bool {
    c == ' ' || c == '\t' || c == '\r'
}

/// The synthetic end-of-input token: empty lexeme, zero length, standing at
/// the end of the source.
pub open spec fn eof_token(line: nat, end: nat) -> SpecToken {
    SpecToken {
        token_type: TokenType::EOF,
        lexeme: Seq::empty(),
        literal: SpecLiteral::NoLiteral,
        line,
        start: end,
        length: 0,
    }
}

/// An operator or punctuation token: its payload is always `NoLiteral`.
pub open spec fn operator_token(t: TokenType, lexeme: Seq<char>, line: nat, start: nat) -> SpecToken {
    SpecToken { token_type: t, lexeme, literal: SpecLiteral::NoLiteral, line, start, length: lexeme.len() }
}

/// Prepend one token to a scan outcome.
pub open spec fn with_token(t: SpecToken, rest: ScanOut) -> ScanOut {
    ScanOut { tokens: seq![t] + rest.tokens, diags: rest.diags }
}

/// Prepend one diagnostic to a scan outcome.
pub open spec fn with_diag(d: SpecDiagnostic, rest: ScanOut) -> ScanOut {
    ScanOut { tokens: rest.tokens, diags: seq![d] + rest.diags }
}

/// The scan from position `pos` on line `line`, at the start of a lexeme.
pub open spec fn scan_at(src: Seq<char>, pos: nat, line: nat) -> ScanOut
    decreases src.len() - pos, 0int,
{
    if pos >= src.len() {
        ScanOut { tokens: seq![eof_token(line, src.len())], diags: Seq::empty() }
    } else {
        let c = src[pos as int];
        if c == '/' && pos + 1 < src.len() && src[pos as int + 1] == '/' {
            scan_in_comment(src, pos + 2, line)
        } else if c == '/' {
            with_token(
                operator_token(TokenType::Slash, src.subrange(pos as int, pos as int + 1), line, pos),
                scan_at(src, pos + 1, line),
            )
        } else if c == '«' {
            scan_in_string(src, pos + 1, line, pos, line)
        } else if is_simple_char(c) {
            with_token(
                operator_token(simple_token_type(c), src.subrange(pos as int, pos as int + 1), line, pos),
                scan_at(src, pos + 1, line),
            )
        } else if is_lookahead_char(c) {
            if pos + 1 < src.len() && src[pos as int + 1] == '=' {
                with_token(
                    operator_token(
                        lookahead_compound_type(c),
                        src.subrange(pos as int, pos as int + 2),
                        line,
                        pos,
                    ),
                    scan_at(src, pos + 2, line),
                )
            } else {
                with_token(
                    operator_token(
                        lookahead_simple_type(c),
                        src.subrange(pos as int, pos as int + 1),
                        line,
                        pos,
                    ),
                    scan_at(src, pos + 1, line),
                )
            }
        } else if c == '\n' {
            scan_at(src, pos + 1, line + 1)
        } else if is_blank(c) {
            scan_at(src, pos + 1, line)
        } else {
            with_diag(
                SpecDiagnostic::UnrecognizedCharacter { line, offset: pos, ch: c },
                scan_at(src, pos + 1, line),
            )
        }
    }
}

/// The scan from inside a line comment whose two lead characters are already
/// consumed: everything up to, but not including, the next line break is
/// consumed without producing a token.
pub open spec fn scan_in_comment(src: Seq<char>, pos: nat, line: nat) -> ScanOut
    decreases src.len() - pos, 1int,
{
    if pos >= src.len() {
        ScanOut { tokens: seq![eof_token(line, src.len())], diags: Seq::empty() }
    } else if src[pos as int] == '\n' {
        scan_at(src, pos, line)
    } else {
        scan_in_comment(src, pos + 1, line)
    }
}

/// The scan from inside a string literal that opened at `start` on line
/// `start_line`, with `pos` past the opening delimiter. The token's lexeme is
/// the full delimited text; its payload is the text strictly between the
/// delimiters. Reaching the end of the input first records an
/// unterminated-string diagnostic and ends the scan.
pub open spec fn scan_in_string(
    src: Seq<char>,
    pos: nat,
    line: nat,
    start: nat,
    start_line: nat,
) -> ScanOut
    decreases src.len() - pos, 1int,
{
    if pos >= src.len() {
        ScanOut {
            tokens: seq![eof_token(line, src.len())],
            diags: seq![SpecDiagnostic::UnterminatedString { line: start_line }],
        }
    } else if src[pos as int] == '»' {
        with_token(
            SpecToken {
                token_type: TokenType::String,
                lexeme: src.subrange(start as int, pos as int + 1),
                literal: SpecLiteral::Str(src.subrange(start as int + 1, pos as int)),
                line: start_line,
                start,
                length: (pos + 1 - start) as nat,
            },
            scan_at(src, pos + 1, line),
        )
    } else if src[pos as int] == '\n' {
        scan_in_string(src, pos + 1, line + 1, start, start_line)
    } else {
        scan_in_string(src, pos + 1, line, start, start_line)
    }
}

/// The full scan of a source text, from its first character, line 0.
pub open spec fn scan_spec(src: Seq<char>) -> ScanOut {
    scan_at(src, 0, 0)
}

} // verus!
