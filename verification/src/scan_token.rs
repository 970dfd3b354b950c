//! One pass of the per-lexeme recognizer.

use vstd::prelude::*;
use vstd::string::StrSliceExecFns;

use crate::diagnostics::{Diagnostic, SpecDiagnostic};
use crate::helpers::match_next;
use crate::scan_model::{
    is_blank, is_lookahead_char, is_simple_char, lookahead_compound_type, lookahead_simple_type,
    operator_token, scan_at, scan_in_comment, scan_in_string, simple_token_type, with_diag,
    with_token,
};
use crate::scanner_struct::{ScanTokenResult, Scanner};
use crate::token::{Literal, SpecLiteral, SpecToken, Token};
use crate::token_type::TokenType;

verus! {

/// The token that the caller of [`scan_token`] still has to append: for
/// `TokenFound` the operator token whose lexeme runs from the old cursor to
/// the new one, for every other outcome nothing.
pub open spec fn pending_token<'a>(
    r: ScanTokenResult,
    pre: Scanner<'a>,
    post: Scanner<'a>,
) -> Seq<SpecToken> {
    match r {
        ScanTokenResult::TokenFound(tt) => seq![
            operator_token(
                tt,
                pre.source@.subrange(pre.current as int, post.current as int),
                pre.line as nat,
                pre.current as nat,
            ),
        ],
        _ => Seq::empty(),
    }
}

/// What one pass of the recognizer does, by the character at the cursor:
/// which outcome it returns, how many characters it consumes, and what it
/// appends in that pass. Read together with [`Scanner::wf`], the character
/// at the cursor is `pre.current_char`.
pub open spec fn scan_pass_behavior<'a>(
    r: ScanTokenResult,
    pre: Scanner<'a>,
    post: Scanner<'a>,
) -> bool {
    let src = pre.source@;
    let pos = pre.current as int;
    if pre.current >= src.len() {
        // at end of input, the pass reports that and changes nothing
        &&& r is EndOfFile
        &&& post == pre
    } else {
        let c = src[pos];
        if c == '/' && pos + 1 < src.len() && src[pos + 1] == '/' {
            // a comment: both slashes and everything before the next line
            // break are consumed; no token, no diagnostic; the line break
            // itself is left for the next pass
            &&& post.tokens == pre.tokens
            &&& post.diagnostics == pre.diagnostics
            &&& post.line == pre.line
            &&& pre.current + 2 <= post.current
            &&& forall|j: int| pre.current + 2 <= j < post.current ==> src[j] != '\n'
            &&& if r is NoTokenFromScanPass {
                post.current < src.len() && src[post.current as int] == '\n'
            } else {
                r is EndOfFile && post.current == src.len()
            }
        } else if c == '/' {
            // a lone slash is the division operator
            &&& r == ScanTokenResult::TokenFound(TokenType::Slash)
            &&& post.current == pre.current + 1
        } else if c == '«' {
            // a string literal: on a closing delimiter the pass appends the
            // one token itself and stops one past the closer; at end of
            // input it records the unterminated-string diagnostic instead
            &&& (r is TokenFoundAndAdded || r is EndOfFile)
            &&& if r is TokenFoundAndAdded {
                &&& post.diagnostics == pre.diagnostics
                &&& pre.current + 2 <= post.current <= src.len()
                &&& src[post.current - 1] == '»'
                &&& forall|j: int| pre.current < j < post.current - 1 ==> src[j] != '»'
                &&& post.tokens_model() == pre.tokens_model().push(
                    SpecToken {
                        token_type: TokenType::String,
                        lexeme: src.subrange(pos, post.current as int),
                        literal: SpecLiteral::Str(src.subrange(pos + 1, post.current - 1)),
                        line: pre.line as nat,
                        start: pre.current as nat,
                        length: (post.current - pre.current) as nat,
                    },
                )
            } else {
                &&& post.tokens == pre.tokens
                &&& post.current == src.len()
                &&& forall|j: int| pre.current < j < src.len() ==> src[j] != '»'
                &&& post.diags_model() == pre.diags_model().push(
                    SpecDiagnostic::UnterminatedString { line: pre.line as nat },
                )
            }
        } else if is_simple_char(c) {
            // single-character tokens map one-to-one and unconditionally
            &&& r == ScanTokenResult::TokenFound(simple_token_type(c))
            &&& post.current == pre.current + 1
        } else if is_lookahead_char(c) {
            // the longest match wins: the two-character operator whenever
            // the next character is `=`, the lead alone otherwise
            if pos + 1 < src.len() && src[pos + 1] == '=' {
                &&& r == ScanTokenResult::TokenFound(lookahead_compound_type(c))
                &&& post.current == pre.current + 2
            } else {
                &&& r == ScanTokenResult::TokenFound(lookahead_simple_type(c))
                &&& post.current == pre.current + 1
            }
        } else if c == '\n' {
            // a line break advances the line counter and nothing else
            &&& r is NoTokenFromScanPass
            &&& post.current == pre.current + 1
            &&& post.line == pre.line + 1
            &&& post.tokens == pre.tokens
            &&& post.diagnostics == pre.diagnostics
        } else if is_blank(c) {
            // whitespace between lexemes is skipped silently
            &&& r is NoTokenFromScanPass
            &&& post.current == pre.current + 1
            &&& post.line == pre.line
            &&& post.tokens == pre.tokens
            &&& post.diagnostics == pre.diagnostics
        } else {
            // an unrecognized character is skipped, one character, with a
            // diagnostic recorded and the scan going on
            &&& r is NoTokenFromScanPass
            &&& post.current == pre.current + 1
            &&& post.line == pre.line
            &&& post.tokens == pre.tokens
            &&& post.diags_model() == pre.diags_model().push(
                SpecDiagnostic::UnrecognizedCharacter {
                    line: pre.line as nat,
                    offset: pre.current as nat,
                    ch: c,
                },
            )
        }
    }
}

/// The token type of a single-character token, or `None` if `c` is not one.
fn classify_simple(c: char) -> (r: Option<TokenType>)
    ensures
        is_simple_char(c) ==> r == Some(simple_token_type(c)),
        !is_simple_char(c) ==> r is None,
{
    match c {
        '(' => Some(TokenType::LeftParen),
        ')' => Some(TokenType::RightParen),
        '{' => Some(TokenType::LeftBrace),
        '}' => Some(TokenType::RightBrace),
        ',' => Some(TokenType::Comma),
        '.' => Some(TokenType::Dot),
        '-' => Some(TokenType::Minus),
        '⁻' => Some(TokenType::Negative),
        '+' => Some(TokenType::Plus),
        ';' => Some(TokenType::Semicolon),
        '*' => Some(TokenType::Star),
        '≤' => Some(TokenType::LessEqual),
        '≥' => Some(TokenType::GreaterEqual),
        '≠' => Some(TokenType::NotEqual),
        '¬' => Some(TokenType::Not),
        '≟' => Some(TokenType::EqualityTest),
        '←' => Some(TokenType::Assignment),
        _ => None,
    }
}

/// Whether `c` is a lead character of the one-character lookahead.
fn is_lookahead(c: char) -> (r: bool)
    ensures
        r == is_lookahead_char(c),
{
    c == '!' || c == '=' || c == '<' || c == '>'
}

/// The simple and the compound token type of a lookahead lead character.
fn lookahead_types(c: char) -> (r: (TokenType, TokenType))
    requires
        is_lookahead_char(c),
    ensures
        r.0 == lookahead_simple_type(c),
        r.1 == lookahead_compound_type(c),
{
    if c == '!' {
        (TokenType::Not, TokenType::NotEqual)
    } else if c == '=' {
        (TokenType::Assignment, TokenType::EqualityTest)
    } else if c == '<' {
        (TokenType::Less, TokenType::LessEqual)
    } else {
        (TokenType::Greater, TokenType::GreaterEqual)
    }
}

/// Recognize at most one lexeme starting at the cursor.
///
/// The contract ties one pass to the model: what the rest of the scan
/// produced before the call equals what this pass appended, plus the token
/// the caller still has to append (for `TokenFound`), plus what the rest of
/// the scan produces after the call.
pub fn scan_token(scanner: &mut Scanner<'_>) -> (r: ScanTokenResult)
    requires
        old(scanner).wf(),
    ensures
        final(scanner).wf(),
        final(scanner).source == old(scanner).source,
        final(scanner).start == old(scanner).start,
        final(scanner).current >= old(scanner).current,
        final(scanner).line >= old(scanner).line,
        r is EndOfFile ==> final(scanner).current == final(scanner).source@.len(),
        !(r is EndOfFile) ==> final(scanner).current > old(scanner).current,
        r is TokenFound ==> final(scanner).line == old(scanner).line
            && final(scanner).tokens == old(scanner).tokens
            && final(scanner).diagnostics == old(scanner).diagnostics,
        final(scanner).tokens_model() == old(scanner).tokens_model()
            + final(scanner).tokens_model().skip(old(scanner).tokens@.len() as int),
        final(scanner).diags_model() == old(scanner).diags_model()
            + final(scanner).diags_model().skip(old(scanner).diagnostics@.len() as int),
        old(scanner).remaining().tokens == final(scanner).tokens_model().skip(
            old(scanner).tokens@.len() as int,
        ) + pending_token(r, *old(scanner), *final(scanner)) + final(scanner).remaining().tokens,
        old(scanner).remaining().diags == final(scanner).diags_model().skip(
            old(scanner).diagnostics@.len() as int,
        ) + final(scanner).remaining().diags,
        scan_pass_behavior(r, *old(scanner), *final(scanner)),
{
    let ghost s0 = *scanner;
    let ghost src = s0.source@;
    let ghost c0 = s0.current as nat;
    let ghost l0 = s0.line as nat;

    match scanner.current_char {
        None => {
            proof {
                assert(scanner.current == src.len());
                assert(scanner.tokens_model().skip(s0.tokens@.len() as int) =~= Seq::<
                    SpecToken,
                >::empty());
                assert(scanner.diags_model().skip(s0.diagnostics@.len() as int)
                    =~= Seq::<crate::diagnostics::SpecDiagnostic>::empty());
                assert(s0.remaining().tokens =~= Seq::<SpecToken>::empty() + Seq::<
                    SpecToken,
                >::empty() + scanner.remaining().tokens);
                assert(s0.remaining().diags =~= Seq::<
                    crate::diagnostics::SpecDiagnostic,
                >::empty() + scanner.remaining().diags);
            }
            ScanTokenResult::EndOfFile
        },
        Some(c) => {
            let token_start = scanner.current;
            let start_line = scanner.line;
            if c == '/' {
                let next_is_slash = match_next(scanner, '/').is_ok();
                if next_is_slash {
                    // A comment goes until the end of the line: consume both
                    // lead characters, then everything up to, but not
                    // including, the next line break. No token comes out.
                    scanner.advance(2);
                    proof {
                        assert(scan_at(src, c0, l0) == scan_in_comment(src, c0 + 2, l0));
                    }
                    loop
                        invariant
                            s0 == *old(scanner),
                            scanner.wf(),
                            scanner.source == s0.source,
                            scanner.start == s0.start,
                            scanner.tokens == s0.tokens,
                            scanner.diagnostics == s0.diagnostics,
                            scanner.line == s0.line,
                            s0.current + 2 <= scanner.current <= src.len(),
                            src == s0.source@,
                            l0 == s0.line as nat,
                            c0 == s0.current as nat,
                            src[c0 as int] == '/',
                            c0 + 1 < src.len(),
                            src[c0 as int + 1] == '/',
                            forall|j: int| c0 + 2 <= j < scanner.current ==> src[j] != '\n',
                            scan_in_comment(src, scanner.current as nat, l0) == scan_at(
                                src,
                                c0,
                                l0,
                            ),
                            s0.wf(),
                        decreases src.len() - scanner.current,
                    {
                        match scanner.current_char {
                            None => {
                                proof {
                                    assert(scanner.current == src.len());
                                    assert(scan_at(src, scanner.current as nat, l0)
                                        == scan_in_comment(src, scanner.current as nat, l0));
                                    lemma_pass_unchanged_state(s0, *scanner);
                                }
                                return ScanTokenResult::EndOfFile;
                            },
                            Some(cc) => {
                                if cc == '\n' {
                                    proof {
                                        assert(scan_in_comment(src, scanner.current as nat, l0)
                                            == scan_at(src, scanner.current as nat, l0));
                                        lemma_pass_unchanged_state(s0, *scanner);
                                    }
                                    return ScanTokenResult::NoTokenFromScanPass;
                                }
                            },
                        }
                        let ghost cur_prev = scanner.current as nat;
                        scanner.advance(1);
                        proof {
                            assert(scan_in_comment(src, cur_prev, l0) == scan_in_comment(
                                src,
                                cur_prev + 1,
                                l0,
                            ));
                        }
                    }
                } else {
                    // A single slash is the division operator.
                    scanner.advance(1);
                    proof {
                        assert(scan_at(src, c0, l0) == with_token(
                            operator_token(
                                TokenType::Slash,
                                src.subrange(c0 as int, c0 as int + 1),
                                l0,
                                c0,
                            ),
                            scan_at(src, c0 + 1, l0),
                        ));
                        lemma_pass_token_found(s0, *scanner, TokenType::Slash);
                    }
                    return ScanTokenResult::TokenFound(TokenType::Slash);
                }
            } else if c == '«' {
                // A string literal: consume up to and including the closing
                // delimiter, appending the token ourselves so the payload can
                // be attached. A line break inside the literal still advances
                // the line counter. Reaching the end of the input first is an
                // unterminated string: record the diagnostic, no token.
                scanner.advance(1);
                proof {
                    assert(scan_at(src, c0, l0) == scan_in_string(src, c0 + 1, l0, c0, l0));
                }
                loop
                    invariant
                        s0 == *old(scanner),
                        scanner.wf(),
                        scanner.source == s0.source,
                        scanner.start == s0.start,
                        scanner.tokens == s0.tokens,
                        scanner.diagnostics == s0.diagnostics,
                        s0.current < scanner.current <= src.len(),
                        s0.line <= scanner.line,
                        token_start == s0.current,
                        start_line == s0.line,
                        src == s0.source@,
                        l0 == s0.line as nat,
                        c0 == s0.current as nat,
                        src[c0 as int] == '«',
                        forall|j: int| c0 < j < scanner.current ==> src[j] != '»',
                        scan_in_string(
                            src,
                            scanner.current as nat,
                            scanner.line as nat,
                            c0,
                            l0,
                        ) == scan_at(src, c0, l0),
                        s0.wf(),
                    decreases src.len() - scanner.current,
                {
                    match scanner.current_char {
                        None => {
                            proof {
                                assert(scanner.current == src.len());
                            }
                            let d = Diagnostic::UnterminatedString { line: start_line };
                            let ghost dval = d;
                            scanner.diagnostics.push(d);
                            proof {
                                let sdiag = crate::diagnostics::SpecDiagnostic::UnterminatedString {
                                    line: l0,
                                };
                                assert(dval@ == sdiag);
                                assert(scanner.diagnostics@ == s0.diagnostics@.push(dval));
                                assert(scanner.diags_model().len() == s0.diagnostics@.len() + 1);
                                assert(scanner.diags_model()[s0.diagnostics@.len() as int]
                                    == sdiag);
                                assert(scanner.diags_model() =~= s0.diags_model().push(sdiag));
                                assert(scanner.tokens_model().skip(s0.tokens@.len() as int)
                                    =~= Seq::<SpecToken>::empty());
                                assert(scanner.diags_model().skip(s0.diagnostics@.len() as int)
                                    =~= seq![sdiag]);
                                assert(scanner.diags_model() =~= s0.diags_model()
                                    + scanner.diags_model().skip(s0.diagnostics@.len() as int));
                                assert(s0.remaining().tokens =~= Seq::<SpecToken>::empty() + Seq::<
                                    SpecToken,
                                >::empty() + scanner.remaining().tokens);
                                assert(s0.remaining().diags =~= scanner.diags_model().skip(
                                    s0.diagnostics@.len() as int,
                                ) + scanner.remaining().diags);
                            }
                            return ScanTokenResult::EndOfFile;
                        },
                        Some(cc) => {
                            if cc == '»' {
                                let ghost close_pos = scanner.current as nat;
                                let ghost line_now = scanner.line as nat;
                                scanner.advance(1);
                                let source_ref = scanner.source;
                                let lexeme = source_ref.substring_char(
                                    token_start,
                                    scanner.current,
                                ).to_owned();
                                let content = source_ref.substring_char(
                                    token_start + 1,
                                    scanner.current - 1,
                                ).to_owned();
                                let length = scanner.current - token_start;
                                let tok = Token::new(
                                    TokenType::String,
                                    lexeme,
                                    Literal::String(content),
                                    start_line,
                                    token_start,
                                    length,
                                );
                                let ghost tokval = tok;
                                scanner.tokens.push(tok);
                                proof {
                                    let stok = SpecToken {
                                        token_type: TokenType::String,
                                        lexeme: src.subrange(c0 as int, close_pos as int + 1),
                                        literal: SpecLiteral::Str(
                                            src.subrange(c0 as int + 1, close_pos as int),
                                        ),
                                        line: l0,
                                        start: c0,
                                        length: (close_pos + 1 - c0) as nat,
                                    };
                                    assert(scan_in_string(src, close_pos, line_now, c0, l0)
                                        == with_token(
                                        stok,
                                        scan_at(src, close_pos + 1, line_now),
                                    ));
                                    assert(tokval@ =~= stok);
                                    assert(scanner.tokens@ == s0.tokens@.push(tokval));
                                    assert(scanner.tokens_model().len() == s0.tokens@.len() + 1);
                                    assert(scanner.tokens_model()[s0.tokens@.len() as int]
                                        =~= stok);
                                    assert(scanner.tokens_model().skip(s0.tokens@.len() as int)
                                        =~= seq![stok]);
                                    assert(scanner.tokens_model() =~= s0.tokens_model().push(
                                        stok,
                                    ));
                                    assert(scanner.tokens_model() =~= s0.tokens_model()
                                        + scanner.tokens_model().skip(s0.tokens@.len() as int));
                                    assert(scanner.diags_model().skip(
                                        s0.diagnostics@.len() as int,
                                    ) =~= Seq::<crate::diagnostics::SpecDiagnostic>::empty());
                                    assert(s0.remaining().tokens =~= seq![stok] + Seq::<
                                        SpecToken,
                                    >::empty() + scanner.remaining().tokens);
                                    assert(s0.remaining().diags =~= Seq::<
                                        crate::diagnostics::SpecDiagnostic,
                                    >::empty() + scanner.remaining().diags);
                                }
                                return ScanTokenResult::TokenFoundAndAdded;
                            } else if cc == '\n' {
                                let ghost cur_prev = scanner.current as nat;
                                let ghost line_prev = scanner.line as nat;
                                scanner.advance(1);
                                scanner.line = scanner.line + 1;
                                proof {
                                    assert(scan_in_string(src, cur_prev, line_prev, c0, l0)
                                        == scan_in_string(
                                        src,
                                        cur_prev + 1,
                                        line_prev + 1,
                                        c0,
                                        l0,
                                    ));
                                }
                            } else {
                                let ghost cur_prev = scanner.current as nat;
                                let ghost line_prev = scanner.line as nat;
                                scanner.advance(1);
                                proof {
                                    assert(scan_in_string(src, cur_prev, line_prev, c0, l0)
                                        == scan_in_string(
                                        src,
                                        cur_prev + 1,
                                        line_prev,
                                        c0,
                                        l0,
                                    ));
                                }
                            }
                        },
                    }
                }
            } else {
                match classify_simple(c) {
                    Some(tt) => {
                        scanner.advance(1);
                        proof {
                            assert(scan_at(src, c0, l0) == with_token(
                                operator_token(
                                    simple_token_type(c),
                                    src.subrange(c0 as int, c0 as int + 1),
                                    l0,
                                    c0,
                                ),
                                scan_at(src, c0 + 1, l0),
                            ));
                            lemma_pass_token_found(s0, *scanner, tt);
                        }
                        return ScanTokenResult::TokenFound(tt);
                    },
                    None => {
                        if is_lookahead(c) {
                            let compound = match_next(scanner, '=').is_ok();
                            let types = lookahead_types(c);
                            if compound {
                                scanner.advance(2);
                                proof {
                                    assert(scan_at(src, c0, l0) == with_token(
                                        operator_token(
                                            lookahead_compound_type(c),
                                            src.subrange(c0 as int, c0 as int + 2),
                                            l0,
                                            c0,
                                        ),
                                        scan_at(src, c0 + 2, l0),
                                    ));
                                    lemma_pass_token_found(s0, *scanner, types.1);
                                }
                                return ScanTokenResult::TokenFound(types.1);
                            } else {
                                scanner.advance(1);
                                proof {
                                    assert(scan_at(src, c0, l0) == with_token(
                                        operator_token(
                                            lookahead_simple_type(c),
                                            src.subrange(c0 as int, c0 as int + 1),
                                            l0,
                                            c0,
                                        ),
                                        scan_at(src, c0 + 1, l0),
                                    ));
                                    lemma_pass_token_found(s0, *scanner, types.0);
                                }
                                return ScanTokenResult::TokenFound(types.0);
                            }
                        } else if c == '\n' {
                            // A line break: nothing but the line counter.
                            scanner.advance(1);
                            scanner.line = scanner.line + 1;
                            proof {
                                assert(scan_at(src, c0, l0) == scan_at(src, c0 + 1, l0 + 1));
                                lemma_pass_unchanged_state(s0, *scanner);
                            }
                            return ScanTokenResult::NoTokenFromScanPass;
                        } else if c == ' ' || c == '\t' || c == '\r' {
                            // Whitespace between lexemes is skipped silently.
                            scanner.advance(1);
                            proof {
                                assert(scan_at(src, c0, l0) == scan_at(src, c0 + 1, l0));
                                lemma_pass_unchanged_state(s0, *scanner);
                            }
                            return ScanTokenResult::NoTokenFromScanPass;
                        } else {
                            // An unrecognized character is skipped, and the
                            // scan goes on; the diagnostic records it.
                            scanner.advance(1);
                            let d = Diagnostic::UnrecognizedCharacter {
                                line: start_line,
                                offset: token_start,
                                ch: c,
                            };
                            let ghost dval = d;
                            scanner.diagnostics.push(d);
                            proof {
                                let sdiag = crate::diagnostics::SpecDiagnostic::UnrecognizedCharacter {
                                    line: l0,
                                    offset: c0,
                                    ch: c,
                                };
                                assert(scan_at(src, c0, l0) == with_diag(
                                    sdiag,
                                    scan_at(src, c0 + 1, l0),
                                ));
                                assert(s0.remaining() == with_diag(sdiag, scanner.remaining()));
                                lemma_pass_diag_pushed(s0, *scanner, dval, sdiag);
                            }
                            return ScanTokenResult::NoTokenFromScanPass;
                        }
                    },
                }
            }
        },
    }
}

/// After a pass that pushed nothing and left the accumulated tokens and
/// diagnostics alone, the master equations of [`scan_token`] reduce to the
/// equality of the remaining scans.
proof fn lemma_pass_unchanged_state<'a>(s0: Scanner<'a>, s1: Scanner<'a>)
    requires
        s1.tokens == s0.tokens,
        s1.diagnostics == s0.diagnostics,
        s1.source == s0.source,
        s1.remaining() == s0.remaining(),
    ensures
        s1.tokens_model() == s0.tokens_model() + s1.tokens_model().skip(s0.tokens@.len() as int),
        s1.diags_model() == s0.diags_model() + s1.diags_model().skip(
            s0.diagnostics@.len() as int,
        ),
        s0.remaining().tokens == s1.tokens_model().skip(s0.tokens@.len() as int) + Seq::<
            SpecToken,
        >::empty() + s1.remaining().tokens,
        s0.remaining().diags == s1.diags_model().skip(s0.diagnostics@.len() as int)
            + s1.remaining().diags,
{
    assert(s1.tokens_model().skip(s0.tokens@.len() as int) =~= Seq::<SpecToken>::empty());
    assert(s1.diags_model().skip(s0.diagnostics@.len() as int) =~= Seq::<
        crate::diagnostics::SpecDiagnostic,
    >::empty());
    assert(s1.tokens_model() =~= s0.tokens_model() + s1.tokens_model().skip(
        s0.tokens@.len() as int,
    ));
    assert(s1.diags_model() =~= s0.diags_model() + s1.diags_model().skip(
        s0.diagnostics@.len() as int,
    ));
    assert(s0.remaining().tokens =~= s1.tokens_model().skip(s0.tokens@.len() as int) + Seq::<
        SpecToken,
    >::empty() + s1.remaining().tokens);
    assert(s0.remaining().diags =~= s1.diags_model().skip(s0.diagnostics@.len() as int)
        + s1.remaining().diags);
}

/// After a pass that pushed exactly one diagnostic, the master equations of
/// [`scan_token`] reduce to one unfolding of the model.
proof fn lemma_pass_diag_pushed<'a>(
    s0: Scanner<'a>,
    s1: Scanner<'a>,
    dval: Diagnostic,
    sdiag: crate::diagnostics::SpecDiagnostic,
)
    requires
        s1.tokens == s0.tokens,
        s1.source == s0.source,
        s1.diagnostics@ == s0.diagnostics@.push(dval),
        dval@ == sdiag,
        s0.remaining() == with_diag(sdiag, s1.remaining()),
    ensures
        s1.tokens_model() == s0.tokens_model() + s1.tokens_model().skip(s0.tokens@.len() as int),
        s1.diags_model() == s0.diags_model() + s1.diags_model().skip(
            s0.diagnostics@.len() as int,
        ),
        s0.remaining().tokens == s1.tokens_model().skip(s0.tokens@.len() as int) + Seq::<
            SpecToken,
        >::empty() + s1.remaining().tokens,
        s0.remaining().diags == s1.diags_model().skip(s0.diagnostics@.len() as int)
            + s1.remaining().diags,
        s1.diags_model() == s0.diags_model().push(sdiag),
{
    assert(s1.tokens_model().skip(s0.tokens@.len() as int) =~= Seq::<SpecToken>::empty());
    assert(s1.tokens_model() =~= s0.tokens_model() + s1.tokens_model().skip(
        s0.tokens@.len() as int,
    ));
    assert(s1.diags_model().skip(s0.diagnostics@.len() as int) =~= seq![sdiag]);
    assert(s1.diags_model() =~= s0.diags_model().push(sdiag));
    assert(s1.diags_model() =~= s0.diags_model() + s1.diags_model().skip(
        s0.diagnostics@.len() as int,
    ));
    assert(s0.remaining().tokens =~= s1.tokens_model().skip(s0.tokens@.len() as int) + Seq::<
        SpecToken,
    >::empty() + s1.remaining().tokens);
    assert(s0.remaining().diags =~= s1.diags_model().skip(s0.diagnostics@.len() as int)
        + s1.remaining().diags);
}

/// After a pass that recognized an operator token and pushed nothing, the
/// master equations of [`scan_token`] reduce to one unfolding of the model.
proof fn lemma_pass_token_found<'a>(s0: Scanner<'a>, s1: Scanner<'a>, tt: TokenType)
    requires
        s1.tokens == s0.tokens,
        s1.diagnostics == s0.diagnostics,
        s1.source == s0.source,
        s1.line == s0.line,
        s0.remaining() == with_token(
            operator_token(
                tt,
                s0.source@.subrange(s0.current as int, s1.current as int),
                s0.line as nat,
                s0.current as nat,
            ),
            s1.remaining(),
        ),
    ensures
        s1.tokens_model() == s0.tokens_model() + s1.tokens_model().skip(s0.tokens@.len() as int),
        s1.diags_model() == s0.diags_model() + s1.diags_model().skip(
            s0.diagnostics@.len() as int,
        ),
        s0.remaining().tokens == s1.tokens_model().skip(s0.tokens@.len() as int) + pending_token(
            ScanTokenResult::TokenFound(tt),
            s0,
            s1,
        ) + s1.remaining().tokens,
        s0.remaining().diags == s1.diags_model().skip(s0.diagnostics@.len() as int)
            + s1.remaining().diags,
{
    assert(s1.tokens_model().skip(s0.tokens@.len() as int) =~= Seq::<SpecToken>::empty());
    assert(s1.diags_model().skip(s0.diagnostics@.len() as int) =~= Seq::<
        crate::diagnostics::SpecDiagnostic,
    >::empty());
    assert(s1.tokens_model() =~= s0.tokens_model() + s1.tokens_model().skip(
        s0.tokens@.len() as int,
    ));
    assert(s1.diags_model() =~= s0.diags_model() + s1.diags_model().skip(
        s0.diagnostics@.len() as int,
    ));
    assert(s0.remaining().tokens =~= s1.tokens_model().skip(s0.tokens@.len() as int)
        + pending_token(ScanTokenResult::TokenFound(tt), s0, s1) + s1.remaining().tokens);
    assert(s0.remaining().diags =~= s1.diags_model().skip(s0.diagnostics@.len() as int)
        + s1.remaining().diags);
}

} // verus!
