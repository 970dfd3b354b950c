//! The scan loop: drive the per-lexeme recognizer over the whole source.

use vstd::prelude::*;
use vstd::string::StrSliceExecFns;

use crate::scan_model::{eof_token, scan_at};
use crate::scan_token::{pending_token, scan_token};
use crate::scanner_struct::{ScanTokenResult, Scanner};
use crate::token::{Literal, SpecToken, Token};
use crate::token_type::TokenType;

verus! {

/// Scan the whole source: every recognized lexeme in left-to-right order,
/// followed by exactly one end-of-input token with an empty lexeme.
///
/// The contract says the scan appends to `tokens` and `diagnostics` exactly
/// what the model produces from the cursor's position on: the output is a
/// function of the source text alone.
pub fn scan_tokens(scanner: &mut Scanner<'_>)
    requires
        old(scanner).wf(),
    ensures
        final(scanner).wf(),
        final(scanner).source == old(scanner).source,
        final(scanner).current == final(scanner).source@.len(),
        final(scanner).tokens_model() == old(scanner).tokens_model()
            + old(scanner).remaining().tokens,
        final(scanner).diags_model() == old(scanner).diags_model()
            + old(scanner).remaining().diags,
        final(scanner).tokens@.len() >= 1,
        final(scanner).tokens_model().last() == eof_token(
            final(scanner).line as nat,
            final(scanner).source@.len(),
        ),
{
    let ghost s0 = *scanner;
    let ghost src = s0.source@;

    loop
        invariant
            s0 == *old(scanner),
            scanner.wf(),
            scanner.source == s0.source,
            src == s0.source@,
            s0.tokens@.len() <= scanner.tokens@.len(),
            s0.diagnostics@.len() <= scanner.diagnostics@.len(),
            scanner.tokens_model().subrange(0, s0.tokens@.len() as int) == s0.tokens_model(),
            scanner.diags_model().subrange(0, s0.diagnostics@.len() as int) == s0.diags_model(),
            s0.remaining().tokens == scanner.tokens_model().skip(s0.tokens@.len() as int)
                + scanner.remaining().tokens,
            s0.remaining().diags == scanner.diags_model().skip(s0.diagnostics@.len() as int)
                + scanner.remaining().diags,
        ensures
            scanner.current == src.len(),
        decreases src.len() - scanner.current,
    {
        let ghost s1 = *scanner;
        // We are at the beginning of the next lexeme.
        scanner.start = scanner.current;
        let ghost s1b = *scanner;
        proof {
            assert(s1b.remaining() == s1.remaining());
            assert(s1b.tokens_model() == s1.tokens_model());
        }
        match scan_token(scanner) {
            ScanTokenResult::TokenFound(token_type) => {
                let ghost s2 = *scanner;
                let lexeme = scanner.source.substring_char(
                    scanner.start,
                    scanner.current,
                ).to_owned();
                let length = scanner.current - scanner.start;
                let tok = Token::new(
                    token_type,
                    lexeme,
                    Literal::NoLiteral,
                    scanner.line,
                    scanner.start,
                    length,
                );
                let ghost tokval = tok;
                scanner.tokens.push(tok);
                proof {
                    let ptoks = pending_token(
                        ScanTokenResult::TokenFound(token_type),
                        s1b,
                        s2,
                    );
                    assert(s2.tokens_model().skip(s1b.tokens@.len() as int) =~= Seq::<
                        SpecToken,
                    >::empty());
                    assert(s2.diags_model().skip(s1b.diagnostics@.len() as int) =~= Seq::<
                        crate::diagnostics::SpecDiagnostic,
                    >::empty());
                    assert(s1.remaining().tokens =~= ptoks + s2.remaining().tokens);
                    assert(s1.remaining().diags =~= s2.remaining().diags);
                    assert(tokval@ =~= ptoks[0]);
                    lemma_append_pushed_token(s0, s1, s2, *scanner, tokval, ptoks);
                }
            },
            ScanTokenResult::EndOfFile => {
                proof {
                    lemma_outcomes_combine(s0, s1, s1b, *scanner);
                }
                break;
            },
            ScanTokenResult::NoTokenFromScanPass => {
                proof {
                    lemma_outcomes_combine(s0, s1, s1b, *scanner);
                }
            },
            ScanTokenResult::TokenFoundAndAdded => {
                proof {
                    lemma_outcomes_combine(s0, s1, s1b, *scanner);
                }
            },
        }
    }

    // We are at the end of the input.
    let len = scanner.source.unicode_len();
    let ghost s3 = *scanner;
    let eof = Token::new(
        TokenType::EOF,
        String::new(),
        Literal::NoLiteral,
        scanner.line,
        len,
        0,
    );
    let ghost eofval = eof;
    scanner.tokens.push(eof);
    proof {
        assert(eofval@ =~= eof_token(s3.line as nat, src.len()));
        assert(s3.remaining() == scan_at(src, src.len(), s3.line as nat));
        assert(s3.remaining().tokens =~= seq![eof_token(s3.line as nat, src.len())]);
        assert(s3.remaining().diags =~= Seq::<crate::diagnostics::SpecDiagnostic>::empty());
        assert(scanner.tokens_model() =~= s3.tokens_model().push(eofval@));
        assert(scanner.tokens_model().skip(s0.tokens@.len() as int) =~= s3.tokens_model().skip(
            s0.tokens@.len() as int,
        ) + seq![eofval@]);
        assert(scanner.tokens_model() =~= s0.tokens_model() + s0.remaining().tokens);
        assert(scanner.diags_model() =~= s0.diags_model() + s0.remaining().diags);
        assert(scanner.tokens_model().last() == eofval@);
    }
}

/// Gluing step for the outcomes of [`scan_token`] that leave no token
/// pending: the loop's running equations carry over from the state before
/// the pass to the state after it.
proof fn lemma_outcomes_combine<'a>(
    s0: Scanner<'a>,
    s1: Scanner<'a>,
    s1b: Scanner<'a>,
    s2: Scanner<'a>,
)
    requires
        s1b.tokens == s1.tokens,
        s1b.diagnostics == s1.diagnostics,
        s1b.source == s1.source,
        s1b.current == s1.current,
        s1b.line == s1.line,
        s0.tokens@.len() <= s1.tokens@.len(),
        s0.diagnostics@.len() <= s1.diagnostics@.len(),
        s1.tokens_model().subrange(0, s0.tokens@.len() as int) == s0.tokens_model(),
        s1.diags_model().subrange(0, s0.diagnostics@.len() as int) == s0.diags_model(),
        s0.remaining().tokens == s1.tokens_model().skip(s0.tokens@.len() as int)
            + s1.remaining().tokens,
        s0.remaining().diags == s1.diags_model().skip(s0.diagnostics@.len() as int)
            + s1.remaining().diags,
        s2.tokens_model() == s1b.tokens_model() + s2.tokens_model().skip(
            s1b.tokens@.len() as int,
        ),
        s2.diags_model() == s1b.diags_model() + s2.diags_model().skip(
            s1b.diagnostics@.len() as int,
        ),
        s1b.remaining().tokens == s2.tokens_model().skip(s1b.tokens@.len() as int) + Seq::<
            SpecToken,
        >::empty() + s2.remaining().tokens,
        s1b.remaining().diags == s2.diags_model().skip(s1b.diagnostics@.len() as int)
            + s2.remaining().diags,
    ensures
        s0.tokens@.len() <= s2.tokens@.len(),
        s0.diagnostics@.len() <= s2.diagnostics@.len(),
        s2.tokens_model().subrange(0, s0.tokens@.len() as int) == s0.tokens_model(),
        s2.diags_model().subrange(0, s0.diagnostics@.len() as int) == s0.diags_model(),
        s0.remaining().tokens == s2.tokens_model().skip(s0.tokens@.len() as int)
            + s2.remaining().tokens,
        s0.remaining().diags == s2.diags_model().skip(s0.diagnostics@.len() as int)
            + s2.remaining().diags,
{
    assert(s1b.remaining() == s1.remaining());
    assert(s1b.tokens_model() == s1.tokens_model());
    assert(s1b.diags_model() == s1.diags_model());
    assert(s2.tokens@.len() == s2.tokens_model().len());
    assert(s2.tokens_model().subrange(0, s0.tokens@.len() as int) =~= s0.tokens_model());
    assert(s2.diags_model().subrange(0, s0.diagnostics@.len() as int) =~= s0.diags_model());
    assert(s2.tokens_model().skip(s0.tokens@.len() as int) =~= s1.tokens_model().skip(
        s0.tokens@.len() as int,
    ) + s2.tokens_model().skip(s1.tokens@.len() as int));
    assert(s2.diags_model().skip(s0.diagnostics@.len() as int) =~= s1.diags_model().skip(
        s0.diagnostics@.len() as int,
    ) + s2.diags_model().skip(s1.diagnostics@.len() as int));
    assert(s0.remaining().tokens =~= s2.tokens_model().skip(s0.tokens@.len() as int)
        + s2.remaining().tokens);
    assert(s0.remaining().diags =~= s2.diags_model().skip(s0.diagnostics@.len() as int)
        + s2.remaining().diags);
}

/// Gluing step for `TokenFound`: pushing the pending token restores the
/// loop's running equations.
proof fn lemma_append_pushed_token<'a>(
    s0: Scanner<'a>,
    s1: Scanner<'a>,
    s2: Scanner<'a>,
    s3: Scanner<'a>,
    tokval: Token,
    ptoks: Seq<SpecToken>,
)
    requires
        s0.tokens@.len() <= s1.tokens@.len(),
        s0.diagnostics@.len() <= s1.diagnostics@.len(),
        s1.tokens_model().subrange(0, s0.tokens@.len() as int) == s0.tokens_model(),
        s1.diags_model().subrange(0, s0.diagnostics@.len() as int) == s0.diags_model(),
        s0.remaining().tokens == s1.tokens_model().skip(s0.tokens@.len() as int)
            + s1.remaining().tokens,
        s0.remaining().diags == s1.diags_model().skip(s0.diagnostics@.len() as int)
            + s1.remaining().diags,
        s2.tokens == s1.tokens,
        s2.diagnostics == s1.diagnostics,
        s1.remaining().tokens == ptoks + s2.remaining().tokens,
        s1.remaining().diags == s2.remaining().diags,
        ptoks.len() == 1,
        tokval@ == ptoks[0],
        s3.tokens@ == s2.tokens@.push(tokval),
        s3.diagnostics == s2.diagnostics,
        s3.source == s2.source,
        s3.current == s2.current,
        s3.line == s2.line,
    ensures
        s0.tokens@.len() <= s3.tokens@.len(),
        s0.diagnostics@.len() <= s3.diagnostics@.len(),
        s3.tokens_model().subrange(0, s0.tokens@.len() as int) == s0.tokens_model(),
        s3.diags_model().subrange(0, s0.diagnostics@.len() as int) == s0.diags_model(),
        s0.remaining().tokens == s3.tokens_model().skip(s0.tokens@.len() as int)
            + s3.remaining().tokens,
        s0.remaining().diags == s3.diags_model().skip(s0.diagnostics@.len() as int)
            + s3.remaining().diags,
{
    assert(s3.remaining() == s2.remaining());
    assert(s3.tokens_model() =~= s1.tokens_model().push(tokval@));
    assert(s3.diags_model() == s2.diags_model());
    assert(s2.diags_model() == s1.diags_model());
    assert(s3.tokens_model().subrange(0, s0.tokens@.len() as int) =~= s0.tokens_model());
    assert(s3.diags_model().subrange(0, s0.diagnostics@.len() as int) =~= s0.diags_model());
    assert(s3.tokens_model().skip(s0.tokens@.len() as int) =~= s1.tokens_model().skip(
        s0.tokens@.len() as int,
    ) + seq![tokval@]);
    assert(ptoks =~= seq![tokval@]);
    assert(s0.remaining().tokens =~= s3.tokens_model().skip(s0.tokens@.len() as int)
        + s3.remaining().tokens);
    assert(s0.remaining().diags =~= s3.diags_model().skip(s0.diagnostics@.len() as int)
        + s3.remaining().diags);
}

} // verus!
