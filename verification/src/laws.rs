//! Laws of the scan, proved once and for all inputs against the model in
//! [`crate::scan_model`].

use vstd::prelude::*;

use crate::diagnostics::SpecDiagnostic;
use crate::scan_model::{
    eof_token, is_blank, is_lookahead_char, is_simple_char, scan_at, scan_in_comment,
    scan_in_string, scan_spec, with_diag, ScanOut,
};
use crate::token::SpecToken;
use crate::token_type::TokenType;

verus! {

/// The token sequence ends in an end-of-input token with an empty lexeme,
/// and no end-of-input token stands anywhere else.
pub open spec fn ends_with_single_eof(toks: Seq<SpecToken>) -> bool {
    &&& toks.len() >= 1
    &&& toks.last().token_type == TokenType::EOF
    &&& toks.last().lexeme == Seq::<char>::empty()
    &&& toks.last().length == 0
    &&& forall|i: int|
        0 <= i < toks.len() - 1 ==> (#[trigger] toks[i].token_type) != TokenType::EOF
}

proof fn lemma_eof_prepend(t: SpecToken, toks: Seq<SpecToken>)
    requires
        ends_with_single_eof(toks),
        t.token_type != TokenType::EOF,
    ensures
        ends_with_single_eof(seq![t] + toks),
{
    let c = seq![t] + toks;
    assert(c.last() == toks.last());
    assert forall|i: int| 0 <= i < c.len() - 1 implies (#[trigger] c[i].token_type)
        != TokenType::EOF by {
        if i > 0 {
            assert(c[i] == toks[i - 1]);
        }
    }
}

proof fn lemma_scan_at_eof(src: Seq<char>, pos: nat, line: nat)
    ensures
        ends_with_single_eof(scan_at(src, pos, line).tokens),
    decreases src.len() - pos, 0int,
{
    if pos >= src.len() {
        assert(scan_at(src, pos, line).tokens =~= seq![eof_token(line, src.len())]);
    } else {
        let c = src[pos as int];
        if c == '/' && pos + 1 < src.len() && src[pos as int + 1] == '/' {
            lemma_scan_in_comment_eof(src, pos + 2, line);
        } else if c == '/' {
            lemma_scan_at_eof(src, pos + 1, line);
            lemma_eof_prepend(
                scan_at(src, pos, line).tokens[0],
                scan_at(src, pos + 1, line).tokens,
            );
        } else if c == '«' {
            lemma_scan_in_string_eof(src, pos + 1, line, pos, line);
        } else if is_simple_char(c) {
            lemma_scan_at_eof(src, pos + 1, line);
            lemma_eof_prepend(
                scan_at(src, pos, line).tokens[0],
                scan_at(src, pos + 1, line).tokens,
            );
        } else if is_lookahead_char(c) {
            if pos + 1 < src.len() && src[pos as int + 1] == '=' {
                lemma_scan_at_eof(src, pos + 2, line);
                lemma_eof_prepend(
                    scan_at(src, pos, line).tokens[0],
                    scan_at(src, pos + 2, line).tokens,
                );
            } else {
                lemma_scan_at_eof(src, pos + 1, line);
                lemma_eof_prepend(
                    scan_at(src, pos, line).tokens[0],
                    scan_at(src, pos + 1, line).tokens,
                );
            }
        } else if c == '\n' {
            lemma_scan_at_eof(src, pos + 1, line + 1);
        } else if is_blank(c) {
            lemma_scan_at_eof(src, pos + 1, line);
        } else {
            lemma_scan_at_eof(src, pos + 1, line);
        }
    }
}

proof fn lemma_scan_in_comment_eof(src: Seq<char>, pos: nat, line: nat)
    ensures
        ends_with_single_eof(scan_in_comment(src, pos, line).tokens),
    decreases src.len() - pos, 1int,
{
    if pos >= src.len() {
        assert(scan_in_comment(src, pos, line).tokens =~= seq![eof_token(line, src.len())]);
    } else if src[pos as int] == '\n' {
        lemma_scan_at_eof(src, pos, line);
    } else {
        lemma_scan_in_comment_eof(src, pos + 1, line);
    }
}

proof fn lemma_scan_in_string_eof(src: Seq<char>, pos: nat, line: nat, start: nat, start_line: nat)
    ensures
        ends_with_single_eof(scan_in_string(src, pos, line, start, start_line).tokens),
    decreases src.len() - pos, 1int,
{
    if pos >= src.len() {
        assert(scan_in_string(src, pos, line, start, start_line).tokens =~= seq![
            eof_token(line, src.len()),
        ]);
    } else if src[pos as int] == '»' {
        lemma_scan_at_eof(src, pos + 1, line);
        lemma_eof_prepend(
            scan_in_string(src, pos, line, start, start_line).tokens[0],
            scan_at(src, pos + 1, line).tokens,
        );
    } else if src[pos as int] == '\n' {
        lemma_scan_in_string_eof(src, pos + 1, line + 1, start, start_line);
    } else {
        lemma_scan_in_string_eof(src, pos + 1, line, start, start_line);
    }
}

/// Law: for every input, the produced token sequence's last element is an
/// end-of-input token with an empty lexeme and length 0, and it is the only
/// end-of-input token in the sequence.
pub proof fn lemma_last_token_is_eof(src: Seq<char>)
    ensures
        scan_spec(src).tokens.len() >= 1,
        scan_spec(src).tokens.last().token_type == TokenType::EOF,
        scan_spec(src).tokens.last().lexeme == Seq::<char>::empty(),
        forall|i: int|
            0 <= i < scan_spec(src).tokens.len() - 1 ==> (#[trigger] scan_spec(
                src,
            ).tokens[i].token_type) != TokenType::EOF,
{
    lemma_scan_at_eof(src, 0, 0);
}

/// Law: scanning equal sources yields structurally equal outcomes. The
/// executable scan's contract pins its output to the model of the source
/// alone, so two runs over the same text cannot differ: there is no hidden
/// state.
pub proof fn lemma_scan_idempotent(src1: Seq<char>, src2: Seq<char>)
    requires
        src1 == src2,
    ensures
        scan_spec(src1) == scan_spec(src2),
{
}

/// The concatenation of every token's lexeme, in order.
pub open spec fn lexemes_concat(toks: Seq<SpecToken>) -> Seq<char>
    decreases toks.len(),
{
    if toks.len() == 0 {
        Seq::empty()
    } else {
        toks[0].lexeme + lexemes_concat(toks.drop_first())
    }
}

/// Whitespace: what the scanner consumes without producing anything.
pub open spec fn is_whitespace_char(c: char) -> bool {
    is_blank(c) || c == '\n'
}

/// The predicate that keeps everything but whitespace.
pub open spec fn non_whitespace() -> spec_fn(char) -> bool {
    |c: char| !is_whitespace_char(c)
}

/// A character every one of which the scanner turns into (part of) a token
/// or skips as whitespace: no string delimiters, nothing unrecognized.
pub open spec fn plain_char(c: char) -> bool {
    is_simple_char(c) || is_lookahead_char(c) || c == '/' || is_whitespace_char(c)
}

/// A source with no comments, no string literals and no unrecognized
/// characters: every character is plain and no two slashes stand together.
pub open spec fn plain_source(src: Seq<char>) -> bool {
    &&& forall|i: int| 0 <= i < src.len() ==> plain_char(#[trigger] src[i])
    &&& forall|i: int|
        0 <= i < src.len() - 1 ==> !((#[trigger] src[i]) == '/' && src[i + 1] == '/')
}

proof fn lemma_lexemes_concat_prepend(t: SpecToken, toks: Seq<SpecToken>)
    ensures
        lexemes_concat(seq![t] + toks) == t.lexeme + lexemes_concat(toks),
{
    let c = seq![t] + toks;
    assert(c[0] == t);
    assert(c.drop_first() =~= toks);
}

/// One scan step that consumed `consumed` non-whitespace characters and
/// produced one token whose lexeme is exactly those characters: the
/// concatenation equation carries from the rest of the scan to this step.
proof fn lemma_two_char_assemble(c: char, c2: char, rest: Seq<char>)
    ensures
        seq![c, c2] + rest == seq![c] + (seq![c2] + rest),
{
    assert(seq![c, c2] + rest =~= seq![c] + (seq![c2] + rest));
}

proof fn lemma_concat_step_token(src: Seq<char>, pos: nat, line: nat, t: SpecToken, consumed: nat)
    requires
        1 <= consumed <= 2,
        pos + consumed <= src.len(),
        scan_at(src, pos, line).tokens == seq![t] + scan_at(src, pos + consumed, line).tokens,
        t.lexeme == src.subrange(pos as int, pos as int + consumed),
        forall|j: int| pos <= j < pos + consumed ==> !is_whitespace_char(#[trigger] src[j]),
        lexemes_concat(scan_at(src, pos + consumed, line).tokens) == src.skip(
            pos as int + consumed,
        ).filter(non_whitespace()),
    ensures
        lexemes_concat(scan_at(src, pos, line).tokens) == src.skip(pos as int).filter(
            non_whitespace(),
        ),
{
    let pred = non_whitespace();
    lemma_lexemes_concat_prepend(t, scan_at(src, pos + consumed, line).tokens);
    if consumed == 1 {
        let c = src[pos as int];
        assert(t.lexeme =~= seq![c]);
        assert(src.skip(pos as int) =~= seq![c] + src.skip(pos as int + 1));
        Seq::lemma_filter_prepend(src.skip(pos as int + 1), c, pred);
        assert(pred(c));
        assert(lexemes_concat(scan_at(src, pos, line).tokens) =~= src.skip(pos as int).filter(
            pred,
        ));
    } else {
        let c = src[pos as int];
        let c2 = src[pos as int + 1];
        let rest2 = src.skip(pos as int + 2).filter(pred);
        assert(pred(c) && pred(c2));
        assert(t.lexeme =~= seq![c, c2]);
        assert(src.skip(pos as int + 1).filter(pred) == seq![c2] + rest2) by {
            assert(src.skip(pos as int + 1) =~= seq![c2] + src.skip(pos as int + 2));
            Seq::lemma_filter_prepend(src.skip(pos as int + 2), c2, pred);
        }
        assert(src.skip(pos as int).filter(pred) == seq![c] + (seq![c2] + rest2)) by {
            assert(src.skip(pos as int) =~= seq![c] + src.skip(pos as int + 1));
            Seq::lemma_filter_prepend(src.skip(pos as int + 1), c, pred);
        }
        assert(lexemes_concat(scan_at(src, pos, line).tokens) == seq![c, c2] + rest2);
        lemma_two_char_assemble(c, c2, rest2);
    }
}

proof fn lemma_concat_at(src: Seq<char>, pos: nat, line: nat)
    requires
        pos <= src.len(),
        plain_source(src),
    ensures
        lexemes_concat(scan_at(src, pos, line).tokens) == src.skip(pos as int).filter(
            non_whitespace(),
        ),
    decreases src.len() - pos,
{
    let pred = non_whitespace();
    if pos >= src.len() {
        let toks = scan_at(src, pos, line).tokens;
        assert(toks =~= seq![eof_token(line, src.len())]);
        assert(toks.drop_first() =~= Seq::<SpecToken>::empty());
        assert(lexemes_concat(toks.drop_first()) == Seq::<char>::empty());
        assert(lexemes_concat(toks) =~= Seq::<char>::empty());
        assert(src.skip(pos as int) =~= Seq::<char>::empty());
        assert(src.skip(pos as int).filter(pred) =~= Seq::<char>::empty());
    } else {
        let c = src[pos as int];
        assert(plain_char(c));
        if c == '/' && pos + 1 < src.len() && src[pos as int + 1] == '/' {
            assert(false);
        } else if c == '/' || is_simple_char(c) || (is_lookahead_char(c) && !(pos + 1 < src.len()
            && src[pos as int + 1] == '=')) {
            // one consumed character, one one-character token
            lemma_concat_at(src, pos + 1, line);
            let t = scan_at(src, pos, line).tokens[0];
            assert(scan_at(src, pos, line).tokens == seq![t] + scan_at(src, pos + 1, line).tokens);
            assert(t.lexeme == src.subrange(pos as int, pos as int + 1));
            lemma_concat_step_token(src, pos, line, t, 1);
        } else if is_lookahead_char(c) {
            // two consumed characters, one two-character token
            lemma_concat_at(src, pos + 2, line);
            let t = scan_at(src, pos, line).tokens[0];
            assert(scan_at(src, pos, line).tokens == seq![t] + scan_at(src, pos + 2, line).tokens);
            assert(t.lexeme == src.subrange(pos as int, pos as int + 2));
            lemma_concat_step_token(src, pos, line, t, 2);
        } else {
            // whitespace: consumed, no token, filtered out on the right
            assert(is_whitespace_char(c));
            let next_line: nat = if c == '\n' {
                line + 1
            } else {
                line
            };
            lemma_concat_at(src, pos + 1, next_line);
            assert(scan_at(src, pos, line) == scan_at(src, pos + 1, next_line));
            assert(src.skip(pos as int) =~= seq![c] + src.skip(pos as int + 1));
            Seq::lemma_filter_prepend(src.skip(pos as int + 1), c, pred);
            assert(!pred(c));
            assert(src.skip(pos as int).filter(pred) =~= src.skip(pos as int + 1).filter(pred));
        }
    }
}

/// Law: for a source with no comments, no string literals and no
/// unrecognized characters, concatenating every token's lexeme in order
/// reproduces the source text with its whitespace removed.
pub proof fn lemma_lexemes_reproduce_source(src: Seq<char>)
    requires
        plain_source(src),
    ensures
        lexemes_concat(scan_spec(src).tokens) == src.filter(non_whitespace()),
{
    lemma_concat_at(src, 0, 0);
    assert(src.skip(0) =~= src);
}

/// Some diagnostic in the sequence reports an unterminated string.
pub open spec fn has_unterminated(diags: Seq<SpecDiagnostic>) -> bool {
    exists|k: int| 0 <= k < diags.len() && (#[trigger] diags[k]) is UnterminatedString
}

/// No token in the sequence is a string token.
pub open spec fn no_string_token(toks: Seq<SpecToken>) -> bool {
    forall|k: int| 0 <= k < toks.len() ==> (#[trigger] toks[k].token_type) != TokenType::String
}

/// Every string token in the sequence starts before position `opener`.
pub open spec fn string_tokens_start_before(toks: Seq<SpecToken>, opener: int) -> bool {
    forall|k: int|
        0 <= k < toks.len() && (#[trigger] toks[k]).token_type == TokenType::String
            ==> toks[k].start < opener
}

proof fn lemma_string_bound_prepend(t: SpecToken, toks: Seq<SpecToken>, opener: int)
    requires
        string_tokens_start_before(toks, opener),
        t.token_type == TokenType::String ==> t.start < opener,
    ensures
        string_tokens_start_before(seq![t] + toks, opener),
{
    let c = seq![t] + toks;
    assert forall|k: int|
        0 <= k < c.len() && (#[trigger] c[k]).token_type == TokenType::String implies c[k].start
        < opener by {
        if k > 0 {
            assert(c[k] == toks[k - 1]);
        }
    }
}

proof fn lemma_string_never_closes(
    src: Seq<char>,
    pos: nat,
    line: nat,
    start: nat,
    start_line: nat,
)
    requires
        forall|i: int| pos <= i < src.len() ==> (#[trigger] src[i]) != '»',
    ensures
        scan_in_string(src, pos, line, start, start_line).diags == seq![
            (SpecDiagnostic::UnterminatedString { line: start_line }),
        ],
        no_string_token(scan_in_string(src, pos, line, start, start_line).tokens),
    decreases src.len() - pos,
{
    if pos >= src.len() {
        assert(scan_in_string(src, pos, line, start, start_line).tokens =~= seq![
            eof_token(line, src.len()),
        ]);
    } else if src[pos as int] == '\n' {
        lemma_string_never_closes(src, pos + 1, line + 1, start, start_line);
    } else {
        lemma_string_never_closes(src, pos + 1, line, start, start_line);
    }
}

proof fn lemma_unterm_prepend(d: SpecDiagnostic, diags: Seq<SpecDiagnostic>)
    requires
        has_unterminated(diags),
    ensures
        has_unterminated(seq![d] + diags),
{
    let k = choose|k: int| 0 <= k < diags.len() && (#[trigger] diags[k]) is UnterminatedString;
    assert((seq![d] + diags)[k + 1] == diags[k]);
}

/// A step that prepends one diagnostic keeps both halves of the
/// unterminated-string law.
proof fn lemma_unterm_step_diag(here: ScanOut, d: SpecDiagnostic, rest: ScanOut, opener: int)
    requires
        here == with_diag(d, rest),
        has_unterminated(rest.diags),
        string_tokens_start_before(rest.tokens, opener),
    ensures
        has_unterminated(here.diags),
        string_tokens_start_before(here.tokens, opener),
{
    assert(here.diags == seq![d] + rest.diags);
    lemma_unterm_prepend(d, rest.diags);
}

/// Inside a string literal that opened before the unterminated opener at
/// `opener`: either it closes before `opener` and the scan goes on, or no
/// closer remains at all.
proof fn lemma_unterminated_in_string(
    src: Seq<char>,
    pos: nat,
    line: nat,
    start: nat,
    start_line: nat,
    opener: int,
)
    requires
        start < pos <= opener < src.len(),
        src[opener] == '«',
        forall|i: int| opener <= i < src.len() ==> (#[trigger] src[i]) != '»',
        forall|i: int|
            0 <= i < src.len() - 1 ==> !((#[trigger] src[i]) == '/' && src[i + 1] == '/'),
    ensures
        has_unterminated(scan_in_string(src, pos, line, start, start_line).diags),
        string_tokens_start_before(scan_in_string(src, pos, line, start, start_line).tokens, opener),
    decreases src.len() - pos,
{
    let here = scan_in_string(src, pos, line, start, start_line);
    if src[pos as int] == '»' {
        // the literal closes before the opener; its token starts at `start`
        assert(pos < opener);
        lemma_unterminated_at(src, pos + 1, line, opener);
        let rest = scan_at(src, pos + 1, line);
        assert(here.diags == rest.diags);
        assert(here.tokens == seq![here.tokens[0]] + rest.tokens);
        assert(here.tokens[0].start < opener);
        lemma_string_bound_prepend(here.tokens[0], rest.tokens, opener);
    } else if pos == opener {
        // the literal swallows the opener; no closer remains, so it never
        // closes
        lemma_string_never_closes(src, pos + 1, line, start, start_line);
        let out = scan_in_string(src, pos + 1, line, start, start_line);
        assert(here == out);
        assert(out.diags[0] is UnterminatedString);
        assert(has_unterminated(out.diags));
    } else if src[pos as int] == '\n' {
        lemma_unterminated_in_string(src, pos + 1, line + 1, start, start_line, opener);
    } else {
        lemma_unterminated_in_string(src, pos + 1, line, start, start_line, opener);
    }
}

proof fn lemma_unterminated_at(src: Seq<char>, pos: nat, line: nat, opener: int)
    requires
        pos <= opener < src.len(),
        src[opener] == '«',
        forall|i: int| opener <= i < src.len() ==> (#[trigger] src[i]) != '»',
        forall|i: int|
            0 <= i < src.len() - 1 ==> !((#[trigger] src[i]) == '/' && src[i + 1] == '/'),
    ensures
        has_unterminated(scan_at(src, pos, line).diags),
        string_tokens_start_before(scan_at(src, pos, line).tokens, opener),
    decreases src.len() - pos,
{
    let c = src[pos as int];
    let here = scan_at(src, pos, line);
    if c == '«' {
        if pos == opener {
            // the unterminated literal itself: no closer ever comes
            lemma_string_never_closes(src, pos + 1, line, pos, line);
            let out = scan_in_string(src, pos + 1, line, pos, line);
            assert(out.diags[0] is UnterminatedString);
            assert(has_unterminated(out.diags));
        } else {
            // an earlier literal: it closes before the opener or never
            lemma_unterminated_in_string(src, pos + 1, line, pos, line, opener);
        }
    } else if c == '/' && pos + 1 < src.len() && src[pos as int + 1] == '/' {
        assert(!(src[pos as int] == '/' && src[pos as int + 1] == '/'));
        assert(false);
    } else if c == '/' || is_simple_char(c) || (is_lookahead_char(c) && !(pos + 1 < src.len()
        && src[pos as int + 1] == '=')) {
        // a one-character operator token; the opener lies further on
        assert(pos < opener);
        lemma_unterminated_at(src, pos + 1, line, opener);
        let rest = scan_at(src, pos + 1, line);
        assert(here.diags == rest.diags);
        assert(here.tokens == seq![here.tokens[0]] + rest.tokens);
        lemma_string_bound_prepend(here.tokens[0], rest.tokens, opener);
    } else if is_lookahead_char(c) {
        // a two-character operator token; neither character is the opener
        assert(pos < opener);
        assert(src[pos as int + 1] == '=');
        assert(pos + 1 != opener);
        lemma_unterminated_at(src, pos + 2, line, opener);
        let rest = scan_at(src, pos + 2, line);
        assert(here.diags == rest.diags);
        assert(here.tokens == seq![here.tokens[0]] + rest.tokens);
        lemma_string_bound_prepend(here.tokens[0], rest.tokens, opener);
    } else if c == '\n' {
        assert(pos < opener);
        lemma_unterminated_at(src, pos + 1, line + 1, opener);
        assert(here == scan_at(src, pos + 1, line + 1));
    } else if is_blank(c) {
        assert(pos < opener);
        lemma_unterminated_at(src, pos + 1, line, opener);
        assert(here == scan_at(src, pos + 1, line));
    } else {
        // an unrecognized character: its own diagnostic is prepended
        assert(pos < opener);
        lemma_unterminated_at(src, pos + 1, line, opener);
        let rest = scan_at(src, pos + 1, line);
        let d = SpecDiagnostic::UnrecognizedCharacter { line, offset: pos, ch: c };
        assert(here == with_diag(d, rest));
        lemma_unterm_step_diag(here, d, rest, opener);
    }
}

/// Law: when an opening string delimiter at position `opener` finds no
/// closing delimiter anywhere from that point on, and no comment could hide
/// it, the scan reports an unterminated-string diagnostic, and no string
/// token is emitted for that fragment: every string token starts before the
/// opener.
pub proof fn lemma_unterminated_string_reported(src: Seq<char>, opener: int)
    requires
        0 <= opener < src.len(),
        src[opener] == '«',
        forall|i: int| opener <= i < src.len() ==> (#[trigger] src[i]) != '»',
        forall|i: int|
            0 <= i < src.len() - 1 ==> !((#[trigger] src[i]) == '/' && src[i + 1] == '/'),
    ensures
        has_unterminated(scan_spec(src).diags),
        string_tokens_start_before(scan_spec(src).tokens, opener),
{
    lemma_unterminated_at(src, 0, 0, opener);
}

/// Every token's recorded offsets index the source: the lexeme is the
/// substring of `src` that starts at `start` and runs for `length`
/// characters.
pub open spec fn tokens_index_source(src: Seq<char>, toks: Seq<SpecToken>) -> bool {
    forall|k: int|
        0 <= k < toks.len() ==> {
            &&& (#[trigger] toks[k]).start + toks[k].length <= src.len()
            &&& toks[k].lexeme == src.subrange(
                toks[k].start as int,
                toks[k].start + toks[k].length as int,
            )
        }
}

proof fn lemma_index_source_prepend(src: Seq<char>, t: SpecToken, toks: Seq<SpecToken>)
    requires
        tokens_index_source(src, toks),
        t.start + t.length <= src.len(),
        t.lexeme == src.subrange(t.start as int, t.start + t.length as int),
    ensures
        tokens_index_source(src, seq![t] + toks),
{
    let c = seq![t] + toks;
    assert forall|k: int| 0 <= k < c.len() implies {
        &&& (#[trigger] c[k]).start + c[k].length <= src.len()
        &&& c[k].lexeme == src.subrange(c[k].start as int, c[k].start + c[k].length as int)
    } by {
        if k > 0 {
            assert(c[k] == toks[k - 1]);
        }
    }
}

proof fn lemma_scan_at_offsets(src: Seq<char>, pos: nat, line: nat)
    requires
        pos <= src.len(),
    ensures
        tokens_index_source(src, scan_at(src, pos, line).tokens),
    decreases src.len() - pos, 0int,
{
    if pos >= src.len() {
        let t = eof_token(line, src.len());
        assert(t.lexeme =~= src.subrange(t.start as int, t.start + t.length as int));
        assert(scan_at(src, pos, line).tokens =~= seq![t]);
        lemma_index_source_prepend(src, t, Seq::empty());
        assert(seq![t] + Seq::<SpecToken>::empty() =~= seq![t]);
    } else {
        let c = src[pos as int];
        if c == '/' && pos + 1 < src.len() && src[pos as int + 1] == '/' {
            lemma_scan_in_comment_offsets(src, pos + 2, line);
        } else if c == '/' || is_simple_char(c) || (is_lookahead_char(c) && !(pos + 1 < src.len()
            && src[pos as int + 1] == '=')) {
            lemma_scan_at_offsets(src, pos + 1, line);
            lemma_index_source_prepend(
                src,
                scan_at(src, pos, line).tokens[0],
                scan_at(src, pos + 1, line).tokens,
            );
        } else if c == '«' {
            lemma_scan_in_string_offsets(src, pos + 1, line, pos, line);
        } else if is_lookahead_char(c) {
            lemma_scan_at_offsets(src, pos + 2, line);
            lemma_index_source_prepend(
                src,
                scan_at(src, pos, line).tokens[0],
                scan_at(src, pos + 2, line).tokens,
            );
        } else if c == '\n' {
            lemma_scan_at_offsets(src, pos + 1, line + 1);
        } else {
            lemma_scan_at_offsets(src, pos + 1, line);
        }
    }
}

proof fn lemma_scan_in_comment_offsets(src: Seq<char>, pos: nat, line: nat)
    requires
        pos <= src.len(),
    ensures
        tokens_index_source(src, scan_in_comment(src, pos, line).tokens),
    decreases src.len() - pos, 1int,
{
    if pos >= src.len() {
        let t = eof_token(line, src.len());
        assert(t.lexeme =~= src.subrange(t.start as int, t.start + t.length as int));
        assert(scan_in_comment(src, pos, line).tokens =~= seq![t]);
        lemma_index_source_prepend(src, t, Seq::empty());
        assert(seq![t] + Seq::<SpecToken>::empty() =~= seq![t]);
    } else if src[pos as int] == '\n' {
        lemma_scan_at_offsets(src, pos, line);
    } else {
        lemma_scan_in_comment_offsets(src, pos + 1, line);
    }
}

proof fn lemma_scan_in_string_offsets(
    src: Seq<char>,
    pos: nat,
    line: nat,
    start: nat,
    start_line: nat,
)
    requires
        pos <= src.len(),
        start < pos,
    ensures
        tokens_index_source(src, scan_in_string(src, pos, line, start, start_line).tokens),
    decreases src.len() - pos, 1int,
{
    if pos >= src.len() {
        let t = eof_token(line, src.len());
        assert(t.lexeme =~= src.subrange(t.start as int, t.start + t.length as int));
        assert(scan_in_string(src, pos, line, start, start_line).tokens =~= seq![t]);
        lemma_index_source_prepend(src, t, Seq::empty());
        assert(seq![t] + Seq::<SpecToken>::empty() =~= seq![t]);
    } else if src[pos as int] == '»' {
        lemma_scan_at_offsets(src, pos + 1, line);
        let t = scan_in_string(src, pos, line, start, start_line).tokens[0];
        assert(t.lexeme == src.subrange(t.start as int, t.start + t.length as int));
        lemma_index_source_prepend(src, t, scan_at(src, pos + 1, line).tokens);
    } else if src[pos as int] == '\n' {
        lemma_scan_in_string_offsets(src, pos + 1, line + 1, start, start_line);
    } else {
        lemma_scan_in_string_offsets(src, pos + 1, line, start, start_line);
    }
}

/// Law: in a full scan, every token's `start` and `length` index the source
/// text, and its lexeme is exactly that substring.
pub proof fn lemma_token_offsets_index_source(src: Seq<char>)
    ensures
        tokens_index_source(src, scan_spec(src).tokens),
{
    lemma_scan_at_offsets(src, 0, 0);
}

} // verus!

