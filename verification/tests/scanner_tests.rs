use rustlox::diagnostics::Diagnostic;
use rustlox::helpers::match_next;
use rustlox::scan_token::scan_token;
use rustlox::scan_tokens::scan_tokens;
use rustlox::scanner_struct::{ScanTokenResult, Scanner};
use rustlox::token::{Literal, Token};
use rustlox::token_type::TokenType;

fn scan(source: &str) -> Scanner<'_> {
    let mut scanner = Scanner::new(source);
    scan_tokens(&mut scanner);
    scanner
}

fn types_of(tokens: &[Token]) -> Vec<TokenType> {
    tokens.iter().map(|t| t.token_type).collect()
}

fn lexemes_of(tokens: &[Token]) -> Vec<String> {
    tokens.iter().map(|t| t.lexeme.clone()).collect()
}

#[test]
fn empty_input_yields_only_eof() {
    let scanner = scan("");
    assert_eq!(scanner.tokens.len(), 1);
    assert_eq!(scanner.tokens[0].token_type, TokenType::EOF);
    assert_eq!(scanner.tokens[0].lexeme, "");
    assert_eq!(scanner.tokens[0].line, 0);
    assert_eq!(scanner.tokens[0].length, 0);
    assert!(scanner.diagnostics.is_empty());
}

#[test]
fn every_scan_ends_with_one_eof() {
    for source in ["", "+", "==", "a b c", "// only a comment", "«open", "(\n)\n"] {
        let scanner = scan(source);
        let last = scanner.tokens.last().unwrap();
        assert_eq!(last.token_type, TokenType::EOF);
        assert_eq!(last.lexeme, "");
        let eof_count = scanner
            .tokens
            .iter()
            .filter(|t| t.token_type == TokenType::EOF)
            .count();
        assert_eq!(eof_count, 1);
    }
}

#[test]
fn longest_match_wins_for_equality() {
    let scanner = scan("==");
    assert_eq!(
        types_of(&scanner.tokens),
        vec![TokenType::EqualityTest, TokenType::EOF]
    );
    assert_eq!(scanner.tokens[0].lexeme, "==");
    assert_eq!(scanner.tokens[0].start, 0);
    assert_eq!(scanner.tokens[0].length, 2);
}

#[test]
fn comment_produces_no_token() {
    let scanner = scan("+ // ignore this\n-");
    assert_eq!(
        types_of(&scanner.tokens),
        vec![TokenType::Plus, TokenType::Minus, TokenType::EOF]
    );
    assert_eq!(lexemes_of(&scanner.tokens), vec!["+", "-", ""]);
    assert_eq!(scanner.tokens[1].line, 1);
}

#[test]
fn comment_at_end_of_input_is_not_an_error() {
    let scanner = scan("+ // trailing words");
    assert_eq!(
        types_of(&scanner.tokens),
        vec![TokenType::Plus, TokenType::EOF]
    );
    assert!(scanner.diagnostics.is_empty());
}

#[test]
fn single_slash_is_division() {
    let scanner = scan("/ +");
    assert_eq!(
        types_of(&scanner.tokens),
        vec![TokenType::Slash, TokenType::Plus, TokenType::EOF]
    );
}

#[test]
fn slash_at_end_of_input_is_division() {
    let scanner = scan("/");
    assert_eq!(
        types_of(&scanner.tokens),
        vec![TokenType::Slash, TokenType::EOF]
    );
}

#[test]
fn unterminated_string_reports_diagnostic_and_no_string_token() {
    let scanner = scan("+«abc");
    assert_eq!(
        scanner.diagnostics,
        vec![Diagnostic::UnterminatedString { line: 0 }]
    );
    assert!(scanner
        .tokens
        .iter()
        .all(|t| t.token_type != TokenType::String));
    assert_eq!(
        types_of(&scanner.tokens),
        vec![TokenType::Plus, TokenType::EOF]
    );
}

#[test]
fn string_token_has_delimited_lexeme_and_bare_payload() {
    let scanner = scan("«hi»");
    assert_eq!(scanner.tokens.len(), 2);
    let tok = &scanner.tokens[0];
    assert_eq!(tok.token_type, TokenType::String);
    assert_eq!(tok.lexeme, "«hi»");
    assert_eq!(tok.literal, Literal::String(String::from("hi")));
    assert_eq!(tok.line, 0);
    assert_eq!(tok.start, 0);
    assert_eq!(tok.length, 4);
    assert!(scanner.diagnostics.is_empty());
}

#[test]
fn empty_string_literal() {
    let scanner = scan("«»");
    let tok = &scanner.tokens[0];
    assert_eq!(tok.token_type, TokenType::String);
    assert_eq!(tok.lexeme, "«»");
    assert_eq!(tok.literal, Literal::String(String::new()));
}

#[test]
fn line_break_inside_string_advances_line() {
    let scanner = scan("«a\nb»+");
    assert_eq!(
        types_of(&scanner.tokens),
        vec![TokenType::String, TokenType::Plus, TokenType::EOF]
    );
    assert_eq!(scanner.tokens[0].line, 0);
    assert_eq!(scanner.tokens[0].literal, Literal::String(String::from("a\nb")));
    assert_eq!(scanner.tokens[1].line, 1);
}

#[test]
fn line_tracking_counts_leading_breaks() {
    let scanner = scan("\n\n+");
    let plus = scanner
        .tokens
        .iter()
        .find(|t| t.token_type == TokenType::Plus)
        .unwrap();
    assert_eq!(plus.line, 2);
}

#[test]
fn scanning_twice_yields_equal_sequences() {
    let source = "(« a »)\n<= // note\n≠";
    let first = scan(source);
    let second = scan(source);
    assert_eq!(first.tokens, second.tokens);
    assert_eq!(first.diagnostics, second.diagnostics);
}

#[test]
fn lexemes_concatenate_to_source_without_whitespace() {
    let source = "( ) <= ==\n- + * ; . , { } ! < > ≠ /";
    let scanner = scan(source);
    assert!(scanner.diagnostics.is_empty());
    let concatenated: String = scanner.tokens.iter().map(|t| t.lexeme.as_str()).collect::<String>();
    let squeezed: String = source.chars().filter(|c| !c.is_whitespace()).collect();
    assert_eq!(concatenated, squeezed);
}

#[test]
fn all_single_character_tokens() {
    let scanner = scan("(){},.;*-+");
    assert_eq!(
        types_of(&scanner.tokens),
        vec![
            TokenType::LeftParen,
            TokenType::RightParen,
            TokenType::LeftBrace,
            TokenType::RightBrace,
            TokenType::Comma,
            TokenType::Dot,
            TokenType::Semicolon,
            TokenType::Star,
            TokenType::Minus,
            TokenType::Plus,
            TokenType::EOF,
        ]
    );
}

#[test]
fn all_special_glyph_tokens() {
    let scanner = scan("⁻≤≥≠¬≟←");
    assert_eq!(
        types_of(&scanner.tokens),
        vec![
            TokenType::Negative,
            TokenType::LessEqual,
            TokenType::GreaterEqual,
            TokenType::NotEqual,
            TokenType::Not,
            TokenType::EqualityTest,
            TokenType::Assignment,
            TokenType::EOF,
        ]
    );
}

#[test]
fn lookahead_operators_simple_and_compound() {
    let scanner = scan("! = < > != == <= >=");
    assert_eq!(
        types_of(&scanner.tokens),
        vec![
            TokenType::Not,
            TokenType::Assignment,
            TokenType::Less,
            TokenType::Greater,
            TokenType::NotEqual,
            TokenType::EqualityTest,
            TokenType::LessEqual,
            TokenType::GreaterEqual,
            TokenType::EOF,
        ]
    );
}

#[test]
fn unrecognized_character_is_skipped_with_diagnostic() {
    let scanner = scan("@+");
    assert_eq!(
        types_of(&scanner.tokens),
        vec![TokenType::Plus, TokenType::EOF]
    );
    assert_eq!(
        scanner.diagnostics,
        vec![Diagnostic::UnrecognizedCharacter {
            line: 0,
            offset: 0,
            ch: '@',
        }]
    );
}

#[test]
fn unrecognized_characters_never_halt_the_scan() {
    let scanner = scan("a1+b2");
    assert_eq!(
        types_of(&scanner.tokens),
        vec![TokenType::Plus, TokenType::EOF]
    );
    assert_eq!(scanner.diagnostics.len(), 4);
}

#[test]
fn token_offsets_index_the_source() {
    let source = "+ <= «ab»";
    let scanner = scan(source);
    let chars: Vec<char> = source.chars().collect();
    for tok in &scanner.tokens {
        let substring: String = chars[tok.start..tok.start + tok.length].iter().collect();
        assert_eq!(substring, tok.lexeme);
    }
}

#[test]
fn scanner_new_starts_at_origin() {
    let scanner = Scanner::new("ab");
    assert_eq!(scanner.start, 0);
    assert_eq!(scanner.current, 0);
    assert_eq!(scanner.line, 0);
    assert_eq!(scanner.current_char, Some('a'));
    assert!(scanner.tokens.is_empty());
    assert!(scanner.diagnostics.is_empty());
}

#[test]
fn advance_moves_cursor_and_refreshes_cache() {
    let mut scanner = Scanner::new("ab");
    scanner.advance(1);
    assert_eq!(scanner.current, 1);
    assert_eq!(scanner.current_char, Some('b'));
    scanner.advance(1);
    assert_eq!(scanner.current, 2);
    assert_eq!(scanner.current_char, None);
}

#[test]
fn match_next_peeks_one_past_the_cursor() {
    let mut scanner = Scanner::new("!=");
    assert_eq!(match_next(&mut scanner, '='), Ok(()));
    assert_eq!(match_next(&mut scanner, '!'), Err(()));
    assert_eq!(scanner.current, 0);
    let mut short = Scanner::new("!");
    assert_eq!(match_next(&mut short, '='), Err(()));
}

#[test]
fn scan_token_reports_a_single_pass() {
    let mut scanner = Scanner::new("==");
    let result = scan_token(&mut scanner);
    assert_eq!(result, ScanTokenResult::TokenFound(TokenType::EqualityTest));
    assert_eq!(scanner.current, 2);

    let mut empty = Scanner::new("");
    assert_eq!(scan_token(&mut empty), ScanTokenResult::EndOfFile);

    let mut blank = Scanner::new(" ");
    assert_eq!(scan_token(&mut blank), ScanTokenResult::NoTokenFromScanPass);

    let mut quoted = Scanner::new("«x»");
    assert_eq!(scan_token(&mut quoted), ScanTokenResult::TokenFoundAndAdded);
    assert_eq!(quoted.tokens.len(), 1);
    assert_eq!(quoted.tokens[0].token_type, TokenType::String);
    assert_eq!(quoted.current, 3);
}

#[test]
fn scan_token_single_character_pass() {
    let mut scanner = Scanner::new("()");
    assert_eq!(
        scan_token(&mut scanner),
        ScanTokenResult::TokenFound(TokenType::LeftParen)
    );
    assert_eq!(scanner.current, 1);
    assert!(scanner.tokens.is_empty());

    let mut glyph = Scanner::new("≤");
    assert_eq!(
        scan_token(&mut glyph),
        ScanTokenResult::TokenFound(TokenType::LessEqual)
    );
    assert_eq!(glyph.current, 1);
}

#[test]
fn scan_token_lone_slash_pass() {
    let mut scanner = Scanner::new("/a");
    assert_eq!(
        scan_token(&mut scanner),
        ScanTokenResult::TokenFound(TokenType::Slash)
    );
    assert_eq!(scanner.current, 1);
}

#[test]
fn scan_token_comment_pass_stops_before_line_break() {
    let mut scanner = Scanner::new("// note\n+");
    assert_eq!(scan_token(&mut scanner), ScanTokenResult::NoTokenFromScanPass);
    assert_eq!(scanner.current, 7);
    assert_eq!(scanner.current_char, Some('\n'));
    assert!(scanner.tokens.is_empty());

    let mut at_end = Scanner::new("// note");
    assert_eq!(scan_token(&mut at_end), ScanTokenResult::EndOfFile);
    assert_eq!(at_end.current, 7);
    assert!(at_end.tokens.is_empty());
}

#[test]
fn scan_token_lookahead_pass_consumes_one_or_two() {
    let mut simple = Scanner::new("<a");
    assert_eq!(
        scan_token(&mut simple),
        ScanTokenResult::TokenFound(TokenType::Less)
    );
    assert_eq!(simple.current, 1);

    let mut compound = Scanner::new("<=a");
    assert_eq!(
        scan_token(&mut compound),
        ScanTokenResult::TokenFound(TokenType::LessEqual)
    );
    assert_eq!(compound.current, 2);
}

#[test]
fn scan_token_unterminated_string_pass() {
    let mut scanner = Scanner::new("«abc");
    assert_eq!(scan_token(&mut scanner), ScanTokenResult::EndOfFile);
    assert_eq!(scanner.current, 4);
    assert!(scanner.tokens.is_empty());
    assert_eq!(
        scanner.diagnostics,
        vec![Diagnostic::UnterminatedString { line: 0 }]
    );
}

#[test]
fn scan_token_unrecognized_pass_skips_one_char() {
    let mut scanner = Scanner::new("@@");
    assert_eq!(scan_token(&mut scanner), ScanTokenResult::NoTokenFromScanPass);
    assert_eq!(scanner.current, 1);
    assert!(scanner.tokens.is_empty());
    assert_eq!(scanner.diagnostics.len(), 1);
}

#[test]
fn closed_string_before_unterminated_opener() {
    let scanner = scan("«a»«b");
    assert_eq!(
        types_of(&scanner.tokens),
        vec![TokenType::String, TokenType::EOF]
    );
    assert_eq!(scanner.tokens[0].lexeme, "«a»");
    assert_eq!(scanner.tokens[0].start, 0);
    assert_eq!(
        scanner.diagnostics,
        vec![Diagnostic::UnterminatedString { line: 0 }]
    );
}
