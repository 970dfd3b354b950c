use rustlox::commands::is_exit_command;
use rustlox::token::{usize_to_string, Literal, Token};
use rustlox::token_type::TokenType;

#[test]
fn token_new_keeps_its_parts() {
    let tok = Token::new(
        TokenType::Plus,
        String::from("+"),
        Literal::NoLiteral,
        3,
        7,
        1,
    );
    assert_eq!(tok.token_type, TokenType::Plus);
    assert_eq!(tok.lexeme, "+");
    assert_eq!(tok.literal, Literal::NoLiteral);
    assert_eq!(tok.line, 3);
    assert_eq!(tok.start, 7);
    assert_eq!(tok.length, 1);
}

#[test]
fn token_to_string_shows_type_lexeme_line() {
    let tok = Token::new(
        TokenType::Plus,
        String::from("+"),
        Literal::NoLiteral,
        3,
        0,
        1,
    );
    assert_eq!(tok.to_string(), "Plus + 3");

    let eof = Token::new(
        TokenType::EOF,
        String::new(),
        Literal::NoLiteral,
        12,
        40,
        0,
    );
    assert_eq!(eof.to_string(), "EOF  12");
}

#[test]
fn decimal_rendering() {
    assert_eq!(usize_to_string(0), "0");
    assert_eq!(usize_to_string(7), "7");
    assert_eq!(usize_to_string(42), "42");
    assert_eq!(usize_to_string(905), "905");
    assert_eq!(usize_to_string(1234567890), "1234567890");
}

#[test]
fn exit_commands_are_trimmed_and_case_sensitive() {
    assert!(is_exit_command("exit"));
    assert!(is_exit_command("quit"));
    assert!(is_exit_command("  exit \n"));
    assert!(is_exit_command("\tquit\r\n"));
    assert!(is_exit_command("exit\u{000B}"));
    assert!(is_exit_command("\u{00A0}quit\u{3000}"));
    assert!(!is_exit_command("Exit"));
    assert!(!is_exit_command("exit now"));
    assert!(!is_exit_command(""));
    assert!(!is_exit_command("   "));
}
