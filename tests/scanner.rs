use rs_lox::scanner::Scanner;
use rs_lox::token::{Decimal, Literal, Token};
use rs_lox::token_type::TokenType;

fn decimal(whole: &str, fraction: &str) -> Literal {
    Literal::Number(Decimal {
        whole: whole.as_bytes().to_vec(),
        fraction: fraction.as_bytes().to_vec(),
    })
}

#[test]
fn test_is_at_end() {
    let scanner = Scanner::new("".to_string());
    assert_eq!(scanner.is_at_end(), true);
}

#[test]
fn test_scan_tokens_string() {
    let mut scanner = Scanner::new("\"hello\"".to_string());
    let tokens = scanner.scan_tokens().unwrap();
    assert_eq!(
        tokens,
        vec![
            Token::new(
                TokenType::String,
                String::from("\"hello\""),
                Some(Literal::String("hello".to_string().into_bytes())),
                1
            ),
            Token::new(TokenType::EOF, String::from(""), None, 1)
        ]
        .as_slice()
    );
}

#[test]
fn test_scan_tokens_number() {
    let mut scanner = Scanner::new("123.45\n321".to_string());
    let tokens = scanner.scan_tokens().unwrap();
    assert_eq!(
        tokens,
        vec![
            Token::new(TokenType::Number, String::from("123.45"), Some(decimal("123", "45")), 1),
            Token::new(TokenType::Number, String::from("321"), Some(decimal("321", "")), 2),
            Token::new(TokenType::EOF, String::from(""), None, 2)
        ]
        .as_slice()
    );
}

#[test]
fn test_scan_tokens_identifier() {
    let mut scanner = Scanner::new("fun hello()".to_string());
    let tokens = scanner.scan_tokens().unwrap();
    assert_eq!(
        tokens,
        vec![
            Token::new(TokenType::Fun, String::from("fun"), None, 1),
            Token::new(TokenType::Identifier, String::from("hello"), None, 1),
            Token::new(TokenType::LeftParen, String::from("("), None, 1),
            Token::new(TokenType::RightParen, String::from(")"), None, 1),
            Token::new(TokenType::EOF, String::from(""), None, 1)
        ]
        .as_slice()
    );
}
