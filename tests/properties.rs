use rs_lox::lexical::ScanErrorKind;
use rs_lox::scanner::{scan, Scanner};
use rs_lox::token::{Literal, Token};
use rs_lox::token_type::TokenType;

fn kinds(tokens: &[Token]) -> Vec<TokenType> {
    tokens.iter().map(|t| t.token_type).collect()
}

fn number_value(token: &Token) -> f64 {
    match &token.literal {
        Some(Literal::Number(d)) => {
            let mut text = String::from_utf8(d.whole.clone()).unwrap();
            if !d.fraction.is_empty() {
                text.push('.');
                text.push_str(std::str::from_utf8(&d.fraction).unwrap());
            }
            text.parse::<f64>().unwrap()
        }
        _ => panic!("not a number literal"),
    }
}

#[test]
fn only_whitespace_and_comments() {
    for source in ["", " \t\r\n", "// a comment", "  // one\n\t// two\n", "//\n//"] {
        let tokens = scan(source.to_string()).unwrap();
        assert_eq!(kinds(&tokens), vec![TokenType::EOF]);
    }
    let tokens = scan("\n\n// x\n".to_string()).unwrap();
    assert_eq!(tokens[0].line, 4);
    assert!(tokens[0].lexeme.is_empty());
}

#[test]
fn single_punctuation() {
    let expected = [
        ('(', TokenType::LeftParen),
        (')', TokenType::RightParen),
        ('{', TokenType::LeftBrace),
        ('}', TokenType::RightBrace),
        (',', TokenType::Comma),
        ('.', TokenType::Dot),
        ('-', TokenType::Minus),
        ('+', TokenType::Plus),
        (';', TokenType::Semicolon),
        ('*', TokenType::Star),
    ];
    for (c, kind) in expected {
        let tokens = scan(c.to_string()).unwrap();
        assert_eq!(kinds(&tokens), vec![kind, TokenType::EOF]);
        assert_eq!(tokens[0].lexeme, vec![c as u8]);
        assert_eq!(tokens[0].literal, None);
    }
}

#[test]
fn two_character_operators() {
    let tokens = scan("!=".to_string()).unwrap();
    assert_eq!(kinds(&tokens), vec![TokenType::BangEqual, TokenType::EOF]);
    assert_eq!(tokens[0].lexeme, b"!=".to_vec());
    let tokens = scan("!".to_string()).unwrap();
    assert_eq!(kinds(&tokens), vec![TokenType::Bang, TokenType::EOF]);
    assert_eq!(tokens[0].lexeme, b"!".to_vec());
    let tokens = scan("== = <= < >= > / //x".to_string()).unwrap();
    assert_eq!(
        kinds(&tokens),
        vec![
            TokenType::EqualEqual,
            TokenType::Equal,
            TokenType::LessEqual,
            TokenType::Less,
            TokenType::GreaterEqual,
            TokenType::Greater,
            TokenType::Slash,
            TokenType::EOF
        ]
    );
}

#[test]
fn line_counting() {
    let tokens = scan("1\n2\n3".to_string()).unwrap();
    assert_eq!(
        kinds(&tokens),
        vec![TokenType::Number, TokenType::Number, TokenType::Number, TokenType::EOF]
    );
    let lines: Vec<usize> = tokens.iter().map(|t| t.line).collect();
    assert_eq!(lines, vec![1, 2, 3, 3]);
}

#[test]
fn string_round_trip() {
    let tokens = scan("\"hello\"".to_string()).unwrap();
    assert_eq!(kinds(&tokens), vec![TokenType::String, TokenType::EOF]);
    assert_eq!(tokens[0].lexeme, b"\"hello\"".to_vec());
    assert_eq!(tokens[0].literal, Some(Literal::String(b"hello".to_vec())));
}

#[test]
fn multi_line_string_keeps_start_line() {
    let tokens = scan("\"a\nb\" x".to_string()).unwrap();
    assert_eq!(tokens[0].line, 1);
    assert_eq!(tokens[0].literal, Some(Literal::String(b"a\nb".to_vec())));
    assert_eq!(tokens[1].line, 2);
    assert_eq!(tokens[2].line, 2);
}

#[test]
fn unterminated_string() {
    let errors = scan("\"abc".to_string()).unwrap_err();
    assert_eq!(errors.len(), 1);
    assert_eq!(errors[0].kind, ScanErrorKind::UnterminatedString);
    assert_eq!(errors[0].line, 1);
    let errors = scan("\"a\nb".to_string()).unwrap_err();
    assert_eq!(errors[0].line, 2);
    let mut scanner = Scanner::new("\"abc".to_string());
    assert!(scanner.scan_tokens().is_err());
}

#[test]
fn unexpected_characters_are_all_reported() {
    let errors = scan("@\n#".to_string()).unwrap_err();
    assert_eq!(errors.len(), 2);
    assert_eq!(errors[0].kind, ScanErrorKind::UnexpectedCharacter);
    assert_eq!(errors[0].line, 1);
    assert_eq!(errors[1].line, 2);
    // Each byte of a non-ASCII character is an unexpected byte.
    let errors = scan("é".to_string()).unwrap_err();
    assert_eq!(errors.len(), 2);
    // Underscores do not continue an identifier.
    let errors = scan("a_b".to_string()).unwrap_err();
    assert_eq!(errors.len(), 1);
}

#[test]
fn number_parsing() {
    let tokens = scan("123.45".to_string()).unwrap();
    assert_eq!(kinds(&tokens), vec![TokenType::Number, TokenType::EOF]);
    assert_eq!(number_value(&tokens[0]), 123.45);
    let tokens = scan("321".to_string()).unwrap();
    assert_eq!(number_value(&tokens[0]), 321.0);
    let tokens = scan("3.".to_string()).unwrap();
    assert_eq!(kinds(&tokens), vec![TokenType::Number, TokenType::Dot, TokenType::EOF]);
    assert_eq!(tokens[0].lexeme, b"3".to_vec());
    assert_eq!(number_value(&tokens[0]), 3.0);
    let tokens = scan("1.2.3".to_string()).unwrap();
    assert_eq!(
        kinds(&tokens),
        vec![TokenType::Number, TokenType::Dot, TokenType::Number, TokenType::EOF]
    );
    assert_eq!(tokens[0].lexeme, b"1.2".to_vec());
}

#[test]
fn keyword_and_identifier() {
    let tokens = scan("fun hello()".to_string()).unwrap();
    assert_eq!(
        kinds(&tokens),
        vec![
            TokenType::Fun,
            TokenType::Identifier,
            TokenType::LeftParen,
            TokenType::RightParen,
            TokenType::EOF
        ]
    );
    assert_eq!(tokens[0].lexeme, b"fun".to_vec());
    assert_eq!(tokens[1].lexeme, b"hello".to_vec());
    let source = "and class else false for fun if nil or print return super this true var while";
    let tokens = scan(source.to_string()).unwrap();
    assert_eq!(
        kinds(&tokens),
        vec![
            TokenType::And,
            TokenType::Class,
            TokenType::Else,
            TokenType::False,
            TokenType::For,
            TokenType::Fun,
            TokenType::If,
            TokenType::Nil,
            TokenType::Or,
            TokenType::Print,
            TokenType::Return,
            TokenType::Super,
            TokenType::This,
            TokenType::True,
            TokenType::Var,
            TokenType::While,
            TokenType::EOF
        ]
    );
    let tokens = scan("funny x1 While".to_string()).unwrap();
    assert_eq!(
        kinds(&tokens),
        vec![TokenType::Identifier, TokenType::Identifier, TokenType::Identifier, TokenType::EOF]
    );
}

#[test]
fn scanning_twice_gives_equal_results() {
    let source = "var x = 1.5; // c\nprint \"s\" != nil;";
    let first = scan(source.to_string());
    let second = scan(source.to_string());
    assert_eq!(first, second);
    let mut a = Scanner::new(source.to_string());
    let mut b = Scanner::new(source.to_string());
    assert_eq!(a.scan_tokens().unwrap(), b.scan_tokens().unwrap());
}

#[test]
fn token_new_encodes_lexeme() {
    let token = Token::new(TokenType::Identifier, String::from("héllo"), None, 7);
    assert_eq!(token.lexeme, "héllo".as_bytes().to_vec());
    assert_eq!(token.line, 7);
}

#[test]
fn only_the_last_token_is_empty() {
    let source = "var s = \"two\nlines\";\n// note\nprint s >= 10.25;\n";
    let tokens = scan(source.to_string()).unwrap();
    let last = tokens.last().unwrap();
    assert_eq!(last.token_type, TokenType::EOF);
    assert!(last.lexeme.is_empty());
    assert_eq!(last.literal, None);
    assert_eq!(last.line, 5);
    for token in &tokens[..tokens.len() - 1] {
        assert!(!token.lexeme.is_empty());
        assert_ne!(token.token_type, TokenType::EOF);
    }
    assert_eq!(tokens.len(), 11);
}
