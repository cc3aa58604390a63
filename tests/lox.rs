use rs_lox::lexical::ScanErrorKind;
use rs_lox::lox::Lox;
use rs_lox::token_type::TokenType;

#[test]
fn new_lox() {
    let a = Lox::new();
    let b = Lox { had_error: false };

    assert_eq!(a, b);
}

#[test]
fn test_run() {
    let a = "*\n".to_string();

    let mut lox = Lox::new();
    let tokens = lox.run_source(a).unwrap();
    assert_eq!(tokens.len(), 2);
    assert_eq!(tokens[0].token_type, TokenType::Star);
    assert!(!lox.had_error);
}

#[test]
fn run_source_marks_failure() {
    let mut lox = Lox::new();
    let errors = lox.run_source("@".to_string()).unwrap_err();
    assert_eq!(errors.len(), 1);
    assert_eq!(errors[0].kind, ScanErrorKind::UnexpectedCharacter);
    assert!(lox.had_error);
    // A later clean run does not clear the mark.
    assert!(lox.run_source("1".to_string()).is_ok());
    assert!(lox.had_error);
}
