use lox_scanner::scanner::LiteralValue::{FValue, StringValue};
use lox_scanner::scanner::Scanner;
use lox_scanner::scanner::TokenType::{
    Bang, BangEqual, Dot, Eof, EqualEqual, GreaterEqual, LeftBrace, LeftParen, Number, RightBrace,
    RightParen, StringLit,
};

#[test]
/// Tests that the scanner can handle a simple expression.
fn handle_one_char_tokens() {
    let source = "(( )) }{";
    let mut scanner = Scanner::new(source);
    scanner.scan_tokens().unwrap();

    assert_eq!(scanner.tokens().len(), 7);
    assert_eq!(scanner.tokens()[0].token_type, LeftParen);
    assert_eq!(scanner.tokens()[1].token_type, LeftParen);
    assert_eq!(scanner.tokens()[2].token_type, RightParen);
    assert_eq!(scanner.tokens()[3].token_type, RightParen);
    assert_eq!(scanner.tokens()[4].token_type, RightBrace);
    assert_eq!(scanner.tokens()[5].token_type, LeftBrace);
    assert_eq!(scanner.tokens()[6].token_type, Eof);
}

#[test]
/// Tests that the scanner can handle a simple expression.
fn handle_two_char_tokens() {
    let source = "! != == >=";
    let mut scanner = Scanner::new(source);
    scanner.scan_tokens().unwrap();

    assert_eq!(scanner.tokens().len(), 5);
    assert_eq!(scanner.tokens()[0].token_type, Bang);
    assert_eq!(scanner.tokens()[1].token_type, BangEqual);
    assert_eq!(scanner.tokens()[2].token_type, EqualEqual);
    assert_eq!(scanner.tokens()[3].token_type, GreaterEqual);
    assert_eq!(scanner.tokens()[4].token_type, Eof);
}

#[test]
fn handle_string_lit() {
    let source = r#""ABC""#;
    println!("{source}");
    let mut scanner = Scanner::new(source);
    scanner.scan_tokens().unwrap();
    assert_eq!(scanner.tokens().len(), 2);
    assert_eq!(scanner.tokens()[0].token_type, StringLit);
    match scanner.tokens()[0].literal.as_ref().unwrap() {
        StringValue(val) => assert_eq!(val, "ABC"),
        _ => panic!("Incorrect literal type"),
    }
}

#[test]
fn handle_string_lit_unterminated() {
    let source = r#""ABC"#;
    println!("{source}");
    let mut scanner = Scanner::new(source);
    let result = scanner.scan_tokens();
    match result {
        Err(_) => (),
        _ => panic!("Should have failed"),
    }
}

#[test]
fn handle_string_lit_multiline() {
    let source = "\"ABC\ndef\"";
    println!("{source}");
    let mut scanner = Scanner::new(source);
    scanner.scan_tokens().unwrap();
    assert_eq!(scanner.tokens().len(), 2);
    assert_eq!(scanner.tokens()[0].token_type, StringLit);
    match scanner.tokens()[0].literal.as_ref().unwrap() {
        StringValue(val) => assert_eq!(val, "ABC\ndef"),
        _ => panic!("Incorrect literal type"),
    }
}

#[test]
fn number_literals() {
    let source = "123.123\n321.\n5";
    println!("{source}");
    let mut scanner = Scanner::new(source);
    scanner.scan_tokens().unwrap();
    // The dot after `321` is no part of the number: it is a token of its own.
    assert_eq!(scanner.tokens().len(), 5);
    for i in [0, 1, 3] {
        assert_eq!(scanner.tokens()[i].token_type, Number);
    }
    assert_eq!(scanner.tokens()[2].token_type, Dot);
    assert_eq!(scanner.tokens()[4].token_type, Eof);

    match scanner.tokens()[0].literal.as_ref().unwrap() {
        FValue(val) => assert_eq!(val.parse::<f64>().unwrap(), 123.123),
        _ => panic!("Incorrect literal type"),
    }

    match scanner.tokens()[1].literal.as_ref().unwrap() {
        FValue(val) => assert_eq!(val.parse::<f64>().unwrap(), 321.0),
        _ => panic!("Incorrect literal type"),
    }

    match scanner.tokens()[3].literal.as_ref().unwrap() {
        FValue(val) => assert_eq!(val.parse::<f64>().unwrap(), 5.0),
        _ => panic!("Incorrect literal type"),
    }
}
