use lox_scanner::scanner::{
    is_digit, literal_string, unparsable_number_message, wrap_literal, LiteralValue, Token,
    TokenType,
};
use lox_scanner::text::{decimal_string, signed_decimal_string};

#[test]
fn digits_are_the_ten_ascii_digits() {
    for ch in ['0', '1', '2', '3', '4', '5', '6', '7', '8', '9'] {
        assert!(is_digit(ch));
    }
    for ch in ['/', ':', 'a', ' ', '.', '-', '\0', '\u{663}', '\u{130}', '\u{ff11}'] {
        assert!(!is_digit(ch));
    }
}

#[test]
fn decimal_of_unsigned_numbers() {
    assert_eq!(decimal_string(0), "0");
    assert_eq!(decimal_string(7), "7");
    assert_eq!(decimal_string(9), "9");
    assert_eq!(decimal_string(10), "10");
    assert_eq!(decimal_string(100), "100");
    assert_eq!(decimal_string(12345), "12345");
    assert_eq!(decimal_string(9876543210), "9876543210");
    assert_eq!(decimal_string(u64::MAX), "18446744073709551615");
}

#[test]
fn decimal_of_signed_numbers() {
    assert_eq!(signed_decimal_string(0), "0");
    assert_eq!(signed_decimal_string(42), "42");
    assert_eq!(signed_decimal_string(-1), "-1");
    assert_eq!(signed_decimal_string(-42), "-42");
    assert_eq!(signed_decimal_string(i64::MAX), "9223372036854775807");
    assert_eq!(signed_decimal_string(i64::MIN), "-9223372036854775808");
}

#[test]
fn kind_is_written_by_its_name() {
    assert_eq!(TokenType::LeftParen.to_string(), "LeftParen");
    assert_eq!(TokenType::BangEqual.to_string(), "BangEqual");
    assert_eq!(TokenType::StringLit.to_string(), "StringLit");
    assert_eq!(TokenType::While.to_string(), "While");
    assert_eq!(TokenType::Eof.to_string(), "Eof");
}

#[test]
fn every_kind_is_written_as_debug_writes_it() {
    let kinds = [
        TokenType::LeftParen,
        TokenType::RightParen,
        TokenType::LeftBrace,
        TokenType::RightBrace,
        TokenType::Comma,
        TokenType::Dot,
        TokenType::Minus,
        TokenType::Plus,
        TokenType::Semicolon,
        TokenType::Slash,
        TokenType::Star,
        TokenType::Bang,
        TokenType::BangEqual,
        TokenType::Equal,
        TokenType::EqualEqual,
        TokenType::Greater,
        TokenType::GreaterEqual,
        TokenType::Less,
        TokenType::LessEqual,
        TokenType::Identifier,
        TokenType::StringLit,
        TokenType::Number,
        TokenType::And,
        TokenType::Class,
        TokenType::Else,
        TokenType::False,
        TokenType::Fun,
        TokenType::For,
        TokenType::If,
        TokenType::Nil,
        TokenType::Or,
        TokenType::Print,
        TokenType::Return,
        TokenType::Super,
        TokenType::This,
        TokenType::True,
        TokenType::Var,
        TokenType::While,
        TokenType::Eof,
    ];
    for kind in kinds {
        assert_eq!(kind.to_string(), format!("{:?}", kind));
    }
}

#[test]
fn token_new_keeps_its_parts() {
    let token = Token::new(
        TokenType::StringLit,
        "\"ABC\"".to_string(),
        Some(LiteralValue::StringValue("ABC".to_string())),
        3,
    );
    assert_eq!(token.token_type, TokenType::StringLit);
    assert_eq!(token.lexeme, "\"ABC\"");
    assert!(matches!(token.literal, Some(LiteralValue::StringValue(ref text)) if text == "ABC"));
    assert_eq!(token.line_number, 3);
}

#[test]
fn token_clone_is_equal_in_every_part() {
    let token = Token::new(
        TokenType::Number,
        "1.5".to_string(),
        Some(LiteralValue::FValue("1.5".to_string())),
        7,
    );
    let copy = token.clone();
    assert_eq!(copy.token_type, TokenType::Number);
    assert_eq!(copy.lexeme, "1.5");
    assert!(matches!(copy.literal, Some(LiteralValue::FValue(ref numeral)) if numeral == "1.5"));
    assert_eq!(copy.line_number, 7);
}

#[test]
fn token_without_literal_is_written_with_none() {
    let token = Token::new(TokenType::LeftParen, "(".to_string(), None, 1);
    assert_eq!(token.to_string(), "LeftParen ( None");
    let end = Token::new(TokenType::Eof, String::new(), None, 1);
    assert_eq!(end.to_string(), "Eof  None");
}

#[test]
fn token_with_text_is_written_with_the_text_in_quotes() {
    let token = Token::new(
        TokenType::StringLit,
        "\"ABC\"".to_string(),
        Some(LiteralValue::StringValue("ABC".to_string())),
        1,
    );
    assert_eq!(token.to_string(), "StringLit \"ABC\" Some(StringValue(\"ABC\"))");
}

#[test]
fn token_with_number_is_written_with_its_numeral() {
    let token = Token::new(
        TokenType::Number,
        "123.123".to_string(),
        Some(LiteralValue::FValue("123.123".to_string())),
        1,
    );
    assert_eq!(token.to_string(), "Number 123.123 Some(FValue(123.123))");
}

#[test]
fn literal_text_is_escaped_as_debug_escapes_it() {
    let literal = Some(LiteralValue::StringValue("a\"b\\c\nd\te".to_string()));
    assert_eq!(literal_string(&literal), "Some(StringValue(\"a\\\"b\\\\c\\nd\\te\"))");
    let plain = Some(LiteralValue::StringValue("plain".to_string()));
    assert_eq!(literal_string(&plain), "Some(StringValue(\"plain\"))");
    assert_eq!(
        literal_string(&plain),
        format!("Some(StringValue({:?}))", "plain")
    );
}

#[test]
fn literal_of_every_variant_is_written() {
    assert_eq!(literal_string(&None), "None");
    assert_eq!(literal_string(&Some(LiteralValue::IntValue(42))), "Some(IntValue(42))");
    assert_eq!(literal_string(&Some(LiteralValue::IntValue(-7))), "Some(IntValue(-7))");
    assert_eq!(
        literal_string(&Some(LiteralValue::FValue("0.5".to_string()))),
        "Some(FValue(0.5))"
    );
    assert_eq!(
        literal_string(&Some(LiteralValue::IdentifierVal("count".to_string()))),
        "Some(IdentifierVal(\"count\"))"
    );
}

#[test]
fn wrap_literal_puts_the_variant_round_what_it_holds() {
    assert_eq!(wrap_literal("FValue", "1.5"), "Some(FValue(1.5))");
    assert_eq!(wrap_literal("StringValue", "\"a\""), "Some(StringValue(\"a\"))");
    assert_eq!(wrap_literal("", ""), "Some(())");
}

#[test]
fn message_for_a_numeral_that_cannot_be_read() {
    assert_eq!(unparsable_number_message("1.2.3"), "Could not parse number: 1.2.3");
    assert_eq!(unparsable_number_message(""), "Could not parse number: ");
}
