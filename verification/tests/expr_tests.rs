use lox_scanner::expr::Expr::{Binary, Grouping, Literal, Unary};
use lox_scanner::expr::LiteralValue;
use lox_scanner::expr::LiteralValue::Number;
use lox_scanner::scanner::{Token, TokenType};

#[test]
fn pretty_print_ast() {
    let minus_token = Token {
        token_type: TokenType::Minus,
        lexeme: "-".to_string(),
        literal: None,
        line_number: 0,
    };
    let onetwothree = Literal { value: Number(123.0_f32.to_string()) };
    let group = Grouping {
        expression: Box::from(Literal { value: Number(45.67_f32.to_string()) }),
    };
    let multi = Token {
        token_type: TokenType::Star,
        lexeme: "*".to_string(),
        literal: None,
        line_number: 0,
    };

    let ast = Binary {
        left: Box::from(Unary { operator: minus_token, right: Box::from(onetwothree) }),
        operator: multi,
        right: Box::from(group),
    };

    let result = ast.to_string();
    assert_eq!(result, "(* (- 123) (group 45.67))");
}

fn token(token_type: TokenType, lexeme: &str) -> Token {
    Token::new(token_type, lexeme.to_string(), None, 1)
}

#[test]
fn literals_are_written_alone() {
    assert_eq!(Literal { value: LiteralValue::True }.to_string(), "true");
    assert_eq!(Literal { value: LiteralValue::False }.to_string(), "false");
    assert_eq!(Literal { value: LiteralValue::Nil }.to_string(), "nil");
    assert_eq!(
        Literal { value: LiteralValue::StringValue("some text".to_string()) }.to_string(),
        "some text"
    );
    assert_eq!(Literal { value: Number("45.67".to_string()) }.to_string(), "45.67");
}

#[test]
fn literal_values_are_written_by_themselves() {
    assert_eq!(LiteralValue::True.to_string(), "true");
    assert_eq!(LiteralValue::False.to_string(), "false");
    assert_eq!(LiteralValue::Nil.to_string(), "nil");
    assert_eq!(LiteralValue::StringValue("a \"b\"".to_string()).to_string(), "a \"b\"");
    assert_eq!(LiteralValue::Number(1.5_f32.to_string()).to_string(), "1.5");
    assert_eq!(LiteralValue::Number(123.0_f32.to_string()).to_string(), "123");
}

#[test]
fn unary_is_written_with_its_operator_first() {
    let not = Unary {
        operator: token(TokenType::Bang, "!"),
        right: Box::new(Literal { value: LiteralValue::True }),
    };
    assert_eq!(not.to_string(), "(! true)");
}

#[test]
fn grouping_is_written_with_the_word_group() {
    let group = Grouping {
        expression: Box::new(Grouping {
            expression: Box::new(Literal { value: LiteralValue::Nil }),
        }),
    };
    assert_eq!(group.to_string(), "(group (group nil))");
}

#[test]
fn binary_is_written_with_its_operator_first() {
    let sum = Binary {
        left: Box::new(Literal { value: Number("1".to_string()) }),
        operator: token(TokenType::Plus, "+"),
        right: Box::new(Binary {
            left: Box::new(Literal { value: Number("2".to_string()) }),
            operator: token(TokenType::EqualEqual, "=="),
            right: Box::new(Literal { value: Number("3".to_string()) }),
        }),
    };
    assert_eq!(sum.to_string(), "(+ 1 (== 2 3))");
}

#[test]
fn operator_is_written_by_its_lexeme_not_its_kind() {
    let odd = Unary {
        operator: token(TokenType::Minus, "minus"),
        right: Box::new(Literal { value: Number("2".to_string()) }),
    };
    assert_eq!(odd.to_string(), "(minus 2)");
}
