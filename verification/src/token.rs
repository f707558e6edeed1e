//! Tokens: their kinds, the literals that they carry, and how they are
//! written out.

use vstd::prelude::*;
use vstd::string::*;
use crate::text::{signed_decimal, signed_decimal_string};

verus! {

/// The kinds of token.
///
/// The keyword kinds are reserved: the scanner does not produce them yet.
#[derive(Debug, Clone, Copy, PartialEq, Eq, Structural)]
pub enum TokenType {
    // Single-character tokens.
    LeftParen,
    RightParen,
    LeftBrace,
    RightBrace,
    Comma,
    Dot,
    Minus,
    Plus,
    Semicolon,
    Slash,
    Star,
    // One or two character tokens.
    Bang,
    BangEqual,
    Equal,
    EqualEqual,
    Greater,
    GreaterEqual,
    Less,
    LessEqual,
    // Literals.
    Identifier,
    StringLit,
    Number,
    // Keywords.
    And,
    Class,
    Else,
    False,
    Fun,
    For,
    If,
    Nil,
    Or,
    Print,
    Return,
    Super,
    This,
    True,
    Var,
    While,
    Eof,
}

/// The name of a kind of token, as written in the declaration of
/// [`TokenType`].
pub open spec fn kind_name(kind: TokenType) -> Seq<char> {
    match kind {
        TokenType::LeftParen => "LeftParen"@,
        TokenType::RightParen => "RightParen"@,
        TokenType::LeftBrace => "LeftBrace"@,
        TokenType::RightBrace => "RightBrace"@,
        TokenType::Comma => "Comma"@,
        TokenType::Dot => "Dot"@,
        TokenType::Minus => "Minus"@,
        TokenType::Plus => "Plus"@,
        TokenType::Semicolon => "Semicolon"@,
        TokenType::Slash => "Slash"@,
        TokenType::Star => "Star"@,
        TokenType::Bang => "Bang"@,
        TokenType::BangEqual => "BangEqual"@,
        TokenType::Equal => "Equal"@,
        TokenType::EqualEqual => "EqualEqual"@,
        TokenType::Greater => "Greater"@,
        TokenType::GreaterEqual => "GreaterEqual"@,
        TokenType::Less => "Less"@,
        TokenType::LessEqual => "LessEqual"@,
        TokenType::Identifier => "Identifier"@,
        TokenType::StringLit => "StringLit"@,
        TokenType::Number => "Number"@,
        TokenType::And => "And"@,
        TokenType::Class => "Class"@,
        TokenType::Else => "Else"@,
        TokenType::False => "False"@,
        TokenType::Fun => "Fun"@,
        TokenType::For => "For"@,
        TokenType::If => "If"@,
        TokenType::Nil => "Nil"@,
        TokenType::Or => "Or"@,
        TokenType::Print => "Print"@,
        TokenType::Return => "Return"@,
        TokenType::Super => "Super"@,
        TokenType::This => "This"@,
        TokenType::True => "True"@,
        TokenType::Var => "Var"@,
        TokenType::While => "While"@,
        TokenType::Eof => "Eof"@,
    }
}

impl TokenType {
    /// The name of the kind.
    pub fn to_string(&self) -> (name: String)
        ensures
            name@ == kind_name(*self),
    {
        match self {
            TokenType::LeftParen => String::from_str("LeftParen"),
            TokenType::RightParen => String::from_str("RightParen"),
            TokenType::LeftBrace => String::from_str("LeftBrace"),
            TokenType::RightBrace => String::from_str("RightBrace"),
            TokenType::Comma => String::from_str("Comma"),
            TokenType::Dot => String::from_str("Dot"),
            TokenType::Minus => String::from_str("Minus"),
            TokenType::Plus => String::from_str("Plus"),
            TokenType::Semicolon => String::from_str("Semicolon"),
            TokenType::Slash => String::from_str("Slash"),
            TokenType::Star => String::from_str("Star"),
            TokenType::Bang => String::from_str("Bang"),
            TokenType::BangEqual => String::from_str("BangEqual"),
            TokenType::Equal => String::from_str("Equal"),
            TokenType::EqualEqual => String::from_str("EqualEqual"),
            TokenType::Greater => String::from_str("Greater"),
            TokenType::GreaterEqual => String::from_str("GreaterEqual"),
            TokenType::Less => String::from_str("Less"),
            TokenType::LessEqual => String::from_str("LessEqual"),
            TokenType::Identifier => String::from_str("Identifier"),
            TokenType::StringLit => String::from_str("StringLit"),
            TokenType::Number => String::from_str("Number"),
            TokenType::And => String::from_str("And"),
            TokenType::Class => String::from_str("Class"),
            TokenType::Else => String::from_str("Else"),
            TokenType::False => String::from_str("False"),
            TokenType::Fun => String::from_str("Fun"),
            TokenType::For => String::from_str("For"),
            TokenType::If => String::from_str("If"),
            TokenType::Nil => String::from_str("Nil"),
            TokenType::Or => String::from_str("Or"),
            TokenType::Print => String::from_str("Print"),
            TokenType::Return => String::from_str("Return"),
            TokenType::Super => String::from_str("Super"),
            TokenType::This => String::from_str("This"),
            TokenType::True => String::from_str("True"),
            TokenType::Var => String::from_str("Var"),
            TokenType::While => String::from_str("While"),
            TokenType::Eof => String::from_str("Eof"),
        }
    }
}

/// The value that a literal token carries.
#[derive(Debug)]
pub enum LiteralValue {
    IntValue(i64),
    /// A number, held exactly as the decimal numeral that was read.
    FValue(String),
    StringValue(String),
    IdentifierVal(String),
}

/// What a [`LiteralValue`] holds, as mathematical values.
pub enum LiteralView {
    Integer(int),
    Float(Seq<char>),
    Text(Seq<char>),
    Identifier(Seq<char>),
}

impl View for LiteralValue {
    type V = LiteralView;

    open spec fn view(&self) -> LiteralView {
        match *self {
            LiteralValue::IntValue(v) => LiteralView::Integer(v as int),
            LiteralValue::FValue(s) => LiteralView::Float(s@),
            LiteralValue::StringValue(s) => LiteralView::Text(s@),
            LiteralValue::IdentifierVal(s) => LiteralView::Identifier(s@),
        }
    }
}

impl Clone for LiteralValue {
    fn clone(&self) -> (copy: Self)
        ensures
            copy == *self,
    {
        match self {
            LiteralValue::IntValue(v) => LiteralValue::IntValue(*v),
            LiteralValue::FValue(s) => LiteralValue::FValue(s.clone()),
            LiteralValue::StringValue(s) => LiteralValue::StringValue(s.clone()),
            LiteralValue::IdentifierVal(s) => LiteralValue::IdentifierVal(s.clone()),
        }
    }
}

/// A classified, positioned unit of source text.
#[derive(Debug)]
pub struct Token {
    pub token_type: TokenType,
    pub lexeme: String,
    pub literal: Option<LiteralValue>,
    pub line_number: usize,
}

/// What a [`Token`] holds, as mathematical values.
pub struct TokenView {
    pub kind: TokenType,
    pub lexeme: Seq<char>,
    pub literal: Option<LiteralView>,
    pub line: nat,
}

/// The views of an optional literal.
pub open spec fn literal_view(literal: Option<LiteralValue>) -> Option<LiteralView> {
    match literal {
        Some(value) => Some(value@),
        None => None,
    }
}

impl View for Token {
    type V = TokenView;

    open spec fn view(&self) -> TokenView {
        TokenView {
            kind: self.token_type,
            lexeme: self.lexeme@,
            literal: literal_view(self.literal),
            line: self.line_number as nat,
        }
    }
}

impl Clone for Token {
    fn clone(&self) -> (copy: Self)
        ensures
            copy == *self,
    {
        let literal = match &self.literal {
            Some(value) => Some(value.clone()),
            None => None,
        };
        Token {
            token_type: self.token_type,
            lexeme: self.lexeme.clone(),
            literal,
            line_number: self.line_number,
        }
    }
}

impl Token {
    /// Makes a token of its four parts.
    pub fn new(
        token_type: TokenType,
        lexeme: String,
        literal: Option<LiteralValue>,
        line_number: usize,
    ) -> (token: Self)
        ensures
            token.token_type == token_type,
            token.lexeme == lexeme,
            token.literal == literal,
            token.line_number == line_number,
    {
        Self { token_type, lexeme, literal, line_number }
    }

    /// Returns a string representation of the token.
    pub fn to_string(&self) -> (text: String)
        ensures
            text@ == token_text(self@),
    {
        let mut text = self.token_type.to_string();
        text.append(" ");
        text.append(self.lexeme.as_str());
        text.append(" ");
        let literal = literal_string(&self.literal);
        text.append(literal.as_str());
        text
    }
}

/// How Rust's `Debug` formatting writes a string: between double quotes,
/// with the characters that it escapes written as their escapes.
pub uninterp spec fn quoted(text: Seq<char>) -> Seq<char>;

/// Calls `format!` with `{:?}` on a `str`, which is the `Debug`
/// implementation of `str` in the standard library. The contract only
/// names the result: it claims that the result is a function of the text.
#[verifier::external_body]
fn quote(text: &str) -> (quoted_text: String)
    ensures
        quoted_text@ == quoted(text@),
{
    format!("{:?}", text)
}

/// A literal that is present, written as one of the variants of
/// [`LiteralValue`] around what it holds.
pub open spec fn wrapped(variant: Seq<char>, inner: Seq<char>) -> Seq<char> {
    "Some("@ + variant + "("@ + inner + "))"@
}

/// How a token's literal is written: `None`, or `Some` around the variant
/// and what it holds. An integer is written as its decimal numeral, a number
/// as the numeral that was read, a text as Rust's `Debug` formatting
/// writes a string.
pub open spec fn literal_text(literal: Option<LiteralView>) -> Seq<char> {
    match literal {
        None => "None"@,
        Some(LiteralView::Integer(v)) => wrapped("IntValue"@, signed_decimal(v)),
        Some(LiteralView::Float(numeral)) => wrapped("FValue"@, numeral),
        Some(LiteralView::Text(text)) => wrapped("StringValue"@, quoted(text)),
        Some(LiteralView::Identifier(name)) => wrapped("IdentifierVal"@, quoted(name)),
    }
}

/// Writes a literal that is present: `Some`, the variant's name and, in
/// brackets, `inner`.
pub fn wrap_literal(variant: &str, inner: &str) -> (text: String)
    ensures
        text@ == wrapped(variant@, inner@),
{
    let mut text = String::from_str("Some(");
    text.append(variant);
    text.append("(");
    text.append(inner);
    text.append("))");
    text
}

/// Writes a token's literal.
pub fn literal_string(literal: &Option<LiteralValue>) -> (text: String)
    ensures
        text@ == literal_text(literal_view(*literal)),
{
    match literal {
        None => String::from_str("None"),
        Some(LiteralValue::IntValue(v)) => {
            let inner = signed_decimal_string(*v);
            wrap_literal("IntValue", inner.as_str())
        },
        Some(LiteralValue::FValue(numeral)) => wrap_literal("FValue", numeral.as_str()),
        Some(LiteralValue::StringValue(value)) => {
            let inner = quote(value.as_str());
            wrap_literal("StringValue", inner.as_str())
        },
        Some(LiteralValue::IdentifierVal(name)) => {
            let inner = quote(name.as_str());
            wrap_literal("IdentifierVal", inner.as_str())
        },
    }
}

/// How a token is written: its kind, its lexeme and its literal, with a
/// space between them.
pub open spec fn token_text(token: TokenView) -> Seq<char> {
    kind_name(token.kind) + " "@ + token.lexeme + " "@ + literal_text(token.literal)
}

/// The message for a numeral that cannot be read as a number.
pub open spec fn unparsable_message(numeral: Seq<char>) -> Seq<char> {
    "Could not parse number: "@ + numeral
}

/// Writes the message for a numeral that cannot be read as a number.
pub fn unparsable_number_message(numeral: &str) -> (message: String)
    ensures
        message@ == unparsable_message(numeral@),
{
    let mut message = String::from_str("Could not parse number: ");
    message.append(numeral);
    message
}

/// The views of a sequence of tokens, in order.
pub open spec fn token_views(tokens: Seq<Token>) -> Seq<TokenView> {
    Seq::new(tokens.len(), |i: int| tokens[i]@)
}

} // verus!
