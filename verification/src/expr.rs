//! Expression trees and their rendering in prefix form.

use vstd::prelude::*;
use vstd::string::*;
use crate::token::Token;

verus! {

/// The value of a literal expression.
///
/// This is not the literal that a token carries: a parser has to turn the
/// one into the other.
pub enum LiteralValue {
    /// A number, held as the decimal text that writes it.
    Number(String),
    StringValue(String),
    True,
    False,
    Nil,
}

impl LiteralValue {
    /// How the value is written: a number by its decimal text, a string as
    /// it is, the others by their names in lower case.
    pub open spec fn rendering(&self) -> Seq<char> {
        match self {
            LiteralValue::Number(x) => x@,
            LiteralValue::StringValue(x) => x@,
            LiteralValue::True => "true"@,
            LiteralValue::False => "false"@,
            LiteralValue::Nil => "nil"@,
        }
    }

    /// Writes the value.
    pub fn to_string(&self) -> (text: String)
        ensures
            text@ == self.rendering(),
    {
        match self {
            LiteralValue::Number(x) => x.clone(),
            LiteralValue::StringValue(x) => x.clone(),
            LiteralValue::True => String::from_str("true"),
            LiteralValue::False => String::from_str("false"),
            LiteralValue::Nil => String::from_str("nil"),
        }
    }
}

/// An expression: a tree in which each node owns its operands.
pub enum Expr {
    Binary { left: Box<Expr>, operator: Token, right: Box<Expr> },
    Grouping { expression: Box<Expr> },
    Literal { value: LiteralValue },
    Unary { operator: Token, right: Box<Expr> },
}

impl Expr {
    /// The expression in prefix form, with brackets round every operation:
    /// the operator's lexeme and then the operands, `group` and then the
    /// grouped expression, or the literal alone.
    pub open spec fn rendering(&self) -> Seq<char>
        decreases self,
    {
        match self {
            Expr::Binary { left, operator, right } => "("@ + operator.lexeme@ + " "@
                + left.rendering() + " "@ + right.rendering() + ")"@,
            Expr::Grouping { expression } => "(group "@ + expression.rendering() + ")"@,
            Expr::Literal { value } => value.rendering(),
            Expr::Unary { operator, right } => "("@ + operator.lexeme@ + " "@ + right.rendering()
                + ")"@,
        }
    }

    /// Returns a string representation of the expression.
    pub fn to_string(&self) -> (text: String)
        ensures
            text@ == self.rendering(),
        decreases self,
    {
        match self {
            Expr::Binary { left, operator, right } => {
                let left_text = left.to_string();
                let right_text = right.to_string();
                let mut text = String::from_str("(");
                text.append(operator.lexeme.as_str());
                text.append(" ");
                text.append(left_text.as_str());
                text.append(" ");
                text.append(right_text.as_str());
                text.append(")");
                text
            },
            Expr::Grouping { expression } => {
                let inner = expression.to_string();
                let mut text = String::from_str("(group ");
                text.append(inner.as_str());
                text.append(")");
                text
            },
            Expr::Literal { value } => value.to_string(),
            Expr::Unary { operator, right } => {
                let right_text = right.to_string();
                let mut text = String::from_str("(");
                text.append(operator.lexeme.as_str());
                text.append(" ");
                text.append(right_text.as_str());
                text.append(")");
                text
            },
        }
    }
}

} // verus!
