//! Syntax errors.

use vstd::prelude::*;
use vstd::string::StringExecFns;
use crate::lexer::{Token, token_text};
use crate::parser::grammar::SyntaxErrorView;

verus! {

/// Why a token sequence is no program.
#[derive(Debug, PartialEq)]
pub enum SyntaxError {
    /// A token other than the one the grammar asks for.
    Expected { expected: Token, found: Token },
    /// `fn` without a name after it.
    ExpectedFunctionName { found: Token },
    /// A token other than an identifier where a name must stand.
    ExpectedIdentifier { found: Token },
    /// A token other than a number where a number must stand.
    ExpectedNumber { found: Token },
    /// A function definition inside a function or a block.
    NestedFunction,
    /// A token that starts no statement.
    UnexpectedToken { found: Token },
    /// A token that starts no expression.
    InvalidExpression { found: Token },
    /// An operator or a semicolon where an expression starts.
    UnsupportedOperator { found: Token },
    /// A number token whose text is no numeric literal.
    InvalidNumber { text: String },
}

impl View for SyntaxError {
    type V = SyntaxErrorView;

    open spec fn view(&self) -> SyntaxErrorView {
        match self {
            SyntaxError::Expected { expected, found } => SyntaxErrorView::Expected {
                expected: expected@,
                found: found@,
            },
            SyntaxError::ExpectedFunctionName { found } => SyntaxErrorView::ExpectedFunctionName {
                found: found@,
            },
            SyntaxError::ExpectedIdentifier { found } => SyntaxErrorView::ExpectedIdentifier {
                found: found@,
            },
            SyntaxError::ExpectedNumber { found } => SyntaxErrorView::ExpectedNumber {
                found: found@,
            },
            SyntaxError::NestedFunction => SyntaxErrorView::NestedFunction,
            SyntaxError::UnexpectedToken { found } => SyntaxErrorView::UnexpectedToken {
                found: found@,
            },
            SyntaxError::InvalidExpression { found } => SyntaxErrorView::InvalidExpression {
                found: found@,
            },
            SyntaxError::UnsupportedOperator { found } => SyntaxErrorView::UnsupportedOperator {
                found: found@,
            },
            SyntaxError::InvalidNumber { text } => SyntaxErrorView::InvalidNumber { text: text@ },
        }
    }
}

/// The message of a syntax error.
pub open spec fn message_text(e: SyntaxErrorView) -> Seq<char> {
    match e {
        SyntaxErrorView::Expected { expected, found } => "expected "@ + token_text(expected)
            + ", found "@ + token_text(found),
        SyntaxErrorView::ExpectedFunctionName { found } => "expected function name, found "@
            + token_text(found),
        SyntaxErrorView::ExpectedIdentifier { found } => "expected identifier, found "@
            + token_text(found),
        SyntaxErrorView::ExpectedNumber { found } => "expected number, found "@ + token_text(
            found,
        ),
        SyntaxErrorView::NestedFunction => "cannot define functions in functions"@,
        SyntaxErrorView::UnexpectedToken { found } => "unexpected token: "@ + token_text(found),
        SyntaxErrorView::InvalidExpression { found } => "invalid expression: "@ + token_text(
            found,
        ),
        SyntaxErrorView::UnsupportedOperator { found } => "unsupported expression: "@
            + token_text(found),
        SyntaxErrorView::InvalidNumber { text } => "could not parse "@ + text + " to a number."@,
    }
}

/// `prefix`, then how `found` reads.
fn describe(prefix: &str, found: &Token) -> (r: String)
    ensures
        r@ == prefix@ + token_text(found@),
{
    String::from_str(prefix).concat(found.text().as_str())
}

impl SyntaxError {
    /// The error as a sentence for a reader.
    pub fn message(&self) -> (r: String)
        ensures
            r@ == message_text(self@),
    {
        match self {
            SyntaxError::Expected { expected, found } => describe("expected ", expected).concat(
                describe(", found ", found).as_str(),
            ),
            SyntaxError::ExpectedFunctionName { found } => describe(
                "expected function name, found ",
                found,
            ),
            SyntaxError::ExpectedIdentifier { found } => describe(
                "expected identifier, found ",
                found,
            ),
            SyntaxError::ExpectedNumber { found } => describe("expected number, found ", found),
            SyntaxError::NestedFunction => String::from_str("cannot define functions in functions"),
            SyntaxError::UnexpectedToken { found } => describe("unexpected token: ", found),
            SyntaxError::InvalidExpression { found } => describe("invalid expression: ", found),
            SyntaxError::UnsupportedOperator { found } => describe(
                "unsupported expression: ",
                found,
            ),
            SyntaxError::InvalidNumber { text } => String::from_str("could not parse ").concat(
                text.as_str(),
            ).concat(" to a number."),
        }
    }
}

} // verus!
