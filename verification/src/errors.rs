//! The errors of the three stages.

use vstd::prelude::*;
use crate::lexer::{Token, TokenView};

verus! {

/// Every way in which lexing, parsing or evaluation can fail.
#[derive(Debug, Clone)]
pub enum CalculatorError {
    InvalidCharacter(char),
    InvalidNumberFormat,
    UnexpectedToken { expected: Option<Token>, got: Token },
    MismatchedParenthesis,
    DivisionByZero,
    VariableNotDefined(String),
    EvaluationUnknownOperator,
    InvalidTokenUnary,
    TypeError(String),
}

/// The mathematical content of a [`CalculatorError`].
pub enum ErrorView {
    InvalidCharacter(char),
    InvalidNumberFormat,
    UnexpectedToken { expected: Option<TokenView>, got: TokenView },
    MismatchedParenthesis,
    DivisionByZero,
    VariableNotDefined(Seq<char>),
    EvaluationUnknownOperator,
    InvalidTokenUnary,
    TypeError(Seq<char>),
}

impl View for CalculatorError {
    type V = ErrorView;

    open spec fn view(&self) -> ErrorView {
        match *self {
            CalculatorError::InvalidCharacter(c) => ErrorView::InvalidCharacter(c),
            CalculatorError::InvalidNumberFormat => ErrorView::InvalidNumberFormat,
            CalculatorError::UnexpectedToken { expected, got } => ErrorView::UnexpectedToken {
                expected: match expected {
                    Some(t) => Some(t@),
                    None => None,
                },
                got: got@,
            },
            CalculatorError::MismatchedParenthesis => ErrorView::MismatchedParenthesis,
            CalculatorError::DivisionByZero => ErrorView::DivisionByZero,
            CalculatorError::VariableNotDefined(name) => ErrorView::VariableNotDefined(name@),
            CalculatorError::EvaluationUnknownOperator => ErrorView::EvaluationUnknownOperator,
            CalculatorError::InvalidTokenUnary => ErrorView::InvalidTokenUnary,
            CalculatorError::TypeError(message) => ErrorView::TypeError(message@),
        }
    }
}

} // verus!
