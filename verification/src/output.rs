//! Values, and how a value is taken for a number or a truth.

use vstd::prelude::*;
use vstd::string::StringExecFns;
use crate::errors::{CalculatorError, ErrorView};
use crate::number::{is_zero, number_is_zero};

verus! {

/// What an expression evaluates to. A `Number` holds the bits of a double.
#[derive(Debug, Clone, Copy)]
pub enum Value {
    Number(u64),
    Boolean(bool),
}

/// The error of a value that is no number where one is needed.
pub open spec fn not_a_number() -> ErrorView {
    ErrorView::TypeError("Expected number"@)
}

/// The truth of a value: that of a boolean itself, that of a number whether
/// it is not zero.
pub open spec fn truth(value: Value) -> bool {
    match value {
        Value::Boolean(b) => b,
        Value::Number(n) => !is_zero(n),
    }
}

/// The number in a value; a boolean has none.
pub open spec fn number_in(value: Value) -> Result<u64, ErrorView> {
    match value {
        Value::Number(n) => Ok(n),
        Value::Boolean(_) => Err(not_a_number()),
    }
}

impl Value {
    pub fn as_number(&self) -> (r: Result<u64, CalculatorError>)
        ensures
            match number_in(*self) {
                Ok(n) => r is Ok && r->Ok_0 == n,
                Err(e) => r is Err && r->Err_0@ == e,
            },
    {
        match self {
            Value::Number(n) => Ok(*n),
            _ => Err(CalculatorError::TypeError(String::from_str("Expected number"))),
        }
    }

    pub fn as_bool(&self) -> (r: Result<bool, CalculatorError>)
        ensures
            r is Ok,
            r->Ok_0 == truth(*self),
    {
        match self {
            Value::Boolean(b) => Ok(*b),
            Value::Number(n) => Ok(!number_is_zero(*n)),
        }
    }
}

} // verus!
