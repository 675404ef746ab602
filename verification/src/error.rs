//! What can go wrong while a plan is rewritten.

use vstd::prelude::*;

use crate::names::{append_decimal, decimal};

verus! {

/// Why a plan could not be rewritten.
#[derive(Clone, Copy, PartialEq, Eq, Debug, Structural)]
pub enum ErrorCode {
    /// An operator has no child at this position.
    InvalidChild(usize),
    /// Flattening has no rule for this operator.
    InvalidPlan,
    /// Flattening has no rule for this scalar.
    InvalidScalar,
}

impl ErrorCode {
    /// The text that a user is shown.
    pub fn message(&self) -> (text: String)
        ensures
            text@ == match *self {
                ErrorCode::InvalidChild(position) => "Invalid children index: "@ + decimal(
                    position as nat,
                ),
                ErrorCode::InvalidPlan => "Invalid plan type for flattening subquery"@,
                ErrorCode::InvalidScalar => "Invalid scalar for flattening subquery"@,
            },
    {
        match self {
            ErrorCode::InvalidChild(position) => {
                let mut text: String = "Invalid children index: ".to_string();
                append_decimal(&mut text, *position);
                text
            },
            ErrorCode::InvalidPlan => "Invalid plan type for flattening subquery".to_string(),
            ErrorCode::InvalidScalar => "Invalid scalar for flattening subquery".to_string(),
        }
    }
}

/// Why a rewriting stopped.
#[derive(Clone, Copy, PartialEq, Eq, Debug, Structural)]
pub enum Stop {
    /// It failed.
    Failed(ErrorCode),
    /// A column or a part of an expression that it needs does not exist. There is no rewriting.
    Undefined,
}

} // verus!
