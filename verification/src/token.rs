//! The vocabulary of the engine: policies, errors and tokens.

use vstd::prelude::*;

verus! {

/// How a literal with a `%` suffix is scaled and rounded.
#[derive(Debug, PartialEq, Eq, Clone, Copy, Structural)]
pub enum PercentRounding {
    /// Divide by 100, then round to the requested number of decimals.
    DivideBy100ThenRound,
    /// Round to the requested number of decimals, then divide by 100.
    RoundThenDivideBy100,
}

/// Why an expression has no value.
#[derive(Debug, PartialEq, Eq, Clone, Copy, Structural)]
pub enum CalcError {
    /// A character that belongs to no token.
    InvalidCharacter(char),
    /// A parenthesis without its partner.
    MismatchedParens,
    /// Operators and operands that do not fit together, or a literal that
    /// cannot be read.
    InvalidExpression,
    /// A divisor closer to zero than the tolerance.
    DivisionByZero,
    /// The expression stops where more was expected. The engine reports such
    /// input as `InvalidExpression`; the variant is kept for callers that
    /// cut their input short themselves.
    UnexpectedEndOfExpression,
}

/// One of the four binary operators.
#[derive(Debug, PartialEq, Eq, Clone, Copy, Structural)]
pub enum Operator {
    Add,
    Subtract,
    Multiply,
    Divide,
}

/// A token of an expression.
#[derive(Debug, PartialEq, Eq, Clone, Copy, Structural)]
pub enum Token {
    /// A literal, already scaled and rounded. The value is an IEEE 754
    /// binary64 number, held as its 64 bits.
    Number(u64),
    Add,
    Subtract,
    Multiply,
    Divide,
    LeftParen,
    RightParen,
}

} // verus!
