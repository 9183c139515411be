//! The errors that the tool layer reports.

use crate::token::CalcError;
use vstd::prelude::*;

verus! {

/// An error of the service around the engine. Errors that come from outside
/// the engine are held by their message.
#[derive(Debug, PartialEq, Eq)]
pub enum ServiceError {
    CalculationError(String),
    InvalidExpression(String),
    DivisionByZero,
    InvalidCharacter(char),
    MismatchedParens,
    UnexpectedEndOfExpression,
    Io(String),
    Json(String),
    Sdk(String),
    Generic(String),
}

/// The mathematical content of a `ServiceError`.
pub enum ServiceErrorView {
    CalculationError(Seq<char>),
    InvalidExpression(Seq<char>),
    DivisionByZero,
    InvalidCharacter(char),
    MismatchedParens,
    UnexpectedEndOfExpression,
    Io(Seq<char>),
    Json(Seq<char>),
    Sdk(Seq<char>),
    Generic(Seq<char>),
}

impl View for ServiceError {
    type V = ServiceErrorView;

    open spec fn view(&self) -> ServiceErrorView {
        match self {
            ServiceError::CalculationError(m) => ServiceErrorView::CalculationError(m@),
            ServiceError::InvalidExpression(m) => ServiceErrorView::InvalidExpression(m@),
            ServiceError::DivisionByZero => ServiceErrorView::DivisionByZero,
            ServiceError::InvalidCharacter(c) => ServiceErrorView::InvalidCharacter(*c),
            ServiceError::MismatchedParens => ServiceErrorView::MismatchedParens,
            ServiceError::UnexpectedEndOfExpression => ServiceErrorView::UnexpectedEndOfExpression,
            ServiceError::Io(m) => ServiceErrorView::Io(m@),
            ServiceError::Json(m) => ServiceErrorView::Json(m@),
            ServiceError::Sdk(m) => ServiceErrorView::Sdk(m@),
            ServiceError::Generic(m) => ServiceErrorView::Generic(m@),
        }
    }
}

/// The service error that stands for an error of the engine: the variant of
/// the same name, and for an invalid expression the fixed message.
pub open spec fn service_error_of(err: CalcError) -> ServiceErrorView {
    match err {
        CalcError::InvalidCharacter(c) => ServiceErrorView::InvalidCharacter(c),
        CalcError::MismatchedParens => ServiceErrorView::MismatchedParens,
        CalcError::InvalidExpression => ServiceErrorView::InvalidExpression("无效表达式"@),
        CalcError::DivisionByZero => ServiceErrorView::DivisionByZero,
        CalcError::UnexpectedEndOfExpression => ServiceErrorView::UnexpectedEndOfExpression,
    }
}

impl ServiceError {
    /// Turns an error of the engine into the service's error.
    pub fn from_calc_error(err: CalcError) -> (r: ServiceError)
        ensures
            r@ == service_error_of(err),
    {
        match err {
            CalcError::InvalidCharacter(c) => ServiceError::InvalidCharacter(c),
            CalcError::MismatchedParens => ServiceError::MismatchedParens,
            CalcError::InvalidExpression => ServiceError::InvalidExpression(
                "无效表达式".to_owned(),
            ),
            CalcError::DivisionByZero => ServiceError::DivisionByZero,
            CalcError::UnexpectedEndOfExpression => ServiceError::UnexpectedEndOfExpression,
        }
    }
}

/// A result with its error seen as its view.
pub open spec fn viewed<T>(r: Result<T, ServiceError>) -> Result<T, ServiceErrorView> {
    match r {
        Ok(value) => Ok(value),
        Err(e) => Err(e@),
    }
}

} // verus!
