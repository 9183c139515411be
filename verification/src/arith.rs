//! The arithmetic that the engine builds on.
//!
//! Values are IEEE 754 binary64 numbers, held as their 64 bits. The engine
//! decides what is to be computed and in which order, but computes nothing
//! itself: reading a numeral and the operations of `Request` are done by two
//! functions that the caller hands in. A contract speaks of what they
//! return through an `Arithmetic`, a pair of mathematical functions, and
//! holds for every `Arithmetic` that agrees with the functions handed in.
//!
//! Only what the bits alone decide is done here: changing the sign, and
//! comparing a magnitude with the tolerance.

use crate::token::{Operator, PercentRounding};
use vstd::prelude::*;

verus! {

/// The sign bit of a binary64 value.
pub const SIGN_BIT: u64 = 0x8000_0000_0000_0000;

/// Every bit of a binary64 value but its sign.
pub const MAGNITUDE_MASK: u64 = 0x7FFF_FFFF_FFFF_FFFF;

/// The bits of 1e-9, the tolerance below which a magnitude counts as zero.
pub const TOLERANCE_BITS: u64 = 0x3E11_2E0B_E826_D695;

/// The bits of 100.
pub const HUNDRED_BITS: u64 = 0x4059_0000_0000_0000;

/// An operation that the engine asks to have computed.
#[derive(Debug, PartialEq, Eq, Clone, Copy, Structural)]
pub enum Request {
    /// Ten to the given power.
    PowerOfTen(u32),
    /// The nearest integer, with halves rounded away from zero.
    Round(u64),
    /// The operator applied to a left and a right operand.
    Binary(Operator, u64, u64),
}

/// What the functions that do the arithmetic return, as mathematical
/// functions: the value of a numeral, if it has one, and the result of a
/// request.
pub struct Arithmetic {
    pub parse: spec_fn(Seq<char>) -> Option<u64>,
    pub compute: spec_fn(Request) -> u64,
}

impl Arithmetic {
    /// `parse` returns what this arithmetic says, whenever it returns.
    pub open spec fn parses<P: Fn(&str) -> Option<u64>>(self, parse: &P) -> bool {
        forall|text: &str, value: Option<u64>| #[trigger]
            parse.ensures((text,), value) ==> value == (self.parse)(text@)
    }

    /// `compute` returns what this arithmetic says, whenever it returns.
    pub open spec fn computes<C: Fn(Request) -> u64>(self, compute: &C) -> bool {
        forall|request: Request, value: u64| #[trigger]
            compute.ensures((request,), value) ==> value == (self.compute)(request)
    }

    /// Both functions return what this arithmetic says.
    pub open spec fn models<P: Fn(&str) -> Option<u64>, C: Fn(Request) -> u64>(
        self,
        parse: &P,
        compute: &C,
    ) -> bool {
        self.parses(parse) && self.computes(compute)
    }

    /// `value` rounded to `decimals` places: scaled up by ten to the power
    /// of `decimals`, rounded to the nearest integer, and scaled down again.
    pub open spec fn rounded(self, value: u64, decimals: u32) -> u64 {
        let factor = (self.compute)(Request::PowerOfTen(decimals));
        let scaled = (self.compute)(Request::Binary(Operator::Multiply, value, factor));
        let whole = (self.compute)(Request::Round(scaled));
        (self.compute)(Request::Binary(Operator::Divide, whole, factor))
    }

    /// `value` divided by 100.
    pub open spec fn hundredth(self, value: u64) -> u64 {
        (self.compute)(Request::Binary(Operator::Divide, value, HUNDRED_BITS))
    }

    /// `value` as a literal stands for it: rounded, and for a percentage
    /// also divided by 100, before or after the rounding as `policy` says.
    pub open spec fn scaled(
        self,
        value: u64,
        percent: bool,
        decimals: u32,
        policy: PercentRounding,
    ) -> u64 {
        if !percent {
            self.rounded(value, decimals)
        } else {
            match policy {
                PercentRounding::DivideBy100ThenRound => self.rounded(
                    self.hundredth(value),
                    decimals,
                ),
                PercentRounding::RoundThenDivideBy100 => self.hundredth(
                    self.rounded(value, decimals),
                ),
            }
        }
    }

    /// The value of a literal with the numeral `numeral`, or nothing where
    /// the numeral cannot be read. The sign is applied to the numeral's
    /// value before it is scaled and rounded.
    pub open spec fn literal(
        self,
        numeral: Seq<char>,
        negative: bool,
        percent: bool,
        decimals: u32,
        policy: PercentRounding,
    ) -> Option<u64> {
        match (self.parse)(numeral) {
            Some(value) => Some(
                self.scaled(
                    if negative {
                        negated(value)
                    } else {
                        value
                    },
                    percent,
                    decimals,
                    policy,
                ),
            ),
            None => None,
        }
    }
}

/// `value` with the opposite sign.
pub open spec fn negated(value: u64) -> u64 {
    value ^ SIGN_BIT
}

/// Changes the sign of `value`, which for a binary64 number is to flip its
/// sign bit.
#[verifier::when_used_as_spec(negated)]
pub fn negate(value: u64) -> (r: u64)
    ensures
        r == negated(value),
{
    value ^ SIGN_BIT
}

/// Whether the magnitude of `value` is below the tolerance of 1e-9.
///
/// Among binary64 values without their sign bit, the order of the values is
/// the order of their bits read as integers, with every NaN above infinity.
/// So a magnitude is below the tolerance exactly where its bits are below
/// those of the tolerance, and a NaN is never negligible.
pub open spec fn negligible(value: u64) -> bool {
    (value & MAGNITUDE_MASK) < TOLERANCE_BITS
}

/// Whether the magnitude of `value` is below the tolerance of 1e-9.
#[verifier::when_used_as_spec(negligible)]
pub fn is_negligible(value: u64) -> (r: bool)
    ensures
        r == negligible(value),
{
    (value & MAGNITUDE_MASK) < TOLERANCE_BITS
}

/// Rounds `value` to `decimals` places, with halves away from zero.
pub fn round_value<C: Fn(Request) -> u64>(value: u64, decimals: u32, compute: &C) -> (r: u64)
    requires
        forall|request: Request| compute.requires((request,)),
    ensures
        forall|arith: Arithmetic| #[trigger]
            arith.computes(compute) ==> r == arith.rounded(value, decimals),
{
    let factor = compute(Request::PowerOfTen(decimals));
    let scaled = compute(Request::Binary(Operator::Multiply, value, factor));
    let whole = compute(Request::Round(scaled));
    compute(Request::Binary(Operator::Divide, whole, factor))
}

/// Scales and rounds the value of a literal; see `Arithmetic::scaled`.
pub fn scale_literal<C: Fn(Request) -> u64>(
    value: u64,
    percent: bool,
    decimals: u32,
    rounding_strategy: PercentRounding,
    compute: &C,
) -> (r: u64)
    requires
        forall|request: Request| compute.requires((request,)),
    ensures
        forall|arith: Arithmetic| #[trigger]
            arith.computes(compute) ==> r == arith.scaled(
                value,
                percent,
                decimals,
                rounding_strategy,
            ),
{
    if !percent {
        round_value(value, decimals, compute)
    } else {
        match rounding_strategy {
            PercentRounding::DivideBy100ThenRound => {
                let converted = compute(Request::Binary(Operator::Divide, value, HUNDRED_BITS));
                round_value(converted, decimals, compute)
            },
            PercentRounding::RoundThenDivideBy100 => {
                let rounded = round_value(value, decimals, compute);
                compute(Request::Binary(Operator::Divide, rounded, HUNDRED_BITS))
            },
        }
    }
}

} // verus!
