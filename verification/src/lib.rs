//! An engine for arithmetic expressions with per-literal rounding and
//! locale-tolerant number formats.
//!
//! An expression is read into tokens, each literal normalized, scaled and
//! rounded on the way (`normalize`, `tokenizer`); the tokens are put in
//! postfix order (`shunting`) and evaluated (`eval`), and the result is
//! rounded once more (`calculator`). `syntax` says what this comes to for
//! well-formed expressions. `tools`, `expected`, `batch` and `protocol` hold
//! what the tools and the server around the engine decide.
//!
//! Values are binary64 numbers held as their bits. The engine never computes
//! with them: the caller hands in the arithmetic, and every contract holds
//! for whatever arithmetic that is (`arith`).

pub mod arith;
pub mod batch;
pub mod calculator;
pub mod error;
pub mod eval;
pub mod expected;
pub mod normalize;
pub mod protocol;
pub mod shunting;
pub mod syntax;
pub mod text;
pub mod token;
pub mod tokenizer;
pub mod tools;
