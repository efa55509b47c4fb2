//! Execution core of a register-based virtual machine that evaluates compiled
//! policy programs over structured, JSON-like values.
//!
//! Two design decisions are deliberate and visible in the contracts.
//! Numbers are exact rationals over a 64-bit numerator and denominator
//! rather than arbitrary-precision values: arithmetic whose reduced
//! result does not fit reports an arithmetic error, and every contract
//! states the representable range it guarantees. And builtin
//! implementations stay with the host: the machine calls them through
//! [`vm::BuiltinHost`] and states what holds of every outcome.
//!
//! The crate is organised bottom-up:
//! - [`number`] holds the exact rational arithmetic behind numeric values;
//! - [`value`] holds the tagged value model (null, bool, number, string,
//!   array, ordered object, ordered set, and the `Undefined` sentinel)
//!   with its total order;
//! - [`containers`] holds ordered insertion, lookup, containment and count;
//! - [`ops`] holds the undefined-aware binary arithmetic;
//! - [`program`] holds the immutable instruction stream and its side tables;
//! - [`errors`] holds the error taxonomy surfaced to the host;
//! - [`vm`] holds the dispatcher, the iteration and comprehension engines,
//!   the rule-call machinery and the virtual data-document lookup.

pub mod number;
pub mod errors;
pub mod value;
pub mod containers;
pub mod ops;
pub mod program;
pub mod vm;
