//! Execution errors surfaced to the host.
//!
//! Soft failures (`Undefined`, a false condition) are not errors: they
//! propagate through the condition handler. The variants here are
//! programming errors, budget exhaustion, and internal inconsistencies.

use vstd::prelude::*;
use crate::value::Value;

verus! {

/// An error that unwinds out of execution and is returned to the host.
#[allow(inconsistent_fields)]
#[derive(Debug)]
pub enum VmError {
    InstructionLimitExceeded { limit: usize },
    LiteralIndexOutOfBounds { index: usize },
    RegisterNotObject { register: u8 },
    ObjectCreateInvalidTemplate,
    RegisterNotArray { register: u8 },
    RegisterNotSet { register: u8 },
    RuleIndexOutOfBounds { index: u16 },
    RuleInfoMissing { index: u16 },
    InvalidObjectCreateParams { index: u16 },
    InvalidTemplateLiteralIndex { index: u16 },
    InvalidChainedIndexParams { index: u16 },
    InvalidArrayCreateParams { index: u16 },
    InvalidSetCreateParams { index: u16 },
    InvalidVirtualDataDocumentLookupParams { index: u16 },
    InvalidComprehensionBeginParams { index: u16 },
    InvalidRuleIndex { rule_index: Value },
    InvalidRuleTreeEntry { value: Value },
    BuiltinArgumentMismatch { expected: u16, actual: usize },
    BuiltinNotResolved { name: String },
    InvalidAddition { left: Value, right: Value },
    InvalidSubtraction { left: Value, right: Value },
    InvalidMultiplication { left: Value, right: Value },
    InvalidDivision { left: Value, right: Value },
    ModuloOnFloat,
    InvalidModulo { left: Value, right: Value },
    InvalidIteration { value: Value },
    AssertionFailed,
    RuleDataConflict(String),
    ArithmeticError(String),
    InvalidEntryPointIndex { index: usize, max_index: usize },
    EntryPointNotFound { name: String, available: Vec<String> },
    Internal(String),
}

} // verus!
