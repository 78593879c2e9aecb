use vstd::prelude::*;

verus! {

/// Why a filter expression or a filter collection was rejected.
#[derive(Debug, Clone, Copy, PartialEq, Eq, Structural)]
pub enum CompileError {
    /// An expression array with no elements.
    EmptyExpression,
    /// An expression array whose first element is not a string.
    OperatorNotString,
    /// An operator name outside the language.
    UnknownOperator,
    /// An operator applied to the wrong number of arguments.
    ArgumentCount { expected: usize, got: usize },
    /// An operator applied to fewer arguments than it needs.
    TooFewArguments { min: usize, got: usize },
    /// An argument that must be a string is not one.
    ExpectedString,
    /// The group index of `regex-capture` is not an unsigned integer.
    ExpectedGroupIndex,
    /// The set of `in` is not a literal array.
    ExpectedArray,
    /// A pattern that the regex engine rejects.
    InvalidRegex,
    /// A JSON object where an expression is expected.
    ObjectExpression,
    /// A collection whose `type` is not `FeatureCollection`.
    NotFeatureCollection,
    /// A region whose `type` is not `Feature`.
    NotFeature,
    /// A region without any layer entry.
    NoLayers,
}

impl CompileError {
    /// A human-readable description of the error.
    pub fn message(&self) -> (r: &'static str) {
        match self {
            CompileError::EmptyExpression => "expression array cannot be empty",
            CompileError::OperatorNotString => "first element must be an operator string",
            CompileError::UnknownOperator => "unknown operator",
            CompileError::ArgumentCount { .. } => "wrong number of arguments",
            CompileError::TooFewArguments { .. } => "too few arguments",
            CompileError::ExpectedString => "argument must be a string",
            CompileError::ExpectedGroupIndex => "capture group index must be an unsigned integer",
            CompileError::ExpectedArray => "the in operator requires an array of values",
            CompileError::InvalidRegex => "invalid regex pattern",
            CompileError::ObjectExpression => "object expressions are not supported",
            CompileError::NotFeatureCollection => "filter must be a FeatureCollection",
            CompileError::NotFeature => "filter region must be a Feature",
            CompileError::NoLayers => "filter region must name at least one layer",
        }
    }
}

} // verus!
