use vstd::prelude::*;

use crate::error::CompileError;
use crate::text::str_eq;

verus! {

/// The operators of the filter language.
#[derive(Debug, Clone, Copy, PartialEq, Eq, Structural)]
pub enum Operator {
    Equal,
    NotEqual,
    LessThan,
    GreaterThan,
    LessThanOrEqual,
    GreaterThanOrEqual,
    Any,
    All,
    NoneOf,
    Not,
    In,
    StartsWith,
    EndsWith,
    RegexMatch,
    RegexCapture,
    Boolean,
    Literal,
    Tag,
    Key,
    Type,
}

/// The operator that a name denotes, if any. Names are case-sensitive;
/// `not` and `!` both denote negation.
pub open spec fn operator_named(s: Seq<char>) -> Option<Operator> {
    if s == "=="@ {
        Some(Operator::Equal)
    } else if s == "!="@ {
        Some(Operator::NotEqual)
    } else if s == "<"@ {
        Some(Operator::LessThan)
    } else if s == ">"@ {
        Some(Operator::GreaterThan)
    } else if s == "<="@ {
        Some(Operator::LessThanOrEqual)
    } else if s == ">="@ {
        Some(Operator::GreaterThanOrEqual)
    } else if s == "any"@ {
        Some(Operator::Any)
    } else if s == "all"@ {
        Some(Operator::All)
    } else if s == "none"@ {
        Some(Operator::NoneOf)
    } else if s == "not"@ || s == "!"@ {
        Some(Operator::Not)
    } else if s == "in"@ {
        Some(Operator::In)
    } else if s == "starts-with"@ {
        Some(Operator::StartsWith)
    } else if s == "ends-with"@ {
        Some(Operator::EndsWith)
    } else if s == "regex-match"@ {
        Some(Operator::RegexMatch)
    } else if s == "regex-capture"@ {
        Some(Operator::RegexCapture)
    } else if s == "boolean"@ {
        Some(Operator::Boolean)
    } else if s == "literal"@ {
        Some(Operator::Literal)
    } else if s == "tag"@ {
        Some(Operator::Tag)
    } else if s == "key"@ {
        Some(Operator::Key)
    } else if s == "type"@ {
        Some(Operator::Type)
    } else {
        None
    }
}

impl Operator {
    /// Resolves an operator by name.
    pub fn from_str(s: &str) -> (r: Result<Operator, CompileError>)
        ensures
            match operator_named(s@) {
                Some(op) => r == Ok::<Operator, CompileError>(op),
                None => r == Err::<Operator, CompileError>(CompileError::UnknownOperator),
            },
    {
        if str_eq(s, "==") {
            Ok(Operator::Equal)
        } else if str_eq(s, "!=") {
            Ok(Operator::NotEqual)
        } else if str_eq(s, "<") {
            Ok(Operator::LessThan)
        } else if str_eq(s, ">") {
            Ok(Operator::GreaterThan)
        } else if str_eq(s, "<=") {
            Ok(Operator::LessThanOrEqual)
        } else if str_eq(s, ">=") {
            Ok(Operator::GreaterThanOrEqual)
        } else if str_eq(s, "any") {
            Ok(Operator::Any)
        } else if str_eq(s, "all") {
            Ok(Operator::All)
        } else if str_eq(s, "none") {
            Ok(Operator::NoneOf)
        } else if str_eq(s, "not") || str_eq(s, "!") {
            Ok(Operator::Not)
        } else if str_eq(s, "in") {
            Ok(Operator::In)
        } else if str_eq(s, "starts-with") {
            Ok(Operator::StartsWith)
        } else if str_eq(s, "ends-with") {
            Ok(Operator::EndsWith)
        } else if str_eq(s, "regex-match") {
            Ok(Operator::RegexMatch)
        } else if str_eq(s, "regex-capture") {
            Ok(Operator::RegexCapture)
        } else if str_eq(s, "boolean") {
            Ok(Operator::Boolean)
        } else if str_eq(s, "literal") {
            Ok(Operator::Literal)
        } else if str_eq(s, "tag") {
            Ok(Operator::Tag)
        } else if str_eq(s, "key") {
            Ok(Operator::Key)
        } else if str_eq(s, "type") {
            Ok(Operator::Type)
        } else {
            Err(CompileError::UnknownOperator)
        }
    }
}

} // verus!
