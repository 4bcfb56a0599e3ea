//! The library's error type.
use vstd::prelude::*;

use crate::text::{owned, push_str};

verus! {

/// Every failure the library reports. Timestamps are microseconds since the Unix epoch.
#[derive(Debug, Clone, PartialEq, Eq)]
pub enum AppError {
    NotFound(String),
    Validation(String),
    Config(String),
    External(String),
    Storage(String),
    Io(String),
    Serde(String),
    Unsupported(String),
    RateBudgetReserved {
        operation: String,
        remaining: usize,
        reserve: usize,
        requested_cost: usize,
        reset_at: i64,
    },
    GraphCapacityExceeded {
        resource: String,
        current_count: usize,
        incoming_count: usize,
        projected_count: usize,
        maximum_count: usize,
    },
}

/// The text of an error message that carries a plain message.
pub open spec fn prefixed(prefix: Seq<char>, message: Seq<char>) -> Seq<char> {
    prefix + message
}

/// The human-readable text of an error.
pub open spec fn error_text(e: AppError) -> Seq<char> {
    match e {
        AppError::NotFound(m) => prefixed("not found: "@, m@),
        AppError::Validation(m) => prefixed("validation error: "@, m@),
        AppError::Config(m) => prefixed("configuration error: "@, m@),
        AppError::External(m) => prefixed("external service error: "@, m@),
        AppError::Storage(m) => prefixed("storage error: "@, m@),
        AppError::Io(m) => prefixed("io error: "@, m@),
        AppError::Serde(m) => prefixed("serialization error: "@, m@),
        AppError::Unsupported(m) => prefixed("unsupported: "@, m@),
        AppError::RateBudgetReserved { operation, .. } => prefixed(
            "GitHub REST reserve protected: "@,
            operation@,
        ),
        AppError::GraphCapacityExceeded { resource, .. } => prefixed(
            "graph capacity exceeded: "@,
            resource@,
        ),
    }
}

fn join(prefix: &str, message: &String) -> (r: String)
    ensures
        r@ == prefix@ + message@,
{
    let mut r = owned(prefix);
    push_str(&mut r, message.as_str());
    r
}

impl AppError {
    /// The error's message, as `Display` shows it.
    pub fn message(&self) -> (r: String)
        ensures
            r@ == error_text(*self),
    {
        proof {
            reveal_strlit("not found: ");
            reveal_strlit("validation error: ");
            reveal_strlit("configuration error: ");
            reveal_strlit("external service error: ");
            reveal_strlit("storage error: ");
            reveal_strlit("io error: ");
            reveal_strlit("serialization error: ");
            reveal_strlit("unsupported: ");
            reveal_strlit("GitHub REST reserve protected: ");
            reveal_strlit("graph capacity exceeded: ");
        }
        match self {
            AppError::NotFound(m) => join("not found: ", m),
            AppError::Validation(m) => join("validation error: ", m),
            AppError::Config(m) => join("configuration error: ", m),
            AppError::External(m) => join("external service error: ", m),
            AppError::Storage(m) => join("storage error: ", m),
            AppError::Io(m) => join("io error: ", m),
            AppError::Serde(m) => join("serialization error: ", m),
            AppError::Unsupported(m) => join("unsupported: ", m),
            AppError::RateBudgetReserved { operation, .. } => join(
                "GitHub REST reserve protected: ",
                operation,
            ),
            AppError::GraphCapacityExceeded { resource, .. } => join(
                "graph capacity exceeded: ",
                resource,
            ),
        }
    }
}

/// A validation error with the given message.
pub fn validation(message: &str) -> (e: AppError)
    ensures
        e is Validation,
        e->Validation_0@ == message@,
{
    AppError::Validation(owned(message))
}

} // verus!
