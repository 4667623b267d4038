//! The errors that the library's operations report.

use vstd::prelude::*;
use crate::task::TaskId;

verus! {

/// What went wrong in an operation on tasks. Failures of outside services
/// (files, JSON, configuration) arrive here as their message text.
#[derive(Debug, Clone, PartialEq, Eq)]
pub enum TaskError {
    TaskNotFound(TaskId),
    ValidationError(String),
    IoError(String),
    JsonError(String),
    DateParseError(String),
    ConfigError(String),
    InvalidPriority(String),
    InvalidStatus(String),
    FileOperationError(String),
    DatabaseError(String),
    TaskAlreadyExists(TaskId),
    OperationNotAllowed(String),
}

impl TaskError {
    /// Whether this is a missing-task error.
    pub fn is_not_found(&self) -> (r: bool)
        ensures
            r == (self is TaskNotFound),
    {
        matches!(self, TaskError::TaskNotFound(_))
    }

    /// Whether this is a validation error.
    pub fn is_validation_error(&self) -> (r: bool)
        ensures
            r == (self is ValidationError),
    {
        matches!(self, TaskError::ValidationError(_))
    }

    /// The kind of failure, as a short label for logs.
    pub open spec fn category_spec(&self) -> Seq<char> {
        match self {
            TaskError::TaskNotFound(_) => "not_found"@,
            TaskError::ValidationError(_) => "validation"@,
            TaskError::IoError(_) => "io"@,
            TaskError::JsonError(_) => "serialization"@,
            TaskError::DateParseError(_) => "parsing"@,
            TaskError::ConfigError(_) => "configuration"@,
            TaskError::InvalidPriority(_) => "validation"@,
            TaskError::InvalidStatus(_) => "validation"@,
            TaskError::FileOperationError(_) => "io"@,
            TaskError::DatabaseError(_) => "database"@,
            TaskError::TaskAlreadyExists(_) => "conflict"@,
            TaskError::OperationNotAllowed(_) => "authorization"@,
        }
    }

    /// The kind of failure, as a short label for logs.
    pub fn category(&self) -> (r: &'static str)
        ensures
            r@ == self.category_spec(),
    {
        match self {
            TaskError::TaskNotFound(_) => "not_found",
            TaskError::ValidationError(_) => "validation",
            TaskError::IoError(_) => "io",
            TaskError::JsonError(_) => "serialization",
            TaskError::DateParseError(_) => "parsing",
            TaskError::ConfigError(_) => "configuration",
            TaskError::InvalidPriority(_) => "validation",
            TaskError::InvalidStatus(_) => "validation",
            TaskError::FileOperationError(_) => "io",
            TaskError::DatabaseError(_) => "database",
            TaskError::TaskAlreadyExists(_) => "conflict",
            TaskError::OperationNotAllowed(_) => "authorization",
        }
    }
}

} // verus!
