use vstd::prelude::*;

verus! {

/// What went wrong, without the message.
#[derive(Clone, Copy, Debug, PartialEq, Eq, Structural)]
pub enum ErrorKind {
    InvalidQuery,
    InvalidValue,
    UnsupportedOperation,
    SerializationError,
    EvaluationError,
}

/// An error of the query engine, with a message for people.
#[derive(Clone, Debug)]
pub enum SiftError {
    /// The query's shape or an operator's parameter is malformed.
    InvalidQuery(String),
    /// A value-side fault; no operator produces it.
    InvalidValue(String),
    /// An operator that this build does not offer.
    UnsupportedOperation(String),
    /// A value could not be converted for evaluation.
    SerializationError(String),
    /// An evaluation failed.
    EvaluationError(String),
}

impl View for SiftError {
    type V = ErrorKind;

    open spec fn view(&self) -> ErrorKind {
        match self {
            SiftError::InvalidQuery(_) => ErrorKind::InvalidQuery,
            SiftError::InvalidValue(_) => ErrorKind::InvalidValue,
            SiftError::UnsupportedOperation(_) => ErrorKind::UnsupportedOperation,
            SiftError::SerializationError(_) => ErrorKind::SerializationError,
            SiftError::EvaluationError(_) => ErrorKind::EvaluationError,
        }
    }
}

impl SiftError {
    /// The error's kind.
    pub fn kind(&self) -> (r: ErrorKind)
        ensures
            r == self@,
    {
        match self {
            SiftError::InvalidQuery(_) => ErrorKind::InvalidQuery,
            SiftError::InvalidValue(_) => ErrorKind::InvalidValue,
            SiftError::UnsupportedOperation(_) => ErrorKind::UnsupportedOperation,
            SiftError::SerializationError(_) => ErrorKind::SerializationError,
            SiftError::EvaluationError(_) => ErrorKind::EvaluationError,
        }
    }

    /// The error as a sentence: its kind, then its message.
    pub fn message(&self) -> (r: String)
        ensures
            r@ == self.prefix()@ + self.detail()@,
    {
        let head = match self {
            SiftError::InvalidQuery(_) => "Invalid query: ".to_string(),
            SiftError::InvalidValue(_) => "Invalid value: ".to_string(),
            SiftError::UnsupportedOperation(_) => "Unsupported operation: ".to_string(),
            SiftError::SerializationError(_) => "Serialization error: ".to_string(),
            SiftError::EvaluationError(_) => "Evaluation error: ".to_string(),
        };
        let detail = match self {
            SiftError::InvalidQuery(m) => m,
            SiftError::InvalidValue(m) => m,
            SiftError::UnsupportedOperation(m) => m,
            SiftError::SerializationError(m) => m,
            SiftError::EvaluationError(m) => m,
        };
        head.concat(detail.as_str())
    }

    pub closed spec fn prefix(&self) -> &'static str {
        match self {
            SiftError::InvalidQuery(_) => "Invalid query: ",
            SiftError::InvalidValue(_) => "Invalid value: ",
            SiftError::UnsupportedOperation(_) => "Unsupported operation: ",
            SiftError::SerializationError(_) => "Serialization error: ",
            SiftError::EvaluationError(_) => "Evaluation error: ",
        }
    }

    /// The message the error carries.
    pub open spec fn detail(&self) -> String {
        match self {
            SiftError::InvalidQuery(m) => *m,
            SiftError::InvalidValue(m) => *m,
            SiftError::UnsupportedOperation(m) => *m,
            SiftError::SerializationError(m) => *m,
            SiftError::EvaluationError(m) => *m,
        }
    }
}

} // verus!
