use vstd::prelude::*;

verus! {

/// Errors raised while indexing, evaluating or storing script data.
#[derive(Clone, Debug, PartialEq)]
pub enum ScriptingError {
    /// Something that was looked up does not exist.
    NotFoundError(String),
    /// The script or its context is not well formed.
    InvalidSyntax(String),
    /// Evaluation of a script failed.
    EvaluationError(String),
    /// An operation is not allowed on the current state.
    InvalidOperation(String),
}

/// The kind of a `ScriptingError`, without its message.
#[derive(Clone, Copy, Debug, PartialEq, Eq, Structural)]
pub enum ErrorKind {
    NotFound,
    InvalidSyntax,
    Evaluation,
    InvalidOperation,
}

/// What an error says: its kind and its message.
pub struct ErrorView {
    pub kind: ErrorKind,
    pub text: Seq<char>,
}

impl View for ScriptingError {
    type V = ErrorView;

    open spec fn view(&self) -> ErrorView {
        ErrorView {
            kind: self.kind(),
            text: match self {
                ScriptingError::NotFoundError(m) => m@,
                ScriptingError::InvalidSyntax(m) => m@,
                ScriptingError::EvaluationError(m) => m@,
                ScriptingError::InvalidOperation(m) => m@,
            },
        }
    }
}

impl ScriptingError {
    pub open spec fn kind(self) -> ErrorKind {
        match self {
            ScriptingError::NotFoundError(_) => ErrorKind::NotFound,
            ScriptingError::InvalidSyntax(_) => ErrorKind::InvalidSyntax,
            ScriptingError::EvaluationError(_) => ErrorKind::Evaluation,
            ScriptingError::InvalidOperation(_) => ErrorKind::InvalidOperation,
        }
    }

    /// The message carried by the error.
    pub fn message(&self) -> (r: &String)
        ensures
            r == match self {
                ScriptingError::NotFoundError(m) => m,
                ScriptingError::InvalidSyntax(m) => m,
                ScriptingError::EvaluationError(m) => m,
                ScriptingError::InvalidOperation(m) => m,
            },
    {
        match self {
            ScriptingError::NotFoundError(m) => m,
            ScriptingError::InvalidSyntax(m) => m,
            ScriptingError::EvaluationError(m) => m,
            ScriptingError::InvalidOperation(m) => m,
        }
    }
}

} // verus!
