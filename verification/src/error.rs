//! Errors, their classes and the exit codes they map to.
use vstd::prelude::*;

verus! {

/// The three classes of failure, each with its own process exit code.
#[derive(Debug, Clone, Copy, PartialEq, Eq, Structural)]
pub enum ErrorKind {
    Check,
    Usage,
    Dependency,
}

/// The exit code that belongs to an error class.
pub open spec fn kind_exit_code(kind: ErrorKind) -> u8 {
    match kind {
        ErrorKind::Check => 1,
        ErrorKind::Usage => 2,
        ErrorKind::Dependency => 3,
    }
}

/// An error with its class and a human-readable message.
#[derive(Debug)]
pub struct GitPersonaError {
    kind: ErrorKind,
    message: String,
}

/// Implemented by the errors that map onto a process exit code.
pub trait AppError {
    fn exit_code(&self) -> u8;
}

impl View for GitPersonaError {
    type V = (ErrorKind, Seq<char>);

    closed spec fn view(&self) -> (ErrorKind, Seq<char>) {
        (self.kind, self.message@)
    }
}

impl GitPersonaError {
    /// An identity or policy check failed.
    pub fn check(message: String) -> (e: Self)
        ensures
            e@ == (ErrorKind::Check, message@),
    {
        Self { kind: ErrorKind::Check, message }
    }

    /// The input or configuration is invalid.
    pub fn usage(message: String) -> (e: Self)
        ensures
            e@ == (ErrorKind::Usage, message@),
    {
        Self { kind: ErrorKind::Usage, message }
    }

    /// A dependency is missing or a subprocess failed.
    pub fn dependency(message: String) -> (e: Self)
        ensures
            e@ == (ErrorKind::Dependency, message@),
    {
        Self { kind: ErrorKind::Dependency, message }
    }

    pub fn kind(&self) -> (k: ErrorKind)
        ensures
            k == self@.0,
    {
        self.kind
    }

    pub fn message(&self) -> (m: &str)
        ensures
            m@ == self@.1,
    {
        self.message.as_str()
    }

    /// 1 for a failed check, 2 for invalid input, 3 for a dependency failure.
    pub fn exit_code(&self) -> (code: u8)
        ensures
            code == kind_exit_code(self@.0),
    {
        match self.kind {
            ErrorKind::Check => 1,
            ErrorKind::Usage => 2,
            ErrorKind::Dependency => 3,
        }
    }
}

impl Clone for GitPersonaError {
    fn clone(&self) -> (r: Self)
        ensures
            r@ == self@,
    {
        GitPersonaError { kind: self.kind, message: self.message.clone() }
    }
}

impl AppError for GitPersonaError {
    /// The exit code of the error's class.
    fn exit_code(&self) -> (code: u8)
        ensures
            code == kind_exit_code(self@.0),
    {
        GitPersonaError::exit_code(self)
    }
}

} // verus!
