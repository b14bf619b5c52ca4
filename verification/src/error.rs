//! Error values returned by the dialect parsers and the configuration
//! surface.

use vstd::prelude::*;

verus! {

/// The kind of a failure.
#[derive(Debug, PartialEq, Eq, Clone, Copy, Structural)]
pub enum ErrorKind {
    OptionsParseError,
    IOError,
    SyntaxError,
    ExecError,
    IllegalArgument,
    NotEnoughArguments,
}

/// A 1-based line and column position in the source.
#[derive(Debug, PartialEq, Eq, Clone, Copy, Structural)]
pub struct SourceLocation {
    pub lineno: usize,
    pub column: usize,
}

impl SourceLocation {
    pub fn new(lineno: usize, column: usize) -> (r: Self)
        ensures
            r == (SourceLocation { lineno, column }),
    {
        Self { lineno, column }
    }

    pub fn lineno(&self) -> (r: usize)
        ensures
            r == self.lineno,
    {
        self.lineno
    }

    pub fn column(&self) -> (r: usize)
        ensures
            r == self.column,
    {
        self.column
    }
}

/// An error with its kind, an optional source location and an optional
/// text describing an underlying cause.
#[derive(Debug, Clone)]
pub struct Error {
    pub kind: ErrorKind,
    pub cause: Option<String>,
    pub location: Option<SourceLocation>,
}

impl Error {
    pub fn new(kind: ErrorKind, cause: String, location: SourceLocation) -> (r: Self)
        ensures
            r.kind == kind,
            r.cause == Some(cause),
            r.location == Some(location),
    {
        Self { kind, cause: Some(cause), location: Some(location) }
    }

    pub fn with_cause(kind: ErrorKind, cause: String) -> (r: Self)
        ensures
            r.kind == kind,
            r.cause == Some(cause),
            r.location is None,
    {
        Self { kind, cause: Some(cause), location: None }
    }

    pub fn with_location(kind: ErrorKind, location: SourceLocation) -> (r: Self)
        ensures
            r.kind == kind,
            r.cause is None,
            r.location == Some(location),
    {
        Self { kind, cause: None, location: Some(location) }
    }

    pub fn syntax_error(lineno: usize, column: usize) -> (r: Self)
        ensures
            r == spec_syntax_error(lineno, column),
    {
        Self {
            kind: ErrorKind::SyntaxError,
            cause: None,
            location: Some(SourceLocation { lineno, column }),
        }
    }

    pub fn kind(&self) -> (r: ErrorKind)
        ensures
            r == self.kind,
    {
        self.kind
    }

    pub fn location(&self) -> (r: &Option<SourceLocation>)
        ensures
            r == &self.location,
    {
        &self.location
    }
}

/// The syntax error reported at the given 1-based position.
pub open spec fn spec_syntax_error(lineno: usize, column: usize) -> Error {
    Error {
        kind: ErrorKind::SyntaxError,
        cause: None,
        location: Some(SourceLocation { lineno, column }),
    }
}

} // verus!
