//! The failure conditions of the pipeline.
//!
//! Every condition aborts the whole compilation; nothing is caught or
//! retried internally.

use vstd::prelude::*;

verus! {

/// The reason a compilation was aborted.
#[derive(Debug, Clone, Copy, PartialEq, Eq, Structural)]
pub enum CompileError {
    /// A block-close token arrived with no open block to match it.
    UnmatchedClose,
    /// A scope was asked to close after it had already been closed.
    DoubleClose,
    /// An identifier was declared twice in one scope.
    DuplicateSymbol,
    /// The token after `let` was not an identifier.
    MissingIdentifier,
    /// The token after the declared identifier was not `=`.
    MissingEquals,
    /// The token after `=` could not serve as a literal.
    MissingLiteral,
    /// A `let` statement ended without its closing separator.
    UnterminatedStatement,
    /// The literal kind is recognized but not eligible for declarations.
    UnsupportedLiteralType,
    /// Input ended while a non-global scope was still open.
    UnclosedScope,
    /// A numeric token does not fit the target numeric representation.
    NumericParseFailure,
    /// A statement began with a token that opens no known statement form.
    UnsupportedStatement,
    /// A scope's stack frame outgrew the representable offset range.
    FrameOverflow,
}

} // verus!
