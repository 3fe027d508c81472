//! The error taxonomy: every failure is reported as a typed value,
//! never as abrupt termination.

use vstd::prelude::*;

verus! {

/// What went wrong during parsing or querying.
#[derive(Debug, PartialEq)]
pub enum Error {
    /// The grammar consumed a prefix successfully but bytes remain;
    /// carries the byte offset where consumption stopped.
    ExtraInput(usize),
    /// The grammar needs more bytes than were supplied (an unclosed
    /// top-level brace, or input that ends after only whitespace).
    IncompleteInput,
    /// The grammar failed outright; carries a description. The present
    /// root grammar never hard-fails — a bare body that matches nothing
    /// is an empty object with the rest as extra input — so this kind
    /// is kept for API completeness.
    ParseError(String),
    /// A path handed to a query had input left over after path-grammar
    /// parsing; carries the path as given.
    PathError(String),
    /// A path parsed cleanly but no value exists at that location;
    /// carries the path as given.
    NotFound(String),
    /// A value exists but does not match the requested coercion.
    IncompatibleType,
}

} // verus!
