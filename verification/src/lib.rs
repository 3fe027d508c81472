//! A relaxed, JSON-superset configuration language: parser and value model.
//!
//! The language accepts `#` and `//` comments, unquoted bare-word strings,
//! `=` as an alternate key/value separator, newline-inferred commas,
//! triple-quoted multi-line strings, and dotted key paths that are
//! deep-merged into a single tree of typed values.

pub mod agree;
pub mod error;
pub mod grammar;
pub mod laws;
pub mod model;
pub mod num;
pub mod parser;
pub mod query;
pub mod scan;
pub mod text;
pub mod value;

pub use error::Error;
pub use value::Value;

use vstd::prelude::*;
use vstd::utf8::encode_utf8;

use crate::grammar::SpecOutcome;
use crate::grammar::spec_parse;
use crate::parser::RootStep;
use crate::parser::json_value_root;
use crate::value::wf;

verus! {

/// Parse a whole byte buffer: the grammar must consume every byte
/// after trailing whitespace and comments.
pub fn from_bytes(input: &[u8]) -> (r: Result<Value, Error>)
    ensures
        ({
            match spec_parse(input@) {
                SpecOutcome::Parsed(m) => r matches Result::Ok(v) && v@ == m && wf(v),
                SpecOutcome::ExtraInput(off) => r matches Result::Err(e) && e matches
                    Error::ExtraInput(o) && o as int == off,
                SpecOutcome::IncompleteInput => r matches Result::Err(e) && e
                    is IncompleteInput,
            }
        }),
{
    let len = input.len();
    match json_value_root(input) {
        RootStep::Done { next, value } => {
            if next == len {
                Result::Ok(value)
            } else {
                Result::Err(Error::ExtraInput(next))
            }
        },
        RootStep::Incomplete => Result::Err(Error::IncompleteInput),
    }
}

/// Parse a whole string (as its UTF-8 bytes).
pub fn from_str(s: &str) -> (r: Result<Value, Error>)
    ensures
        ({
            match spec_parse(encode_utf8(s@)) {
                SpecOutcome::Parsed(m) => r matches Result::Ok(v) && v@ == m && wf(v),
                SpecOutcome::ExtraInput(off) => r matches Result::Err(e) && e matches
                    Error::ExtraInput(o) && o as int == off,
                SpecOutcome::IncompleteInput => r matches Result::Err(e) && e
                    is IncompleteInput,
            }
        }),
{
    from_bytes(s.as_bytes())
}

} // verus!
