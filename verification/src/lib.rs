//! `ya` ("yet another YAML parser"): a YAML 1.2.2 parser with Core Schema tag resolution.
use vstd::prelude::*;

pub mod de;
pub mod documents;
pub mod error;
pub mod parse;
pub mod resolve;
pub mod text;
pub mod value;

pub use documents::{parse, parse_document, parse_stream, Documents};
pub use error::{Error, OwnedParseError};

verus! {
} // verus!
