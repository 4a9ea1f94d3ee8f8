//! The YAML grammar: from the characters of a source text to its documents' node trees.
pub mod anchor;
pub mod chars;
pub mod input;
pub mod tag_handles;
pub mod spaces;
pub mod scalar;
pub mod properties;
pub mod flow;
pub mod block;
pub mod document;
