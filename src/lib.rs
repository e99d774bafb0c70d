//! Document ingestion: validated, word-counted documents built from raw
//! bytes, and greedy sentence-aligned chunking of their text.

pub mod text;
pub mod document;
pub mod chunker;
pub mod parser;

pub use chunker::TextChunker;
pub use document::{Document, DocumentError};
pub use parser::{DocumentParser, ParseError, TextParser};
