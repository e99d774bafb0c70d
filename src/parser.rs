//! Parsers that turn a byte buffer into a document, chosen by content type.

use vstd::prelude::*;
use vstd::slice::slice_to_vec;
use vstd::utf8::{decode_utf8, valid_utf8};

use crate::document::{empty_content_message, Document, DocumentError};
use crate::text::{chars_of, count_words};

verus! {

/// Why a buffer could not be parsed into a document.
#[derive(Debug, Clone)]
pub enum ParseError {
    /// The buffer decoded to empty content.
    EmptyContent(DocumentError),
    /// The buffer is not in the parser's expected encoding.
    DecodeFailure,
}

/// A parser for one kind of content, selected by testing `supports` on the
/// content type.
pub trait DocumentParser {
    /// Whether this parser handles content of the given type.
    fn supports(&self, mime_type: &str) -> bool;

    /// Builds a document from `buffer`, with `filename` as its source.
    fn parse(&self, buffer: &[u8], filename: &str) -> Result<Document, ParseError>;
}

/// The content type that `TextParser` handles.
pub open spec fn plain_text_type() -> Seq<char> {
    "text/plain"@
}

/// Relies on `String::from_utf8`: it succeeds exactly when the bytes are
/// valid UTF-8, and the string then holds the characters they encode.
#[verifier::external_body]
fn string_from_utf8(bytes: Vec<u8>) -> (r: Option<String>)
    ensures
        r is Some <==> valid_utf8(bytes@),
        r matches Some(s) ==> s@ == decode_utf8(bytes@),
{
    String::from_utf8(bytes).ok()
}

/// Whether `a` and `b` hold the same characters.
pub fn same_text(a: &str, b: &str) -> (r: bool)
    ensures
        r == (a@ == b@),
{
    let x = chars_of(a);
    let y = chars_of(b);
    if x.len() != y.len() {
        return false;
    }
    let mut i: usize = 0;
    while i < x.len()
        invariant
            i <= x.len() == y.len(),
            x@ == a@,
            y@ == b@,
            x@.take(i as int) == y@.take(i as int),
        decreases x.len() - i,
    {
        if x[i] != y[i] {
            return false;
        }
        assert(x@.take(i + 1) == x@.take(i as int).push(x@[i as int]));
        assert(y@.take(i + 1) == y@.take(i as int).push(y@[i as int]));
        i = i + 1;
    }
    assert(x@.take(x.len() as int) == x@);
    assert(y@.take(y.len() as int) == y@);
    true
}

/// Parses plain text encoded as UTF-8.
#[derive(Debug, Clone, Copy)]
pub struct TextParser;

impl DocumentParser for TextParser {
    /// True exactly for `"text/plain"`.
    fn supports(&self, mime_type: &str) -> (r: bool)
        ensures
            r == (mime_type@ == plain_text_type()),
    {
        same_text(mime_type, "text/plain")
    }

    /// Decodes the buffer as UTF-8, strictly, and builds a document of the
    /// text, which must not be empty.
    fn parse(&self, buffer: &[u8], filename: &str) -> (r: Result<Document, ParseError>)
        ensures
            r matches Err(ParseError::DecodeFailure) <==> !valid_utf8(buffer@),
            r matches Err(ParseError::EmptyContent(e)) ==> e.spec_message()
                == empty_content_message(),
            r matches Err(ParseError::EmptyContent(_)) <==> buffer@.len() == 0,
            r is Ok <==> valid_utf8(buffer@) && decode_utf8(buffer@).len() > 0,
            r matches Ok(d) ==> {
                &&& d.spec_content() == decode_utf8(buffer@)
                &&& d.spec_source() == filename@
                &&& d.spec_word_count() == count_words(decode_utf8(buffer@))
            },
    {
        let bytes = slice_to_vec(buffer);
        match string_from_utf8(bytes) {
            None => Err(ParseError::DecodeFailure),
            Some(content) => {
                assert(buffer@.len() > 0 ==> decode_utf8(buffer@).len() > 0);
                match Document::new(content, filename.to_owned()) {
                    Ok(d) => Ok(d),
                    Err(e) => Err(ParseError::EmptyContent(e)),
                }
            },
        }
    }
}

} // verus!
