//! The document record: content, source identifier and word count.

use vstd::prelude::*;

use crate::text::{chars_of, count_words, word_count_of};

verus! {

/// The message of the error raised for empty content.
pub open spec fn empty_content_message() -> Seq<char> {
    "Document content cannot be empty"@
}

/// Why a document could not be built.
#[derive(Debug, Clone)]
pub struct DocumentError {
    message: String,
}

impl DocumentError {
    /// The human-readable message carried by the error.
    pub closed spec fn spec_message(&self) -> Seq<char> {
        self.message@
    }

    fn empty_content() -> (r: DocumentError)
        ensures
            r.spec_message() == empty_content_message(),
    {
        DocumentError { message: String::from_str("Document content cannot be empty") }
    }

    /// The message, as text.
    pub fn message(&self) -> (r: String)
        ensures
            r@ == self.spec_message(),
    {
        self.message.clone()
    }
}

/// A parsed document. Its content is never empty, and its word count is
/// always that of its content.
#[derive(Debug)]
pub struct Document {
    content: String,
    source: String,
    word_count: usize,
}

impl Document {
    #[verifier::type_invariant]
    spec fn well_formed(&self) -> bool {
        &&& self.content@.len() > 0
        &&& self.word_count == count_words(self.content@)
    }

    /// The text of the document.
    pub closed spec fn spec_content(&self) -> Seq<char> {
        self.content@
    }

    /// Where the document came from (a file name, say).
    pub closed spec fn spec_source(&self) -> Seq<char> {
        self.source@
    }

    /// Builds a document from its content and source. Fails exactly when the
    /// content is empty; whitespace-only content is accepted, with no words.
    pub fn new(content: String, source: String) -> (r: Result<Document, DocumentError>)
        ensures
            content@.len() == 0 <==> r is Err,
            r matches Err(e) ==> e.spec_message() == empty_content_message(),
            r matches Ok(d) ==> {
                &&& d.spec_content() == content@
                &&& d.spec_source() == source@
                &&& d.spec_word_count() == count_words(content@)
            },
    {
        if content.as_str().is_empty() {
            return Err(DocumentError::empty_content());
        }
        let chars = chars_of(content.as_str());
        let word_count = word_count_of(&chars);
        Ok(Document { content, source, word_count })
    }

    /// The number of words of the document.
    pub open spec fn spec_word_count(&self) -> nat {
        count_words(self.spec_content())
    }

    /// The text of the document; never empty.
    pub fn content(&self) -> (r: &str)
        ensures
            r@ == self.spec_content(),
            r@.len() > 0,
    {
        proof {
            use_type_invariant(self);
        }
        self.content.as_str()
    }

    /// The source identifier of the document.
    pub fn source(&self) -> (r: &str)
        ensures
            r@ == self.spec_source(),
    {
        self.source.as_str()
    }

    /// The number of whitespace-separated words in the content.
    pub fn word_count(&self) -> (r: usize)
        ensures
            r == self.spec_word_count(),
    {
        proof {
            use_type_invariant(self);
        }
        self.word_count
    }
}

impl Clone for Document {
    fn clone(&self) -> (r: Self)
        ensures
            r.spec_content() == self.spec_content(),
            r.spec_source() == self.spec_source(),
    {
        proof {
            use_type_invariant(self);
        }
        Document {
            content: self.content.clone(),
            source: self.source.clone(),
            word_count: self.word_count,
        }
    }
}

} // verus!
