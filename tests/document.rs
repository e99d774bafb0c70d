use chunking::document::Document;

#[test]
fn test_document_creation() {
    let doc = Document::new("Hello world".to_string(), "test.txt".to_string()).unwrap();
    assert_eq!(doc.word_count(), 2);
}

#[test]
fn test_empty_content_error() {
    let result = Document::new("".to_string(), "test.txt".to_string());
    assert!(result.is_err());
}

#[test]
fn empty_content_error_message() {
    let err = Document::new(String::new(), "a.txt".to_string()).unwrap_err();
    assert_eq!(err.message(), "Document content cannot be empty");
}

#[test]
fn accessors_return_what_was_given() {
    let doc = Document::new("  one two  ".to_string(), "notes.txt".to_string()).unwrap();
    assert_eq!(doc.content(), "  one two  ");
    assert_eq!(doc.source(), "notes.txt");
    assert_eq!(doc.word_count(), 2);
}

#[test]
fn whitespace_runs_collapse_in_word_count() {
    let doc = Document::new("\tHello \n\n  big\r\nworld  ".to_string(), "s".to_string()).unwrap();
    assert_eq!(doc.word_count(), 3);
}

#[test]
fn whitespace_only_content_has_no_words() {
    let doc = Document::new("   \n\t ".to_string(), "s".to_string()).unwrap();
    assert_eq!(doc.word_count(), 0);
}

#[test]
fn unicode_spaces_separate_words() {
    let doc = Document::new("a\u{3000}b\u{00a0}c\u{2009}d".to_string(), "s".to_string()).unwrap();
    assert_eq!(doc.word_count(), 4);
    let doc = Document::new("x\u{200b}y".to_string(), "s".to_string()).unwrap();
    assert_eq!(doc.word_count(), 1);
}

#[test]
fn single_word_document() {
    let doc = Document::new("word".to_string(), String::new()).unwrap();
    assert_eq!(doc.word_count(), 1);
    assert_eq!(doc.source(), "");
}

#[test]
fn cloned_document_keeps_its_fields() {
    let doc = Document::new("a b c".to_string(), "f".to_string()).unwrap();
    let copy = doc.clone();
    assert_eq!(copy.content(), "a b c");
    assert_eq!(copy.source(), "f");
    assert_eq!(copy.word_count(), 3);
}
