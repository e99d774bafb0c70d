use chunking::parser::{same_text, DocumentParser, ParseError, TextParser};

#[test]
fn text_parser_supports_plain_text_only() {
    let p = TextParser;
    assert!(p.supports("text/plain"));
    assert!(!p.supports("text/Plain"));
    assert!(!p.supports("text/plain "));
    assert!(!p.supports("text/"));
    assert!(!p.supports("text/*"));
    assert!(!p.supports("application/json"));
    assert!(!p.supports(""));
}

#[test]
fn parse_valid_utf8() {
    let doc = TextParser.parse("Hello wörld".as_bytes(), "greeting.txt").unwrap();
    assert_eq!(doc.content(), "Hello wörld");
    assert_eq!(doc.source(), "greeting.txt");
    assert_eq!(doc.word_count(), 2);
}

#[test]
fn parse_keeps_content_untrimmed() {
    let doc = TextParser.parse(b"  padded  ", "p").unwrap();
    assert_eq!(doc.content(), "  padded  ");
    assert_eq!(doc.word_count(), 1);
}

#[test]
fn parse_invalid_utf8_is_decode_failure() {
    let r = TextParser.parse(&[0x66, 0x6f, 0xff, 0x6f], "bad.txt");
    assert!(matches!(r, Err(ParseError::DecodeFailure)));
    let r = TextParser.parse(&[0xed, 0xa0, 0x80], "surrogate.txt");
    assert!(matches!(r, Err(ParseError::DecodeFailure)));
    let r = TextParser.parse(&[0xc0, 0xaf], "overlong.txt");
    assert!(matches!(r, Err(ParseError::DecodeFailure)));
}

#[test]
fn parse_empty_buffer_is_empty_content() {
    let r = TextParser.parse(&[], "empty.txt");
    match r {
        Err(ParseError::EmptyContent(e)) => {
            assert_eq!(e.message(), "Document content cannot be empty")
        }
        _ => panic!("expected an empty-content error"),
    }
}

#[test]
fn same_text_compares_characters() {
    assert!(same_text("abc", "abc"));
    assert!(!same_text("abc", "abd"));
    assert!(!same_text("abc", "ab"));
    assert!(same_text("", ""));
}
