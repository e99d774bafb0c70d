use chunking::chunker::TextChunker;

#[test]
fn chunks_split_when_next_sentence_overflows() {
    let c = TextChunker::new(20);
    assert_eq!(
        c.chunk("Hello world. This is a test. Short."),
        vec!["Hello world", "This is a test", "Short."]
    );
}

#[test]
fn chunks_gather_sentences_that_fit() {
    // "A" + ". " + "B" is four characters and fits in five; adding "C."
    // would make eight.
    let c = TextChunker::new(5);
    assert_eq!(c.chunk("A. B. C."), vec!["A. B", "C."]);
}

#[test]
fn empty_text_has_no_chunks() {
    assert_eq!(TextChunker::new(10).chunk(""), Vec::<String>::new());
    assert_eq!(TextChunker::new(1).chunk(""), Vec::<String>::new());
}

#[test]
fn short_text_is_one_trimmed_chunk() {
    let c = TextChunker::new(40);
    assert_eq!(c.chunk("  One. Two. Three.  "), vec!["One. Two. Three."]);
    assert_eq!(c.chunk("no separator here"), vec!["no separator here"]);
    let exact = "abcde. fgh";
    assert_eq!(TextChunker::new(exact.chars().count()).chunk(exact), vec![exact]);
}

#[test]
fn oversized_segment_is_never_split() {
    let c = TextChunker::new(5);
    assert_eq!(c.chunk("abcdefghij"), vec!["abcdefghij"]);
    assert_eq!(c.chunk("ab. abcdefghij. cd"), vec!["ab", "abcdefghij", "cd"]);
}

#[test]
fn leading_separators_are_not_restored() {
    let c = TextChunker::new(10);
    assert_eq!(c.chunk(". x"), vec!["x"]);
    assert_eq!(c.chunk(". "), Vec::<String>::new());
}

#[test]
fn whitespace_only_text_gives_one_empty_chunk() {
    assert_eq!(TextChunker::new(10).chunk("   "), vec![""]);
}

#[test]
fn chunk_size_counts_characters_with_separator() {
    // "ab" + ". " + "cd" is six characters.
    assert_eq!(TextChunker::new(6).chunk("ab. cd"), vec!["ab. cd"]);
    assert_eq!(TextChunker::new(5).chunk("ab. cd"), vec!["ab", "cd"]);
    // Multi-byte characters count once each.
    assert_eq!(TextChunker::new(6).chunk("éé. üü"), vec!["éé. üü"]);
}

#[test]
fn chunks_are_trimmed() {
    let c = TextChunker::new(4);
    assert_eq!(c.chunk(" a . b  . c"), vec!["a", "b", "c"]);
}

#[test]
fn zero_chunk_size_puts_each_segment_alone() {
    assert_eq!(TextChunker::new(0).chunk("a. b. c"), vec!["a", "b", "c"]);
}

#[test]
fn empty_segments_between_separators() {
    let c = TextChunker::new(100);
    assert_eq!(c.chunk("a. . b"), vec!["a. . b"]);
}
