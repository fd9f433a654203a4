use rag_core::chunker::{chunk_text, is_blank_text};

#[test]
fn scenario_a_splits_on_blank_line() {
    let chunks = chunk_text("Intro text\n\nBody text", 500);
    assert_eq!(chunks, vec!["Intro text".to_string(), "Body text".to_string()]);
}

#[test]
fn chunking_is_deterministic() {
    let text = "First paragraph.\n\nSecond one, a little longer than the first.\n\n   \n\nlast";
    let a = chunk_text(text, 10);
    let b = chunk_text(text, 10);
    assert_eq!(a, b);
    assert_eq!(a.len(), b.len());
}

#[test]
fn empty_document_has_no_chunks() {
    assert!(chunk_text("", 500).is_empty());
}

#[test]
fn whitespace_document_has_no_chunks() {
    assert!(chunk_text(" \n\n\t \r\n \n\n ", 500).is_empty());
    assert!(is_blank_text(" \n\t"));
    assert!(!is_blank_text(" x "));
}

#[test]
fn long_paragraph_is_split_into_windows() {
    let chunks = chunk_text("abcdefg", 3);
    assert_eq!(chunks, vec!["abc".to_string(), "def".to_string(), "g".to_string()]);
}

#[test]
fn paragraph_of_exactly_target_size_is_one_chunk() {
    assert_eq!(chunk_text("abc\n\nde", 3), vec!["abc".to_string(), "de".to_string()]);
}

#[test]
fn blank_windows_are_dropped() {
    // the second window holds only spaces
    assert_eq!(chunk_text("ab  cd", 2), vec!["ab".to_string(), "cd".to_string()]);
}

#[test]
fn windows_count_characters_not_bytes() {
    assert_eq!(chunk_text("\u{e9}\u{e9}\u{e9}", 2), vec!["\u{e9}\u{e9}".to_string(), "\u{e9}".to_string()]);
}

#[test]
fn triple_line_feed_keeps_one_in_next_paragraph() {
    assert_eq!(chunk_text("a\n\n\nb", 500), vec!["a".to_string(), "\nb".to_string()]);
}

#[test]
fn zero_target_size_keeps_paragraphs_whole() {
    assert_eq!(chunk_text("abcdef\n\ngh", 0), vec!["abcdef".to_string(), "gh".to_string()]);
}

#[test]
fn unicode_whitespace_pieces_are_dropped() {
    assert!(chunk_text("\x0b", 500).is_empty());
    assert!(chunk_text("\u{3000}", 500).is_empty());
    assert!(chunk_text("\u{a0}\u{2009}\n\n\u{85}", 500).is_empty());
    assert!(is_blank_text("\x0b\u{3000}"));
    assert!(!is_blank_text("\u{feff}"));
    assert_eq!(chunk_text("a\n\n\u{3000}\n\nb", 500), vec!["a".to_string(), "b".to_string()]);
}

#[test]
fn crlf_blank_line_splits_paragraphs() {
    assert_eq!(chunk_text("Intro text\r\n\r\nBody text", 500), vec!["Intro text".to_string(), "Body text".to_string()]);
}

#[test]
fn blank_line_with_spaces_splits_paragraphs() {
    assert_eq!(chunk_text("one\n  \t \ntwo", 500), vec!["one".to_string(), "two".to_string()]);
}

#[test]
fn single_line_break_does_not_split() {
    assert_eq!(chunk_text("one\ntwo\r\nthree", 500), vec!["one\ntwo\r\nthree".to_string()]);
}

#[test]
fn every_chunk_is_non_blank_and_bounded() {
    let text = "alpha beta gamma\n\n   \n\ndelta\u{3000}epsilon zeta eta theta";
    for c in chunk_text(text, 7) {
        assert!(!c.trim().is_empty());
        assert!(c.chars().count() <= 7);
    }
}
