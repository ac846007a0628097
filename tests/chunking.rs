use vidkosha_cortex::binary::{is_probably_binary, is_probably_binary_with_threshold, Threshold};
use vidkosha_cortex::chunking::{chunk_spans, chunk_with_overlap};

#[test]
fn binary_detection_respects_threshold() {
    let data = b"text\x01\x02more";
    assert!(is_probably_binary_with_threshold(data, Threshold::per_million(200_000)));
    assert!(!is_probably_binary_with_threshold(data, Threshold::per_million(800_000)));
}

#[test]
fn nul_byte_is_binary_at_any_threshold() {
    assert!(is_probably_binary_with_threshold(b"plain\0text", Threshold::per_million(1_000_000)));
    assert!(is_probably_binary_with_threshold(b"plain\0text", Threshold::per_million(u32::MAX)));
}

#[test]
fn empty_buffer_is_not_binary() {
    assert!(!is_probably_binary_with_threshold(b"", Threshold::per_million(0)));
    assert!(!is_probably_binary(b""));
}

#[test]
fn threshold_above_one_is_clamped() {
    assert!(is_probably_binary_with_threshold(b"\x01\x02", Threshold::per_million(5_000_000)));
    assert!(!is_probably_binary_with_threshold(b"\x01a", Threshold::per_million(5_000_000)));
}

#[test]
fn whitespace_and_printable_ascii_are_text() {
    assert!(!is_probably_binary(b"line one\r\n\tline two\n"));
    assert!(is_probably_binary(b"\x80\x81\x82abc"));
}

#[test]
fn windows_overlap_by_the_configured_amount() {
    assert_eq!(chunk_spans(10, 4, 1), vec![(0, 4), (3, 7), (6, 10)]);
    let chunks = chunk_with_overlap("abcdefghij", 4, 1);
    assert_eq!(chunks, vec!["abcd", "defg", "ghij"]);
}

#[test]
fn last_window_may_overlap_less_than_configured() {
    assert_eq!(chunk_spans(7, 5, 3), vec![(0, 5), (2, 7)]);
    assert_eq!(chunk_spans(3, 5, 3), vec![(0, 3)]);
}

#[test]
fn zero_chunk_size_gives_no_chunks() {
    assert!(chunk_with_overlap("some text", 0, 0).is_empty());
    assert!(chunk_spans(9, 0, 4).is_empty());
}

#[test]
fn empty_text_gives_no_chunks() {
    assert!(chunk_with_overlap("", 8, 2).is_empty());
}

#[test]
fn windows_cut_inside_characters_decode_lossily() {
    let chunks = chunk_with_overlap("aé", 2, 0);
    assert_eq!(chunks, vec!["a\u{FFFD}".to_string(), "\u{FFFD}".to_string()]);
}
