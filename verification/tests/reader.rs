use timing_oracle::candidate::prompt;
use timing_oracle::reader::{read_until_slice, DelimiterMatcher};

#[test]
fn delimiter_found_mid_stream() {
    let pattern = vec![1u8, 2, 3];
    let stream = vec![9u8, 9, 1, 2, 3, 7, 7];
    let mut out: Vec<u8> = Vec::new();
    let r = read_until_slice(&pattern, &stream, &mut out);
    assert_eq!(r, Some(5));
    assert_eq!(out, vec![9u8, 9, 1, 2, 3]);
}

#[test]
fn count_is_at_least_delimiter_length() {
    let pattern = vec![4u8, 5];
    let stream = vec![4u8, 5, 0, 0];
    let mut out: Vec<u8> = Vec::new();
    let r = read_until_slice(&pattern, &stream, &mut out);
    assert_eq!(r, Some(2));
    assert!(r.unwrap() >= pattern.len());
}

#[test]
fn second_read_starts_after_first_occurrence() {
    let pattern = vec![1u8, 2];
    let stream = vec![0u8, 1, 2, 8, 1, 2, 9];
    let mut out: Vec<u8> = Vec::new();
    let first = read_until_slice(&pattern, &stream, &mut out).unwrap();
    assert_eq!(first, 3);
    let rest: Vec<u8> = stream[first..].to_vec();
    let mut out2: Vec<u8> = Vec::new();
    let second = read_until_slice(&pattern, &rest, &mut out2).unwrap();
    assert_eq!(second, 3);
    assert_eq!(out2, vec![8u8, 1, 2]);
}

#[test]
fn missing_delimiter_fails() {
    let pattern = vec![1u8, 2, 3];
    let stream = vec![1u8, 2, 9, 1, 2];
    let mut out: Vec<u8> = Vec::new();
    let r = read_until_slice(&pattern, &stream, &mut out);
    assert_eq!(r, None);
    assert_eq!(out, stream);
}

#[test]
fn truncated_match_fails() {
    let pattern = vec![6u8, 7, 8];
    let stream = vec![0u8, 6, 7];
    let mut out: Vec<u8> = Vec::new();
    assert_eq!(read_until_slice(&pattern, &stream, &mut out), None);
}

#[test]
fn empty_stream_fails() {
    let pattern = vec![1u8];
    let stream: Vec<u8> = Vec::new();
    let mut out: Vec<u8> = Vec::new();
    assert_eq!(read_until_slice(&pattern, &stream, &mut out), None);
    assert!(out.is_empty());
}

#[test]
fn naive_restart_misses_overlapped_occurrence() {
    // Known limitation of the reset-on-mismatch matcher: the delimiter
    // occurs at offset 1, but the mismatching byte is not retried as a
    // fresh start, so the occurrence is passed over.
    let pattern = vec![1u8, 2];
    let stream = vec![1u8, 1, 2];
    let mut out: Vec<u8> = Vec::new();
    assert_eq!(read_until_slice(&pattern, &stream, &mut out), None);
}

#[test]
fn matcher_reports_match_on_last_byte() {
    let mut m = DelimiterMatcher::new(vec![1u8, 2]);
    assert!(!m.step(5));
    assert!(!m.step(1));
    assert!(m.step(2));
}

#[test]
fn matcher_resets_on_mismatch() {
    let mut m = DelimiterMatcher::new(vec![1u8, 2]);
    assert!(!m.step(1));
    assert!(!m.step(9));
    assert!(!m.step(1));
    assert!(m.step(2));
}

#[test]
fn prompt_is_the_oracle_greeting() {
    assert_eq!(prompt(), b"Guess the flag >>> ".to_vec());
}

#[test]
fn reader_skips_exactly_the_prompt() {
    let mut stream = prompt();
    stream.extend_from_slice(b"secret body");
    let mut out: Vec<u8> = Vec::new();
    let r = read_until_slice(&prompt(), &stream, &mut out);
    assert_eq!(r, Some(19));
    assert_eq!(out, prompt());
}
