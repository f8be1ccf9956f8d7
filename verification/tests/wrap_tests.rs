//! Wrapping and splitting behaviour on concrete inputs.

use rs_console::wrap::{split_text, wrap_segment};

fn chars_of(s: &str) -> Vec<char> {
    let mut v = Vec::new();
    for c in s.chars() {
        v.push(c);
    }
    v
}

#[test]
fn short_segment_is_one_chunk() {
    let out = wrap_segment(&chars_of("abc"), 5);
    assert_eq!(out.len(), 1);
    assert_eq!(out[0], chars_of("abc"));
}

#[test]
fn exact_width_segment_is_one_chunk() {
    let out = wrap_segment(&chars_of("abcde"), 5);
    assert_eq!(out.len(), 1);
    assert_eq!(out[0], chars_of("abcde"));
}

#[test]
fn one_over_width_gives_two_chunks_second_of_one() {
    let out = wrap_segment(&chars_of("abcdef"), 5);
    assert_eq!(out.len(), 2);
    assert_eq!(out[0], chars_of("abcde"));
    assert_eq!(out[1], chars_of("f"));
}

#[test]
fn empty_segment_is_one_empty_chunk() {
    let out = wrap_segment(&chars_of(""), 4);
    assert_eq!(out.len(), 1);
    assert_eq!(out[0], Vec::<char>::new());
}

#[test]
fn chunks_concatenate_back_to_the_segment() {
    let seg = chars_of("the quick brown fox jumps over the lazy dog");
    let out = wrap_segment(&seg, 7);
    let mut glued: Vec<char> = Vec::new();
    for chunk in &out {
        assert!(chunk.len() <= 7);
        glued.extend_from_slice(chunk);
    }
    assert_eq!(glued, seg);
}

#[test]
fn wrap_counts_characters_not_bytes() {
    let seg = chars_of("ééβ");
    let out = wrap_segment(&seg, 2);
    assert_eq!(out.len(), 2);
    assert_eq!(out[0], chars_of("éé"));
    assert_eq!(out[1], chars_of("β"));
}

#[test]
fn split_preserves_empty_segments() {
    let out = split_text(&chars_of("a\n\nb"));
    assert_eq!(out.len(), 3);
    assert_eq!(out[0], chars_of("a"));
    assert_eq!(out[1], Vec::<char>::new());
    assert_eq!(out[2], chars_of("b"));
}

#[test]
fn split_keeps_trailing_empty_segment() {
    let out = split_text(&chars_of("a\n"));
    assert_eq!(out.len(), 2);
    assert_eq!(out[0], chars_of("a"));
    assert_eq!(out[1], Vec::<char>::new());
}

#[test]
fn split_of_empty_text_is_one_empty_segment() {
    let out = split_text(&chars_of(""));
    assert_eq!(out.len(), 1);
    assert_eq!(out[0], Vec::<char>::new());
}
