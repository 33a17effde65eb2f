//! Tests for the byte-text primitives and the template renderer.
use jinx::render::{
    author_marker_bytes, int_to_digits, name_marker_bytes, render, replace_all_bytes,
    year_marker_bytes,
};
use jinx::text::{
    bytes_eq, concat_bytes, join_underscore, lex_le_bytes, lower_bytes, sort_tokens, split_tokens,
    str_to_bytes, trim_bytes,
};

#[test]
fn trim_removes_edge_whitespace() {
    assert_eq!(trim_bytes(&b"  hello \t\n".to_vec()), b"hello".to_vec());
    assert_eq!(trim_bytes(&b"hello".to_vec()), b"hello".to_vec());
    assert_eq!(trim_bytes(&b" \t \r\n ".to_vec()), Vec::<u8>::new());
    assert_eq!(trim_bytes(&b"".to_vec()), Vec::<u8>::new());
    assert_eq!(trim_bytes(&b"a b".to_vec()), b"a b".to_vec());
}

#[test]
fn lower_maps_ascii_only() {
    assert_eq!(lower_bytes(&b"MIT Apache-2.0".to_vec()), b"mit apache-2.0".to_vec());
    assert_eq!(lower_bytes(&b"already lower 123".to_vec()), b"already lower 123".to_vec());
}

#[test]
fn split_tokens_on_whitespace() {
    let toks = split_tokens(&b"  rust  python\tts \n".to_vec());
    assert_eq!(toks, vec![b"rust".to_vec(), b"python".to_vec(), b"ts".to_vec()]);
    assert_eq!(split_tokens(&b"".to_vec()), Vec::<Vec<u8>>::new());
    assert_eq!(split_tokens(&b"   ".to_vec()), Vec::<Vec<u8>>::new());
    assert_eq!(split_tokens(&b"one".to_vec()), vec![b"one".to_vec()]);
}

#[test]
fn lex_order_is_bytewise() {
    assert!(lex_le_bytes(&b"apache".to_vec(), &b"mit".to_vec()));
    assert!(!lex_le_bytes(&b"mit".to_vec(), &b"apache".to_vec()));
    assert!(lex_le_bytes(&b"a".to_vec(), &b"ab".to_vec()));
    assert!(!lex_le_bytes(&b"ab".to_vec(), &b"a".to_vec()));
    assert!(lex_le_bytes(&b"same".to_vec(), &b"same".to_vec()));
    assert!(lex_le_bytes(&b"".to_vec(), &b"x".to_vec()));
}

#[test]
fn sort_tokens_sorts_lexicographically() {
    let sorted = sort_tokens(&vec![b"mit".to_vec(), b"apache".to_vec()]);
    assert_eq!(sorted, vec![b"apache".to_vec(), b"mit".to_vec()]);
    let sorted = sort_tokens(&vec![b"c".to_vec(), b"a".to_vec(), b"b".to_vec(), b"a".to_vec()]);
    assert_eq!(sorted, vec![b"a".to_vec(), b"a".to_vec(), b"b".to_vec(), b"c".to_vec()]);
    assert_eq!(sort_tokens(&Vec::new()), Vec::<Vec<u8>>::new());
}

#[test]
fn join_with_underscores() {
    assert_eq!(
        join_underscore(&vec![b"apache".to_vec(), b"mit".to_vec()]),
        b"apache_mit".to_vec()
    );
    assert_eq!(join_underscore(&vec![b"mit".to_vec()]), b"mit".to_vec());
    assert_eq!(join_underscore(&Vec::new()), Vec::<u8>::new());
}

#[test]
fn byte_helpers() {
    assert!(bytes_eq(&b"abc".to_vec(), &b"abc".to_vec()));
    assert!(!bytes_eq(&b"abc".to_vec(), &b"abd".to_vec()));
    assert!(!bytes_eq(&b"abc".to_vec(), &b"ab".to_vec()));
    assert_eq!(concat_bytes(&b"ab".to_vec(), &b"cd".to_vec()), b"abcd".to_vec());
    assert_eq!(str_to_bytes("mit"), b"mit".to_vec());
}

#[test]
fn markers_are_the_fixed_literals() {
    assert_eq!(name_marker_bytes(), b"$$PROJECT_NAME".to_vec());
    assert_eq!(year_marker_bytes(), b"$$CURRENT_YEAR".to_vec());
    assert_eq!(author_marker_bytes(), b"$$PROJECT_AUTHOR".to_vec());
}

#[test]
fn int_to_digits_decimal() {
    assert_eq!(int_to_digits(2026), b"2026".to_vec());
    assert_eq!(int_to_digits(0), b"0".to_vec());
    assert_eq!(int_to_digits(7), b"7".to_vec());
    assert_eq!(int_to_digits(-45), b"-45".to_vec());
    assert_eq!(int_to_digits(i32::MAX), b"2147483647".to_vec());
    assert_eq!(int_to_digits(i32::MIN), b"-2147483648".to_vec());
}

#[test]
fn replace_all_replaces_every_occurrence() {
    let text = b"x $$PROJECT_AUTHOR y $$PROJECT_AUTHOR z".to_vec();
    let out = replace_all_bytes(&text, &b"$$PROJECT_AUTHOR".to_vec(), &b"Jane Doe".to_vec());
    assert_eq!(out, b"x Jane Doe y Jane Doe z".to_vec());
}

#[test]
fn replace_all_leaves_plain_text_alone() {
    let text = b"no markers here at all".to_vec();
    let out = replace_all_bytes(&text, &b"$$PROJECT_NAME".to_vec(), &b"demo".to_vec());
    assert_eq!(out, text);
}

#[test]
fn render_is_identity_without_markers() {
    let text = b"# A plain readme\n\nNothing to substitute.\n".to_vec();
    let out = render(&text, &b"demo".to_vec(), 2026, &b"Jane Doe".to_vec());
    assert_eq!(out, text);
}

#[test]
fn render_substitutes_all_three_markers() {
    let text = b"# $$PROJECT_NAME\nCopyright (c) $$CURRENT_YEAR $$PROJECT_AUTHOR\n".to_vec();
    let out = render(&text, &b"demo".to_vec(), 2026, &b"Jane Doe".to_vec());
    assert_eq!(out, b"# demo\nCopyright (c) 2026 Jane Doe\n".to_vec());
}

#[test]
fn render_repeated_author_marker_shows_value_twice() {
    let text = b"$$PROJECT_AUTHOR and $$PROJECT_AUTHOR".to_vec();
    let out = render(&text, &b"demo".to_vec(), 2026, &b"Jane Doe".to_vec());
    assert_eq!(out, b"Jane Doe and Jane Doe".to_vec());
}

#[test]
fn render_keeps_unknown_markers_verbatim() {
    let text = b"$$SOMETHING_ELSE stays".to_vec();
    let out = render(&text, &b"demo".to_vec(), 2026, &b"Jane Doe".to_vec());
    assert_eq!(out, text);
}

#[test]
fn render_negative_year() {
    let text = b"year $$CURRENT_YEAR".to_vec();
    let out = render(&text, &b"demo".to_vec(), -44, &b"a".to_vec());
    assert_eq!(out, b"year -44".to_vec());
}
