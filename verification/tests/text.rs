use harbor_kv::codec::key_to_string;
use harbor_kv::fts::{text_matches, tokenize};
use harbor_kv::sanitize::sanitize_table_name;

#[test]
fn sanitize_passes_alphanumerics_and_underscore() {
    assert_eq!(sanitize_table_name("notes_2024"), "notes_2024");
    assert_eq!(sanitize_table_name("ABCxyz09_"), "ABCxyz09_");
}

#[test]
fn sanitize_replaces_every_unsafe_character() {
    assert_eq!(sanitize_table_name("my-table"), "my_table");
    assert_eq!(sanitize_table_name("a b.c/d"), "a_b_c_d");
    assert_eq!(sanitize_table_name("drop table; --"), "drop_table____");
}

#[test]
fn sanitize_keeps_unicode_letters() {
    assert_eq!(sanitize_table_name("café"), "café");
    assert_eq!(sanitize_table_name("café!"), "café_");
}

#[test]
fn sanitize_is_total_on_empty_input() {
    assert_eq!(sanitize_table_name(""), "");
}

#[test]
fn key_joins_segments_with_slash() {
    let key = vec!["2024".to_string(), "01".to_string(), "01".to_string()];
    assert_eq!(key_to_string(&key), "2024/01/01");
}

#[test]
fn key_of_single_segment_is_itself() {
    assert_eq!(key_to_string(&["solo".to_string()]), "solo");
}

#[test]
fn key_of_no_segments_is_empty() {
    assert_eq!(key_to_string(&[]), "");
}

#[test]
fn key_encoding_does_not_escape_separators() {
    // A segment containing '/' collides with a segment boundary: the codec
    // is a plain join, so both spellings name the same storage key.
    let a = key_to_string(&["a/b".to_string(), "c".to_string()]);
    let b = key_to_string(&["a".to_string(), "b/c".to_string()]);
    assert_eq!(a, b);
    assert_eq!(a, "a/b/c");
}

#[test]
fn tokenize_splits_on_non_alphanumerics() {
    assert_eq!(tokenize("hello world"), vec!["hello", "world"]);
    assert_eq!(tokenize("a-b_c.d"), vec!["a", "b", "c", "d"]);
    assert_eq!(tokenize("  spaced   out  "), vec!["spaced", "out"]);
}

#[test]
fn tokenize_keeps_digits_inside_tokens() {
    assert_eq!(tokenize("es2020 target"), vec!["es2020", "target"]);
}

#[test]
fn tokenize_of_separators_only_is_empty() {
    assert_eq!(tokenize("... !!! ---"), Vec::<String>::new());
    assert_eq!(tokenize(""), Vec::<String>::new());
}

#[test]
fn text_match_needs_all_query_tokens() {
    let q = tokenize("quick fox");
    assert!(text_matches(&q, "the quick brown fox"));
    assert!(!text_matches(&q, "the quick brown bear"));
}

#[test]
fn text_match_is_token_level_not_substring() {
    let q = tokenize("qui");
    assert!(!text_matches(&q, "the quick brown fox"));
}
