use kube_cel::strings::{
    char_at, join, lower_ascii, string_index_of, string_last_index_of, string_replace, string_reverse,
    string_split, strings_quote, substring, trim, upper_ascii,
};

fn owned(v: &[&str]) -> Vec<String> {
    v.iter().map(|s| s.to_string()).collect()
}

#[test]
fn test_char_at() {
    assert_eq!(char_at("hello", 0).unwrap(), "h");
    assert_eq!(char_at("hello", 4).unwrap(), "o");
}

#[test]
fn test_index_of() {
    assert_eq!(string_index_of("hello world", "world", None), 6);
    assert_eq!(string_index_of("hello", "x", None), -1);
    assert_eq!(string_index_of("hello", "", None), 0);
}

#[test]
fn test_last_index_of() {
    assert_eq!(string_last_index_of("abcabc", "abc", None), 3);
    assert_eq!(string_last_index_of("hello", "x", None), -1);
}

#[test]
fn test_lower_upper_ascii() {
    assert_eq!(lower_ascii("Hello World"), "hello world");
    assert_eq!(upper_ascii("Hello World"), "HELLO WORLD");
}

#[test]
fn test_trim() {
    assert_eq!(trim("  hello  "), "hello");
}

#[test]
fn test_split() {
    assert_eq!(string_split("a,b,c", ",", None), owned(&["a", "b", "c"]));
}

#[test]
fn test_join() {
    assert_eq!(join(&owned(&["a", "b", "c"]), "-"), "a-b-c");
}

#[test]
fn test_replace() {
    assert_eq!(string_replace("hello world", "world", "CEL", None), "hello CEL");
}

#[test]
fn test_substring() {
    assert_eq!(substring("hello", 1, None).unwrap(), "ello");
}

#[test]
fn test_strings_quote() {
    assert_eq!(strings_quote("hello"), "\"hello\"");
}

#[test]
fn test_char_at_out_of_bounds() {
    assert!(char_at("hello", -1).is_err());
    assert!(char_at("hello", 5).is_err());
}

#[test]
fn test_char_at_unicode() {
    assert_eq!(char_at("héllo", 1).unwrap(), "é");
}

#[test]
fn test_index_of_with_offset() {
    assert_eq!(string_index_of("abcabc", "abc", Some(1)), 3);
    assert_eq!(string_index_of("hello", "h", Some(-5)), 0);
    assert_eq!(string_index_of("hello", "h", Some(100)), -1);
}

#[test]
fn test_last_index_of_with_offset() {
    assert_eq!(string_last_index_of("abcabc", "abc", Some(3)), 0);
    assert_eq!(string_last_index_of("hello", "", Some(3)), 3);
}

#[test]
fn test_substring_two_args() {
    assert_eq!(substring("hello", 1, Some(3)).unwrap(), "el");
}

#[test]
fn test_substring_errors() {
    assert!(substring("hello", -1, None).is_err());
    assert!(substring("hello", 10, None).is_err());
    assert!(substring("hello", 3, Some(2)).is_err());
    assert!(substring("hello", 0, Some(10)).is_err());
}

#[test]
fn test_replace_with_count() {
    assert_eq!(string_replace("aaa", "a", "b", Some(2)), "bba");
    assert_eq!(string_replace("aaa", "a", "b", Some(0)), "aaa");
}

#[test]
fn test_split_with_limit() {
    assert_eq!(string_split("a,b,c", ",", Some(2)), owned(&["a", "b,c"]));
}

#[test]
fn test_join_no_separator() {
    assert_eq!(join(&owned(&["a", "b", "c"]), ""), "abc");
}

#[test]
fn test_string_reverse() {
    assert_eq!(string_reverse("hello"), "olleh");
    assert_eq!(string_reverse(""), "");
    assert_eq!(string_reverse("a"), "a");
}

#[test]
fn test_strings_quote_escapes() {
    assert_eq!(strings_quote("a\nb"), "\"a\\nb\"");
    assert_eq!(strings_quote("a\tb"), "\"a\\tb\"");
}

// Edge cases of this library.

#[test]
fn replace_with_empty_pattern_inserts_between_chars() {
    assert_eq!(string_replace("ab", "", "-", None), "-a-b-");
}

#[test]
fn split_with_empty_separator_splits_chars() {
    assert_eq!(string_split("abc", "", None), owned(&["", "a", "b", "c", ""]));
}

#[test]
fn reverse_twice_is_identity() {
    let s = "héllo wörld";
    assert_eq!(string_reverse(&string_reverse(s)), s);
}

#[test]
fn char_at_error_names_the_index() {
    let e = char_at("abc", 7).unwrap_err();
    assert!(e.contains('7'));
}

#[test]
fn extension_trim_lower_ascii() {
    assert_eq!(lower_ascii(&trim("  Hello World  ")), "hello world");
}

#[test]
fn test_integration_strings() {
    assert_eq!(char_at("hello", 1).unwrap(), "e");
    assert_eq!(lower_ascii("HELLO"), "hello");
    assert_eq!(trim("  hello  "), "hello");
}

#[test]
fn test_dispatch_index_of_string() {
    assert_eq!(string_index_of("hello world", "world", None), 6);
    assert_eq!(string_index_of("hello", "x", None), -1);
}

#[test]
fn test_dispatch_last_index_of_string() {
    assert_eq!(string_last_index_of("abcabc", "abc", None), 3);
}
