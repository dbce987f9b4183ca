use quix::json::{take_optional_text, take_required_text, JsonProbe};
use quix::policy::{has_segment_exec, is_excluded, normalize};
use quix::text::{
    chars_of, contains_chars, find_char, hex_of, push_decimal, push_json_escaped, replace_char,
    str_contains, str_eq, str_starts_with, string_of, string_of_range,
};

#[test]
fn characters_round_trip() {
    let text = "héllo 🔮";
    assert_eq!(string_of(&chars_of(text)), text);
    assert_eq!(chars_of(text).len(), 7);
    assert_eq!(string_of_range(&chars_of(text), 1, 3), "él");
    assert_eq!(string_of(&Vec::new()), "");
}

#[test]
fn substring_search_finds_every_position() {
    assert!(str_contains("abc", ""));
    assert!(str_contains("", ""));
    assert!(!str_contains("", "a"));
    assert!(str_contains("abc", "abc"));
    assert!(str_contains("xxabc", "abc"));
    assert!(str_contains("abcxx", "abc"));
    assert!(!str_contains("ab", "abc"));
    assert!(!str_contains("abxc", "abc"));
    assert!(contains_chars(&chars_of("aab"), &chars_of("ab")));
    assert!(str_starts_with("abc", "ab"));
    assert!(!str_starts_with("abc", "bc"));
    assert!(str_starts_with("abc", ""));
    assert!(str_eq("abc", "abc"));
    assert!(!str_eq("abc", "abd"));
    assert!(!str_eq("abc", "ab"));
    assert!(str_eq("", ""));
}

#[test]
fn characters_are_replaced_and_found() {
    assert_eq!(string_of(&replace_char(&chars_of("a\\b\\c"), '\\', '/')), "a/b/c");
    assert_eq!(find_char(&chars_of("host:x"), ':'), 4);
    assert_eq!(find_char(&chars_of("host"), ':'), 4);
    assert_eq!(find_char(&chars_of(""), ':'), 0);
    assert_eq!(string_of(&normalize("a\\b/c")), "a/b/c");
}

#[test]
fn numbers_are_written_in_decimal() {
    let mut out = String::from("n=");
    push_decimal(&mut out, 0);
    assert_eq!(out, "n=0");
    let mut out = String::new();
    push_decimal(&mut out, 9);
    push_decimal(&mut out, 10);
    push_decimal(&mut out, 1005);
    assert_eq!(out, "9101005");
    let mut out = String::new();
    push_decimal(&mut out, usize::MAX);
    assert_eq!(out, usize::MAX.to_string());
}

#[test]
fn segments_are_whole_names() {
    let has = |path: &str, name: &str| has_segment_exec(&chars_of(path), &chars_of(name));
    assert!(has(".git", ".git"));
    assert!(has("a/.git", ".git"));
    assert!(has(".git/a", ".git"));
    assert!(has("a/.git/b", ".git"));
    assert!(!has("a/.gitignore", ".git"));
    assert!(!has("a/x.git", ".git"));
    assert!(!has("a", ""));
    assert!(has("a/b/c", "b/c"));
    assert!(!is_excluded("src/.github/workflows", &Vec::new()));
    assert!(is_excluded("src\\.git\\HEAD", &Vec::new()));
    assert!(is_excluded("node_modules", &Vec::new()));
}

#[test]
fn probes_give_optional_and_required_texts() {
    assert_eq!(take_optional_text(JsonProbe::Absent), Some(None));
    assert_eq!(take_optional_text(JsonProbe::Null), Some(None));
    assert_eq!(
        take_optional_text(JsonProbe::Text("a".to_string())),
        Some(Some("a".to_string()))
    );
    assert_eq!(take_optional_text(JsonProbe::Object), None);
    assert_eq!(take_optional_text(JsonProbe::Other), None);
    assert_eq!(take_optional_text(JsonProbe::Malformed), None);
    assert_eq!(take_required_text(JsonProbe::Text("a".to_string())), Some("a".to_string()));
    assert_eq!(take_required_text(JsonProbe::Null), None);
    assert_eq!(take_required_text(JsonProbe::Absent), None);
}

#[test]
fn texts_are_escaped_for_json() {
    let escaped = |text: &str| {
        let mut out = String::from("<");
        push_json_escaped(&mut out, text);
        out
    };
    assert_eq!(escaped("plain /path.ts"), "<plain /path.ts");
    assert_eq!(escaped("a\"b"), "<a\\\"b");
    assert_eq!(escaped("a\\b"), "<a\\\\b");
    assert_eq!(escaped("\t\r\n\u{0}\u{1f}"), "<\\u0009\\u000d\\u000a\\u0000\\u001f");
    assert_eq!(escaped(" \u{7f}é🔮"), "< \u{7f}é🔮");
    assert_eq!(escaped(""), "<");
    assert_eq!(hex_of(0), '0');
    assert_eq!(hex_of(9), '9');
    assert_eq!(hex_of(10), 'a');
    assert_eq!(hex_of(15), 'f');
}
