use messaging_core::strutil::{char_is_space, join_words, split_words, str_eq, str_starts_with};
use messaging_core::transmute::{ascii_upper, remove_spaces};
use messaging_core::csv::split_on_char;

#[test]
fn words_split_on_any_whitespace_run() {
    assert_eq!(split_words("a b  c"), vec!["a", "b", "c"]);
    assert_eq!(split_words("  leading and trailing  "), vec![
        "leading",
        "and",
        "trailing"
    ]);
    assert_eq!(split_words("one\ttab\nnewline"), vec!["one", "tab", "newline"]);
    assert_eq!(split_words(""), Vec::<String>::new());
    assert_eq!(split_words("   "), Vec::<String>::new());
}

#[test]
fn joining_words_uses_single_spaces() {
    let ws: Vec<String> = vec!["a".into(), "b".into(), "c".into()];
    assert_eq!(join_words(&ws, 0), "a b c");
    assert_eq!(join_words(&ws, 1), "b c");
    assert_eq!(join_words(&ws, 3), "");
}

#[test]
fn prefix_and_equality_checks() {
    assert!(str_starts_with("hello world", "hello"));
    assert!(!str_starts_with("hell", "hello"));
    assert!(str_starts_with("x", ""));
    assert!(str_eq("same", "same"));
    assert!(!str_eq("same", "sane"));
    assert!(!str_eq("same", "same "));
}

#[test]
fn whitespace_covers_the_unicode_class() {
    assert!(char_is_space(' '));
    assert!(char_is_space('\t'));
    assert!(char_is_space('\n'));
    assert!(char_is_space('\u{a0}'));
    assert!(!char_is_space('a'));
    assert!(!char_is_space('.'));
}

#[test]
fn ascii_upper_touches_only_ascii_lowercase() {
    assert_eq!(ascii_upper('a'), 'A');
    assert_eq!(ascii_upper('z'), 'Z');
    assert_eq!(ascii_upper('A'), 'A');
    assert_eq!(ascii_upper('1'), '1');
    assert_eq!(ascii_upper('é'), 'é');
}

#[test]
fn only_plain_spaces_are_removed() {
    assert_eq!(remove_spaces("a b\tc d"), "ab\tcd");
    assert_eq!(remove_spaces("   "), "");
    assert_eq!(remove_spaces("none"), "none");
}

#[test]
fn separator_splitting_keeps_empty_parts() {
    assert_eq!(split_on_char("a,b,c", ','), vec!["a", "b", "c"]);
    assert_eq!(split_on_char("a,,c", ','), vec!["a", "", "c"]);
    assert_eq!(split_on_char(",", ','), vec!["", ""]);
    assert_eq!(split_on_char("", ','), vec![""]);
    assert_eq!(split_on_char("no-sep", ','), vec!["no-sep"]);
}
