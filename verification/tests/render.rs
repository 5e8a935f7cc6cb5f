use fire::render::{
    apply_macros, format_array_literal, format_placeholder_value, join_shell_args, json_quote, placeholder_templates,
    shell_escape, split_placeholder_pattern, ArrayLiteralKind, IndexSet, RenderMode,
};
use fire::strmap::StrMap;
use fire::words::split_shell_words;
use fire::text::{find_str, join_strings, number_text, replace_str, split_char, trim_str};

fn strings(v: &[&str]) -> Vec<String> {
    v.iter().map(|s| s.to_string()).collect()
}

#[test]
fn shell_escape_forms() {
    assert_eq!(shell_escape(""), "''");
    assert_eq!(shell_escape("safe-name_1.0:/x=y"), "safe-name_1.0:/x=y");
    assert_eq!(shell_escape("a b"), "'a b'");
    assert_eq!(join_shell_args(&strings(&["a", "b c"])), "a 'b c'");
}

#[test]
fn json_quote_escapes() {
    assert_eq!(json_quote("a\"b\\c\nd"), "\"a\\\"b\\\\c\\nd\"");
}

#[test]
fn placeholder_patterns() {
    assert_eq!(split_placeholder_pattern("{{n}}"), Some(("{", "}")));
    assert_eq!(split_placeholder_pattern("[[n]]"), Some(("[[", "]]")));
    assert_eq!(split_placeholder_pattern("{n}"), None);
    assert_eq!(split_placeholder_pattern("   "), None);
    assert_eq!(placeholder_templates(Some("  {{n}} ")), strings(&["{{n}}"]));
    assert!(placeholder_templates(Some("  ")).is_empty());
    assert!(placeholder_templates(None).is_empty());
}

#[test]
fn value_and_array_formats() {
    assert_eq!(format_placeholder_value("a b", RenderMode::Shell), "'a b'");
    assert_eq!(format_placeholder_value("a b", RenderMode::Eval), "a b");
    let args = strings(&["a", "b"]);
    assert_eq!(format_array_literal(&args, RenderMode::Eval, ArrayLiteralKind::Bracket), "[\"a\", \"b\"]");
    assert_eq!(format_array_literal(&args, RenderMode::Eval, ArrayLiteralKind::Spread), "\"a\", \"b\"");
    assert_eq!(format_array_literal(&args, RenderMode::Shell, ArrayLiteralKind::Bracket), "a b");
}

#[test]
fn longer_macros_expand_first() {
    let mut macros = StrMap::new();
    macros.insert("@a".to_string(), "short".to_string());
    macros.insert("@ab".to_string(), "long".to_string());
    assert_eq!(apply_macros("x @ab @a", &macros), "x long short");
    assert_eq!(apply_macros("nothing", &StrMap::new()), "nothing");
}

#[test]
fn json_quote_reads_back_as_json() {
    for value in ["", "plain", "a\"b\\c\nd\u{1}", "tab\there\r", "\u{7f}\u{9f} caf\u{e9} \u{1f600}", "/slash"] {
        let quoted = json_quote(value);
        let back: String = serde_json::from_str(&quoted).unwrap();
        assert_eq!(back, value);
    }
}

#[test]
fn macros_apply_longest_key_in_bytes_first() {
    let mut macros = StrMap::new();
    macros.insert("c\u{20ac}".to_string(), "Z".to_string());
    macros.insert("abc".to_string(), "X".to_string());
    assert_eq!(apply_macros("abc\u{20ac}", &macros), "abZ");
}

#[test]
fn index_set_counts_each_index_once() {
    let mut set = IndexSet::new();
    set.insert(2);
    set.insert(2);
    set.insert(0);
    assert_eq!(set.len(), 2);
    assert!(set.contains(&0));
    assert!(!set.contains(&1));
}

#[test]
fn text_helpers() {
    assert_eq!(replace_str("a-b-c", "-", "+"), "a+b+c");
    assert_eq!(split_char("a,,b", ','), strings(&["a", "", "b"]));
    assert_eq!(join_strings(&strings(&["a", "b"]), ", "), "a, b");
    assert_eq!(number_text(0), "0");
    assert_eq!(number_text(407), "407");
    assert_eq!(find_str("hello", "ll"), Some(2));
    assert_eq!(find_str("hello", "z"), None);
    assert_eq!(trim_str("  x y \n"), "x y");
}

#[test]
fn quoted_arguments_split_back() {
    let args = strings(&["plain", "with space", "it's", "a\"b", "tab\there", "$HOME", "back\\slash", "''"]);
    assert_eq!(split_shell_words(&join_shell_args(&args)), args);
}
