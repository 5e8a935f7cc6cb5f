use fire::words::{
    completion_words_from_line, extract_help_target, normalize_completion_words, split_shell_words,
    utf8_prefix_at_byte,
};

fn strings(v: &[&str]) -> Vec<String> {
    v.iter().map(|s| s.to_string()).collect()
}

#[test]
fn normalize_completion_words_removes_separator_and_binary_name() {
    let words = vec!["--".to_string(), "fire".to_string(), "vars".to_string(), "".to_string()];
    let normalized = normalize_completion_words(words, "fire");
    assert_eq!(normalized, vec!["vars".to_string(), "".to_string()]);
}

#[test]
fn split_shell_words_handles_quotes() {
    let words = split_shell_words("fire run \"start api\" --host 0.0.0.0");
    assert_eq!(
        words,
        vec![
            "fire".to_string(),
            "run".to_string(),
            "start api".to_string(),
            "--host".to_string(),
            "0.0.0.0".to_string()
        ]
    );
}

#[test]
fn utf8_prefix_handles_non_char_boundary() {
    let value = "fire vars";
    let prefix = utf8_prefix_at_byte(value, 100).expect("prefix");
    assert_eq!(prefix, "fire vars");
}

#[test]
fn completion_words_from_line_parses_current_line() {
    let words = completion_words_from_line("fire vars ", 10, "fire").expect("completion words");
    assert_eq!(words, vec!["vars".to_string(), "".to_string()]);
}

#[test]
fn extract_help_target_detects_help_suffix() {
    let args = vec!["run".to_string(), ":h".to_string()];
    let target = extract_help_target(&args).expect("help target");
    assert_eq!(target, &["run".to_string()]);
}

#[test]
fn utf8_prefix_inside_a_multibyte_char_moves_back() {
    // 'é' takes two bytes; byte 2 falls inside it.
    assert_eq!(utf8_prefix_at_byte("aé", 2), Some("a"));
    assert_eq!(utf8_prefix_at_byte("aé", 1), Some("a"));
    assert_eq!(utf8_prefix_at_byte("aé", 3), Some("aé"));
}

#[test]
fn split_shell_words_single_quotes_and_escapes() {
    assert_eq!(split_shell_words("a 'b c' d\\ e"), strings(&["a", "b c", "d e"]));
    assert_eq!(split_shell_words("  "), Vec::<String>::new());
}

#[test]
fn completion_words_keep_partial_last_word() {
    let words = completion_words_from_line("fire ru", 7, "fire").expect("words");
    assert_eq!(words, strings(&["ru"]));
}

#[test]
fn extract_help_target_without_suffix_is_none() {
    let args = strings(&["run", "x"]);
    assert!(extract_help_target(&args).is_none());
    let only = strings(&[":h"]);
    assert_eq!(extract_help_target(&only), Some(&[][..]));
}
