use fire::env::{apply_environment, interpolate, load_env_text, parse_env_line};
use fire::strmap::StrMap;

fn map(entries: &[(&str, &str)]) -> StrMap<String> {
    let mut m = StrMap::new();
    for (k, v) in entries {
        m.insert(k.to_string(), v.to_string());
    }
    m
}

#[test]
fn expands_defaults_and_required_values() {
    let values = map(&[("SET", "yes")]);
    let shell = StrMap::new();
    assert_eq!(interpolate("${SET}-${EMPTY:-fallback}", &shell, &values).unwrap(), "yes-fallback");
    assert_eq!(interpolate("${EMPTY:?missing EMPTY}", &shell, &values).unwrap_err(), "missing EMPTY");
}

#[test]
fn included_auto_env_merges_base_then_own_and_inline_wins() {
    let shell = StrMap::new();
    let mut values = StrMap::new();
    load_env_text("BASE=yes\nDUP=base\n", &shell, &mut values).unwrap();
    load_env_text("CHILD=yes\nDUP=child\n", &shell, &mut values).unwrap();
    let inline = map(&[("DUP", "${CHILD}-inline")]);
    apply_environment(&mut values, &inline, &shell).unwrap();
    assert_eq!(values.get("BASE").map(String::as_str), Some("yes"));
    assert_eq!(values.get("CHILD").map(String::as_str), Some("yes"));
    assert_eq!(values.get("DUP").map(String::as_str), Some("yes-inline"));
}

#[test]
fn shell_values_win_over_files() {
    let shell = map(&[("HOME", "/home/me")]);
    let mut values = StrMap::new();
    load_env_text("HOME=/elsewhere\nDIR=${HOME}/x\n", &shell, &mut values).unwrap();
    assert_eq!(values.get("DIR").map(String::as_str), Some("/home/me/x"));
    apply_environment(&mut values, &StrMap::new(), &shell).unwrap();
    assert_eq!(values.get("HOME").map(String::as_str), Some("/home/me"));
}

#[test]
fn required_without_message_names_variable() {
    let empty = StrMap::new();
    assert_eq!(interpolate("${NAME:?}", &empty, &empty).unwrap_err(), "NAME is required");
}

#[test]
fn text_without_expressions_is_unchanged() {
    let empty = StrMap::new();
    assert_eq!(interpolate("plain $HOME text", &empty, &empty).unwrap(), "plain $HOME text");
    assert_eq!(interpolate("open ${NAME", &empty, &empty).unwrap(), "open ${NAME");
}

#[test]
fn env_lines_are_parsed() {
    assert_eq!(parse_env_line("export KEY = \"v a\" "), Some(("KEY".to_string(), "v a".to_string())));
    assert_eq!(parse_env_line("# comment"), None);
    assert_eq!(parse_env_line("   "), None);
    assert_eq!(parse_env_line("=value"), None);
    assert_eq!(parse_env_line("A='b'"), Some(("A".to_string(), "b".to_string())));
}

#[test]
fn failing_line_stops_reading() {
    let empty = StrMap::new();
    let mut values = StrMap::new();
    let r = load_env_text("A=1\nB=${X:?need X}\nC=3\n", &empty, &mut values);
    assert_eq!(r, Err("need X".to_string()));
}
