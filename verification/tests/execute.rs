use fire::config::{CommandAction, CommandEntry, CommandSpec, RuntimeConfig};
use fire::execute::{
    build_execution_context, classify_runtime_line, enforce_unused_args_policy, format_runtime_request_json,
    parse_on_unused_args_mode, parse_runtime_sdk, resolve_runtime_definition, runtime_result, split_runtime_eval,
    trim_trailing_newlines, wildcard_match, RuntimeEvalResult, RuntimeLine, RuntimeRequest, RuntimeSdk,
};
use fire::paths::resolve_next_dir;
use fire::render::{
    commands_with_remaining_args, render_runtime_string, shell_escape, unresolved_args_for_tail, ExecutionContext,
    RenderMode, RenderStats, UnusedArgsMode,
};
use fire::resolve::ResolvedCommand;
use fire::runner::{
    build_attached_shell_runner_invocation, is_disabled_flag, is_enabled_flag, normalize_runner_for_piped_stdin,
    select_runner_mode, should_execute_before, RunnerMode,
};
use fire::strmap::StrMap;

fn strings(v: &[&str]) -> Vec<String> {
    v.iter().map(|s| s.to_string()).collect()
}

fn render(value: &str, context: &ExecutionContext, args: &[String], mode: RenderMode, stats: &mut RenderStats) -> String {
    render_runtime_string(value, context, args, &StrMap::new(), true, mode, stats)
}

fn placeholder_context() -> ExecutionContext {
    let mut context = ExecutionContext::default();
    context.placeholder = Some("{{n}}".to_string());
    context
}

#[test]
fn escape_single_quote_in_shell_argument() {
    assert_eq!(shell_escape("it'ok"), "'it'\"'\"'ok'");
}

#[test]
fn nested_relative_dirs_are_resolved_from_parent() {
    let child = resolve_next_dir("/tmp/project", "services");
    let nested = resolve_next_dir(&child, "api");
    assert_eq!(nested, "/tmp/project/services/api");
}

#[test]
fn absolute_dir_overrides_parent_dir() {
    let nested = resolve_next_dir("/tmp/project", "/opt/workspace");
    assert_eq!(nested, "/opt/workspace");
}

#[test]
fn remaining_args_only_append_to_last_command() {
    let commands = strings(&["npm run build", "npm run start"]);
    let result = commands_with_remaining_args(&commands, &strings(&["--host", "0.0.0.0"]));
    assert_eq!(result, strings(&["npm run build", "npm run start --host 0.0.0.0"]));
}

#[test]
fn select_runner_uses_fallback_when_check_fails() {
    let selected = select_runner_mode(Some(false), Some("bash"), Some("sh"));
    assert_eq!(selected, Ok(RunnerMode::Fallback("sh".to_string())));
}

#[test]
fn select_runner_uses_primary_when_check_passes() {
    let selected = select_runner_mode(Some(true), Some("bash"), Some("sh"));
    assert_eq!(selected, Ok(RunnerMode::Runner("bash".to_string())));
}

#[test]
fn select_runner_returns_direct_when_no_runner() {
    let selected = select_runner_mode(None, None, None);
    assert_eq!(selected, Ok(RunnerMode::Direct));
}

#[test]
fn select_runner_fails_without_fallback() {
    let selected = select_runner_mode(Some(false), Some("bash"), None);
    assert_eq!(selected, Err("Check command failed and no fallback_runner is configured.".to_string()));
}

#[test]
fn command_entry_spec_is_available_for_spec_variant() {
    let entry = CommandEntry::Spec(CommandSpec { dir: "api".to_string(), ..CommandSpec::default() });
    assert!(entry.spec().is_some());
    assert!(CommandEntry::Shorthand("x".to_string()).spec().is_none());
}

#[test]
fn normalizes_tty_flags_for_piped_runner() {
    let normalized = normalize_runner_for_piped_stdin("docker run --rm -it node:lts-alpine /bin/bash");
    assert_eq!(normalized, "docker run --rm -i node:lts-alpine /bin/bash");
}

#[test]
fn keeps_non_tty_flags_untouched() {
    let runner = "docker exec -i my-container /bin/sh";
    assert_eq!(normalize_runner_for_piped_stdin(runner), runner);
}

#[test]
fn docker_compose_exec_adds_no_tty_flag() {
    let normalized = normalize_runner_for_piped_stdin("docker compose exec linux sh");
    assert_eq!(normalized, "docker compose exec -T linux sh");
}

#[test]
fn docker_compose_exec_keeps_existing_no_tty_flag() {
    let runner = "docker compose exec -T linux sh";
    assert_eq!(normalize_runner_for_piped_stdin(runner), runner);
}

#[test]
fn builds_attached_runner_invocation_for_shell_runner() {
    let invocation = build_attached_shell_runner_invocation("docker exec -it db bash", &strings(&["mysql -u laravel -p"]));
    assert_eq!(invocation, Some("docker exec -it db bash -c 'set -e\nmysql -u laravel -p\n'".to_string()));
}

#[test]
fn builds_attached_runner_invocation_for_plain_shell_runner() {
    let invocation = build_attached_shell_runner_invocation("bash", &strings(&["echo hi"]));
    assert_eq!(invocation, Some("bash -c 'set -e\necho hi\n'".to_string()));
}

#[test]
fn does_not_build_attached_invocation_without_shell_runner() {
    let invocation = build_attached_shell_runner_invocation("docker compose exec linux", &strings(&["echo hi"]));
    assert_eq!(invocation, None);
}

#[test]
fn before_runs_for_direct_and_primary_runner_but_not_fallback() {
    assert!(should_execute_before(&RunnerMode::Runner("bash".to_string())));
    assert!(!should_execute_before(&RunnerMode::Fallback("bash".to_string())));
    assert!(should_execute_before(&RunnerMode::Direct));
}

#[test]
fn disabled_flag_accepts_only_false() {
    assert!(is_disabled_flag("false"));
}

#[test]
fn disabled_flag_rejects_non_false_values() {
    assert!(!is_disabled_flag(""));
    assert!(!is_disabled_flag("FALSE"));
    assert!(!is_disabled_flag("1"));
    assert!(!is_disabled_flag("true"));
    assert!(!is_disabled_flag("off"));
    assert!(!is_disabled_flag("no"));
}

#[test]
fn enabled_flag_accepts_only_true() {
    assert!(is_enabled_flag("true"));
    assert!(!is_enabled_flag("TRUE"));
    assert!(!is_enabled_flag("1"));
    assert!(!is_enabled_flag("false"));
}

#[test]
fn placeholders_replace_indexed_args_with_shell_escape() {
    let context = placeholder_context();
    let mut stats = RenderStats::new();
    let rendered = render("echo {1} {2} {3}", &context, &strings(&["hello", "sp ace", "quo'te"]), RenderMode::Shell, &mut stats);
    assert_eq!(rendered, "echo hello 'sp ace' 'quo'\"'\"'te'");
    assert!(stats.had_placeholders);
    assert_eq!(stats.used_arg_indexes.len(), 3);
}

#[test]
fn custom_placeholder_template_is_supported() {
    let mut context = ExecutionContext::default();
    context.placeholder = Some("[[n]]".to_string());
    let mut stats = RenderStats::new();
    let rendered = render("echo [[1]]", &context, &strings(&["hey"]), RenderMode::Shell, &mut stats);
    assert_eq!(rendered, "echo hey");
}

#[test]
fn macros_expand_before_placeholder_replacement() {
    let mut context = placeholder_context();
    context.macros.insert("{{dynamic}}".to_string(), "docker exec {1}".to_string());
    let mut stats = RenderStats::new();
    let rendered = render("{{dynamic}} echo hi", &context, &strings(&["front"]), RenderMode::Shell, &mut stats);
    assert_eq!(rendered, "docker exec front echo hi");
}

#[test]
fn spread_placeholder_expands_to_remaining_args() {
    let context = placeholder_context();
    let mut stats = RenderStats::new();
    let rendered = render("echo {1} ...{{n}}", &context, &strings(&["first", "second arg", "third"]), RenderMode::Shell, &mut stats);
    assert_eq!(rendered, "echo first 'second arg' third");
    assert_eq!(stats.used_arg_indexes.len(), 3);
}

#[test]
fn bracket_placeholder_expands_to_remaining_args() {
    let context = placeholder_context();
    let mut stats = RenderStats::new();
    let rendered = render("echo [{{n}}]", &context, &strings(&["one", "two"]), RenderMode::Shell, &mut stats);
    assert_eq!(rendered, "echo one two");
    assert_eq!(stats.used_arg_indexes.len(), 2);
}

#[test]
fn spread_placeholder_uses_only_unused_args() {
    let context = placeholder_context();
    let mut stats = RenderStats::new();
    let rendered = render("echo {2} ...{{n}}", &context, &strings(&["first", "second arg", "third"]), RenderMode::Shell, &mut stats);
    assert_eq!(rendered, "echo 'second arg' first third");
    assert_eq!(stats.used_arg_indexes.len(), 3);
}

#[test]
fn eval_array_placeholder_uses_only_unused_args() {
    let context = placeholder_context();
    let mut stats = RenderStats::new();
    let rendered = render("fn({2}, [{{n}}])", &context, &strings(&["a", "b", "c"]), RenderMode::Eval, &mut stats);
    assert_eq!(rendered, "fn(b, [\"a\", \"c\"])");
    assert_eq!(stats.used_arg_indexes.len(), 3);
}

#[test]
fn eval_placeholder_replaces_without_shell_escaping() {
    let context = placeholder_context();
    let mut stats = RenderStats::new();
    let rendered = render("sayHello(\"{1}\", {2})", &context, &strings(&["hello world", "1 + 1"]), RenderMode::Eval, &mut stats);
    assert_eq!(rendered, "sayHello(\"hello world\", 1 + 1)");
}

#[test]
fn eval_spread_placeholder_expands_as_string_arguments() {
    let context = placeholder_context();
    let mut stats = RenderStats::new();
    let rendered = render("fn(...{{n}})", &context, &strings(&["a", "b c"]), RenderMode::Eval, &mut stats);
    assert_eq!(rendered, "fn(\"a\", \"b c\")");
}

#[test]
fn eval_array_placeholder_expands_as_string_array() {
    let context = placeholder_context();
    let mut stats = RenderStats::new();
    let rendered = render("fn([{{n}}])", &context, &strings(&["a", "b"]), RenderMode::Eval, &mut stats);
    assert_eq!(rendered, "fn([\"a\", \"b\"])");
}

#[test]
fn split_runtime_eval_parses_runtime_and_code() {
    let (runtime, code) = split_runtime_eval("py:sayHello()").expect("split");
    assert_eq!(runtime, "py");
    assert_eq!(code, "sayHello()");
}

#[test]
fn split_runtime_eval_refuses_missing_parts() {
    assert!(split_runtime_eval("sayHello()").is_err());
    assert!(split_runtime_eval("py:").is_err());
    assert!(split_runtime_eval(":code").is_err());
}

#[test]
fn wildcard_match_supports_basic_star_patterns() {
    assert!(wildcard_match("test.ts", "*.ts"));
    assert!(wildcard_match("helpers.test.ts", "*.test.ts"));
    assert!(!wildcard_match("test.js", "*.ts"));
}

#[test]
fn wildcard_match_with_inner_star_and_full_star() {
    assert!(wildcard_match("anything", "*"));
    assert!(wildcard_match("src/lib.rs", "src/*.rs"));
    assert!(!wildcard_match("lib/lib.rs", "src/*.rs"));
}

#[test]
fn unresolved_args_defaults_to_passthrough_without_placeholder_or_policy() {
    let context = ExecutionContext::default();
    let stats = RenderStats::new();
    let args = strings(&["one", "two"]);
    assert_eq!(unresolved_args_for_tail(&context, &args, &stats), args);
}

#[test]
fn unresolved_args_respects_consumed_indexes_without_policy_effect() {
    let mut stats = RenderStats::new();
    stats.had_placeholders = true;
    stats.used_arg_indexes.insert(0);
    let context = ExecutionContext { on_unused_args: Some(UnusedArgsMode::Error), ..ExecutionContext::default() };
    let args = strings(&["one", "two"]);
    assert_eq!(unresolved_args_for_tail(&context, &args, &stats), strings(&["two"]));
}

#[test]
fn unused_args_policy_defaults_to_ignore_for_eval() {
    let context = ExecutionContext::default();
    let stats = RenderStats::new();
    let args = strings(&["one", "two"]);
    assert_eq!(enforce_unused_args_policy(&context, &args, &stats), Ok(None));
}

#[test]
fn unused_args_policy_warns_without_stopping_eval() {
    let context = ExecutionContext { on_unused_args: Some(UnusedArgsMode::Warn), ..ExecutionContext::default() };
    let mut stats = RenderStats::new();
    stats.had_placeholders = true;
    stats.used_arg_indexes.insert(0);
    let args = strings(&["one", "two"]);
    assert_eq!(
        enforce_unused_args_policy(&context, &args, &stats),
        Ok(Some("Warning: unused arguments detected: [2]".to_string()))
    );
}

#[test]
fn unused_args_policy_error_stops() {
    let context = ExecutionContext { on_unused_args: Some(UnusedArgsMode::Error), ..ExecutionContext::default() };
    let stats = RenderStats::new();
    let args = strings(&["one", "two"]);
    assert_eq!(
        enforce_unused_args_policy(&context, &args, &stats),
        Err("Error: unused arguments detected: [1, 2]".to_string())
    );
}

#[test]
fn unused_args_detection_counts_dynamic_spread_in_eval() {
    let context = placeholder_context();
    let mut stats = RenderStats::new();
    let args = strings(&["first", "second", "third"]);
    render("py:print({1}, ...{{n}})", &context, &args, RenderMode::Eval, &mut stats);
    let unused: Vec<String> = args
        .iter()
        .enumerate()
        .filter_map(|(index, value)| if stats.used_arg_indexes.contains(&index) { None } else { Some(value.clone()) })
        .collect();
    assert!(unused.is_empty());
    assert!(stats.had_placeholders);
    assert_eq!(stats.used_arg_indexes.len(), 3);
}

#[test]
fn nested_dirs_are_resolved_relative_to_parent_command() {
    let nested2 = CommandEntry::Spec(CommandSpec {
        dir: "sub".to_string(),
        execute: Some(CommandAction::Single("echo nested2".to_string())),
        ..CommandSpec::default()
    });
    let nested = CommandEntry::Spec(CommandSpec { dir: "sub".to_string(), ..CommandSpec::default() });
    let root = CommandEntry::Spec(CommandSpec { dir: "schemas".to_string(), ..CommandSpec::default() });
    let runtimes = StrMap::new();
    let args = Vec::<String>::new();
    let resolved = ResolvedCommand {
        project_dir: "/tmp/project",
        runtimes: &runtimes,
        command: &nested2,
        command_chain: vec![&root, &nested, &nested2],
        consumed: 3,
        remaining_args: &args,
    };
    let context = build_execution_context(&resolved).expect("context");
    assert_eq!(context.dir, "/tmp/project/schemas/sub/sub");
}

#[test]
fn execution_context_takes_last_setting_and_refuses_bad_mode() {
    let parent = CommandEntry::Spec(CommandSpec {
        runner: "bash".to_string(),
        placeholder: "{{n}}".to_string(),
        ..CommandSpec::default()
    });
    let child = CommandEntry::Spec(CommandSpec {
        runner: "zsh".to_string(),
        on_unused_args: "warn".to_string(),
        ..CommandSpec::default()
    });
    let runtimes = StrMap::new();
    let args = Vec::<String>::new();
    let resolved = ResolvedCommand {
        project_dir: "/p",
        runtimes: &runtimes,
        command: &child,
        command_chain: vec![&parent, &child],
        consumed: 2,
        remaining_args: &args,
    };
    let context = build_execution_context(&resolved).expect("context");
    assert_eq!(context.runner.as_deref(), Some("zsh"));
    assert_eq!(context.placeholder.as_deref(), Some("{{n}}"));
    assert_eq!(context.on_unused_args, Some(UnusedArgsMode::Warn));
    assert_eq!(context.dir, "/p");

    let bad = CommandEntry::Spec(CommandSpec { on_unused_args: "loud".to_string(), ..CommandSpec::default() });
    let resolved = ResolvedCommand {
        project_dir: "/p",
        runtimes: &runtimes,
        command: &bad,
        command_chain: vec![&bad],
        consumed: 1,
        remaining_args: &args,
    };
    assert!(build_execution_context(&resolved).is_err());
}

#[test]
fn on_unused_args_modes_parse() {
    assert_eq!(parse_on_unused_args_mode("ignore"), Ok(UnusedArgsMode::Ignore));
    assert_eq!(parse_on_unused_args_mode("warn"), Ok(UnusedArgsMode::Warn));
    assert_eq!(parse_on_unused_args_mode("error"), Ok(UnusedArgsMode::Error));
    assert!(parse_on_unused_args_mode("Warn").is_err());
}

#[test]
fn runtime_result_kinds() {
    match runtime_result("text", "hello".to_string(), Vec::new()) {
        Some(RuntimeEvalResult::Text(value)) => assert_eq!(value, "hello"),
        _ => panic!("expected text result"),
    }
    match runtime_result("commands", String::new(), strings(&["echo one", "echo two"])) {
        Some(RuntimeEvalResult::Commands(values)) => assert_eq!(values, strings(&["echo one", "echo two"])),
        _ => panic!("expected commands result"),
    }
    assert!(runtime_result("other", String::new(), Vec::new()).is_none());
}

#[test]
fn runtime_sdks_and_definitions() {
    assert_eq!(parse_runtime_sdk(" python "), Ok(RuntimeSdk::Python));
    assert!(parse_runtime_sdk("ruby").is_err());
    let config = RuntimeConfig { sdk: "node".to_string(), ..RuntimeConfig::default() };
    let definition = resolve_runtime_definition("js", &config).expect("definition");
    assert_eq!(definition.sdk, RuntimeSdk::Node);
    assert_eq!(definition.runner, "node");
    assert_eq!(definition.check, None);
}

#[test]
fn runtime_request_is_one_json_line() {
    let request = RuntimeRequest { op: "eval", id: "7".to_string(), path: None, code: Some("print(\"a\")") };
    assert_eq!(
        format_runtime_request_json(&request),
        "{\"op\":\"eval\",\"id\":\"7\",\"code\":\"print(\\\"a\\\")\"}"
    );
}

#[test]
fn trailing_newlines_are_trimmed() {
    assert_eq!(trim_trailing_newlines("value\n\r\n".to_string()), "value");
    assert_eq!(trim_trailing_newlines("a\nb".to_string()), "a\nb");
}

#[test]
fn runtime_lines_are_classified() {
    match classify_runtime_line("plain output\n", "1") {
        RuntimeLine::Output(l) => assert_eq!(l, "plain output"),
        _ => panic!("expected output"),
    }
}
