use fire::cli::{
    bash_block_end_marker, bash_block_start_marker, bash_completion_rc_block, base_name_accepted,
    build_init_yaml, confirm_overwrite, file_name_from_base, is_valid_file_base, overwrite_prompt,
    parse_cli_command, parse_completion_target, strip_known_yaml_suffixes, upsert_managed_block,
    yaml_quote, zsh_completion_script, CliCommand, CompletionTarget,
};

#[test]
fn empty_base_name_uses_fire_yml() {
    assert_eq!(file_name_from_base(""), "fire.yml");
}

#[test]
fn base_name_generates_pattern_file_name() {
    assert_eq!(file_name_from_base("backend"), "backend.fire.yml");
    assert_eq!(file_name_from_base("backend.fire.yml"), "backend.fire.yml");
}

#[test]
fn validates_base_name() {
    assert!(is_valid_file_base("backend_api"));
    assert!(!is_valid_file_base("backend/api"));
    assert!(!is_valid_file_base(".."));
}

#[test]
fn minimal_yaml_contains_example_command() {
    let yaml = build_init_yaml(None, None, None);
    assert!(yaml.contains("commands:"));
    assert!(yaml.contains("example: echo \"hello world\""));
}

#[test]
fn yaml_contains_namespace_and_group_when_provided() {
    let yaml = build_init_yaml(Some("ex"), Some("Example"), Some("backend"));
    assert!(yaml.contains("namespace:"));
    assert!(yaml.contains("prefix: \"ex\""));
    assert!(yaml.contains("description: \"Example\""));
    assert!(yaml.contains("group: \"backend\""));
}

#[test]
fn parses_completion_target() {
    assert_eq!(parse_completion_target("bash"), Some(CompletionTarget::Bash));
    assert_eq!(parse_completion_target("zsh"), Some(CompletionTarget::Zsh));
    assert_eq!(parse_completion_target("all"), Some(CompletionTarget::All));
    assert_eq!(parse_completion_target("fish"), None);
}

#[test]
fn upsert_managed_block_appends_when_missing() {
    let block = format!(
        "{}\nsource ~/.bash_completion\n{}",
        bash_block_start_marker(),
        bash_block_end_marker()
    );
    let updated = upsert_managed_block(
        "export PATH=\"$PATH:/bin\"\n",
        bash_block_start_marker(),
        bash_block_end_marker(),
        &block,
    );
    assert!(updated.contains(bash_block_start_marker()));
    assert!(updated.contains("source ~/.bash_completion"));
}

#[test]
fn upsert_managed_block_replaces_existing() {
    let old = format!("{}\nold\n{}\n", bash_block_start_marker(), bash_block_end_marker());
    let block = format!("{}\nnew\n{}", bash_block_start_marker(), bash_block_end_marker());
    let updated = upsert_managed_block(&old, bash_block_start_marker(), bash_block_end_marker(), &block);
    assert!(!updated.contains("\nold\n"));
    assert!(updated.contains("\nnew\n"));
}

#[test]
fn embedded_zsh_completion_script_contains_compdef() {
    let script = zsh_completion_script();
    assert!(script.contains("#compdef fire"));
    assert!(script.contains("compdef _fire_cli fire"));
}

#[test]
fn upsert_exact_outputs() {
    let start = bash_block_start_marker();
    let end = bash_block_end_marker();
    let block = format!("{}\nnew\n{}", start, end);
    // Appended after the trimmed current text, separated by a blank line.
    assert_eq!(
        upsert_managed_block("a\n\n", start, end, &block),
        format!("a\n\n{}\n", block)
    );
    // Empty (or blank) current text gives the block alone.
    assert_eq!(upsert_managed_block("  \n", start, end, &block), format!("{}\n", block));
    // Replacing keeps what surrounds the old block.
    let old = format!("x\n{}\nold\n{}\n\ny\n", start, end);
    assert_eq!(
        upsert_managed_block(&old, start, end, &block),
        format!("x\n{}\ny\n", block)
    );
}

#[test]
fn upsert_is_idempotent() {
    let start = bash_block_start_marker();
    let end = bash_block_end_marker();
    let block = bash_completion_rc_block();
    let once = upsert_managed_block("export A=1\n", start, end, &block);
    let twice = upsert_managed_block(&once, start, end, &block);
    assert_eq!(once, twice);
}

#[test]
fn yaml_quote_escapes_backslash_and_quote() {
    assert_eq!(yaml_quote("a\"b\\c"), "\"a\\\"b\\\\c\"");
}

#[test]
fn strips_yaml_suffixes() {
    assert_eq!(strip_known_yaml_suffixes("api.fire.yml"), "api");
    assert_eq!(strip_known_yaml_suffixes("api.fire.yaml"), "api");
    assert_eq!(strip_known_yaml_suffixes("api.yml"), "api");
    assert_eq!(strip_known_yaml_suffixes("api"), "api");
}

#[test]
fn init_yaml_exact_minimal_text() {
    assert_eq!(
        build_init_yaml(None, None, None),
        "# yaml-language-server: $schema=https://raw.githubusercontent.com/gbenm/fire/main/schemas/fire.schema.json\n\ncommands:\n  example: echo \"hello world\"\n"
    );
}

#[test]
fn overwrite_answers() {
    assert!(confirm_overwrite("y"));
    assert!(confirm_overwrite("YES"));
    assert!(!confirm_overwrite("no"));
    assert!(!confirm_overwrite(""));
    assert_eq!(
        overwrite_prompt("fire.yml"),
        "File 'fire.yml' already exists. Overwrite? [y/N]:"
    );
}

#[test]
fn base_names_accepted_after_suffix_strip() {
    assert!(base_name_accepted("backend.fire.yml"));
    assert!(!base_name_accepted("a b"));
}

#[test]
fn parses_cli_subcommands() {
    let args = |v: &[&str]| v.iter().map(|s| s.to_string()).collect::<Vec<String>>();
    assert_eq!(parse_cli_command(&args(&["cli", "install"])), CliCommand::Install);
    assert_eq!(parse_cli_command(&args(&["cli", "init"])), CliCommand::Init);
    assert_eq!(parse_cli_command(&args(&["cli"])), CliCommand::CliHelp);
    assert_eq!(parse_cli_command(&args(&["cli", "mcp"])), CliCommand::Mcp);
    assert_eq!(
        parse_cli_command(&args(&["cli", "completion", "install"])),
        CliCommand::CompletionInstall(CompletionTarget::All)
    );
    assert_eq!(
        parse_cli_command(&args(&["cli", "completion", "install", "zsh"])),
        CliCommand::CompletionInstall(CompletionTarget::Zsh)
    );
    assert_eq!(
        parse_cli_command(&args(&["cli", "completion", "install", "fish"])),
        CliCommand::InvalidShell("fish".to_string())
    );
    assert_eq!(parse_cli_command(&args(&["cli", "other"])), CliCommand::Unknown);
}
