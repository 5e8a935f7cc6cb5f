use fire::config::{CommandAction, CommandEntry, CommandSpec, FileConfig, FileScope, LoadedConfig, SourceKind};
use fire::invocation::{setup_cli, Plan};
use fire::strmap::StrMap;

fn args(v: &[&str]) -> Vec<String> {
    v.iter().map(|s| s.to_string()).collect()
}

fn config() -> LoadedConfig {
    let mut commands = StrMap::new();
    commands.insert(
        "run".to_string(),
        CommandEntry::Spec(CommandSpec {
            execute: Some(CommandAction::Single("npm run".to_string())),
            ..CommandSpec::default()
        }),
    );
    let mut nested = StrMap::new();
    nested.insert("inner".to_string(), CommandEntry::Shorthand("echo inner".to_string()));
    commands.insert(
        "group".to_string(),
        CommandEntry::Spec(CommandSpec { commands: nested, ..CommandSpec::default() }),
    );
    let mut api = StrMap::new();
    api.insert("api".to_string(), CommandEntry::Shorthand("npm run api".to_string()));
    LoadedConfig {
        files: vec![
            FileConfig {
                source: SourceKind::Local,
                project_dir: "/p".to_string(),
                config_path: "/p/fire.yml".to_string(),
                scope: FileScope::Root,
                runtimes: StrMap::new(),
                commands,
            },
            FileConfig {
                source: SourceKind::Global,
                project_dir: "/g".to_string(),
                config_path: "/g/fire.yml".to_string(),
                scope: FileScope::Namespace { namespace: "ex".to_string(), namespace_description: "Example".to_string() },
                runtimes: StrMap::new(),
                commands: api,
            },
        ],
    }
}

#[test]
fn management_and_root_help() {
    let c = config();
    assert!(matches!(setup_cli(&c, &args(&["cli", "install"])), Plan::Cli));
    assert!(matches!(setup_cli(&c, &[]), Plan::RootHelp));
    assert!(matches!(setup_cli(&c, &args(&[":h"])), Plan::RootHelp));
}

#[test]
fn runnable_command_executes_with_remaining_args() {
    let c = config();
    let a = args(&["run", "dev"]);
    match setup_cli(&c, &a) {
        Plan::Execute(resolved) => {
            assert_eq!(resolved.consumed, 1);
            assert_eq!(resolved.remaining_args, &["dev".to_string()]);
            assert_eq!(resolved.project_dir, "/p");
        }
        _ => panic!("expected execution"),
    }
}

#[test]
fn non_runnable_command_shows_its_help() {
    let c = config();
    let a = args(&["group"]);
    match setup_cli(&c, &a) {
        Plan::CommandHelp { path, .. } => assert_eq!(path, &["group".to_string()]),
        _ => panic!("expected command help"),
    }
}

#[test]
fn help_suffix_shows_command_help() {
    let c = config();
    let a = args(&["run", ":h"]);
    match setup_cli(&c, &a) {
        Plan::CommandHelp { path, .. } => assert_eq!(path, &["run".to_string()]),
        _ => panic!("expected command help"),
    }
}

#[test]
fn scope_word_shows_scope_help() {
    let c = config();
    let a = args(&["ex"]);
    match setup_cli(&c, &a) {
        Plan::ScopeHelp(lines) => assert!(lines.iter().any(|l| l.contains("api"))),
        _ => panic!("expected scope help"),
    }
}

#[test]
fn unknown_word_is_reported() {
    let c = config();
    let a = args(&["nope", "x"]);
    match setup_cli(&c, &a) {
        Plan::Unknown(word) => assert_eq!(word, "nope"),
        _ => panic!("expected unknown"),
    }
}
