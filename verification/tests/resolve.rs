use fire::config::{CommandAction, CommandEntry, CommandSpec, FileConfig, FileScope, LoadedConfig, SourceKind};
use fire::resolve::{detect_terminal_command_collision, resolve_command};
use fire::strmap::StrMap;

fn commands(entries: Vec<(&str, CommandEntry)>) -> StrMap<CommandEntry> {
    let mut map = StrMap::new();
    for (name, entry) in entries {
        map.insert(name.to_string(), entry);
    }
    map
}

fn exec(command: &str) -> CommandEntry {
    CommandEntry::Spec(CommandSpec {
        execute: Some(CommandAction::Single(command.to_string())),
        ..CommandSpec::default()
    })
}

fn file(source: SourceKind, path: &str, scope: FileScope, commands: StrMap<CommandEntry>) -> FileConfig {
    FileConfig {
        source,
        project_dir: ".".to_string(),
        config_path: path.to_string(),
        scope,
        runtimes: StrMap::new(),
        commands,
    }
}

fn group(name: &str) -> FileScope {
    FileScope::Group { group: name.to_string(), group_description: String::new() }
}

fn namespace(name: &str) -> FileScope {
    FileScope::Namespace { namespace: name.to_string(), namespace_description: String::new() }
}

fn namespace_group(ns: &str, g: &str) -> FileScope {
    FileScope::NamespaceGroup {
        namespace: ns.to_string(),
        namespace_description: String::new(),
        group: g.to_string(),
        group_description: String::new(),
    }
}

fn args(v: &[&str]) -> Vec<String> {
    v.iter().map(|s| s.to_string()).collect()
}

fn api_commands() -> StrMap<CommandEntry> {
    commands(vec![("api", exec("npm run api"))])
}

fn example_exec() -> StrMap<CommandEntry> {
    commands(vec![("example", exec("echo one"))])
}

#[test]
fn resolves_root_command_without_scope() {
    let run = CommandEntry::Spec(CommandSpec {
        description: "run npm script".to_string(),
        execute: Some(CommandAction::Single("npm run".to_string())),
        ..CommandSpec::default()
    });
    let config = LoadedConfig {
        files: vec![file(SourceKind::Local, "/tmp/fire-test.yml", FileScope::Root, commands(vec![("run", run)]))],
    };
    let a = args(&["run", "start"]);
    let resolved = resolve_command(&config, &a).expect("resolved");
    let commands = resolved.command.execution_commands().expect("exec");
    assert_eq!(commands, vec!["npm run".to_string()]);
    assert_eq!(resolved.remaining_args, &["start".to_string()]);
}

#[test]
fn resolves_namespace_prefix_command() {
    let config = LoadedConfig {
        files: vec![file(SourceKind::Global, "/tmp/fire-test.yml", namespace_group("ex", "backend"), api_commands())],
    };
    let a = args(&["ex", "backend", "api", "--watch"]);
    let resolved = resolve_command(&config, &a).expect("resolved");
    assert_eq!(resolved.consumed, 3);
    assert_eq!(resolved.remaining_args, &["--watch".to_string()]);
}

#[test]
fn resolves_namespace_prefix_command_from_local_root_without_prefix() {
    let config = LoadedConfig {
        files: vec![file(SourceKind::Local, "/tmp/fire-test.yml", namespace_group("ex", "backend"), api_commands())],
    };
    let a = args(&["backend", "api", "--watch"]);
    let resolved = resolve_command(&config, &a).expect("resolved implicit local");
    assert_eq!(resolved.consumed, 2);

    let config_global = LoadedConfig {
        files: vec![
            file(SourceKind::Local, "/tmp/fire-test.yml", namespace("ex"), StrMap::new()),
            file(SourceKind::Global, "/tmp/fire-test.yml", namespace_group("ex", "backend"), api_commands()),
        ],
    };
    let a = args(&["backend", "api", "--watch"]);
    let resolved_global =
        resolve_command(&config_global, &a).expect("resolved implicit global by local namespace context");
    assert_eq!(resolved_global.consumed, 2);

    let a = args(&["ex", "backend", "api", "--watch"]);
    let resolved_global_explicit = resolve_command(&config_global, &a).expect("resolved explicit global");
    assert_eq!(resolved_global_explicit.consumed, 3);
}

#[test]
fn detects_terminal_collision_for_global_group_without_namespace() {
    let config = LoadedConfig {
        files: vec![
            file(SourceKind::Local, "/tmp/a.fire.yml", group("common"), example_exec()),
            file(SourceKind::Global, "/tmp/b.fire.yml", group("common"), example_exec()),
        ],
    };
    let a = args(&["common", "example"]);
    let resolved = resolve_command(&config, &a).expect("resolved");
    let error = detect_terminal_command_collision(&config, &a, resolved.consumed).expect_err("must report collision");
    assert!(error.contains("Duplicate terminal command"));
    assert!(error.contains("invocation: common example"));
    assert!(error.contains("file_1: /tmp/a.fire.yml"));
    assert!(error.contains("file_2: /tmp/b.fire.yml"));
}

#[test]
fn allows_same_name_when_both_are_non_terminal() {
    let nested = || {
        commands(vec![(
            "example",
            CommandEntry::Spec(CommandSpec { commands: commands(vec![("sub", exec("echo one"))]), ..CommandSpec::default() }),
        )])
    };
    let config = LoadedConfig {
        files: vec![
            file(SourceKind::Local, "/tmp/a.fire.yml", group("common"), nested()),
            file(SourceKind::Global, "/tmp/b.fire.yml", group("common"), nested()),
        ],
    };
    let a = args(&["common", "example"]);
    let resolved = resolve_command(&config, &a).expect("resolved");
    assert!(!resolved.command.is_runnable());
    assert!(detect_terminal_command_collision(&config, &a, resolved.consumed).is_ok());
}

#[test]
fn detects_collision_between_implicit_namespace_group_and_global_group() {
    let config = LoadedConfig {
        files: vec![
            file(SourceKind::Local, "/tmp/local-ns.fire.yml", namespace("ex"), StrMap::new()),
            file(SourceKind::Local, "/tmp/local-group.fire.yml", namespace_group("ex", "common"), example_exec()),
            file(SourceKind::Global, "/tmp/global-group.fire.yml", group("common"), example_exec()),
        ],
    };
    let a = args(&["common", "example"]);
    let resolved = resolve_command(&config, &a).expect("resolved");
    let error = detect_terminal_command_collision(&config, &a, resolved.consumed).expect_err("must report collision");
    assert!(error.contains("invocation: common example"));
    assert!(error.contains("/tmp/local-group.fire.yml"));
    assert!(error.contains("/tmp/global-group.fire.yml"));
}

#[test]
fn terminal_and_non_terminal_same_name_both_work() {
    let nested_example = CommandEntry::Spec(CommandSpec {
        commands: commands(vec![("nested", CommandEntry::Shorthand("echo \"hello world\"".to_string()))]),
        ..CommandSpec::default()
    });
    let config = LoadedConfig {
        files: vec![
            file(SourceKind::Local, "/tmp/one.fire.yml", FileScope::Root, commands(vec![("example", nested_example)])),
            file(
                SourceKind::Local,
                "/tmp/two.fire.yml",
                FileScope::Root,
                commands(vec![("example", CommandEntry::Shorthand("echo \"hello world\"".to_string()))]),
            ),
        ],
    };
    let root_args = args(&["example"]);
    let root_resolved = resolve_command(&config, &root_args).expect("resolve example");
    assert!(root_resolved.command.is_runnable());
    assert!(detect_terminal_command_collision(&config, &root_args, root_resolved.consumed).is_ok());

    let nested_args = args(&["example", "nested"]);
    let nested_resolved = resolve_command(&config, &nested_args).expect("resolve nested");
    assert_eq!(nested_resolved.consumed, 2);
    assert!(nested_resolved.command.is_runnable());
    assert!(detect_terminal_command_collision(&config, &nested_args, nested_resolved.consumed).is_ok());
}

#[test]
fn unknown_command_does_not_resolve() {
    let config = LoadedConfig {
        files: vec![file(SourceKind::Local, "/tmp/a.fire.yml", FileScope::Root, example_exec())],
    };
    assert!(resolve_command(&config, &args(&["missing"])).is_none());
    assert!(resolve_command(&config, &[]).is_none());
}

#[test]
fn deepest_path_wins() {
    let deep = CommandEntry::Spec(CommandSpec {
        execute: Some(CommandAction::Single("echo parent".to_string())),
        commands: commands(vec![("child", exec("echo child"))]),
        ..CommandSpec::default()
    });
    let config = LoadedConfig {
        files: vec![file(SourceKind::Local, "/tmp/a.fire.yml", FileScope::Root, commands(vec![("parent", deep)]))],
    };
    let a = args(&["parent", "child", "x"]);
    let resolved = resolve_command(&config, &a).expect("resolved");
    assert_eq!(resolved.consumed, 2);
    assert_eq!(resolved.command_chain.len(), 2);
    assert_eq!(resolved.remaining_args, &["x".to_string()]);
    let a = args(&["parent", "other"]);
    let resolved = resolve_command(&config, &a).expect("resolved parent");
    assert_eq!(resolved.consumed, 1);
}

#[test]
fn local_definition_wins_over_global_at_equal_depth() {
    let config = LoadedConfig {
        files: vec![
            file(SourceKind::Global, "/tmp/g.fire.yml", FileScope::Root, commands(vec![("x", exec("echo global"))])),
            file(SourceKind::Local, "/tmp/l.fire.yml", FileScope::Root, commands(vec![("x", exec("echo local"))])),
        ],
    };
    let a = args(&["x"]);
    let resolved = resolve_command(&config, &a).expect("resolved");
    assert_eq!(resolved.command.execution_commands(), Some(vec!["echo local".to_string()]));
}
