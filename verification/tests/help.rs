use fire::config::{CommandAction, CommandEntry, CommandSpec, FileConfig, FileScope, LoadedConfig, SourceKind};
use fire::help::{
    group_description, groups, has_namespace, has_namespace_prefix, has_root_group, namespace_commands,
    namespace_description, namespace_groups, namespaces, print_command_help, print_root_help, print_scope_help,
    print_section,
};
use fire::strmap::StrMap;

fn described(description: &str, exec: &str) -> CommandEntry {
    CommandEntry::Spec(CommandSpec {
        description: description.to_string(),
        execute: Some(CommandAction::Single(exec.to_string())),
        ..CommandSpec::default()
    })
}

fn commands(entries: Vec<(&str, CommandEntry)>) -> StrMap<CommandEntry> {
    let mut map = StrMap::new();
    for (name, entry) in entries {
        map.insert(name.to_string(), entry);
    }
    map
}

fn file(source: SourceKind, scope: FileScope, commands: StrMap<CommandEntry>) -> FileConfig {
    FileConfig {
        source,
        project_dir: ".".to_string(),
        config_path: "/tmp/fire-test.yml".to_string(),
        scope,
        runtimes: StrMap::new(),
        commands,
    }
}

fn sample_config() -> LoadedConfig {
    LoadedConfig {
        files: vec![
            file(SourceKind::Local, FileScope::Root, commands(vec![("run", described("Run local", "npm run"))])),
            file(
                SourceKind::Global,
                FileScope::Namespace { namespace: "ex".to_string(), namespace_description: "Example".to_string() },
                commands(vec![("api", described("API command", "npm run api"))]),
            ),
            file(
                SourceKind::Global,
                FileScope::NamespaceGroup {
                    namespace: "ex".to_string(),
                    namespace_description: "Example".to_string(),
                    group: "backend".to_string(),
                    group_description: "Backend commands".to_string(),
                },
                commands(vec![("deploy", described("Deploy command", "npm run deploy"))]),
            ),
        ],
    }
}

fn words(v: &[&str]) -> Vec<String> {
    v.iter().map(|s| s.to_string()).collect()
}

#[test]
fn scope_help_detects_namespace() {
    let config = sample_config();
    let mut lines = Vec::new();
    assert!(print_scope_help(&mut lines, &config, &words(&["ex"])));
}

#[test]
fn scope_help_detects_namespace_prefix() {
    let config = sample_config();
    let mut lines = Vec::new();
    assert!(print_scope_help(&mut lines, &config, &words(&["ex", "backend"])));
}

#[test]
fn namespace_commands_exclude_namespace_group_commands() {
    let config = sample_config();
    let commands = namespace_commands(&config, "ex");
    let names: Vec<String> = commands.into_iter().map(|(name, _)| name).collect();
    assert_eq!(names, vec!["api".to_string()]);
}

#[test]
fn namespace_groups_include_group_description() {
    let config = sample_config();
    let groups = namespace_groups(&config, "ex");
    assert_eq!(groups, vec![("backend".to_string(), Some("Backend commands".to_string()))]);
}

#[test]
fn scope_help_unknown_scope_prints_nothing() {
    let config = sample_config();
    let mut lines = Vec::new();
    assert!(!print_scope_help(&mut lines, &config, &words(&["nope"])));
    assert!(lines.is_empty());
}

#[test]
fn scope_lookups() {
    let config = sample_config();
    assert!(has_namespace(&config, "ex"));
    assert!(!has_namespace(&config, "backend"));
    assert!(has_namespace_prefix(&config, "ex", "backend"));
    assert!(!has_root_group(&config, "backend"));
    assert_eq!(namespace_description(&config, "ex"), Some("Example".to_string()));
    assert_eq!(group_description(&config, "backend"), None);
    assert_eq!(namespaces(&config), vec![("ex".to_string(), Some("Example".to_string()))]);
    assert!(groups(&config).is_empty());
}

#[test]
fn section_pads_names_to_the_widest() {
    let mut lines = Vec::new();
    let items = vec![("a".to_string(), Some("first".to_string())), ("long".to_string(), None)];
    print_section(&mut lines, "Commands", &items);
    assert_eq!(lines[0], "Commands:");
    assert!(lines.iter().any(|l| l.contains("a") && l.contains("first")));
    assert!(lines.iter().any(|l| l.contains("long")));
}

#[test]
fn root_help_lists_local_commands() {
    let config = sample_config();
    let mut lines = Vec::new();
    print_root_help(&mut lines, &config, "1.0.0");
    let text = lines.join("\n");
    assert!(text.contains("run"));
    assert!(text.contains("Run local"));
    assert!(text.contains("ex"));
}

#[test]
fn command_help_shows_description_and_subcommands() {
    let entry = CommandEntry::Spec(CommandSpec {
        description: "Top".to_string(),
        commands: commands(vec![("child", described("Child command", "echo child"))]),
        ..CommandSpec::default()
    });
    let mut lines = Vec::new();
    print_command_help(&mut lines, &words(&["top"]), &entry, "1.0.0");
    let text = lines.join("\n");
    assert!(text.contains("Top"));
    assert!(text.contains("child"));
    assert!(text.contains("Child command"));
}
