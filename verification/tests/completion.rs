use fire::completion::{
    completion_suggestions, filter_prefix, first_description_line, render_values_only, render_with_descriptions,
    root_suggestions, CompletionSuggestion,
};
use fire::config::{
    CommandAction, CommandEntry, CommandSpec, FileConfig, FileScope, LoadedConfig, SourceKind,
};
use fire::strmap::StrMap;

fn described(description: &str, exec: &str) -> CommandEntry {
    let mut spec = CommandSpec::default();
    spec.description = description.to_string();
    spec.execute = Some(CommandAction::Single(exec.to_string()));
    CommandEntry::Spec(spec)
}

fn commands(entries: Vec<(&str, CommandEntry)>) -> StrMap<CommandEntry> {
    let mut map = StrMap::new();
    for (name, entry) in entries {
        map.insert(name.to_string(), entry);
    }
    map
}

fn file(source: SourceKind, scope: FileScope, commands: StrMap<CommandEntry>) -> FileConfig {
    FileConfig {
        source,
        project_dir: "/tmp".to_string(),
        config_path: "/tmp/fire.yml".to_string(),
        scope,
        runtimes: StrMap::new(),
        commands,
    }
}

fn config_with_scopes() -> LoadedConfig {
    LoadedConfig {
        files: vec![
            file(
                SourceKind::Local,
                FileScope::Root,
                commands(vec![
                    ("run", described("run local", "npm run")),
                    ("dev", described("local dev", "npm run dev")),
                ]),
            ),
            file(
                SourceKind::Global,
                FileScope::Namespace {
                    namespace: "ex".to_string(),
                    namespace_description: "example namespace".to_string(),
                },
                commands(vec![("api", described("api command", "npm run api"))]),
            ),
            file(
                SourceKind::Global,
                FileScope::Group { group: "backend".to_string(), group_description: String::new() },
                commands(vec![("start", described("start service", "npm run start"))]),
            ),
            file(
                SourceKind::Global,
                FileScope::Root,
                commands(vec![("ping", described("global direct command", "echo ping"))]),
            ),
            file(
                SourceKind::Global,
                FileScope::NamespaceGroup {
                    namespace: "ex".to_string(),
                    namespace_description: String::new(),
                    group: "ops".to_string(),
                    group_description: String::new(),
                },
                commands(vec![("deploy", described("deploy service", "npm run deploy"))]),
            ),
        ],
    }
}

fn names(values: Vec<CompletionSuggestion>) -> Vec<String> {
    values.into_iter().map(|it| it.value).collect()
}

fn words(v: &[&str]) -> Vec<String> {
    v.iter().map(|s| s.to_string()).collect()
}

#[test]
fn root_suggestions_respect_priority_groups() {
    let config = config_with_scopes();
    let values = completion_suggestions(&config, &[]);
    assert_eq!(names(values), vec!["dev", "run", "ex", "backend", "ping"]);
}

#[test]
fn namespace_lists_commands_and_nested_groups() {
    let config = config_with_scopes();
    let values = completion_suggestions(&config, &words(&["ex"]));
    assert_eq!(names(values), vec!["api", "ops"]);
}

#[test]
fn namespace_prefix_lists_only_scoped_commands() {
    let config = config_with_scopes();
    let values = completion_suggestions(&config, &words(&["ex", "ops"]));
    assert_eq!(names(values), vec!["deploy"]);
}

#[test]
fn namespace_prefix_filters_commands_by_prefix() {
    let config = config_with_scopes();
    let values = completion_suggestions(&config, &words(&["ex", "ops", "de"]));
    assert_eq!(names(values), vec!["deploy"]);
}

#[test]
fn local_command_from_namespace_prefix_exposes_nested_completion() {
    let mut run = CommandSpec::default();
    run.execute = Some(CommandAction::Single("npm run".to_string()));
    run.commands = commands(vec![
        ("start", CommandEntry::Shorthand("npm run start".to_string())),
        ("test", CommandEntry::Shorthand("npm run test".to_string())),
    ]);
    let config = LoadedConfig {
        files: vec![file(
            SourceKind::Local,
            FileScope::NamespaceGroup {
                namespace: "ex".to_string(),
                namespace_description: String::new(),
                group: "ops".to_string(),
                group_description: String::new(),
            },
            commands(vec![("run", CommandEntry::Spec(run))]),
        )],
    };
    let values = completion_suggestions(&config, &words(&["run"]));
    assert_eq!(names(values), vec!["start", "test"]);
}

#[test]
fn render_with_descriptions_uses_only_first_line() {
    let values = vec![CompletionSuggestion {
        value: "run".to_string(),
        description: Some("run service\nwith host".to_string()),
    }];
    assert_eq!(render_with_descriptions(&values), vec!["run\trun service".to_string()]);
}

#[test]
fn root_prefix_filters_and_descriptions_follow() {
    let config = config_with_scopes();
    let values = root_suggestions(&config, "d");
    assert_eq!(values.len(), 1);
    assert_eq!(values[0].value, "dev");
    assert_eq!(values[0].description.as_deref(), Some("local dev"));
}

#[test]
fn root_suggestions_all_start_with_prefix() {
    let config = config_with_scopes();
    for prefix in ["", "e", "b", "p", "zz"] {
        for s in root_suggestions(&config, prefix) {
            assert!(s.value.starts_with(prefix));
        }
    }
}

#[test]
fn completion_values_have_no_duplicates() {
    let mut config = config_with_scopes();
    // A second local root file that repeats `run`.
    config.files.push(file(
        SourceKind::Local,
        FileScope::Root,
        commands(vec![("run", described("again", "npm run again"))]),
    ));
    let values = names(completion_suggestions(&config, &[]));
    let mut sorted = values.clone();
    sorted.sort();
    sorted.dedup();
    assert_eq!(sorted.len(), values.len());
}

#[test]
fn group_word_lists_its_commands() {
    let config = config_with_scopes();
    let values = completion_suggestions(&config, &words(&["backend"]));
    assert_eq!(names(values), vec!["start"]);
}

#[test]
fn render_values_only_drops_descriptions() {
    let values = vec![
        CompletionSuggestion { value: "a".to_string(), description: Some("x".to_string()) },
        CompletionSuggestion { value: "b".to_string(), description: None },
    ];
    assert_eq!(render_values_only(&values), vec!["a".to_string(), "b".to_string()]);
    assert_eq!(render_with_descriptions(&values), vec!["a\tx".to_string(), "b".to_string()]);
}

#[test]
fn first_description_line_trims() {
    assert_eq!(first_description_line("  hello  \nworld"), "hello");
    assert_eq!(first_description_line(""), "");
}

#[test]
fn filter_prefix_keeps_matching() {
    let values = vec![
        CompletionSuggestion { value: "deploy".to_string(), description: None },
        CompletionSuggestion { value: "dev".to_string(), description: None },
        CompletionSuggestion { value: "run".to_string(), description: None },
    ];
    assert_eq!(names(filter_prefix("de", values)), vec!["deploy", "dev"]);
}
