use fire::config::{CommandAction, CommandEntry, CommandSpec, FileConfig, FileScope, LoadedConfig, SourceKind};
use fire::mcp::{build_command_context, lowered_texts_match, search_context, CommandNode};
use fire::strmap::StrMap;

fn commands(entries: Vec<(&str, CommandEntry)>) -> StrMap<CommandEntry> {
    let mut map = StrMap::new();
    for (name, entry) in entries {
        map.insert(name.to_string(), entry);
    }
    map
}

fn single(source: SourceKind, scope: FileScope, commands: StrMap<CommandEntry>) -> LoadedConfig {
    LoadedConfig {
        files: vec![FileConfig {
            source,
            project_dir: ".".to_string(),
            config_path: "/tmp/fire-test.yml".to_string(),
            scope,
            runtimes: StrMap::new(),
            commands,
        }],
    }
}

fn find<'a>(nodes: &'a [CommandNode], name: &str) -> Option<&'a CommandNode> {
    nodes.iter().find(|node| node.name == name)
}

fn exec_spec(description: &str, exec: &str) -> CommandEntry {
    CommandEntry::Spec(CommandSpec {
        description: description.to_string(),
        execute: Some(CommandAction::Single(exec.to_string())),
        ..CommandSpec::default()
    })
}

#[test]
fn root_scope_produces_bare_path() {
    let config = single(SourceKind::Local, FileScope::Root, commands(vec![("run", exec_spec("Run local", "npm run"))]));
    let context = build_command_context(&config, "1.0.0");
    let run = find(&context.commands, "run").expect("run command");
    assert_eq!(run.path, "fire run");
    assert_eq!(run.description.as_deref(), Some("Run local"));
    assert_eq!(run.execute, Some(vec!["npm run".to_string()]));
    assert!(run.runnable);
}

#[test]
fn namespace_group_scope_prefixes_path() {
    let config = single(
        SourceKind::Global,
        FileScope::NamespaceGroup {
            namespace: "ex".to_string(),
            namespace_description: String::new(),
            group: "backend".to_string(),
            group_description: String::new(),
        },
        commands(vec![("logs", exec_spec("", "docker compose logs"))]),
    );
    let context = build_command_context(&config, "1.0.0");
    let logs = find(&context.commands, "logs").expect("logs command");
    assert_eq!(logs.path, "fire ex backend logs");
    assert_eq!(logs.namespace.as_deref(), Some("ex"));
    assert_eq!(logs.group.as_deref(), Some("backend"));
}

#[test]
fn nested_subcommands_build_full_path() {
    let hello = CommandEntry::Spec(CommandSpec {
        description: "say twice".to_string(),
        execute: Some(CommandAction::Multiple(vec!["echo hello world".to_string(), "echo again {1}".to_string()])),
        ..CommandSpec::default()
    });
    let double = CommandEntry::Spec(CommandSpec { commands: commands(vec![("hello", hello)]), ..CommandSpec::default() });
    let config = single(SourceKind::Local, FileScope::Root, commands(vec![("double", double)]));
    let context = build_command_context(&config, "1.0.0");
    let double = find(&context.commands, "double").expect("double command");
    assert!(!double.runnable);
    let hello = find(&double.subcommands, "hello").expect("hello subcommand");
    assert_eq!(hello.path, "fire double hello");
    assert_eq!(hello.execute, Some(vec!["echo hello world".to_string(), "echo again {1}".to_string()]));
}

#[test]
fn eval_only_command_captures_eval_expressions() {
    let computed = CommandEntry::Spec(CommandSpec {
        eval: Some(CommandAction::Single("py:sayHello(\"{1}\")".to_string())),
        ..CommandSpec::default()
    });
    let config = single(SourceKind::Local, FileScope::Root, commands(vec![("computed", computed)]));
    let context = build_command_context(&config, "1.0.0");
    let computed = find(&context.commands, "computed").expect("computed command");
    assert_eq!(computed.eval, Some(vec!["py:sayHello(\"{1}\")".to_string()]));
    assert_eq!(computed.execute, None);
}

#[test]
fn search_matches_on_description_and_exec() {
    let config = single(
        SourceKind::Local,
        FileScope::Root,
        commands(vec![
            ("run", exec_spec("Run the backend service", "npm run start")),
            ("other", exec_spec("", "echo unrelated")),
        ]),
    );
    let context = build_command_context(&config, "1.0.0");
    let matches = search_context(&context, "backend");
    assert_eq!(matches.len(), 1);
    assert_eq!(matches[0].path, "fire run");
    let matches = search_context(&context, "npm");
    assert_eq!(matches.len(), 1);
    assert_eq!(matches[0].path, "fire run");
}

#[test]
fn search_is_case_insensitive() {
    let config = single(
        SourceKind::Local,
        FileScope::Root,
        commands(vec![("run", exec_spec("Run the Backend service", "npm run start"))]),
    );
    let context = build_command_context(&config, "1.0.0");
    assert_eq!(search_context(&context, "BACKEND").len(), 1);
    assert_eq!(search_context(&context, "missing").len(), 0);
}

#[test]
fn empty_query_matches_every_command() {
    let nested = CommandEntry::Spec(CommandSpec {
        commands: commands(vec![("inner", exec_spec("", "echo inner"))]),
        ..CommandSpec::default()
    });
    let config = single(
        SourceKind::Local,
        FileScope::Root,
        commands(vec![("a", exec_spec("", "echo a")), ("b", nested)]),
    );
    let context = build_command_context(&config, "1.0.0");
    let paths: Vec<String> = search_context(&context, "").into_iter().map(|m| m.path).collect();
    assert_eq!(paths, vec!["fire a".to_string(), "fire b".to_string(), "fire b inner".to_string()]);
}

#[test]
fn context_carries_version() {
    let config = single(SourceKind::Local, FileScope::Root, StrMap::new());
    let context = build_command_context(&config, "2.3.4");
    assert_eq!(context.fire_version, "2.3.4");
    assert!(context.commands.is_empty());
}

#[test]
fn lowered_texts_match_on_given_texts() {
    let lines = vec!["cargo build".to_string(), "cargo test".to_string()];
    let description = Some("builds the crate".to_string());
    assert!(lowered_texts_match("app build", &None, &Vec::new(), ""));
    assert!(lowered_texts_match("app build", &None, &Vec::new(), "app b"));
    assert!(lowered_texts_match("app", &description, &Vec::new(), "crate"));
    assert!(lowered_texts_match("app", &None, &lines, "test"));
    assert!(!lowered_texts_match("app", &description, &lines, "deploy"));
    assert!(!lowered_texts_match("App", &None, &Vec::new(), "app"));
}
