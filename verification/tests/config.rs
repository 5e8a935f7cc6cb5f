use fire::config::{
    config_file_kind, discover_config_files_from_dirs, load_global_file_configs, load_local_file_configs,
    local_implicit_namespace, order_config_files, resolve_include_directories, scope_from_raw,
    select_directory_default_namespace_prefix, select_directory_explicit_namespace,
    select_local_default_namespace_prefix, CommandAction, CommandEntry, CommandSpec, FileConfig, FileScope,
    FireFileRaw, IncludeRequest, LoadedConfig, NamespaceRaw, NamespaceScope, ParsedFireFile, SourceKind,
};
use fire::paths::normalize_relative_include_path;
use fire::strmap::StrMap;

fn parsed(path: &str, raw: FireFileRaw) -> ParsedFireFile {
    ParsedFireFile { path: path.to_string(), raw }
}

fn with_namespace(prefix: &str, description: &str) -> FireFileRaw {
    let mut raw = FireFileRaw::default();
    raw.namespace = Some(NamespaceRaw { prefix: prefix.to_string(), description: description.to_string() });
    raw
}

fn with_command(mut raw: FireFileRaw, name: &str, exec: &str) -> FireFileRaw {
    raw.commands.insert(name.to_string(), CommandEntry::Shorthand(exec.to_string()));
    raw
}

fn namespace_file(namespace: &str) -> FileConfig {
    FileConfig {
        source: SourceKind::Local,
        project_dir: ".".to_string(),
        config_path: "/tmp/fire-test.yml".to_string(),
        scope: FileScope::Namespace { namespace: namespace.to_string(), namespace_description: String::new() },
        runtimes: StrMap::new(),
        commands: StrMap::new(),
    }
}

#[test]
fn missing_namespace_uses_directory_explicit_prefix() {
    let raw = FireFileRaw::default();
    let scope = scope_from_raw(&raw, Some("ex"), None);
    match scope {
        FileScope::Namespace { namespace, .. } => assert_eq!(namespace, "ex"),
        _ => panic!("expected namespace scope"),
    }
}

#[test]
fn missing_namespace_without_directory_prefix_stays_root() {
    let raw = FireFileRaw::default();
    let scope = scope_from_raw(&raw, None, None);
    match scope {
        FileScope::Root => {}
        _ => panic!("expected root scope"),
    }
}

#[test]
fn select_directory_default_namespace_prefix_reads_first_explicit() {
    let files = vec![
        parsed("/tmp/one.fire.yml", with_namespace("ex", "")),
        parsed("/tmp/two.fire.yml", FireFileRaw::default()),
    ];
    let selected = select_directory_default_namespace_prefix(&files);
    assert_eq!(selected, Some("ex".to_string()));
}

#[test]
fn select_local_default_namespace_prefix_falls_back_to_directory_name() {
    let files = vec![parsed("/tmp/one.fire.yml", FireFileRaw::default())];
    let selected = select_local_default_namespace_prefix(&files, "/tmp/My Project");
    assert_eq!(selected, "my-project".to_string());
}

#[test]
fn included_file_uses_forced_root_namespace() {
    let mut raw = with_namespace("custom", "Custom");
    raw.group = "backend".to_string();
    let forced = NamespaceScope { prefix: "ex".to_string(), description: "Example".to_string() };
    let scope = scope_from_raw(&raw, None, Some(&forced));
    match scope {
        FileScope::NamespaceGroup { namespace, namespace_description, group, .. } => {
            assert_eq!(namespace, "ex");
            assert_eq!(namespace_description, "Example");
            assert_eq!(group, "backend");
        }
        _ => panic!("expected namespace group scope"),
    }
}

#[test]
fn include_paths_must_be_relative_and_non_parent() {
    assert!(normalize_relative_include_path("samples/").is_some());
    assert!(normalize_relative_include_path("./samples").is_some());
    assert!(normalize_relative_include_path("../samples").is_none());
    assert!(normalize_relative_include_path("/abs").is_none());
    assert!(normalize_relative_include_path("").is_none());
}

#[test]
fn eval_only_command_is_runnable() {
    let command = CommandEntry::Spec(CommandSpec {
        eval: Some(CommandAction::Single("py:sayHello()".to_string())),
        ..CommandSpec::default()
    });
    assert!(command.is_runnable());
}

#[test]
fn command_without_exec_run_or_eval_is_not_runnable() {
    let command = CommandEntry::Spec(CommandSpec::default());
    assert!(!command.is_runnable());
}

#[test]
fn local_implicit_namespace_requires_single_value() {
    let config_single = LoadedConfig { files: vec![namespace_file("ex")] };
    assert_eq!(local_implicit_namespace(&config_single), Some("ex".to_string()));
    let config_multiple = LoadedConfig { files: vec![namespace_file("ex"), namespace_file("qa")] };
    assert_eq!(local_implicit_namespace(&config_multiple), None);
}

#[test]
fn included_files_inherit_directory_namespace() {
    let root = vec![parsed("/p/fire.yml", with_command(with_namespace("ex", "Example"), "run", "npm run"))];
    let mut included_raw = with_command(with_namespace("ignored", "Ignored"), "build", "npm run build");
    included_raw.group = "backend".to_string();
    let included = vec![parsed("/p/samples/deploy.fire.yml", included_raw)];
    let files = load_local_file_configs("/p", SourceKind::Local, root, included);
    assert_eq!(files.len(), 2);
    assert!(files[1].commands.contains_key("build"));
    match &files[1].scope {
        FileScope::NamespaceGroup { namespace, namespace_description, group, .. } => {
            assert_eq!(namespace, "ex");
            assert_eq!(namespace_description, "Example");
            assert_eq!(group, "backend");
        }
        _ => panic!("expected namespace group"),
    }
}

#[test]
fn global_files_without_namespace_stay_root() {
    let root = vec![parsed("/g/fire.yml", with_command(FireFileRaw::default(), "root", "echo root"))];
    let included = vec![parsed("/g/samples/test.fire.yml", with_command(FireFileRaw::default(), "test", "echo test"))];
    let files = load_global_file_configs("/g", SourceKind::Global, root, included);
    assert_eq!(files.len(), 2);
    assert!(files[0].commands.contains_key("root"));
    assert!(files[1].commands.contains_key("test"));
    assert!(matches!(files[0].scope, FileScope::Root));
    assert!(matches!(files[1].scope, FileScope::Root));
    assert_eq!(files[1].config_path, "/g/samples/test.fire.yml");
}

#[test]
fn local_files_without_namespace_take_directory_name() {
    let root = vec![parsed("/tmp/Web App/fire.yml", FireFileRaw::default())];
    let files = load_local_file_configs("/tmp/Web App", SourceKind::Local, root, Vec::new());
    match &files[0].scope {
        FileScope::Namespace { namespace, .. } => assert_eq!(namespace, "web-app"),
        _ => panic!("expected namespace scope"),
    }
}

#[test]
fn directory_explicit_namespace_skips_blank_prefixes() {
    let files = vec![
        parsed("/a.fire.yml", with_namespace("   ", "x")),
        parsed("/b.fire.yml", with_namespace(" qa ", " Quality ")),
    ];
    let n = select_directory_explicit_namespace(&files).expect("namespace");
    assert_eq!(n.prefix, "qa");
    assert_eq!(n.description, "Quality");
}

#[test]
fn include_requests_classify_paths() {
    let mut raw = FireFileRaw::default();
    raw.includes = vec!["samples/".to_string(), "../up".to_string()];
    let files = vec![parsed("/p/fire.yml", raw)];
    let requests = resolve_include_directories("/p", &files);
    assert_eq!(requests.len(), 2);
    match &requests[0] {
        IncludeRequest::Directory(path) => assert_eq!(path, "/p/samples"),
        other => panic!("unexpected {:?}", other),
    }
    match &requests[1] {
        IncludeRequest::Invalid(path) => assert_eq!(path, "../up"),
        other => panic!("unexpected {:?}", other),
    }
}

#[test]
fn config_file_names_are_classified() {
    assert_eq!(config_file_kind("fire.yml"), Some(true));
    assert_eq!(config_file_kind("fire.yaml"), Some(true));
    assert_eq!(config_file_kind("api.fire.yml"), Some(false));
    assert_eq!(config_file_kind("api.yml"), None);
}

#[test]
fn base_files_come_before_pattern_files() {
    let base = vec!["/p/fire.yml".to_string()];
    let pattern = vec!["/p/b.fire.yml".to_string(), "/p/a.fire.yml".to_string()];
    let ordered = order_config_files(&base, &pattern);
    assert_eq!(ordered[0], "/p/fire.yml");
    assert_eq!(ordered.len(), 3);
    let found = vec!["/p/b.fire.yml".to_string(), "/p/fire.yml".to_string(), "/p/a.fire.yml".to_string()];
    assert_eq!(
        discover_config_files_from_dirs(&found),
        vec!["/p/a.fire.yml".to_string(), "/p/b.fire.yml".to_string(), "/p/fire.yml".to_string()]
    );
}
