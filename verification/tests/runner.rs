use fire::paths::{join_path, normalize_relative_include_path, path_file_name, path_key_of, sorted_paths};
use fire::runner::{build_runner_script, is_supported_interactive_shell, run_with_runner, split_whitespace, RunnerPlan};

fn strings(v: &[&str]) -> Vec<String> {
    v.iter().map(|s| s.to_string()).collect()
}

#[test]
fn runner_script_stops_on_first_failure() {
    assert_eq!(build_runner_script(&strings(&["a", "b"])), "set -e\na\nb\n");
    assert_eq!(build_runner_script(&[]), "set -e\n");
}

#[test]
fn split_whitespace_drops_blank_runs() {
    assert_eq!(split_whitespace("  a \t b\nc  "), strings(&["a", "b", "c"]));
    assert!(split_whitespace("   ").is_empty());
}

#[test]
fn interactive_shells_are_known() {
    assert!(is_supported_interactive_shell("zsh"));
    assert!(is_supported_interactive_shell("fish"));
    assert!(!is_supported_interactive_shell("python"));
}

#[test]
fn run_with_runner_plans() {
    assert!(matches!(run_with_runner("bash", &[], false, true), RunnerPlan::Nothing));
    match run_with_runner("docker run -it img sh", &strings(&["echo a"]), true, true) {
        RunnerPlan::DryRun { runner } => assert_eq!(runner, "docker run -i img sh"),
        _ => panic!("expected a dry run"),
    }
    match run_with_runner("bash", &strings(&["echo a"]), false, true) {
        RunnerPlan::Attached { invocation } => assert_eq!(invocation, "bash -c 'set -e\necho a\n'"),
        _ => panic!("expected an attached run"),
    }
    match run_with_runner("bash", &strings(&["echo a"]), false, false) {
        RunnerPlan::Piped { runner, input } => {
            assert_eq!(runner, "bash");
            assert_eq!(input, "set -e\necho a\nexit\n");
        }
        _ => panic!("expected a piped run"),
    }
}

#[test]
fn path_helpers() {
    assert_eq!(path_file_name("/tmp/My Project"), Some("My Project".to_string()));
    assert_eq!(path_file_name("/tmp/.."), None);
    assert_eq!(path_file_name("/"), None);
    assert_eq!(join_path("/a", "b"), "/a/b");
    assert_eq!(join_path("/a/", "b"), "/a/b");
    assert_eq!(join_path("/a", "/b"), "/b");
    assert_eq!(normalize_relative_include_path("./a//b/"), Some("a/b".to_string()));
    assert_eq!(normalize_relative_include_path("a/../b"), None);
    assert_eq!(path_key_of("/a/./b/"), path_key_of("/a/b"));
}

#[test]
fn sorted_paths_orders_by_components_and_drops_duplicates() {
    let paths = strings(&["/b", "/a/z", "/a", "/a/"]);
    assert_eq!(sorted_paths(&paths), strings(&["/a", "/a/z", "/b"]));
}
