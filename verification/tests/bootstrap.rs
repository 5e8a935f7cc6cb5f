use fire::bootstrap::{deno_runtime_bootstrap_script, node_runtime_bootstrap_script, python_runtime_bootstrap_script};
use fire::execute::{default_runtime_runner, runtime_bootstrap_invocation, RuntimeSdk};

#[test]
fn bootstrap_scripts_use_the_protocol_markers() {
    for script in [python_runtime_bootstrap_script(), node_runtime_bootstrap_script(), deno_runtime_bootstrap_script()] {
        assert!(script.contains("__FIRE_DONE__"));
        assert!(script.contains("__FIRE_RESULT__"));
    }
}

#[test]
fn bootstrap_invocations_start_with_their_flags() {
    assert!(runtime_bootstrap_invocation(&RuntimeSdk::Python).starts_with("-u -c '"));
    assert!(runtime_bootstrap_invocation(&RuntimeSdk::Node).starts_with("-e '"));
    assert_eq!(default_runtime_runner(&RuntimeSdk::Deno), "deno");
}

#[test]
fn launch_command_prefixes_runner() {
    let launch = fire::execute::runtime_launch_command("python3", &RuntimeSdk::Python);
    assert!(launch.starts_with("python3 -u -c '"));
}
