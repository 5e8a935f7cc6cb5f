use fire::config::{CommandAction, CommandEntry, CommandSpec, FileConfig, FileScope, LoadedConfig, RuntimeConfig, SourceKind};
use fire::execute::{RuntimeEvalResult, RuntimeResponse};
use fire::flow::{
    compute_begin, compute_record, execution_plan, next_eval_step, next_execution_step, ComputeAction, ComputeState,
    EvalAction, EvalEvent, EvalState, ExecutionAction, ExecutionEvent, ExecutionPlan, ExecutionStage,
};
use fire::render::{ExecutionContext, RenderStats};
use fire::runner::RunnerMode;
use fire::execute::build_execution_context;
use fire::resolve::resolve_command;
use fire::strmap::StrMap;

fn strings(v: &[&str]) -> Vec<String> {
    v.iter().map(|s| s.to_string()).collect()
}

fn plan(check: Option<&str>, runner: Option<&str>, fallback: Option<&str>, before: Option<&str>) -> ExecutionPlan {
    ExecutionPlan {
        check: check.map(str::to_string),
        runner: runner.map(str::to_string),
        fallback_runner: fallback.map(str::to_string),
        before: before.map(str::to_string),
        commands: strings(&["echo a"]),
    }
}

#[test]
fn direct_run_without_check_or_before() {
    let p = plan(None, None, None, None);
    let (stage, action) = next_execution_step(&p, ExecutionStage::Start, ExecutionEvent::Begin);
    assert!(matches!(stage, ExecutionStage::AwaitRun));
    match action {
        ExecutionAction::RunDirect(commands) => assert_eq!(commands, strings(&["echo a"])),
        other => panic!("unexpected {:?}", other),
    }
    let (stage, action) = next_execution_step(&p, stage, ExecutionEvent::RunFinished(3));
    assert!(matches!(stage, ExecutionStage::Finished));
    assert!(matches!(action, ExecutionAction::Exit(3)));
}

#[test]
fn failed_check_uses_fallback_and_skips_before() {
    let p = plan(Some("test -f x"), Some("docker exec -i app sh"), Some("sh"), Some("make prep"));
    let (stage, action) = next_execution_step(&p, ExecutionStage::Start, ExecutionEvent::Begin);
    assert!(matches!(stage, ExecutionStage::AwaitCheck));
    assert!(matches!(action, ExecutionAction::RunCheck(ref c) if c == "test -f x"));
    let (stage, action) = next_execution_step(&p, stage, ExecutionEvent::CheckFinished(false));
    assert!(matches!(stage, ExecutionStage::AwaitRun));
    assert!(matches!(action, ExecutionAction::RunThroughRunner(ref r, _) if r == "sh"));
}

#[test]
fn passed_check_runs_before_then_runner() {
    let p = plan(Some("true"), Some("bash"), None, Some("make prep"));
    let (stage, _) = next_execution_step(&p, ExecutionStage::Start, ExecutionEvent::Begin);
    let (stage, action) = next_execution_step(&p, stage, ExecutionEvent::CheckFinished(true));
    assert!(matches!(stage, ExecutionStage::AwaitBefore(RunnerMode::Runner(ref r)) if r == "bash"));
    assert!(matches!(action, ExecutionAction::RunBefore(ref b) if b == "make prep"));
    let (stage, action) = next_execution_step(&p, stage, ExecutionEvent::BeforeFinished(0));
    assert!(matches!(stage, ExecutionStage::AwaitRun));
    assert!(matches!(action, ExecutionAction::RunThroughRunner(ref r, _) if r == "bash"));
}

#[test]
fn failing_before_stops_with_its_status() {
    let p = plan(None, None, None, Some("false"));
    let (stage, _) = next_execution_step(&p, ExecutionStage::Start, ExecutionEvent::Begin);
    let (stage, action) = next_execution_step(&p, stage, ExecutionEvent::BeforeFinished(7));
    assert!(matches!(stage, ExecutionStage::Finished));
    assert!(matches!(action, ExecutionAction::Exit(7)));
}

#[test]
fn failed_check_without_fallback_fails() {
    let p = plan(Some("false"), Some("bash"), None, None);
    let (stage, _) = next_execution_step(&p, ExecutionStage::Start, ExecutionEvent::Begin);
    let (_, action) = next_execution_step(&p, stage, ExecutionEvent::CheckFinished(false));
    match action {
        ExecutionAction::Fail(m) => assert_eq!(m, "Check command failed and no fallback_runner is configured."),
        other => panic!("unexpected {:?}", other),
    }
}

#[test]
fn unexpected_event_fails() {
    let p = plan(None, None, None, None);
    let (_, action) = next_execution_step(&p, ExecutionStage::AwaitRun, ExecutionEvent::Begin);
    assert!(matches!(action, ExecutionAction::Fail(_)));
}

#[test]
fn plan_renders_settings_and_appends_tail() {
    let mut context = ExecutionContext::default();
    context.placeholder = Some("{{n}}".to_string());
    context.runner = Some("docker exec {1} sh".to_string());
    context.before = Some("echo before {1}".to_string());
    let args = strings(&["web", "--verbose"]);
    let p = execution_plan(&context, &strings(&["run {1}"]), &args, &StrMap::new(), RenderStats::new());
    assert_eq!(p.runner.as_deref(), Some("docker exec web sh"));
    assert_eq!(p.before.as_deref(), Some("echo before web"));
    assert_eq!(p.check, None);
    assert_eq!(p.commands, strings(&["run web --verbose"]));
}

#[test]
fn compute_machine_stores_values_in_token_order() {
    let mut context = ExecutionContext::default();
    context.placeholder = Some("{{n}}".to_string());
    let mut runtimes = StrMap::new();
    runtimes.insert("py".to_string(), RuntimeConfig { sdk: "python".to_string(), ..RuntimeConfig::default() });
    let entries = vec![
        ("{a}".to_string(), "printf %s {1}".to_string()),
        ("{b}".to_string(), "py: make({a})".to_string()),
    ];
    let args = strings(&["first"]);
    let mut state = ComputeState::new();
    match compute_begin(&entries, &runtimes, &context, &args, &mut state) {
        ComputeAction::RunShell(c) => assert_eq!(c, "printf %s first"),
        other => panic!("unexpected {:?}", other),
    }
    match compute_record(&entries, &runtimes, &context, &args, &mut state, Ok("one\n".to_string())) {
        ComputeAction::EvalInRuntime { key, code } => {
            assert_eq!(key, "py");
            assert_eq!(code, "make(one)");
        }
        other => panic!("unexpected {:?}", other),
    }
    assert_eq!(state.values.get("{a}").map(String::as_str), Some("one"));
    match compute_record(&entries, &runtimes, &context, &args, &mut state, Err("boom".to_string())) {
        ComputeAction::Fail(m) => assert_eq!(m, "Runtime `py` compute failed: boom"),
        other => panic!("unexpected {:?}", other),
    }
    assert!(state.stats.used_arg_indexes.contains(&0));
}

#[test]
fn compute_machine_reports_unknown_runtime() {
    let context = ExecutionContext::default();
    let entries = vec![("{x}".to_string(), "py:print(1)".to_string())];
    let mut state = ComputeState::new();
    match compute_begin(&entries, &StrMap::new(), &context, &[], &mut state) {
        ComputeAction::Fail(m) => assert_eq!(m, "Runtime `py` is not defined in `runtimes`."),
        other => panic!("unexpected {:?}", other),
    }
    let empty: Vec<(String, String)> = Vec::new();
    let mut state = ComputeState::new();
    assert!(matches!(compute_begin(&empty, &StrMap::new(), &context, &[], &mut state), ComputeAction::Done));
}

#[test]
fn eval_machine_starts_each_runtime_once_and_runs_commands_last() {
    let parsed = vec![
        ("py".to_string(), "a()".to_string()),
        ("py".to_string(), "b()".to_string()),
    ];
    let mut state = EvalState::new();
    let (_, _, action) = next_eval_step(&parsed, &mut state, EvalEvent::Begin);
    assert!(matches!(action, EvalAction::StartRuntime(ref k) if k == "py"));
    let (_, _, action) = next_eval_step(&parsed, &mut state, EvalEvent::Started);
    assert!(matches!(action, EvalAction::Evaluate { ref key, ref code } if key == "py" && code == "a()"));
    let answer = RuntimeResponse {
        output_lines: strings(&["out"]),
        eval_result: Some(RuntimeEvalResult::Text("text".to_string())),
    };
    let (printed, emitted, action) = next_eval_step(&parsed, &mut state, EvalEvent::Answered(answer));
    assert_eq!(printed, strings(&["out", "text"]));
    assert_eq!(emitted, 0);
    assert!(matches!(action, EvalAction::Evaluate { ref code, .. } if code == "b()"));
    let answer = RuntimeResponse {
        output_lines: Vec::new(),
        eval_result: Some(RuntimeEvalResult::Commands(strings(&["echo 1", "echo 2"]))),
    };
    let (printed, emitted, action) = next_eval_step(&parsed, &mut state, EvalEvent::Answered(answer));
    assert!(printed.is_empty());
    assert_eq!(emitted, 2);
    match action {
        EvalAction::RunCommands(commands) => assert_eq!(commands, strings(&["echo 1", "echo 2"])),
        other => panic!("unexpected {:?}", other),
    }
    let (_, _, action) = next_eval_step(&parsed, &mut state, EvalEvent::Ran(4));
    assert!(matches!(action, EvalAction::Exit(4)));
}

#[test]
fn unknown_subcommand_is_passed_to_the_parent() {
    let mut subs = StrMap::new();
    subs.insert("build".to_string(), CommandEntry::Shorthand("npm run clean && npm run build".to_string()));
    let run = CommandEntry::Spec(CommandSpec {
        execute: Some(CommandAction::Single("npm run".to_string())),
        commands: subs,
        ..CommandSpec::default()
    });
    let mut commands = StrMap::new();
    commands.insert("run".to_string(), run);
    let config = LoadedConfig {
        files: vec![FileConfig {
            source: SourceKind::Local,
            project_dir: "/p".to_string(),
            config_path: "/p/fire.yml".to_string(),
            scope: FileScope::Root,
            runtimes: StrMap::new(),
            commands,
        }],
    };
    for (words, expected) in [
        (strings(&["run"]), "npm run"),
        (strings(&["run", "build"]), "npm run clean && npm run build"),
        (strings(&["run", "other"]), "npm run other"),
    ] {
        let resolved = resolve_command(&config, &words).expect("resolved");
        let context = build_execution_context(&resolved).expect("context");
        let raw = resolved.command.execution_commands().expect("commands");
        let plan = execution_plan(&context, &raw, resolved.remaining_args, &StrMap::new(), RenderStats::new());
        assert_eq!(plan.commands, strings(&[expected]));
    }
}

#[test]
fn shorthand_passes_remaining_arguments_through() {
    let mut commands = StrMap::new();
    commands.insert("hello".to_string(), CommandEntry::Shorthand("echo \"Hello Fire\"".to_string()));
    let config = LoadedConfig {
        files: vec![FileConfig {
            source: SourceKind::Local,
            project_dir: "/p".to_string(),
            config_path: "/p/fire.yml".to_string(),
            scope: FileScope::Root,
            runtimes: StrMap::new(),
            commands,
        }],
    };
    let words = strings(&["hello", "other", "args"]);
    let resolved = resolve_command(&config, &words).expect("resolved");
    let context = build_execution_context(&resolved).expect("context");
    let raw = resolved.command.execution_commands().expect("commands");
    let plan = execution_plan(&context, &raw, resolved.remaining_args, &StrMap::new(), RenderStats::new());
    assert_eq!(plan.commands, strings(&["echo \"Hello Fire\" other args"]));
}
