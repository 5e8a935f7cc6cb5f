//! The course of an execution: the check, the choice of runner, the
//! `before` hook and the commands, as a machine that a driver steps with
//! the outcome of each piece of outside work.

use vstd::prelude::*;

use crate::config::{clone_strings, RuntimeConfig};
use crate::execute::{
    commands_for_execution, commands_to_run, compute_target, eval_effects, eval_printed, parse_compute_expression,
    result_view, trim_trailing_newlines, without_trailing_newlines, ComputeExpression, ComputeTarget,
    RuntimeResponse,
};
use crate::strmap::str_equal;
use crate::strmap::entry_insert;
use crate::render::{placeholder_advances, render_runtime_string, rendered, text_pairs, ExecutionContext, RenderMode, RenderStats};
use crate::runner::{mode_view, runner_choice, select_runner_mode, should_execute_before, RunnerMode};
use crate::strmap::StrMap;
use crate::text::{texts, to_string};

verus! {

/// A setting rendered for the shell without tracking argument usage.
pub open spec fn plain_rendered(
    value: Seq<char>,
    context: ExecutionContext,
    args: Seq<Seq<char>>,
    computed: Seq<(Seq<char>, Seq<char>)>,
) -> Seq<char> {
    rendered(value, context, args, computed, false, RenderMode::Shell, Set::empty(), false).0
}

/// An optional setting rendered for the shell.
pub open spec fn plain_option(
    value: Option<String>,
    context: ExecutionContext,
    args: Seq<Seq<char>>,
    computed: Seq<(Seq<char>, Seq<char>)>,
) -> Option<Seq<char>> {
    match value {
        Some(v) => Some(plain_rendered(v@, context, args, computed)),
        None => None,
    }
}

/// An optional string as text.
pub open spec fn opt_text(value: Option<String>) -> Option<Seq<char>> {
    match value {
        Some(v) => Some(v@),
        None => None,
    }
}

/// What an execution runs: the rendered check, runner, fallback runner and
/// `before` hook, and the commands with the tail arguments.
#[derive(Debug)]
pub struct ExecutionPlan {
    pub check: Option<String>,
    pub runner: Option<String>,
    pub fallback_runner: Option<String>,
    pub before: Option<String>,
    pub commands: Vec<String>,
}

fn render_plain(
    value: &Option<String>,
    context: &ExecutionContext,
    args: &[String],
    computed: &StrMap<String>,
) -> (r: Option<String>)
    requires
        placeholder_advances(*context),
    ensures
        opt_text(r) == plain_option(*value, *context, texts(args@), text_pairs(computed@)),
{
    match value {
        Some(v) => {
            let mut stats = RenderStats::new();
            let out = render_runtime_string(v.as_str(), context, args, computed, false, RenderMode::Shell, &mut stats);
            assert(args@.map_values(|a: String| a@) =~= texts(args@));
            Some(out)
        },
        None => None,
    }
}

/// Renders what an execution runs; `stats` is the argument usage that the
/// computed values left.
pub fn execution_plan(
    context: &ExecutionContext,
    raw_commands: &[String],
    args: &[String],
    computed: &StrMap<String>,
    stats: RenderStats,
) -> (plan: ExecutionPlan)
    requires
        placeholder_advances(*context),
    ensures
        opt_text(plan.check) == plain_option(context.check, *context, texts(args@), text_pairs(computed@)),
        opt_text(plan.runner) == plain_option(context.runner, *context, texts(args@), text_pairs(computed@)),
        opt_text(plan.fallback_runner) == plain_option(
            context.fallback_runner,
            *context,
            texts(args@),
            text_pairs(computed@),
        ),
        opt_text(plan.before) == plain_option(context.before, *context, texts(args@), text_pairs(computed@)),
        texts(plan.commands@) == commands_to_run(
            texts(raw_commands@),
            *context,
            texts(args@),
            text_pairs(computed@),
            stats.used_arg_indexes@,
            stats.had_placeholders,
        ),
{
    let check = render_plain(&context.check, context, args, computed);
    let runner = render_plain(&context.runner, context, args, computed);
    let fallback_runner = render_plain(&context.fallback_runner, context, args, computed);
    let before = render_plain(&context.before, context, args, computed);
    let commands = commands_for_execution(raw_commands, context, args, computed, stats);
    ExecutionPlan { check, runner, fallback_runner, before, commands }
}

/// What an execution waits for.
#[derive(Debug)]
pub enum ExecutionStage {
    /// Nothing has run yet.
    Start,
    /// The check command runs.
    AwaitCheck,
    /// The `before` hook runs; the commands then run in this mode.
    AwaitBefore(RunnerMode),
    /// The commands run.
    AwaitRun,
    /// The execution is over.
    Finished,
}

/// What the driver reports back.
#[derive(Debug)]
pub enum ExecutionEvent {
    /// The execution starts.
    Begin,
    /// The check command ran; whether it succeeded.
    CheckFinished(bool),
    /// The `before` hook exited with this status.
    BeforeFinished(i32),
    /// The commands exited with this status.
    RunFinished(i32),
}

/// What the driver does next.
#[derive(Debug)]
pub enum ExecutionAction {
    /// Run the check command quietly and report whether it succeeded.
    RunCheck(String),
    /// Run the `before` hook and report its status.
    RunBefore(String),
    /// Run the commands in one shell and report their status.
    RunDirect(Vec<String>),
    /// Run the commands through the runner and report their status.
    RunThroughRunner(String, Vec<String>),
    /// Exit with this status.
    Exit(i32),
    /// Report this error and exit with status 1.
    Fail(String),
}

/// A stage as numbers and text: its kind, and the runner mode that it holds.
pub open spec fn stage_view(s: ExecutionStage) -> (int, (int, Seq<char>)) {
    match s {
        ExecutionStage::Start => (0, (0, Seq::empty())),
        ExecutionStage::AwaitCheck => (1, (0, Seq::empty())),
        ExecutionStage::AwaitBefore(m) => (2, mode_view(m)),
        ExecutionStage::AwaitRun => (3, (0, Seq::empty())),
        ExecutionStage::Finished => (4, (0, Seq::empty())),
    }
}

/// An action as numbers and text: its kind, its command or message, its
/// commands, and its status.
pub open spec fn action_view(a: ExecutionAction) -> (int, Seq<char>, Seq<Seq<char>>, int) {
    match a {
        ExecutionAction::RunCheck(c) => (0, c@, Seq::empty(), 0),
        ExecutionAction::RunBefore(c) => (1, c@, Seq::empty(), 0),
        ExecutionAction::RunDirect(v) => (2, Seq::empty(), texts(v@), 0),
        ExecutionAction::RunThroughRunner(r, v) => (3, r@, texts(v@), 0),
        ExecutionAction::Exit(code) => (4, Seq::empty(), Seq::empty(), code as int),
        ExecutionAction::Fail(m) => (5, m@, Seq::empty(), 0),
    }
}

/// The step that runs the commands in the mode `m`.
pub open spec fn run_in_mode(plan: ExecutionPlan, m: (int, Seq<char>)) -> (
    (int, (int, Seq<char>)),
    (int, Seq<char>, Seq<Seq<char>>, int),
) {
    if m.0 == 0 {
        ((3, (0, Seq::empty())), (2, Seq::empty(), texts(plan.commands@), 0))
    } else {
        ((3, (0, Seq::empty())), (3, m.1, texts(plan.commands@), 0))
    }
}

/// The message when the check failed and there is no fallback runner.
pub open spec fn no_fallback_message() -> Seq<char> {
    "Check command failed and no fallback_runner is configured."@
}

/// The step once the outcome of the check is known (`None` without a
/// check): the runner is chosen; the `before` hook runs first unless the
/// fallback runner was chosen.
pub open spec fn decided(plan: ExecutionPlan, passed: Option<bool>) -> (
    (int, (int, Seq<char>)),
    (int, Seq<char>, Seq<Seq<char>>, int),
) {
    match runner_choice(passed, opt_text(plan.runner), opt_text(plan.fallback_runner)) {
        None => ((4, (0, Seq::empty())), (5, no_fallback_message(), Seq::empty(), 0)),
        Some(m) => match plan.before {
            Some(b) => if m.0 != 2 {
                ((2, m), (1, b@, Seq::empty(), 0))
            } else {
                run_in_mode(plan, m)
            },
            None => run_in_mode(plan, m),
        },
    }
}

/// The message for an event that the stage does not wait for.
pub open spec fn unexpected_message() -> Seq<char> {
    "Execution received an event that it does not wait for."@
}

/// The step of an execution: from a stage and the event that ends it, the
/// next stage and what to do. It starts with the check when there is one;
/// a failing `before` hook ends it with its status; the commands' status
/// ends it.
pub open spec fn execution_step(plan: ExecutionPlan, stage: ExecutionStage, event: ExecutionEvent) -> (
    (int, (int, Seq<char>)),
    (int, Seq<char>, Seq<Seq<char>>, int),
) {
    match (stage, event) {
        (ExecutionStage::Start, ExecutionEvent::Begin) => match plan.check {
            Some(c) => ((1, (0, Seq::empty())), (0, c@, Seq::empty(), 0)),
            None => decided(plan, None),
        },
        (ExecutionStage::AwaitCheck, ExecutionEvent::CheckFinished(p)) => decided(plan, Some(p)),
        (ExecutionStage::AwaitBefore(m), ExecutionEvent::BeforeFinished(code)) => if code != 0 {
            ((4, (0, Seq::empty())), (4, Seq::empty(), Seq::empty(), code as int))
        } else {
            run_in_mode(plan, mode_view(m))
        },
        (ExecutionStage::AwaitRun, ExecutionEvent::RunFinished(code)) => (
            (4, (0, Seq::empty())),
            (4, Seq::empty(), Seq::empty(), code as int),
        ),
        _ => ((4, (0, Seq::empty())), (5, unexpected_message(), Seq::empty(), 0)),
    }
}

/// The `before` hook runs before the commands when the check passes (or
/// there is none), and is skipped when the fallback runner is chosen.
pub proof fn lemma_before_skipped_on_fallback(plan: ExecutionPlan)
    ensures
        plan.before is Some && plan.check is None ==> execution_step(plan, ExecutionStage::Start, ExecutionEvent::Begin).1.0
            == 1,
        plan.before is Some ==> execution_step(plan, ExecutionStage::AwaitCheck, ExecutionEvent::CheckFinished(true)).1.0
            == 1,
        plan.fallback_runner matches Some(f) ==> execution_step(
            plan,
            ExecutionStage::AwaitCheck,
            ExecutionEvent::CheckFinished(false),
        ) == ((3int, (0int, Seq::<char>::empty())), (3int, f@, texts(plan.commands@), 0int)),
{
}

fn run_step(plan: &ExecutionPlan, mode: RunnerMode) -> (r: (ExecutionStage, ExecutionAction))
    ensures
        (stage_view(r.0), action_view(r.1)) == run_in_mode(*plan, mode_view(mode)),
{
    let commands = clone_strings(&plan.commands);
    assert(texts(commands@) =~= commands.deep_view());
    assert(texts(plan.commands@) =~= plan.commands.deep_view());
    match mode {
        RunnerMode::Direct => (ExecutionStage::AwaitRun, ExecutionAction::RunDirect(commands)),
        RunnerMode::Runner(r) => (ExecutionStage::AwaitRun, ExecutionAction::RunThroughRunner(r, commands)),
        RunnerMode::Fallback(r) => (ExecutionStage::AwaitRun, ExecutionAction::RunThroughRunner(r, commands)),
    }
}

fn decide(plan: &ExecutionPlan, passed: Option<bool>) -> (r: (ExecutionStage, ExecutionAction))
    ensures
        (stage_view(r.0), action_view(r.1)) == decided(*plan, passed),
{
    let runner: Option<&str> = match &plan.runner {
        Some(x) => Some(x.as_str()),
        None => None,
    };
    let fallback: Option<&str> = match &plan.fallback_runner {
        Some(x) => Some(x.as_str()),
        None => None,
    };
    match select_runner_mode(passed, runner, fallback) {
        Err(_) => {
            proof {
                reveal_strlit("Check command failed and no fallback_runner is configured.");
            }
            (ExecutionStage::Finished, ExecutionAction::Fail(to_string("Check command failed and no fallback_runner is configured.")))
        },
        Ok(mode) => {
            if should_execute_before(&mode) {
                if let Some(b) = &plan.before {
                    return (ExecutionStage::AwaitBefore(mode), ExecutionAction::RunBefore(b.clone()));
                }
            }
            run_step(plan, mode)
        },
    }
}

/// Steps an execution: from a stage and the event that ends it, the next
/// stage and what to do.
pub fn next_execution_step(plan: &ExecutionPlan, stage: ExecutionStage, event: ExecutionEvent) -> (r: (
    ExecutionStage,
    ExecutionAction,
))
    ensures
        (stage_view(r.0), action_view(r.1)) == execution_step(*plan, stage, event),
{
    match (stage, event) {
        (ExecutionStage::Start, ExecutionEvent::Begin) => match &plan.check {
            Some(c) => (ExecutionStage::AwaitCheck, ExecutionAction::RunCheck(c.clone())),
            None => decide(plan, None),
        },
        (ExecutionStage::AwaitCheck, ExecutionEvent::CheckFinished(p)) => decide(plan, Some(p)),
        (ExecutionStage::AwaitBefore(m), ExecutionEvent::BeforeFinished(code)) => {
            if code != 0 {
                (ExecutionStage::Finished, ExecutionAction::Exit(code))
            } else {
                run_step(plan, m)
            }
        },
        (ExecutionStage::AwaitRun, ExecutionEvent::RunFinished(code)) => (
            ExecutionStage::Finished,
            ExecutionAction::Exit(code),
        ),
        _ => {
            proof {
                reveal_strlit("Execution received an event that it does not wait for.");
            }
            (
                ExecutionStage::Finished,
                ExecutionAction::Fail(to_string("Execution received an event that it does not wait for.")),
            )
        },
    }
}

/// How far the `compute` values have come: the entry that is evaluated
/// next (or whose output is awaited), the values stored so far, and the
/// argument usage of the rendering so far.
#[derive(Debug)]
pub struct ComputeState {
    pub index: usize,
    pub values: StrMap<String>,
    pub stats: RenderStats,
}

impl ComputeState {
    /// Nothing evaluated yet.
    pub fn new() -> (s: Self)
        ensures
            s.index == 0,
            s.values@ == Seq::<(Seq<char>, String)>::empty(),
            s.stats.used_arg_indexes@ == Set::<usize>::empty(),
            !s.stats.had_placeholders,
    {
        ComputeState { index: 0, values: StrMap::new(), stats: RenderStats::new() }
    }
}

/// What the driver does for a `compute` entry.
#[derive(Debug)]
pub enum ComputeAction {
    /// Run this shell command and report its output.
    RunShell(String),
    /// Evaluate this code in the runtime `key` and report what it gives.
    EvalInRuntime { key: String, code: String },
    /// Report this error and exit with status 1.
    Fail(String),
    /// Every value is computed.
    Done,
}

/// An action as text: its kind and its two texts.
pub open spec fn compute_action_view(a: ComputeAction) -> (int, Seq<char>, Seq<char>) {
    match a {
        ComputeAction::RunShell(c) => (0, c@, Seq::empty()),
        ComputeAction::EvalInRuntime { key, code } => (1, key@, code@),
        ComputeAction::Fail(m) => (2, m@, Seq::empty()),
        ComputeAction::Done => (3, Seq::empty(), Seq::empty()),
    }
}

/// The entries as pairs of texts.
pub open spec fn entry_texts(entries: Seq<(String, String)>) -> Seq<(Seq<char>, Seq<char>)> {
    entries.map_values(|e: (String, String)| (e.0@, e.1@))
}

/// What entry `i` asks for, given the values so far and the usage so far,
/// and the usage after its expression is rendered: nothing past the last
/// entry; an error when the expression does not parse; else the rendered
/// shell command, or the runtime and the rendered code.
pub open spec fn compute_prepared(
    entries: Seq<(Seq<char>, Seq<char>)>,
    runtimes: Seq<(Seq<char>, RuntimeConfig)>,
    context: ExecutionContext,
    args: Seq<Seq<char>>,
    i: int,
    values: Seq<(Seq<char>, Seq<char>)>,
    used: Set<usize>,
    had: bool,
) -> ((int, Seq<char>, Seq<char>), Set<usize>, bool) {
    if i < 0 || i >= entries.len() {
        ((3, Seq::empty(), Seq::empty()), used, had)
    } else {
        match compute_target(entries[i].1, runtimes) {
            Err(e) => ((2, e, Seq::empty()), used, had),
            Ok(ComputeTarget::Runtime(k, c)) => {
                let r = rendered(c, context, args, values, true, RenderMode::Eval, used, had);
                ((1, k, r.0), r.1, r.2)
            },
            Ok(ComputeTarget::Shell(c)) => {
                let r = rendered(c, context, args, values, true, RenderMode::Shell, used, had);
                ((0, r.0, Seq::empty()), r.1, r.2)
            },
        }
    }
}

/// The report when entry `i` failed with `e`: for a runtime, which runtime
/// failed; for a shell command, the command's own report.
pub open spec fn compute_failure(
    entries: Seq<(Seq<char>, Seq<char>)>,
    runtimes: Seq<(Seq<char>, RuntimeConfig)>,
    i: int,
    e: Seq<char>,
) -> Seq<char> {
    if 0 <= i < entries.len() {
        match compute_target(entries[i].1, runtimes) {
            Ok(ComputeTarget::Runtime(k, _)) => "Runtime `"@ + k + "` compute failed: "@ + e,
            _ => e,
        }
    } else {
        e
    }
}

fn prepare(
    entries: &[(String, String)],
    runtimes: &StrMap<RuntimeConfig>,
    context: &ExecutionContext,
    args: &[String],
    state: &mut ComputeState,
) -> (a: ComputeAction)
    requires
        placeholder_advances(*context),
    ensures
        final(state).index == old(state).index,
        final(state).values@ == old(state).values@,
        (compute_action_view(a), final(state).stats.used_arg_indexes@, final(state).stats.had_placeholders)
            == compute_prepared(
            entry_texts(entries@),
            runtimes@,
            *context,
            texts(args@),
            old(state).index as int,
            text_pairs(old(state).values@),
            old(state).stats.used_arg_indexes@,
            old(state).stats.had_placeholders,
        ),
{
    let i = state.index;
    if i >= entries.len() {
        return ComputeAction::Done;
    }
    assert(args@.map_values(|a: String| a@) =~= texts(args@));
    assert(entry_texts(entries@)[i as int] == (entries@[i as int].0@, entries@[i as int].1@));
    match parse_compute_expression(entries[i].1.as_str(), runtimes) {
        Err(e) => ComputeAction::Fail(e),
        Ok(ComputeExpression::Runtime { key, code }) => {
            let rendered_code = render_runtime_string(
                code,
                context,
                args,
                &state.values,
                true,
                RenderMode::Eval,
                &mut state.stats,
            );
            ComputeAction::EvalInRuntime { key: to_string(key), code: rendered_code }
        },
        Ok(ComputeExpression::Shell(command)) => {
            let rendered_command = render_runtime_string(
                command,
                context,
                args,
                &state.values,
                true,
                RenderMode::Shell,
                &mut state.stats,
            );
            ComputeAction::RunShell(rendered_command)
        },
    }
}

/// Starts computing the values: what the first entry asks for.
pub fn compute_begin(
    entries: &[(String, String)],
    runtimes: &StrMap<RuntimeConfig>,
    context: &ExecutionContext,
    args: &[String],
    state: &mut ComputeState,
) -> (a: ComputeAction)
    requires
        placeholder_advances(*context),
    ensures
        final(state).index == old(state).index,
        final(state).values@ == old(state).values@,
        (compute_action_view(a), final(state).stats.used_arg_indexes@, final(state).stats.had_placeholders)
            == compute_prepared(
            entry_texts(entries@),
            runtimes@,
            *context,
            texts(args@),
            old(state).index as int,
            text_pairs(old(state).values@),
            old(state).stats.used_arg_indexes@,
            old(state).stats.had_placeholders,
        ),
{
    prepare(entries, runtimes, context, args, state)
}

/// Records the output of the entry whose output was awaited: on success
/// its value, without trailing line breaks, is stored under its token and
/// the next entry is prepared; a failure ends the computation with its
/// report.
pub fn compute_record(
    entries: &[(String, String)],
    runtimes: &StrMap<RuntimeConfig>,
    context: &ExecutionContext,
    args: &[String],
    state: &mut ComputeState,
    outcome: Result<String, String>,
) -> (a: ComputeAction)
    requires
        placeholder_advances(*context),
    ensures
        old(state).index >= entries@.len() ==> a is Done && final(state).index == old(state).index
            && final(state).values@ == old(state).values@,
        old(state).index < entries@.len() ==> match outcome {
            Ok(v) => {
                let stored = entry_insert(
                    text_pairs(old(state).values@),
                    entries@[old(state).index as int].0@,
                    without_trailing_newlines(v@),
                );
                &&& final(state).index == old(state).index + 1
                &&& text_pairs(final(state).values@) == stored
                &&& (compute_action_view(a), final(state).stats.used_arg_indexes@, final(state).stats.had_placeholders)
                    == compute_prepared(
                    entry_texts(entries@),
                    runtimes@,
                    *context,
                    texts(args@),
                    old(state).index + 1,
                    stored,
                    old(state).stats.used_arg_indexes@,
                    old(state).stats.had_placeholders,
                )
            },
            Err(e) => {
                &&& final(state).index == old(state).index
                &&& final(state).values@ == old(state).values@
                &&& compute_action_view(a) == (
                    2int,
                    compute_failure(entry_texts(entries@), runtimes@, old(state).index as int, e@),
                    Seq::<char>::empty(),
                )
            },
        },
{
    let i = state.index;
    if i >= entries.len() {
        return ComputeAction::Done;
    }
    assert(entry_texts(entries@)[i as int] == (entries@[i as int].0@, entries@[i as int].1@));
    match outcome {
        Ok(v) => {
            let value = trim_trailing_newlines(v);
            proof {
                crate::env::lemma_text_pairs_insert(state.values@, entries@[i as int].0@, value);
            }
            state.values.insert(entries[i].0.clone(), value);
            state.index = i + 1;
            prepare(entries, runtimes, context, args, state)
        },
        Err(e) => match parse_compute_expression(entries[i].1.as_str(), runtimes) {
            Ok(ComputeExpression::Runtime { key, code: _ }) => {
                let mut msg = to_string("Runtime `");
                msg.append(key);
                msg.append("` compute failed: ");
                msg.append(e.as_str());
                proof {
                    reveal_strlit("Runtime `");
                    reveal_strlit("` compute failed: ");
                }
                ComputeAction::Fail(msg)
            },
            _ => ComputeAction::Fail(e),
        },
    }
}

/// How far the `eval` expressions have come: the expression that is
/// evaluated next, the runtimes started so far, and the commands that the
/// answers asked for so far.
#[derive(Debug)]
pub struct EvalState {
    pub index: usize,
    pub started: Vec<String>,
    pub commands: Vec<String>,
}

impl EvalState {
    /// Nothing evaluated and no runtime started.
    pub fn new() -> (s: Self)
        ensures
            s.index == 0,
            s.started@ == Seq::<String>::empty(),
            s.commands@ == Seq::<String>::empty(),
    {
        EvalState { index: 0, started: Vec::new(), commands: Vec::new() }
    }
}

/// What the driver reports back while evaluating.
#[derive(Debug)]
pub enum EvalEvent {
    /// The evaluation starts.
    Begin,
    /// The runtime asked for was started.
    Started,
    /// The runtime answered the expression.
    Answered(RuntimeResponse),
    /// The commands exited with this status.
    Ran(i32),
}

/// What the driver does next while evaluating.
#[derive(Debug)]
pub enum EvalAction {
    /// Start the runtime `key` and report when it runs.
    StartRuntime(String),
    /// Evaluate the code in the runtime `key` and report its answer.
    Evaluate { key: String, code: String },
    /// Run the commands in one shell and report their status.
    RunCommands(Vec<String>),
    /// Close the runtimes and exit with this status.
    Exit(i32),
}

/// An action as text: its kind, its key, its code, its commands, its status.
pub open spec fn eval_action_view(a: EvalAction) -> (int, Seq<char>, Seq<char>, Seq<Seq<char>>, int) {
    match a {
        EvalAction::StartRuntime(k) => (0, k@, Seq::empty(), Seq::empty(), 0),
        EvalAction::Evaluate { key, code } => (1, key@, code@, Seq::empty(), 0),
        EvalAction::RunCommands(v) => (2, Seq::empty(), Seq::empty(), texts(v@), 0),
        EvalAction::Exit(c) => (3, Seq::empty(), Seq::empty(), Seq::empty(), c as int),
    }
}

/// What expression `i` asks for, given the runtimes started so far: once
/// every expression is answered, the commands they asked for run; a
/// runtime starts before its first expression; then the expression is
/// evaluated in it. Also the runtimes started after the step.
pub open spec fn eval_prepared(
    parsed: Seq<(Seq<char>, Seq<char>)>,
    i: int,
    started: Seq<Seq<char>>,
    commands: Seq<Seq<char>>,
) -> ((int, Seq<char>, Seq<char>, Seq<Seq<char>>, int), Seq<Seq<char>>) {
    if i < 0 || i >= parsed.len() {
        ((2, Seq::empty(), Seq::empty(), commands, 0), started)
    } else if !started.contains(parsed[i].0) {
        ((0, parsed[i].0, Seq::empty(), Seq::empty(), 0), started.push(parsed[i].0))
    } else {
        ((1, parsed[i].0, parsed[i].1, Seq::empty(), 0), started)
    }
}

fn eval_prepare(parsed: &[(String, String)], state: &mut EvalState) -> (a: EvalAction)
    ensures
        final(state).index == old(state).index,
        final(state).commands@ == old(state).commands@,
        (eval_action_view(a), texts(final(state).started@)) == eval_prepared(
            entry_texts(parsed@),
            old(state).index as int,
            texts(old(state).started@),
            texts(old(state).commands@),
        ),
{
    let i = state.index;
    if i >= parsed.len() {
        let commands = clone_strings(&state.commands);
        assert(texts(commands@) =~= commands.deep_view());
        assert(texts(state.commands@) =~= state.commands.deep_view());
        return EvalAction::RunCommands(commands);
    }
    let key = &parsed[i].0;
    let ghost st = texts(state.started@);
    assert(entry_texts(parsed@)[i as int] == (parsed@[i as int].0@, parsed@[i as int].1@));
    let mut k: usize = 0;
    let mut found = false;
    while k < state.started.len()
        invariant
            st == texts(state.started@),
            k <= st.len(),
            found == exists|m: int| 0 <= m < k && st[m] == key@,
        decreases st.len() - k,
    {
        let same = str_equal(state.started[k].as_str(), key.as_str());
        assert(st[k as int] == state.started@[k as int]@);
        if same {
            found = true;
        }
        k = k + 1;
    }
    assert(found == st.contains(key@));
    if !found {
        let ghost before = texts(state.started@);
        state.started.push(key.clone());
        assert(texts(state.started@) =~= before.push(key@));
        EvalAction::StartRuntime(key.clone())
    } else {
        EvalAction::Evaluate { key: key.clone(), code: parsed[i].1.clone() }
    }
}

/// Steps the evaluation of the `eval` expressions `parsed`: from the event,
/// the lines to print, the number of commands that the answer asked for,
/// and what to do next. An answer prints its output and text, and adds its
/// commands; the next expression is then prepared; the commands' status
/// ends it.
pub fn next_eval_step(parsed: &[(String, String)], state: &mut EvalState, event: EvalEvent) -> (r: (
    Vec<String>,
    usize,
    EvalAction,
))
    ensures
        match event {
            EvalEvent::Begin => {
                &&& r.0@.len() == 0
                &&& r.1 == 0
                &&& final(state).index == old(state).index
                &&& final(state).commands@ == old(state).commands@
                &&& (eval_action_view(r.2), texts(final(state).started@)) == eval_prepared(
                    entry_texts(parsed@),
                    old(state).index as int,
                    texts(old(state).started@),
                    texts(old(state).commands@),
                )
            },
            EvalEvent::Started => {
                &&& r.0@.len() == 0
                &&& r.1 == 0
                &&& final(state).index == old(state).index
                &&& final(state).commands@ == old(state).commands@
                &&& (eval_action_view(r.2), texts(final(state).started@)) == eval_prepared(
                    entry_texts(parsed@),
                    old(state).index as int,
                    texts(old(state).started@),
                    texts(old(state).commands@),
                )
            },
            EvalEvent::Answered(response) => {
                let asked = match result_view(response.eval_result) {
                    Some((false, _, c)) => c,
                    _ => Seq::empty(),
                };
                &&& texts(r.0@) == eval_printed(texts(response.output_lines@), result_view(response.eval_result))
                &&& r.1 == asked.len()
                &&& old(state).index < usize::MAX ==> final(state).index == old(state).index + 1
                &&& texts(final(state).commands@) == texts(old(state).commands@) + asked
                &&& (eval_action_view(r.2), texts(final(state).started@)) == eval_prepared(
                    entry_texts(parsed@),
                    final(state).index as int,
                    texts(old(state).started@),
                    texts(old(state).commands@) + asked,
                )
            },
            EvalEvent::Ran(code) => {
                &&& r.0@.len() == 0
                &&& r.1 == 0
                &&& eval_action_view(r.2) == (3int, Seq::<char>::empty(), Seq::<char>::empty(), Seq::<Seq<char>>::empty(), code as int)
                &&& final(state).index == old(state).index
                &&& final(state).started@ == old(state).started@
                &&& final(state).commands@ == old(state).commands@
            },
        },
{
    match event {
        EvalEvent::Begin => {
            let a = eval_prepare(parsed, state);
            (Vec::new(), 0, a)
        },
        EvalEvent::Started => {
            let a = eval_prepare(parsed, state);
            (Vec::new(), 0, a)
        },
        EvalEvent::Answered(response) => {
            let (printed, mut asked) = eval_effects(response);
            let n = asked.len();
            let ghost before = texts(state.commands@);
            let ghost more = texts(asked@);
            if state.index < usize::MAX {
                state.index = state.index + 1;
            } else {
                state.index = usize::MAX;
            }
            state.commands.append(&mut asked);
            assert(texts(state.commands@) =~= before + more);
            let a = eval_prepare(parsed, state);
            (printed, n, a)
        },
        EvalEvent::Ran(code) => (Vec::new(), 0, EvalAction::Exit(code)),
    }
}

} // verus!
