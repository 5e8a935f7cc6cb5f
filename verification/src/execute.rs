//! Preparing a resolved command for execution: the settings that its chain
//! gathers, the policy for unused arguments, computed values and runtime
//! expressions, and the commands that finally run.

use vstd::prelude::*;

use crate::bootstrap::{
    deno_runtime_bootstrap_script, node_runtime_bootstrap_script, python_runtime_bootstrap_script,
    DENO_BOOTSTRAP, NODE_BOOTSTRAP, PYTHON_BOOTSTRAP,
};
use crate::config::{CommandEntry, CommandSpec, RuntimeConfig};
use crate::render::{
    json_quote, json_quoted, placeholder_advances, render_runtime_string, rendered, shell_escape,
    shell_escaped, templates_of, placeholder_text, template_advances, text_pairs, unused_indexes,
    ExecutionContext, RenderMode, RenderStats, UnusedArgsMode,
};
use crate::paths::{join_path, joined_path};
use crate::resolve::{chain_entries, ResolvedCommand};
use crate::strmap::{entry_insert, str_equal, StrMap};
use crate::text::{
    decimal_text, find, find_char, find_str, join, join_strings, non_empty_text, number_text,
    push_char, texts, to_string, trim, trim_str, is_ws, is_whitespace, split_char, split_on, starts_with,
    starts_with_str, ends_with, ends_with_str,
};

verus! {

/// The settings that a command spec can set.
pub enum Setting {
    Dir,
    Before,
    Check,
    Runner,
    FallbackRunner,
    Placeholder,
    OnUnusedArgs,
}

/// The raw text of a setting in a spec.
pub open spec fn setting_text(spec: CommandSpec, s: Setting) -> Seq<char> {
    match s {
        Setting::Dir => spec.dir@,
        Setting::Before => spec.before@,
        Setting::Check => spec.check@,
        Setting::Runner => spec.runner@,
        Setting::FallbackRunner => spec.fallback_runner@,
        Setting::Placeholder => spec.placeholder@,
        Setting::OnUnusedArgs => spec.on_unused_args@,
    }
}

/// The setting of an entry of the chain, trimmed, when it is set.
pub open spec fn entry_setting(e: CommandEntry, s: Setting) -> Option<Seq<char>> {
    match e {
        CommandEntry::Spec(spec) => non_empty_text(setting_text(spec, s)),
        CommandEntry::Shorthand(_) => None,
    }
}

/// The setting of the last of the first `n` entries that sets it.
pub open spec fn last_setting(chain: Seq<CommandEntry>, n: int, s: Setting) -> Option<Seq<char>>
    decreases n,
{
    if n <= 0 {
        None
    } else {
        match entry_setting(chain[n - 1], s) {
            Some(v) => Some(v),
            None => last_setting(chain, n - 1, s),
        }
    }
}

/// The working directory after the first `n` entries: each `dir` taken
/// relative to the one before.
pub open spec fn dir_after(start: Seq<char>, chain: Seq<CommandEntry>, n: int) -> Seq<char>
    decreases n,
{
    if n <= 0 {
        start
    } else {
        let prev = dir_after(start, chain, n - 1);
        match entry_setting(chain[n - 1], Setting::Dir) {
            Some(d) => joined_path(prev, d),
            None => prev,
        }
    }
}

/// The map after storing each entry of `es` in order.
pub open spec fn insert_all(m: Seq<(Seq<char>, String)>, es: Seq<(Seq<char>, String)>) -> Seq<(Seq<char>, String)>
    decreases es.len(),
{
    if es.len() == 0 {
        m
    } else {
        let prev = insert_all(m, es.drop_last());
        entry_insert(prev, es.last().0, es.last().1)
    }
}

/// The `macros` (or, with `compute`, the `compute` entries) of the first
/// `n` entries; a later entry's value takes the place of an earlier one's.
pub open spec fn tables_after(chain: Seq<CommandEntry>, n: int, compute: bool) -> Seq<(Seq<char>, String)>
    decreases n,
{
    if n <= 0 {
        Seq::empty()
    } else {
        let prev = tables_after(chain, n - 1, compute);
        match chain[n - 1] {
            CommandEntry::Spec(spec) => insert_all(prev, if compute {
                spec.compute@
            } else {
                spec.macros@
            }),
            CommandEntry::Shorthand(_) => prev,
        }
    }
}

/// The policy that a setting names.
pub open spec fn mode_named(value: Seq<char>) -> Option<UnusedArgsMode> {
    if value == "ignore"@ {
        Some(UnusedArgsMode::Ignore)
    } else if value == "warn"@ {
        Some(UnusedArgsMode::Warn)
    } else if value == "error"@ {
        Some(UnusedArgsMode::Error)
    } else {
        None
    }
}

/// The report of a policy value that names no policy.
pub open spec fn invalid_mode_message(value: Seq<char>) -> Seq<char> {
    "Invalid on_unused_args value `"@ + value + "`. Use one of: ignore, warn, error."@
}

/// Reads an `on_unused_args` value.
pub fn parse_on_unused_args_mode(value: &str) -> (r: Result<UnusedArgsMode, String>)
    ensures
        r matches Ok(m) ==> mode_named(value@) == Some(m),
        r matches Err(msg) ==> mode_named(value@) is None && msg@ == invalid_mode_message(value@),
{
    if str_equal(value, "ignore") {
        Ok(UnusedArgsMode::Ignore)
    } else if str_equal(value, "warn") {
        Ok(UnusedArgsMode::Warn)
    } else if str_equal(value, "error") {
        Ok(UnusedArgsMode::Error)
    } else {
        let mut msg = to_string("Invalid on_unused_args value `");
        msg.append(value);
        msg.append("`. Use one of: ignore, warn, error.");
        Err(msg)
    }
}

/// The first policy value from entry `i` on that names no policy.
pub open spec fn first_invalid_mode(chain: Seq<CommandEntry>, i: int) -> Option<Seq<char>>
    decreases chain.len() - i,
{
    if i < 0 || i >= chain.len() {
        None
    } else {
        match entry_setting(chain[i], Setting::OnUnusedArgs) {
            Some(v) => if mode_named(v) is None {
                Some(v)
            } else {
                first_invalid_mode(chain, i + 1)
            },
            None => first_invalid_mode(chain, i + 1),
        }
    }
}

/// The text of an optional string.
pub open spec fn opt_view(o: Option<String>) -> Option<Seq<char>> {
    match o {
        Some(s) => Some(s@),
        None => None,
    }
}

/// Whether `context` holds what the chain gathers, starting from `dir`.
pub open spec fn gathered(context: ExecutionContext, dir: Seq<char>, chain: Seq<CommandEntry>) -> bool {
    let n = chain.len() as int;
    &&& context.dir@ == dir_after(dir, chain, n)
    &&& opt_view(context.before) == last_setting(chain, n, Setting::Before)
    &&& opt_view(context.check) == last_setting(chain, n, Setting::Check)
    &&& opt_view(context.runner) == last_setting(chain, n, Setting::Runner)
    &&& opt_view(context.fallback_runner) == last_setting(chain, n, Setting::FallbackRunner)
    &&& opt_view(context.placeholder) == last_setting(chain, n, Setting::Placeholder)
    &&& context.on_unused_args == match last_setting(chain, n, Setting::OnUnusedArgs) {
        Some(v) => mode_named(v),
        None => None,
    }
    &&& context.macros@ == tables_after(chain, n, false)
    &&& context.compute@ == tables_after(chain, n, true)
}

fn non_empty_ref(value: &str) -> (r: Option<&str>)
    ensures
        r matches Some(s) ==> non_empty_text(value@) == Some(s@),
        r is None ==> non_empty_text(value@) is None,
{
    let t = trim_str(value);
    if t.unicode_len() == 0 {
        None
    } else {
        Some(t)
    }
}

fn insert_entries(target: &mut StrMap<String>, source: &StrMap<String>)
    ensures
        final(target)@ == insert_all(old(target)@, source@),
{
    let ghost start = target@;
    let ghost es = source@;
    let mut i: usize = 0;
    assert(es.take(0).len() == 0);
    assert(target@ == insert_all(start, es.take(0)));
    while i < source.len()
        invariant
            es == source@,
            i <= es.len(),
            target@ == insert_all(start, es.take(i as int)),
        decreases es.len() - i,
    {
        assert(es.take(i + 1).drop_last() =~= es.take(i as int));
        assert(es.take(i + 1).last() == es[i as int]);
        let key = source.key_at(i).clone();
        let value = source.value_at(i).clone();
        target.insert(key, value);
        i = i + 1;
    }
    assert(es.take(es.len() as int) =~= es);
}

/// Gathers the settings of the command chain: each setting from the last
/// entry that sets it, the directory relative to the project, and the
/// macros and computed values of all entries, later ones first. A policy
/// value that names no policy is an error.
pub fn build_execution_context(resolved: &ResolvedCommand) -> (r: Result<ExecutionContext, String>)
    ensures
        r matches Ok(c) ==> first_invalid_mode(chain_entries(resolved.command_chain@), 0) is None && gathered(
            c,
            resolved.project_dir@,
            chain_entries(resolved.command_chain@),
        ),
        r matches Err(msg) ==> first_invalid_mode(chain_entries(resolved.command_chain@), 0) matches Some(v)
            && msg@ == invalid_mode_message(v),
{
    let ghost chain = chain_entries(resolved.command_chain@);
    let ghost dir0 = resolved.project_dir@;
    let mut context = ExecutionContext::default();
    context.dir = to_string(resolved.project_dir);
    let mut i: usize = 0;
    assert(context.macros@ =~= tables_after(chain, 0, false));
    while i < resolved.command_chain.len()
        invariant
            chain == chain_entries(resolved.command_chain@),
            dir0 == resolved.project_dir@,
            i <= chain.len(),
            first_invalid_mode(chain, 0) == first_invalid_mode(chain, i as int),
            context.dir@ == dir_after(dir0, chain, i as int),
            opt_view(context.before) == last_setting(chain, i as int, Setting::Before),
            opt_view(context.check) == last_setting(chain, i as int, Setting::Check),
            opt_view(context.runner) == last_setting(chain, i as int, Setting::Runner),
            opt_view(context.fallback_runner) == last_setting(chain, i as int, Setting::FallbackRunner),
            opt_view(context.placeholder) == last_setting(chain, i as int, Setting::Placeholder),
            context.on_unused_args == match last_setting(chain, i as int, Setting::OnUnusedArgs) {
                Some(v) => mode_named(v),
                None => None,
            },
            context.macros@ == tables_after(chain, i as int, false),
            context.compute@ == tables_after(chain, i as int, true),
        decreases chain.len() - i,
    {
        let entry: &CommandEntry = resolved.command_chain[i];
        assert(*entry == chain[i as int]);
        if let Some(spec) = entry.spec() {
            if let Some(next_dir) = non_empty_ref(spec.dir.as_str()) {
                context.dir = join_path(context.dir.as_str(), next_dir);
            }
            if let Some(before) = non_empty_ref(spec.before.as_str()) {
                context.before = Some(to_string(before));
            }
            if let Some(check) = non_empty_ref(spec.check.as_str()) {
                context.check = Some(to_string(check));
            }
            if let Some(runner) = non_empty_ref(spec.runner.as_str()) {
                context.runner = Some(to_string(runner));
            }
            if let Some(fallback_runner) = non_empty_ref(spec.fallback_runner.as_str()) {
                context.fallback_runner = Some(to_string(fallback_runner));
            }
            if let Some(placeholder) = non_empty_ref(spec.placeholder.as_str()) {
                context.placeholder = Some(to_string(placeholder));
            }
            if let Some(on_unused_args) = non_empty_ref(spec.on_unused_args.as_str()) {
                match parse_on_unused_args_mode(on_unused_args) {
                    Ok(mode) => {
                        context.on_unused_args = Some(mode);
                    },
                    Err(msg) => {
                        return Err(msg);
                    },
                }
            }
            insert_entries(&mut context.compute, &spec.compute);
            insert_entries(&mut context.macros, &spec.macros);
        }
        i = i + 1;
    }
    Ok(context)
}

/// The positions, counted from 1, of the arguments that no placeholder used.
pub open spec fn unused_positions(n: nat, used: Set<usize>) -> Seq<nat> {
    unused_indexes(n, used).map_values(|i: usize| (i + 1) as nat)
}

/// A list of numbers as `{:?}` writes a `Vec` of them.
pub open spec fn number_list(ns: Seq<nat>) -> Seq<char> {
    "["@ + join(ns.map_values(|k: nat| decimal_text(k)), ", "@) + "]"@
}

/// What the unused-argument policy makes of the arguments: nothing, a
/// warning, or an error, each with the positions of the unused arguments.
pub open spec fn policy_verdict(mode: Option<UnusedArgsMode>, n: nat, used: Set<usize>) -> Result<
    Option<Seq<char>>,
    Seq<char>,
> {
    let m = match mode {
        Some(x) => x,
        None => UnusedArgsMode::Ignore,
    };
    let unused = unused_positions(n, used);
    if n == 0 || m == UnusedArgsMode::Ignore || unused.len() == 0 {
        Ok(None)
    } else if m == UnusedArgsMode::Warn {
        Ok(Some("Warning: unused arguments detected: "@ + number_list(unused)))
    } else {
        Err("Error: unused arguments detected: "@ + number_list(unused))
    }
}

/// Applies the unused-argument policy: `Ok(None)` when it has nothing to
/// say, `Ok(Some(warning))` to warn and go on, `Err(message)` to stop.
pub fn enforce_unused_args_policy(context: &ExecutionContext, remaining_args: &[String], stats: &RenderStats) -> (r:
    Result<Option<String>, String>)
    ensures
        match policy_verdict(context.on_unused_args, remaining_args@.len(), stats.used_arg_indexes@) {
            Ok(None) => r == Ok::<Option<String>, String>(None),
            Ok(Some(w)) => r matches Ok(Some(x)) && x@ == w,
            Err(e) => r matches Err(x) && x@ == e,
        },
{
    let ghost want = unused_positions(remaining_args@.len(), stats.used_arg_indexes@);
    if remaining_args.len() == 0 {
        return Ok(None);
    }
    let mode = match context.on_unused_args {
        Some(m) => m,
        None => UnusedArgsMode::Ignore,
    };
    if mode == UnusedArgsMode::Ignore {
        return Ok(None);
    }
    let mut numbers: Vec<String> = Vec::new();
    let mut i: usize = 0;
    while i < remaining_args.len()
        invariant
            i <= remaining_args@.len(),
            texts(numbers@) == unused_positions(i as nat, stats.used_arg_indexes@).map_values(
                |k: nat| decimal_text(k),
            ),
        decreases remaining_args@.len() - i,
    {
        if !stats.used_arg_indexes.contains(&i) {
            let ghost before = texts(numbers@);
            numbers.push(number_text(i + 1));
            assert(texts(numbers@) =~= before.push(decimal_text((i + 1) as nat)));
            assert(unused_positions((i + 1) as nat, stats.used_arg_indexes@).map_values(|k: nat| decimal_text(k))
                =~= before.push(decimal_text((i + 1) as nat)));
        } else {
            assert(unused_positions((i + 1) as nat, stats.used_arg_indexes@) =~= unused_positions(
                i as nat,
                stats.used_arg_indexes@,
            ));
        }
        i = i + 1;
    }
    if numbers.len() == 0 {
        return Ok(None);
    }
    proof {
        reveal_strlit(", ");
        reveal_strlit("[");
        reveal_strlit("]");
    }
    let mut list = to_string("[");
    let joined = join_strings(&numbers, ", ");
    list.append(joined.as_str());
    list.append("]");
    if mode == UnusedArgsMode::Warn {
        let mut msg = to_string("Warning: unused arguments detected: ");
        msg.append(list.as_str());
        Ok(Some(msg))
    } else {
        let mut msg = to_string("Error: unused arguments detected: ");
        msg.append(list.as_str());
        Err(msg)
    }
}

/// `s` without its trailing line feeds and carriage returns.
pub open spec fn without_trailing_newlines(s: Seq<char>) -> Seq<char>
    decreases s.len(),
{
    if s.len() > 0 && (s.last() == '\n' || s.last() == '\r') {
        without_trailing_newlines(s.drop_last())
    } else {
        s
    }
}

/// Drops the trailing line feeds and carriage returns of `value`.
pub fn trim_trailing_newlines(value: String) -> (r: String)
    ensures
        r@ == without_trailing_newlines(value@),
{
    let n = value.as_str().unicode_len();
    let mut j = n;
    assert(value@.subrange(0, n as int) =~= value@);
    while j > 0 && (value.as_str().get_char(j - 1) == '\n' || value.as_str().get_char(j - 1) == '\r')
        invariant
            n == value@.len(),
            j <= n,
            without_trailing_newlines(value@) == without_trailing_newlines(value@.subrange(0, j as int)),
        decreases j,
    {
        assert(value@.subrange(0, j as int).drop_last() =~= value@.subrange(0, j - 1));
        j = j - 1;
    }
    to_string(value.as_str().substring_char(0, j))
}

/// Whether `s` holds no white space.
pub open spec fn no_white_space(s: Seq<char>) -> bool {
    forall|i: int| 0 <= i < s.len() ==> !is_ws(#[trigger] s[i])
}

fn has_no_white_space(s: &str) -> (r: bool)
    ensures
        r == no_white_space(s@),
{
    let n = s.unicode_len();
    let mut i: usize = 0;
    while i < n
        invariant
            n == s@.len(),
            i <= n,
            forall|k: int| 0 <= k < i ==> !is_ws(#[trigger] s@[k]),
        decreases n - i,
    {
        if is_whitespace(s.get_char(i)) {
            return false;
        }
        i = i + 1;
    }
    true
}

/// The runtime names that must be configured when an expression uses them.
pub open spec fn is_runtime_name(p: Seq<char>) -> bool {
    p == "py"@ || p == "python"@ || p == "ts"@ || p == "js"@ || p == "node"@ || p == "deno"@
}

/// What a `compute` expression evaluates with: a runtime and its code, or
/// a shell command.
pub enum ComputeTarget {
    Runtime(Seq<char>, Seq<char>),
    Shell(Seq<char>),
}

/// What a `compute` expression evaluates with: `<runtime>:<code>` when the
/// text before the first `:` is a configured runtime (a known runtime name
/// that is not configured, or a runtime without code, is an error), else
/// the trimmed expression as a shell command.
pub open spec fn compute_target(expr: Seq<char>, runtimes: Seq<(Seq<char>, RuntimeConfig)>) -> Result<
    ComputeTarget,
    Seq<char>,
> {
    let t = trim(expr);
    let i = find_char(t, ':');
    if i < 0 {
        Ok(ComputeTarget::Shell(t))
    } else {
        let prefix = t.subrange(0, i);
        let code = trim(t.subrange(i + 1, t.len() as int));
        if prefix.len() == 0 || !no_white_space(prefix) {
            Ok(ComputeTarget::Shell(t))
        } else if is_runtime_name(prefix) && crate::strmap::entry_get(runtimes, prefix) is None {
            Err("Runtime `"@ + prefix + "` is not defined in `runtimes`."@)
        } else if crate::strmap::entry_get(runtimes, prefix) is Some {
            if code.len() == 0 {
                Err("Invalid compute expression `"@ + expr + "`. Runtime code is required."@)
            } else {
                Ok(ComputeTarget::Runtime(prefix, code))
            }
        } else {
            Ok(ComputeTarget::Shell(t))
        }
    }
}

/// A `compute` expression, split.
pub enum ComputeExpression<'a> {
    Runtime { key: &'a str, code: &'a str },
    Shell(&'a str),
}

/// Splits a `compute` expression.
pub fn parse_compute_expression<'a>(expr: &'a str, runtimes: &StrMap<RuntimeConfig>) -> (r: Result<
    ComputeExpression<'a>,
    String,
>)
    ensures
        match compute_target(expr@, runtimes@) {
            Ok(ComputeTarget::Runtime(k, c)) => r matches Ok(ComputeExpression::Runtime { key, code }) && key@ == k
                && code@ == c,
            Ok(ComputeTarget::Shell(c)) => r matches Ok(ComputeExpression::Shell(x)) && x@ == c,
            Err(e) => r matches Err(x) && x@ == e,
        },
{
    let trimmed = trim_str(expr);
    let n = trimmed.unicode_len();
    let mut colon = String::new();
    push_char(&mut colon, ':');
    assert(colon@ =~= seq![':']);
    proof {
        crate::text::lemma_find_result(trimmed@, seq![':']);
    }
    if let Some(index) = find_str(trimmed, colon.as_str()) {
        let prefix = trimmed.substring_char(0, index);
        if prefix.unicode_len() > 0 && has_no_white_space(prefix) {
            let code = trim_str(trimmed.substring_char(index + 1, n));
            let known = str_equal(prefix, "py") || str_equal(prefix, "python") || str_equal(prefix, "ts")
                || str_equal(prefix, "js") || str_equal(prefix, "node") || str_equal(prefix, "deno");
            let configured = runtimes.contains_key(prefix);
            if known && !configured {
                let mut msg = to_string("Runtime `");
                msg.append(prefix);
                msg.append("` is not defined in `runtimes`.");
                return Err(msg);
            }
            if configured {
                if code.unicode_len() == 0 {
                    let mut msg = to_string("Invalid compute expression `");
                    msg.append(expr);
                    msg.append("`. Runtime code is required.");
                    return Err(msg);
                }
                return Ok(ComputeExpression::Runtime { key: prefix, code });
            }
        }
    }
    Ok(ComputeExpression::Shell(trimmed))
}

/// How an `eval` expression splits into a runtime and its code, or the
/// report when it does not.
pub open spec fn eval_parts(value: Seq<char>) -> Result<(Seq<char>, Seq<char>), Seq<char>> {
    let i = find_char(value, ':');
    if i < 0 {
        Err("Invalid eval expression `"@ + value + "`. Expected format `<runtime>:<code>`."@)
    } else {
        let runtime = trim(value.subrange(0, i));
        let code = trim(value.subrange(i + 1, value.len() as int));
        if runtime.len() == 0 || code.len() == 0 {
            Err("Invalid eval expression `"@ + value + "`. Runtime key and code are required."@)
        } else {
            Ok((runtime, code))
        }
    }
}

/// Splits `<runtime>:<code>`.
pub fn split_runtime_eval(value: &str) -> (r: Result<(&str, &str), String>)
    ensures
        match eval_parts(value@) {
            Ok((k, c)) => r matches Ok((x, y)) && x@ == k && y@ == c,
            Err(e) => r matches Err(x) && x@ == e,
        },
{
    let n = value.unicode_len();
    let mut colon = String::new();
    push_char(&mut colon, ':');
    assert(colon@ =~= seq![':']);
    proof {
        crate::text::lemma_find_result(value@, seq![':']);
    }
    let index = match find_str(value, colon.as_str()) {
        Some(i) => i,
        None => {
            let mut msg = to_string("Invalid eval expression `");
            msg.append(value);
            msg.append("`. Expected format `<runtime>:<code>`.");
            return Err(msg);
        },
    };
    let runtime = trim_str(value.substring_char(0, index));
    let code = trim_str(value.substring_char(index + 1, n));
    if runtime.unicode_len() == 0 || code.unicode_len() == 0 {
        let mut msg = to_string("Invalid eval expression `");
        msg.append(value);
        msg.append("`. Runtime key and code are required.");
        return Err(msg);
    }
    Ok((runtime, code))
}

/// The runtimes that expressions can run in.
#[derive(Clone, Copy, Debug, PartialEq, Eq, Structural)]
pub enum RuntimeSdk {
    Node,
    Deno,
    Python,
}

/// The runtime that an `sdk` value names, or the report when it names none.
pub open spec fn sdk_named(value: Seq<char>) -> Result<RuntimeSdk, Seq<char>> {
    let t = trim(value);
    if t == "node"@ {
        Ok(RuntimeSdk::Node)
    } else if t == "deno"@ {
        Ok(RuntimeSdk::Deno)
    } else if t == "python"@ {
        Ok(RuntimeSdk::Python)
    } else {
        Err("Unsupported runtime sdk `"@ + t + "`. Supported values: node, deno, python."@)
    }
}

/// Reads an `sdk` value.
pub fn parse_runtime_sdk(value: &str) -> (r: Result<RuntimeSdk, String>)
    ensures
        match sdk_named(value@) {
            Ok(s) => r == Ok::<RuntimeSdk, String>(s),
            Err(e) => r matches Err(x) && x@ == e,
        },
{
    let t = trim_str(value);
    if str_equal(t, "node") {
        Ok(RuntimeSdk::Node)
    } else if str_equal(t, "deno") {
        Ok(RuntimeSdk::Deno)
    } else if str_equal(t, "python") {
        Ok(RuntimeSdk::Python)
    } else {
        let mut msg = to_string("Unsupported runtime sdk `");
        msg.append(t);
        msg.append("`. Supported values: node, deno, python.");
        Err(msg)
    }
}

/// The program that runs a runtime when no runner is configured.
pub open spec fn default_runner_of(sdk: RuntimeSdk) -> Seq<char> {
    match sdk {
        RuntimeSdk::Node => "node"@,
        RuntimeSdk::Deno => "deno"@,
        RuntimeSdk::Python => "python"@,
    }
}

/// The program that runs a runtime when no runner is configured.
pub fn default_runtime_runner(sdk: &RuntimeSdk) -> (r: &'static str)
    ensures
        r@ == default_runner_of(*sdk),
{
    match sdk {
        RuntimeSdk::Node => "node",
        RuntimeSdk::Deno => "deno",
        RuntimeSdk::Python => "python",
    }
}

/// The arguments that make the runtime's program run its bootstrap script.
pub open spec fn bootstrap_arguments(sdk: RuntimeSdk) -> Seq<char> {
    match sdk {
        RuntimeSdk::Python => "-u -c "@ + shell_escaped(PYTHON_BOOTSTRAP@),
        RuntimeSdk::Node => "-e "@ + shell_escaped(NODE_BOOTSTRAP@),
        RuntimeSdk::Deno => "eval "@ + shell_escaped(DENO_BOOTSTRAP@),
    }
}

/// The arguments that make the runtime's program run its bootstrap script.
pub fn runtime_bootstrap_invocation(sdk: &RuntimeSdk) -> (r: String)
    ensures
        r@ == bootstrap_arguments(*sdk),
{
    match sdk {
        RuntimeSdk::Python => {
            let mut r = to_string("-u -c ");
            r.append(shell_escape(python_runtime_bootstrap_script()).as_str());
            r
        },
        RuntimeSdk::Node => {
            let mut r = to_string("-e ");
            r.append(shell_escape(node_runtime_bootstrap_script()).as_str());
            r
        },
        RuntimeSdk::Deno => {
            let mut r = to_string("eval ");
            r.append(shell_escape(deno_runtime_bootstrap_script()).as_str());
            r
        },
    }
}

/// The command that starts a runtime: its runner, then the arguments that
/// make it run its bootstrap script.
pub fn runtime_launch_command(runner: &str, sdk: &RuntimeSdk) -> (r: String)
    ensures
        r@ == runner@ + seq![' '] + bootstrap_arguments(*sdk),
{
    let mut r = to_string(runner);
    push_char(&mut r, ' ');
    r.append(runtime_bootstrap_invocation(sdk).as_str());
    r
}

/// A runtime, ready to start.
#[derive(Debug)]
pub struct RuntimeDefinition {
    pub sdk: RuntimeSdk,
    pub runner: String,
    pub check: Option<String>,
    pub fallback_runner: Option<String>,
    pub paths: Vec<String>,
}

/// Reads the configuration of the runtime `key`: its sdk, its runner (the
/// sdk's program when none is set), its check and fallback runner.
pub fn resolve_runtime_definition(key: &str, config: &RuntimeConfig) -> (r: Result<RuntimeDefinition, String>)
    ensures
        match sdk_named(config.sdk@) {
            Err(e) => r matches Err(x) && x@ == e,
            Ok(sdk) => r matches Ok(d) && d.sdk == sdk && d.runner@ == match non_empty_text(config.runner@) {
                Some(t) => t,
                None => default_runner_of(sdk),
            } && opt_view(d.check) == non_empty_text(config.check@) && opt_view(d.fallback_runner)
                == non_empty_text(config.fallback_runner@) && d.paths.deep_view() == config.paths.deep_view(),
        },
{
    let sdk = match parse_runtime_sdk(config.sdk.as_str()) {
        Ok(s) => s,
        Err(e) => {
            return Err(e);
        },
    };
    let runner = match non_empty_ref(config.runner.as_str()) {
        Some(r) => to_string(r),
        None => to_string(default_runtime_runner(&sdk)),
    };
    let check = match non_empty_ref(config.check.as_str()) {
        Some(c) => Some(to_string(c)),
        None => None,
    };
    let fallback_runner = match non_empty_ref(config.fallback_runner.as_str()) {
        Some(f) => Some(to_string(f)),
        None => None,
    };
    proof {
        reveal_strlit("node");
        reveal_strlit("deno");
        reveal_strlit("python");
        crate::text::lemma_trim_idempotent(config.runner@);
        assert(trim("node"@) =~= "node"@);
        assert(trim("deno"@) =~= "deno"@);
        assert(trim("python"@) =~= "python"@);
    }
    if trim_str(runner.as_str()).unicode_len() == 0 {
        let mut msg = to_string("Runtime `");
        msg.append(key);
        msg.append("` has an invalid runner.");
        return Err(msg);
    }
    Ok(RuntimeDefinition {
        sdk,
        runner,
        check,
        fallback_runner,
        paths: crate::config::clone_strings(&config.paths),
    })
}

/// A request to a runtime: an operation, its id, and a path or code.
pub struct RuntimeRequest<'a> {
    pub op: &'a str,
    pub id: String,
    pub path: Option<&'a str>,
    pub code: Option<&'a str>,
}

/// A request as one line of JSON.
pub open spec fn request_json(op: Seq<char>, id: Seq<char>, path: Option<Seq<char>>, code: Option<Seq<char>>) -> Seq<char> {
    let parts = seq!["\"op\":"@ + json_quoted(op), "\"id\":"@ + json_quoted(id)];
    let parts = match path {
        Some(p) => parts.push("\"path\":"@ + json_quoted(p)),
        None => parts,
    };
    let parts = match code {
        Some(c) => parts.push("\"code\":"@ + json_quoted(c)),
        None => parts,
    };
    seq!['{'] + join(parts, seq![',']) + seq!['}']
}

/// Writes a request as one line of JSON.
pub fn format_runtime_request_json(request: &RuntimeRequest) -> (r: String)
    ensures
        r@ == request_json(
            request.op@,
            request.id@,
            match request.path {
                Some(p) => Some(p@),
                None => None,
            },
            match request.code {
                Some(c) => Some(c@),
                None => None,
            },
        ),
{
    let mut parts: Vec<String> = Vec::new();
    let mut op = to_string("\"op\":");
    op.append(json_quote(request.op).as_str());
    parts.push(op);
    let mut id = to_string("\"id\":");
    id.append(json_quote(request.id.as_str()).as_str());
    parts.push(id);
    let ghost base = texts(parts@);
    if let Some(path) = request.path {
        let mut p = to_string("\"path\":");
        p.append(json_quote(path).as_str());
        parts.push(p);
    }
    if let Some(code) = request.code {
        let mut c = to_string("\"code\":");
        c.append(json_quote(code).as_str());
        parts.push(c);
    }
    proof {
        reveal_strlit(",");
    }
    let mut r = String::new();
    push_char(&mut r, '{');
    let mut comma = String::new();
    push_char(&mut comma, ',');
    assert(comma@ =~= seq![',']);
    let joined = join_strings(&parts, comma.as_str());
    r.append(joined.as_str());
    push_char(&mut r, '}');
    assert(texts(parts@) =~= request_json_parts(request));
    r
}

spec fn request_json_parts(request: &RuntimeRequest) -> Seq<Seq<char>> {
    let parts = seq!["\"op\":"@ + json_quoted(request.op@), "\"id\":"@ + json_quoted(request.id@)];
    let parts = match request.path {
        Some(p) => parts.push("\"path\":"@ + json_quoted(p@)),
        None => parts,
    };
    match request.code {
        Some(c) => parts.push("\"code\":"@ + json_quoted(c@)),
        None => parts,
    }
}

/// The scan that matches `value` against the pieces of a pattern between
/// its `*`: a first piece must start the value (when the pattern does not
/// start with `*`), a last piece must end it (when the pattern does not end
/// with `*`), and each other piece is found after the one before.
pub open spec fn wild_scan(
    value: Seq<char>,
    parts: Seq<Seq<char>>,
    idx: int,
    cursor: int,
    first: bool,
    star_start: bool,
    star_end: bool,
) -> bool
    decreases parts.len() - idx,
{
    if idx < 0 || idx >= parts.len() {
        star_end || ends_with(value, parts.last())
    } else {
        let part = parts[idx];
        let rest = value.subrange(cursor, value.len() as int);
        if part.len() == 0 {
            wild_scan(value, parts, idx + 1, cursor, first, star_start, star_end)
        } else if first && !star_start {
            if starts_with(rest, part) {
                wild_scan(value, parts, idx + 1, cursor + part.len(), false, star_start, star_end)
            } else {
                false
            }
        } else if idx + 1 == parts.len() && !star_end {
            ends_with(rest, part)
        } else {
            let f = find(rest, part);
            if f < 0 {
                false
            } else {
                wild_scan(value, parts, idx + 1, cursor + f + part.len(), false, star_start, star_end)
            }
        }
    }
}

/// Whether `value` matches the file-name pattern `pattern`, in which `*`
/// stands for any text.
pub open spec fn wildcard_matches(value: Seq<char>, pattern: Seq<char>) -> bool {
    if pattern == seq!['*'] {
        true
    } else {
        wild_scan(
            value,
            split_on(pattern, '*'),
            0,
            0,
            true,
            starts_with(pattern, seq!['*']),
            ends_with(pattern, seq!['*']),
        )
    }
}

/// Matches a file name against a pattern with `*`.
pub fn wildcard_match(value: &str, pattern: &str) -> (r: bool)
    ensures
        r == wildcard_matches(value@, pattern@),
{
    let mut star = String::new();
    push_char(&mut star, '*');
    assert(star@ =~= seq!['*']);
    if str_equal(pattern, star.as_str()) {
        return true;
    }
    let parts = split_char(pattern, '*');
    let ghost pv = parts.deep_view();
    proof {
        crate::text::lemma_split_on_nonempty(pattern@, '*');
    }
    let star_start = starts_with_str(pattern, star.as_str());
    let star_end = ends_with_str(pattern, star.as_str());
    let n = value.unicode_len();
    let mut cursor: usize = 0;
    let mut first = true;
    let mut index: usize = 0;
    while index < parts.len()
        invariant
            pv == parts.deep_view(),
            pv.len() >= 1,
            n == value@.len(),
            index <= pv.len(),
            cursor <= n,
            star_start == starts_with(pattern@, seq!['*']),
            star_end == ends_with(pattern@, seq!['*']),
            wildcard_matches(value@, pattern@) == wild_scan(value@, pv, index as int, cursor as int, first, star_start, star_end),
            pattern@ != seq!['*'],
        decreases pv.len() - index,
    {
        let part = parts[index].as_str();
        assert(pv[index as int] == part@);
        let rest = value.substring_char(cursor, n);
        if part.unicode_len() == 0 {
            index = index + 1;
        } else if first && !star_start {
            if !starts_with_str(rest, part) {
                return false;
            }
            cursor = cursor + part.unicode_len();
            first = false;
            index = index + 1;
        } else if index + 1 == parts.len() && !star_end {
            return ends_with_str(rest, part);
        } else {
            proof {
                crate::text::lemma_find_result(rest@, part@);
            }
            match find_str(rest, part) {
                Some(found) => {
                    cursor = cursor + found + part.unicode_len();
                    first = false;
                    index = index + 1;
                },
                None => {
                    return false;
                },
            }
        }
    }
    if !star_end {
        let last = parts[parts.len() - 1].as_str();
        assert(pv.last() == last@);
        return ends_with_str(value, last);
    }
    true
}

/// A pattern `*<suffix>`, with no other `*`, matches exactly the values
/// that end with the suffix.
pub proof fn lemma_star_suffix_pattern(value: Seq<char>, suffix: Seq<char>)
    requires
        !suffix.contains('*'),
    ensures
        wildcard_matches(value, seq!['*'] + suffix) == (suffix.len() == 0 || ends_with(value, suffix)),
{
    let pattern = seq!['*'] + suffix;
    crate::text::lemma_split_on_star_suffix(suffix);
    if suffix.len() == 0 {
        assert(pattern =~= seq!['*']);
    } else {
        assert(pattern != seq!['*']);
        let parts = split_on(pattern, '*');
        assert(parts =~= seq![Seq::<char>::empty(), suffix]);
        assert(starts_with(pattern, seq!['*'])) by {
            assert(pattern.subrange(0, 1) =~= seq!['*']);
        }
        assert(!ends_with(pattern, seq!['*'])) by {
            let tail = pattern.subrange(pattern.len() - 1, pattern.len() as int);
            assert(tail[0] == suffix.last());
            if suffix.last() == '*' {
                assert(suffix[suffix.len() - 1] == '*');
                assert(suffix.contains('*'));
            }
            assert(seq!['*'][0] == '*');
        }
        assert(value.subrange(0, value.len() as int) =~= value);
        reveal_with_fuel(wild_scan, 3);
    }
}

/// What a runtime gives back for an `eval`: text, or commands to run.
#[derive(Debug)]
pub enum RuntimeEvalResult {
    Text(String),
    Commands(Vec<String>),
}

/// The result that a result payload of kind `kind` carries: its text for
/// `text`, its commands for `commands`, nothing for another kind.
pub fn runtime_result(kind: &str, text: String, commands: Vec<String>) -> (r: Option<RuntimeEvalResult>)
    ensures
        kind@ == "text"@ ==> (r matches Some(RuntimeEvalResult::Text(t)) && t == text),
        kind@ == "commands"@ ==> (r matches Some(RuntimeEvalResult::Commands(c)) && c == commands),
        kind@ != "text"@ && kind@ != "commands"@ ==> r is None,
{
    proof {
        reveal_strlit("text");
        reveal_strlit("commands");
        assert("text"@.len() != "commands"@.len());
    }
    if str_equal(kind, "text") {
        Some(RuntimeEvalResult::Text(text))
    } else if str_equal(kind, "commands") {
        Some(RuntimeEvalResult::Commands(commands))
    } else {
        None
    }
}

/// The answer of a runtime to a request: the lines it printed, and its
/// result.
#[derive(Debug)]
pub struct RuntimeResponse {
    pub output_lines: Vec<String>,
    pub eval_result: Option<RuntimeEvalResult>,
}

/// A line that a runtime writes while it answers request `id`.
pub enum RuntimeLine {
    /// The answer is complete.
    Done,
    /// The request failed with this message.
    Error(String),
    /// A result payload, and the line that carried it.
    Result { payload: String, line: String },
    /// Output to pass on.
    Output(String),
}

/// How a line from a runtime reads, without its line ending, for request
/// `id`.
pub open spec fn line_kind(raw: Seq<char>, id: Seq<char>) -> (int, Seq<char>) {
    let line = without_trailing_newlines(raw);
    let error = "__FIRE_ERROR__"@ + id + ":"@;
    let result = "__FIRE_RESULT__"@ + id + ":"@;
    if line == "__FIRE_DONE__"@ + id {
        (0, Seq::empty())
    } else if starts_with(line, error) {
        (1, line.subrange(error.len() as int, line.len() as int))
    } else if starts_with(line, result) {
        (2, line.subrange(result.len() as int, line.len() as int))
    } else {
        (3, line)
    }
}

/// Reads a line that a runtime wrote while answering request `id`.
pub fn classify_runtime_line(raw: &str, id: &str) -> (r: RuntimeLine)
    ensures
        ({
            let k = line_kind(raw@, id@);
            match r {
                RuntimeLine::Done => k.0 == 0,
                RuntimeLine::Error(m) => k.0 == 1 && m@ == k.1,
                RuntimeLine::Result { payload, line } => k.0 == 2 && payload@ == k.1 && line@
                    == without_trailing_newlines(raw@),
                RuntimeLine::Output(l) => k.0 == 3 && l@ == k.1,
            }
        }),
{
    let line = trim_trailing_newlines(to_string(raw));
    let mut done = to_string("__FIRE_DONE__");
    done.append(id);
    if str_equal(line.as_str(), done.as_str()) {
        return RuntimeLine::Done;
    }
    let mut error = to_string("__FIRE_ERROR__");
    error.append(id);
    error.append(":");
    let n = line.as_str().unicode_len();
    if starts_with_str(line.as_str(), error.as_str()) {
        let rest = line.as_str().substring_char(error.as_str().unicode_len(), n);
        return RuntimeLine::Error(to_string(rest));
    }
    let mut result = to_string("__FIRE_RESULT__");
    result.append(id);
    result.append(":");
    if starts_with_str(line.as_str(), result.as_str()) {
        let payload = to_string(line.as_str().substring_char(result.as_str().unicode_len(), n));
        return RuntimeLine::Result { payload, line };
    }
    RuntimeLine::Output(line)
}

/// The lines that an `eval` prints: the output, then a text result.
pub open spec fn eval_printed(output: Seq<Seq<char>>, result: Option<(bool, Seq<char>, Seq<Seq<char>>)>) -> Seq<
    Seq<char>,
> {
    match result {
        Some((true, t, _)) => output.push(t),
        _ => output,
    }
}

/// A result as text: whether it is text, the text, and the commands.
pub open spec fn result_view(r: Option<RuntimeEvalResult>) -> Option<(bool, Seq<char>, Seq<Seq<char>>)> {
    match r {
        Some(RuntimeEvalResult::Text(t)) => Some((true, t@, Seq::empty())),
        Some(RuntimeEvalResult::Commands(c)) => Some((false, Seq::empty(), texts(c@))),
        None => None,
    }
}

/// What an `eval` answer leads to: the lines to print, and the commands to
/// run.
pub fn eval_effects(response: RuntimeResponse) -> (r: (Vec<String>, Vec<String>))
    ensures
        texts(r.0@) == eval_printed(texts(response.output_lines@), result_view(response.eval_result)),
        texts(r.1@) == match result_view(response.eval_result) {
            Some((false, _, c)) => c,
            _ => Seq::empty(),
        },
{
    let ghost rv = result_view(response.eval_result);
    let mut printed = response.output_lines;
    match response.eval_result {
        Some(RuntimeEvalResult::Text(value)) => {
            let ghost before = texts(printed@);
            printed.push(value);
            assert(texts(printed@) =~= before.push(rv.unwrap().1));
            (printed, Vec::new())
        },
        Some(RuntimeEvalResult::Commands(commands)) => (printed, commands),
        None => (printed, Vec::new()),
    }
}

/// What an `eval` answer gives as a computed value: the output lines and
/// the result, one per line, without trailing line breaks.
pub open spec fn captured(output: Seq<Seq<char>>, result: Option<(bool, Seq<char>, Seq<Seq<char>>)>) -> Seq<char> {
    let lines = match result {
        Some((true, t, _)) => output.push(t),
        Some((false, _, c)) => output.push(join(c, seq!['\n'])),
        None => output,
    };
    without_trailing_newlines(join(lines, seq!['\n']))
}

/// The value that an `eval` answer gives to `compute`.
pub fn captured_output(response: RuntimeResponse) -> (r: String)
    ensures
        r@ == captured(texts(response.output_lines@), result_view(response.eval_result)),
{
    let ghost rv = result_view(response.eval_result);
    let mut lines = response.output_lines;
    let ghost before = texts(lines@);
    let mut nl = String::new();
    push_char(&mut nl, '\n');
    assert(nl@ =~= seq!['\n']);
    match response.eval_result {
        Some(RuntimeEvalResult::Text(value)) => {
            lines.push(value);
            assert(texts(lines@) =~= before.push(rv.unwrap().1));
        },
        Some(RuntimeEvalResult::Commands(commands)) => {
            let joined = join_strings(&commands, nl.as_str());
            lines.push(joined);
            assert(texts(lines@) =~= before.push(join(rv.unwrap().2, seq!['\n'])));
        },
        None => {},
    }
    trim_trailing_newlines(join_strings(&lines, nl.as_str()))
}

/// The values rendered one after the other, each with the usage left by
/// the ones before.
pub open spec fn render_all(
    values: Seq<Seq<char>>,
    context: ExecutionContext,
    args: Seq<Seq<char>>,
    computed: Seq<(Seq<char>, Seq<char>)>,
    track: bool,
    mode: RenderMode,
    used: Set<usize>,
    had: bool,
) -> (Seq<Seq<char>>, Set<usize>, bool)
    decreases values.len(),
{
    if values.len() == 0 {
        (Seq::empty(), used, had)
    } else {
        let prev = render_all(values.drop_last(), context, args, computed, track, mode, used, had);
        let one = rendered(values.last(), context, args, computed, track, mode, prev.1, prev.2);
        (prev.0.push(one.0), one.1, one.2)
    }
}

/// Renders the values one after the other.
pub fn render_all_values(
    values: &[String],
    context: &ExecutionContext,
    args: &[String],
    computed: &StrMap<String>,
    track: bool,
    mode: RenderMode,
    stats: &mut RenderStats,
) -> (r: Vec<String>)
    requires
        placeholder_advances(*context),
    ensures
        (texts(r@), final(stats).used_arg_indexes@, final(stats).had_placeholders) == render_all(
            texts(values@),
            *context,
            texts(args@),
            text_pairs(computed@),
            track,
            mode,
            old(stats).used_arg_indexes@,
            old(stats).had_placeholders,
        ),
{
    let ghost vs = texts(values@);
    let mut out: Vec<String> = Vec::new();
    let mut i: usize = 0;
    assert(vs.take(0).len() == 0);
    assert(args@.map_values(|a: String| a@) =~= texts(args@));
    while i < values.len()
        invariant
            placeholder_advances(*context),
            vs == texts(values@),
            i <= vs.len(),
            args@.map_values(|a: String| a@) == texts(args@),
            (texts(out@), stats.used_arg_indexes@, stats.had_placeholders) == render_all(
                vs.take(i as int),
                *context,
                texts(args@),
                text_pairs(computed@),
                track,
                mode,
                old(stats).used_arg_indexes@,
                old(stats).had_placeholders,
            ),
        decreases vs.len() - i,
    {
        assert(vs.take(i + 1).drop_last() =~= vs.take(i as int));
        assert(vs.take(i + 1).last() == values@[i as int]@);
        let one = render_runtime_string(values[i].as_str(), context, args, computed, track, mode, stats);
        let ghost before = texts(out@);
        out.push(one);
        assert(texts(out@) =~= before.push(one@));
        i = i + 1;
    }
    assert(vs.take(vs.len() as int) =~= vs);
    out
}

/// The commands that run: each rendered in turn, and the arguments that no
/// placeholder used appended to the last.
pub open spec fn commands_to_run(
    commands: Seq<Seq<char>>,
    context: ExecutionContext,
    args: Seq<Seq<char>>,
    computed: Seq<(Seq<char>, Seq<char>)>,
    used: Set<usize>,
    had: bool,
) -> Seq<Seq<char>> {
    let r = render_all(commands, context, args, computed, true, RenderMode::Shell, used, had);
    crate::render::with_tail(r.0, crate::render::tail_args(context.placeholder is Some, args, r.1, r.2))
}

/// The commands that run, given the usage that computed values left.
pub fn commands_for_execution(
    commands: &[String],
    context: &ExecutionContext,
    args: &[String],
    computed: &StrMap<String>,
    stats: RenderStats,
) -> (r: Vec<String>)
    requires
        placeholder_advances(*context),
    ensures
        texts(r@) == commands_to_run(
            texts(commands@),
            *context,
            texts(args@),
            text_pairs(computed@),
            stats.used_arg_indexes@,
            stats.had_placeholders,
        ),
{
    let mut stats = stats;
    let rendered_commands = render_all_values(commands, context, args, computed, true, RenderMode::Shell, &mut stats);
    assert(args@.map_values(|a: String| a@) =~= texts(args@));
    let tail = crate::render::unresolved_args_for_tail(context, args, &stats);
    assert(texts(tail@) =~= tail.deep_view());
    let r = crate::render::commands_with_remaining_args(rendered_commands.as_slice(), tail.as_slice());
    assert(rendered_commands@.map_values(|c: String| c@) =~= texts(rendered_commands@));
    assert(tail@.map_values(|a: String| a@) =~= texts(tail@));
    assert(texts(r@) =~= r.deep_view());
    r
}

/// Whether the configured placeholder pattern can be used for rendering.
pub fn placeholder_usable(context: &ExecutionContext) -> (r: bool)
    ensures
        r == placeholder_advances(*context),
{
    let templates = crate::render::placeholder_templates(
        match &context.placeholder {
            Some(p) => Some(p.as_str()),
            None => None,
        },
    );
    assert(templates.deep_view() == templates_of(placeholder_text(*context)));
    if templates.len() == 0 {
        return true;
    }
    assert(templates.deep_view()[0] == templates[0]@);
    match crate::render::split_placeholder_pattern(templates[0].as_str()) {
        Some((p, _)) => p.unicode_len() > 0,
        None => true,
    }
}

/// The `compute` entries that are evaluated: those with a non-blank token,
/// the token trimmed, in the order of the tokens.
pub open spec fn compute_items(entries: Seq<(Seq<char>, String)>) -> Seq<(Seq<char>, Seq<char>)>
    decreases entries.len(),
{
    if entries.len() == 0 {
        Seq::empty()
    } else {
        let prev = compute_items(entries.drop_last());
        let e = entries.last();
        if trim(e.0).len() == 0 {
            prev
        } else {
            prev.push((trim(e.0), e.1@))
        }
    }
}

/// The `compute` entries that are evaluated, with their tokens trimmed.
pub fn compute_entries(context: &ExecutionContext) -> (r: Vec<(String, String)>)
    ensures
        r@.map_values(|p: (String, String)| (p.0@, p.1@)) == compute_items(context.compute@),
{
    let ghost es = context.compute@;
    let mut out: Vec<(String, String)> = Vec::new();
    let mut i: usize = 0;
    assert(es.take(0).len() == 0);
    assert(out@.map_values(|p: (String, String)| (p.0@, p.1@)) =~= compute_items(es.take(0)));
    while i < context.compute.len()
        invariant
            es == context.compute@,
            i <= es.len(),
            out@.map_values(|p: (String, String)| (p.0@, p.1@)) == compute_items(es.take(i as int)),
        decreases es.len() - i,
    {
        assert(es.take(i + 1).drop_last() =~= es.take(i as int));
        assert(es.take(i + 1).last() == es[i as int]);
        let token = trim_str(context.compute.key_at(i).as_str());
        if token.unicode_len() > 0 {
            let ghost before = out@.map_values(|p: (String, String)| (p.0@, p.1@));
            out.push((to_string(token), context.compute.value_at(i).clone()));
            assert(out@.map_values(|p: (String, String)| (p.0@, p.1@)) =~= before.push((token@, es[i as int].1@)));
        }
        i = i + 1;
    }
    assert(es.take(es.len() as int) =~= es);
    out
}

/// The `eval` expressions, rendered in turn and split into runtime and
/// code; the first that does not split is an error.
pub open spec fn evals_split(rendered_evals: Seq<Seq<char>>) -> Result<Seq<(Seq<char>, Seq<char>)>, Seq<char>>
    decreases rendered_evals.len(),
{
    if rendered_evals.len() == 0 {
        Ok(Seq::empty())
    } else {
        match evals_split(rendered_evals.drop_last()) {
            Err(e) => Err(e),
            Ok(prev) => match eval_parts(rendered_evals.last()) {
                Ok(p) => Ok(prev.push(p)),
                Err(e) => Err(e),
            },
        }
    }
}

/// The `eval` expressions rendered for runtimes, in turn.
pub open spec fn eval_render(
    raw_evals: &[String],
    context: &ExecutionContext,
    args: &[String],
    computed: &StrMap<String>,
    stats: &RenderStats,
) -> (Seq<Seq<char>>, Set<usize>, bool) {
    render_all(
        texts(raw_evals@),
        *context,
        texts(args@),
        text_pairs(computed@),
        true,
        RenderMode::Eval,
        stats.used_arg_indexes@,
        stats.had_placeholders,
    )
}

/// Renders the `eval` expressions for runtimes and splits each into its
/// runtime and its code.
pub fn parse_evals(
    raw_evals: &[String],
    context: &ExecutionContext,
    args: &[String],
    computed: &StrMap<String>,
    stats: &mut RenderStats,
) -> (r: Result<Vec<(String, String)>, String>)
    requires
        placeholder_advances(*context),
    ensures
        r is Ok ==> final(stats).used_arg_indexes@ == eval_render(raw_evals, context, args, computed, old(stats)).1
            && final(stats).had_placeholders == eval_render(raw_evals, context, args, computed, old(stats)).2,
        match evals_split(eval_render(raw_evals, context, args, computed, old(stats)).0) {
            Ok(ps) => r matches Ok(v) && v@.map_values(|p: (String, String)| (p.0@, p.1@)) == ps,
            Err(e) => r matches Err(x) && x@ == e,
        },
{
    let rendered_evals = render_all_values(raw_evals, context, args, computed, true, RenderMode::Eval, stats);
    let ghost rv = texts(rendered_evals@);
    let ghost all = render_all(
        texts(raw_evals@),
        *context,
        texts(args@),
        text_pairs(computed@),
        true,
        RenderMode::Eval,
        old(stats).used_arg_indexes@,
        old(stats).had_placeholders,
    );
    assert(rv == all.0);
    let mut out: Vec<(String, String)> = Vec::new();
    let mut i: usize = 0;
    assert(rv.take(0).len() == 0);
    assert(out@.map_values(|p: (String, String)| (p.0@, p.1@)) =~= Seq::<(Seq<char>, Seq<char>)>::empty());
    while i < rendered_evals.len()
        invariant
            rv == texts(rendered_evals@),
            rv == all.0,
            all == eval_render(raw_evals, context, args, computed, old(stats)),
            i <= rv.len(),
            evals_split(rv.take(i as int)) == Ok::<Seq<(Seq<char>, Seq<char>)>, Seq<char>>(
                out@.map_values(|p: (String, String)| (p.0@, p.1@)),
            ),
        decreases rv.len() - i,
    {
        assert(rv.take(i + 1).drop_last() =~= rv.take(i as int));
        assert(rv.take(i + 1).last() == rendered_evals@[i as int]@);
        assert(rv[i as int] == rendered_evals@[i as int]@);
        match split_runtime_eval(rendered_evals[i].as_str()) {
            Ok((runtime, code)) => {
                let ghost before = out@.map_values(|p: (String, String)| (p.0@, p.1@));
                out.push((to_string(runtime), to_string(code)));
                assert(out@.map_values(|p: (String, String)| (p.0@, p.1@)) =~= before.push((runtime@, code@)));
            },
            Err(e) => {
                proof {
                    assert(eval_parts(rv[i as int]) matches Err(x) && x == e@);
                    lemma_evals_split_err(rv, i as int, e@);
                    assert(evals_split(all.0) == Err::<Seq<(Seq<char>, Seq<char>)>, Seq<char>>(e@));
                }
                return Err(e);
            },
        }
        i = i + 1;
    }
    assert(rv.take(rv.len() as int) =~= rv);
    Ok(out)
}

proof fn lemma_evals_split_err(rv: Seq<Seq<char>>, i: int, m: Seq<char>)
    requires
        0 <= i < rv.len(),
        evals_split(rv.take(i)) is Ok,
        eval_parts(rv[i]) == Err::<(Seq<char>, Seq<char>), Seq<char>>(m),
    ensures
        evals_split(rv) == Err::<Seq<(Seq<char>, Seq<char>)>, Seq<char>>(m),
    decreases rv.len() - i,
{
    assert(rv.take(i + 1).drop_last() =~= rv.take(i));
    assert(rv.take(i + 1).last() == rv[i]);
    lemma_evals_split_err_extend(rv, i + 1);
}

proof fn lemma_evals_split_err_extend(rv: Seq<Seq<char>>, k: int)
    requires
        0 < k <= rv.len(),
        evals_split(rv.take(k)) is Err,
    ensures
        evals_split(rv) == evals_split(rv.take(k)),
    decreases rv.len() - k,
{
    if k < rv.len() {
        assert(rv.take(k + 1).drop_last() =~= rv.take(k));
        lemma_evals_split_err_extend(rv, k + 1);
    } else {
        assert(rv.take(k) =~= rv);
    }
}

/// The line for a nested command when a command path has no action: the
/// name, and the first line of its description in a column when it has
/// one.
pub open spec fn no_action_item(name: Seq<char>, description: Seq<char>, width: nat) -> Seq<char> {
    if description.len() == 0 {
        "  "@ + name
    } else {
        "  "@ + crate::help::padded(name, width) + "  "@ + crate::completion::description_line(description)
    }
}

/// The width of the name column for the entries `m`.
pub open spec fn keys_width(m: Seq<(Seq<char>, CommandEntry)>) -> nat {
    crate::help::name_width(m.map_values(|e: (Seq<char>, CommandEntry)| (e.0, None::<Seq<char>>)))
}

/// The report for a command path without an action, with its nested
/// commands when it has them.
pub open spec fn no_action_report(command: CommandEntry) -> Seq<Seq<char>> {
    seq!["[fire] Command path has no executable action."@] + match command.subcommands_of() {
        Some(m) => seq!["Commands:"@] + m@.map_values(
            |e: (Seq<char>, CommandEntry)| no_action_item(e.0, e.1.description_text(), keys_width(m@)),
        ),
        None => Seq::empty(),
    }
}

/// The report for a command path without an action.
pub fn no_action_lines(command: &CommandEntry) -> (r: Vec<String>)
    ensures
        texts(r@) == no_action_report(*command),
{
    proof {
        reveal_strlit("  ");
        reveal_strlit("");
        assert(""@ =~= Seq::<char>::empty());
    }
    let mut lines: Vec<String> = Vec::new();
    lines.push(to_string("[fire] Command path has no executable action."));
    let ghost head = texts(lines@);
    let subcommands = match command.subcommands() {
        Some(s) => s,
        None => {
            assert(texts(lines@) =~= no_action_report(*command));
            return lines;
        },
    };
    lines.push(to_string("Commands:"));
    let ghost m = subcommands@;
    let ghost items = m.map_values(|e: (Seq<char>, CommandEntry)| (e.0, None::<Seq<char>>));
    let mut width: usize = 1;
    let mut i: usize = 0;
    assert(items.take(0).len() == 0);
    while i < subcommands.len()
        invariant
            m == subcommands@,
            items == m.map_values(|e: (Seq<char>, CommandEntry)| (e.0, None::<Seq<char>>)),
            i <= m.len(),
            width == crate::help::name_width(items.take(i as int)),
        decreases m.len() - i,
    {
        let name = subcommands.key_at(i).as_str();
        let l = name.len();
        assert(items.take(i + 1).drop_last() =~= items.take(i as int));
        assert(items.take(i + 1).last() == items[i as int]);
        assert(items[i as int].0 == name@);
        if l > width {
            width = l;
        }
        i = i + 1;
    }
    assert(items.take(items.len() as int) =~= items);
    let ghost want = m.map_values(
        |e: (Seq<char>, CommandEntry)| no_action_item(e.0, e.1.description_text(), keys_width(m)),
    );
    let ghost start = texts(lines@);
    let mut k: usize = 0;
    assert(start =~= start + want.take(0));
    while k < subcommands.len()
        invariant
            m == subcommands@,
            width == keys_width(m),
            want == m.map_values(
                |e: (Seq<char>, CommandEntry)| no_action_item(e.0, e.1.description_text(), keys_width(m)),
            ),
            k <= m.len(),
            texts(lines@) == start + want.take(k as int),
            "  "@ == seq![' ', ' '],
            ""@ == Seq::<char>::empty(),
        decreases m.len() - k,
    {
        let name = subcommands.key_at(k).as_str();
        let entry = subcommands.value_at(k);
        let description = match entry.description() {
            Some(d) => d,
            None => "",
        };
        let mut line = to_string("  ");
        if description.unicode_len() == 0 {
            line.append(name);
        } else {
            let p = crate::help::pad_to(name, width);
            line.append(p.as_str());
            line.append("  ");
            line.append(crate::completion::first_description_line(description));
        }
        assert(line@ == want[k as int]);
        let ghost before = texts(lines@);
        lines.push(line);
        assert(texts(lines@) =~= before.push(want[k as int]));
        assert(want.take(k + 1) =~= want.take(k as int).push(want[k as int]));
        k = k + 1;
    }
    assert(want.take(want.len() as int) =~= want);
    assert(texts(lines@) =~= no_action_report(*command));
    lines
}

/// The log line for a step: the label in a column of eight, then the
/// command; dimmed and coloured for a terminal.
pub open spec fn log_line(label: Seq<char>, command: Seq<char>, color: bool) -> Seq<char> {
    if color {
        "\u{1b}[2m[fire]\u{1b}[0m \u{1b}[36m"@ + crate::help::padded(label, 8) + "\u{1b}[0m \u{1b}[2m"@ + command
            + "\u{1b}[0m"@
    } else {
        "[fire] "@ + crate::help::padded(label, 8) + " "@ + command
    }
}

/// The log line for a step.
pub fn log_step(label: &str, command: &str, color: bool) -> (r: String)
    ensures
        r@ == log_line(label@, command@, color),
{
    let padded = crate::help::pad_to(label, 8);
    if color {
        let mut r = to_string("\u{1b}[2m[fire]\u{1b}[0m \u{1b}[36m");
        r.append(padded.as_str());
        r.append("\u{1b}[0m \u{1b}[2m");
        r.append(command);
        r.append("\u{1b}[0m");
        r
    } else {
        let mut r = to_string("[fire] ");
        r.append(padded.as_str());
        r.append(" ");
        r.append(command);
        r
    }
}

/// The log line for a shell command.
pub fn log_command(command: &str, color: bool) -> (r: String)
    ensures
        r@ == log_line("cmd"@, command@, color),
{
    log_step("cmd", command, color)
}

/// The log line for starting a runner.
pub fn log_runner_start(runner: &str, color: bool) -> (r: String)
    ensures
        r@ == log_line("runner"@, runner@, color),
{
    log_step("runner", runner, color)
}

/// The log line for a check command.
pub fn log_check(command: &str, color: bool) -> (r: String)
    ensures
        r@ == log_line("check"@, command@, color),
{
    log_step("check", command, color)
}

/// The log line for a `before` command.
pub fn log_before(command: &str, color: bool) -> (r: String)
    ensures
        r@ == log_line("before"@, command@, color),
{
    log_step("before", command, color)
}

/// The log line for a `compute` shell command.
pub fn log_compute(command: &str, color: bool) -> (r: String)
    ensures
        r@ == log_line("compute"@, command@, color),
{
    log_step("compute", command, color)
}

/// The log line for a runtime event.
pub fn log_runtime(message: &str, color: bool) -> (r: String)
    ensures
        r@ == log_line("runtime"@, message@, color),
{
    log_step("runtime", message, color)
}

/// The `paths` patterns of a runtime that are read: the non-blank ones,
/// trimmed.
pub open spec fn path_patterns(patterns: Seq<Seq<char>>) -> Seq<Seq<char>>
    decreases patterns.len(),
{
    if patterns.len() == 0 {
        Seq::empty()
    } else {
        let prev = path_patterns(patterns.drop_last());
        if trim(patterns.last()).len() == 0 {
            prev
        } else {
            prev.push(trim(patterns.last()))
        }
    }
}

/// The patterns of a runtime's `paths` that are read.
pub fn runtime_path_patterns(patterns: &[String]) -> (r: Vec<String>)
    ensures
        texts(r@) == path_patterns(texts(patterns@)),
{
    let ghost all = texts(patterns@);
    let mut out: Vec<String> = Vec::new();
    let mut i: usize = 0;
    assert(all.take(0).len() == 0);
    while i < patterns.len()
        invariant
            all == texts(patterns@),
            i <= all.len(),
            texts(out@) == path_patterns(all.take(i as int)),
        decreases all.len() - i,
    {
        assert(all.take(i + 1).drop_last() =~= all.take(i as int));
        assert(all.take(i + 1).last() == patterns@[i as int]@);
        let t = trim_str(patterns[i].as_str());
        if t.unicode_len() > 0 {
            let ghost before = texts(out@);
            out.push(to_string(t));
            assert(texts(out@) =~= before.push(t@));
        }
        i = i + 1;
    }
    assert(all.take(all.len() as int) =~= all);
    out
}

/// The library files of a runtime, from the files that its patterns found:
/// in the order of paths, each once.
pub fn resolve_runtime_library_paths(found: &[String]) -> (r: Vec<String>)
    ensures
        r@ == crate::strmap::entry_values(crate::paths::keyed_paths(found@)),
{
    crate::paths::sorted_paths(found)
}

} // verus!
