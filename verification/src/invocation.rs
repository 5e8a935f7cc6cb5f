//! What an invocation of the runner asks for: management commands, help,
//! or the execution of a resolved command.

use vstd::prelude::*;

use crate::config::{CommandEntry, LoadedConfig};
use crate::help::{print_scope_help, scope_help};
use crate::resolve::{
    candidate_consumed, chain_entries, is_best, is_position, lemma_best_unique, resolve_command, resolves_to, ResolvedCommand,
};
use crate::strmap::str_equal;
use crate::text::{texts, to_string};
use crate::words::extract_help_target;

verus! {

/// What to do for the arguments after the program name.
pub enum Plan<'a> {
    /// Run the management command (`fire cli ...`).
    Cli,
    /// Show the root help.
    RootHelp,
    /// Show the help of a command, reached by `path`.
    CommandHelp { path: &'a [String], command: &'a CommandEntry },
    /// Show the help lines of a scope.
    ScopeHelp(Vec<String>),
    /// Run the resolved command.
    Execute(ResolvedCommand<'a>),
    /// Report the unknown command `word`, show the root help, and fail.
    Unknown(String),
}

/// Whether no candidate names a command for `args`.
pub open spec fn unresolved(config: LoadedConfig, args: Seq<Seq<char>>) -> bool {
    forall|i: int, j: int|
        is_position(config.files@, i, j) ==> #[trigger] candidate_consumed(config.files@, args, i, j) is None
}

/// Whether `rc` is what resolution picks for `args`.
pub open spec fn picked(config: LoadedConfig, args: Seq<String>, rc: ResolvedCommand) -> bool {
    exists|i: int, j: int| is_best(config.files@, texts(args), i, j) && resolves_to(config.files@, args, i, j, rc)
}

/// What help for `target` shows: the command it resolves to, else the
/// scope it names, else the report of an unknown command.
pub open spec fn help_plan_ok(config: LoadedConfig, target: Seq<String>, plan: Plan) -> bool {
    match plan {
        Plan::RootHelp => target.len() == 0,
        Plan::CommandHelp { path, command } => target.len() > 0 && exists|rc: ResolvedCommand|
            picked(config, target, rc) && path@ == target.take(rc.consumed as int) && *command == *rc.command,
        Plan::ScopeHelp(lines) => target.len() > 0 && unresolved(config, texts(target)) && scope_help(
            config.files@,
            texts(target),
        ) == Some(texts(lines@)),
        Plan::Unknown(word) => target.len() > 0 && unresolved(config, texts(target)) && scope_help(
            config.files@,
            texts(target),
        ) is None && word@ == target[0]@,
        _ => false,
    }
}

/// Decides what the arguments after the program name ask for: `cli ...`
/// is a management command; no argument, or `:h` alone, shows the root
/// help; a trailing `:h` shows the help of what the rest names; a command
/// that the arguments resolve to runs when it does anything and shows its
/// help otherwise; else the scope that the arguments name shows its help;
/// else the command is unknown.
pub fn setup_cli<'a>(config: &'a LoadedConfig, command_args: &'a [String]) -> (r: Plan<'a>)
    ensures
        command_args@.len() > 0 && command_args@[0]@ == "cli"@ ==> r is Cli,
        command_args@.len() == 0 ==> r is RootHelp,
        !(command_args@.len() > 0 && command_args@[0]@ == "cli"@) && command_args@.len() > 0
            && command_args@.last()@ == seq![':', 'h'] ==> help_plan_ok(*config, command_args@.drop_last(), r),
        !(command_args@.len() > 0 && command_args@[0]@ == "cli"@) && command_args@.len() > 0
            && command_args@.last()@ != seq![':', 'h'] ==> match r {
            Plan::Execute(rc) => picked(*config, command_args@, rc) && rc.command.runnable(),
            Plan::CommandHelp { path, command } => exists|rc: ResolvedCommand|
                picked(*config, command_args@, rc) && !rc.command.runnable() && path@ == command_args@.take(
                    rc.consumed as int,
                ) && *command == *rc.command,
            Plan::ScopeHelp(lines) => unresolved(*config, texts(command_args@)) && scope_help(
                config.files@,
                texts(command_args@),
            ) == Some(texts(lines@)),
            Plan::Unknown(word) => unresolved(*config, texts(command_args@)) && scope_help(
                config.files@,
                texts(command_args@),
            ) is None && word@ == command_args@[0]@,
            _ => false,
        },
{
    if command_args.len() > 0 && str_equal(command_args[0].as_str(), "cli") {
        return Plan::Cli;
    }
    if command_args.len() == 0 {
        return Plan::RootHelp;
    }
    if let Some(help_target) = extract_help_target(command_args) {
        if help_target.len() == 0 {
            return Plan::RootHelp;
        }
        if let Some(resolved) = resolve_command(config, help_target) {
            assert(picked(*config, help_target@, resolved));
            let path = &help_target[0..resolved.consumed];
            assert(path@ =~= help_target@.take(resolved.consumed as int));
            let command = resolved.command;
            assert(exists|rc: ResolvedCommand|
                picked(*config, help_target@, rc) && path@ == help_target@.take(rc.consumed as int) && *command
                    == *rc.command);
            return Plan::CommandHelp { path, command };
        }
        let mut lines: Vec<String> = Vec::new();
        if print_scope_help(&mut lines, config, help_target) {
            return Plan::ScopeHelp(lines);
        }
        return Plan::Unknown(help_target[0].clone());
    }
    if let Some(resolved) = resolve_command(config, command_args) {
        assert(picked(*config, command_args@, resolved));
        if resolved.command.is_runnable() {
            return Plan::Execute(resolved);
        }
        let path = &command_args[0..resolved.consumed];
        assert(path@ =~= command_args@.take(resolved.consumed as int));
        let command = resolved.command;
        assert(exists|rc: ResolvedCommand|
            picked(*config, command_args@, rc) && !rc.command.runnable() && path@ == command_args@.take(
                rc.consumed as int,
            ) && *command == *rc.command);
        return Plan::CommandHelp { path, command };
    }
    let mut lines: Vec<String> = Vec::new();
    if print_scope_help(&mut lines, config, command_args) {
        return Plan::ScopeHelp(lines);
    }
    Plan::Unknown(command_args[0].clone())
}

/// Resolution picks one command: two picks for the same arguments take as
/// many arguments and name the same command. So the help that `:h` shows
/// for some words is that of the command that the same words run.
pub proof fn lemma_pick_is_unique(config: LoadedConfig, args: Seq<String>, rc1: ResolvedCommand, rc2: ResolvedCommand)
    requires
        picked(config, args, rc1),
        picked(config, args, rc2),
    ensures
        rc1.consumed == rc2.consumed,
        *rc1.command == *rc2.command,
        chain_entries(rc1.command_chain@) == chain_entries(rc2.command_chain@),
        rc1.remaining_args@ == rc2.remaining_args@,
{
    let (i1, j1) = choose|i: int, j: int| is_best(config.files@, texts(args), i, j) && resolves_to(config.files@, args, i, j, rc1);
    let (i2, j2) = choose|i: int, j: int| is_best(config.files@, texts(args), i, j) && resolves_to(config.files@, args, i, j, rc2);
    lemma_best_unique(config.files@, texts(args), i1, j1, i2, j2);
}

} // verus!
