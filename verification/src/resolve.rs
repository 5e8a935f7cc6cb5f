//! Resolving an invocation to the command it names.
//!
//! Every command of every file is a candidate when the file's scope and the
//! command's name match the leading arguments; from there the nested
//! commands are followed as far as the arguments name them. The candidate
//! that takes the most arguments wins; on a tie a local file takes over from
//! what came before it, so the last local definition wins, and a global one
//! only wins when it came first.

use vstd::prelude::*;

use crate::config::{
    implicit_namespace, local_implicit_namespace, CommandEntry, FileConfig, FileScope,
    LoadedConfig, RuntimeConfig, SourceKind,
};
use crate::paths::{path_key, path_key_of};
use crate::strmap::{entry_get, entry_insert, str_equal, StrMap};
use crate::text::{decimal_text, join, join_strings, number_text, texts, to_string};

verus! {

/// Whether the argument at `i` is `s`.
pub open spec fn arg_is(args: Seq<Seq<char>>, i: int, s: Seq<char>) -> bool {
    0 <= i < args.len() && args[i] == s
}

/// How many arguments the scope and the command name take when written out
/// in full.
pub open spec fn explicit_match(scope: FileScope, name: Seq<char>, args: Seq<Seq<char>>) -> Option<nat> {
    match scope {
        FileScope::Root => if arg_is(args, 0, name) { Some(1nat) } else { None },
        FileScope::Namespace { namespace, .. } => if arg_is(args, 0, namespace@) && arg_is(args, 1, name) {
            Some(2nat)
        } else {
            None
        },
        FileScope::Group { group, .. } => if arg_is(args, 0, group@) && arg_is(args, 1, name) {
            Some(2nat)
        } else {
            None
        },
        FileScope::NamespaceGroup { namespace, group, .. } => if arg_is(args, 0, namespace@) && arg_is(
            args,
            1,
            group@,
        ) && arg_is(args, 2, name) {
            Some(3nat)
        } else {
            None
        },
    }
}

/// How many arguments the scope and the command name take when the active
/// namespace is left out.
pub open spec fn implicit_match(scope: FileScope, name: Seq<char>, args: Seq<Seq<char>>, active: Seq<char>) -> Option<nat> {
    match scope {
        FileScope::Namespace { namespace, .. } => if namespace@ == active && arg_is(args, 0, name) {
            Some(1nat)
        } else {
            None
        },
        FileScope::NamespaceGroup { namespace, group, .. } => if namespace@ == active && arg_is(args, 0, group@)
            && arg_is(args, 1, name) {
            Some(2nat)
        } else {
            None
        },
        _ => None,
    }
}

/// How many arguments name the command `name` of a file with `scope`: the
/// full form first, then the form without the active namespace.
pub open spec fn scope_match(
    scope: FileScope,
    name: Seq<char>,
    args: Seq<Seq<char>>,
    implicit: Option<Seq<char>>,
) -> Option<nat> {
    match explicit_match(scope, name, args) {
        Some(n) => Some(n),
        None => match implicit {
            Some(active) => implicit_match(scope, name, args, active),
            None => None,
        },
    }
}

/// The text of an optional string.
pub open spec fn opt_text(o: Option<&str>) -> Option<Seq<char>> {
    match o {
        Some(s) => Some(s@),
        None => None,
    }
}

fn arg_equals(args: &[String], i: usize, s: &str) -> (r: bool)
    ensures
        r == arg_is(texts(args@), i as int, s@),
{
    i < args.len() && str_equal(args[i].as_str(), s)
}

/// The number of arguments that the scope of `file` and `command_name` take.
pub fn scope_match_consumed(
    file: &FileConfig,
    command_name: &str,
    args: &[String],
    implicit_namespace: Option<&str>,
) -> (r: Option<usize>)
    ensures
        r matches Some(n) ==> scope_match(file.scope, command_name@, texts(args@), opt_text(implicit_namespace))
            == Some(n as nat),
        r is None ==> scope_match(file.scope, command_name@, texts(args@), opt_text(implicit_namespace)) is None,
{
    let explicit: Option<usize> = match &file.scope {
        FileScope::Root => if arg_equals(args, 0, command_name) {
            Some(1)
        } else {
            None
        },
        FileScope::Namespace { namespace, .. } => {
            if arg_equals(args, 0, namespace.as_str()) && arg_equals(args, 1, command_name) {
                Some(2)
            } else {
                None
            }
        },
        FileScope::Group { group, .. } => {
            if arg_equals(args, 0, group.as_str()) && arg_equals(args, 1, command_name) {
                Some(2)
            } else {
                None
            }
        },
        FileScope::NamespaceGroup { namespace, group, .. } => {
            if arg_equals(args, 0, namespace.as_str()) && arg_equals(args, 1, group.as_str())
                && arg_equals(args, 2, command_name) {
                Some(3)
            } else {
                None
            }
        },
    };
    if explicit.is_some() {
        return explicit;
    }
    if let Some(active) = implicit_namespace {
        match &file.scope {
            FileScope::Namespace { namespace, .. } => {
                if str_equal(namespace.as_str(), active) && arg_equals(args, 0, command_name) {
                    return Some(1);
                }
            },
            FileScope::NamespaceGroup { namespace, group, .. } => {
                if str_equal(namespace.as_str(), active) && arg_equals(args, 0, group.as_str())
                    && arg_equals(args, 1, command_name) {
                    return Some(2);
                }
            },
            _ => {},
        }
    }
    None
}

/// The words that a scope puts before the names of its commands when
/// written out in full: its namespace, then its group.
pub open spec fn scope_words(scope: FileScope) -> Seq<Seq<char>> {
    match scope {
        FileScope::Root => Seq::empty(),
        FileScope::Namespace { namespace, .. } => seq![namespace@],
        FileScope::Group { group, .. } => seq![group@],
        FileScope::NamespaceGroup { namespace, group, .. } => seq![namespace@, group@],
    }
}

/// The namespace of a scope, where it has one.
pub open spec fn scope_namespace(scope: FileScope) -> Option<Seq<char>> {
    match scope {
        FileScope::Namespace { namespace, .. } => Some(namespace@),
        FileScope::NamespaceGroup { namespace, .. } => Some(namespace@),
        _ => None,
    }
}

/// An invocation that writes out the words of the scope and then the name
/// of a command takes exactly those arguments: one per scope word and one
/// for the name, whatever follows them.
pub proof fn lemma_explicit_invocation_takes_scope_and_name(
    scope: FileScope,
    name: Seq<char>,
    args: Seq<Seq<char>>,
    implicit: Option<Seq<char>>,
)
    requires
        args.len() > scope_words(scope).len(),
        args.take(scope_words(scope).len() as int) == scope_words(scope),
        args[scope_words(scope).len() as int] == name,
    ensures
        scope_match(scope, name, args, implicit) == Some((scope_words(scope).len() + 1) as nat),
{
    let w = scope_words(scope);
    assert forall|k: int| 0 <= k < w.len() implies args[k] == w[k] by {
        assert(args.take(w.len() as int)[k] == args[k]);
    }
}

/// The arguments that a scope match takes are the words of the scope and
/// then the command's name: all of the scope's words, or all but the
/// namespace when that namespace is the active one.
pub proof fn lemma_scope_match_takes_scope_and_name(
    scope: FileScope,
    name: Seq<char>,
    args: Seq<Seq<char>>,
    implicit: Option<Seq<char>>,
)
    ensures
        scope_match(scope, name, args, implicit) matches Some(n) ==> {
            &&& 1 <= n <= args.len()
            &&& args[n - 1] == name
            &&& (args.take(n - 1) == scope_words(scope) || (implicit is Some && scope_namespace(scope) == implicit
                && args.take(n - 1) == scope_words(scope).drop_first()))
        },
{
    match scope_match(scope, name, args, implicit) {
        Some(n) => {
            if args.take(n - 1) =~= scope_words(scope) {
            } else {
                assert(args.take(n - 1) =~= scope_words(scope).drop_first());
            }
        },
        None => {},
    }
}

/// The commands passed through from `entry` on, taking the arguments from
/// position `k` as the names of nested commands for as long as they name one.
pub open spec fn descend(entry: CommandEntry, args: Seq<Seq<char>>, k: int) -> Seq<CommandEntry>
    decreases args.len() - k,
{
    if 0 <= k < args.len() {
        match entry.subcommands_of() {
            Some(m) => match entry_get(m@, args[k]) {
                Some(next) => seq![entry] + descend(next, args, k + 1),
                None => seq![entry],
            },
            None => seq![entry],
        }
    } else {
        seq![entry]
    }
}

/// A descent starts at its entry and takes no argument past the end.
pub proof fn lemma_descend(entry: CommandEntry, args: Seq<Seq<char>>, k: int)
    requires
        0 <= k <= args.len(),
    ensures
        descend(entry, args, k).len() >= 1,
        descend(entry, args, k)[0] == entry,
        k + descend(entry, args, k).len() - 1 <= args.len(),
    decreases args.len() - k,
{
    if 0 <= k < args.len() {
        match entry.subcommands_of() {
            Some(m) => match entry_get(m@, args[k]) {
                Some(next) => {
                    lemma_descend(next, args, k + 1);
                },
                None => {},
            },
            None => {},
        }
    }
}

/// The commands that a descent passes through are named by the arguments
/// in turn: each is the nested command of the one before it that the next
/// argument names; it stops only at the end of the arguments or at an
/// argument that names no nested command of the last one.
pub proof fn lemma_descend_follows_names(entry: CommandEntry, args: Seq<Seq<char>>, k: int)
    requires
        0 <= k <= args.len(),
    ensures
        descend(entry, args, k)[0] == entry,
        forall|t: int|
            1 <= t < descend(entry, args, k).len() ==> ((#[trigger] descend(entry, args, k)[t - 1]).subcommands_of()
                matches Some(m) && entry_get(m@, args[k + t - 1]) == Some(descend(entry, args, k)[t])),
        k + descend(entry, args, k).len() - 1 < args.len() ==> match descend(entry, args, k).last().subcommands_of() {
            Some(m) => entry_get(m@, args[k + descend(entry, args, k).len() - 1]) is None,
            None => true,
        },
    decreases args.len() - k,
{
    lemma_descend(entry, args, k);
    let d = descend(entry, args, k);
    if 0 <= k < args.len() {
        match entry.subcommands_of() {
            Some(m) => match entry_get(m@, args[k]) {
                Some(next) => {
                    lemma_descend_follows_names(next, args, k + 1);
                    let r = descend(next, args, k + 1);
                    assert(d =~= seq![entry] + r);
                    assert forall|t: int| 1 <= t < d.len() implies ((#[trigger] d[t - 1]).subcommands_of() matches Some(
                        m2,
                    ) && entry_get(m2@, args[k + t - 1]) == Some(d[t])) by {
                        if t >= 2 {
                            assert(d[t - 1] == r[t - 2]);
                            assert(d[t] == r[t - 1]);
                        } else {
                            assert(d[0] == entry);
                            assert(d[1] == r[0]);
                        }
                    }
                    assert(d.last() == r.last());
                },
                None => {},
            },
            None => {},
        }
    }
}

/// The candidate for the command at position `j` of file `i`: the number
/// of arguments its scope and name take, and the commands passed through.
pub open spec fn candidate(files: Seq<FileConfig>, args: Seq<Seq<char>>, i: int, j: int) -> Option<(nat, Seq<CommandEntry>)> {
    let file = files[i];
    let entry = file.commands@[j];
    match scope_match(file.scope, entry.0, args, implicit_namespace(files)) {
        Some(base) => Some((base, descend(entry.1, args, base as int))),
        None => None,
    }
}

/// The number of arguments that a candidate takes in all.
pub open spec fn candidate_consumed(files: Seq<FileConfig>, args: Seq<Seq<char>>, i: int, j: int) -> Option<nat> {
    match candidate(files, args, i, j) {
        Some(c) => Some((c.0 + c.1.len() - 1) as nat),
        None => None,
    }
}

/// Whether `j` is a command position of file `i`.
pub open spec fn is_position(files: Seq<FileConfig>, i: int, j: int) -> bool {
    0 <= i < files.len() && 0 <= j < files[i].commands@.len()
}

/// Whether position `(i, j)` is visited before `(i2, j2)`: files in order,
/// and the commands of a file in the order of their names.
pub open spec fn precedes(i: int, j: int, i2: int, j2: int) -> bool {
    i < i2 || (i == i2 && j < j2)
}

/// Whether the candidate at `(i0, j0)` is the one that resolution picks: no
/// candidate takes more arguments; among those that take as many, no local
/// one comes after it, and when it is global, none comes before it.
pub open spec fn is_best(files: Seq<FileConfig>, args: Seq<Seq<char>>, i0: int, j0: int) -> bool {
    &&& is_position(files, i0, j0)
    &&& candidate_consumed(files, args, i0, j0) is Some
    &&& forall|i: int, j: int|
        is_position(files, i, j) && #[trigger] candidate_consumed(files, args, i, j) is Some ==> {
            let c = candidate_consumed(files, args, i, j).unwrap();
            let c0 = candidate_consumed(files, args, i0, j0).unwrap();
            &&& c <= c0
            &&& (c == c0 && files[i].source == SourceKind::Local ==> !precedes(i0, j0, i, j))
            &&& (c == c0 && files[i0].source != SourceKind::Local ==> !precedes(i, j, i0, j0))
        }
}

/// A command that an invocation names.
pub struct ResolvedCommand<'a> {
    pub project_dir: &'a str,
    pub runtimes: &'a StrMap<RuntimeConfig>,
    pub command: &'a CommandEntry,
    pub command_chain: Vec<&'a CommandEntry>,
    pub consumed: usize,
    pub remaining_args: &'a [String],
}

/// The entries of a chain of references.
pub open spec fn chain_entries(chain: Seq<&CommandEntry>) -> Seq<CommandEntry> {
    chain.map_values(|e: &CommandEntry| *e)
}

/// Whether `r` is the candidate at `(i, j)`.
pub open spec fn resolves_to(files: Seq<FileConfig>, args: Seq<String>, i: int, j: int, r: ResolvedCommand) -> bool {
    match candidate(files, texts(args), i, j) {
        Some(c) => {
            &&& r.consumed == c.0 + c.1.len() - 1
            &&& r.consumed <= args.len()
            &&& chain_entries(r.command_chain@) == c.1
            &&& *r.command == c.1.last()
            &&& r.remaining_args@ == args.subrange(r.consumed as int, args.len() as int)
            &&& r.project_dir@ == files[i].project_dir@
            &&& *r.runtimes == files[i].runtimes
        },
        None => false,
    }
}

/// Whether the candidate `candidate` from a file of kind `source` replaces
/// `current`: it takes more arguments, or as many and the file is local.
pub fn better_than(source: SourceKind, candidate: &ResolvedCommand, current: Option<&ResolvedCommand>) -> (r: bool)
    ensures
        r == match current {
            None => true,
            Some(existing) => candidate.consumed > existing.consumed || (candidate.consumed
                == existing.consumed && source == SourceKind::Local),
        },
{
    match current {
        None => true,
        Some(existing) => {
            if candidate.consumed != existing.consumed {
                candidate.consumed > existing.consumed
            } else {
                source == SourceKind::Local
            }
        },
    }
}

/// Follows the nested commands of `entry` along the arguments from `start`.
fn descend_chain<'a>(entry: &'a CommandEntry, args: &[String], start: usize) -> (r: (
    Vec<&'a CommandEntry>,
    usize,
))
    requires
        start <= args@.len(),
    ensures
        chain_entries(r.0@) == descend(*entry, texts(args@), start as int),
        r.1 == start + r.0@.len() - 1,
        r.1 <= args@.len(),
{
    let ghost a = texts(args@);
    let mut chain: Vec<&'a CommandEntry> = Vec::new();
    chain.push(entry);
    let mut current: &'a CommandEntry = entry;
    let mut consumed = start;
    let mut more = true;
    proof {
        lemma_descend(*entry, a, start as int);
        assert(chain_entries(chain@) =~= seq![*entry]);
    }
    while more && consumed < args.len()
        invariant
            a == texts(args@),
            start <= consumed <= args@.len(),
            chain@.len() == consumed - start + 1,
            *chain@.last() == *current,
            descend(*entry, a, start as int) == chain_entries(chain@).drop_last() + descend(
                *current,
                a,
                consumed as int,
            ),
            !more ==> descend(*current, a, consumed as int) == seq![*current],
        decreases args@.len() - consumed + (if more { 1int } else { 0int }),
    {
        let next: Option<&'a CommandEntry> = match current.subcommands() {
            None => None,
            Some(subs) => subs.get(args[consumed].as_str()),
        };
        match next {
            Some(n) => {
                let ghost before = chain_entries(chain@);
                let ghost cur = *current;
                assert(descend(cur, a, consumed as int) == seq![cur] + descend(*n, a, consumed + 1));
                current = n;
                chain.push(n);
                consumed = consumed + 1;
                assert(chain_entries(chain@) =~= before.push(*n));
                assert(chain_entries(chain@).drop_last() =~= before.drop_last() + seq![cur]);
                assert(before.drop_last() + seq![cur] + descend(*n, a, consumed as int) =~= before.drop_last()
                    + (seq![cur] + descend(*n, a, consumed as int)));
            },
            None => {
                more = false;
            },
        }
    }
    proof {
        assert(descend(*current, a, consumed as int) == seq![*current]);
        let ce = chain_entries(chain@);
        assert(ce.drop_last() + seq![*current] =~= ce);
    }
    (chain, consumed)
}

/// Resolves `args` to the command that they name, if any: see `is_best`.
pub fn resolve_command<'a>(config: &'a LoadedConfig, args: &'a [String]) -> (r: Option<ResolvedCommand<'a>>)
    ensures
        r is None ==> forall|i: int, j: int|
            is_position(config.files@, i, j) ==> #[trigger] candidate_consumed(config.files@, texts(args@), i, j)
                is None,
        r matches Some(rc) ==> exists|i: int, j: int|
            is_best(config.files@, texts(args@), i, j) && resolves_to(config.files@, args@, i, j, rc),
{
    let ghost files = config.files@;
    let ghost a = texts(args@);
    let implicit = local_implicit_namespace(config);
    let implicit_ref: Option<&str> = match &implicit {
        Some(s) => Some(s.as_str()),
        None => None,
    };
    assert(opt_text(implicit_ref) == implicit_namespace(files));
    let mut best: Option<ResolvedCommand<'a>> = None;
    let ghost mut bi: int = 0;
    let ghost mut bj: int = 0;
    let mut i: usize = 0;
    while i < config.files.len()
        invariant
            files == config.files@,
            a == texts(args@),
            opt_text(implicit_ref) == implicit_namespace(files),
            i <= files.len(),
            best is None ==> forall|x: int, y: int|
                is_position(files, x, y) && x < i ==> #[trigger] candidate_consumed(files, a, x, y) is None,
            best matches Some(b) ==> {
                &&& is_position(files, bi, bj)
                &&& bi < i
                &&& candidate_consumed(files, a, bi, bj) == Some(b.consumed as nat)
                &&& resolves_to(files, args@, bi, bj, b)
                &&& forall|x: int, y: int|
                    is_position(files, x, y) && x < i && #[trigger] candidate_consumed(files, a, x, y) is Some
                        ==> {
                        let c = candidate_consumed(files, a, x, y).unwrap();
                        &&& c <= b.consumed
                        &&& (c == b.consumed && files[x].source == SourceKind::Local ==> !precedes(bi, bj, x, y))
                        &&& (c == b.consumed && files[bi].source != SourceKind::Local ==> !precedes(x, y, bi, bj))
                    }
            },
        decreases files.len() - i,
    {
        let file: &'a FileConfig = &config.files[i];
        let mut j: usize = 0;
        while j < file.commands.len()
            invariant
                files == config.files@,
                a == texts(args@),
                opt_text(implicit_ref) == implicit_namespace(files),
                i < files.len(),
                *file == files[i as int],
                j <= file.commands@.len(),
                best is None ==> forall|x: int, y: int|
                    is_position(files, x, y) && precedes(x, y, i as int, j as int) ==> #[trigger] candidate_consumed(
                        files,
                        a,
                        x,
                        y,
                    ) is None,
                best matches Some(b) ==> {
                    &&& is_position(files, bi, bj)
                    &&& precedes(bi, bj, i as int, j as int)
                    &&& candidate_consumed(files, a, bi, bj) == Some(b.consumed as nat)
                    &&& resolves_to(files, args@, bi, bj, b)
                    &&& forall|x: int, y: int|
                        is_position(files, x, y) && precedes(x, y, i as int, j as int)
                            && #[trigger] candidate_consumed(files, a, x, y) is Some ==> {
                            let c = candidate_consumed(files, a, x, y).unwrap();
                            &&& c <= b.consumed
                            &&& (c == b.consumed && files[x].source == SourceKind::Local ==> !precedes(bi, bj, x, y))
                            &&& (c == b.consumed && files[bi].source != SourceKind::Local ==> !precedes(x, y, bi, bj))
                        }
                },
            decreases file.commands@.len() - j,
        {
            let name = file.commands.key_at(j);
            let entry: &'a CommandEntry = file.commands.value_at(j);
            let base = scope_match_consumed(file, name.as_str(), args, implicit_ref);
            match base {
                None => {
                    assert(candidate_consumed(files, a, i as int, j as int) is None);
                },
                Some(base) => {
                    proof {
                        lemma_descend(*entry, a, base as int);
                    }
                    let (chain, consumed) = descend_chain(entry, args, base);
                    assert(candidate(files, a, i as int, j as int) == Some((base as nat, chain_entries(chain@))));
                    let last: &'a CommandEntry = chain[chain.len() - 1];
                    let candidate_command = ResolvedCommand {
                        project_dir: file.project_dir.as_str(),
                        runtimes: &file.runtimes,
                        command: last,
                        command_chain: chain,
                        consumed,
                        remaining_args: &args[consumed..args.len()],
                    };
                    assert(candidate_command.remaining_args@ =~= args@.subrange(consumed as int, args@.len() as int));
                    if better_than(file.source, &candidate_command, best.as_ref()) {
                        best = Some(candidate_command);
                        proof {
                            bi = i as int;
                            bj = j as int;
                        }
                    }
                },
            }
            j = j + 1;
        }
        i = i + 1;
    }
    proof {
        if best is Some {
            assert(is_best(files, a, bi, bj));
        }
    }
    best
}

/// Whether the candidate at `(i, j)` takes exactly `consumed` arguments and
/// ends at a command that runs.
pub open spec fn terminal_at(files: Seq<FileConfig>, args: Seq<Seq<char>>, consumed: nat, i: int, j: int) -> bool {
    match candidate(files, args, i, j) {
        Some(c) => c.0 + c.1.len() - 1 == consumed && c.1.last().runnable(),
        None => false,
    }
}

/// Whether file `i` has a command that ends there.
pub open spec fn file_has_terminal(files: Seq<FileConfig>, args: Seq<Seq<char>>, consumed: nat, i: int) -> bool {
    exists|j: int| 0 <= j < files[i].commands@.len() && #[trigger] terminal_at(files, args, consumed, i, j)
}

/// `m` with `v` stored under `k`, unless `k` is there already.
pub open spec fn insert_absent(m: Seq<(Seq<char>, String)>, k: Seq<char>, v: String) -> Seq<(Seq<char>, String)> {
    if entry_get(m, k) is Some {
        m
    } else {
        entry_insert(m, k, v)
    }
}

/// The configuration paths of the first `n` files that end there, each
/// path once, in the order of paths: for each path key, the first file's
/// path.
pub open spec fn colliding_files(files: Seq<FileConfig>, args: Seq<Seq<char>>, consumed: nat, n: int) -> Seq<
    (Seq<char>, String),
>
    decreases n,
{
    if n <= 0 {
        Seq::empty()
    } else {
        let prev = colliding_files(files, args, consumed, n - 1);
        if file_has_terminal(files, args, consumed, n - 1) {
            insert_absent(prev, path_key(files[n - 1].config_path@), files[n - 1].config_path)
        } else {
            prev
        }
    }
}

/// One line for each path, numbered from 1.
pub open spec fn collision_lines(paths: Seq<(Seq<char>, String)>) -> Seq<char>
    decreases paths.len(),
{
    if paths.len() == 0 {
        Seq::empty()
    } else {
        collision_lines(paths.drop_last()) + "\nfile_"@ + decimal_text(paths.len()) + ": "@ + paths.last().1@
    }
}

/// The report of a command path that ends in more than one file.
pub open spec fn collision_message(invocation: Seq<char>, paths: Seq<(Seq<char>, String)>) -> Seq<char> {
    "Duplicate terminal command:\ninvocation: "@ + invocation + collision_lines(paths)
}

/// A runnable command that ends after `consumed` arguments must be defined
/// in one file only: otherwise the error lists the files.
pub fn detect_terminal_command_collision(config: &LoadedConfig, args: &[String], consumed: usize) -> (r: Result<(), String>)
    ensures
        r is Ok <==> colliding_files(config.files@, texts(args@), consumed as nat, config.files@.len() as int).len() <= 1,
        r matches Err(msg) ==> consumed <= args@.len() && msg@ == collision_message(
            join(texts(args@).take(consumed as int), seq![' ']),
            colliding_files(config.files@, texts(args@), consumed as nat, config.files@.len() as int),
        ),
{
    let ghost files = config.files@;
    let ghost a = texts(args@);
    let implicit = local_implicit_namespace(config);
    let implicit_ref: Option<&str> = match &implicit {
        Some(s) => Some(s.as_str()),
        None => None,
    };
    let mut paths: StrMap<String> = StrMap::new();
    let mut i: usize = 0;
    while i < config.files.len()
        invariant
            files == config.files@,
            a == texts(args@),
            opt_text(implicit_ref) == implicit_namespace(files),
            i <= files.len(),
            paths@ == colliding_files(files, a, consumed as nat, i as int),
            paths@.len() > 0 ==> consumed <= args@.len(),
        decreases files.len() - i,
    {
        let file = &config.files[i];
        let mut hit = false;
        let mut j: usize = 0;
        while !hit && j < file.commands.len()
            invariant
                files == config.files@,
                a == texts(args@),
                opt_text(implicit_ref) == implicit_namespace(files),
                i < files.len(),
                *file == files[i as int],
                j <= file.commands@.len(),
                hit ==> file_has_terminal(files, a, consumed as nat, i as int) && consumed <= args@.len(),
                !hit ==> forall|y: int| 0 <= y < j ==> !#[trigger] terminal_at(files, a, consumed as nat, i as int, y),
            decreases file.commands@.len() - j + (if hit { 0int } else { 1int }),
        {
            let name = file.commands.key_at(j);
            let entry = file.commands.value_at(j);
            match scope_match_consumed(file, name.as_str(), args, implicit_ref) {
                None => {
                    assert(!terminal_at(files, a, consumed as nat, i as int, j as int));
                },
                Some(base) => {
                    proof {
                        lemma_descend(*entry, a, base as int);
                    }
                    let (chain, end) = descend_chain(entry, args, base);
                    assert(candidate(files, a, i as int, j as int) == Some((base as nat, chain_entries(chain@))));
                    let last = chain[chain.len() - 1];
                    assert(*last == chain_entries(chain@).last());
                    if end == consumed && last.is_runnable() {
                        assert(terminal_at(files, a, consumed as nat, i as int, j as int));
                        hit = true;
                    }
                },
            }
            if !hit {
                j = j + 1;
            }
        }
        let ghost prev = paths@;
        if hit {
            let key = path_key_of(file.config_path.as_str());
            if !paths.contains_key(key.as_str()) {
                paths.insert(key, file.config_path.clone());
            }
        } else {
            assert(!file_has_terminal(files, a, consumed as nat, i as int));
        }
        assert(paths@ == colliding_files(files, a, consumed as nat, i + 1));
        i = i + 1;
    }
    if paths.len() <= 1 {
        return Ok(());
    }
    let invocation = join_strings(&args[0..consumed], " ");
    let mut message = to_string("Duplicate terminal command:\ninvocation: ");
    message.append(invocation.as_str());
    let ghost pv = paths@;
    proof {
        reveal_strlit("Duplicate terminal command:\ninvocation: ");
        reveal_strlit("\nfile_");
        reveal_strlit(": ");
        reveal_strlit(" ");
        assert(" "@ =~= seq![' ']);
        assert(texts(args@.subrange(0, consumed as int)) =~= a.take(consumed as int));
    }
    let ghost head = message@;
    assert(pv.subrange(0, 0).len() == 0);
    let mut k: usize = 0;
    while k < paths.len()
        invariant
            pv == paths@,
            k <= pv.len(),
            message@ == head + collision_lines(pv.subrange(0, k as int)),
        decreases pv.len() - k,
    {
        message.append("\nfile_");
        let number = number_text(k + 1);
        message.append(number.as_str());
        message.append(": ");
        message.append(paths.value_at(k).as_str());
        assert(pv.subrange(0, k + 1).drop_last() =~= pv.subrange(0, k as int));
        k = k + 1;
    }
    assert(pv.subrange(0, pv.len() as int) =~= pv);
    Err(message)
}

/// Resolution is deterministic: at most one candidate is the one picked.
pub proof fn lemma_best_unique(files: Seq<FileConfig>, args: Seq<Seq<char>>, i0: int, j0: int, i1: int, j1: int)
    requires
        is_best(files, args, i0, j0),
        is_best(files, args, i1, j1),
    ensures
        i0 == i1 && j0 == j1,
{
    assert(candidate_consumed(files, args, i0, j0) is Some);
    assert(candidate_consumed(files, args, i1, j1) is Some);
}

/// Resolution is greedy: no candidate takes more arguments than the one
/// picked, which goes as deep into the nested commands as the arguments name.
pub proof fn lemma_deepest_path_wins(files: Seq<FileConfig>, args: Seq<Seq<char>>, i0: int, j0: int, i: int, j: int)
    requires
        is_best(files, args, i0, j0),
        is_position(files, i, j),
        candidate_consumed(files, args, i, j) is Some,
    ensures
        candidate_consumed(files, args, i, j).unwrap() <= candidate_consumed(files, args, i0, j0).unwrap(),
{
}

/// When the same command path is defined in two local files, the one
/// loaded last wins.
pub proof fn lemma_last_local_definition_wins(
    files: Seq<FileConfig>,
    args: Seq<Seq<char>>,
    i0: int,
    j0: int,
    i: int,
    j: int,
)
    requires
        is_best(files, args, i0, j0),
        is_position(files, i, j),
        files[i].source == SourceKind::Local,
        candidate_consumed(files, args, i, j) == candidate_consumed(files, args, i0, j0),
    ensures
        !precedes(i0, j0, i, j),
{
}

/// A local definition wins over a global one that takes as many arguments.
pub proof fn lemma_local_definition_wins(files: Seq<FileConfig>, args: Seq<Seq<char>>, i0: int, j0: int, i: int, j: int)
    requires
        is_best(files, args, i0, j0),
        is_position(files, i, j),
        files[i].source == SourceKind::Local,
        candidate_consumed(files, args, i, j) == candidate_consumed(files, args, i0, j0),
    ensures
        files[i0].source == SourceKind::Local,
{
    assert(candidate_consumed(files, args, i, j) is Some);
    if files[i0].source != SourceKind::Local {
        assert(!precedes(i0, j0, i, j));
        assert(!precedes(i, j, i0, j0));
        assert(i == i0 && j == j0);
    }
}

} // verus!
