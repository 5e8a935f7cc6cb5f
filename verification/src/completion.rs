//! Shell completion: the suggestions offered for the words typed so far.

use vstd::prelude::*;

use crate::config::{CommandEntry, FileConfig, FileScope, LoadedConfig, SourceKind};
use crate::strmap::{
    entry_get, entry_insert, entry_values, lemma_entry_insert_elements, lemma_map_entries_get, lemma_map_entries_insert,
    map_entries, str_equal, StrMap,
};
use crate::text::{
    first_line, first_line_str, non_empty_text, push_char, starts_with, starts_with_str, texts,
    to_string, trim, trim_str,
};

verus! {

/// A completion candidate, with its description when it has one.
#[derive(Debug)]
pub struct CompletionSuggestion {
    pub value: String,
    pub description: Option<String>,
}

/// A suggestion as text: its value and its description.
pub open spec fn sugg_view(s: CompletionSuggestion) -> (Seq<char>, Option<Seq<char>>) {
    (s.value@, match s.description {
        Some(d) => Some(d@),
        None => None,
    })
}

/// `sugg_view` as a function value.
pub open spec fn sugg_fn() -> spec_fn(CompletionSuggestion) -> (Seq<char>, Option<Seq<char>>) {
    |s: CompletionSuggestion| sugg_view(s)
}

/// Suggestions as text.
pub open spec fn suggs(v: Seq<CompletionSuggestion>) -> Seq<(Seq<char>, Option<Seq<char>>)> {
    v.map_values(|s: CompletionSuggestion| sugg_view(s))
}

/// Which files a listing reads.
pub enum Selection {
    /// The files of one source.
    Source(SourceKind),
    /// The global files without namespace and group.
    GlobalRoot,
    /// The files of a namespace without group.
    Namespace(Seq<char>),
    /// The files of a group without namespace.
    Group(Seq<char>),
    /// The files of a group of a namespace.
    NamespaceGroup(Seq<char>, Seq<char>),
    /// The local files without namespace and group, and the files of the
    /// active namespace without group.
    LocalRoot(Option<Seq<char>>),
    /// The files of a group without namespace, and those of the group in
    /// the active namespace.
    GroupInScope(Seq<char>, Option<Seq<char>>),
    /// All files.
    Any,
}

/// A selection, with its names borrowed.
pub(crate) enum FileSelector<'a> {
    /// The files of one source.
    Source(SourceKind),
    /// The global files without namespace and group.
    GlobalRoot,
    /// The files of a namespace without group.
    Namespace(&'a str),
    /// The files of a group without namespace.
    Group(&'a str),
    /// The files of a group of a namespace.
    NamespaceGroup(&'a str, &'a str),
    LocalRoot(Option<&'a str>),
    GroupInScope(&'a str, Option<&'a str>),
    /// All files.
    Any,
}

pub(crate) open spec fn selection_of(sel: FileSelector) -> Selection {
    match sel {
        FileSelector::Source(s) => Selection::Source(s),
        FileSelector::GlobalRoot => Selection::GlobalRoot,
        FileSelector::Namespace(ns) => Selection::Namespace(ns@),
        FileSelector::Group(g) => Selection::Group(g@),
        FileSelector::NamespaceGroup(ns, g) => Selection::NamespaceGroup(ns@, g@),
        FileSelector::LocalRoot(a) => Selection::LocalRoot(match a {
            Some(x) => Some(x@),
            None => None,
        }),
        FileSelector::GroupInScope(g, a) => Selection::GroupInScope(g@, match a {
            Some(x) => Some(x@),
            None => None,
        }),
        FileSelector::Any => Selection::Any,
    }
}

/// Whether `sel` selects `file`.
pub open spec fn selects(sel: Selection, file: FileConfig) -> bool {
    match sel {
        Selection::Source(s) => file.source == s,
        Selection::GlobalRoot => file.source == SourceKind::Global && file.scope is Root,
        Selection::Namespace(ns) => match file.scope {
            FileScope::Namespace { namespace, .. } => namespace@ == ns,
            _ => false,
        },
        Selection::Group(g) => match file.scope {
            FileScope::Group { group, .. } => group@ == g,
            _ => false,
        },
        Selection::NamespaceGroup(ns, g) => match file.scope {
            FileScope::NamespaceGroup { namespace, group, .. } => namespace@ == ns && group@ == g,
            _ => false,
        },
        Selection::LocalRoot(active) => match file.scope {
            FileScope::Root => file.source == SourceKind::Local,
            FileScope::Namespace { namespace, .. } => active == Some(namespace@),
            _ => false,
        },
        Selection::GroupInScope(g, active) => match file.scope {
            FileScope::Group { group, .. } => group@ == g,
            FileScope::NamespaceGroup { namespace, group, .. } => active == Some(namespace@) && group@ == g,
            _ => false,
        },
        Selection::Any => true,
    }
}

fn file_selected(sel: &FileSelector, file: &FileConfig) -> (r: bool)
    ensures
        r == selects(selection_of(*sel), *file),
{
    match sel {
        FileSelector::Source(s) => file.source == *s,
        FileSelector::GlobalRoot => file.source == SourceKind::Global && matches!(file.scope, FileScope::Root),
        FileSelector::Namespace(ns) => match &file.scope {
            FileScope::Namespace { namespace, .. } => str_equal(namespace.as_str(), ns),
            _ => false,
        },
        FileSelector::Group(g) => match &file.scope {
            FileScope::Group { group, .. } => str_equal(group.as_str(), g),
            _ => false,
        },
        FileSelector::NamespaceGroup(ns, g) => match &file.scope {
            FileScope::NamespaceGroup { namespace, group, .. } => str_equal(namespace.as_str(), ns) && str_equal(
                group.as_str(),
                g,
            ),
            _ => false,
        },
        FileSelector::LocalRoot(active) => match &file.scope {
            FileScope::Root => file.source == SourceKind::Local,
            FileScope::Namespace { namespace, .. } => match active {
                Some(a) => str_equal(namespace.as_str(), a),
                None => false,
            },
            _ => false,
        },
        FileSelector::GroupInScope(g, active) => match &file.scope {
            FileScope::Group { group, .. } => str_equal(group.as_str(), g),
            FileScope::NamespaceGroup { namespace, group, .. } => match active {
                Some(a) => str_equal(namespace.as_str(), a) && str_equal(group.as_str(), g),
                None => false,
            },
            _ => false,
        },
        FileSelector::Any => true,
    }
}

/// The suggestion for the command `name`: its name, with the trimmed
/// description when that is not empty.
pub open spec fn cmd_sugg(name: Seq<char>, entry: CommandEntry) -> (Seq<char>, Option<Seq<char>>) {
    (name, non_empty_text(entry.description_text()))
}

/// The trimmed `value`, unless it is empty.
pub fn non_empty(value: &str) -> (r: Option<String>)
    ensures
        r matches Some(s) ==> non_empty_text(value@) == Some(s@),
        r is None ==> non_empty_text(value@) is None,
{
    let trimmed = trim_str(value);
    if trimmed.unicode_len() == 0 {
        None
    } else {
        Some(to_string(trimmed))
    }
}

/// The suggestion for the command `name`.
pub fn command_suggestion(name: &str, entry: &CommandEntry) -> (r: CompletionSuggestion)
    ensures
        sugg_view(r) == cmd_sugg(name@, *entry),
{
    let description = match entry.description() {
        Some(d) => non_empty(d),
        None => non_empty(""),
    };
    proof {
        reveal_strlit("");
    }
    CompletionSuggestion { value: to_string(name), description }
}

fn copy_suggestion(s: &CompletionSuggestion) -> (r: CompletionSuggestion)
    ensures
        sugg_view(r) == sugg_view(*s),
{
    CompletionSuggestion {
        value: s.value.clone(),
        description: match &s.description {
            Some(d) => Some(d.clone()),
            None => None,
        },
    }
}

/// The map of suggestions after adding each command of `cmds` whose name
/// starts with `prefix`.
pub open spec fn commands_into(
    m: Seq<(Seq<char>, (Seq<char>, Option<Seq<char>>))>,
    cmds: Seq<(Seq<char>, CommandEntry)>,
    prefix: Seq<char>,
) -> Seq<(Seq<char>, (Seq<char>, Option<Seq<char>>))>
    decreases cmds.len(),
{
    if cmds.len() == 0 {
        m
    } else {
        let prev = commands_into(m, cmds.drop_last(), prefix);
        let e = cmds.last();
        if starts_with(e.0, prefix) {
            entry_insert(prev, e.0, cmd_sugg(e.0, e.1))
        } else {
            prev
        }
    }
}

/// The suggestions for the commands of the first `n` files that `sel`
/// selects, by name; a later file's command takes the place of an earlier
/// one's.
pub open spec fn commands_of_files(files: Seq<FileConfig>, n: int, sel: Selection, prefix: Seq<char>) -> Seq<
    (Seq<char>, (Seq<char>, Option<Seq<char>>)),
>
    decreases n,
{
    if n <= 0 {
        Seq::empty()
    } else {
        let prev = commands_of_files(files, n - 1, sel, prefix);
        if selects(sel, files[n - 1]) {
            commands_into(prev, files[n - 1].commands@, prefix)
        } else {
            prev
        }
    }
}

pub(crate) fn collect_commands(config: &LoadedConfig, sel: &FileSelector, prefix: &str) -> (r: StrMap<CompletionSuggestion>)
    ensures
        map_entries(r@, sugg_fn()) == commands_of_files(config.files@, config.files@.len() as int, selection_of(*sel), prefix@),
{
    let ghost files = config.files@;
    let mut map: StrMap<CompletionSuggestion> = StrMap::new();
    assert(map_entries(map@, sugg_fn()) =~= commands_of_files(files, 0, selection_of(*sel), prefix@));
    let mut i: usize = 0;
    while i < config.files.len()
        invariant
            files == config.files@,
            i <= files.len(),
            map_entries(map@, sugg_fn()) == commands_of_files(files, i as int, selection_of(*sel), prefix@),
        decreases files.len() - i,
    {
        let file = &config.files[i];
        if file_selected(sel, file) {
            let ghost start = map_entries(map@, sugg_fn());
            let ghost cmds = file.commands@;
            assert(cmds.subrange(0, 0) =~= Seq::<(Seq<char>, CommandEntry)>::empty());
            let mut j: usize = 0;
            while j < file.commands.len()
                invariant
                    cmds == file.commands@,
                    j <= cmds.len(),
                    map_entries(map@, sugg_fn()) == commands_into(start, cmds.subrange(0, j as int), prefix@),
                decreases cmds.len() - j,
            {
                let name = file.commands.key_at(j);
                assert(cmds.subrange(0, j + 1).drop_last() =~= cmds.subrange(0, j as int));
                if starts_with_str(name.as_str(), prefix) {
                    let s = command_suggestion(name.as_str(), file.commands.value_at(j));
                    proof {
                        lemma_map_entries_insert(map@, name@, s, sugg_fn());
                    }
                    map.insert(name.clone(), s);
                }
                j = j + 1;
            }
            assert(cmds.subrange(0, cmds.len() as int) =~= cmds);
        }
        i = i + 1;
    }
    map
}

/// The map of suggestions after adding each namespace of the first `n`
/// files of kind `source` that starts with `prefix`, with its description.
pub open spec fn namespaces_of_files(files: Seq<FileConfig>, n: int, source: SourceKind, prefix: Seq<char>) -> Seq<
    (Seq<char>, (Seq<char>, Option<Seq<char>>)),
>
    decreases n,
{
    if n <= 0 {
        Seq::empty()
    } else {
        let prev = namespaces_of_files(files, n - 1, source, prefix);
        let file = files[n - 1];
        if file.source == source {
            match file.scope {
                FileScope::Namespace { namespace, namespace_description } => if starts_with(namespace@, prefix) {
                    entry_insert(prev, namespace@, (namespace@, non_empty_text(namespace_description@)))
                } else {
                    prev
                },
                FileScope::NamespaceGroup { namespace, namespace_description, .. } => if starts_with(
                    namespace@,
                    prefix,
                ) {
                    entry_insert(prev, namespace@, (namespace@, non_empty_text(namespace_description@)))
                } else {
                    prev
                },
                _ => prev,
            }
        } else {
            prev
        }
    }
}

fn collect_namespaces(config: &LoadedConfig, source: SourceKind, prefix: &str) -> (r: Vec<CompletionSuggestion>)
    ensures
        suggs(r@) == entry_values(namespaces_of_files(config.files@, config.files@.len() as int, source, prefix@)),
{
    let ghost files = config.files@;
    let mut map: StrMap<CompletionSuggestion> = StrMap::new();
    assert(map_entries(map@, sugg_fn()) =~= namespaces_of_files(files, 0, source, prefix@));
    let mut i: usize = 0;
    while i < config.files.len()
        invariant
            files == config.files@,
            i <= files.len(),
            map_entries(map@, sugg_fn()) == namespaces_of_files(files, i as int, source, prefix@),
        decreases files.len() - i,
    {
        let file = &config.files[i];
        if file.source == source {
            let found: Option<(&String, &String)> = match &file.scope {
                FileScope::Namespace { namespace, namespace_description } => Some((namespace, namespace_description)),
                FileScope::NamespaceGroup { namespace, namespace_description, .. } => Some(
                    (namespace, namespace_description),
                ),
                _ => None,
            };
            if let Some((namespace, description)) = found {
                if starts_with_str(namespace.as_str(), prefix) {
                    let s = CompletionSuggestion {
                        value: namespace.clone(),
                        description: non_empty(description.as_str()),
                    };
                    proof {
                        lemma_map_entries_insert(map@, namespace@, s, sugg_fn());
                    }
                    map.insert(namespace.clone(), s);
                }
            }
        }
        i = i + 1;
    }
    let ghost m = map@;
    let r = map.into_values();
    assert(suggs(r@) =~= entry_values(map_entries(m, sugg_fn())));
    r
}

/// The group that file `file` adds under `sel`: that of a group file of the
/// selected kind, or that of a namespace group file of the selected
/// namespace.
pub open spec fn group_of(sel: Selection, file: FileConfig) -> Option<Seq<char>> {
    match sel {
        Selection::Source(s) => match file.scope {
            FileScope::Group { group, .. } => if file.source == s {
                Some(group@)
            } else {
                None
            },
            _ => None,
        },
        Selection::Namespace(ns) => match file.scope {
            FileScope::NamespaceGroup { namespace, group, .. } => if namespace@ == ns {
                Some(group@)
            } else {
                None
            },
            _ => None,
        },
        _ => None,
    }
}

/// The groups of the first `n` files under `sel` that start with `prefix`,
/// each once, as suggestions without description.
pub open spec fn groups_of_files(files: Seq<FileConfig>, n: int, sel: Selection, prefix: Seq<char>) -> Seq<
    (Seq<char>, (Seq<char>, Option<Seq<char>>)),
>
    decreases n,
{
    if n <= 0 {
        Seq::empty()
    } else {
        let prev = groups_of_files(files, n - 1, sel, prefix);
        match group_of(sel, files[n - 1]) {
            Some(g) => if starts_with(g, prefix) {
                entry_insert(prev, g, (g, None))
            } else {
                prev
            },
            None => prev,
        }
    }
}

fn file_group<'a>(sel: &FileSelector, file: &'a FileConfig) -> (r: Option<&'a String>)
    ensures
        r matches Some(g) ==> group_of(selection_of(*sel), *file) == Some(g@),
        r is None ==> group_of(selection_of(*sel), *file) is None,
{
    match sel {
        FileSelector::Source(s) => match &file.scope {
            FileScope::Group { group, .. } => if file.source == *s {
                Some(group)
            } else {
                None
            },
            _ => None,
        },
        FileSelector::Namespace(ns) => match &file.scope {
            FileScope::NamespaceGroup { namespace, group, .. } => if str_equal(namespace.as_str(), ns) {
                Some(group)
            } else {
                None
            },
            _ => None,
        },
        _ => None,
    }
}

fn collect_groups(config: &LoadedConfig, sel: &FileSelector, prefix: &str) -> (r: Vec<CompletionSuggestion>)
    ensures
        suggs(r@) == entry_values(groups_of_files(config.files@, config.files@.len() as int, selection_of(*sel), prefix@)),
{
    let ghost files = config.files@;
    let mut map: StrMap<CompletionSuggestion> = StrMap::new();
    assert(map_entries(map@, sugg_fn()) =~= groups_of_files(files, 0, selection_of(*sel), prefix@));
    let mut i: usize = 0;
    while i < config.files.len()
        invariant
            files == config.files@,
            i <= files.len(),
            map_entries(map@, sugg_fn()) == groups_of_files(files, i as int, selection_of(*sel), prefix@),
        decreases files.len() - i,
    {
        let file = &config.files[i];
        if let Some(group) = file_group(sel, file) {
            if starts_with_str(group.as_str(), prefix) {
                let s = CompletionSuggestion { value: group.clone(), description: None };
                proof {
                    lemma_map_entries_insert(map@, group@, s, sugg_fn());
                }
                map.insert(group.clone(), s);
            }
        }
        i = i + 1;
    }
    let ghost m = map@;
    let r = map.into_values();
    assert(suggs(r@) =~= entry_values(map_entries(m, sugg_fn())));
    r
}

pub(crate) fn command_values(config: &LoadedConfig, sel: &FileSelector, prefix: &str) -> (r: Vec<CompletionSuggestion>)
    ensures
        suggs(r@) == entry_values(commands_of_files(config.files@, config.files@.len() as int, selection_of(*sel), prefix@)),
{
    let map = collect_commands(config, sel, prefix);
    let ghost m = map@;
    let r = map.into_values();
    assert(suggs(r@) =~= entry_values(map_entries(m, sugg_fn())));
    r
}

/// The commands of the local files that start with `prefix`, by name.
pub fn local_commands(config: &LoadedConfig, prefix: &str) -> (r: Vec<CompletionSuggestion>)
    ensures
        suggs(r@) == entry_values(
            commands_of_files(config.files@, config.files@.len() as int, Selection::Source(SourceKind::Local), prefix@),
        ),
{
    command_values(config, &FileSelector::Source(SourceKind::Local), prefix)
}

/// The namespaces of the global files that start with `prefix`.
pub fn global_namespaces(config: &LoadedConfig, prefix: &str) -> (r: Vec<CompletionSuggestion>)
    ensures
        suggs(r@) == entry_values(
            namespaces_of_files(config.files@, config.files@.len() as int, SourceKind::Global, prefix@),
        ),
{
    collect_namespaces(config, SourceKind::Global, prefix)
}

/// The groups without namespace of the global files that start with `prefix`.
pub fn global_groups(config: &LoadedConfig, prefix: &str) -> (r: Vec<CompletionSuggestion>)
    ensures
        suggs(r@) == entry_values(
            groups_of_files(config.files@, config.files@.len() as int, Selection::Source(SourceKind::Global), prefix@),
        ),
{
    collect_groups(config, &FileSelector::Source(SourceKind::Global), prefix)
}

/// The commands of the global files without namespace and group.
pub fn global_direct_commands(config: &LoadedConfig, prefix: &str) -> (r: Vec<CompletionSuggestion>)
    ensures
        suggs(r@) == entry_values(
            commands_of_files(config.files@, config.files@.len() as int, Selection::GlobalRoot, prefix@),
        ),
{
    command_values(config, &FileSelector::GlobalRoot, prefix)
}

/// The namespaces of the local files that start with `prefix`.
pub fn local_namespaces(config: &LoadedConfig, prefix: &str) -> (r: Vec<CompletionSuggestion>)
    ensures
        suggs(r@) == entry_values(
            namespaces_of_files(config.files@, config.files@.len() as int, SourceKind::Local, prefix@),
        ),
{
    collect_namespaces(config, SourceKind::Local, prefix)
}

/// The groups without namespace of the local files that start with `prefix`.
pub fn local_groups(config: &LoadedConfig, prefix: &str) -> (r: Vec<CompletionSuggestion>)
    ensures
        suggs(r@) == entry_values(
            groups_of_files(config.files@, config.files@.len() as int, Selection::Source(SourceKind::Local), prefix@),
        ),
{
    collect_groups(config, &FileSelector::Source(SourceKind::Local), prefix)
}

/// The commands of the files of `namespace` without group.
pub fn namespace_commands(config: &LoadedConfig, namespace: &str, prefix: &str) -> (r: Vec<CompletionSuggestion>)
    ensures
        suggs(r@) == entry_values(
            commands_of_files(config.files@, config.files@.len() as int, Selection::Namespace(namespace@), prefix@),
        ),
{
    command_values(config, &FileSelector::Namespace(namespace), prefix)
}

/// The groups of `namespace`.
pub fn namespace_groups(config: &LoadedConfig, namespace: &str, prefix: &str) -> (r: Vec<CompletionSuggestion>)
    ensures
        suggs(r@) == entry_values(
            groups_of_files(config.files@, config.files@.len() as int, Selection::Namespace(namespace@), prefix@),
        ),
{
    collect_groups(config, &FileSelector::Namespace(namespace), prefix)
}

/// The commands of the files of `group` without namespace.
pub fn group_children(config: &LoadedConfig, group: &str, prefix: &str) -> (r: Vec<CompletionSuggestion>)
    ensures
        suggs(r@) == entry_values(
            commands_of_files(config.files@, config.files@.len() as int, Selection::Group(group@), prefix@),
        ),
{
    command_values(config, &FileSelector::Group(group), prefix)
}

/// Whether some suggestion of `s` has the value `v`.
pub open spec fn has_value(s: Seq<(Seq<char>, Option<Seq<char>>)>, v: Seq<char>) -> bool {
    exists|i: int| 0 <= i < s.len() && (#[trigger] s[i]).0 == v
}

/// `s` without the suggestions whose value came before.
pub open spec fn dedup_values(s: Seq<(Seq<char>, Option<Seq<char>>)>) -> Seq<(Seq<char>, Option<Seq<char>>)>
    decreases s.len(),
{
    if s.len() == 0 {
        Seq::empty()
    } else {
        let d = dedup_values(s.drop_last());
        if has_value(d, s.last().0) {
            d
        } else {
            d.push(s.last())
        }
    }
}

/// The groups, one after the other.
pub open spec fn concat_all(gs: Seq<Seq<(Seq<char>, Option<Seq<char>>)>>) -> Seq<(Seq<char>, Option<Seq<char>>)>
    decreases gs.len(),
{
    if gs.len() == 0 {
        Seq::empty()
    } else {
        concat_all(gs.drop_last()) + gs.last()
    }
}

/// The suggestions of the groups in order, each value once: the first
/// suggestion with a value stays.
pub fn concat_suggestions(groups: Vec<Vec<CompletionSuggestion>>) -> (r: Vec<CompletionSuggestion>)
    ensures
        suggs(r@) == dedup_values(concat_all(groups@.map_values(|g: Vec<CompletionSuggestion>| suggs(g@)))),
{
    let ghost gs = groups@.map_values(|g: Vec<CompletionSuggestion>| suggs(g@));
    let mut out: Vec<CompletionSuggestion> = Vec::new();
    let mut seen: StrMap<()> = StrMap::new();
    let mut gi: usize = 0;
    assert(gs.take(0) =~= Seq::<Seq<(Seq<char>, Option<Seq<char>>)>>::empty());
    assert(suggs(out@) =~= dedup_values(concat_all(gs.take(0))));
    while gi < groups.len()
        invariant
            gs == groups@.map_values(|g: Vec<CompletionSuggestion>| suggs(g@)),
            gi <= groups@.len(),
            suggs(out@) == dedup_values(concat_all(gs.take(gi as int))),
            forall|v: Seq<char>| #[trigger] entry_get(seen@, v) is Some <==> has_value(suggs(out@), v),
        decreases groups@.len() - gi,
    {
        let group = &groups[gi];
        let ghost g = suggs(group@);
        let ghost base = concat_all(gs.take(gi as int));
        assert(gs[gi as int] == g);
        let mut k: usize = 0;
        assert(base + g.take(0) =~= base);
        while k < group.len()
            invariant
                gs == groups@.map_values(|g: Vec<CompletionSuggestion>| suggs(g@)),
                gi < groups@.len(),
                *group == groups@[gi as int],
                g == suggs(group@),
                k <= group@.len(),
                suggs(out@) == dedup_values(base + g.take(k as int)),
                forall|v: Seq<char>| #[trigger] entry_get(seen@, v) is Some <==> has_value(suggs(out@), v),
            decreases group@.len() - k,
        {
            let s = &group[k];
            let ghost flat = base + g.take(k as int);
            assert((base + g.take(k + 1)).drop_last() =~= flat);
            assert((base + g.take(k + 1)).last() == sugg_view(*s));
            if !seen.contains_key(s.value.as_str()) {
                let ghost before = suggs(out@);
                let ghost seen_before = seen@;
                out.push(copy_suggestion(s));
                seen.insert(s.value.clone(), ());
                assert(suggs(out@) =~= before.push(sugg_view(*s)));
                assert forall|v: Seq<char>| #[trigger] entry_get(seen@, v) is Some <==> has_value(suggs(out@), v) by {
                    crate::strmap::lemma_entry_get_insert(seen_before, s.value@, (), v);
                    if v == s.value@ {
                        assert(suggs(out@)[before.len() as int].0 == v);
                    } else if has_value(suggs(out@), v) {
                        let x = choose|x: int| 0 <= x < suggs(out@).len() && (#[trigger] suggs(out@)[x]).0 == v;
                        assert(before[x] == suggs(out@)[x]);
                    } else if has_value(before, v) {
                        let x = choose|x: int| 0 <= x < before.len() && (#[trigger] before[x]).0 == v;
                        assert(suggs(out@)[x] == before[x]);
                    }
                }
            }
            k = k + 1;
        }
        assert(g.take(g.len() as int) =~= g);
        assert(gs.take(gi + 1).drop_last() =~= gs.take(gi as int));
        gi = gi + 1;
    }
    assert(gs.take(gs.len() as int) =~= gs);
    out
}

/// The commands of `entry` whose names start with `prefix`, in the order
/// of their names.
pub open spec fn matching_suggestions(cmds: Seq<(Seq<char>, CommandEntry)>, prefix: Seq<char>) -> Seq<
    (Seq<char>, Option<Seq<char>>),
>
    decreases cmds.len(),
{
    if cmds.len() == 0 {
        Seq::empty()
    } else {
        let prev = matching_suggestions(cmds.drop_last(), prefix);
        if starts_with(cmds.last().0, prefix) {
            prev.push(cmd_sugg(cmds.last().0, cmds.last().1))
        } else {
            prev
        }
    }
}

/// The nested commands of `entry` whose names start with `prefix`.
pub open spec fn subcommand_suggestions(entry: CommandEntry, prefix: Seq<char>) -> Seq<(Seq<char>, Option<Seq<char>>)> {
    match entry.subcommands_of() {
        Some(m) => matching_suggestions(m@, prefix),
        None => Seq::empty(),
    }
}

/// The nested commands of `command` whose names start with `prefix`.
pub fn nested_subcommands(command: &CommandEntry, prefix: &str) -> (r: Vec<CompletionSuggestion>)
    ensures
        suggs(r@) == subcommand_suggestions(*command, prefix@),
{
    let subcommands = match command.subcommands() {
        Some(s) => s,
        None => {
            return Vec::new();
        },
    };
    let ghost cmds = subcommands@;
    let mut out: Vec<CompletionSuggestion> = Vec::new();
    let mut j: usize = 0;
    assert(cmds.subrange(0, 0) =~= Seq::<(Seq<char>, CommandEntry)>::empty());
    assert(suggs(out@) =~= matching_suggestions(cmds.subrange(0, 0), prefix@));
    while j < subcommands.len()
        invariant
            cmds == subcommands@,
            j <= cmds.len(),
            suggs(out@) == matching_suggestions(cmds.subrange(0, j as int), prefix@),
        decreases cmds.len() - j,
    {
        let name = subcommands.key_at(j);
        assert(cmds.subrange(0, j + 1).drop_last() =~= cmds.subrange(0, j as int));
        if starts_with_str(name.as_str(), prefix) {
            let ghost before = suggs(out@);
            out.push(command_suggestion(name.as_str(), subcommands.value_at(j)));
            assert(suggs(out@) =~= before.push(cmd_sugg(cmds[j as int].0, cmds[j as int].1)));
        }
        j = j + 1;
    }
    assert(cmds.subrange(0, cmds.len() as int) =~= cmds);
    out
}

/// The command reached from `entry` by following `path` through nested
/// commands, if every step names one.
pub open spec fn walk(entry: CommandEntry, path: Seq<Seq<char>>) -> Option<CommandEntry>
    decreases path.len(),
{
    if path.len() == 0 {
        Some(entry)
    } else {
        match entry.subcommands_of() {
            Some(m) => match entry_get(m@, path[0]) {
                Some(next) => walk(next, path.drop_first()),
                None => None,
            },
            None => None,
        }
    }
}

/// The nested commands below the end of `path`.
pub open spec fn path_suggestions(entry: CommandEntry, path: Seq<Seq<char>>) -> Seq<(Seq<char>, Option<Seq<char>>)> {
    match walk(entry, path) {
        Some(e) => subcommand_suggestions(e, Seq::empty()),
        None => Seq::empty(),
    }
}

/// The nested commands below `command` followed along `path`.
pub fn nested_command_path(command: &CommandEntry, path: &[String]) -> (r: Vec<CompletionSuggestion>)
    ensures
        suggs(r@) == path_suggestions(*command, texts(path@)),
{
    proof {
        reveal_strlit("");
        assert(""@ =~= Seq::<char>::empty());
    }
    let ghost p = texts(path@);
    let mut current = command;
    let mut k: usize = 0;
    assert(p.subrange(0, p.len() as int) =~= p);
    while k < path.len()
        invariant
            p == texts(path@),
            k <= p.len(),
            walk(*command, p) == walk(*current, p.subrange(k as int, p.len() as int)),
        decreases p.len() - k,
    {
        let ghost rest = p.subrange(k as int, p.len() as int);
        assert(rest.drop_first() =~= p.subrange(k + 1, p.len() as int));
        let subcommands = match current.subcommands() {
            Some(s) => s,
            None => {
                return Vec::new();
            },
        };
        match subcommands.get(path[k].as_str()) {
            Some(next) => {
                current = next;
            },
            None => {
                return Vec::new();
            },
        }
        k = k + 1;
    }
    assert(p.subrange(k as int, p.len() as int) =~= Seq::<Seq<char>>::empty());
    nested_subcommands(current, "")
}

/// The definition of `name` in the last of the first `n` files that `sel`
/// selects and that define it.
pub open spec fn last_defining(files: Seq<FileConfig>, n: int, sel: Selection, name: Seq<char>) -> Option<CommandEntry>
    decreases n,
{
    if n <= 0 {
        None
    } else if selects(sel, files[n - 1]) && entry_get(files[n - 1].commands@, name) is Some {
        entry_get(files[n - 1].commands@, name)
    } else {
        last_defining(files, n - 1, sel, name)
    }
}

fn find_last_command<'a>(config: &'a LoadedConfig, sel: &FileSelector, name: &str) -> (r: Option<&'a CommandEntry>)
    ensures
        r matches Some(c) ==> last_defining(config.files@, config.files@.len() as int, selection_of(*sel), name@) == Some(*c),
        r is None ==> last_defining(config.files@, config.files@.len() as int, selection_of(*sel), name@) is None,
{
    let ghost files = config.files@;
    let mut i = config.files.len();
    while i > 0
        invariant
            files == config.files@,
            i <= files.len(),
            last_defining(files, files.len() as int, selection_of(*sel), name@) == last_defining(files, i as int, selection_of(*sel), name@),
        decreases i,
    {
        let file: &'a FileConfig = &config.files[i - 1];
        if file_selected(sel, file) {
            if let Some(command) = file.commands.get(name) {
                return Some(command);
            }
        }
        i = i - 1;
    }
    None
}

/// The nested commands of the last definition of the root command `name`.
pub open spec fn root_children(files: Seq<FileConfig>, name: Seq<char>) -> Seq<(Seq<char>, Option<Seq<char>>)> {
    match last_defining(files, files.len() as int, Selection::Any, name) {
        Some(c) => subcommand_suggestions(c, Seq::empty()),
        None => Seq::empty(),
    }
}

/// The nested commands of the last file that defines `command_name`.
pub fn root_command_children(config: &LoadedConfig, command_name: &str) -> (r: Vec<CompletionSuggestion>)
    ensures
        suggs(r@) == root_children(config.files@, command_name@),
{
    proof {
        reveal_strlit("");
        assert(""@ =~= Seq::<char>::empty());
    }
    match find_last_command(config, &FileSelector::Any, command_name) {
        Some(command) => nested_subcommands(command, ""),
        None => Vec::new(),
    }
}

/// The commands and the groups of `namespace` that start with `prefix`.
pub open spec fn namespace_children_of(files: Seq<FileConfig>, namespace: Seq<char>, prefix: Seq<char>) -> Seq<
    (Seq<char>, Option<Seq<char>>),
> {
    dedup_values(
        entry_values(commands_of_files(files, files.len() as int, Selection::Namespace(namespace), prefix))
            + entry_values(groups_of_files(files, files.len() as int, Selection::Namespace(namespace), prefix)),
    )
}

/// The commands and the groups of `namespace`.
pub fn namespace_children(config: &LoadedConfig, namespace: &str, prefix: &str) -> (r: Vec<CompletionSuggestion>)
    ensures
        suggs(r@) == namespace_children_of(config.files@, namespace@, prefix@),
{
    let commands = namespace_commands(config, namespace, prefix);
    let groups = namespace_groups(config, namespace, prefix);
    let ghost a = suggs(commands@);
    let ghost b = suggs(groups@);
    let mut all: Vec<Vec<CompletionSuggestion>> = Vec::new();
    all.push(commands);
    all.push(groups);
    let ghost gs = all@.map_values(|g: Vec<CompletionSuggestion>| suggs(g@));
    assert(gs =~= seq![a, b]);
    assert(gs.drop_last() =~= seq![a]);
    assert(seq![a].drop_last() =~= Seq::<Seq<(Seq<char>, Option<Seq<char>>)>>::empty());
    assert(concat_all(seq![a].drop_last()) =~= Seq::<(Seq<char>, Option<Seq<char>>)>::empty());
    assert(concat_all(seq![a]) =~= a);
    assert(concat_all(gs) =~= a + b);
    concat_suggestions(all)
}

/// The suggestions of `s` whose values start with `prefix`.
pub open spec fn with_prefix(s: Seq<(Seq<char>, Option<Seq<char>>)>, prefix: Seq<char>) -> Seq<
    (Seq<char>, Option<Seq<char>>),
>
    decreases s.len(),
{
    if s.len() == 0 {
        Seq::empty()
    } else {
        let prev = with_prefix(s.drop_last(), prefix);
        if starts_with(s.last().0, prefix) {
            prev.push(s.last())
        } else {
            prev
        }
    }
}

/// The suggestions whose values start with `prefix`.
pub fn filter_prefix(prefix: &str, suggestions: Vec<CompletionSuggestion>) -> (r: Vec<CompletionSuggestion>)
    ensures
        suggs(r@) == with_prefix(suggs(suggestions@), prefix@),
{
    let ghost all = suggs(suggestions@);
    let mut suggestions = suggestions;
    let mut out: Vec<CompletionSuggestion> = Vec::new();
    let ghost n = suggestions@.len();
    assert(suggs(out@) =~= with_prefix(all.take(0), prefix@));
    while suggestions.len() > 0
        invariant
            n == all.len(),
            suggestions@.len() <= n,
            suggs(suggestions@) == all.subrange(n - suggestions@.len(), n as int),
            suggs(out@) == with_prefix(all.take(n - suggestions@.len()), prefix@),
        decreases suggestions@.len(),
    {
        let ghost k = n - suggestions@.len();
        let ghost before = suggestions@;
        let s = suggestions.remove(0);
        assert(suggestions@ =~= before.drop_first());
        assert(suggs(before)[0] == sugg_view(s));
        assert(all[k] == sugg_view(s));
        assert(suggs(suggestions@) =~= suggs(before).drop_first());
        assert(suggs(before).drop_first() =~= all.subrange(k + 1, n as int));
        assert(all.take(k + 1).drop_last() =~= all.take(k));
        if starts_with_str(s.value.as_str(), prefix) {
            let ghost o = suggs(out@);
            out.push(s);
            assert(suggs(out@) =~= o.push(sugg_view(s)));
        }
    }
    assert(all.take(n as int) =~= all);
    out
}

/// The nested commands below the last definition of the root command
/// `path[0]`, followed along the rest of `path`.
pub open spec fn nested_root_of(files: Seq<FileConfig>, path: Seq<Seq<char>>) -> Option<Seq<(Seq<char>, Option<Seq<char>>)>> {
    match last_defining(files, files.len() as int, Selection::Any, path[0]) {
        Some(c) => Some(path_suggestions(c, path.drop_first())),
        None => None,
    }
}

/// The completion below a path that starts with a root command.
pub fn nested_from_root_command(config: &LoadedConfig, path: &[String]) -> (r: Option<Vec<CompletionSuggestion>>)
    requires
        path@.len() >= 1,
    ensures
        r matches Some(v) ==> nested_root_of(config.files@, texts(path@)) == Some(suggs(v@)),
        r is None ==> nested_root_of(config.files@, texts(path@)) is None,
{
    let command = match find_last_command(config, &FileSelector::Any, path[0].as_str()) {
        Some(c) => c,
        None => {
            return None;
        },
    };
    let rest = &path[1..path.len()];
    assert(texts(rest@) =~= texts(path@).drop_first());
    Some(nested_command_path(command, rest))
}

/// The completion below a path that starts with a namespace and a command
/// of it.
pub open spec fn nested_scope_of(files: Seq<FileConfig>, sel: Selection, path: Seq<Seq<char>>, skip: int) -> Option<
    Seq<(Seq<char>, Option<Seq<char>>)>,
> {
    match last_defining(files, files.len() as int, sel, path[skip - 1]) {
        Some(c) => Some(path_suggestions(c, path.subrange(skip, path.len() as int))),
        None => None,
    }
}

/// The completion below a path that starts with a namespace and one of its
/// commands.
pub fn nested_from_namespace_scope(config: &LoadedConfig, path: &[String]) -> (r: Option<Vec<CompletionSuggestion>>)
    ensures
        path@.len() < 2 ==> r is None,
        path@.len() >= 2 ==> match r {
            Some(v) => nested_scope_of(config.files@, Selection::Namespace(path@[0]@), texts(path@), 2) == Some(
                suggs(v@),
            ),
            None => nested_scope_of(config.files@, Selection::Namespace(path@[0]@), texts(path@), 2) is None,
        },
{
    if path.len() < 2 {
        return None;
    }
    let command = match find_last_command(config, &FileSelector::Namespace(path[0].as_str()), path[1].as_str()) {
        Some(c) => c,
        None => {
            return None;
        },
    };
    let rest = &path[2..path.len()];
    assert(texts(rest@) =~= texts(path@).subrange(2, path@.len() as int));
    Some(nested_command_path(command, rest))
}

/// The completion below a path that starts with a group and one of its
/// commands.
pub fn nested_from_group_scope(config: &LoadedConfig, path: &[String]) -> (r: Option<Vec<CompletionSuggestion>>)
    ensures
        path@.len() < 2 ==> r is None,
        path@.len() >= 2 ==> match r {
            Some(v) => nested_scope_of(config.files@, Selection::Group(path@[0]@), texts(path@), 2) == Some(
                suggs(v@),
            ),
            None => nested_scope_of(config.files@, Selection::Group(path@[0]@), texts(path@), 2) is None,
        },
{
    if path.len() < 2 {
        return None;
    }
    let command = match find_last_command(config, &FileSelector::Group(path[0].as_str()), path[1].as_str()) {
        Some(c) => c,
        None => {
            return None;
        },
    };
    let rest = &path[2..path.len()];
    assert(texts(rest@) =~= texts(path@).subrange(2, path@.len() as int));
    Some(nested_command_path(command, rest))
}

/// The completion below a namespace and one of its groups: the group's
/// commands for the two words alone, else the nested commands below the
/// command that follows.
pub open spec fn nested_prefix_of(files: Seq<FileConfig>, path: Seq<Seq<char>>) -> Option<Seq<(Seq<char>, Option<Seq<char>>)>> {
    let sel = Selection::NamespaceGroup(path[0], path[1]);
    if path.len() == 2 {
        let m = commands_of_files(files, files.len() as int, sel, Seq::empty());
        if m.len() == 0 {
            None
        } else {
            Some(entry_values(m))
        }
    } else {
        nested_scope_of(files, sel, path, 3)
    }
}

/// The completion below a path that starts with a namespace and one of its
/// groups.
pub fn nested_from_namespace_prefix_scope(config: &LoadedConfig, path: &[String]) -> (r: Option<Vec<CompletionSuggestion>>)
    ensures
        path@.len() < 2 ==> r is None,
        path@.len() >= 2 ==> match r {
            Some(v) => nested_prefix_of(config.files@, texts(path@)) == Some(suggs(v@)),
            None => nested_prefix_of(config.files@, texts(path@)) is None,
        },
{
    if path.len() < 2 {
        return None;
    }
    proof {
        reveal_strlit("");
        assert(""@ =~= Seq::<char>::empty());
    }
    let sel = FileSelector::NamespaceGroup(path[0].as_str(), path[1].as_str());
    if path.len() == 2 {
        let map = collect_commands(config, &sel, "");
        if map.is_empty() {
            return None;
        }
        let ghost m = map@;
        let values = map.into_values();
        assert(suggs(values@) =~= entry_values(map_entries(m, sugg_fn())));
        return Some(values);
    }
    let command = match find_last_command(config, &sel, path[2].as_str()) {
        Some(c) => c,
        None => {
            return None;
        },
    };
    let rest = &path[3..path.len()];
    assert(texts(rest@) =~= texts(path@).subrange(3, path@.len() as int));
    Some(nested_command_path(command, rest))
}

/// The suggestions at the root for words that start with `prefix`, in this
/// order, each value once: local commands, local namespaces, local groups,
/// global namespaces, global groups, global direct commands.
pub open spec fn root_of(files: Seq<FileConfig>, prefix: Seq<char>) -> Seq<(Seq<char>, Option<Seq<char>>)> {
    let n = files.len() as int;
    dedup_values(
        entry_values(commands_of_files(files, n, Selection::Source(SourceKind::Local), prefix))
            + entry_values(namespaces_of_files(files, n, SourceKind::Local, prefix))
            + entry_values(groups_of_files(files, n, Selection::Source(SourceKind::Local), prefix))
            + entry_values(namespaces_of_files(files, n, SourceKind::Global, prefix))
            + entry_values(groups_of_files(files, n, Selection::Source(SourceKind::Global), prefix))
            + entry_values(commands_of_files(files, n, Selection::GlobalRoot, prefix)),
    )
}

/// The suggestions at the root.
pub fn root_suggestions(config: &LoadedConfig, prefix: &str) -> (r: Vec<CompletionSuggestion>)
    ensures
        suggs(r@) == root_of(config.files@, prefix@),
{
    let local_commands = local_commands(config, prefix);
    let local_namespaces = local_namespaces(config, prefix);
    let local_groups = local_groups(config, prefix);
    let namespaces = global_namespaces(config, prefix);
    let groups = global_groups(config, prefix);
    let global_commands = global_direct_commands(config, prefix);
    let ghost parts = seq![
        suggs(local_commands@),
        suggs(local_namespaces@),
        suggs(local_groups@),
        suggs(namespaces@),
        suggs(groups@),
        suggs(global_commands@),
    ];
    let mut all: Vec<Vec<CompletionSuggestion>> = Vec::new();
    all.push(local_commands);
    all.push(local_namespaces);
    all.push(local_groups);
    all.push(namespaces);
    all.push(groups);
    all.push(global_commands);
    proof {
        let gs = all@.map_values(|g: Vec<CompletionSuggestion>| suggs(g@));
        assert(gs =~= parts);
        reveal_with_fuel(concat_all, 7);
        assert(concat_all(gs) =~= parts[0] + parts[1] + parts[2] + parts[3] + parts[4] + parts[5]);
    }
    concat_suggestions(all)
}

/// The completion after the single word `value`, typed in full: the nested
/// commands of a root command, else the content of a namespace, else the
/// commands of a group.
pub open spec fn root_exact_of(files: Seq<FileConfig>, value: Seq<char>) -> Seq<(Seq<char>, Option<Seq<char>>)> {
    let command_children = root_children(files, value);
    let namespace_children = namespace_children_of(files, value, Seq::empty());
    if command_children.len() > 0 {
        command_children
    } else if namespace_children.len() > 0 {
        namespace_children
    } else {
        entry_values(commands_of_files(files, files.len() as int, Selection::Group(value), Seq::empty()))
    }
}

/// The completion after the single word `value`.
pub fn children_for_root_exact(config: &LoadedConfig, value: &str) -> (r: Vec<CompletionSuggestion>)
    ensures
        suggs(r@) == root_exact_of(config.files@, value@),
{
    proof {
        reveal_strlit("");
        assert(""@ =~= Seq::<char>::empty());
    }
    let command_children = root_command_children(config, value);
    if command_children.len() > 0 {
        return command_children;
    }
    let namespace_children = namespace_children(config, value, "");
    if namespace_children.len() > 0 {
        return namespace_children;
    }
    group_children(config, value, "")
}

/// The completion after the words of `path`, typed in full.
pub open spec fn exact_path_of(files: Seq<FileConfig>, path: Seq<Seq<char>>) -> Seq<(Seq<char>, Option<Seq<char>>)> {
    if path.len() == 0 {
        root_of(files, Seq::empty())
    } else if path.len() == 1 {
        root_exact_of(files, path[0])
    } else {
        match nested_root_of(files, path) {
            Some(v) => v,
            None => match nested_scope_of(files, Selection::Namespace(path[0]), path, 2) {
                Some(v) => v,
                None => match nested_scope_of(files, Selection::Group(path[0]), path, 2) {
                    Some(v) => v,
                    None => match nested_prefix_of(files, path) {
                        Some(v) => v,
                        None => Seq::empty(),
                    },
                },
            },
        }
    }
}

/// The completion after the words of `path`.
pub fn children_for_exact_path(config: &LoadedConfig, path: &[String]) -> (r: Vec<CompletionSuggestion>)
    ensures
        suggs(r@) == exact_path_of(config.files@, texts(path@)),
{
    proof {
        reveal_strlit("");
        assert(""@ =~= Seq::<char>::empty());
    }
    if path.len() == 0 {
        return root_suggestions(config, "");
    }
    if path.len() == 1 {
        return children_for_root_exact(config, path[0].as_str());
    }
    if let Some(suggestions) = nested_from_root_command(config, path) {
        return suggestions;
    }
    if let Some(suggestions) = nested_from_namespace_scope(config, path) {
        return suggestions;
    }
    if let Some(suggestions) = nested_from_group_scope(config, path) {
        return suggestions;
    }
    if let Some(suggestions) = nested_from_namespace_prefix_scope(config, path) {
        return suggestions;
    }
    Vec::new()
}

/// The completion of `prefix` after the words of `path`.
pub open spec fn path_of(files: Seq<FileConfig>, path: Seq<Seq<char>>, prefix: Seq<char>) -> Seq<(Seq<char>, Option<Seq<char>>)> {
    if path.len() == 1 {
        let head = path[0];
        let command_children = root_children(files, head);
        let namespace_children = namespace_children_of(files, head, prefix);
        if command_children.len() > 0 {
            with_prefix(command_children, prefix)
        } else if namespace_children.len() > 0 {
            namespace_children
        } else {
            entry_values(commands_of_files(files, files.len() as int, Selection::Group(head), prefix))
        }
    } else {
        with_prefix(exact_path_of(files, path), prefix)
    }
}

/// The completion of `prefix` after the words of `path`.
pub fn children_for_path(config: &LoadedConfig, path: &[String], prefix: &str) -> (r: Vec<CompletionSuggestion>)
    ensures
        suggs(r@) == path_of(config.files@, texts(path@), prefix@),
{
    if path.len() == 1 {
        let head = path[0].as_str();
        let command_children = root_command_children(config, head);
        if command_children.len() > 0 {
            return filter_prefix(prefix, command_children);
        }
        let namespace_children = namespace_children(config, head, prefix);
        if namespace_children.len() > 0 {
            return namespace_children;
        }
        return group_children(config, head, prefix);
    }
    let candidates = children_for_exact_path(config, path);
    filter_prefix(prefix, candidates)
}

/// The suggestions for the words typed so far; the last word is the one
/// being completed. When it already names a suggestion in full, what comes
/// below that suggestion is offered instead.
pub open spec fn completion_of(files: Seq<FileConfig>, words: Seq<Seq<char>>) -> Seq<(Seq<char>, Option<Seq<char>>)> {
    if words.len() == 0 {
        root_of(files, Seq::empty())
    } else {
        let prefix = words.last();
        let path = words.drop_last();
        if path.len() == 0 {
            let suggestions = root_of(files, prefix);
            if has_value(suggestions, prefix) {
                root_exact_of(files, prefix)
            } else {
                suggestions
            }
        } else {
            let suggestions = path_of(files, path, prefix);
            if has_value(suggestions, prefix) {
                exact_path_of(files, path.push(prefix))
            } else {
                suggestions
            }
        }
    }
}

fn find_value(suggestions: &Vec<CompletionSuggestion>, value: &str) -> (r: bool)
    ensures
        r == has_value(suggs(suggestions@), value@),
{
    let ghost s = suggs(suggestions@);
    let mut i: usize = 0;
    while i < suggestions.len()
        invariant
            s == suggs(suggestions@),
            i <= s.len(),
            forall|x: int| 0 <= x < i ==> (#[trigger] s[x]).0 != value@,
        decreases s.len() - i,
    {
        if str_equal(suggestions[i].value.as_str(), value) {
            assert(s[i as int].0 == value@);
            return true;
        }
        i = i + 1;
    }
    false
}

/// The suggestions for the words typed so far.
pub fn completion_suggestions(config: &LoadedConfig, words: &[String]) -> (r: Vec<CompletionSuggestion>)
    ensures
        suggs(r@) == completion_of(config.files@, texts(words@)),
{
    proof {
        reveal_strlit("");
        assert(""@ =~= Seq::<char>::empty());
    }
    let ghost w = texts(words@);
    if words.len() == 0 {
        return root_suggestions(config, "");
    }
    let prefix = words[words.len() - 1].as_str();
    let path = &words[0..words.len() - 1];
    assert(texts(path@) =~= w.drop_last());
    if path.len() == 0 {
        let suggestions = root_suggestions(config, prefix);
        if find_value(&suggestions, prefix) {
            return children_for_root_exact(config, prefix);
        }
        return suggestions;
    }
    let suggestions = children_for_path(config, path, prefix);
    if find_value(&suggestions, prefix) {
        let mut exact_path: Vec<String> = Vec::new();
        let mut i: usize = 0;
        while i < path.len()
            invariant
                i <= path@.len(),
                texts(exact_path@) == texts(path@).take(i as int),
            decreases path@.len() - i,
        {
            let ghost before = texts(exact_path@);
            exact_path.push(path[i].clone());
            assert(texts(exact_path@) =~= before.push(path@[i as int]@));
            assert(texts(path@).take(i + 1) =~= texts(path@).take(i as int).push(path@[i as int]@));
            i = i + 1;
        }
        assert(texts(path@).take(path@.len() as int) =~= texts(path@));
        let ghost before = texts(exact_path@);
        exact_path.push(to_string(prefix));
        assert(texts(exact_path@) =~= before.push(prefix@));
        assert(texts(exact_path@) =~= w.drop_last().push(prefix@));
        return children_for_exact_path(config, exact_path.as_slice());
    }
    suggestions
}

/// The first line of a description, trimmed.
pub open spec fn description_line(description: Seq<char>) -> Seq<char> {
    trim(first_line(description))
}

/// The first line of `description`, trimmed.
pub fn first_description_line(description: &str) -> (r: &str)
    ensures
        r@ == description_line(description@),
{
    trim_str(first_line_str(description))
}

/// A suggestion as the shell shows it: the value, then a tab and the first
/// line of the description when there is one.
pub open spec fn rendered_line(s: (Seq<char>, Option<Seq<char>>)) -> Seq<char> {
    match s.1 {
        Some(d) => s.0 + seq!['\t'] + description_line(d),
        None => s.0,
    }
}

/// The suggestions as the shell shows them, with descriptions.
pub fn render_with_descriptions(suggestions: &[CompletionSuggestion]) -> (r: Vec<String>)
    ensures
        texts(r@) == suggs(suggestions@).map_values(|s: (Seq<char>, Option<Seq<char>>)| rendered_line(s)),
{
    let ghost want = suggs(suggestions@).map_values(|s: (Seq<char>, Option<Seq<char>>)| rendered_line(s));
    let mut out: Vec<String> = Vec::new();
    let mut i: usize = 0;
    while i < suggestions.len()
        invariant
            want == suggs(suggestions@).map_values(|s: (Seq<char>, Option<Seq<char>>)| rendered_line(s)),
            i <= suggestions@.len(),
            texts(out@) == want.take(i as int),
        decreases suggestions@.len() - i,
    {
        let s = &suggestions[i];
        let line = match &s.description {
            Some(description) => {
                let mut line = s.value.clone();
                push_char(&mut line, '\t');
                line.append(first_description_line(description.as_str()));
                line
            },
            None => s.value.clone(),
        };
        assert(line@ == want[i as int]);
        let ghost before = texts(out@);
        out.push(line);
        assert(texts(out@) =~= before.push(want[i as int]));
        assert(want.take(i + 1) =~= want.take(i as int).push(want[i as int]));
        i = i + 1;
    }
    assert(want.take(want.len() as int) =~= want);
    out
}

/// The values of the suggestions.
pub fn render_values_only(suggestions: &[CompletionSuggestion]) -> (r: Vec<String>)
    ensures
        texts(r@) == suggs(suggestions@).map_values(|s: (Seq<char>, Option<Seq<char>>)| s.0),
{
    let ghost want = suggs(suggestions@).map_values(|s: (Seq<char>, Option<Seq<char>>)| s.0);
    let mut out: Vec<String> = Vec::new();
    let mut i: usize = 0;
    while i < suggestions.len()
        invariant
            want == suggs(suggestions@).map_values(|s: (Seq<char>, Option<Seq<char>>)| s.0),
            i <= suggestions@.len(),
            texts(out@) == want.take(i as int),
        decreases suggestions@.len() - i,
    {
        let ghost before = texts(out@);
        out.push(suggestions[i].value.clone());
        assert(texts(out@) =~= before.push(want[i as int]));
        assert(want.take(i + 1) =~= want.take(i as int).push(want[i as int]));
        i = i + 1;
    }
    assert(want.take(want.len() as int) =~= want);
    out
}

/// No two suggestions left by `dedup_values` share a value, and each of
/// them is one of the input's.
pub proof fn lemma_dedup_values(s: Seq<(Seq<char>, Option<Seq<char>>)>)
    ensures
        forall|i: int, j: int|
            0 <= i < j < dedup_values(s).len() ==> (#[trigger] dedup_values(s)[i]).0 != (#[trigger] dedup_values(
                s,
            )[j]).0,
        forall|i: int| 0 <= i < dedup_values(s).len() ==> s.contains(#[trigger] dedup_values(s)[i]),
    decreases s.len(),
{
    if s.len() > 0 {
        let d = dedup_values(s.drop_last());
        lemma_dedup_values(s.drop_last());
        assert forall|i: int| 0 <= i < dedup_values(s).len() implies s.contains(#[trigger] dedup_values(s)[i]) by {
            if i < d.len() {
                let x = choose|x: int| 0 <= x < s.drop_last().len() && s.drop_last()[x] == d[i];
                assert(s[x] == d[i]);
            } else {
                assert(s[s.len() - 1] == s.last());
            }
        }
        if !has_value(d, s.last().0) {
            assert forall|i: int, j: int| 0 <= i < j < dedup_values(s).len() implies (#[trigger] dedup_values(s)[i]).0
                != (#[trigger] dedup_values(s)[j]).0 by {
                if j == d.len() {
                    assert(dedup_values(s)[i] == d[i]);
                }
            }
        }
    }
}

/// Every value in `m` starts with `prefix`.
pub open spec fn values_start_with(m: Seq<(Seq<char>, (Seq<char>, Option<Seq<char>>))>, prefix: Seq<char>) -> bool {
    forall|i: int| 0 <= i < m.len() ==> starts_with((#[trigger] m[i]).1.0, prefix)
}

proof fn lemma_insert_keeps_prefix(
    m: Seq<(Seq<char>, (Seq<char>, Option<Seq<char>>))>,
    k: Seq<char>,
    v: (Seq<char>, Option<Seq<char>>),
    prefix: Seq<char>,
)
    requires
        values_start_with(m, prefix),
        starts_with(v.0, prefix),
    ensures
        values_start_with(entry_insert(m, k, v), prefix),
{
    assert forall|i: int| 0 <= i < entry_insert(m, k, v).len() implies starts_with(
        (#[trigger] entry_insert(m, k, v)[i]).1.0,
        prefix,
    ) by {
        lemma_entry_insert_elements(m, k, v, i);
    }
}

proof fn lemma_commands_into_prefix(
    m: Seq<(Seq<char>, (Seq<char>, Option<Seq<char>>))>,
    cmds: Seq<(Seq<char>, CommandEntry)>,
    prefix: Seq<char>,
)
    requires
        values_start_with(m, prefix),
    ensures
        values_start_with(commands_into(m, cmds, prefix), prefix),
    decreases cmds.len(),
{
    if cmds.len() > 0 {
        lemma_commands_into_prefix(m, cmds.drop_last(), prefix);
        let e = cmds.last();
        if starts_with(e.0, prefix) {
            lemma_insert_keeps_prefix(commands_into(m, cmds.drop_last(), prefix), e.0, cmd_sugg(e.0, e.1), prefix);
        }
    }
}

proof fn lemma_listings_prefix(files: Seq<FileConfig>, n: int, sel: Selection, source: SourceKind, prefix: Seq<char>)
    ensures
        values_start_with(commands_of_files(files, n, sel, prefix), prefix),
        values_start_with(namespaces_of_files(files, n, source, prefix), prefix),
        values_start_with(groups_of_files(files, n, sel, prefix), prefix),
    decreases n,
{
    if n > 0 {
        lemma_listings_prefix(files, n - 1, sel, source, prefix);
        if selects(sel, files[n - 1]) {
            lemma_commands_into_prefix(commands_of_files(files, n - 1, sel, prefix), files[n - 1].commands@, prefix);
        }
        let prev = namespaces_of_files(files, n - 1, source, prefix);
        match files[n - 1].scope {
            FileScope::Namespace { namespace, namespace_description } => if starts_with(namespace@, prefix) {
                lemma_insert_keeps_prefix(prev, namespace@, (namespace@, non_empty_text(namespace_description@)), prefix);
            },
            FileScope::NamespaceGroup { namespace, namespace_description, .. } => if starts_with(namespace@, prefix) {
                lemma_insert_keeps_prefix(prev, namespace@, (namespace@, non_empty_text(namespace_description@)), prefix);
            },
            _ => {},
        }
        match group_of(sel, files[n - 1]) {
            Some(g) => if starts_with(g, prefix) {
                lemma_insert_keeps_prefix(groups_of_files(files, n - 1, sel, prefix), g, (g, None), prefix);
            },
            None => {},
        }
    }
}

/// The suggestions at the root all extend the word being typed, and no
/// value is offered twice.
pub proof fn lemma_root_suggestions_extend_prefix(files: Seq<FileConfig>, prefix: Seq<char>)
    ensures
        forall|i: int| 0 <= i < root_of(files, prefix).len() ==> starts_with((#[trigger] root_of(files, prefix)[i]).0, prefix),
        forall|i: int, j: int|
            0 <= i < j < root_of(files, prefix).len() ==> (#[trigger] root_of(files, prefix)[i]).0 != (
            #[trigger] root_of(files, prefix)[j]).0,
{
    let n = files.len() as int;
    let a = commands_of_files(files, n, Selection::Source(SourceKind::Local), prefix);
    let b = namespaces_of_files(files, n, SourceKind::Local, prefix);
    let c = groups_of_files(files, n, Selection::Source(SourceKind::Local), prefix);
    let d = namespaces_of_files(files, n, SourceKind::Global, prefix);
    let e = groups_of_files(files, n, Selection::Source(SourceKind::Global), prefix);
    let f = commands_of_files(files, n, Selection::GlobalRoot, prefix);
    lemma_listings_prefix(files, n, Selection::Source(SourceKind::Local), SourceKind::Local, prefix);
    lemma_listings_prefix(files, n, Selection::Source(SourceKind::Global), SourceKind::Global, prefix);
    lemma_listings_prefix(files, n, Selection::GlobalRoot, SourceKind::Global, prefix);
    let all = entry_values(a) + entry_values(b) + entry_values(c) + entry_values(d) + entry_values(e) + entry_values(f);
    assert forall|i: int| 0 <= i < all.len() implies starts_with((#[trigger] all[i]).0, prefix) by {
        let la = a.len() as int;
        let lb = la + b.len();
        let lc = lb + c.len();
        let ld = lc + d.len();
        let le = ld + e.len();
        if i < la {
            assert(all[i] == a[i].1);
        } else if i < lb {
            assert(all[i] == b[i - la].1);
        } else if i < lc {
            assert(all[i] == c[i - lb].1);
        } else if i < ld {
            assert(all[i] == d[i - lc].1);
        } else if i < le {
            assert(all[i] == e[i - ld].1);
        } else {
            assert(all[i] == f[i - le].1);
        }
    }
    lemma_dedup_values(all);
    assert forall|i: int| 0 <= i < root_of(files, prefix).len() implies starts_with(
        (#[trigger] root_of(files, prefix)[i]).0,
        prefix,
    ) by {
        let x = choose|x: int| 0 <= x < all.len() && all[x] == dedup_values(all)[i];
        assert(starts_with(all[x].0, prefix));
    }
}

/// The suggestions that `with_prefix` keeps are exactly those of `s` whose
/// values start with `prefix`.
pub proof fn lemma_with_prefix(s: Seq<(Seq<char>, Option<Seq<char>>)>, prefix: Seq<char>)
    ensures
        forall|i: int| 0 <= i < with_prefix(s, prefix).len() ==> starts_with((#[trigger] with_prefix(s, prefix)[i]).0, prefix),
        forall|x: (Seq<char>, Option<Seq<char>>)|
            #[trigger] with_prefix(s, prefix).contains(x) <==> s.contains(x) && starts_with(x.0, prefix),
    decreases s.len(),
{
    if s.len() > 0 {
        let d = s.drop_last();
        lemma_with_prefix(d, prefix);
        let w = with_prefix(s, prefix);
        let wd = with_prefix(d, prefix);
        assert forall|x: (Seq<char>, Option<Seq<char>>)|
            #[trigger] w.contains(x) <==> s.contains(x) && starts_with(x.0, prefix) by {
            if s.contains(x) && starts_with(x.0, prefix) {
                let k = choose|k: int| 0 <= k < s.len() && s[k] == x;
                if k < d.len() {
                    assert(d[k] == x);
                    assert(wd.contains(x));
                    let m = choose|m: int| 0 <= m < wd.len() && wd[m] == x;
                    assert(w[m] == x);
                } else {
                    assert(w[w.len() - 1] == x);
                }
            }
            if w.contains(x) {
                let m = choose|m: int| 0 <= m < w.len() && w[m] == x;
                if m < wd.len() {
                    assert(wd[m] == x);
                    assert(wd.contains(x));
                    let k = choose|k: int| 0 <= k < d.len() && d[k] == x;
                    assert(s[k] == x);
                } else {
                    assert(s[s.len() - 1] == x);
                }
            }
        }
        assert forall|i: int| 0 <= i < w.len() implies starts_with((#[trigger] w[i]).0, prefix) by {
            if i < wd.len() {
                assert(w[i] == wd[i]);
            }
        }
    }
}

/// Every suggestion offered after the words of `path` extends the word
/// being completed.
pub proof fn lemma_path_suggestions_extend_prefix(files: Seq<FileConfig>, path: Seq<Seq<char>>, prefix: Seq<char>)
    ensures
        forall|i: int|
            0 <= i < path_of(files, path, prefix).len() ==> starts_with(
                (#[trigger] path_of(files, path, prefix)[i]).0,
                prefix,
            ),
{
    let n = files.len() as int;
    if path.len() == 1 {
        let head = path[0];
        let command_children = root_children(files, head);
        if command_children.len() > 0 {
            lemma_with_prefix(command_children, prefix);
        } else if namespace_children_of(files, head, prefix).len() > 0 {
            let a = commands_of_files(files, n, Selection::Namespace(head), prefix);
            let b = groups_of_files(files, n, Selection::Namespace(head), prefix);
            lemma_listings_prefix(files, n, Selection::Namespace(head), SourceKind::Local, prefix);
            let all = entry_values(a) + entry_values(b);
            assert forall|i: int| 0 <= i < all.len() implies starts_with((#[trigger] all[i]).0, prefix) by {
                if i < a.len() {
                    assert(all[i] == a[i].1);
                } else {
                    assert(all[i] == b[i - a.len()].1);
                }
            }
            lemma_dedup_values(all);
            assert forall|i: int| 0 <= i < dedup_values(all).len() implies starts_with(
                (#[trigger] dedup_values(all)[i]).0,
                prefix,
            ) by {
                let x = choose|x: int| 0 <= x < all.len() && all[x] == dedup_values(all)[i];
                assert(starts_with(all[x].0, prefix));
            }
        } else {
            let a = commands_of_files(files, n, Selection::Group(head), prefix);
            lemma_listings_prefix(files, n, Selection::Group(head), SourceKind::Local, prefix);
            assert forall|i: int| 0 <= i < entry_values(a).len() implies starts_with(
                (#[trigger] entry_values(a)[i]).0,
                prefix,
            ) by {
                assert(entry_values(a)[i] == a[i].1);
            }
        }
    } else {
        lemma_with_prefix(exact_path_of(files, path), prefix);
    }
}

/// Every suggestion offered for the words typed extends the last word,
/// the one being completed; the one exception is a last word that already
/// names a suggestion in full, where what is offered is what comes below it.
pub proof fn lemma_completion_extends_last_word(files: Seq<FileConfig>, words: Seq<Seq<char>>)
    requires
        words.len() > 0,
    ensures
        (forall|i: int|
            0 <= i < completion_of(files, words).len() ==> starts_with(
                (#[trigger] completion_of(files, words)[i]).0,
                words.last(),
            )) || completion_of(files, words) == exact_path_of(files, words),
{
    let w = words.last();
    let path = words.drop_last();
    if path.len() == 0 {
        lemma_root_suggestions_extend_prefix(files, w);
        assert(words[0] == w);
    } else {
        lemma_path_suggestions_extend_prefix(files, path, w);
        assert(path.push(w) =~= words);
    }
}

/// After a single word that names a root command with nested commands, the
/// suggestions for the next word are exactly those nested commands whose
/// names start with it.
pub proof fn lemma_root_command_children_completion(files: Seq<FileConfig>, head: Seq<char>, prefix: Seq<char>)
    requires
        root_children(files, head).len() > 0,
    ensures
        forall|x: (Seq<char>, Option<Seq<char>>)|
            #[trigger] path_of(files, seq![head], prefix).contains(x) <==> root_children(files, head).contains(x)
                && starts_with(x.0, prefix),
{
    lemma_with_prefix(root_children(files, head), prefix);
}

} // verus!
