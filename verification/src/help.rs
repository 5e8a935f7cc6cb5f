//! Help listings: the commands, namespaces and groups shown for the root, a
//! scope or a command, and the text of the help screens.

use vstd::prelude::*;

use crate::completion::{
    command_values, commands_of_files, non_empty, selection_of, subcommand_suggestions, sugg_view,
    suggs, CompletionSuggestion, FileSelector, Selection, nested_subcommands,
};
use crate::config::{implicit_namespace, local_implicit_namespace, CommandEntry, FileConfig, FileScope, LoadedConfig};
use crate::strmap::{entry_insert, entry_values, lemma_map_entries_insert, map_entries, str_equal, StrMap};
use crate::completion::{description_line, first_description_line};
use crate::text::{byte_len, join, join_strings, non_empty_text, push_char, split_char, split_on, texts, to_string, trim, trim_str};

verus! {

/// A listed item as text: a name and its description.
pub open spec fn item_view(p: (String, Option<String>)) -> (Seq<char>, Option<Seq<char>>) {
    (p.0@, match p.1 {
        Some(d) => Some(d@),
        None => None,
    })
}

/// Listed items as text.
pub open spec fn item_views(v: Seq<(String, Option<String>)>) -> Seq<(Seq<char>, Option<Seq<char>>)> {
    v.map_values(|p: (String, Option<String>)| item_view(p))
}

fn into_items(v: Vec<CompletionSuggestion>) -> (r: Vec<(String, Option<String>)>)
    ensures
        item_views(r@) == suggs(v@),
{
    let ghost all = suggs(v@);
    let ghost n = v@.len();
    let mut v = v;
    let mut out: Vec<(String, Option<String>)> = Vec::new();
    assert(item_views(out@) =~= all.take(0));
    while v.len() > 0
        invariant
            n == all.len(),
            v@.len() <= n,
            suggs(v@) == all.subrange(n - v@.len(), n as int),
            item_views(out@) == all.take(n - v@.len()),
        decreases v@.len(),
    {
        let ghost k = n - v@.len();
        let ghost before = v@;
        let s = v.remove(0);
        assert(v@ =~= before.drop_first());
        assert(suggs(before)[0] == sugg_view(s));
        assert(suggs(v@) =~= suggs(before).drop_first());
        let ghost o = item_views(out@);
        out.push((s.value, s.description));
        assert(item_views(out@) =~= o.push(all[k]));
        assert(all.take(k + 1) =~= all.take(k).push(all[k]));
    }
    assert(all.take(n as int) =~= all);
    out
}

/// The trimmed description of `entry`, unless it is empty.
pub fn optional_description(entry: &CommandEntry) -> (r: Option<String>)
    ensures
        r matches Some(s) ==> non_empty_text(entry.description_text()) == Some(s@),
        r is None ==> non_empty_text(entry.description_text()) is None,
{
    proof {
        reveal_strlit("");
        assert(""@ =~= Seq::<char>::empty());
    }
    match entry.description() {
        Some(d) => non_empty(d),
        None => non_empty(""),
    }
}

fn opt_str(o: &Option<String>) -> (r: Option<&str>)
    ensures
        r matches Some(s) ==> o matches Some(x) && s@ == x@,
        r is None ==> o is None,
{
    match o {
        Some(s) => Some(s.as_str()),
        None => None,
    }
}

fn listed_commands(config: &LoadedConfig, sel: &FileSelector) -> (r: Vec<(String, Option<String>)>)
    ensures
        item_views(r@) == entry_values(
            commands_of_files(config.files@, config.files@.len() as int, selection_of(*sel), Seq::empty()),
        ),
{
    proof {
        reveal_strlit("");
        assert(""@ =~= Seq::<char>::empty());
    }
    into_items(command_values(config, sel, ""))
}

/// The commands shown at the root: those of the local files without scope,
/// and those of the files of the active namespace without group.
pub fn local_commands(config: &LoadedConfig) -> (r: Vec<(String, Option<String>)>)
    ensures
        item_views(r@) == entry_values(
            commands_of_files(
                config.files@,
                config.files@.len() as int,
                Selection::LocalRoot(implicit_namespace(config.files@)),
                Seq::empty(),
            ),
        ),
{
    let implicit = local_implicit_namespace(config);
    listed_commands(config, &FileSelector::LocalRoot(opt_str(&implicit)))
}

/// The commands of the global files without namespace and group.
pub fn global_direct_commands(config: &LoadedConfig) -> (r: Vec<(String, Option<String>)>)
    ensures
        item_views(r@) == entry_values(
            commands_of_files(config.files@, config.files@.len() as int, Selection::GlobalRoot, Seq::empty()),
        ),
{
    listed_commands(config, &FileSelector::GlobalRoot)
}

/// The commands of the files of `namespace` without group.
pub fn namespace_commands(config: &LoadedConfig, namespace: &str) -> (r: Vec<(String, Option<String>)>)
    ensures
        item_views(r@) == entry_values(
            commands_of_files(config.files@, config.files@.len() as int, Selection::Namespace(namespace@), Seq::empty()),
        ),
{
    listed_commands(config, &FileSelector::Namespace(namespace))
}

/// The commands of `group`: its files without namespace, and its files in
/// the active namespace.
pub fn group_commands(config: &LoadedConfig, group: &str) -> (r: Vec<(String, Option<String>)>)
    ensures
        item_views(r@) == entry_values(
            commands_of_files(
                config.files@,
                config.files@.len() as int,
                Selection::GroupInScope(group@, implicit_namespace(config.files@)),
                Seq::empty(),
            ),
        ),
{
    let implicit = local_implicit_namespace(config);
    listed_commands(config, &FileSelector::GroupInScope(group, opt_str(&implicit)))
}

/// The commands of `group` in `namespace`.
pub fn namespace_prefix_commands(config: &LoadedConfig, namespace: &str, group: &str) -> (r: Vec<(String, Option<String>)>)
    ensures
        item_views(r@) == entry_values(
            commands_of_files(
                config.files@,
                config.files@.len() as int,
                Selection::NamespaceGroup(namespace@, group@),
                Seq::empty(),
            ),
        ),
{
    listed_commands(config, &FileSelector::NamespaceGroup(namespace, group))
}

/// The nested commands of `command`.
pub fn command_subcommands(command: &CommandEntry) -> (r: Vec<(String, Option<String>)>)
    ensures
        item_views(r@) == subcommand_suggestions(*command, Seq::empty()),
{
    proof {
        reveal_strlit("");
        assert(""@ =~= Seq::<char>::empty());
    }
    into_items(nested_subcommands(command, ""))
}

/// The namespace and its description that a file lists.
pub open spec fn file_namespace(file: FileConfig) -> Option<(Seq<char>, Seq<char>)> {
    match file.scope {
        FileScope::Namespace { namespace, namespace_description } => Some((namespace@, namespace_description@)),
        FileScope::NamespaceGroup { namespace, namespace_description, .. } => Some(
            (namespace@, namespace_description@),
        ),
        _ => None,
    }
}

/// The namespaces of the first `n` files, by name; a later file's
/// description takes the place of an earlier one's.
pub open spec fn namespaces_listed(files: Seq<FileConfig>, n: int) -> Seq<(Seq<char>, (Seq<char>, Option<Seq<char>>))>
    decreases n,
{
    if n <= 0 {
        Seq::empty()
    } else {
        let prev = namespaces_listed(files, n - 1);
        match file_namespace(files[n - 1]) {
            Some(p) => entry_insert(prev, p.0, (p.0, non_empty_text(p.1))),
            None => prev,
        }
    }
}

/// The groups that a file lists with the active namespace `active`: a group
/// without namespace, or a group of the active namespace.
pub open spec fn file_group_in_scope(file: FileConfig, active: Option<Seq<char>>) -> Option<(Seq<char>, Seq<char>)> {
    match file.scope {
        FileScope::Group { group, group_description } => Some((group@, group_description@)),
        FileScope::NamespaceGroup { namespace, group, group_description, .. } => if active == Some(namespace@) {
            Some((group@, group_description@))
        } else {
            None
        },
        _ => None,
    }
}

/// The group of `namespace` that a file lists.
pub open spec fn file_group_of_namespace(file: FileConfig, ns: Seq<char>) -> Option<(Seq<char>, Seq<char>)> {
    match file.scope {
        FileScope::NamespaceGroup { namespace, group, group_description, .. } => if namespace@ == ns {
            Some((group@, group_description@))
        } else {
            None
        },
        _ => None,
    }
}

/// Which groups a listing shows: those in scope at the root, or those of
/// one namespace.
pub enum GroupListing {
    InScope(Option<Seq<char>>),
    OfNamespace(Seq<char>),
}

/// The group and its description that a file adds to a listing.
pub open spec fn listed_group(which: GroupListing, file: FileConfig) -> Option<(Seq<char>, Seq<char>)> {
    match which {
        GroupListing::InScope(active) => file_group_in_scope(file, active),
        GroupListing::OfNamespace(ns) => file_group_of_namespace(file, ns),
    }
}

/// The groups of the first `n` files, by name; a later file's description
/// takes the place of an earlier one's.
pub open spec fn groups_listed(files: Seq<FileConfig>, n: int, which: GroupListing) -> Seq<
    (Seq<char>, (Seq<char>, Option<Seq<char>>)),
>
    decreases n,
{
    if n <= 0 {
        Seq::empty()
    } else {
        let prev = groups_listed(files, n - 1, which);
        match listed_group(which, files[n - 1]) {
            Some(p) => entry_insert(prev, p.0, (p.0, non_empty_text(p.1))),
            None => prev,
        }
    }
}

/// All namespaces, with their descriptions.
pub fn namespaces(config: &LoadedConfig) -> (r: Vec<(String, Option<String>)>)
    ensures
        item_views(r@) == entry_values(namespaces_listed(config.files@, config.files@.len() as int)),
{
    let ghost files = config.files@;
    let mut map: StrMap<CompletionSuggestion> = StrMap::new();
    assert(map_entries(map@, crate::completion::sugg_fn()) =~= namespaces_listed(files, 0));
    let mut i: usize = 0;
    while i < config.files.len()
        invariant
            files == config.files@,
            i <= files.len(),
            map_entries(map@, crate::completion::sugg_fn()) == namespaces_listed(files, i as int),
        decreases files.len() - i,
    {
        let file = &config.files[i];
        let found: Option<(&String, &String)> = match &file.scope {
            FileScope::Namespace { namespace, namespace_description } => Some((namespace, namespace_description)),
            FileScope::NamespaceGroup { namespace, namespace_description, .. } => Some(
                (namespace, namespace_description),
            ),
            _ => None,
        };
        if let Some((namespace, description)) = found {
            let s = CompletionSuggestion { value: namespace.clone(), description: non_empty(description.as_str()) };
            proof {
                lemma_map_entries_insert(map@, namespace@, s, crate::completion::sugg_fn());
            }
            map.insert(namespace.clone(), s);
        }
        i = i + 1;
    }
    let ghost m = map@;
    let values = map.into_values();
    assert(suggs(values@) =~= entry_values(map_entries(m, crate::completion::sugg_fn())));
    into_items(values)
}

fn group_listed<'a>(file: &'a FileConfig, active: Option<&str>, namespace: Option<&str>) -> (r: Option<(&'a String, &'a String)>)
    ensures
        ({
            let which = match namespace {
                Some(ns) => GroupListing::OfNamespace(ns@),
                None => GroupListing::InScope(match active {
                    Some(a) => Some(a@),
                    None => None,
                }),
            };
            match r {
                Some(p) => listed_group(which, *file) == Some((p.0@, p.1@)),
                None => listed_group(which, *file) is None,
            }
        }),
{
    match namespace {
        Some(ns) => match &file.scope {
            FileScope::NamespaceGroup { namespace, group, group_description, .. } => if str_equal(
                namespace.as_str(),
                ns,
            ) {
                Some((group, group_description))
            } else {
                None
            },
            _ => None,
        },
        None => match &file.scope {
            FileScope::Group { group, group_description } => Some((group, group_description)),
            FileScope::NamespaceGroup { namespace, group, group_description, .. } => match active {
                Some(a) => if str_equal(namespace.as_str(), a) {
                    Some((group, group_description))
                } else {
                    None
                },
                None => None,
            },
            _ => None,
        },
    }
}

fn list_groups(config: &LoadedConfig, active: Option<&str>, namespace: Option<&str>) -> (r: Vec<(String, Option<String>)>)
    ensures
        ({
            let which = match namespace {
                Some(ns) => GroupListing::OfNamespace(ns@),
                None => GroupListing::InScope(match active {
                    Some(a) => Some(a@),
                    None => None,
                }),
            };
            item_views(r@) == entry_values(groups_listed(config.files@, config.files@.len() as int, which))
        }),
{
    let ghost which = match namespace {
        Some(ns) => GroupListing::OfNamespace(ns@),
        None => GroupListing::InScope(match active {
            Some(a) => Some(a@),
            None => None,
        }),
    };
    let ghost files = config.files@;
    let mut map: StrMap<CompletionSuggestion> = StrMap::new();
    assert(map_entries(map@, crate::completion::sugg_fn()) =~= groups_listed(files, 0, which));
    let mut i: usize = 0;
    while i < config.files.len()
        invariant
            files == config.files@,
            i <= files.len(),
            which == match namespace {
                Some(ns) => GroupListing::OfNamespace(ns@),
                None => GroupListing::InScope(match active {
                    Some(a) => Some(a@),
                    None => None,
                }),
            },
            map_entries(map@, crate::completion::sugg_fn()) == groups_listed(files, i as int, which),
        decreases files.len() - i,
    {
        let file = &config.files[i];
        if let Some((group, description)) = group_listed(file, active, namespace) {
            let s = CompletionSuggestion { value: group.clone(), description: non_empty(description.as_str()) };
            proof {
                lemma_map_entries_insert(map@, group@, s, crate::completion::sugg_fn());
            }
            map.insert(group.clone(), s);
        }
        i = i + 1;
    }
    let ghost m = map@;
    let values = map.into_values();
    assert(suggs(values@) =~= entry_values(map_entries(m, crate::completion::sugg_fn())));
    into_items(values)
}

/// The groups shown at the root, with their descriptions: the groups
/// without namespace and those of the active namespace.
pub fn groups(config: &LoadedConfig) -> (r: Vec<(String, Option<String>)>)
    ensures
        item_views(r@) == entry_values(
            groups_listed(config.files@, config.files@.len() as int, GroupListing::InScope(implicit_namespace(config.files@))),
        ),
{
    let implicit = local_implicit_namespace(config);
    list_groups(config, opt_str(&implicit), None)
}

/// The groups of `namespace`, with their descriptions.
pub fn namespace_groups(config: &LoadedConfig, namespace: &str) -> (r: Vec<(String, Option<String>)>)
    ensures
        item_views(r@) == entry_values(
            groups_listed(config.files@, config.files@.len() as int, GroupListing::OfNamespace(namespace@)),
        ),
{
    list_groups(config, None, Some(namespace))
}

/// Whether `file` lists the namespace `ns`.
pub open spec fn lists_namespace(file: FileConfig, ns: Seq<char>) -> bool {
    match file_namespace(file) {
        Some(p) => p.0 == ns,
        None => false,
    }
}

/// Whether `file` lists the group `g`, given the active namespace `active`
/// or the namespace `ns`.
pub open spec fn lists_group(which: GroupListing, file: FileConfig, g: Seq<char>) -> bool {
    match listed_group(which, file) {
        Some(p) => p.0 == g,
        None => false,
    }
}

/// Whether some file has the namespace `namespace`.
pub fn has_namespace(config: &LoadedConfig, namespace: &str) -> (r: bool)
    ensures
        r == exists|i: int| 0 <= i < config.files@.len() && #[trigger] lists_namespace(config.files@[i], namespace@),
{
    let mut i: usize = 0;
    while i < config.files.len()
        invariant
            i <= config.files@.len(),
            forall|x: int| 0 <= x < i ==> !#[trigger] lists_namespace(config.files@[x], namespace@),
        decreases config.files@.len() - i,
    {
        let found = match &config.files[i].scope {
            FileScope::Namespace { namespace: ns, .. } => str_equal(ns.as_str(), namespace),
            FileScope::NamespaceGroup { namespace: ns, .. } => str_equal(ns.as_str(), namespace),
            _ => false,
        };
        if found {
            assert(lists_namespace(config.files@[i as int], namespace@));
            return true;
        }
        i = i + 1;
    }
    false
}

/// Whether `group` is a group at the root: a group without namespace, or
/// a group of the active namespace.
pub fn has_root_group(config: &LoadedConfig, group: &str) -> (r: bool)
    ensures
        r == exists|i: int|
            0 <= i < config.files@.len() && #[trigger] lists_group(
                GroupListing::InScope(implicit_namespace(config.files@)),
                config.files@[i],
                group@,
            ),
{
    let implicit = local_implicit_namespace(config);
    let active = opt_str(&implicit);
    let ghost a = implicit_namespace(config.files@);
    let mut i: usize = 0;
    while i < config.files.len()
        invariant
            i <= config.files@.len(),
            a == implicit_namespace(config.files@),
            match active {
                Some(x) => a == Some(x@),
                None => a is None,
            },
            forall|x: int| 0 <= x < i ==> !#[trigger] lists_group(GroupListing::InScope(a), config.files@[x], group@),
        decreases config.files@.len() - i,
    {
        match group_listed(&config.files[i], active, None) {
            Some((g, _)) => {
                if str_equal(g.as_str(), group) {
                    assert(lists_group(GroupListing::InScope(a), config.files@[i as int], group@));
                    return true;
                }
            },
            None => {},
        }
        i = i + 1;
    }
    false
}

/// Whether `group` is a group of `namespace`.
pub fn has_namespace_prefix(config: &LoadedConfig, namespace: &str, group: &str) -> (r: bool)
    ensures
        r == exists|i: int|
            0 <= i < config.files@.len() && #[trigger] lists_group(
                GroupListing::OfNamespace(namespace@),
                config.files@[i],
                group@,
            ),
{
    let mut i: usize = 0;
    while i < config.files.len()
        invariant
            i <= config.files@.len(),
            forall|x: int|
                0 <= x < i ==> !#[trigger] lists_group(GroupListing::OfNamespace(namespace@), config.files@[x], group@),
        decreases config.files@.len() - i,
    {
        match group_listed(&config.files[i], None, Some(namespace)) {
            Some((g, _)) => {
                if str_equal(g.as_str(), group) {
                    assert(lists_group(GroupListing::OfNamespace(namespace@), config.files@[i as int], group@));
                    return true;
                }
            },
            None => {},
        }
        i = i + 1;
    }
    false
}

/// Which description a help screen shows.
pub enum DescriptionOf {
    Namespace(Seq<char>),
    Group(Seq<char>, Option<Seq<char>>),
    NamespaceGroup(Seq<char>, Seq<char>),
}

/// The description that a file gives, when it describes the scope.
pub open spec fn described(which: DescriptionOf, file: FileConfig) -> Option<Seq<char>> {
    match which {
        DescriptionOf::Namespace(ns) => match file_namespace(file) {
            Some(p) => if p.0 == ns {
                Some(p.1)
            } else {
                None
            },
            None => None,
        },
        DescriptionOf::Group(g, active) => match file_group_in_scope(file, active) {
            Some(p) => if p.0 == g {
                Some(p.1)
            } else {
                None
            },
            None => None,
        },
        DescriptionOf::NamespaceGroup(ns, g) => match file_group_of_namespace(file, ns) {
            Some(p) => if p.0 == g {
                Some(p.1)
            } else {
                None
            },
            None => None,
        },
    }
}

/// The first non-empty description, trimmed, of the files from `i` on.
pub open spec fn first_description(files: Seq<FileConfig>, i: int, which: DescriptionOf) -> Option<Seq<char>>
    decreases files.len() - i,
{
    if i < 0 || i >= files.len() {
        None
    } else {
        match described(which, files[i]) {
            Some(d) => match non_empty_text(d) {
                Some(t) => Some(t),
                None => first_description(files, i + 1, which),
            },
            None => first_description(files, i + 1, which),
        }
    }
}

fn find_description(config: &LoadedConfig, namespace: Option<&str>, group: Option<&str>, active: Option<&str>) -> (r: Option<String>)
    requires
        namespace is Some || group is Some,
    ensures
        ({
            let which = match (namespace, group) {
                (Some(ns), None) => DescriptionOf::Namespace(ns@),
                (Some(ns), Some(g)) => DescriptionOf::NamespaceGroup(ns@, g@),
                (None, Some(g)) => DescriptionOf::Group(g@, match active {
                    Some(a) => Some(a@),
                    None => None,
                }),
                (None, None) => DescriptionOf::Namespace(Seq::empty()),
            };
            match r {
                Some(s) => first_description(config.files@, 0, which) == Some(s@),
                None => first_description(config.files@, 0, which) is None,
            }
        }),
{
    let ghost which = match (namespace, group) {
        (Some(ns), None) => DescriptionOf::Namespace(ns@),
        (Some(ns), Some(g)) => DescriptionOf::NamespaceGroup(ns@, g@),
        (None, Some(g)) => DescriptionOf::Group(g@, match active {
            Some(a) => Some(a@),
            None => None,
        }),
        (None, None) => DescriptionOf::Namespace(Seq::empty()),
    };
    let ghost files = config.files@;
    let mut i: usize = 0;
    while i < config.files.len()
        invariant
            files == config.files@,
            i <= files.len(),
            namespace is Some || group is Some,
            which == match (namespace, group) {
                (Some(ns), None) => DescriptionOf::Namespace(ns@),
                (Some(ns), Some(g)) => DescriptionOf::NamespaceGroup(ns@, g@),
                (None, Some(g)) => DescriptionOf::Group(g@, match active {
                    Some(a) => Some(a@),
                    None => None,
                }),
                (None, None) => DescriptionOf::Namespace(Seq::empty()),
            },
            first_description(files, 0, which) == first_description(files, i as int, which),
        decreases files.len() - i,
    {
        let file = &config.files[i];
        let description: Option<&String> = match (namespace, group) {
            (Some(ns), None) => match &file.scope {
                FileScope::Namespace { namespace: n, namespace_description } => if str_equal(n.as_str(), ns) {
                    Some(namespace_description)
                } else {
                    None
                },
                FileScope::NamespaceGroup { namespace: n, namespace_description, .. } => if str_equal(
                    n.as_str(),
                    ns,
                ) {
                    Some(namespace_description)
                } else {
                    None
                },
                _ => None,
            },
            (Some(ns), Some(g)) => match group_listed(file, None, Some(ns)) {
                Some((name, d)) => if str_equal(name.as_str(), g) {
                    Some(d)
                } else {
                    None
                },
                None => None,
            },
            (None, Some(g)) => match group_listed(file, active, None) {
                Some((name, d)) => if str_equal(name.as_str(), g) {
                    Some(d)
                } else {
                    None
                },
                None => None,
            },
            (None, None) => None,
        };
        assert(match description {
            Some(d) => described(which, files[i as int]) == Some(d@),
            None => described(which, files[i as int]) is None,
        });
        if let Some(d) = description {
            let value = non_empty(d.as_str());
            if value.is_some() {
                return value;
            }
        }
        i = i + 1;
    }
    None
}

/// The first non-empty description of `namespace`.
pub fn namespace_description(config: &LoadedConfig, namespace: &str) -> (r: Option<String>)
    ensures
        r matches Some(s) ==> first_description(config.files@, 0, DescriptionOf::Namespace(namespace@)) == Some(s@),
        r is None ==> first_description(config.files@, 0, DescriptionOf::Namespace(namespace@)) is None,
{
    find_description(config, Some(namespace), None, None)
}

/// The first non-empty description of the root group `group`.
pub fn group_description(config: &LoadedConfig, group: &str) -> (r: Option<String>)
    ensures
        r matches Some(s) ==> first_description(
            config.files@,
            0,
            DescriptionOf::Group(group@, implicit_namespace(config.files@)),
        ) == Some(s@),
        r is None ==> first_description(config.files@, 0, DescriptionOf::Group(group@, implicit_namespace(config.files@)))
            is None,
{
    let implicit = local_implicit_namespace(config);
    find_description(config, None, Some(group), opt_str(&implicit))
}

/// The first non-empty description of `group` in `namespace`.
pub fn namespace_group_description(config: &LoadedConfig, namespace: &str, group: &str) -> (r: Option<String>)
    ensures
        r matches Some(s) ==> first_description(config.files@, 0, DescriptionOf::NamespaceGroup(namespace@, group@))
            == Some(s@),
        r is None ==> first_description(config.files@, 0, DescriptionOf::NamespaceGroup(namespace@, group@)) is None,
{
    find_description(config, Some(namespace), Some(group), None)
}

/// The width of the name column: the longest name in bytes, at least 1.
pub open spec fn name_width(items: Seq<(Seq<char>, Option<Seq<char>>)>) -> nat
    decreases items.len(),
{
    if items.len() == 0 {
        1
    } else {
        let w = name_width(items.drop_last());
        let l = byte_len(items.last().0);
        if l > w {
            l
        } else {
            w
        }
    }
}

/// `name` padded with spaces to `width` characters.
pub open spec fn padded(name: Seq<char>, width: nat) -> Seq<char> {
    if name.len() < width {
        name + Seq::new((width - name.len()) as nat, |i: int| ' ')
    } else {
        name
    }
}

/// The line of one listed item: the name, and the first line of its
/// description in a column when it has one.
pub open spec fn item_line(item: (Seq<char>, Option<Seq<char>>), width: nat) -> Seq<char> {
    match item.1 {
        Some(d) => {
            let first = description_line(d);
            if first.len() == 0 {
                "  "@ + item.0
            } else {
                "  "@ + padded(item.0, width) + "  "@ + first
            }
        },
        None => "  "@ + item.0,
    }
}

/// The lines of a section: nothing for no items, else the title and one
/// line for each item.
pub open spec fn section(title: Seq<char>, items: Seq<(Seq<char>, Option<Seq<char>>)>) -> Seq<Seq<char>> {
    if items.len() == 0 {
        Seq::empty()
    } else {
        seq![title + ":"@] + items.map_values(|it: (Seq<char>, Option<Seq<char>>)| item_line(it, name_width(items)))
    }
}

pub(crate) fn pad_to(name: &str, width: usize) -> (r: String)
    ensures
        r@ == padded(name@, width as nat),
{
    let mut r = to_string(name);
    let n = name.unicode_len();
    let mut k = n;
    while k < width
        invariant
            n == name@.len(),
            n <= k <= width || (k == n && n >= width),
            k >= n,
            r@ == name@ + Seq::new((k - n) as nat, |i: int| ' '),
        decreases width - k,
    {
        push_char(&mut r, ' ');
        assert(r@ =~= name@ + Seq::new((k + 1 - n) as nat, |i: int| ' '));
        k = k + 1;
    }
    if n >= width {
        assert(r@ =~= name@);
    }
    r
}

fn push_line(lines: &mut Vec<String>, line: String)
    ensures
        texts(final(lines)@) == texts(old(lines)@).push(line@),
{
    let ghost before = texts(lines@);
    lines.push(line);
    assert(texts(lines@) =~= before.push(line@));
}

/// Appends the lines of a section.
pub fn print_section(lines: &mut Vec<String>, title: &str, items: &[(String, Option<String>)])
    ensures
        texts(final(lines)@) == texts(old(lines)@) + section(title@, item_views(items@)),
{
    let ghost iv = item_views(items@);
    proof {
        reveal_strlit(":");
        reveal_strlit("  ");
    }
    if items.len() == 0 {
        assert(texts(lines@) =~= texts(lines@) + section(title@, iv));
        return;
    }
    let ghost start = texts(lines@);
    let mut width: usize = 1;
    let mut i: usize = 0;
    assert(iv.take(0).len() == 0);
    while i < items.len()
        invariant
            iv == item_views(items@),
            i <= iv.len(),
            width == name_width(iv.take(i as int)),
        decreases iv.len() - i,
    {
        let name = items[i].0.as_str();
        let l = name.len();
        assert(iv.take(i + 1).drop_last() =~= iv.take(i as int));
        assert(iv.take(i + 1).last() == iv[i as int]);
        assert(iv[i as int].0 == name@);
        if l > width {
            width = l;
        }
        i = i + 1;
    }
    assert(iv.take(iv.len() as int) =~= iv);
    let mut title_line = to_string(title);
    title_line.append(":");
    push_line(lines, title_line);
    let ghost head = texts(lines@);
    let ghost want = iv.map_values(|it: (Seq<char>, Option<Seq<char>>)| item_line(it, name_width(iv)));
    let mut k: usize = 0;
    assert(head =~= head + want.take(0));
    while k < items.len()
        invariant
            iv == item_views(items@),
            width == name_width(iv),
            want == iv.map_values(|it: (Seq<char>, Option<Seq<char>>)| item_line(it, name_width(iv))),
            k <= iv.len(),
            texts(lines@) == head + want.take(k as int),
            "  "@ == seq![' ', ' '],
        decreases iv.len() - k,
    {
        let name = items[k].0.as_str();
        let mut line = to_string("  ");
        match &items[k].1 {
            Some(description) => {
                let first = first_description_line(description.as_str());
                if first.unicode_len() == 0 {
                    line.append(name);
                } else {
                    let p = pad_to(name, width);
                    line.append(p.as_str());
                    line.append("  ");
                    line.append(first);
                }
            },
            None => {
                line.append(name);
            },
        }
        assert(line@ == want[k as int]);
        push_line(lines, line);
        assert(want.take(k + 1) =~= want.take(k as int).push(want[k as int]));
        k = k + 1;
    }
    assert(want.take(want.len() as int) =~= want);
    assert(texts(lines@) =~= start + section(title@, iv));
}

/// The lines of a text, as `str::lines` yields them.
pub open spec fn text_lines(d: Seq<char>) -> Seq<Seq<char>> {
    let pieces = split_on(d, '\n');
    if pieces.last().len() == 0 {
        pieces.drop_last()
    } else {
        pieces
    }
}

/// The description block of a help screen: a heading, then each line of
/// the description, trimmed and indented.
pub open spec fn description_block(d: Seq<char>) -> Seq<Seq<char>> {
    seq!["Description:"@] + text_lines(d).map_values(|l: Seq<char>| "  "@ + trim(l))
}

/// Appends the description block for `description`.
pub fn print_description(lines: &mut Vec<String>, description: &str)
    ensures
        texts(final(lines)@) == texts(old(lines)@) + description_block(description@),
{
    proof {
        reveal_strlit("  ");
    }
    let ghost start = texts(lines@);
    push_line(lines, to_string("Description:"));
    let pieces = split_char(description, '\n');
    let ghost pv = texts(pieces@);
    assert(pv =~= pieces.deep_view());
    let mut n = pieces.len();
    proof {
        crate::text::lemma_split_on_nonempty(description@, '\n');
    }
    if pieces[n - 1].as_str().unicode_len() == 0 {
        n = n - 1;
    }
    let ghost tl = text_lines(description@);
    assert(tl =~= pv.take(n as int));
    let ghost want = tl.map_values(|l: Seq<char>| "  "@ + trim(l));
    let ghost head = texts(lines@);
    let mut k: usize = 0;
    assert(head =~= head + want.take(0));
    while k < n
        invariant
            n <= pieces@.len(),
            pv == texts(pieces@),
            tl == pv.take(n as int),
            want == tl.map_values(|l: Seq<char>| "  "@ + trim(l)),
            k <= n,
            texts(lines@) == head + want.take(k as int),
        decreases n - k,
    {
        let mut line = to_string("  ");
        line.append(trim_str(pieces[k].as_str()));
        push_line(lines, line);
        assert(want.take(k + 1) =~= want.take(k as int).push(want[k as int]));
        k = k + 1;
    }
    assert(want.take(n as int) =~= want);
    assert(texts(lines@) =~= start + description_block(description@));
}

/// The description block, when there is a description.
pub open spec fn description_part(d: Option<Seq<char>>) -> Seq<Seq<char>> {
    match d {
        Some(t) => description_block(t),
        None => Seq::empty(),
    }
}

/// The root help screen.
pub open spec fn root_help(files: Seq<FileConfig>, version: Seq<char>) -> Seq<Seq<char>> {
    let n = files.len() as int;
    let active = implicit_namespace(files);
    seq!["Fire CLI v"@ + version] + section(
        "Commands"@,
        entry_values(commands_of_files(files, n, Selection::LocalRoot(active), Seq::empty())),
    ) + section("Namespaces"@, entry_values(namespaces_listed(files, n))) + section(
        "Groups"@,
        entry_values(groups_listed(files, n, GroupListing::InScope(active))),
    ) + section("Global Commands"@, entry_values(commands_of_files(files, n, Selection::GlobalRoot, Seq::empty())))
        + section("Built-in Commands"@, seq![("cli"@, Some("Manage command configuration"@))]) + seq![
        Seq::empty(),
        "Docs: https://github.com/gbenm/fire"@,
    ]
}

fn push_text(lines: &mut Vec<String>, text: &str)
    ensures
        texts(final(lines)@) == texts(old(lines)@).push(text@),
{
    push_line(lines, to_string(text));
}

/// Appends the root help screen for version `version`.
pub fn print_root_help(lines: &mut Vec<String>, config: &LoadedConfig, version: &str)
    ensures
        texts(final(lines)@) == texts(old(lines)@) + root_help(config.files@, version@),
{
    let ghost start = texts(lines@);
    let local_commands = local_commands(config);
    let namespaces = namespaces(config);
    let groups = groups(config);
    let global_commands = global_direct_commands(config);
    let mut builtin_commands: Vec<(String, Option<String>)> = Vec::new();
    builtin_commands.push((to_string("cli"), Some(to_string("Manage command configuration"))));
    assert(item_views(builtin_commands@) =~= seq![("cli"@, Some("Manage command configuration"@))]);
    let mut title = to_string("Fire CLI v");
    title.append(version);
    push_line(lines, title);
    print_section(lines, "Commands", local_commands.as_slice());
    print_section(lines, "Namespaces", namespaces.as_slice());
    print_section(lines, "Groups", groups.as_slice());
    print_section(lines, "Global Commands", global_commands.as_slice());
    print_section(lines, "Built-in Commands", builtin_commands.as_slice());
    push_line(lines, String::new());
    push_text(lines, "Docs: https://github.com/gbenm/fire");
    assert(texts(lines@) =~= start + root_help(config.files@, version@));
}

/// The help screen of a namespace.
pub open spec fn namespace_help(files: Seq<FileConfig>, ns: Seq<char>) -> Seq<Seq<char>> {
    let n = files.len() as int;
    seq!["Namespace: "@ + ns] + description_part(first_description(files, 0, DescriptionOf::Namespace(ns)))
        + section("Commands"@, entry_values(commands_of_files(files, n, Selection::Namespace(ns), Seq::empty())))
        + section("Groups"@, entry_values(groups_listed(files, n, GroupListing::OfNamespace(ns))))
}

fn print_optional_description(lines: &mut Vec<String>, description: Option<String>)
    ensures
        texts(final(lines)@) == texts(old(lines)@) + description_part(match description {
            Some(d) => Some(d@),
            None => None,
        }),
{
    match description {
        Some(d) => print_description(lines, d.as_str()),
        None => {
            assert(texts(lines@) =~= texts(lines@) + Seq::<Seq<char>>::empty());
        },
    }
}

/// Appends the help screen of `namespace`.
pub fn print_namespace_help(lines: &mut Vec<String>, config: &LoadedConfig, namespace: &str)
    ensures
        texts(final(lines)@) == texts(old(lines)@) + namespace_help(config.files@, namespace@),
{
    let ghost start = texts(lines@);
    let mut title = to_string("Namespace: ");
    title.append(namespace);
    push_line(lines, title);
    print_optional_description(lines, namespace_description(config, namespace));
    let commands = namespace_commands(config, namespace);
    let groups = namespace_groups(config, namespace);
    print_section(lines, "Commands", commands.as_slice());
    print_section(lines, "Groups", groups.as_slice());
    assert(texts(lines@) =~= start + namespace_help(config.files@, namespace@));
}

/// The help screen of a root group.
pub open spec fn group_help(files: Seq<FileConfig>, g: Seq<char>) -> Seq<Seq<char>> {
    let n = files.len() as int;
    let active = implicit_namespace(files);
    seq!["Group: "@ + g] + description_part(first_description(files, 0, DescriptionOf::Group(g, active))) + section(
        "Commands"@,
        entry_values(commands_of_files(files, n, Selection::GroupInScope(g, active), Seq::empty())),
    )
}

/// Appends the help screen of the root group `group`.
pub fn print_group_help(lines: &mut Vec<String>, config: &LoadedConfig, group: &str)
    ensures
        texts(final(lines)@) == texts(old(lines)@) + group_help(config.files@, group@),
{
    let ghost start = texts(lines@);
    let mut title = to_string("Group: ");
    title.append(group);
    push_line(lines, title);
    print_optional_description(lines, group_description(config, group));
    let commands = group_commands(config, group);
    print_section(lines, "Commands", commands.as_slice());
    assert(texts(lines@) =~= start + group_help(config.files@, group@));
}

/// The help screen of a group of a namespace.
pub open spec fn namespace_prefix_help(files: Seq<FileConfig>, ns: Seq<char>, g: Seq<char>) -> Seq<Seq<char>> {
    let n = files.len() as int;
    seq!["Namespace Group: "@ + ns + " "@ + g] + description_part(
        first_description(files, 0, DescriptionOf::NamespaceGroup(ns, g)),
    ) + section("Commands"@, entry_values(commands_of_files(files, n, Selection::NamespaceGroup(ns, g), Seq::empty())))
}

/// Appends the help screen of `group` in `namespace`.
pub fn print_namespace_prefix_help(lines: &mut Vec<String>, config: &LoadedConfig, namespace: &str, group: &str)
    ensures
        texts(final(lines)@) == texts(old(lines)@) + namespace_prefix_help(config.files@, namespace@, group@),
{
    let ghost start = texts(lines@);
    let mut title = to_string("Namespace Group: ");
    title.append(namespace);
    title.append(" ");
    title.append(group);
    push_line(lines, title);
    print_optional_description(lines, namespace_group_description(config, namespace, group));
    let commands = namespace_prefix_commands(config, namespace, group);
    print_section(lines, "Commands", commands.as_slice());
    assert(texts(lines@) =~= start + namespace_prefix_help(config.files@, namespace@, group@));
}

/// The help screen for a path that names a scope: one word naming a
/// namespace, or else a root group; or two words naming a group of a
/// namespace.
pub open spec fn scope_help(files: Seq<FileConfig>, path: Seq<Seq<char>>) -> Option<Seq<Seq<char>>> {
    if path.len() == 1 {
        if exists|i: int| 0 <= i < files.len() && #[trigger] lists_namespace(files[i], path[0]) {
            Some(namespace_help(files, path[0]))
        } else if exists|i: int|
            0 <= i < files.len() && #[trigger] lists_group(GroupListing::InScope(implicit_namespace(files)), files[i], path[0]) {
            Some(group_help(files, path[0]))
        } else {
            None
        }
    } else if path.len() == 2 {
        if exists|i: int| 0 <= i < files.len() && #[trigger] lists_group(GroupListing::OfNamespace(path[0]), files[i], path[1]) {
            Some(namespace_prefix_help(files, path[0], path[1]))
        } else {
            None
        }
    } else {
        None
    }
}

/// Appends the help screen of the scope that `path` names, and says
/// whether it names one.
pub fn print_scope_help(lines: &mut Vec<String>, config: &LoadedConfig, path: &[String]) -> (r: bool)
    ensures
        r == scope_help(config.files@, texts(path@)) is Some,
        match scope_help(config.files@, texts(path@)) {
            Some(h) => texts(final(lines)@) == texts(old(lines)@) + h,
            None => texts(final(lines)@) == texts(old(lines)@),
        },
{
    if path.len() == 1 {
        let namespace = path[0].as_str();
        assert(texts(path@)[0] == namespace@);
        if !has_namespace(config, namespace) {
            if has_root_group(config, namespace) {
                print_group_help(lines, config, namespace);
                return true;
            }
            return false;
        }
        print_namespace_help(lines, config, namespace);
        return true;
    }
    if path.len() == 2 {
        assert(texts(path@)[0] == path@[0]@ && texts(path@)[1] == path@[1]@);
        if has_namespace_prefix(config, path[0].as_str(), path[1].as_str()) {
            print_namespace_prefix_help(lines, config, path[0].as_str(), path[1].as_str());
            return true;
        }
        return false;
    }
    false
}

/// The help screen of a command: its path (or the program name for the
/// root), its description, and its nested commands.
pub open spec fn command_help(path: Seq<Seq<char>>, command: CommandEntry, version: Seq<char>) -> Seq<Seq<char>> {
    let title = if path.len() == 0 {
        "Fire CLI v"@ + version
    } else {
        "Command: "@ + join(path, seq![' '])
    };
    let d = trim(command.description_text());
    seq![title] + (if d.len() > 0 {
        description_block(d)
    } else {
        Seq::empty()
    }) + section("Commands"@, subcommand_suggestions(command, Seq::empty()))
}

/// Appends the help screen of `command`, reached by `command_path`.
pub fn print_command_help(lines: &mut Vec<String>, command_path: &[String], command: &CommandEntry, version: &str)
    ensures
        texts(final(lines)@) == texts(old(lines)@) + command_help(texts(command_path@), *command, version@),
{
    let ghost start = texts(lines@);
    proof {
        reveal_strlit(" ");
        reveal_strlit("");
        assert(" "@ =~= seq![' ']);
        assert(""@ =~= Seq::<char>::empty());
    }
    if command_path.len() == 0 {
        let mut title = to_string("Fire CLI v");
        title.append(version);
        push_line(lines, title);
    } else {
        let mut title = to_string("Command: ");
        let joined = join_strings(command_path, " ");
        title.append(joined.as_str());
        push_line(lines, title);
    }
    let description = match command.description() {
        Some(d) => trim_str(d),
        None => trim_str(""),
    };
    if description.unicode_len() > 0 {
        print_description(lines, description);
    }
    let subcommands = command_subcommands(command);
    print_section(lines, "Commands", subcommands.as_slice());
    assert(texts(lines@) =~= start + command_help(texts(command_path@), *command, version@));
}

} // verus!
