//! The command tree that the MCP server describes, and the search over it.

use vstd::prelude::*;

use crate::config::{
    clone_strings, implicit_namespace, local_implicit_namespace, CommandEntry, FileConfig, FileScope, LoadedConfig,
    SourceKind,
};
use crate::completion::non_empty;
use crate::execute::opt_view;
use crate::strmap::StrMap;
use crate::text::{contains, contains_str, join, join_strings, non_empty_text, texts, to_string};

verus! {

/// One command of the tree: how it is invoked, where it comes from, what it
/// runs, and its nested commands.
#[derive(Debug)]
pub struct CommandNode {
    pub path: String,
    pub name: String,
    pub namespace: Option<String>,
    pub group: Option<String>,
    pub source: &'static str,
    pub description: Option<String>,
    pub runnable: bool,
    pub execute: Option<Vec<String>>,
    pub eval: Option<Vec<String>>,
    pub placeholder: Option<String>,
    pub subcommands: Vec<CommandNode>,
}

/// The command tree, with the notes that explain it.
#[derive(Debug)]
pub struct CommandContext {
    pub fire_version: String,
    pub implicit_local_namespace: Option<String>,
    pub notes: Vec<String>,
    pub commands: Vec<CommandNode>,
}

/// A command that a search found.
#[derive(Debug)]
pub struct CommandMatch {
    pub path: String,
    pub description: Option<String>,
    pub runnable: bool,
    pub execute: Option<Vec<String>>,
    pub eval: Option<Vec<String>>,
}

/// An optional list of strings, as texts.
pub open spec fn opt_texts(o: Option<Vec<String>>) -> Option<Seq<Seq<char>>> {
    match o {
        Some(v) => Some(texts(v@)),
        None => None,
    }
}

/// The nested commands of an entry, in the order of their names.
pub open spec fn sub_entries(entry: CommandEntry) -> Seq<(Seq<char>, CommandEntry)> {
    match entry.subcommands_of() {
        Some(m) => m@,
        None => Seq::empty(),
    }
}

/// The trimmed placeholder pattern of an entry, when it has one.
pub open spec fn placeholder_of(entry: CommandEntry) -> Option<Seq<char>> {
    match entry {
        CommandEntry::Spec(s) => non_empty_text(s.placeholder@),
        CommandEntry::Shorthand(_) => None,
    }
}

/// Whether `node` describes `entry`, named `name` and invoked by the words
/// `tokens`, and its nested commands in the same way.
pub open spec fn node_describes(
    node: CommandNode,
    tokens: Seq<Seq<char>>,
    name: Seq<char>,
    entry: CommandEntry,
    ns: Option<Seq<char>>,
    group: Option<Seq<char>>,
    source: Seq<char>,
) -> bool
    decreases node,
{
    &&& node.path@ == "fire "@ + join(tokens, seq![' '])
    &&& node.name@ == name
    &&& opt_view(node.namespace) == ns
    &&& opt_view(node.group) == group
    &&& node.source@ == source
    &&& opt_view(node.description) == non_empty_text(entry.description_text())
    &&& node.runnable == entry.runnable()
    &&& opt_texts(node.execute) == entry.execution_of()
    &&& opt_texts(node.eval) == entry.evaluation_of()
    &&& opt_view(node.placeholder) == placeholder_of(entry)
    &&& node.subcommands@.len() == sub_entries(entry).len()
    &&& forall|i: int|
        0 <= i < node.subcommands@.len() ==> node_describes(
            #[trigger] node.subcommands@[i],
            tokens.push(sub_entries(entry)[i].0),
            sub_entries(entry)[i].0,
            sub_entries(entry)[i].1,
            ns,
            group,
            source,
        )
}

/// The namespace and group labels of a scope.
pub open spec fn labels_of(scope: FileScope) -> (Option<Seq<char>>, Option<Seq<char>>) {
    match scope {
        FileScope::Root => (None, None),
        FileScope::Namespace { namespace, .. } => (Some(namespace@), None),
        FileScope::Group { group, .. } => (None, Some(group@)),
        FileScope::NamespaceGroup { namespace, group, .. } => (Some(namespace@), Some(group@)),
    }
}

/// The namespace and group labels of a scope.
pub fn scope_labels(scope: &FileScope) -> (r: (Option<String>, Option<String>))
    ensures
        (opt_view(r.0), opt_view(r.1)) == labels_of(*scope),
{
    match scope {
        FileScope::Root => (None, None),
        FileScope::Namespace { namespace, .. } => (Some(namespace.clone()), None),
        FileScope::Group { group, .. } => (None, Some(group.clone())),
        FileScope::NamespaceGroup { namespace, group, .. } => (Some(namespace.clone()), Some(group.clone())),
    }
}

fn opt_string(o: Option<&str>) -> (r: Option<String>)
    ensures
        opt_view(r) == match o {
            Some(s) => Some(s@),
            None => None,
        },
{
    match o {
        Some(s) => Some(to_string(s)),
        None => None,
    }
}

/// The node for `entry`, named `name` and invoked by the words `path_tokens`.
pub fn build_node(
    path_tokens: &Vec<String>,
    name: &str,
    entry: &CommandEntry,
    namespace: Option<&str>,
    group: Option<&str>,
    source: &'static str,
) -> (r: CommandNode)
    ensures
        node_describes(
            r,
            texts(path_tokens@),
            name@,
            *entry,
            match namespace {
                Some(s) => Some(s@),
                None => None,
            },
            match group {
                Some(s) => Some(s@),
                None => None,
            },
            source@,
        ),
    decreases entry,
{
    let ghost ns = match namespace {
        Some(s) => Some(s@),
        None => None,
    };
    let ghost gr = match group {
        Some(s) => Some(s@),
        None => None,
    };
    let ghost tokens = texts(path_tokens@);
    let mut subcommands: Vec<CommandNode> = Vec::new();
    if let Some(map) = entry.subcommands() {
        assert(sub_entries(*entry) == map@);
        let mut i: usize = 0;
        while i < map.len()
            invariant
                tokens == texts(path_tokens@),
                ns == match namespace {
                    Some(s) => Some(s@),
                    None => None,
                },
                gr == match group {
                    Some(s) => Some(s@),
                    None => None,
                },
                entry.subcommands_of() == Some(*map),
                sub_entries(*entry) == map@,
                i <= map@.len(),
                subcommands@.len() == i,
                forall|j: int|
                    0 <= j < i ==> node_describes(
                        #[trigger] subcommands@[j],
                        tokens.push(sub_entries(*entry)[j].0),
                        sub_entries(*entry)[j].0,
                        sub_entries(*entry)[j].1,
                        ns,
                        gr,
                        source@,
                    ),
            decreases map@.len() - i,
        {
            let sub_name = map.key_at(i);
            let sub_entry = map.value_at(i);
            let mut sub_path = clone_strings(path_tokens);
            sub_path.push(sub_name.clone());
            assert(texts(sub_path@) =~= tokens.push(map@[i as int].0)) by {
                assert(texts(path_tokens@) =~= path_tokens.deep_view());
            }
            proof {
                map.lemma_value_decreases(i as int);
                assert(decreases_to!(*entry => *map));
            }
            let node = build_node(&sub_path, sub_name.as_str(), sub_entry, namespace, group, source);
            let ghost before = subcommands@;
            subcommands.push(node);
            assert(subcommands@ =~= before.push(node));
            i = i + 1;
        }
    }
    let mut path = to_string("fire ");
    let joined = join_strings(path_tokens.as_slice(), " ");
    path.append(joined.as_str());
    proof {
        reveal_strlit(" ");
        assert(" "@ =~= seq![' ']);
    }
    let description = match entry.description() {
        Some(d) => non_empty(d),
        None => non_empty(""),
    };
    proof {
        reveal_strlit("");
        assert(""@ =~= Seq::<char>::empty());
    }
    let placeholder = match entry.spec() {
        Some(spec) => non_empty(spec.placeholder.as_str()),
        None => None,
    };
    assert(path@ == "fire "@ + join(tokens, seq![' ']));
    let execute = entry.execution_commands();
    let eval = entry.evaluation_expressions();
    proof {
        if execute is Some {
            assert(texts(execute->0@) =~= execute->0.deep_view());
        }
        if eval is Some {
            assert(texts(eval->0@) =~= eval->0.deep_view());
        }
    }
    let node = CommandNode {
        path,
        name: to_string(name),
        namespace: opt_string(namespace),
        group: opt_string(group),
        source,
        description,
        runnable: entry.is_runnable(),
        execute,
        eval,
        placeholder,
        subcommands,
    };
    assert(opt_view(node.description) == non_empty_text(entry.description_text()));
    assert(opt_view(node.placeholder) == placeholder_of(*entry));
    assert(node.subcommands@.len() == sub_entries(*entry).len());
    node
}

/// The label of a file's source.
pub open spec fn source_label(source: SourceKind) -> Seq<char> {
    match source {
        SourceKind::Local => "local"@,
        SourceKind::Global => "global"@,
    }
}

/// The text of an optional label, as a list of at most one word.
pub open spec fn label_words(o: Option<Seq<char>>) -> Seq<Seq<char>> {
    match o {
        Some(x) => seq![x],
        None => Seq::empty(),
    }
}

/// The top-level commands of a file: for each command, the words that
/// invoke it (the file's namespace and group, then its name), the entry,
/// the labels and the source.
pub open spec fn file_roots(f: FileConfig) -> Seq<
    (Seq<Seq<char>>, CommandEntry, Option<Seq<char>>, Option<Seq<char>>, Seq<char>),
> {
    let (ns, g) = labels_of(f.scope);
    let prefix = label_words(ns) + label_words(g);
    f.commands@.map_values(
        |e: (Seq<char>, CommandEntry)| (prefix.push(e.0), e.1, ns, g, source_label(f.source)),
    )
}

/// The top-level commands of the first `n` files, file after file.
pub open spec fn roots_of(files: Seq<FileConfig>, n: int) -> Seq<
    (Seq<Seq<char>>, CommandEntry, Option<Seq<char>>, Option<Seq<char>>, Seq<char>),
>
    decreases n,
{
    if n <= 0 {
        Seq::empty()
    } else {
        roots_of(files, n - 1) + file_roots(files[n - 1])
    }
}

/// The notes that explain the command tree.
pub open spec fn context_notes() -> Seq<Seq<char>> {
    seq![
        "`path` is the canonical invocation, e.g. `fire backend logs`. Run it directly in a shell."@,
        "When a single local namespace is active (see `implicit_local_namespace`), its prefix token can be omitted."@,
        "Nodes with `runnable: false` are command groups; invoke one of their `subcommands` instead."@,
        "`exec`/`eval` show the underlying template(s) a command runs, for context only \u{2014} invoke via `fire <path>`, not by copying these templates."@,
    ]
}

/// The command tree of the configuration, for version `version`.
pub fn build_command_context(config: &LoadedConfig, version: &str) -> (r: CommandContext)
    ensures
        r.fire_version@ == version@,
        opt_view(r.implicit_local_namespace) == implicit_namespace(config.files@),
        texts(r.notes@) == context_notes(),
        r.commands@.len() == roots_of(config.files@, config.files@.len() as int).len(),
        forall|i: int|
            0 <= i < r.commands@.len() ==> {
                let root = roots_of(config.files@, config.files@.len() as int)[i];
                node_describes(#[trigger] r.commands@[i], root.0, root.0.last(), root.1, root.2, root.3, root.4)
            },
{
    let ghost files = config.files@;
    let implicit_local_namespace = local_implicit_namespace(config);
    let mut commands: Vec<CommandNode> = Vec::new();
    let mut i: usize = 0;
    while i < config.files.len()
        invariant
            files == config.files@,
            i <= files.len(),
            commands@.len() == roots_of(files, i as int).len(),
            forall|k: int|
                0 <= k < commands@.len() ==> {
                    let root = roots_of(files, i as int)[k];
                    node_describes(#[trigger] commands@[k], root.0, root.0.last(), root.1, root.2, root.3, root.4)
                },
        decreases files.len() - i,
    {
        let file = &config.files[i];
        let source: &'static str = match file.source {
            SourceKind::Local => "local",
            SourceKind::Global => "global",
        };
        let (namespace, group) = scope_labels(&file.scope);
        let mut scope_prefix: Vec<String> = Vec::new();
        if let Some(n) = &namespace {
            scope_prefix.push(n.clone());
        }
        if let Some(g) = &group {
            scope_prefix.push(g.clone());
        }
        let ghost labels = labels_of(file.scope);
        let ghost prefix = label_words(labels.0) + label_words(labels.1);
        assert(texts(scope_prefix@) =~= prefix);
        let ghost fr = file_roots(*file);
        let ghost base = roots_of(files, i as int);
        let ghost base_len = commands@.len();
        let mut j: usize = 0;
        while j < file.commands.len()
            invariant
                files == config.files@,
                i < files.len(),
                *file == files[i as int],
                fr == file_roots(*file),
                base == roots_of(files, i as int),
                base_len == base.len(),
                texts(scope_prefix@) == prefix,
                prefix == label_words(labels_of(file.scope).0) + label_words(labels_of(file.scope).1),
                source@ == source_label(file.source),
                (opt_view(namespace), opt_view(group)) == labels_of(file.scope),
                j <= file.commands@.len(),
                commands@.len() == base_len + j,
                forall|k: int|
                    0 <= k < commands@.len() ==> {
                        let root = (base + fr)[k];
                        node_describes(#[trigger] commands@[k], root.0, root.0.last(), root.1, root.2, root.3, root.4)
                    },
            decreases file.commands@.len() - j,
        {
            let name = file.commands.key_at(j);
            let mut path_tokens = clone_strings(&scope_prefix);
            path_tokens.push(name.clone());
            assert(texts(path_tokens@) =~= prefix.push(name@)) by {
                assert(texts(scope_prefix@) =~= scope_prefix.deep_view());
            }
            let ns_ref: Option<&str> = match &namespace {
                Some(n) => Some(n.as_str()),
                None => None,
            };
            let group_ref: Option<&str> = match &group {
                Some(g) => Some(g.as_str()),
                None => None,
            };
            let node = build_node(&path_tokens, name.as_str(), file.commands.value_at(j), ns_ref, group_ref, source);
            let ghost before = commands@;
            commands.push(node);
            assert(commands@ =~= before.push(node));
            assert((base + fr)[base_len + j] == fr[j as int]);
            j = j + 1;
        }
        assert(roots_of(files, i + 1) == base + fr);
        i = i + 1;
    }
    let mut notes: Vec<String> = Vec::new();
    notes.push(to_string("`path` is the canonical invocation, e.g. `fire backend logs`. Run it directly in a shell."));
    notes.push(
        to_string(
            "When a single local namespace is active (see `implicit_local_namespace`), its prefix token can be omitted.",
        ),
    );
    notes.push(
        to_string("Nodes with `runnable: false` are command groups; invoke one of their `subcommands` instead."),
    );
    notes.push(
        to_string(
            "`exec`/`eval` show the underlying template(s) a command runs, for context only \u{2014} invoke via `fire <path>`, not by copying these templates.",
        ),
    );
    assert(texts(notes@) =~= context_notes());
    CommandContext { fire_version: to_string(version), implicit_local_namespace, notes, commands }
}

/// The lower-case form of a text, as `str::to_lowercase` gives it.
pub uninterp spec fn lowercase(s: Seq<char>) -> Seq<char>;

/// `str::to_lowercase`: the contract claims only that the result is the
/// lower-case form `lowercase(s@)`, a function of `s` alone; which
/// characters change, and how, is left unsaid.
#[verifier::external_body]
fn to_lowercase(s: &str) -> (r: String)
    ensures
        r@ == lowercase(s@),
{
    s.to_lowercase()
}

/// Whether some text of `ls` holds `needle`.
pub open spec fn some_text_holds(ls: Seq<Seq<char>>, needle: Seq<char>) -> bool {
    exists|i: int| 0 <= i < ls.len() && contains(#[trigger] ls[i], needle)
}

/// Whether texts that are already in lower case match the lower-case
/// `needle`: always for an empty needle, else when the path, the
/// description or one of the lines holds it.
pub open spec fn lowered_hit(
    path: Seq<char>,
    description: Option<Seq<char>>,
    lines: Seq<Seq<char>>,
    needle: Seq<char>,
) -> bool {
    ||| needle.len() == 0
    ||| contains(path, needle)
    ||| (match description {
        Some(d) => contains(d, needle),
        None => false,
    })
    ||| some_text_holds(lines, needle)
}

/// The lines of `o` in lower case; none where there are none.
pub open spec fn lowered_lines(o: Option<Seq<Seq<char>>>) -> Seq<Seq<char>> {
    match o {
        Some(ls) => ls.map_values(|l: Seq<char>| lowercase(l)),
        None => Seq::empty(),
    }
}

/// The description of a node in lower case.
pub open spec fn lowered_description(node: CommandNode) -> Option<Seq<char>> {
    match node.description {
        Some(d) => Some(lowercase(d@)),
        None => None,
    }
}

/// Whether a node matches the lower-case `needle`: its path, description,
/// `exec` lines and `eval` lines, each in lower case, are matched as
/// `lowered_hit` says.
pub open spec fn node_hit(node: CommandNode, needle: Seq<char>) -> bool {
    lowered_hit(
        lowercase(node.path@),
        lowered_description(node),
        lowered_lines(opt_texts(node.execute)) + lowered_lines(opt_texts(node.eval)),
        needle,
    )
}

/// Whether texts already in lower case match the lower-case `needle`, as
/// `lowered_hit` says.
pub fn lowered_texts_match(path: &str, description: &Option<String>, lines: &Vec<String>, needle: &str) -> (r:
    bool)
    ensures
        r == lowered_hit(path@, opt_view(*description), texts(lines@), needle@),
{
    if needle.unicode_len() == 0 {
        return true;
    }
    if contains_str(path, needle) {
        return true;
    }
    if let Some(d) = description {
        if contains_str(d.as_str(), needle) {
            return true;
        }
    }
    let ghost tv = texts(lines@);
    let mut i: usize = 0;
    while i < lines.len()
        invariant
            tv == texts(lines@),
            i <= tv.len(),
            forall|k: int| 0 <= k < i ==> !contains(#[trigger] tv[k], needle@),
        decreases tv.len() - i,
    {
        if contains_str(lines[i].as_str(), needle) {
            assert(contains(tv[i as int], needle@));
            return true;
        }
        i = i + 1;
    }
    false
}

/// Appends the lines of `o`, each in lower case.
fn push_lowered_lines(o: &Option<Vec<String>>, out: &mut Vec<String>)
    ensures
        texts(final(out)@) == texts(old(out)@) + lowered_lines(opt_texts(*o)),
{
    match o {
        None => {
            assert(texts(out@) =~= texts(out@) + lowered_lines(opt_texts(*o)));
        },
        Some(ls) => {
            let ghost start = texts(out@);
            let ghost low = lowered_lines(opt_texts(*o));
            let mut i: usize = 0;
            while i < ls.len()
                invariant
                    low == texts(ls@).map_values(|l: Seq<char>| lowercase(l)),
                    i <= ls.len(),
                    texts(out@) == start + low.take(i as int),
                decreases ls.len() - i,
            {
                let lower = to_lowercase(ls[i].as_str());
                let ghost before = out@;
                out.push(lower);
                assert(texts(out@) =~= texts(before).push(lowercase(ls@[i as int]@)));
                assert(low.take(i + 1) =~= low.take(i as int).push(low[i as int]));
                assert(texts(out@) =~= start + low.take(i + 1));
                i = i + 1;
            }
            assert(low.take(ls.len() as int) =~= low);
        },
    }
}

/// Whether the node matches the lower-case `needle`.
pub fn node_matches(node: &CommandNode, needle: &str) -> (r: bool)
    ensures
        r == node_hit(*node, needle@),
{
    let path = to_lowercase(node.path.as_str());
    let description = match &node.description {
        Some(d) => Some(to_lowercase(d.as_str())),
        None => None,
    };
    assert(opt_view(description) == lowered_description(*node));
    let mut lines: Vec<String> = Vec::new();
    assert(texts(lines@) =~= Seq::<Seq<char>>::empty());
    push_lowered_lines(&node.execute, &mut lines);
    push_lowered_lines(&node.eval, &mut lines);
    assert(texts(lines@) =~= lowered_lines(opt_texts(node.execute)) + lowered_lines(opt_texts(node.eval)));
    lowered_texts_match(path.as_str(), &description, &lines, needle)
}

/// A match as text.
pub open spec fn match_view(m: CommandMatch) -> (
    Seq<char>,
    Option<Seq<char>>,
    bool,
    Option<Seq<Seq<char>>>,
    Option<Seq<Seq<char>>>,
) {
    (m.path@, opt_view(m.description), m.runnable, opt_texts(m.execute), opt_texts(m.eval))
}

/// The match that a node gives, as text.
pub open spec fn node_match(node: CommandNode) -> (
    Seq<char>,
    Option<Seq<char>>,
    bool,
    Option<Seq<Seq<char>>>,
    Option<Seq<Seq<char>>>,
) {
    (node.path@, opt_view(node.description), node.runnable, opt_texts(node.execute), opt_texts(node.eval))
}

/// Matches as text.
pub open spec fn match_views(v: Seq<CommandMatch>) -> Seq<
    (Seq<char>, Option<Seq<char>>, bool, Option<Seq<Seq<char>>>, Option<Seq<Seq<char>>>),
> {
    v.map_values(|m: CommandMatch| match_view(m))
}

/// The matches in the tree below `node`, itself first, in the order of the
/// tree.
pub open spec fn matches_below(node: CommandNode, needle: Seq<char>) -> Seq<
    (Seq<char>, Option<Seq<char>>, bool, Option<Seq<Seq<char>>>, Option<Seq<Seq<char>>>),
>
    decreases node, 1int,
{
    (if node_hit(node, needle) {
        seq![node_match(node)]
    } else {
        Seq::empty()
    }) + matches_among(node.subcommands@, needle)
}

/// The matches in the trees of `nodes`, one tree after the other.
pub open spec fn matches_among(nodes: Seq<CommandNode>, needle: Seq<char>) -> Seq<
    (Seq<char>, Option<Seq<char>>, bool, Option<Seq<Seq<char>>>, Option<Seq<Seq<char>>>),
>
    decreases nodes, 0int,
{
    if nodes.len() == 0 {
        Seq::empty()
    } else {
        matches_among(nodes.drop_last(), needle) + matches_below(nodes.last(), needle)
    }
}

fn copy_lines(o: &Option<Vec<String>>) -> (r: Option<Vec<String>>)
    ensures
        opt_texts(r) == opt_texts(*o),
{
    match o {
        Some(v) => {
            let c = clone_strings(v);
            assert(texts(c@) =~= texts(v@)) by {
                assert(texts(c@) =~= c.deep_view());
                assert(texts(v@) =~= v.deep_view());
            }
            Some(c)
        },
        None => None,
    }
}

/// Appends the matches in the tree below `node`.
pub fn collect_matches(node: &CommandNode, needle: &str, out: &mut Vec<CommandMatch>)
    ensures
        match_views(final(out)@) == match_views(old(out)@) + matches_below(*node, needle@),
    decreases node,
{
    let ghost start = match_views(out@);
    if node_matches(node, needle) {
        let m = CommandMatch {
            path: node.path.clone(),
            description: match &node.description {
                Some(d) => Some(d.clone()),
                None => None,
            },
            runnable: node.runnable,
            execute: copy_lines(&node.execute),
            eval: copy_lines(&node.eval),
        };
        let ghost before = match_views(out@);
        out.push(m);
        assert(match_views(out@) =~= before.push(node_match(*node)));
    }
    let ghost head = match_views(out@);
    assert(head == start + (if node_hit(*node, needle@) {
        seq![node_match(*node)]
    } else {
        Seq::empty()
    }));
    let ghost subs = node.subcommands@;
    let mut i: usize = 0;
    assert(head + matches_among(subs.take(0), needle@) =~= head);
    while i < node.subcommands.len()
        invariant
            subs == node.subcommands@,
            i <= subs.len(),
            match_views(out@) == head + matches_among(subs.take(i as int), needle@),
        decreases subs.len() - i,
    {
        proof {
            assert(decreases_to!(*node => node.subcommands));
            assert(decreases_to!(node.subcommands => node.subcommands@));
            assert(decreases_to!(node.subcommands@ => node.subcommands@[i as int]));
        }
        collect_matches(&node.subcommands[i], needle, out);
        assert(subs.take(i + 1).drop_last() =~= subs.take(i as int));
        assert(subs.take(i + 1).last() == subs[i as int]);
        i = i + 1;
    }
    assert(subs.take(subs.len() as int) =~= subs);
}

/// The commands of the tree that match `query`, compared in lower case.
pub fn search_context(context: &CommandContext, query: &str) -> (r: Vec<CommandMatch>)
    ensures
        match_views(r@) == matches_among(context.commands@, lowercase(query@)),
{
    let needle = to_lowercase(query);
    let mut out: Vec<CommandMatch> = Vec::new();
    let ghost nodes = context.commands@;
    let mut i: usize = 0;
    assert(match_views(out@) =~= matches_among(nodes.take(0), needle@));
    while i < context.commands.len()
        invariant
            nodes == context.commands@,
            i <= nodes.len(),
            match_views(out@) == matches_among(nodes.take(i as int), needle@),
        decreases nodes.len() - i,
    {
        collect_matches(&context.commands[i], needle.as_str(), &mut out);
        assert(nodes.take(i + 1).drop_last() =~= nodes.take(i as int));
        assert(nodes.take(i + 1).last() == nodes[i as int]);
        i = i + 1;
    }
    assert(nodes.take(nodes.len() as int) =~= nodes);
    out
}

} // verus!
