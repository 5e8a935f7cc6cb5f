//! The configuration model: command entries, file scopes, and the rules that
//! give each configuration file its scope.

use vstd::prelude::*;

use crate::paths::{
    file_name_of, include_path, join_path, joined_path, keyed_paths, normalize_relative_include_path, path_file_name,
    sorted_paths,
};
use crate::strmap::{entry_values, str_equal, StrMap};
use crate::text::{ascii_lower, is_ascii_alnum, is_ascii_alphanumeric, push_char, to_ascii_lowercase, to_string, trim, trim_str};

verus! {

/// Where a configuration file was found.
#[derive(Clone, Copy, Debug, PartialEq, Eq, Structural)]
pub enum SourceKind {
    /// The project the runner was started in.
    Local,
    /// A directory installed for global use.
    Global,
}

/// The path prefix under which a file's commands are invoked.
#[derive(Clone, Debug)]
pub enum FileScope {
    Root,
    Namespace { namespace: String, namespace_description: String },
    Group { group: String, group_description: String },
    NamespaceGroup {
        namespace: String,
        namespace_description: String,
        group: String,
        group_description: String,
    },
}

/// One shell command, or several run in order.
#[derive(Clone, Debug)]
pub enum CommandAction {
    Single(String),
    Multiple(Vec<String>),
}

/// A full command specification.
#[derive(Debug)]
pub struct CommandSpec {
    pub description: String,
    pub before: String,
    pub placeholder: String,
    pub on_unused_args: String,
    pub compute: StrMap<String>,
    pub macros: StrMap<String>,
    pub dir: String,
    pub check: String,
    pub runner: String,
    pub fallback_runner: String,
    pub execute: Option<CommandAction>,
    pub run: Option<CommandAction>,
    pub eval: Option<CommandAction>,
    pub commands: StrMap<CommandEntry>,
}

impl Default for CommandSpec {
    /// A spec that sets nothing.
    fn default() -> (s: Self)
        ensures
            s.description@ == Seq::<char>::empty(),
            s.before@ == Seq::<char>::empty(),
            s.placeholder@ == Seq::<char>::empty(),
            s.on_unused_args@ == Seq::<char>::empty(),
            s.compute@ == Seq::<(Seq<char>, String)>::empty(),
            s.macros@ == Seq::<(Seq<char>, String)>::empty(),
            s.dir@ == Seq::<char>::empty(),
            s.check@ == Seq::<char>::empty(),
            s.runner@ == Seq::<char>::empty(),
            s.fallback_runner@ == Seq::<char>::empty(),
            s.execute is None,
            s.run is None,
            s.eval is None,
            s.commands@ == Seq::<(Seq<char>, CommandEntry)>::empty(),
    {
        CommandSpec {
            description: String::new(),
            before: String::new(),
            placeholder: String::new(),
            on_unused_args: String::new(),
            compute: StrMap::new(),
            macros: StrMap::new(),
            dir: String::new(),
            check: String::new(),
            runner: String::new(),
            fallback_runner: String::new(),
            execute: None,
            run: None,
            eval: None,
            commands: StrMap::new(),
        }
    }
}

/// A command: a shell command written as a plain string, or a full spec.
#[derive(Debug)]
pub enum CommandEntry {
    Shorthand(String),
    Spec(CommandSpec),
}

/// A runtime for `eval` and `compute` expressions.
#[derive(Debug)]
pub struct RuntimeConfig {
    pub sdk: String,
    pub runner: String,
    pub check: String,
    pub fallback_runner: String,
    pub paths: Vec<String>,
}

impl Default for RuntimeConfig {
    /// A runtime that sets nothing.
    fn default() -> (r: Self)
        ensures
            r.sdk@ == Seq::<char>::empty(),
            r.runner@ == Seq::<char>::empty(),
            r.check@ == Seq::<char>::empty(),
            r.fallback_runner@ == Seq::<char>::empty(),
            r.paths@ == Seq::<String>::empty(),
    {
        RuntimeConfig {
            sdk: String::new(),
            runner: String::new(),
            check: String::new(),
            fallback_runner: String::new(),
            paths: Vec::new(),
        }
    }
}

/// One loaded configuration file.
#[derive(Debug)]
pub struct FileConfig {
    pub source: SourceKind,
    pub project_dir: String,
    pub config_path: String,
    pub scope: FileScope,
    pub runtimes: StrMap<RuntimeConfig>,
    pub commands: StrMap<CommandEntry>,
}

/// All loaded configuration files, in load order.
#[derive(Debug)]
pub struct LoadedConfig {
    pub files: Vec<FileConfig>,
}

/// A copy of the strings of `v`.
pub fn clone_strings(v: &Vec<String>) -> (r: Vec<String>)
    ensures
        r.deep_view() == v.deep_view(),
{
    let mut r: Vec<String> = Vec::new();
    let mut i: usize = 0;
    while i < v.len()
        invariant
            i <= v@.len(),
            r.deep_view() =~= v.deep_view().subrange(0, i as int),
        decreases v@.len() - i,
    {
        let ghost before = r.deep_view();
        r.push(v[i].clone());
        assert(r.deep_view() =~= before.push(v[i as int]@));
        i = i + 1;
    }
    r
}

impl CommandAction {
    /// The commands of this action, in order.
    pub open spec fn commands(&self) -> Seq<Seq<char>> {
        match self {
            CommandAction::Single(c) => seq![c@],
            CommandAction::Multiple(cs) => cs.deep_view(),
        }
    }

    /// The commands of this action, in order.
    pub fn as_vec(&self) -> (r: Vec<String>)
        ensures
            r.deep_view() == self.commands(),
    {
        match self {
            CommandAction::Single(c) => {
                let mut v: Vec<String> = Vec::new();
                v.push(c.clone());
                assert(v.deep_view() =~= seq![c@]);
                v
            },
            CommandAction::Multiple(cs) => clone_strings(cs),
        }
    }
}

impl CommandSpec {
    /// The shell commands that the spec runs: `exec`, or else `run`.
    pub open spec fn shell_action(&self) -> Option<CommandAction> {
        match self.execute {
            Some(a) => Some(a),
            None => self.run,
        }
    }
}

impl CommandEntry {
    /// The description, for a full spec.
    pub open spec fn description_of(&self) -> Option<Seq<char>> {
        match self {
            CommandEntry::Shorthand(_) => None,
            CommandEntry::Spec(spec) => Some(spec.description@),
        }
    }

    /// The description of a full spec; a shorthand has none.
    pub fn description(&self) -> (r: Option<&str>)
        ensures
            r matches Some(d) ==> self.description_of() == Some(d@),
            r is None ==> self.description_of() is None,
    {
        match self {
            CommandEntry::Shorthand(_) => None,
            CommandEntry::Spec(spec) => Some(spec.description.as_str()),
        }
    }

    /// The description, or the empty text.
    pub open spec fn description_text(&self) -> Seq<char> {
        match self.description_of() {
            Some(d) => d,
            None => Seq::empty(),
        }
    }

    /// The shell commands that the entry runs.
    pub open spec fn execution_of(&self) -> Option<Seq<Seq<char>>> {
        match self {
            CommandEntry::Shorthand(value) => Some(seq![value@]),
            CommandEntry::Spec(spec) => match spec.shell_action() {
                Some(a) => Some(a.commands()),
                None => None,
            },
        }
    }

    /// The shell commands that the entry runs: the shorthand itself, or the
    /// spec's `exec`, or else its `run`.
    pub fn execution_commands(&self) -> (r: Option<Vec<String>>)
        ensures
            r matches Some(v) ==> self.execution_of() == Some(v.deep_view()),
            r is None ==> self.execution_of() is None,
    {
        match self {
            CommandEntry::Shorthand(value) => {
                let mut v: Vec<String> = Vec::new();
                v.push(value.clone());
                assert(v.deep_view() =~= seq![value@]);
                Some(v)
            },
            CommandEntry::Spec(spec) => match &spec.execute {
                Some(a) => Some(a.as_vec()),
                None => match &spec.run {
                    Some(a) => Some(a.as_vec()),
                    None => None,
                },
            },
        }
    }

    /// Whether the entry does anything when invoked.
    pub open spec fn runnable(&self) -> bool {
        match self {
            CommandEntry::Shorthand(_) => true,
            CommandEntry::Spec(spec) => spec.execute is Some || spec.run is Some || spec.eval is Some,
        }
    }

    /// Whether the entry does anything when invoked: a shorthand, or a spec
    /// with `exec`, `run` or `eval`.
    pub fn is_runnable(&self) -> (r: bool)
        ensures
            r == self.runnable(),
    {
        match self {
            CommandEntry::Shorthand(_) => true,
            CommandEntry::Spec(spec) => spec.execute.is_some() || spec.run.is_some()
                || spec.eval.is_some(),
        }
    }

    /// The nested commands, for a full spec.
    pub open spec fn subcommands_of(&self) -> Option<StrMap<CommandEntry>> {
        match self {
            CommandEntry::Shorthand(_) => None,
            CommandEntry::Spec(spec) => Some(spec.commands),
        }
    }

    /// The nested commands of a full spec; a shorthand has none.
    pub fn subcommands(&self) -> (r: Option<&StrMap<CommandEntry>>)
        ensures
            r matches Some(m) ==> self.subcommands_of() == Some(*m),
            r is None ==> self.subcommands_of() is None,
    {
        match self {
            CommandEntry::Shorthand(_) => None,
            CommandEntry::Spec(spec) => Some(&spec.commands),
        }
    }

    /// The runtime expressions that the entry evaluates.
    pub open spec fn evaluation_of(&self) -> Option<Seq<Seq<char>>> {
        match self {
            CommandEntry::Shorthand(_) => None,
            CommandEntry::Spec(spec) => match spec.eval {
                Some(a) => Some(a.commands()),
                None => None,
            },
        }
    }

    /// The `eval` expressions of a full spec.
    pub fn evaluation_expressions(&self) -> (r: Option<Vec<String>>)
        ensures
            r matches Some(v) ==> self.evaluation_of() == Some(v.deep_view()),
            r is None ==> self.evaluation_of() is None,
    {
        match self {
            CommandEntry::Shorthand(_) => None,
            CommandEntry::Spec(spec) => match &spec.eval {
                Some(a) => Some(a.as_vec()),
                None => None,
            },
        }
    }

    /// The full spec, if the entry is one.
    pub fn spec(&self) -> (r: Option<&CommandSpec>)
        ensures
            r matches Some(s) ==> *self == CommandEntry::Spec(*s),
            r is None ==> self is Shorthand,
    {
        match self {
            CommandEntry::Shorthand(_) => None,
            CommandEntry::Spec(spec) => Some(spec),
        }
    }
}

impl FileScope {
    /// The namespace of a namespaced scope.
    pub open spec fn namespace_of(&self) -> Option<Seq<char>> {
        match self {
            FileScope::Namespace { namespace, .. } => Some(namespace@),
            FileScope::NamespaceGroup { namespace, .. } => Some(namespace@),
            _ => None,
        }
    }
}

/// The namespace of `f`, when it is a local file with a namespaced scope.
pub open spec fn local_namespace_of(f: FileConfig) -> Option<Seq<char>> {
    if f.source == SourceKind::Local {
        f.scope.namespace_of()
    } else {
        None
    }
}

/// The namespace that may be left out of invocations: the one namespace of
/// the local files, when they have exactly one.
pub open spec fn implicit_namespace(files: Seq<FileConfig>) -> Option<Seq<char>> {
    if exists|i: int| 0 <= i < files.len() && local_namespace_of(#[trigger] files[i]) is Some {
        let i = choose|i: int| 0 <= i < files.len() && local_namespace_of(#[trigger] files[i]) is Some;
        let n = local_namespace_of(files[i]).unwrap();
        if forall|j: int| 0 <= j < files.len() && local_namespace_of(#[trigger] files[j]) is Some
            ==> local_namespace_of(files[j]) == Some(n) {
            Some(n)
        } else {
            None
        }
    } else {
        None
    }
}

fn scope_namespace(scope: &FileScope) -> (r: Option<&String>)
    ensures
        r matches Some(n) ==> scope.namespace_of() == Some(n@),
        r is None ==> scope.namespace_of() is None,
{
    match scope {
        FileScope::Namespace { namespace, .. } => Some(namespace),
        FileScope::NamespaceGroup { namespace, .. } => Some(namespace),
        _ => None,
    }
}

/// The single namespace among the local files, if there is exactly one.
pub fn local_implicit_namespace(config: &LoadedConfig) -> (r: Option<String>)
    ensures
        r matches Some(n) ==> implicit_namespace(config.files@) == Some(n@),
        r is None ==> implicit_namespace(config.files@) is None,
{
    let ghost files = config.files@;
    let mut found: Option<&String> = None;
    let mut i: usize = 0;
    while i < config.files.len()
        invariant
            files == config.files@,
            i <= files.len(),
            found is None ==> forall|j: int| 0 <= j < i ==> local_namespace_of(#[trigger] files[j]) is None,
            found matches Some(n) ==> (exists|j: int| 0 <= j < i && local_namespace_of(#[trigger] files[j]) == Some(n@))
                && forall|j: int| 0 <= j < i && local_namespace_of(#[trigger] files[j]) is Some ==> local_namespace_of(files[j]) == Some(n@),
        decreases files.len() - i,
    {
        let file = &config.files[i];
        if file.source == SourceKind::Local {
            if let Some(ns) = scope_namespace(&file.scope) {
                match found {
                    None => {
                        found = Some(ns);
                    },
                    Some(f) => {
                        if !str_equal(f.as_str(), ns.as_str()) {
                            proof {
                                let j = choose|j: int| 0 <= j < i && local_namespace_of(#[trigger] files[j]) == Some(f@);
                                let k = choose|k: int| 0 <= k < files.len() && local_namespace_of(#[trigger] files[k]) is Some;
                                let n = local_namespace_of(files[k]).unwrap();
                                assert(local_namespace_of(files[i as int]) == Some(ns@));
                                if n != f@ {
                                    assert(!(local_namespace_of(files[j]) == Some(n)));
                                } else {
                                    assert(!(local_namespace_of(files[i as int]) == Some(n)));
                                }
                            }
                            return None;
                        }
                    },
                }
            }
        }
        i = i + 1;
    }
    match found {
        None => None,
        Some(f) => {
            proof {
                let k = choose|k: int| 0 <= k < files.len() && local_namespace_of(#[trigger] files[k]) is Some;
                assert(local_namespace_of(files[k]) == Some(f@));
            }
            Some(f.clone())
        },
    }
}

/// The `namespace` table of a configuration file.
#[derive(Debug)]
pub struct NamespaceRaw {
    pub prefix: String,
    pub description: String,
}

/// A configuration file as written: its group and the group's description,
/// its namespace, its includes, its runtimes and its commands.
#[derive(Debug)]
pub struct FireFileRaw {
    pub group: String,
    pub description: String,
    pub namespace: Option<NamespaceRaw>,
    pub includes: Vec<String>,
    pub runtimes: StrMap<RuntimeConfig>,
    pub commands: StrMap<CommandEntry>,
}

impl Default for FireFileRaw {
    /// A file that declares nothing.
    fn default() -> (r: Self)
        ensures
            r.group@ == Seq::<char>::empty(),
            r.description@ == Seq::<char>::empty(),
            r.namespace is None,
            r.includes@ == Seq::<String>::empty(),
            r.runtimes@ == Seq::<(Seq<char>, RuntimeConfig)>::empty(),
            r.commands@ == Seq::<(Seq<char>, CommandEntry)>::empty(),
    {
        FireFileRaw {
            group: String::new(),
            description: String::new(),
            namespace: None,
            includes: Vec::new(),
            runtimes: StrMap::new(),
            commands: StrMap::new(),
        }
    }
}

/// A configuration file read from `path`.
#[derive(Debug)]
pub struct ParsedFireFile {
    pub path: String,
    pub raw: FireFileRaw,
}

/// A namespace that files of a directory share.
#[derive(Debug)]
pub struct NamespaceScope {
    pub prefix: String,
    pub description: String,
}

/// The namespace prefix and description that a file's scope gets: the
/// forced namespace when there is one; else the file's own prefix when it
/// is not blank, or else the default, with the file's own description.
pub open spec fn raw_namespace(
    raw: FireFileRaw,
    default_prefix: Option<Seq<char>>,
    forced: Option<(Seq<char>, Seq<char>)>,
) -> (Seq<char>, Seq<char>) {
    match forced {
        Some(f) => f,
        None => {
            let own = match raw.namespace {
                Some(n) => trim(n.prefix@),
                None => Seq::empty(),
            };
            let prefix = if own.len() > 0 {
                own
            } else {
                match default_prefix {
                    Some(d) => d,
                    None => Seq::empty(),
                }
            };
            let description = match raw.namespace {
                Some(n) => trim(n.description@),
                None => Seq::empty(),
            };
            (prefix, description)
        },
    }
}

/// The scope as text: the namespace and its description, and the group
/// and its description (empty when absent).
pub open spec fn scope_view(scope: FileScope) -> (Seq<char>, Seq<char>, Seq<char>, Seq<char>) {
    match scope {
        FileScope::Root => (Seq::empty(), Seq::empty(), Seq::empty(), Seq::empty()),
        FileScope::Namespace { namespace, namespace_description } => (
            namespace@,
            namespace_description@,
            Seq::empty(),
            Seq::empty(),
        ),
        FileScope::Group { group, group_description } => (Seq::empty(), Seq::empty(), group@, group_description@),
        FileScope::NamespaceGroup { namespace, namespace_description, group, group_description } => (
            namespace@,
            namespace_description@,
            group@,
            group_description@,
        ),
    }
}

/// The scope of a file: it has a namespace when the prefix is not empty,
/// and a group when its trimmed group is not empty.
pub open spec fn scope_of_raw(
    raw: FireFileRaw,
    default_prefix: Option<Seq<char>>,
    forced: Option<(Seq<char>, Seq<char>)>,
    scope: FileScope,
) -> bool {
    let (prefix, description) = raw_namespace(raw, default_prefix, forced);
    let group = trim(raw.group@);
    let group_description = trim(raw.description@);
    &&& (scope is Root) == (prefix.len() == 0 && group.len() == 0)
    &&& (scope is Namespace) == (prefix.len() > 0 && group.len() == 0)
    &&& (scope is Group) == (prefix.len() == 0 && group.len() > 0)
    &&& (scope is NamespaceGroup) == (prefix.len() > 0 && group.len() > 0)
    &&& scope_view(scope) == (
        if prefix.len() > 0 { prefix } else { Seq::empty() },
        if prefix.len() > 0 { description } else { Seq::empty() },
        if group.len() > 0 { group } else { Seq::empty() },
        if group.len() > 0 { group_description } else { Seq::empty() },
    )
}

/// The forced namespace as text.
pub open spec fn forced_view(forced: Option<&NamespaceScope>) -> Option<(Seq<char>, Seq<char>)> {
    match forced {
        Some(f) => Some((f.prefix@, f.description@)),
        None => None,
    }
}

/// The scope of a configuration file.
pub fn scope_from_raw(
    raw: &FireFileRaw,
    default_namespace_prefix: Option<&str>,
    forced_namespace: Option<&NamespaceScope>,
) -> (r: FileScope)
    ensures
        scope_of_raw(
            *raw,
            match default_namespace_prefix {
                Some(d) => Some(d@),
                None => None,
            },
            forced_view(forced_namespace),
            r,
        ),
{
    let group = trim_str(raw.group.as_str());
    let group_description = trim_str(raw.description.as_str());
    let (prefix, description): (&str, String) = match forced_namespace {
        Some(f) => (f.prefix.as_str(), f.description.clone()),
        None => {
            let own = match &raw.namespace {
                Some(n) => trim_str(n.prefix.as_str()),
                None => "",
            };
            proof {
                reveal_strlit("");
                assert(""@ =~= Seq::<char>::empty());
            }
            let prefix = if own.unicode_len() > 0 {
                own
            } else {
                match default_namespace_prefix {
                    Some(d) => d,
                    None => "",
                }
            };
            let description = match &raw.namespace {
                Some(n) => to_string(trim_str(n.description.as_str())),
                None => String::new(),
            };
            (prefix, description)
        },
    };
    let no_prefix = prefix.unicode_len() == 0;
    let no_group = group.unicode_len() == 0;
    if no_prefix && no_group {
        FileScope::Root
    } else if !no_prefix && no_group {
        FileScope::Namespace { namespace: to_string(prefix), namespace_description: description }
    } else if no_prefix && !no_group {
        FileScope::Group { group: to_string(group), group_description: to_string(group_description) }
    } else {
        FileScope::NamespaceGroup {
            namespace: to_string(prefix),
            namespace_description: description,
            group: to_string(group),
            group_description: to_string(group_description),
        }
    }
}

/// The namespace that a file declares, when its trimmed prefix is not
/// blank: the trimmed prefix and description.
pub open spec fn declared_namespace(raw: FireFileRaw) -> Option<(Seq<char>, Seq<char>)> {
    match raw.namespace {
        Some(n) => if trim(n.prefix@).len() > 0 {
            Some((trim(n.prefix@), trim(n.description@)))
        } else {
            None
        },
        None => None,
    }
}

/// The first namespace that the files from position `i` on declare.
pub open spec fn first_declared(files: Seq<ParsedFireFile>, i: int) -> Option<(Seq<char>, Seq<char>)>
    decreases files.len() - i,
{
    if i < 0 || i >= files.len() {
        None
    } else {
        match declared_namespace(files[i].raw) {
            Some(n) => Some(n),
            None => first_declared(files, i + 1),
        }
    }
}

/// The namespace that a directory declares: that of its first file that
/// declares one.
pub fn select_directory_explicit_namespace(raw_files: &[ParsedFireFile]) -> (r: Option<NamespaceScope>)
    ensures
        r matches Some(n) ==> first_declared(raw_files@, 0) == Some((n.prefix@, n.description@)),
        r is None ==> first_declared(raw_files@, 0) is None,
{
    let mut i: usize = 0;
    while i < raw_files.len()
        invariant
            i <= raw_files@.len(),
            first_declared(raw_files@, 0) == first_declared(raw_files@, i as int),
        decreases raw_files@.len() - i,
    {
        if let Some(namespace) = &raw_files[i].raw.namespace {
            let prefix = trim_str(namespace.prefix.as_str());
            if prefix.unicode_len() > 0 {
                return Some(
                    NamespaceScope {
                        prefix: to_string(prefix),
                        description: to_string(trim_str(namespace.description.as_str())),
                    },
                );
            }
        }
        i = i + 1;
    }
    None
}

/// The namespace prefix that a directory declares.
pub fn select_directory_default_namespace_prefix(raw_files: &[ParsedFireFile]) -> (r: Option<String>)
    ensures
        r matches Some(p) ==> first_declared(raw_files@, 0) matches Some(n) && n.0 == p@,
        r is None ==> first_declared(raw_files@, 0) is None,
{
    match select_directory_explicit_namespace(raw_files) {
        Some(n) => Some(n.prefix),
        None => None,
    }
}

/// A character of a directory name in a namespace prefix: ASCII letters
/// and digits in lower case, `-` and `_` as they are, anything else as `-`.
pub open spec fn prefix_char(c: char) -> char {
    if is_ascii_alnum(c) || c == '-' || c == '_' {
        ascii_lower(c)
    } else {
        '-'
    }
}

/// `s` without `-` at either end.
pub open spec fn trim_dashes(s: Seq<char>) -> Seq<char>
    decreases s.len(),
{
    if s.len() > 0 && s[0] == '-' {
        trim_dashes(s.drop_first())
    } else if s.len() > 0 && s.last() == '-' {
        trim_dashes(s.drop_last())
    } else {
        s
    }
}

/// The prefix made from a directory name, or `default` when nothing is
/// left of it.
pub open spec fn prefix_from_name(name: Seq<char>) -> Seq<char> {
    let t = trim_dashes(name.map_values(|c: char| prefix_char(c)));
    if t.len() == 0 {
        "default"@
    } else {
        t
    }
}

/// The namespace prefix of the local directory `cwd`: the one its files
/// declare, else one made from the directory's name (`default` when it has
/// none).
pub open spec fn local_prefix(raw_files: Seq<ParsedFireFile>, cwd: Seq<char>) -> Seq<char> {
    match first_declared(raw_files, 0) {
        Some(n) => n.0,
        None => match file_name_of(cwd) {
            Some(name) => prefix_from_name(name),
            None => prefix_from_name("default"@),
        },
    }
}

fn strip_dashes(s: &str) -> (r: &str)
    ensures
        r@ == trim_dashes(s@),
{
    let n = s.unicode_len();
    let mut i: usize = 0;
    let mut j: usize = n;
    assert(s@.subrange(0, n as int) =~= s@);
    while i < j && s.get_char(i) == '-'
        invariant
            n == s@.len(),
            i <= j <= n,
            j == n,
            trim_dashes(s@) == trim_dashes(s@.subrange(i as int, j as int)),
        decreases j - i,
    {
        assert(s@.subrange(i as int, j as int).drop_first() =~= s@.subrange(i + 1, j as int));
        i = i + 1;
    }
    while i < j && s.get_char(j - 1) == '-'
        invariant
            n == s@.len(),
            i <= j <= n,
            i == j || s@[i as int] != '-',
            trim_dashes(s@) == trim_dashes(s@.subrange(i as int, j as int)),
        decreases j - i,
    {
        let ghost t = s@.subrange(i as int, j as int);
        assert(t.drop_last() =~= s@.subrange(i as int, j - 1));
        assert(t[0] == s@[i as int]);
        j = j - 1;
    }
    let ghost t = s@.subrange(i as int, j as int);
    if i < j {
        assert(t[0] == s@[i as int]);
        assert(t.last() == s@[j - 1]);
    }
    s.substring_char(i, j)
}

/// The namespace prefix of the local directory `cwd`.
pub fn select_local_default_namespace_prefix(raw_files: &[ParsedFireFile], cwd: &str) -> (r: String)
    ensures
        r@ == local_prefix(raw_files@, cwd@),
{
    if let Some(prefix) = select_directory_default_namespace_prefix(raw_files) {
        return prefix;
    }
    let name = match path_file_name(cwd) {
        Some(n) => n,
        None => to_string("default"),
    };
    let ghost mapped = name@.map_values(|c: char| prefix_char(c));
    let n = name.as_str().unicode_len();
    let mut normalized = String::new();
    let mut i: usize = 0;
    while i < n
        invariant
            n == name@.len(),
            i <= n,
            mapped == name@.map_values(|c: char| prefix_char(c)),
            normalized@ == mapped.take(i as int),
        decreases n - i,
    {
        let c = name.as_str().get_char(i);
        let mapped_char = if is_ascii_alphanumeric(c) || c == '-' || c == '_' {
            to_ascii_lowercase(c)
        } else {
            '-'
        };
        push_char(&mut normalized, mapped_char);
        assert(mapped.take(i + 1) =~= mapped.take(i as int).push(mapped[i as int]));
        i = i + 1;
    }
    assert(mapped.take(n as int) =~= mapped);
    let trimmed = strip_dashes(normalized.as_str());
    if trimmed.unicode_len() == 0 {
        to_string("default")
    } else {
        to_string(trimmed)
    }
}

/// Whether `f` is the configuration of the parsed file `parsed`.
pub open spec fn config_of(
    parsed: ParsedFireFile,
    source: SourceKind,
    project_dir: Seq<char>,
    default_prefix: Option<Seq<char>>,
    forced: Option<(Seq<char>, Seq<char>)>,
    f: FileConfig,
) -> bool {
    &&& f.source == source
    &&& f.project_dir@ == project_dir
    &&& f.config_path@ == parsed.path@
    &&& scope_of_raw(parsed.raw, default_prefix, forced, f.scope)
    &&& f.runtimes == parsed.raw.runtimes
    &&& f.commands == parsed.raw.commands
}

/// Whether `files` are the configurations of `parsed`, one for each, in
/// order.
pub open spec fn configs_of(
    parsed: Seq<ParsedFireFile>,
    source: SourceKind,
    project_dir: Seq<char>,
    default_prefix: Option<Seq<char>>,
    forced: Option<(Seq<char>, Seq<char>)>,
    files: Seq<FileConfig>,
) -> bool {
    &&& files.len() == parsed.len()
    &&& forall|i: int|
        0 <= i < files.len() ==> #[trigger] config_of(parsed[i], source, project_dir, default_prefix, forced, files[i])
}

/// The configurations of parsed files.
pub fn to_file_configs(
    raw_files: Vec<ParsedFireFile>,
    source: SourceKind,
    project_dir: &str,
    default_namespace_prefix: Option<&str>,
    forced_namespace: Option<&NamespaceScope>,
) -> (r: Vec<FileConfig>)
    ensures
        configs_of(
            raw_files@,
            source,
            project_dir@,
            match default_namespace_prefix {
                Some(d) => Some(d@),
                None => None,
            },
            forced_view(forced_namespace),
            r@,
        ),
{
    let ghost all = raw_files@;
    let ghost n = all.len();
    let ghost dp = match default_namespace_prefix {
        Some(d) => Some(d@),
        None => None,
    };
    let mut rest = raw_files;
    let mut out: Vec<FileConfig> = Vec::new();
    while rest.len() > 0
        invariant
            n == all.len(),
            out@.len() + rest@.len() == n,
            rest@ == all.subrange(out@.len() as int, n as int),
            dp == match default_namespace_prefix {
                Some(d) => Some(d@),
                None => None,
            },
            forall|i: int|
                0 <= i < out@.len() ==> #[trigger] config_of(
                    all[i],
                    source,
                    project_dir@,
                    dp,
                    forced_view(forced_namespace),
                    out@[i],
                ),
        decreases rest@.len(),
    {
        let ghost k = out@.len() as int;
        let ghost before = rest@;
        let parsed = rest.remove(0);
        assert(rest@ =~= all.subrange(k + 1, n as int));
        assert(parsed == all[k]);
        let scope = scope_from_raw(&parsed.raw, default_namespace_prefix, forced_namespace);
        let f = FileConfig {
            source,
            project_dir: to_string(project_dir),
            config_path: parsed.path,
            scope,
            runtimes: parsed.raw.runtimes,
            commands: parsed.raw.commands,
        };
        out.push(f);
    }
    out
}

/// How a directory's files get a namespace when they do not declare one.
#[derive(Clone, Copy, Debug, PartialEq, Eq, Structural)]
pub enum DefaultNamespaceMode {
    /// From a peer file, else from the directory's name (the local project).
    DirectoryFallback,
    /// From a peer file only (installed directories).
    ExplicitOnly,
}

/// The default namespace prefix of a directory's files.
pub open spec fn default_prefix_of(mode: DefaultNamespaceMode, root: Seq<ParsedFireFile>, base_dir: Seq<char>) -> Option<
    Seq<char>,
> {
    match mode {
        DefaultNamespaceMode::DirectoryFallback => Some(local_prefix(root, base_dir)),
        DefaultNamespaceMode::ExplicitOnly => match first_declared(root, 0) {
            Some(n) => Some(n.0),
            None => None,
        },
    }
}

/// The configurations of a directory: those of its own files, then those
/// of its included files, which take the namespace that the directory
/// declares.
pub fn load_directory_file_configs(
    base_dir: &str,
    source: SourceKind,
    namespace_mode: DefaultNamespaceMode,
    root_raw: Vec<ParsedFireFile>,
    include_raw: Vec<ParsedFireFile>,
) -> (r: Vec<FileConfig>)
    ensures
        ({
            let dp = default_prefix_of(namespace_mode, root_raw@, base_dir@);
            &&& r@.len() == root_raw@.len() + include_raw@.len()
            &&& configs_of(root_raw@, source, base_dir@, dp, None, r@.take(root_raw@.len() as int))
            &&& configs_of(
                include_raw@,
                source,
                base_dir@,
                dp,
                first_declared(root_raw@, 0),
                r@.skip(root_raw@.len() as int),
            )
        }),
{
    let explicit_namespace = select_directory_explicit_namespace(root_raw.as_slice());
    let default_namespace: Option<String> = match namespace_mode {
        DefaultNamespaceMode::DirectoryFallback => Some(
            select_local_default_namespace_prefix(root_raw.as_slice(), base_dir),
        ),
        DefaultNamespaceMode::ExplicitOnly => select_directory_default_namespace_prefix(root_raw.as_slice()),
    };
    let default_ref: Option<&str> = match &default_namespace {
        Some(d) => Some(d.as_str()),
        None => None,
    };
    let ghost root_view = root_raw@;
    let ghost include_view = include_raw@;
    let mut files = to_file_configs(root_raw, source, base_dir, default_ref, None);
    let ghost first = files@;
    let forced: Option<&NamespaceScope> = match &explicit_namespace {
        Some(n) => Some(n),
        None => None,
    };
    assert(forced_view(forced) == first_declared(root_view, 0));
    let more = to_file_configs(include_raw, source, base_dir, default_ref, forced);
    let ghost second = more@;
    let mut more = more;
    files.append(&mut more);
    assert(files@ =~= first + second);
    assert(files@.take(root_view.len() as int) =~= first);
    assert(files@.skip(root_view.len() as int) =~= second);
    files
}

/// The configurations of the local project directory `cwd`.
pub fn load_local_file_configs(
    cwd: &str,
    source: SourceKind,
    root_raw: Vec<ParsedFireFile>,
    include_raw: Vec<ParsedFireFile>,
) -> (r: Vec<FileConfig>)
    ensures
        ({
            let dp = default_prefix_of(DefaultNamespaceMode::DirectoryFallback, root_raw@, cwd@);
            &&& r@.len() == root_raw@.len() + include_raw@.len()
            &&& configs_of(root_raw@, source, cwd@, dp, None, r@.take(root_raw@.len() as int))
            &&& configs_of(include_raw@, source, cwd@, dp, first_declared(root_raw@, 0), r@.skip(root_raw@.len() as int))
        }),
{
    load_directory_file_configs(cwd, source, DefaultNamespaceMode::DirectoryFallback, root_raw, include_raw)
}

/// The configurations of an installed directory.
pub fn load_global_file_configs(
    directory: &str,
    source: SourceKind,
    root_raw: Vec<ParsedFireFile>,
    include_raw: Vec<ParsedFireFile>,
) -> (r: Vec<FileConfig>)
    ensures
        ({
            let dp = default_prefix_of(DefaultNamespaceMode::ExplicitOnly, root_raw@, directory@);
            &&& r@.len() == root_raw@.len() + include_raw@.len()
            &&& configs_of(root_raw@, source, directory@, dp, None, r@.take(root_raw@.len() as int))
            &&& configs_of(
                include_raw@,
                source,
                directory@,
                dp,
                first_declared(root_raw@, 0),
                r@.skip(root_raw@.len() as int),
            )
        }),
{
    load_directory_file_configs(directory, source, DefaultNamespaceMode::ExplicitOnly, root_raw, include_raw)
}

proof fn lemma_first_declared_prefix(files: Seq<ParsedFireFile>, i: int)
    ensures
        first_declared(files, i) matches Some(n) ==> n.0.len() > 0,
    decreases files.len() - i,
{
    if 0 <= i < files.len() && declared_namespace(files[i].raw) is None {
        lemma_first_declared_prefix(files, i + 1);
    }
}

/// A command written as a plain string behaves as a full spec whose `exec`
/// is that string: it runs the same commands, is as runnable, evaluates
/// nothing, and has no description.
pub proof fn lemma_shorthand_is_exec_spec(s: String, spec: CommandSpec)
    requires
        spec.execute == Some(CommandAction::Single(s)),
        spec.eval is None,
        spec.description@.len() == 0,
    ensures
        CommandEntry::Shorthand(s).execution_of() == CommandEntry::Spec(spec).execution_of(),
        CommandEntry::Shorthand(s).runnable() == CommandEntry::Spec(spec).runnable(),
        CommandEntry::Shorthand(s).evaluation_of() == CommandEntry::Spec(spec).evaluation_of(),
        CommandEntry::Shorthand(s).description_text() == CommandEntry::Spec(spec).description_text(),
{
}

/// Files of a directory that set no namespace prefix of their own take the
/// prefix that a peer file declares, and included files take the namespace
/// that the directory declares, whatever they set themselves.
pub proof fn lemma_peer_namespace_inherited(
    base_dir: Seq<char>,
    source: SourceKind,
    mode: DefaultNamespaceMode,
    root: Seq<ParsedFireFile>,
    included: Seq<ParsedFireFile>,
    files: Seq<FileConfig>,
    prefix: Seq<char>,
    description: Seq<char>,
)
    requires
        files.len() == root.len() + included.len(),
        configs_of(root, source, base_dir, default_prefix_of(mode, root, base_dir), None, files.take(root.len() as int)),
        configs_of(
            included,
            source,
            base_dir,
            default_prefix_of(mode, root, base_dir),
            first_declared(root, 0),
            files.skip(root.len() as int),
        ),
        first_declared(root, 0) == Some((prefix, description)),
    ensures
        forall|i: int|
            0 <= i < root.len() && declared_namespace(#[trigger] root[i].raw) is None ==> scope_view(files[i].scope).0
                == prefix,
        forall|i: int|
            0 <= i < included.len() ==> scope_view((#[trigger] files[root.len() + i]).scope).0 == prefix
                && scope_view(files[root.len() + i].scope).1 == description,
{
    lemma_first_declared_prefix(root, 0);
    let dp = default_prefix_of(mode, root, base_dir);
    assert(dp == Some(prefix));
    assert forall|i: int| 0 <= i < root.len() && declared_namespace(#[trigger] root[i].raw) is None implies scope_view(
        files[i].scope,
    ).0 == prefix by {
        assert(files.take(root.len() as int)[i] == files[i]);
        assert(config_of(root[i], source, base_dir, dp, None, files.take(root.len() as int)[i]));
    }
    assert forall|i: int| 0 <= i < included.len() implies scope_view((#[trigger] files[root.len() + i]).scope).0
        == prefix && scope_view(files[root.len() + i].scope).1 == description by {
        assert(files.skip(root.len() as int)[i] == files[root.len() + i]);
        assert(config_of(
            included[i],
            source,
            base_dir,
            dp,
            first_declared(root, 0),
            files.skip(root.len() as int)[i],
        ));
    }
}

/// An entry of a file's `include` list: a directory to read, or a path
/// that is refused.
#[derive(Debug)]
pub enum IncludeRequest {
    Directory(String),
    Invalid(String),
}

/// What an `include` entry asks for: nothing when blank; else the
/// directory below `base_dir`, or the refused path.
pub open spec fn include_request(base_dir: Seq<char>, entry: Seq<char>) -> Option<(bool, Seq<char>)> {
    let t = trim(entry);
    if t.len() == 0 {
        None
    } else {
        match include_path(t) {
            Some(rel) => Some((true, joined_path(base_dir, rel))),
            None => Some((false, t)),
        }
    }
}

/// The requests of the `include` entries `es`, in order.
pub open spec fn include_requests_of(base_dir: Seq<char>, es: Seq<Seq<char>>) -> Seq<(bool, Seq<char>)>
    decreases es.len(),
{
    if es.len() == 0 {
        Seq::empty()
    } else {
        let prev = include_requests_of(base_dir, es.drop_last());
        match include_request(base_dir, es.last()) {
            Some(x) => prev.push(x),
            None => prev,
        }
    }
}

/// The `include` entries of the files, one file after the other.
pub open spec fn all_includes(files: Seq<ParsedFireFile>) -> Seq<Seq<char>>
    decreases files.len(),
{
    if files.len() == 0 {
        Seq::empty()
    } else {
        all_includes(files.drop_last()) + crate::text::texts(files.last().raw.includes@)
    }
}

/// A request as text: whether it names a directory, and the text.
pub open spec fn request_view(r: IncludeRequest) -> (bool, Seq<char>) {
    match r {
        IncludeRequest::Directory(d) => (true, d@),
        IncludeRequest::Invalid(t) => (false, t@),
    }
}

/// What the `include` entries of the files ask for, in order.
pub fn resolve_include_directories(base_dir: &str, raw_files: &[ParsedFireFile]) -> (r: Vec<IncludeRequest>)
    ensures
        r@.map_values(|x: IncludeRequest| request_view(x)) == include_requests_of(base_dir@, all_includes(raw_files@)),
{
    let mut out: Vec<IncludeRequest> = Vec::new();
    let mut i: usize = 0;
    assert(raw_files@.take(0) =~= Seq::<ParsedFireFile>::empty());
    assert(out@.map_values(|x: IncludeRequest| request_view(x)) =~= include_requests_of(
        base_dir@,
        all_includes(raw_files@.take(0)),
    ));
    while i < raw_files.len()
        invariant
            i <= raw_files@.len(),
            out@.map_values(|x: IncludeRequest| request_view(x)) == include_requests_of(
                base_dir@,
                all_includes(raw_files@.take(i as int)),
            ),
        decreases raw_files@.len() - i,
    {
        let ghost prefix = all_includes(raw_files@.take(i as int));
        let entries = &raw_files[i].raw.includes;
        let ghost es = crate::text::texts(entries@);
        assert(raw_files@.take(i + 1).drop_last() =~= raw_files@.take(i as int));
        assert(all_includes(raw_files@.take(i + 1)) == prefix + es);
        let mut j: usize = 0;
        assert(prefix + es.take(0) =~= prefix);
        while j < entries.len()
            invariant
                es == crate::text::texts(entries@),
                j <= es.len(),
                out@.map_values(|x: IncludeRequest| request_view(x)) == include_requests_of(base_dir@, prefix + es.take(j as int)),
            decreases es.len() - j,
        {
            assert((prefix + es.take(j + 1)).drop_last() =~= prefix + es.take(j as int));
            assert((prefix + es.take(j + 1)).last() == entries@[j as int]@);
            let trimmed = trim_str(entries[j].as_str());
            proof {
                crate::text::lemma_trim_idempotent(entries@[j as int]@);
            }
            if trimmed.unicode_len() > 0 {
                let ghost before = out@.map_values(|x: IncludeRequest| request_view(x));
                let request = match normalize_relative_include_path(trimmed) {
                    Some(relative) => IncludeRequest::Directory(join_path(base_dir, relative.as_str())),
                    None => IncludeRequest::Invalid(to_string(trimmed)),
                };
                out.push(request);
                assert(out@.map_values(|x: IncludeRequest| request_view(x)) =~= before.push(request_view(request)));
            }
            j = j + 1;
        }
        assert(es.take(es.len() as int) =~= es);
        i = i + 1;
    }
    assert(raw_files@.take(raw_files@.len() as int) =~= raw_files@);
    out
}

/// Which configuration files a directory holds: `fire.yml` and
/// `fire.yaml` as base files, `*.fire.yml` and `*.fire.yaml` as pattern
/// files.
pub open spec fn config_file_kind_of(name: Seq<char>) -> Option<bool> {
    if name == "fire.yml"@ || name == "fire.yaml"@ {
        Some(true)
    } else if crate::text::ends_with(name, ".fire.yml"@) || crate::text::ends_with(name, ".fire.yaml"@) {
        Some(false)
    } else {
        None
    }
}

/// Whether a file name is a base configuration file (`Some(true)`), a
/// pattern one (`Some(false)`), or none.
pub fn config_file_kind(name: &str) -> (r: Option<bool>)
    ensures
        r == config_file_kind_of(name@),
{
    if str_equal(name, "fire.yml") || str_equal(name, "fire.yaml") {
        Some(true)
    } else if crate::text::ends_with_str(name, ".fire.yml") || crate::text::ends_with_str(name, ".fire.yaml") {
        Some(false)
    } else {
        None
    }
}

/// The configuration files of a directory in loading order: the base files,
/// then the pattern files, each in the order of paths.
pub fn order_config_files(base_files: &[String], pattern_files: &[String]) -> (r: Vec<String>)
    ensures
        r@ == entry_values(keyed_paths(base_files@)) + entry_values(keyed_paths(pattern_files@)),
{
    let mut files = sorted_paths(base_files);
    let mut more = sorted_paths(pattern_files);
    let ghost a = files@;
    let ghost b = more@;
    files.append(&mut more);
    assert(files@ =~= a + b);
    files
}

/// The configuration files found in the included directories: in the order
/// of paths, each once.
pub fn discover_config_files_from_dirs(found: &[String]) -> (r: Vec<String>)
    ensures
        r@ == entry_values(keyed_paths(found@)),
{
    sorted_paths(found)
}

} // verus!
