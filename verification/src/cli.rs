//! The `cli` management commands: choosing the command, and the texts that
//! `cli init` and `cli completion install` write.

use vstd::prelude::*;

use crate::strmap::str_equal;
use crate::text::{
    ascii_lower, ends_with, ends_with_str, find, find_str, is_ascii_alnum, is_ascii_alphanumeric,
    join, join_strings, texts, replace_all, replace_str, to_ascii_lowercase, to_string, trim, trim_str,
    lemma_find, lemma_find_result, lemma_trim_end_shape, occurs_at, trim_end,
};

verus! {

/// `value` without the first of the suffixes `.fire.yml`, `.fire.yaml`,
/// `.yml`, `.yaml` that it ends with.
pub open spec fn without_yaml_suffix(value: Seq<char>) -> Seq<char> {
    if ends_with(value, ".fire.yml"@) {
        value.subrange(0, value.len() - 9)
    } else if ends_with(value, ".fire.yaml"@) {
        value.subrange(0, value.len() - 10)
    } else if ends_with(value, ".yml"@) {
        value.subrange(0, value.len() - 4)
    } else if ends_with(value, ".yaml"@) {
        value.subrange(0, value.len() - 5)
    } else {
        value
    }
}

/// Removes a known YAML file suffix.
pub fn strip_known_yaml_suffixes(value: &str) -> (r: &str)
    ensures
        r@ == without_yaml_suffix(value@),
{
    proof {
        reveal_strlit(".fire.yml");
        reveal_strlit(".fire.yaml");
        reveal_strlit(".yml");
        reveal_strlit(".yaml");
    }
    let n = value.unicode_len();
    if ends_with_str(value, ".fire.yml") {
        value.substring_char(0, n - 9)
    } else if ends_with_str(value, ".fire.yaml") {
        value.substring_char(0, n - 10)
    } else if ends_with_str(value, ".yml") {
        value.substring_char(0, n - 4)
    } else if ends_with_str(value, ".yaml") {
        value.substring_char(0, n - 5)
    } else {
        value
    }
}

/// A character that may stand in a configuration file's base name.
pub open spec fn is_base_name_char(c: char) -> bool {
    is_ascii_alnum(c) || c == '-' || c == '_'
}

/// Whether `value` can name a configuration file: it is not empty and holds
/// only ASCII letters, digits, `-` and `_` (so no `/`, `\` or `..`).
pub open spec fn valid_file_base(value: Seq<char>) -> bool {
    value.len() > 0 && forall|i: int| 0 <= i < value.len() ==> is_base_name_char(#[trigger] value[i])
}

/// Whether `value` can name a configuration file.
pub fn is_valid_file_base(value: &str) -> (r: bool)
    ensures
        r == valid_file_base(value@),
{
    let n = value.unicode_len();
    if n == 0 {
        return false;
    }
    let mut i: usize = 0;
    while i < n
        invariant
            n == value@.len(),
            i <= n,
            forall|k: int| 0 <= k < i ==> is_base_name_char(#[trigger] value@[k]),
        decreases n - i,
    {
        let c = value.get_char(i);
        if !(is_ascii_alphanumeric(c) || c == '-' || c == '_') {
            return false;
        }
        i = i + 1;
    }
    true
}

/// The configuration file name for a base name: `fire.yml` when it is blank,
/// else the base without a YAML suffix, followed by `.fire.yml`.
pub open spec fn init_file_name(base: Seq<char>) -> Seq<char> {
    if trim(base).len() == 0 {
        "fire.yml"@
    } else {
        without_yaml_suffix(trim(base)) + ".fire.yml"@
    }
}

/// The file name that `cli init` writes for the base name given.
pub fn file_name_from_base(base: &str) -> (r: String)
    ensures
        r@ == init_file_name(base@),
{
    let trimmed = trim_str(base);
    if trimmed.unicode_len() == 0 {
        return to_string("fire.yml");
    }
    let normalized = strip_known_yaml_suffixes(trimmed);
    let mut r = to_string(normalized);
    r.append(".fire.yml");
    r
}

/// `value` as a double-quoted YAML scalar, with `\` and `"` escaped.
pub open spec fn yaml_quoted(value: Seq<char>) -> Seq<char> {
    seq!['"'] + replace_all(replace_all(value, seq!['\\'], seq!['\\', '\\']), seq!['"'], seq!['\\', '"']) + seq!['"']
}

/// Quotes a value for YAML.
pub fn yaml_quote(value: &str) -> (r: String)
    ensures
        r@ == yaml_quoted(value@),
{
    proof {
        reveal_strlit("\\");
        reveal_strlit("\\\\");
        reveal_strlit("\"");
        reveal_strlit("\\\"");
        assert("\\"@ =~= seq!['\\']);
        assert("\\\\"@ =~= seq!['\\', '\\']);
        assert("\""@ =~= seq!['"']);
        assert("\\\""@ =~= seq!['\\', '"']);
        assert("\""@ =~= seq!['"']);
    }
    let escaped_backslash = replace_str(value, "\\", "\\\\");
    let escaped = replace_str(escaped_backslash.as_str(), "\"", "\\\"");
    let mut r = to_string("\"");
    r.append(escaped.as_str());
    r.append("\"");
    r
}

/// The trimmed text of `value`, unless it is blank.
pub fn non_empty(value: &str) -> (r: Option<&str>)
    ensures
        r matches Some(t) ==> t@ == trim(value@) && t@.len() > 0,
        r is None ==> trim(value@).len() == 0,
{
    let trimmed = trim_str(value);
    if trimmed.unicode_len() == 0 {
        None
    } else {
        Some(trimmed)
    }
}

/// The lines of the configuration file that `cli init` writes.
pub open spec fn init_yaml_lines(
    namespace_prefix: Option<Seq<char>>,
    namespace_description: Option<Seq<char>>,
    group: Option<Seq<char>>,
) -> Seq<Seq<char>> {
    let header = seq![
        "# yaml-language-server: $schema=https://raw.githubusercontent.com/gbenm/fire/main/schemas/fire.schema.json"@,
    ];
    let namespace = match namespace_prefix {
        Some(prefix) => seq![
            Seq::<char>::empty(),
            "namespace:"@,
            "  prefix: "@ + yaml_quoted(prefix),
            "  description: "@ + yaml_quoted(
                match namespace_description {
                    Some(d) => d,
                    None => Seq::empty(),
                },
            ),
        ],
        None => Seq::empty(),
    };
    let group_lines = match group {
        Some(g) => seq![Seq::<char>::empty(), "group: "@ + yaml_quoted(g)],
        None => Seq::empty(),
    };
    header + namespace + group_lines + seq![
        Seq::<char>::empty(),
        "commands:"@,
        "  example: echo \"hello world\""@,
        Seq::<char>::empty(),
    ]
}

fn push_line(lines: &mut Vec<String>, line: String)
    ensures
        final(lines).deep_view() == old(lines).deep_view().push(line@),
{
    let ghost before = lines.deep_view();
    lines.push(line);
    assert(lines.deep_view() =~= before.push(line@));
}

fn prefixed(prefix: &str, rest: &String) -> (r: String)
    ensures
        r@ == prefix@ + rest@,
{
    let mut r = to_string(prefix);
    r.append(rest.as_str());
    r
}

/// The configuration file that `cli init` writes: a schema comment, the
/// namespace and group when given, and one example command.
pub fn build_init_yaml(
    namespace_prefix: Option<&str>,
    namespace_description: Option<&str>,
    group: Option<&str>,
) -> (r: String)
    ensures
        r@ == join(
            init_yaml_lines(
                match namespace_prefix { Some(p) => Some(p@), None => None },
                match namespace_description { Some(d) => Some(d@), None => None },
                match group { Some(g) => Some(g@), None => None },
            ),
            seq!['\n'],
        ),
{
    let mut lines: Vec<String> = Vec::new();
    push_line(
        &mut lines,
        to_string(
            "# yaml-language-server: $schema=https://raw.githubusercontent.com/gbenm/fire/main/schemas/fire.schema.json",
        ),
    );
    if let Some(prefix) = namespace_prefix {
        push_line(&mut lines, String::new());
        push_line(&mut lines, to_string("namespace:"));
        push_line(&mut lines, prefixed("  prefix: ", &yaml_quote(prefix)));
        let description = match namespace_description {
            Some(d) => d,
            None => "",
        };
        proof {
            reveal_strlit("");
        }
        push_line(&mut lines, prefixed("  description: ", &yaml_quote(description)));
    }
    if let Some(g) = group {
        push_line(&mut lines, String::new());
        push_line(&mut lines, prefixed("group: ", &yaml_quote(g)));
    }
    push_line(&mut lines, String::new());
    push_line(&mut lines, to_string("commands:"));
    push_line(&mut lines, to_string("  example: echo \"hello world\""));
    push_line(&mut lines, String::new());
    proof {
        reveal_strlit("\n");
        assert("\n"@ =~= seq!['\n']);
        let want = init_yaml_lines(
            match namespace_prefix { Some(p) => Some(p@), None => None },
            match namespace_description { Some(d) => Some(d@), None => None },
            match group { Some(g) => Some(g@), None => None },
        );
        assert(lines.deep_view() =~= want);
    }
    assert(texts(lines@) =~= lines.deep_view());
    join_strings(&lines, "\n")
}

/// The shells for which completion can be installed.
#[derive(Clone, Copy, Debug, PartialEq, Eq, Structural)]
pub enum CompletionTarget {
    Bash,
    Zsh,
    All,
}

/// The completion target that a shell name selects.
pub fn parse_completion_target(value: &str) -> (r: Option<CompletionTarget>)
    ensures
        r == if value@ == "bash"@ {
            Some(CompletionTarget::Bash)
        } else if value@ == "zsh"@ {
            Some(CompletionTarget::Zsh)
        } else if value@ == "all"@ {
            Some(CompletionTarget::All)
        } else {
            None::<CompletionTarget>
        },
{
    if str_equal(value, "bash") {
        Some(CompletionTarget::Bash)
    } else if str_equal(value, "zsh") {
        Some(CompletionTarget::Zsh)
    } else if str_equal(value, "all") {
        Some(CompletionTarget::All)
    } else {
        None
    }
}

/// Whether an answer to the overwrite prompt agrees: `y` or `yes`, in any
/// ASCII case.
pub open spec fn agrees(answer: Seq<char>) -> bool {
    let lower = answer.map_values(|c: char| ascii_lower(c));
    lower == "y"@ || lower == "yes"@
}

/// The question asked before `cli init` overwrites a file.
pub fn overwrite_prompt(file_name: &str) -> (r: String)
    ensures
        r@ == "File '"@ + file_name@ + "' already exists. Overwrite? [y/N]:"@,
{
    let mut r = to_string("File '");
    r.append(file_name);
    r.append("' already exists. Overwrite? [y/N]:");
    r
}

/// Whether the (trimmed) answer to the overwrite prompt agrees.
pub fn confirm_overwrite(answer: &str) -> (r: bool)
    ensures
        r == agrees(answer@),
{
    let n = answer.unicode_len();
    let mut lower = String::new();
    let mut i: usize = 0;
    while i < n
        invariant
            n == answer@.len(),
            i <= n,
            lower@ == answer@.subrange(0, i as int).map_values(|c: char| ascii_lower(c)),
        decreases n - i,
    {
        let ghost before = lower@;
        crate::text::push_char(&mut lower, to_ascii_lowercase(answer.get_char(i)));
        assert(lower@ =~= answer@.subrange(0, i + 1).map_values(|c: char| ascii_lower(c)));
        i = i + 1;
    }
    assert(answer@.subrange(0, n as int) =~= answer@);
    str_equal(lower.as_str(), "y") || str_equal(lower.as_str(), "yes")
}

/// `s` without its leading line breaks.
pub open spec fn trim_leading_newlines(s: Seq<char>) -> Seq<char>
    decreases s.len(),
{
    if s.len() > 0 && s[0] == '\n' {
        trim_leading_newlines(s.drop_first())
    } else {
        s
    }
}

/// `current` with the managed block between `start_marker` and `end_marker`
/// replaced by `block`; without such a block, `block` is appended after a
/// blank line (or stands alone when `current` is blank).
pub open spec fn upserted(
    current: Seq<char>,
    start_marker: Seq<char>,
    end_marker: Seq<char>,
    block: Seq<char>,
) -> Seq<char> {
    let start = find(current, start_marker);
    let rest = current.subrange(start, current.len() as int);
    let end_relative = find(rest, end_marker);
    if start >= 0 && end_relative >= 0 {
        let end = start + end_relative + end_marker.len();
        let head = current.subrange(0, start);
        let head = if head.len() > 0 && head.last() != '\n' { head.push('\n') } else { head };
        head + block + seq!['\n'] + trim_leading_newlines(current.subrange(end, current.len() as int))
    } else if trim(current).len() == 0 {
        block + seq!['\n']
    } else {
        trim_end(current) + seq!['\n', '\n'] + block + seq!['\n']
    }
}

proof fn lemma_trim_leading_newlines_shape(s: Seq<char>)
    ensures
        trim_leading_newlines(trim_leading_newlines(s)) == trim_leading_newlines(s),
    decreases s.len(),
{
    if s.len() > 0 && s[0] == '\n' {
        lemma_trim_leading_newlines_shape(s.drop_first());
    }
}

proof fn lemma_find_in_prefix(a: Seq<char>, b: Seq<char>, p: Seq<char>)
    requires
        find(a, p) >= 0,
    ensures
        find(a + b, p) == find(a, p),
{
    let f = find(a, p);
    lemma_find_result(a, p);
    let ab = a + b;
    assert(ab.subrange(f, f + p.len()) =~= a.subrange(f, f + p.len()));
    assert forall|j: int| 0 <= j < f implies !occurs_at(ab, p, j) by {
        if occurs_at(ab, p, j) {
            assert(ab.subrange(j, j + p.len()) =~= a.subrange(j, j + p.len()));
            assert(occurs_at(a, p, j));
        }
    }
    lemma_find(ab, p, f);
}

/// A text `h + block + "\n" + t` in which the start marker first occurs
/// where the block begins is left as it is by writing the block again.
proof fn lemma_upsert_fixed(u: Seq<char>, h: Seq<char>, t: Seq<char>, start_marker: Seq<char>, end_marker: Seq<char>, block: Seq<char>)
    requires
        u == h + block + seq!['\n'] + t,
        h.len() == 0 || h.last() == '\n',
        forall|j: int| 0 <= j < h.len() ==> !occurs_at(u, start_marker, j),
        block.len() >= start_marker.len(),
        block.subrange(0, start_marker.len() as int) == start_marker,
        block.len() >= end_marker.len(),
        find(block, end_marker) == block.len() - end_marker.len(),
        trim_leading_newlines(t) == t,
    ensures
        upserted(u, start_marker, end_marker, block) == u,
{
    let hl = h.len() as int;
    assert(u.subrange(hl, hl + start_marker.len()) =~= block.subrange(0, start_marker.len() as int));
    lemma_find(u, start_marker, hl);
    assert(find(u, start_marker) == hl);
    let rest = u.subrange(hl, u.len() as int);
    assert(rest =~= block + (seq!['\n'] + t));
    lemma_find_in_prefix(block, seq!['\n'] + t, end_marker);
    let end = hl + block.len();
    assert(u.subrange(0, hl) =~= h);
    assert(u.subrange(end, u.len() as int) =~= seq!['\n'] + t);
    assert((seq!['\n'] + t).drop_first() =~= t);
    assert(h + block + seq!['\n'] + trim_leading_newlines(u.subrange(end, u.len() as int)) =~= u);
}

/// Installing completion again does not add a second block: writing the
/// managed block into a text where it was written already changes nothing.
/// This holds when the markers are single lines, the block opens with the
/// start marker and first holds the end marker at its close, and the text
/// holds no start marker that lacks an end marker after it.
pub proof fn lemma_upsert_idempotent(
    current: Seq<char>,
    start_marker: Seq<char>,
    end_marker: Seq<char>,
    block: Seq<char>,
)
    requires
        start_marker.len() > 0,
        !start_marker.contains('\n'),
        !end_marker.contains('\n'),
        block.len() >= start_marker.len(),
        block.subrange(0, start_marker.len() as int) == start_marker,
        block.len() >= end_marker.len(),
        find(block, end_marker) == block.len() - end_marker.len(),
        find(current, start_marker) < 0 || find(
            current.subrange(find(current, start_marker), current.len() as int),
            end_marker,
        ) >= 0,
    ensures
        upserted(upserted(current, start_marker, end_marker, block), start_marker, end_marker, block)
            == upserted(current, start_marker, end_marker, block),
{
    let u = upserted(current, start_marker, end_marker, block);
    let sl = start_marker.len() as int;
    let start = find(current, start_marker);
    lemma_find_result(current, start_marker);
    if start >= 0 {
        let rest = current.subrange(start, current.len() as int);
        let end = start + find(rest, end_marker) + end_marker.len();
        lemma_find_result(rest, end_marker);
        let head = current.subrange(0, start);
        let h = if head.len() > 0 && head.last() != '\n' { head.push('\n') } else { head };
        let t = trim_leading_newlines(current.subrange(end, current.len() as int));
        lemma_trim_leading_newlines_shape(current.subrange(end, current.len() as int));
        assert(u == h + block + seq!['\n'] + t);
        assert forall|j: int| 0 <= j < h.len() implies !occurs_at(u, start_marker, j) by {
            if occurs_at(u, start_marker, j) {
                if j + sl <= start {
                    assert(u.subrange(j, j + sl) =~= current.subrange(j, j + sl));
                    assert(occurs_at(current, start_marker, j));
                } else {
                    let k = h.len() - 1;
                    assert(u[k] == '\n');
                    assert(start_marker[k - j] == u.subrange(j, j + sl)[k - j]);
                    assert(start_marker.contains('\n'));
                }
            }
        }
        lemma_upsert_fixed(u, h, t, start_marker, end_marker, block);
    } else if trim(current).len() == 0 {
        let t = Seq::<char>::empty();
        assert(u =~= Seq::<char>::empty() + block + seq!['\n'] + t);
        lemma_upsert_fixed(u, Seq::<char>::empty(), t, start_marker, end_marker, block);
    } else {
        let te = trim_end(current);
        lemma_trim_end_shape(current);
        let h = te + seq!['\n', '\n'];
        let t = Seq::<char>::empty();
        assert(u =~= h + block + seq!['\n'] + t);
        assert forall|j: int| 0 <= j < h.len() implies !occurs_at(u, start_marker, j) by {
            if occurs_at(u, start_marker, j) {
                if j + sl <= te.len() {
                    assert(u.subrange(j, j + sl) =~= current.subrange(j, j + sl));
                    assert(occurs_at(current, start_marker, j));
                } else {
                    let k = if j <= te.len() { te.len() as int } else { j };
                    assert(u[k] == '\n');
                    assert(start_marker[k - j] == u.subrange(j, j + sl)[k - j]);
                    assert(start_marker.contains('\n'));
                }
            }
        }
        lemma_upsert_fixed(u, h, t, start_marker, end_marker, block);
    }
}

fn trim_leading_newlines_str(s: &str) -> (r: &str)
    ensures
        r@ == trim_leading_newlines(s@),
{
    let n = s.unicode_len();
    let mut i: usize = 0;
    assert(s@.subrange(0, n as int) =~= s@);
    while i < n && s.get_char(i) == '\n'
        invariant
            n == s@.len(),
            i <= n,
            trim_leading_newlines(s@) == trim_leading_newlines(s@.subrange(i as int, n as int)),
        decreases n - i,
    {
        assert(s@.subrange(i as int, n as int).drop_first() =~= s@.subrange(i + 1, n as int));
        i = i + 1;
    }
    s.substring_char(i, n)
}

/// `current` with the managed block set to `block`.
pub fn upsert_managed_block(current: &str, start_marker: &str, end_marker: &str, block: &str) -> (r: String)
    ensures
        r@ == upserted(current@, start_marker@, end_marker@, block@),
{
    let n = current.unicode_len();
    proof {
        lemma_find_result(current@, start_marker@);
    }
    if let Some(start) = find_str(current, start_marker) {
        let rest = current.substring_char(start, n);
        proof {
            lemma_find_result(rest@, end_marker@);
        }
        if let Some(end_relative) = find_str(rest, end_marker) {
            let end = start + end_relative + end_marker.unicode_len();
            let mut output = to_string(current.substring_char(0, start));
            let m = output.as_str().unicode_len();
            if m > 0 && output.as_str().get_char(m - 1) != '\n' {
                crate::text::push_char(&mut output, '\n');
            }
            output.append(block);
            crate::text::push_char(&mut output, '\n');
            output.append(trim_leading_newlines_str(current.substring_char(end, n)));
            return output;
        }
    }
    let trimmed = trim_str(current);
    if trimmed.unicode_len() == 0 {
        let mut r = to_string(block);
        crate::text::push_char(&mut r, '\n');
        return r;
    }
    let mut r = to_string(crate::text::trim_end_str(current));
    crate::text::push_char(&mut r, '\n');
    crate::text::push_char(&mut r, '\n');
    r.append(block);
    crate::text::push_char(&mut r, '\n');
    r
}

/// The marker that opens the managed zsh block.
pub fn zsh_block_start_marker() -> (r: &'static str)
    ensures
        r@ == "# >>> fire completion (zsh) >>>"@,
{
    "# >>> fire completion (zsh) >>>"
}

/// The marker that closes the managed zsh block.
pub fn zsh_block_end_marker() -> (r: &'static str)
    ensures
        r@ == "# <<< fire completion (zsh) <<<"@,
{
    "# <<< fire completion (zsh) <<<"
}

/// The marker that opens the managed bash block.
pub fn bash_block_start_marker() -> (r: &'static str)
    ensures
        r@ == "# >>> fire completion (bash) >>>"@,
{
    "# >>> fire completion (bash) >>>"
}

/// The marker that closes the managed bash block.
pub fn bash_block_end_marker() -> (r: &'static str)
    ensures
        r@ == "# <<< fire completion (bash) <<<"@,
{
    "# <<< fire completion (bash) <<<"
}

/// The zsh completion function, which asks `fire __complete` for candidates
/// and their descriptions.
pub fn zsh_completion_script() -> (r: &'static str)
    ensures
        r@ == "#compdef fire\n\n_fire_cli() {\n  local -a lines\n  local -a entries\n  local line value note\n\n  lines=(\"${(@f)$(fire __complete -- \"${words[@]}\")}\")\n  (( ${#lines[@]} == 0 )) && return 1\n\n  for line in \"${lines[@]}\"; do\n    if [[ \"$line\" == *$'\\t'* ]]; then\n      value=\"${line%%$'\\t'*}\"\n      note=\"${line#*$'\\t'}\"\n      entries+=(\"$value:$note\")\n    else\n      entries+=(\"$line:\")\n    fi\n  done\n\n  _describe 'fire commands' entries\n}\n\ncompdef _fire_cli fire\n"@,
{
    "#compdef fire\n\n_fire_cli() {\n  local -a lines\n  local -a entries\n  local line value note\n\n  lines=(\"${(@f)$(fire __complete -- \"${words[@]}\")}\")\n  (( ${#lines[@]} == 0 )) && return 1\n\n  for line in \"${lines[@]}\"; do\n    if [[ \"$line\" == *$'\\t'* ]]; then\n      value=\"${line%%$'\\t'*}\"\n      note=\"${line#*$'\\t'}\"\n      entries+=(\"$value:$note\")\n    else\n      entries+=(\"$line:\")\n    fi\n  done\n\n  _describe 'fire commands' entries\n}\n\ncompdef _fire_cli fire\n"
}

/// The bash completion script, which lets the shell ask `fire` itself.
pub fn bash_completion_script() -> (r: &'static str)
    ensures
        r@ == "# shellcheck shell=bash\nif type complete >/dev/null 2>&1; then\n  complete -o nospace -C fire fire\nfi\n"@,
{
    "# shellcheck shell=bash\nif type complete >/dev/null 2>&1; then\n  complete -o nospace -C fire fire\nfi\n"
}

/// The managed block added to `~/.zshrc`.
pub fn zsh_completion_rc_block() -> (r: String)
    ensures
        r@ == "# >>> fire completion (zsh) >>>"@
            + "\nif [ -d \"$HOME/.zsh/completions\" ]; then\n  fpath=(\"$HOME/.zsh/completions\" $fpath)\nfi\nautoload -Uz compinit\ncompinit\n"@
            + "# <<< fire completion (zsh) <<<"@,
{
    let mut r = to_string(zsh_block_start_marker());
    r.append(
        "\nif [ -d \"$HOME/.zsh/completions\" ]; then\n  fpath=(\"$HOME/.zsh/completions\" $fpath)\nfi\nautoload -Uz compinit\ncompinit\n",
    );
    r.append(zsh_block_end_marker());
    r
}

/// The managed block added to `~/.bashrc`.
pub fn bash_completion_rc_block() -> (r: String)
    ensures
        r@ == "# >>> fire completion (bash) >>>"@
            + "\nif [ -f \"$HOME/.local/share/bash-completion/completions/fire\" ]; then\n  source \"$HOME/.local/share/bash-completion/completions/fire\"\nfi\n"@
            + "# <<< fire completion (bash) <<<"@,
{
    let mut r = to_string(bash_block_start_marker());
    r.append(
        "\nif [ -f \"$HOME/.local/share/bash-completion/completions/fire\" ]; then\n  source \"$HOME/.local/share/bash-completion/completions/fire\"\nfi\n",
    );
    r.append(bash_block_end_marker());
    r
}

/// What `fire cli ...` asks for.
#[derive(Clone, Debug, PartialEq, Eq)]
pub enum CliCommand {
    /// `cli install`: register the current directory.
    Install,
    /// `cli init`: write a configuration file.
    Init,
    /// `cli completion`: show the completion help.
    CompletionHelp,
    /// `cli completion install [shell]`.
    CompletionInstall(CompletionTarget),
    /// `cli completion install <shell>` with a shell that is not known.
    InvalidShell(String),
    /// `cli mcp`: serve the command tree to assistants over stdio.
    Mcp,
    /// `cli`: show the management help.
    CliHelp,
    /// Anything else.
    Unknown,
}

/// The management command that the arguments (which start with `cli`) name.
pub open spec fn cli_command_of(args: Seq<Seq<char>>) -> CliCommand {
    if args.len() == 2 && args[0] == "cli"@ && args[1] == "install"@ {
        CliCommand::Install
    } else if args.len() == 2 && args[0] == "cli"@ && args[1] == "init"@ {
        CliCommand::Init
    } else if args.len() == 2 && args[0] == "cli"@ && args[1] == "mcp"@ {
        CliCommand::Mcp
    } else if args.len() == 2 && args[0] == "cli"@ && args[1] == "completion"@ {
        CliCommand::CompletionHelp
    } else if args.len() == 3 && args[0] == "cli"@ && args[1] == "completion"@ && args[2] == "install"@ {
        CliCommand::CompletionInstall(CompletionTarget::All)
    } else if args.len() == 1 && args[0] == "cli"@ {
        CliCommand::CliHelp
    } else {
        CliCommand::Unknown
    }
}

/// Chooses the management command for `fire cli ...`.
pub fn parse_cli_command(command_args: &[String]) -> (r: CliCommand)
    ensures
        command_args@.len() == 4 && command_args@[0]@ == "cli"@ && command_args@[1]@ == "completion"@
            && command_args@[2]@ == "install"@ ==> r == match parse_completion_target_of(command_args@[3]@) {
                Some(t) => CliCommand::CompletionInstall(t),
                None => CliCommand::InvalidShell(command_args@[3]),
            },
        !(command_args@.len() == 4 && command_args@[0]@ == "cli"@ && command_args@[1]@ == "completion"@
            && command_args@[2]@ == "install"@) ==> r == cli_command_of(command_args@.map_values(|a: String| a@)),
{
    let n = command_args.len();
    let ghost args = command_args@.map_values(|a: String| a@);
    if n >= 1 && str_equal(command_args[0].as_str(), "cli") {
        if n == 1 {
            return CliCommand::CliHelp;
        }
        if n == 2 && str_equal(command_args[1].as_str(), "install") {
            return CliCommand::Install;
        }
        if n == 2 && str_equal(command_args[1].as_str(), "init") {
            return CliCommand::Init;
        }
        if n == 2 && str_equal(command_args[1].as_str(), "mcp") {
            return CliCommand::Mcp;
        }
        if str_equal(command_args[1].as_str(), "completion") {
            if n == 2 {
                return CliCommand::CompletionHelp;
            }
            if str_equal(command_args[2].as_str(), "install") {
                if n == 3 {
                    return CliCommand::CompletionInstall(CompletionTarget::All);
                }
                if n == 4 {
                    return match parse_completion_target(command_args[3].as_str()) {
                        Some(t) => CliCommand::CompletionInstall(t),
                        None => CliCommand::InvalidShell(command_args[3].clone()),
                    };
                }
            }
        }
    }
    CliCommand::Unknown
}

/// The completion target that a shell name selects.
pub open spec fn parse_completion_target_of(value: Seq<char>) -> Option<CompletionTarget> {
    if value == "bash"@ {
        Some(CompletionTarget::Bash)
    } else if value == "zsh"@ {
        Some(CompletionTarget::Zsh)
    } else if value == "all"@ {
        Some(CompletionTarget::All)
    } else {
        None
    }
}

/// Whether an answer to the base-name prompt is taken: a blank answer (for
/// `fire.yml`), or one that is a valid base once a YAML suffix is dropped.
pub fn base_name_accepted(value: &str) -> (r: bool)
    ensures
        r == (value@.len() == 0 || valid_file_base(without_yaml_suffix(value@))),
{
    value.unicode_len() == 0 || is_valid_file_base(strip_known_yaml_suffixes(value))
}

} // verus!
