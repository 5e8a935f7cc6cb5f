//! Environment files: `${NAME}` interpolation with defaults and required
//! values, and the `KEY=value` lines of a `.env` file.

use vstd::prelude::*;

use crate::render::text_pairs;
use crate::strmap::{entry_get, entry_insert, lemma_map_entries_insert, map_entries, StrMap};
use crate::text::{occurs_at, find, find_char, find_str, first_line, push_char, split_char, split_on, starts_with, starts_with_str, to_string, trim, trim_str};

verus! {

/// The value of `name`: the shell's, else the one read so far, else empty.
pub open spec fn lookup(name: Seq<char>, shell: Seq<(Seq<char>, Seq<char>)>, values: Seq<(Seq<char>, Seq<char>)>) -> Seq<char> {
    match entry_get(shell, name) {
        Some(v) => v,
        None => match entry_get(values, name) {
            Some(v) => v,
            None => Seq::empty(),
        },
    }
}

/// What a `${...}` expression stands for: `NAME`, `NAME:-default` (the
/// default when the value is empty) or `NAME:?message` (an error with the
/// message, or `NAME is required`, when the value is empty).
pub open spec fn expansion(expr: Seq<char>, shell: Seq<(Seq<char>, Seq<char>)>, values: Seq<(Seq<char>, Seq<char>)>) -> Result<
    Seq<char>,
    Seq<char>,
> {
    let d = find(expr, seq![':', '-']);
    let q = find(expr, seq![':', '?']);
    if d >= 0 {
        let name = expr.subrange(0, d);
        let fallback = expr.subrange(d + 2, expr.len() as int);
        let current = lookup(name, shell, values);
        if current.len() == 0 {
            Ok(fallback)
        } else {
            Ok(current)
        }
    } else if q >= 0 {
        let name = expr.subrange(0, q);
        let message = expr.subrange(q + 2, expr.len() as int);
        let current = lookup(name, shell, values);
        if current.len() == 0 {
            if message.len() == 0 {
                Err(name + " is required"@)
            } else {
                Err(message)
            }
        } else {
            Ok(current)
        }
    } else {
        Ok(lookup(expr, shell, values))
    }
}

/// `value` with each `${...}` replaced by what it stands for, left to
/// right; an unclosed `${` stays as it is.
pub open spec fn interpolated(value: Seq<char>, shell: Seq<(Seq<char>, Seq<char>)>, values: Seq<(Seq<char>, Seq<char>)>) -> Result<
    Seq<char>,
    Seq<char>,
>
    decreases value.len(),
{
    let start = find(value, seq!['$', '{']);
    proof {
        crate::text::lemma_find_result(value, seq!['$', '{']);
    }
    if start < 0 {
        Ok(value)
    } else {
        let after = value.subrange(start + 2, value.len() as int);
        let end = find_char(after, '}');
        proof {
            crate::text::lemma_find_result(after, seq!['}']);
        }
        if end < 0 {
            Ok(value)
        } else {
            let expr = after.subrange(0, end);
            match expansion(expr, shell, values) {
                Err(e) => Err(e),
                Ok(piece) => match interpolated(after.subrange(end + 1, after.len() as int), shell, values) {
                    Ok(tail) => Ok(value.subrange(0, start) + piece + tail),
                    Err(e) => Err(e),
                },
            }
        }
    }
}

/// Where a text holds `${NAME:-default}` (its first `${`, a name without
/// `:` or `}`, a default without `}`), the expression stands for the value
/// of `NAME` (the shell's, else the one read so far) when that value is not
/// empty, and for the default only when it is empty; the text before it
/// stays, and the rest is interpolated in turn.
pub proof fn lemma_default_only_for_empty_value(
    before: Seq<char>,
    name: Seq<char>,
    default: Seq<char>,
    rest: Seq<char>,
    shell: Seq<(Seq<char>, Seq<char>)>,
    values: Seq<(Seq<char>, Seq<char>)>,
)
    requires
        forall|j: int| 0 <= j < before.len() ==> before[j] != '$',
        forall|j: int| 0 <= j < name.len() ==> name[j] != ':' && name[j] != '}',
        forall|j: int| 0 <= j < default.len() ==> default[j] != '}',
    ensures
        interpolated(before + seq!['$', '{'] + name + seq![':', '-'] + default + seq!['}'] + rest, shell, values)
            == match interpolated(rest, shell, values) {
            Ok(tail) => Ok(
                before + (if lookup(name, shell, values).len() > 0 {
                    lookup(name, shell, values)
                } else {
                    default
                }) + tail,
            ),
            Err(e) => Err(e),
        },
{
    let value = before + seq!['$', '{'] + name + seq![':', '-'] + default + seq!['}'] + rest;
    let b = before.len() as int;
    assert(value.subrange(b, b + 2) =~= seq!['$', '{']);
    assert forall|j: int| 0 <= j < b implies !occurs_at(value, seq!['$', '{'], j) by {
        assert(value[j] == before[j]);
        assert(value.subrange(j, j + 2)[0] == value[j]);
    }
    crate::text::lemma_find_first(value, seq!['$', '{'], b);
    let after = value.subrange(b + 2, value.len() as int);
    let expr = name + seq![':', '-'] + default;
    assert(after =~= expr + seq!['}'] + rest);
    let e = expr.len() as int;
    assert(after.subrange(e, e + 1) =~= seq!['}']);
    assert forall|j: int| 0 <= j < e implies !occurs_at(after, seq!['}'], j) by {
        assert(after.subrange(j, j + 1)[0] == after[j]);
        if j < name.len() {
            assert(after[j] == name[j]);
        } else if j >= name.len() + 2 {
            assert(after[j] == default[j - name.len() - 2]);
        }
    }
    crate::text::lemma_find_first(after, seq!['}'], e);
    assert(after.subrange(0, e) =~= expr);
    assert(after.subrange(e + 1, after.len() as int) =~= rest);
    let nl = name.len() as int;
    assert(expr.subrange(nl, nl + 2) =~= seq![':', '-']);
    assert forall|j: int| 0 <= j < nl implies !occurs_at(expr, seq![':', '-'], j) by {
        assert(expr[j] == name[j]);
        assert(expr.subrange(j, j + 2)[0] == expr[j]);
    }
    crate::text::lemma_find_first(expr, seq![':', '-'], nl);
    assert(expr.subrange(0, nl) =~= name);
    assert(expr.subrange(nl + 2, expr.len() as int) =~= default);
    assert(value.subrange(0, b) =~= before);
}

/// `${NAME:?message}` (a name and a message without `:`) stands for the
/// value of `NAME` when it is not empty; when it is empty it is an error
/// with the message, or `NAME is required` when there is no message.
pub proof fn lemma_required_value(
    name: Seq<char>,
    message: Seq<char>,
    shell: Seq<(Seq<char>, Seq<char>)>,
    values: Seq<(Seq<char>, Seq<char>)>,
)
    requires
        forall|j: int| 0 <= j < name.len() ==> name[j] != ':',
        forall|j: int| 0 <= j < message.len() ==> message[j] != ':',
    ensures
        expansion(name + seq![':', '?'] + message, shell, values) == if lookup(name, shell, values).len() > 0 {
            Ok(lookup(name, shell, values))
        } else if message.len() > 0 {
            Err(message)
        } else {
            Err(name + " is required"@)
        },
{
    let expr = name + seq![':', '?'] + message;
    let nl = name.len() as int;
    assert forall|j: int| 0 <= j implies !occurs_at(expr, seq![':', '-'], j) by {
        if occurs_at(expr, seq![':', '-'], j) {
            assert(expr.subrange(j, j + 2)[0] == expr[j]);
            assert(expr.subrange(j, j + 2)[1] == expr[j + 1]);
            if j < nl {
                assert(expr[j] == name[j]);
            } else if j > nl {
                assert(expr[j] == message[j - nl - 2]);
            } else {
                assert(expr[j + 1] == '?');
            }
        }
    }
    crate::text::lemma_find_result(expr, seq![':', '-']);
    assert(expr.subrange(nl, nl + 2) =~= seq![':', '?']);
    assert forall|j: int| 0 <= j < nl implies !occurs_at(expr, seq![':', '?'], j) by {
        assert(expr[j] == name[j]);
        assert(expr.subrange(j, j + 2)[0] == expr[j]);
    }
    crate::text::lemma_find_first(expr, seq![':', '?'], nl);
    assert(expr.subrange(0, nl) =~= name);
    assert(expr.subrange(nl + 2, expr.len() as int) =~= message);
}

/// `${NAME}` (a name without `:`) stands for the value of `NAME`: the
/// shell's, else the one read so far, else nothing.
pub proof fn lemma_plain_value(name: Seq<char>, shell: Seq<(Seq<char>, Seq<char>)>, values: Seq<(Seq<char>, Seq<char>)>)
    requires
        forall|j: int| 0 <= j < name.len() ==> name[j] != ':',
    ensures
        expansion(name, shell, values) == Ok::<Seq<char>, Seq<char>>(
            match entry_get(shell, name) {
                Some(v) => v,
                None => match entry_get(values, name) {
                    Some(v) => v,
                    None => Seq::empty(),
                },
            },
        ),
{
    assert forall|j: int| 0 <= j implies !occurs_at(name, seq![':', '-'], j) && !occurs_at(name, seq![':', '?'], j) by {
        if 0 <= j && j + 2 <= name.len() {
            assert(name.subrange(j, j + 2)[0] == name[j]);
        }
    }
    crate::text::lemma_find_result(name, seq![':', '-']);
    crate::text::lemma_find_result(name, seq![':', '?']);
}

fn lookup_value(name: &str, shell: &StrMap<String>, values: &StrMap<String>) -> (r: String)
    ensures
        r@ == lookup(name@, text_pairs(shell@), text_pairs(values@)),
{
    proof {
        crate::strmap::lemma_map_entries_get(shell@, name@, |v: String| v@);
        crate::strmap::lemma_map_entries_get(values@, name@, |v: String| v@);
        assert(text_pairs(shell@) =~= map_entries(shell@, |v: String| v@));
        assert(text_pairs(values@) =~= map_entries(values@, |v: String| v@));
    }
    match shell.get(name) {
        Some(v) => v.clone(),
        None => match values.get(name) {
            Some(v) => v.clone(),
            None => String::new(),
        },
    }
}

fn expand(expr: &str, shell: &StrMap<String>, values: &StrMap<String>) -> (r: Result<String, String>)
    ensures
        match expansion(expr@, text_pairs(shell@), text_pairs(values@)) {
            Ok(v) => r matches Ok(x) && x@ == v,
            Err(e) => r matches Err(x) && x@ == e,
        },
{
    proof {
        reveal_strlit(":-");
        reveal_strlit(":?");
        assert(":-"@ =~= seq![':', '-']);
        assert(":?"@ =~= seq![':', '?']);
        crate::text::lemma_find_result(expr@, ":-"@);
        crate::text::lemma_find_result(expr@, ":?"@);
    }
    let n = expr.unicode_len();
    if let Some(d) = find_str(expr, ":-") {
        let name = expr.substring_char(0, d);
        let fallback = expr.substring_char(d + 2, n);
        let current = lookup_value(name, shell, values);
        if current.as_str().unicode_len() == 0 {
            return Ok(to_string(fallback));
        }
        return Ok(current);
    }
    if let Some(q) = find_str(expr, ":?") {
        let name = expr.substring_char(0, q);
        let message = expr.substring_char(q + 2, n);
        let current = lookup_value(name, shell, values);
        if current.as_str().unicode_len() == 0 {
            if message.unicode_len() == 0 {
                let mut e = to_string(name);
                e.append(" is required");
                return Err(e);
            }
            return Err(to_string(message));
        }
        return Ok(current);
    }
    Ok(lookup_value(expr, shell, values))
}

/// Expands the `${...}` expressions of `value`.
pub fn interpolate(value: &str, shell: &StrMap<String>, values: &StrMap<String>) -> (r: Result<String, String>)
    ensures
        match interpolated(value@, text_pairs(shell@), text_pairs(values@)) {
            Ok(v) => r matches Ok(x) && x@ == v,
            Err(e) => r matches Err(x) && x@ == e,
        },
{
    let ghost sh = text_pairs(shell@);
    let ghost vs = text_pairs(values@);
    proof {
        reveal_strlit("${");
        assert("${"@ =~= seq!['$', '{']);
    }
    let mut output = String::new();
    let mut rest: &str = value;
    let mut close = String::new();
    push_char(&mut close, '}');
    assert(close@ =~= seq!['}']);
    loop
        invariant
            sh == text_pairs(shell@),
            vs == text_pairs(values@),
            close@ == seq!['}'],
            "${"@ == seq!['$', '{'],
            interpolated(value@, sh, vs) == match interpolated(rest@, sh, vs) {
                Ok(t) => Ok::<Seq<char>, Seq<char>>(output@ + t),
                Err(e) => Err(e),
            },
        decreases rest@.len(),
    {
        proof {
            crate::text::lemma_find_result(rest@, "${"@);
        }
        let n = rest.unicode_len();
        let start = match find_str(rest, "${") {
            Some(s) => s,
            None => {
                output.append(rest);
                return Ok(output);
            },
        };
        let after = rest.substring_char(start + 2, n);
        proof {
            crate::text::lemma_find_result(after@, seq!['}']);
        }
        let end = match find_str(after, close.as_str()) {
            Some(e) => e,
            None => {
                output.append(rest);
                return Ok(output);
            },
        };
        let m = after.unicode_len();
        let expr = after.substring_char(0, end);
        let piece = match expand(expr, shell, values) {
            Ok(p) => p,
            Err(e) => {
                return Err(e);
            },
        };
        let ghost old_output = output@;
        output.append(rest.substring_char(0, start));
        output.append(piece.as_str());
        let next = after.substring_char(end + 1, m);
        proof {
            let tail = interpolated(next@, sh, vs);
            match tail {
                Ok(t) => {
                    assert(old_output + (rest@.subrange(0, start as int) + piece@ + t) =~= output@ + t);
                },
                Err(_) => {},
            }
        }
        rest = next;
    }
}

/// The value of a `.env` line without one pair of surrounding double or
/// single quotes.
pub open spec fn unquoted(raw: Seq<char>) -> Seq<char> {
    if raw.len() >= 2 && raw[0] == '"' && raw.last() == '"' {
        raw.subrange(1, raw.len() - 1)
    } else if raw.len() >= 2 && raw[0] == '\'' && raw.last() == '\'' {
        raw.subrange(1, raw.len() - 1)
    } else {
        raw
    }
}

/// The key and raw value of a `.env` line: blank lines and comments have
/// none, an `export ` prefix is dropped, and the line splits at its first
/// `=`; a blank key has none.
pub open spec fn env_line(line: Seq<char>) -> Option<(Seq<char>, Seq<char>)> {
    let l = trim(line);
    if l.len() == 0 || l[0] == '#' {
        None
    } else {
        let l = if starts_with(l, "export "@) {
            trim(l.subrange(7, l.len() as int))
        } else {
            l
        };
        let i = find_char(l, '=');
        if i < 0 {
            None
        } else {
            let key = trim(l.subrange(0, i));
            if key.len() == 0 {
                None
            } else {
                Some((key, unquoted(trim(l.subrange(i + 1, l.len() as int)))))
            }
        }
    }
}

/// Reads one line of a `.env` file.
pub fn parse_env_line(line: &str) -> (r: Option<(String, String)>)
    ensures
        match env_line(line@) {
            Some((k, v)) => r matches Some((a, b)) && a@ == k && b@ == v,
            None => r is None,
        },
{
    proof {
        reveal_strlit("export ");
        assert("export "@.len() == 7);
    }
    let l = trim_str(line);
    if l.unicode_len() == 0 || l.get_char(0) == '#' {
        return None;
    }
    let l = if starts_with_str(l, "export ") {
        trim_str(l.substring_char(7, l.unicode_len()))
    } else {
        l
    };
    let mut eq = String::new();
    push_char(&mut eq, '=');
    assert(eq@ =~= seq!['=']);
    proof {
        crate::text::lemma_find_result(l@, seq!['=']);
    }
    let i = match find_str(l, eq.as_str()) {
        Some(i) => i,
        None => {
            return None;
        },
    };
    let n = l.unicode_len();
    let key = trim_str(l.substring_char(0, i));
    if key.unicode_len() == 0 {
        return None;
    }
    let raw = trim_str(l.substring_char(i + 1, n));
    let m = raw.unicode_len();
    let value = if m >= 2 && raw.get_char(0) == '"' && raw.get_char(m - 1) == '"' {
        raw.substring_char(1, m - 1)
    } else if m >= 2 && raw.get_char(0) == '\'' && raw.get_char(m - 1) == '\'' {
        raw.substring_char(1, m - 1)
    } else {
        raw
    };
    Some((to_string(key), to_string(value)))
}

/// The values after reading the `.env` lines `lines` in order: each line
/// with a key stores its value, expanded against the shell and the values
/// read so far; the first expansion that fails is the error.
pub open spec fn env_lines_applied(
    lines: Seq<Seq<char>>,
    shell: Seq<(Seq<char>, Seq<char>)>,
    values: Seq<(Seq<char>, Seq<char>)>,
) -> Result<Seq<(Seq<char>, Seq<char>)>, Seq<char>>
    decreases lines.len(),
{
    if lines.len() == 0 {
        Ok(values)
    } else {
        match env_lines_applied(lines.drop_last(), shell, values) {
            Err(e) => Err(e),
            Ok(prev) => match env_line(lines.last()) {
                None => Ok(prev),
                Some((k, raw)) => match interpolated(raw, shell, prev) {
                    Ok(v) => Ok(entry_insert(prev, k, v)),
                    Err(e) => Err(e),
                },
            },
        }
    }
}

pub(crate) proof fn lemma_text_pairs_insert(m: Seq<(Seq<char>, String)>, k: Seq<char>, v: String)
    ensures
        text_pairs(entry_insert(m, k, v)) == entry_insert(text_pairs(m), k, v@),
{
    lemma_map_entries_insert(m, k, v, |s: String| s@);
    assert(text_pairs(entry_insert(m, k, v)) =~= map_entries(entry_insert(m, k, v), |s: String| s@));
    assert(text_pairs(m) =~= map_entries(m, |s: String| s@));
}

/// Reads the lines of a `.env` file into `values`.
pub fn load_env_text(text: &str, shell: &StrMap<String>, values: &mut StrMap<String>) -> (r: Result<(), String>)
    ensures
        match env_lines_applied(crate::help::text_lines(text@), text_pairs(shell@), text_pairs(old(values)@)) {
            Ok(m) => r is Ok && text_pairs(final(values)@) == m,
            Err(e) => r matches Err(x) && x@ == e,
        },
{
    let pieces = split_char(text, '\n');
    let ghost pv = crate::text::texts(pieces@);
    assert(pv =~= pieces.deep_view());
    proof {
        crate::text::lemma_split_on_nonempty(text@, '\n');
    }
    let mut n = pieces.len();
    if pieces[n - 1].as_str().unicode_len() == 0 {
        n = n - 1;
    }
    let ghost lines = crate::help::text_lines(text@);
    assert(lines =~= pv.take(n as int));
    let ghost sh = text_pairs(shell@);
    let ghost start = text_pairs(values@);
    let mut k: usize = 0;
    assert(lines.take(0).len() == 0);
    while k < n
        invariant
            n <= pieces@.len(),
            pv == crate::text::texts(pieces@),
            lines == pv.take(n as int),
            lines == crate::help::text_lines(text@),
            start == text_pairs(old(values)@),
            sh == text_pairs(shell@),
            k <= n,
            env_lines_applied(lines.take(k as int), sh, start) == Ok::<Seq<(Seq<char>, Seq<char>)>, Seq<char>>(
                text_pairs(values@),
            ),
        decreases n - k,
    {
        assert(lines.take(k + 1).drop_last() =~= lines.take(k as int));
        assert(lines.take(k + 1).last() == pieces@[k as int]@);
        match parse_env_line(pieces[k].as_str()) {
            None => {},
            Some((key, raw)) => {
                match interpolate(raw.as_str(), shell, values) {
                    Ok(expanded) => {
                        proof {
                            lemma_text_pairs_insert(values@, key@, expanded);
                        }
                        values.insert(key, expanded);
                    },
                    Err(e) => {
                        proof {
                            assert(env_line(lines.take(k + 1).last()) == Some((key@, raw@)));
                            assert(interpolated(raw@, sh, text_pairs(values@)) == Err::<Seq<char>, Seq<char>>(e@));
                            assert(env_lines_applied(lines.take(k + 1), sh, start) == Err::<
                                Seq<(Seq<char>, Seq<char>)>,
                                Seq<char>,
                            >(e@));
                            lemma_env_lines_err(lines, k as int + 1, sh, start);
                        }
                        return Err(e);
                    },
                }
            },
        }
        k = k + 1;
    }
    assert(lines.take(n as int) =~= lines);
    Ok(())
}

proof fn lemma_env_lines_err(
    lines: Seq<Seq<char>>,
    k: int,
    sh: Seq<(Seq<char>, Seq<char>)>,
    start: Seq<(Seq<char>, Seq<char>)>,
)
    requires
        0 < k <= lines.len(),
        env_lines_applied(lines.take(k), sh, start) is Err,
    ensures
        env_lines_applied(lines, sh, start) == env_lines_applied(lines.take(k), sh, start),
    decreases lines.len() - k,
{
    if k < lines.len() {
        assert(lines.take(k + 1).drop_last() =~= lines.take(k));
        lemma_env_lines_err(lines, k + 1, sh, start);
    } else {
        assert(lines.take(k) =~= lines);
    }
}

/// The values after the inline `environment` entries, in order of their
/// keys: each stores its value expanded against the shell and the values so
/// far; the first expansion that fails is the error.
pub open spec fn env_entries_applied(
    entries: Seq<(Seq<char>, Seq<char>)>,
    shell: Seq<(Seq<char>, Seq<char>)>,
    values: Seq<(Seq<char>, Seq<char>)>,
) -> Result<Seq<(Seq<char>, Seq<char>)>, Seq<char>>
    decreases entries.len(),
{
    if entries.len() == 0 {
        Ok(values)
    } else {
        match env_entries_applied(entries.drop_last(), shell, values) {
            Err(e) => Err(e),
            Ok(prev) => match interpolated(entries.last().1, shell, prev) {
                Ok(v) => Ok(entry_insert(prev, entries.last().0, v)),
                Err(e) => Err(e),
            },
        }
    }
}

/// `values` with each of `entries` stored in turn.
pub open spec fn entries_stored(
    values: Seq<(Seq<char>, Seq<char>)>,
    entries: Seq<(Seq<char>, Seq<char>)>,
) -> Seq<(Seq<char>, Seq<char>)>
    decreases entries.len(),
{
    if entries.len() == 0 {
        values
    } else {
        entry_insert(entries_stored(values, entries.drop_last()), entries.last().0, entries.last().1)
    }
}

/// The environment of a command: the values read from its `.env` files,
/// then its inline `environment` entries expanded in order, then the
/// shell's own variables, which win over both.
pub fn apply_environment(
    values: &mut StrMap<String>,
    environment: &StrMap<String>,
    shell: &StrMap<String>,
) -> (r: Result<(), String>)
    ensures
        match env_entries_applied(text_pairs(environment@), text_pairs(shell@), text_pairs(old(values)@)) {
            Ok(m) => r is Ok && text_pairs(final(values)@) == entries_stored(m, text_pairs(shell@)),
            Err(e) => r matches Err(x) && x@ == e,
        },
{
    let ghost sh = text_pairs(shell@);
    let ghost env = text_pairs(environment@);
    let ghost start = text_pairs(values@);
    let n = environment.len();
    let mut k: usize = 0;
    assert(env.take(0) =~= Seq::<(Seq<char>, Seq<char>)>::empty());
    while k < n
        invariant
            n == environment@.len(),
            env == text_pairs(environment@),
            sh == text_pairs(shell@),
            start == text_pairs(old(values)@),
            k <= n,
            env_entries_applied(env.take(k as int), sh, start) == Ok::<Seq<(Seq<char>, Seq<char>)>, Seq<char>>(
                text_pairs(values@),
            ),
        decreases n - k,
    {
        assert(env.take(k + 1).drop_last() =~= env.take(k as int));
        let key = environment.key_at(k);
        let raw = environment.value_at(k);
        assert(env.take(k + 1).last() == (key@, raw@));
        match interpolate(raw.as_str(), shell, values) {
            Ok(expanded) => {
                proof {
                    lemma_text_pairs_insert(values@, key@, expanded);
                }
                values.insert(key.clone(), expanded);
            },
            Err(e) => {
                proof {
                    lemma_env_entries_err(env, k as int + 1, sh, start);
                }
                return Err(e);
            },
        }
        k = k + 1;
    }
    assert(env.take(n as int) =~= env);
    let ghost applied = text_pairs(values@);
    let m = shell.len();
    let mut j: usize = 0;
    assert(sh.take(0) =~= Seq::<(Seq<char>, Seq<char>)>::empty());
    while j < m
        invariant
            m == shell@.len(),
            sh == text_pairs(shell@),
            j <= m,
            text_pairs(values@) == entries_stored(applied, sh.take(j as int)),
        decreases m - j,
    {
        assert(sh.take(j + 1).drop_last() =~= sh.take(j as int));
        let key = shell.key_at(j);
        let value = shell.value_at(j);
        assert(sh.take(j + 1).last() == (key@, value@));
        let copied = value.clone();
        proof {
            lemma_text_pairs_insert(values@, key@, copied);
        }
        values.insert(key.clone(), copied);
        j = j + 1;
    }
    assert(sh.take(m as int) =~= sh);
    Ok(())
}

proof fn lemma_env_entries_err(
    entries: Seq<(Seq<char>, Seq<char>)>,
    k: int,
    sh: Seq<(Seq<char>, Seq<char>)>,
    start: Seq<(Seq<char>, Seq<char>)>,
)
    requires
        0 < k <= entries.len(),
        env_entries_applied(entries.take(k), sh, start) is Err,
    ensures
        env_entries_applied(entries, sh, start) == env_entries_applied(entries.take(k), sh, start),
    decreases entries.len() - k,
{
    if k < entries.len() {
        assert(entries.take(k + 1).drop_last() =~= entries.take(k));
        lemma_env_entries_err(entries, k + 1, sh, start);
    } else {
        assert(entries.take(k) =~= entries);
    }
}

} // verus!
