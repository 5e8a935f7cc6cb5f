//! Choosing how commands run: directly in a shell, through a runner, or
//! through a fallback runner; and adapting runner command lines.

use vstd::prelude::*;
use vstd::string::StringSliceAdditionalSpecFns;

use crate::paths::{file_name_of, path_file_name};
use crate::render::{shell_escape, shell_escaped};
use crate::strmap::str_equal;
use crate::text::{
    byte_len, is_whitespace, is_ws, join, join_strings, push_char, starts_with, starts_with_str, texts, to_string,
};

verus! {

/// How the commands of an invocation run.
#[derive(Clone, Debug, PartialEq, Eq)]
pub enum RunnerMode {
    /// In a shell of its own.
    Direct,
    /// Through the configured runner.
    Runner(String),
    /// Through the fallback runner, after the check failed.
    Fallback(String),
}

/// The mode, as text.
pub open spec fn mode_view(m: RunnerMode) -> (int, Seq<char>) {
    match m {
        RunnerMode::Direct => (0, Seq::empty()),
        RunnerMode::Runner(r) => (1, r@),
        RunnerMode::Fallback(r) => (2, r@),
    }
}

/// The runner mode, given the outcome of the check (when there is one):
/// the runner (or direct execution) when the check passed or there is
/// none; else the fallback runner; else an error.
pub open spec fn runner_choice(
    check_passed: Option<bool>,
    runner: Option<Seq<char>>,
    fallback_runner: Option<Seq<char>>,
) -> Option<(int, Seq<char>)> {
    let passed = match check_passed {
        Some(p) => p,
        None => true,
    };
    if passed {
        match runner {
            Some(r) => Some((1, r)),
            None => Some((0, Seq::empty())),
        }
    } else {
        match fallback_runner {
            Some(f) => Some((2, f)),
            None => None,
        }
    }
}

/// Chooses how to run, given whether the check command succeeded (`None`
/// when no check is configured).
pub fn select_runner_mode(
    check_passed: Option<bool>,
    runner: Option<&str>,
    fallback_runner: Option<&str>,
) -> (r: Result<RunnerMode, String>)
    ensures
        r matches Ok(m) ==> runner_choice(
            check_passed,
            match runner { Some(x) => Some(x@), None => None },
            match fallback_runner { Some(x) => Some(x@), None => None },
        ) == Some(mode_view(m)),
        r is Err ==> runner_choice(
            check_passed,
            match runner { Some(x) => Some(x@), None => None },
            match fallback_runner { Some(x) => Some(x@), None => None },
        ) is None,
{
    let passed = match check_passed {
        Some(p) => p,
        None => true,
    };
    if passed {
        return match runner {
            Some(r) => Ok(RunnerMode::Runner(to_string(r))),
            None => Ok(RunnerMode::Direct),
        };
    }
    match fallback_runner {
        Some(f) => Ok(RunnerMode::Fallback(to_string(f))),
        None => Err(to_string("Check command failed and no fallback_runner is configured.")),
    }
}

/// The `before` hook runs unless the fallback runner was chosen.
pub fn should_execute_before(mode: &RunnerMode) -> (r: bool)
    ensures
        r == !(mode is Fallback),
{
    !matches!(mode, RunnerMode::Fallback(_))
}

/// Only the exact value `false` turns command logging off.
pub fn is_disabled_flag(value: &str) -> (r: bool)
    ensures
        r == (value@ == "false"@),
{
    str_equal(value, "false")
}

/// Only the exact value `true` turns dry runs on.
pub fn is_enabled_flag(value: &str) -> (r: bool)
    ensures
        r == (value@ == "true"@),
{
    str_equal(value, "true")
}

/// The number of characters before the first white space of `s`.
pub open spec fn word_len(s: Seq<char>) -> nat
    decreases s.len(),
{
    if s.len() > 0 && !is_ws(s[0]) {
        1 + word_len(s.drop_first())
    } else {
        0
    }
}

pub proof fn lemma_word_len(s: Seq<char>)
    ensures
        word_len(s) <= s.len(),
        forall|j: int| 0 <= j < word_len(s) ==> !is_ws(#[trigger] s[j]),
        word_len(s) < s.len() ==> is_ws(s[word_len(s) as int]),
    decreases s.len(),
{
    if s.len() > 0 && !is_ws(s[0]) {
        lemma_word_len(s.drop_first());
        assert forall|j: int| 0 <= j < word_len(s) implies !is_ws(#[trigger] s[j]) by {
            if j > 0 {
                assert(s[j] == s.drop_first()[j - 1]);
            }
        }
    }
}

/// The white-space separated words of `s`, as `str::split_whitespace`
/// yields them.
pub open spec fn ws_words(s: Seq<char>) -> Seq<Seq<char>>
    decreases s.len(),
{
    if s.len() == 0 {
        Seq::empty()
    } else if is_ws(s[0]) {
        ws_words(s.drop_first())
    } else {
        let k = word_len(s);
        proof {
            lemma_word_len(s);
        }
        seq![s.subrange(0, k as int)] + ws_words(s.subrange(k as int, s.len() as int))
    }
}

/// Splits `s` at white space.
pub fn split_whitespace(s: &str) -> (r: Vec<String>)
    ensures
        r.deep_view() == ws_words(s@),
{
    let chars = crate::text::chars_of(s);
    let n = chars.len();
    let mut words: Vec<String> = Vec::new();
    let mut i: usize = 0;
    assert(s@.subrange(0, n as int) =~= s@);
    while i < n
        invariant
            chars@ == s@,
            n == s@.len(),
            i <= n,
            ws_words(s@) == words.deep_view() + ws_words(s@.subrange(i as int, n as int)),
        decreases n - i,
    {
        let ghost t = s@.subrange(i as int, n as int);
        if is_whitespace(chars[i]) {
            assert(t.drop_first() =~= s@.subrange(i + 1, n as int));
            i = i + 1;
        } else {
            let mut j = i;
            let mut word = String::new();
            while j < n && !is_whitespace(chars[j])
                invariant
                    chars@ == s@,
                    n == s@.len(),
                    i <= j <= n,
                    word@ == s@.subrange(i as int, j as int),
                    forall|x: int| i <= x < j ==> !is_ws(#[trigger] s@[x]),
                decreases n - j,
            {
                push_char(&mut word, chars[j]);
                assert(s@.subrange(i as int, j + 1) =~= s@.subrange(i as int, j as int).push(s@[j as int]));
                j = j + 1;
            }
            proof {
                lemma_word_len(t);
                let k = (j - i) as int;
                assert forall|x: int| 0 <= x < k implies !is_ws(#[trigger] t[x]) by {
                    assert(t[x] == s@[i + x]);
                }
                lemma_word_len_exact(t, k);
                assert(t.subrange(0, k) =~= word@);
                assert(t.subrange(k, t.len() as int) =~= s@.subrange(j as int, n as int));
            }
            let ghost before = words.deep_view();
            words.push(word);
            assert(words.deep_view() =~= before.push(s@.subrange(i as int, j as int)));
            i = j;
        }
    }
    assert(words.deep_view() + ws_words(s@.subrange(n as int, n as int)) =~= words.deep_view());
    words
}

proof fn lemma_word_len_exact(s: Seq<char>, k: int)
    requires
        0 < k <= s.len(),
        forall|x: int| 0 <= x < k ==> !is_ws(#[trigger] s[x]),
        k == s.len() || is_ws(s[k]),
    ensures
        word_len(s) == k,
    decreases k,
{
    if k > 1 {
        assert forall|x: int| 0 <= x < k - 1 implies !is_ws(#[trigger] s.drop_first()[x]) by {
            assert(s.drop_first()[x] == s[x + 1]);
        }
        lemma_word_len_exact(s.drop_first(), k - 1);
    } else {
        if s.len() > 1 {
            assert(s.drop_first()[0] == s[1]);
        }
        assert(word_len(s.drop_first()) == 0);
    }
}

/// `s` without its leading and trailing quote characters.
pub open spec fn trim_quotes_start(s: Seq<char>) -> Seq<char>
    decreases s.len(),
{
    if s.len() > 0 && (s[0] == '"' || s[0] == '\'') {
        trim_quotes_start(s.drop_first())
    } else {
        s
    }
}

/// `s` without its trailing quote characters.
pub open spec fn trim_quotes_end(s: Seq<char>) -> Seq<char>
    decreases s.len(),
{
    if s.len() > 0 && (s.last() == '"' || s.last() == '\'') {
        trim_quotes_end(s.drop_last())
    } else {
        s
    }
}

/// The index of the first character of `s` at or after `i` that is not a quote.
fn skip_leading_quotes(s: &str) -> (i: usize)
    ensures
        i <= s@.len(),
        trim_quotes_start(s@) == s@.subrange(i as int, s@.len() as int),
{
    let n = s.unicode_len();
    let mut i: usize = 0;
    assert(s@.subrange(0, n as int) =~= s@);
    while i < n && (s.get_char(i) == '"' || s.get_char(i) == '\'')
        invariant
            n == s@.len(),
            i <= n,
            trim_quotes_start(s@) == trim_quotes_start(s@.subrange(i as int, n as int)),
        decreases n - i,
    {
        assert(s@.subrange(i as int, n as int).drop_first() =~= s@.subrange(i + 1, n as int));
        i = i + 1;
    }
    i
}

/// The end of `s[i..]` once its trailing quotes are dropped.
fn skip_trailing_quotes(s: &str, i: usize) -> (j: usize)
    requires
        i <= s@.len(),
    ensures
        i <= j <= s@.len(),
        trim_quotes_end(s@.subrange(i as int, s@.len() as int)) == s@.subrange(i as int, j as int),
{
    let n = s.unicode_len();
    let ghost t = s@.subrange(i as int, n as int);
    let mut j: usize = n;
    assert(t.subrange(0, (n - i) as int) =~= t);
    while j > i && (s.get_char(j - 1) == '"' || s.get_char(j - 1) == '\'')
        invariant
            n == s@.len(),
            i <= j <= n,
            t == s@.subrange(i as int, n as int),
            trim_quotes_end(t) == trim_quotes_end(t.subrange(0, j - i)),
        decreases j,
    {
        assert(t.subrange(0, j - i).drop_last() =~= t.subrange(0, j - i - 1));
        j = j - 1;
    }
    assert(t.subrange(0, j - i) =~= s@.subrange(i as int, j as int));
    j
}

fn trim_quotes(s: &str) -> (r: &str)
    ensures
        r@ == trim_quotes_end(trim_quotes_start(s@)),
{
    let i = skip_leading_quotes(s);
    let j = skip_trailing_quotes(s, i);
    s.substring_char(i, j)
}

/// The shells that can run an attached script.
pub open spec fn is_interactive_shell(value: Seq<char>) -> bool {
    value == "sh"@ || value == "bash"@ || value == "zsh"@ || value == "ash"@ || value == "dash"@
        || value == "ksh"@ || value == "mksh"@ || value == "fish"@
}

/// Whether `value` names a shell that can run an attached script.
pub fn is_supported_interactive_shell(value: &str) -> (r: bool)
    ensures
        r == is_interactive_shell(value@),
{
    str_equal(value, "sh") || str_equal(value, "bash") || str_equal(value, "zsh") || str_equal(
        value,
        "ash",
    ) || str_equal(value, "dash") || str_equal(value, "ksh") || str_equal(value, "mksh")
        || str_equal(value, "fish")
}

/// The script that runs the commands in order and stops at the first failure.
pub open spec fn runner_script(commands: Seq<Seq<char>>) -> Seq<char>
    decreases commands.len(),
{
    if commands.len() == 0 {
        "set -e\n"@
    } else {
        runner_script(commands.drop_last()) + commands.last() + seq!['\n']
    }
}

/// Builds the script for a shell runner.
pub fn build_runner_script(commands: &[String]) -> (r: String)
    ensures
        r@ == runner_script(commands@.map_values(|c: String| c@)),
{
    let ghost cs = commands@.map_values(|c: String| c@);
    let mut script = to_string("set -e\n");
    let mut i: usize = 0;
    while i < commands.len()
        invariant
            i <= commands@.len(),
            cs == commands@.map_values(|c: String| c@),
            script@ == runner_script(cs.subrange(0, i as int)),
        decreases commands@.len() - i,
    {
        script.append(commands[i].as_str());
        push_char(&mut script, '\n');
        assert(cs.subrange(0, i + 1).drop_last() =~= cs.subrange(0, i as int));
        i = i + 1;
    }
    assert(cs.subrange(0, cs.len() as int) =~= cs);
    script
}

/// The index of the last element of `tokens` that does not start with `-`.
pub open spec fn last_non_flag(tokens: Seq<Seq<char>>) -> int
    decreases tokens.len(),
{
    if tokens.len() == 0 {
        -1
    } else if tokens.last().len() > 0 && tokens.last()[0] == '-' {
        last_non_flag(tokens.drop_last())
    } else {
        tokens.len() - 1
    }
}

/// The invocation that runs the commands through a shell runner with the
/// terminal attached: `<runner> -c '<script>'`, when the runner's last
/// non-flag word names a known shell.
pub open spec fn attached_invocation(runner: Seq<char>, commands: Seq<Seq<char>>) -> Option<Seq<char>> {
    let tokens = ws_words(runner);
    let k = last_non_flag(tokens);
    if commands.len() == 0 || tokens.len() == 0 || k < 0 {
        None
    } else {
        match file_name_of(trim_quotes_end(trim_quotes_start(tokens[k]))) {
            Some(name) => if is_interactive_shell(name) {
                Some(runner + " -c "@ + shell_escaped(runner_script(commands)))
            } else {
                None
            },
            None => None,
        }
    }
}

/// The attached invocation of a shell runner, if it is one.
pub fn build_attached_shell_runner_invocation(runner: &str, commands: &[String]) -> (r: Option<String>)
    ensures
        r matches Some(v) ==> attached_invocation(runner@, commands@.map_values(|c: String| c@)) == Some(v@),
        r is None ==> attached_invocation(runner@, commands@.map_values(|c: String| c@)) is None,
{
    if commands.len() == 0 {
        return None;
    }
    let tokens = split_whitespace(runner);
    let ghost tv = tokens.deep_view();
    if tokens.len() == 0 {
        return None;
    }
    let mut k = tokens.len();
    assert(tv.subrange(0, tv.len() as int) =~= tv);
    while k > 0 && tokens[k - 1].as_str().unicode_len() > 0 && tokens[k - 1].as_str().get_char(0) == '-'
        invariant
            k <= tokens@.len(),
            tv == tokens.deep_view(),
            last_non_flag(tv) == last_non_flag(tv.subrange(0, k as int)),
        decreases k,
    {
        assert(tv.subrange(0, k as int).drop_last() =~= tv.subrange(0, k - 1));
        k = k - 1;
    }
    if k == 0 {
        return None;
    }
    assert(last_non_flag(tv.subrange(0, k as int)) == k - 1);
    let shell_token = trim_quotes(tokens[k - 1].as_str());
    let shell_name = match path_file_name(shell_token) {
        Some(name) => name,
        None => {
            return None;
        },
    };
    if !is_supported_interactive_shell(shell_name.as_str()) {
        return None;
    }
    let script = build_runner_script(commands);
    let mut r = to_string(runner);
    r.append(" -c ");
    let quoted = shell_escape(script.as_str());
    r.append(quoted.as_str());
    Some(r)
}

/// `s` without the characters `c`.
pub open spec fn without_char(s: Seq<char>, c: char) -> Seq<char>
    decreases s.len(),
{
    if s.len() == 0 {
        Seq::empty()
    } else {
        let p = without_char(s.drop_last(), c);
        if s.last() == c {
            p
        } else {
            p.push(s.last())
        }
    }
}

/// A runner word as it stands when commands are piped in: TTY flags go,
/// `-it` becomes `-i`, and `t` leaves short flag groups.
pub open spec fn piped_token(t: Seq<char>) -> Option<Seq<char>> {
    if t == "-t"@ || t == "--tty"@ {
        None
    } else if t == "-it"@ || t == "-ti"@ {
        Some("-i"@)
    } else if t.len() > 0 && t[0] == '-' && !starts_with(t, "--"@) && byte_len(t) > 2 {
        let flags = without_char(t.drop_first(), 't');
        if flags.len() == 0 {
            None
        } else {
            Some(seq![t[0]] + flags)
        }
    } else {
        Some(t)
    }
}

/// The runner words as they stand when commands are piped in.
pub open spec fn piped_tokens(ts: Seq<Seq<char>>) -> Seq<Seq<char>>
    decreases ts.len(),
{
    if ts.len() == 0 {
        Seq::empty()
    } else {
        let p = piped_tokens(ts.drop_last());
        match piped_token(ts.last()) {
            Some(x) => p.push(x),
            None => p,
        }
    }
}

/// The position of the first `w` in `ts`, or -1.
pub open spec fn index_of(ts: Seq<Seq<char>>, w: Seq<char>) -> int
    decreases ts.len(),
{
    if ts.len() == 0 {
        -1
    } else if ts[0] == w {
        0
    } else {
        let k = index_of(ts.drop_first(), w);
        if k < 0 {
            -1
        } else {
            k + 1
        }
    }
}

/// The position of `exec` in a `docker-compose` or `docker compose`
/// command, or -1.
pub open spec fn compose_exec_index(ts: Seq<Seq<char>>) -> int {
    if ts.len() > 0 && ts[0] == "docker-compose"@ {
        index_of(ts, "exec"@)
    } else if ts.len() >= 2 && ts[0] == "docker"@ && ts[1] == "compose"@ {
        index_of(ts, "exec"@)
    } else {
        -1
    }
}

/// The words of a compose `exec` runner with `-T` after `exec`, unless it
/// already turns the TTY off.
pub open spec fn non_tty_tokens(ts: Seq<Seq<char>>) -> Seq<Seq<char>> {
    let k = compose_exec_index(ts);
    if k < 0 || ts.contains("-T"@) || ts.contains("--no-tty"@) {
        ts
    } else {
        ts.insert(k + 1, "-T"@)
    }
}

fn position_of(tokens: &Vec<String>, w: &str) -> (r: Option<usize>)
    ensures
        r matches Some(k) ==> index_of(texts(tokens@), w@) == k,
        r is None ==> index_of(texts(tokens@), w@) == -1,
{
    let ghost ts = texts(tokens@);
    let mut i: usize = 0;
    while i < tokens.len()
        invariant
            ts == texts(tokens@),
            i <= ts.len(),
            forall|x: int| 0 <= x < i ==> ts[x] != w@,
        decreases ts.len() - i,
    {
        if str_equal(tokens[i].as_str(), w) {
            proof {
                lemma_index_of(ts, w@, i as int);
            }
            return Some(i);
        }
        i = i + 1;
    }
    proof {
        lemma_index_of(ts, w@, ts.len() as int);
    }
    None
}

proof fn lemma_index_of(ts: Seq<Seq<char>>, w: Seq<char>, i: int)
    requires
        0 <= i <= ts.len(),
        forall|x: int| 0 <= x < i ==> ts[x] != w,
        i < ts.len() ==> ts[i] == w,
    ensures
        index_of(ts, w) == if i < ts.len() {
            i
        } else {
            -1
        },
    decreases i,
{
    if i > 0 {
        assert forall|x: int| 0 <= x < i - 1 implies ts.drop_first()[x] != w by {
            assert(ts.drop_first()[x] == ts[x + 1]);
        }
        if i < ts.len() {
            assert(ts.drop_first()[i - 1] == ts[i]);
        }
        lemma_index_of(ts.drop_first(), w, i - 1);
    }
}

fn contains_word(tokens: &Vec<String>, w: &str) -> (r: bool)
    ensures
        r == texts(tokens@).contains(w@),
{
    match position_of(tokens, w) {
        Some(k) => {
            proof {
                lemma_index_of_found(texts(tokens@), w@);
            }
            true
        },
        None => {
            proof {
                lemma_index_of_found(texts(tokens@), w@);
            }
            false
        },
    }
}

proof fn lemma_index_of_found(ts: Seq<Seq<char>>, w: Seq<char>)
    ensures
        index_of(ts, w) >= 0 <==> ts.contains(w),
        index_of(ts, w) >= 0 ==> index_of(ts, w) < ts.len() && ts[index_of(ts, w)] == w,
        index_of(ts, w) >= -1,
    decreases ts.len(),
{
    if ts.len() > 0 {
        lemma_index_of_found(ts.drop_first(), w);
        if ts[0] != w {
            if ts.contains(w) {
                let x = choose|x: int| 0 <= x < ts.len() && ts[x] == w;
                assert(ts.drop_first()[x - 1] == w);
            }
            if ts.drop_first().contains(w) {
                let x = choose|x: int| 0 <= x < ts.drop_first().len() && ts.drop_first()[x] == w;
                assert(ts[x + 1] == w);
            }
        }
    }
}

proof fn lemma_without_char_drops(s: Seq<char>, c: char)
    ensures
        forall|j: int| 0 <= j < without_char(s, c).len() ==> #[trigger] without_char(s, c)[j] != c,
    decreases s.len(),
{
    if s.len() > 0 {
        let p = without_char(s.drop_last(), c);
        lemma_without_char_drops(s.drop_last(), c);
        assert forall|j: int| 0 <= j < without_char(s, c).len() implies #[trigger] without_char(s, c)[j] != c by {
            if j < p.len() {
                assert(without_char(s, c)[j] == p[j]);
            }
        }
    }
}

/// Whether a runner word asks for a TTY: `-t`, `--tty`, `-it` or `-ti`.
pub open spec fn is_tty_word(x: Seq<char>) -> bool {
    x == "-t"@ || x == "--tty"@ || x == "-it"@ || x == "-ti"@
}

proof fn lemma_tty_words()
    ensures
        "-t"@ == seq!['-', 't'],
        "--tty"@ == seq!['-', '-', 't', 't', 'y'],
        "-it"@ == seq!['-', 'i', 't'],
        "-ti"@ == seq!['-', 't', 'i'],
        "-i"@ == seq!['-', 'i'],
        "--"@ == seq!['-', '-'],
{
    reveal_strlit("-t");
    reveal_strlit("--tty");
    reveal_strlit("-it");
    reveal_strlit("-ti");
    reveal_strlit("-i");
    reveal_strlit("--");
    assert("-t"@ =~= seq!['-', 't']);
    assert("--tty"@ =~= seq!['-', '-', 't', 't', 'y']);
    assert("-it"@ =~= seq!['-', 'i', 't']);
    assert("-ti"@ =~= seq!['-', 't', 'i']);
    assert("-i"@ =~= seq!['-', 'i']);
    assert("--"@ =~= seq!['-', '-']);
}

/// A word with no `t` after its first character asks for no TTY.
proof fn lemma_no_t_not_tty(x: Seq<char>)
    requires
        forall|j: int| 1 <= j < x.len() ==> x[j] != 't',
    ensures
        !is_tty_word(x),
{
    lemma_tty_words();
    if x == "-t"@ || x == "-ti"@ {
        assert(x[1] == 't');
    }
    if x == "--tty"@ || x == "-it"@ {
        assert(x[2] == 't');
    }
}

proof fn lemma_piped_token_not_tty(t: Seq<char>)
    ensures
        piped_token(t) matches Some(x) ==> !is_tty_word(x),
{
    lemma_tty_words();
    if t == "-t"@ || t == "--tty"@ {
    } else if t == "-it"@ || t == "-ti"@ {
        lemma_no_t_not_tty("-i"@);
    } else if t.len() > 0 && t[0] == '-' && !starts_with(t, "--"@) && byte_len(t) > 2 {
        let flags = without_char(t.drop_first(), 't');
        lemma_without_char_drops(t.drop_first(), 't');
        let x = seq![t[0]] + flags;
        assert forall|j: int| 1 <= j < x.len() implies x[j] != 't' by {
            assert(x[j] == flags[j - 1]);
        }
        lemma_no_t_not_tty(x);
    }
}

/// A runner made ready for a pipe asks for no TTY: none of its words is
/// `-t`, `--tty`, `-it` or `-ti`.
pub proof fn lemma_piped_tokens_ask_no_tty(ts: Seq<Seq<char>>)
    ensures
        forall|i: int| 0 <= i < piped_tokens(ts).len() ==> !is_tty_word(#[trigger] piped_tokens(ts)[i]),
    decreases ts.len(),
{
    if ts.len() > 0 {
        lemma_piped_tokens_ask_no_tty(ts.drop_last());
        lemma_piped_token_not_tty(ts.last());
        let p = piped_tokens(ts.drop_last());
        assert forall|i: int| 0 <= i < piped_tokens(ts).len() implies !is_tty_word(#[trigger] piped_tokens(ts)[i]) by {
            if i < p.len() {
                assert(piped_tokens(ts)[i] == p[i]);
            }
        }
    }
}

proof fn lemma_index_of_first(ts: Seq<Seq<char>>, w: Seq<char>, k: int)
    requires
        0 <= k < ts.len(),
        ts[k] == w,
        forall|j: int| 0 <= j < k ==> ts[j] != w,
    ensures
        index_of(ts, w) == k,
    decreases k,
{
    if k > 0 {
        assert forall|j: int| 0 <= j < k - 1 implies ts.drop_first()[j] != w by {
            assert(ts.drop_first()[j] == ts[j + 1]);
        }
        lemma_index_of_first(ts.drop_first(), w, k - 1);
    }
}

/// Whether the first words of a runner start a compose command:
/// `docker-compose`, or `docker compose`.
pub open spec fn is_compose_runner(ts: Seq<Seq<char>>) -> bool {
    (ts.len() > 0 && ts[0] == "docker-compose"@) || (ts.len() >= 2 && ts[0] == "docker"@ && ts[1] == "compose"@)
}

/// A compose runner that runs `exec` and has no flag turning the TTY off
/// gets `-T` right after its first `exec`, its other words kept in order.
pub proof fn lemma_non_tty_inserts_after_first_exec(ts: Seq<Seq<char>>, k: int)
    requires
        is_compose_runner(ts),
        0 <= k < ts.len(),
        ts[k] == "exec"@,
        forall|j: int| 0 <= j < k ==> ts[j] != "exec"@,
        !ts.contains("-T"@),
        !ts.contains("--no-tty"@),
    ensures
        non_tty_tokens(ts) == ts.take(k + 1) + seq!["-T"@] + ts.skip(k + 1),
{
    lemma_index_of_first(ts, "exec"@, k);
    assert(ts.insert(k + 1, "-T"@) =~= ts.take(k + 1) + seq!["-T"@] + ts.skip(k + 1));
}

/// A runner that is no compose runner, runs no `exec`, or already turns
/// the TTY off with `-T` or `--no-tty`, is left as it is.
pub proof fn lemma_non_tty_keeps_other_runners(ts: Seq<Seq<char>>)
    requires
        !is_compose_runner(ts) || !ts.contains("exec"@) || ts.contains("-T"@) || ts.contains("--no-tty"@),
    ensures
        non_tty_tokens(ts) == ts,
{
    lemma_index_of_found(ts, "exec"@);
}

/// Adds `-T` after `exec` in a compose `exec` runner that has no flag
/// turning the TTY off.
pub fn ensure_non_tty_for_docker_compose_exec(tokens: &mut Vec<String>)
    ensures
        texts(final(tokens)@) == non_tty_tokens(texts(old(tokens)@)),
{
    let ghost ts = texts(tokens@);
    proof {
        reveal_strlit("docker-compose");
        reveal_strlit("docker");
        reveal_strlit("compose");
        lemma_index_of_found(ts, "exec"@);
    }
    if tokens.len() == 0 {
        return;
    }
    let exec_index = if str_equal(tokens[0].as_str(), "docker-compose") {
        position_of(tokens, "exec")
    } else if tokens.len() >= 2 && str_equal(tokens[0].as_str(), "docker") && str_equal(tokens[1].as_str(), "compose") {
        position_of(tokens, "exec")
    } else {
        None
    };
    let exec_index = match exec_index {
        Some(k) => k,
        None => {
            return;
        },
    };
    if contains_word(tokens, "-T") || contains_word(tokens, "--no-tty") {
        return;
    }
    tokens.insert(exec_index + 1, to_string("-T"));
    assert(texts(tokens@) =~= ts.insert(exec_index + 1, "-T"@));
}

fn piped_word(t: &str) -> (r: Option<String>)
    ensures
        r matches Some(x) ==> piped_token(t@) == Some(x@),
        r is None ==> piped_token(t@) is None,
{
    proof {
        reveal_strlit("-t");
        reveal_strlit("--tty");
        reveal_strlit("-it");
        reveal_strlit("-ti");
        reveal_strlit("-i");
        reveal_strlit("--");
    }
    if str_equal(t, "-t") || str_equal(t, "--tty") {
        return None;
    }
    if str_equal(t, "-it") || str_equal(t, "-ti") {
        return Some(to_string("-i"));
    }
    let n = t.unicode_len();
    if n > 0 && t.get_char(0) == '-' && !starts_with_str(t, "--") && t.len() > 2 {
        let mut flags = String::new();
        let mut i: usize = 1;
        let ghost rest = t@.drop_first();
        assert(rest.subrange(0, 0).len() == 0);
        while i < n
            invariant
                n == t@.len(),
                1 <= i <= n,
                rest == t@.drop_first(),
                flags@ == without_char(rest.subrange(0, i - 1), 't'),
            decreases n - i,
        {
            let c = t.get_char(i);
            assert(rest.subrange(0, i as int).drop_last() =~= rest.subrange(0, i - 1));
            assert(rest.subrange(0, i as int).last() == c);
            if c != 't' {
                push_char(&mut flags, c);
            }
            i = i + 1;
        }
        assert(rest.subrange(0, n - 1) =~= rest);
        if flags.unicode_len() == 0 {
            return None;
        }
        let mut out = String::new();
        push_char(&mut out, '-');
        out.append(flags.as_str());
        assert(out@ =~= seq![t@[0]] + flags@);
        return Some(out);
    }
    Some(to_string(t))
}

/// The runner as it is started when commands are piped into it: its words
/// made TTY-free, or the runner itself when no word is left.
pub open spec fn piped_runner(runner: Seq<char>) -> Seq<char> {
    let out = non_tty_tokens(piped_tokens(ws_words(runner)));
    if out.len() == 0 {
        runner
    } else {
        join(out, seq![' '])
    }
}

/// Drops the TTY flags from a runner that reads its commands from a pipe.
pub fn normalize_runner_for_piped_stdin(runner: &str) -> (r: String)
    ensures
        r@ == piped_runner(runner@),
{
    let words = split_whitespace(runner);
    let ghost wv = words.deep_view();
    let mut out: Vec<String> = Vec::new();
    let mut i: usize = 0;
    assert(wv.take(0).len() == 0);
    assert(texts(out@) =~= piped_tokens(wv.take(0)));
    while i < words.len()
        invariant
            wv == words.deep_view(),
            i <= wv.len(),
            texts(out@) == piped_tokens(wv.take(i as int)),
        decreases wv.len() - i,
    {
        assert(wv.take(i + 1).drop_last() =~= wv.take(i as int));
        assert(wv.take(i + 1).last() == words@[i as int]@);
        match piped_word(words[i].as_str()) {
            Some(x) => {
                let ghost before = texts(out@);
                out.push(x);
                assert(texts(out@) =~= before.push(x@));
            },
            None => {},
        }
        i = i + 1;
    }
    assert(wv.take(wv.len() as int) =~= wv);
    ensure_non_tty_for_docker_compose_exec(&mut out);
    if out.len() == 0 {
        to_string(runner)
    } else {
        proof {
            reveal_strlit(" ");
            assert(" "@ =~= seq![' ']);
        }
        join_strings(&out, " ")
    }
}

/// What running commands through a runner does.
pub enum RunnerPlan {
    /// Nothing: there is no command.
    Nothing,
    /// A dry run: the runner (made TTY-free) and the commands are logged
    /// and nothing runs.
    DryRun { runner: String },
    /// The invocation runs the script with the terminal attached.
    Attached { invocation: String },
    /// The runner (made TTY-free) starts and `input` goes to its standard
    /// input.
    Piped { runner: String, input: String },
}

/// What a runner reads when commands are piped into it: the script, then
/// `exit`.
pub open spec fn piped_input(commands: Seq<Seq<char>>) -> Seq<char> {
    runner_script(commands) + "exit\n"@
}

/// Decides how the commands run through `runner`: nothing for no command;
/// a dry run when asked for; attached to the terminal when there is one
/// and the runner is a shell; else piped.
pub fn run_with_runner(runner: &str, commands: &[String], dry_run: bool, terminal: bool) -> (r: RunnerPlan)
    ensures
        ({
            let cs = commands@.map_values(|c: String| c@);
            if cs.len() == 0 {
                r is Nothing
            } else if dry_run {
                r matches RunnerPlan::DryRun { runner: x } && x@ == piped_runner(runner@)
            } else if terminal && attached_invocation(runner@, cs) is Some {
                r matches RunnerPlan::Attached { invocation } && Some(invocation@) == attached_invocation(runner@, cs)
            } else {
                r matches RunnerPlan::Piped { runner: x, input } && x@ == piped_runner(runner@) && input@
                    == piped_input(cs)
            }
        }),
{
    if commands.len() == 0 {
        return RunnerPlan::Nothing;
    }
    if dry_run {
        return RunnerPlan::DryRun { runner: normalize_runner_for_piped_stdin(runner) };
    }
    if terminal {
        if let Some(invocation) = build_attached_shell_runner_invocation(runner, commands) {
            return RunnerPlan::Attached { invocation };
        }
    }
    let mut input = build_runner_script(commands);
    input.append("exit\n");
    RunnerPlan::Piped { runner: normalize_runner_for_piped_stdin(runner), input }
}

} // verus!
