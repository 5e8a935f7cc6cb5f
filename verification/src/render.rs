//! Rendering of command templates: macros, computed tokens, positional
//! placeholders and argument spreads, and the quoting of values for a shell
//! or for a runtime expression.

use vstd::prelude::*;

use crate::strmap::{str_equal, StrMap};
use crate::text::{
    byte_len, contains, contains_str, find, find_str, is_ascii_alnum, is_ascii_alphanumeric, is_cc,
    is_control, is_ws, join, push_char, replace_all, replace_str, to_string, trim, trim_str,
    lemma_find_result, occurs_at,
};
use crate::words::{shell_words, shell_words_from, Quote};

verus! {

/// A set of argument indexes, each held once.
#[derive(Debug)]
pub struct IndexSet {
    items: Vec<usize>,
}

impl View for IndexSet {
    type V = Set<usize>;

    closed spec fn view(&self) -> Set<usize> {
        self.items@.to_set()
    }
}

impl IndexSet {
    #[verifier::type_invariant]
    closed spec fn distinct(self) -> bool {
        self.items@.no_duplicates()
    }

    /// An empty set.
    pub fn new() -> (s: Self)
        ensures
            s@ == Set::<usize>::empty(),
    {
        let s = IndexSet { items: Vec::new() };
        assert(s@ =~= Set::<usize>::empty());
        s
    }

    /// Whether `i` is in the set.
    pub fn contains(&self, i: &usize) -> (r: bool)
        ensures
            r == self@.contains(*i),
    {
        let mut k: usize = 0;
        while k < self.items.len()
            invariant
                k <= self.items@.len(),
                forall|j: int| 0 <= j < k ==> self.items@[j] != *i,
            decreases self.items@.len() - k,
        {
            if self.items[k] == *i {
                assert(self.items@.to_set().contains(self.items@[k as int]));
                return true;
            }
            k = k + 1;
        }
        assert(!self.items@.to_set().contains(*i)) by {
            if self.items@.to_set().contains(*i) {
                assert(self.items@.contains(*i));
            }
        }
        false
    }

    /// Adds `i` to the set.
    pub fn insert(&mut self, i: usize)
        ensures
            final(self)@ == old(self)@.insert(i),
    {
        proof {
            use_type_invariant(&*self);
        }
        if !self.contains(&i) {
            let mut items: Vec<usize> = Vec::new();
            std::mem::swap(&mut items, &mut self.items);
            let ghost before = items@;
            items.push(i);
            assert(items@.no_duplicates()) by {
                assert forall|a: int, b: int| 0 <= a < b < items@.len() implies items@[a] != items@[b] by {
                    if b == items@.len() - 1 {
                        assert(before.to_set().contains(before[a]));
                    }
                }
            }
            assert forall|x: usize| items@.contains(x) <==> (before.contains(x) || x == i) by {
                if items@.contains(x) {
                    let k = choose|k: int| 0 <= k < items@.len() && items@[k] == x;
                    if k < before.len() {
                        assert(before[k] == x);
                    }
                }
                if before.contains(x) {
                    let k = choose|k: int| 0 <= k < before.len() && before[k] == x;
                    assert(items@[k] == x);
                }
                if x == i {
                    assert(items@[before.len() as int] == x);
                }
            }
            assert(items@.to_set() =~= before.to_set().insert(i));
            self.items = items;
        } else {
            assert(self@.insert(i) =~= self@);
        }
    }

    /// The number of indexes in the set.
    pub fn len(&self) -> (n: usize)
        ensures
            n == self@.len(),
    {
        proof {
            use_type_invariant(self);
            self.items@.unique_seq_to_set();
        }
        self.items.len()
    }
}

/// What a rendered value feeds: a shell, or a runtime expression.
#[derive(Clone, Copy, Debug, PartialEq, Eq, Structural)]
pub enum RenderMode {
    Shell,
    Eval,
}

/// The two literal forms that spread the unused arguments.
#[derive(Clone, Copy, Debug, PartialEq, Eq, Structural)]
pub enum ArrayLiteralKind {
    /// `...<placeholder>`
    Spread,
    /// `[<placeholder>]`
    Bracket,
}

/// Which arguments the placeholders used, and whether any placeholder was met.
#[derive(Debug)]
pub struct RenderStats {
    pub used_arg_indexes: IndexSet,
    pub had_placeholders: bool,
}

impl RenderStats {
    /// Statistics with no argument used and no placeholder met.
    pub fn new() -> (s: Self)
        ensures
            s.used_arg_indexes@ == Set::<usize>::empty(),
            !s.had_placeholders,
    {
        RenderStats { used_arg_indexes: IndexSet::new(), had_placeholders: false }
    }
}

/// Characters that a shell takes literally.
pub open spec fn is_shell_safe(c: char) -> bool {
    is_ascii_alnum(c) || c == '_' || c == '-' || c == '.' || c == '/' || c == ':' || c == '='
}

/// `value` quoted for a POSIX shell: `''` when empty, unchanged when every
/// character is safe, otherwise in single quotes with each `'` written as
/// `'"'"'`.
pub open spec fn shell_escaped(value: Seq<char>) -> Seq<char> {
    if value.len() == 0 {
        seq!['\'', '\'']
    } else if forall|i: int| 0 <= i < value.len() ==> is_shell_safe(#[trigger] value[i]) {
        value
    } else {
        seq!['\''] + replace_all(value, seq!['\''], seq!['\'', '"', '\'', '"', '\'']) + seq!['\'']
    }
}

/// Quotes `value` for a POSIX shell.
pub fn shell_escape(value: &str) -> (r: String)
    ensures
        r@ == shell_escaped(value@),
{
    let n = value.unicode_len();
    if n == 0 {
        let mut r = String::new();
        push_char(&mut r, '\'');
        push_char(&mut r, '\'');
        assert(r@ =~= seq!['\'', '\'']);
        return r;
    }
    let mut i: usize = 0;
    let mut safe = true;
    while i < n
        invariant
            n == value@.len(),
            i <= n,
            safe == forall|k: int| 0 <= k < i ==> is_shell_safe(#[trigger] value@[k]),
        decreases n - i,
    {
        let c = value.get_char(i);
        if !(is_ascii_alphanumeric(c) || c == '_' || c == '-' || c == '.' || c == '/' || c == ':' || c == '=') {
            safe = false;
        }
        i = i + 1;
    }
    if safe {
        return to_string(value);
    }
    let mut quote = String::new();
    push_char(&mut quote, '\'');
    let mut with = String::new();
    push_char(&mut with, '\'');
    push_char(&mut with, '"');
    push_char(&mut with, '\'');
    push_char(&mut with, '"');
    push_char(&mut with, '\'');
    assert(quote@ =~= seq!['\'']);
    assert(with@ =~= seq!['\'', '"', '\'', '"', '\'']);
    let mut r = String::new();
    push_char(&mut r, '\'');
    let inner = replace_str(value, quote.as_str(), with.as_str());
    r.append(inner.as_str());
    push_char(&mut r, '\'');
    assert(r@ =~= seq!['\''] + inner@ + seq!['\'']);
    r
}

proof fn lemma_read_safe(input: Seq<char>, i: int, k: int, words: Seq<Seq<char>>, current: Seq<char>)
    requires
        0 <= i,
        0 <= k,
        i + k <= input.len(),
        forall|j: int| i <= j < i + k ==> is_shell_safe(#[trigger] input[j]),
    ensures
        shell_words_from(input, i, words, current, Quote::Unquoted) == shell_words_from(
            input,
            i + k,
            words,
            current + input.subrange(i, i + k),
            Quote::Unquoted,
        ),
    decreases k,
{
    if k == 0 {
        assert(current + input.subrange(i, i) =~= current);
    } else {
        let ch = input[i];
        assert(is_shell_safe(ch));
        assert(!is_ws(ch));
        lemma_read_safe(input, i + 1, k - 1, words, current.push(ch));
        assert(current.push(ch) + input.subrange(i + 1, i + k) =~= current + input.subrange(i, i + k));
    }
}

proof fn lemma_read_single(input: Seq<char>, i: int, k: int, words: Seq<Seq<char>>, current: Seq<char>)
    requires
        0 <= i,
        0 <= k,
        i + k <= input.len(),
        forall|j: int| i <= j < i + k ==> #[trigger] input[j] != '\'',
    ensures
        shell_words_from(input, i, words, current, Quote::Single) == shell_words_from(
            input,
            i + k,
            words,
            current + input.subrange(i, i + k),
            Quote::Single,
        ),
    decreases k,
{
    if k == 0 {
        assert(current + input.subrange(i, i) =~= current);
    } else {
        let ch = input[i];
        lemma_read_single(input, i + 1, k - 1, words, current.push(ch));
        assert(current.push(ch) + input.subrange(i + 1, i + k) =~= current + input.subrange(i, i + k));
    }
}

/// Inside single quotes, the quoted body of `v` reads back as `v`.
proof fn lemma_read_quoted_body(input: Seq<char>, i: int, v: Seq<char>, words: Seq<Seq<char>>, current: Seq<char>)
    requires
        0 <= i,
        i + replace_all(v, seq!['\''], seq!['\'', '"', '\'', '"', '\'']).len() <= input.len(),
        input.subrange(i, i + replace_all(v, seq!['\''], seq!['\'', '"', '\'', '"', '\'']).len())
            == replace_all(v, seq!['\''], seq!['\'', '"', '\'', '"', '\'']),
    ensures
        shell_words_from(input, i, words, current, Quote::Single) == shell_words_from(
            input,
            i + replace_all(v, seq!['\''], seq!['\'', '"', '\'', '"', '\'']).len(),
            words,
            current + v,
            Quote::Single,
        ),
    decreases v.len(),
{
    let quote = seq!['\''];
    let with = seq!['\'', '"', '\'', '"', '\''];
    let r = replace_all(v, quote, with);
    let f = find(v, quote);
    lemma_find_result(v, quote);
    if f < 0 {
        assert(r == v);
        assert forall|j: int| i <= j < i + v.len() implies #[trigger] input[j] != '\'' by {
            assert(input[j] == input.subrange(i, i + r.len())[j - i]);
            if v[j - i] == '\'' {
                assert(v.subrange(j - i, j - i + 1) =~= quote);
                assert(occurs_at(v, quote, j - i));
            }
        }
        lemma_read_single(input, i, v.len() as int, words, current);
        assert(input.subrange(i, i + v.len()) =~= v);
    } else {
        let p = v.subrange(0, f);
        let rest = v.subrange(f + 1, v.len() as int);
        let rr = replace_all(rest, quote, with);
        assert(r == p + with + rr);
        assert(v.subrange(f, f + 1) =~= quote);
        assert(v =~= p + quote + rest);
        assert forall|j: int| i <= j < i + f implies #[trigger] input[j] != '\'' by {
            assert(input[j] == r[j - i]);
            assert(r[j - i] == p[j - i]);
            if v[j - i] == '\'' {
                assert(v.subrange(j - i, j - i + 1) =~= quote);
                assert(occurs_at(v, quote, j - i));
            }
        }
        lemma_read_single(input, i, f, words, current);
        assert(input.subrange(i, i + f) =~= p);
        let c1 = current + p;
        let k = i + f;
        assert(input[k] == r[f]);
        assert(input[k + 1] == r[f + 1]);
        assert(input[k + 2] == r[f + 2]);
        assert(input[k + 3] == r[f + 3]);
        assert(input[k + 4] == r[f + 4]);
        assert(input[k] == '\'');
        assert(input[k + 1] == '"');
        assert(input[k + 2] == '\'');
        assert(input[k + 3] == '"');
        assert(input[k + 4] == '\'');
        assert(shell_words_from(input, k, words, c1, Quote::Single) == shell_words_from(input, k + 1, words, c1, Quote::Unquoted));
        assert(shell_words_from(input, k + 1, words, c1, Quote::Unquoted) == shell_words_from(input, k + 2, words, c1, Quote::Double));
        assert(shell_words_from(input, k + 2, words, c1, Quote::Double) == shell_words_from(input, k + 3, words, c1.push('\''), Quote::Double));
        assert(shell_words_from(input, k + 3, words, c1.push('\''), Quote::Double) == shell_words_from(input, k + 4, words, c1.push('\''), Quote::Unquoted));
        assert(shell_words_from(input, k + 4, words, c1.push('\''), Quote::Unquoted) == shell_words_from(input, k + 5, words, c1.push('\''), Quote::Single));
        assert(input.subrange(k + 5, k + 5 + rr.len()) =~= rr) by {
            assert forall|j: int| 0 <= j < rr.len() implies input.subrange(k + 5, k + 5 + rr.len())[j] == rr[j] by {
                assert(input[k + 5 + j] == r[f + 5 + j]);
            }
        }
        lemma_read_quoted_body(input, k + 5, rest, words, c1.push('\''));
        assert(c1.push('\'') + rest =~= current + v);
    }
}

/// Reading the shell-quoted form of a non-empty `v` adds `v` to the word
/// being read.
proof fn lemma_read_escaped(input: Seq<char>, i: int, v: Seq<char>, words: Seq<Seq<char>>, current: Seq<char>)
    requires
        v.len() > 0,
        0 <= i,
        i + shell_escaped(v).len() <= input.len(),
        input.subrange(i, i + shell_escaped(v).len()) == shell_escaped(v),
    ensures
        shell_words_from(input, i, words, current, Quote::Unquoted) == shell_words_from(
            input,
            i + shell_escaped(v).len(),
            words,
            current + v,
            Quote::Unquoted,
        ),
{
    let e = shell_escaped(v);
    if forall|j: int| 0 <= j < v.len() ==> is_shell_safe(#[trigger] v[j]) {
        assert(e == v);
        assert forall|j: int| i <= j < i + v.len() implies is_shell_safe(#[trigger] input[j]) by {
            assert(input[j] == input.subrange(i, i + e.len())[j - i]);
        }
        lemma_read_safe(input, i, v.len() as int, words, current);
        assert(input.subrange(i, i + v.len()) =~= v);
    } else {
        let quote = seq!['\''];
        let with = seq!['\'', '"', '\'', '"', '\''];
        let r = replace_all(v, quote, with);
        assert(e == seq!['\''] + r + seq!['\'']);
        assert(input[i] == e[0]);
        assert(input[i] == '\'');
        assert(input.subrange(i + 1, i + 1 + r.len()) =~= r) by {
            assert forall|j: int| 0 <= j < r.len() implies input.subrange(i + 1, i + 1 + r.len())[j] == r[j] by {
                assert(input[i + 1 + j] == e[1 + j]);
            }
        }
        lemma_read_quoted_body(input, i + 1, v, words, current);
        assert(input[i + 1 + r.len()] == e[1 + r.len() as int]);
        assert(input[i + 1 + r.len()] == '\'');
    }
}

proof fn lemma_join_first(parts: Seq<Seq<char>>, sep: Seq<char>)
    requires
        parts.len() >= 2,
    ensures
        join(parts, sep) == parts[0] + sep + join(parts.drop_first(), sep),
    decreases parts.len(),
{
    let a = parts.drop_last();
    let b = parts.drop_first();
    if parts.len() > 2 {
        lemma_join_first(a, sep);
        assert(a.drop_first() =~= b.drop_last());
        assert(b.last() == parts.last());
        assert(join(b, sep) == join(b.drop_last(), sep) + sep + b.last());
        assert(join(parts, sep) == join(a, sep) + sep + parts.last());
        assert(join(parts, sep) =~= parts[0] + sep + join(b, sep));
    } else {
        assert(b.len() == 1);
        assert(join(b, sep) == b[0]);
        assert(a.len() == 1);
        assert(join(a, sep) == a[0]);
        assert(join(parts, sep) == join(a, sep) + sep + parts.last());
        assert(join(parts, sep) =~= parts[0] + sep + join(b, sep));
    }
}

proof fn lemma_read_joined(input: Seq<char>, i: int, args: Seq<Seq<char>>, words: Seq<Seq<char>>)
    requires
        args.len() > 0,
        forall|k: int| 0 <= k < args.len() ==> (#[trigger] args[k]).len() > 0,
        0 <= i <= input.len(),
        input.subrange(i, input.len() as int) == shell_joined(args),
    ensures
        shell_words_from(input, i, words, Seq::empty(), Quote::Unquoted) == words + args,
    decreases args.len(),
{
    let es = args.map_values(|a: Seq<char>| shell_escaped(a));
    let e0 = shell_escaped(args[0]);
    let n = input.len() as int;
    if args.len() == 1 {
        assert(shell_joined(args) == es[0]);
        assert(input.subrange(i, i + e0.len()) =~= e0);
        lemma_read_escaped(input, i, args[0], words, Seq::empty());
        assert(Seq::<char>::empty() + args[0] =~= args[0]);
        assert(words + args =~= words.push(args[0]));
    } else {
        lemma_join_first(es, seq![' ']);
        let tail = args.drop_first();
        assert(es.drop_first() =~= tail.map_values(|a: Seq<char>| shell_escaped(a)));
        let rest = shell_joined(tail);
        assert(shell_joined(args) == e0 + seq![' '] + rest);
        assert(input.subrange(i, i + e0.len()) =~= e0) by {
            assert forall|j: int| 0 <= j < e0.len() implies input.subrange(i, i + e0.len())[j] == e0[j] by {
                assert(input[i + j] == input.subrange(i, n)[j]);
            }
        }
        lemma_read_escaped(input, i, args[0], words, Seq::empty());
        let k = i + e0.len();
        assert(input[k] == input.subrange(i, n)[e0.len() as int]);
        assert(input[k] == ' ');
        assert(Seq::<char>::empty() + args[0] =~= args[0]);
        assert(shell_words_from(input, k, words, args[0], Quote::Unquoted) == shell_words_from(
            input,
            k + 1,
            words.push(args[0]),
            Seq::empty(),
            Quote::Unquoted,
        ));
        assert(input.subrange(k + 1, n) =~= rest) by {
            assert forall|j: int| 0 <= j < rest.len() implies input.subrange(k + 1, n)[j] == rest[j] by {
                assert(input[k + 1 + j] == input.subrange(i, n)[e0.len() + 1 + j]);
            }
        }
        assert forall|m: int| 0 <= m < tail.len() implies (#[trigger] tail[m]).len() > 0 by {
            assert(tail[m] == args[m + 1]);
        }
        lemma_read_joined(input, k + 1, tail, words.push(args[0]));
        assert(words.push(args[0]) + tail =~= words + args);
    }
}

/// Quoting undoes itself: the shell-quoted, space-joined arguments split
/// back into the same arguments, for any arguments that are not empty.
pub proof fn lemma_shell_quoting_reads_back(args: Seq<Seq<char>>)
    requires
        forall|k: int| 0 <= k < args.len() ==> (#[trigger] args[k]).len() > 0,
    ensures
        shell_words(shell_joined(args)) == args,
{
    if args.len() == 0 {
        assert(shell_joined(args) =~= Seq::<char>::empty());
        assert(shell_words(shell_joined(args)) == Seq::<Seq<char>>::empty());
    } else {
        let input = shell_joined(args);
        assert(input.subrange(0, input.len() as int) =~= input);
        lemma_read_joined(input, 0, args, Seq::empty());
        assert(Seq::<Seq<char>>::empty() + args =~= args);
    }
}

/// The shell-quoted arguments, joined with spaces.
pub open spec fn shell_joined(args: Seq<Seq<char>>) -> Seq<char> {
    join(args.map_values(|a: Seq<char>| shell_escaped(a)), seq![' '])
}

/// Quotes each argument for a shell and joins them with spaces.
pub fn join_shell_args(args: &[String]) -> (r: String)
    ensures
        r@ == shell_joined(args@.map_values(|a: String| a@)),
{
    let ghost parts = args@.map_values(|a: String| a@).map_values(|a: Seq<char>| shell_escaped(a));
    let mut r = String::new();
    let mut i: usize = 0;
    while i < args.len()
        invariant
            i <= args@.len(),
            parts == args@.map_values(|a: String| a@).map_values(|a: Seq<char>| shell_escaped(a)),
            r@ == join(parts.subrange(0, i as int), seq![' ']),
        decreases args@.len() - i,
    {
        if i > 0 {
            push_char(&mut r, ' ');
        }
        let e = shell_escape(args[i].as_str());
        r.append(e.as_str());
        assert(parts.subrange(0, i + 1).drop_last() =~= parts.subrange(0, i as int));
        i = i + 1;
    }
    assert(parts.subrange(0, parts.len() as int) =~= parts);
    r
}

/// The hexadecimal digit for `d` (below 16), in lower case.
pub open spec fn hex_digit(d: u32) -> char {
    if d < 10 {
        ((d + 48) as u8) as char
    } else {
        ((d + 87) as u8) as char
    }
}

fn hex_char(d: u32) -> (c: char)
    requires
        d < 16,
    ensures
        c == hex_digit(d),
{
    if d < 10 {
        ((d + 48) as u8) as char
    } else {
        ((d + 87) as u8) as char
    }
}

/// The JSON escape of one character of a string.
pub open spec fn json_char(c: char) -> Seq<char> {
    if c == '"' {
        seq!['\\', '"']
    } else if c == '\\' {
        seq!['\\', '\\']
    } else if c == '\n' {
        seq!['\\', 'n']
    } else if c == '\r' {
        seq!['\\', 'r']
    } else if c == '\t' {
        seq!['\\', 't']
    } else if is_cc(c) {
        let v = c as u32;
        seq!['\\', 'u', hex_digit((v / 4096) % 16), hex_digit((v / 256) % 16), hex_digit((v / 16) % 16), hex_digit(v % 16)]
    } else {
        seq![c]
    }
}

/// The JSON escapes of the characters of `s`, in order.
pub open spec fn json_body(s: Seq<char>) -> Seq<char>
    decreases s.len(),
{
    if s.len() == 0 {
        Seq::empty()
    } else {
        json_body(s.drop_last()) + json_char(s.last())
    }
}

/// `value` as a JSON string literal.
pub open spec fn json_quoted(value: Seq<char>) -> Seq<char> {
    seq!['"'] + json_body(value) + seq!['"']
}

/// Writes `value` as a JSON string literal.
pub fn json_quote(value: &str) -> (r: String)
    ensures
        r@ == json_quoted(value@),
{
    let n = value.unicode_len();
    let mut out = String::new();
    push_char(&mut out, '"');
    let mut i: usize = 0;
    while i < n
        invariant
            n == value@.len(),
            i <= n,
            out@ == seq!['"'] + json_body(value@.subrange(0, i as int)),
        decreases n - i,
    {
        let c = value.get_char(i);
        let ghost before = out@;
        if c == '"' {
            push_char(&mut out, '\\');
            push_char(&mut out, '"');
        } else if c == '\\' {
            push_char(&mut out, '\\');
            push_char(&mut out, '\\');
        } else if c == '\n' {
            push_char(&mut out, '\\');
            push_char(&mut out, 'n');
        } else if c == '\r' {
            push_char(&mut out, '\\');
            push_char(&mut out, 'r');
        } else if c == '\t' {
            push_char(&mut out, '\\');
            push_char(&mut out, 't');
        } else if is_control(c) {
            let v = c as u32;
            push_char(&mut out, '\\');
            push_char(&mut out, 'u');
            push_char(&mut out, hex_char((v / 4096) % 16));
            push_char(&mut out, hex_char((v / 256) % 16));
            push_char(&mut out, hex_char((v / 16) % 16));
            push_char(&mut out, hex_char(v % 16));
        } else {
            push_char(&mut out, c);
        }
        proof {
            assert(value@.subrange(0, i + 1).drop_last() =~= value@.subrange(0, i as int));
            assert(out@ =~= before + json_char(c));
        }
        i = i + 1;
    }
    push_char(&mut out, '"');
    assert(value@.subrange(0, n as int) =~= value@);
    out
}

/// The value of a hexadecimal digit, in either case.
pub open spec fn hex_value(c: char) -> Option<int> {
    if '0' <= c && c <= '9' {
        Some((c as int) - 48)
    } else if 'a' <= c && c <= 'f' {
        Some((c as int) - 87)
    } else if 'A' <= c && c <= 'F' {
        Some((c as int) - 55)
    } else {
        None
    }
}

/// The number that the four hexadecimal digits of `s` write.
pub open spec fn hex4_value(s: Seq<char>) -> Option<int> {
    match (hex_value(s[0]), hex_value(s[1]), hex_value(s[2]), hex_value(s[3])) {
        (Some(a), Some(b), Some(c), Some(d)) => Some(a * 4096 + b * 256 + c * 16 + d),
        _ => None,
    }
}

/// `c` before the text of `o`, where there is one.
pub open spec fn prepend(c: char, o: Option<Seq<char>>) -> Option<Seq<char>> {
    match o {
        Some(t) => Some(seq![c] + t),
        None => None,
    }
}

/// The character that a two-character escape `\e` stands for in JSON.
pub open spec fn json_simple_escape(e: char) -> Option<char> {
    if e == '"' || e == '\\' || e == '/' {
        Some(e)
    } else if e == 'b' {
        Some('\u{8}')
    } else if e == 'f' {
        Some('\u{c}')
    } else if e == 'n' {
        Some('\n')
    } else if e == 'r' {
        Some('\r')
    } else if e == 't' {
        Some('\t')
    } else {
        None
    }
}

/// The text that the body of a JSON string literal stands for, escapes
/// read as JSON reads them (a `\u` escape of a high surrogate followed by
/// one of a low surrogate gives one character); `None` where the body is
/// not valid JSON: an unescaped quote or a character below U+0020, an
/// unknown or cut escape, a lone surrogate.
pub open spec fn json_unescape(s: Seq<char>) -> Option<Seq<char>>
    decreases s.len(),
{
    if s.len() == 0 {
        Some(Seq::empty())
    } else if s[0] == '\\' {
        if s.len() < 2 {
            None
        } else if json_simple_escape(s[1]) is Some {
            prepend(json_simple_escape(s[1])->0, json_unescape(s.skip(2)))
        } else if s[1] != 'u' || s.len() < 6 || hex4_value(s.subrange(2, 6)) is None {
            None
        } else {
            let v = hex4_value(s.subrange(2, 6))->0;
            if v < 0xD800 || v > 0xDFFF {
                prepend(v as char, json_unescape(s.skip(6)))
            } else if v > 0xDBFF || s.len() < 12 || s[6] != '\\' || s[7] != 'u' || hex4_value(
                s.subrange(8, 12),
            ) is None {
                None
            } else {
                let w = hex4_value(s.subrange(8, 12))->0;
                if w < 0xDC00 || w > 0xDFFF {
                    None
                } else {
                    prepend((0x10000 + (v - 0xD800) * 1024 + (w - 0xDC00)) as char, json_unescape(s.skip(12)))
                }
            }
        }
    } else if s[0] == '"' || (s[0] as u32) < 0x20 {
        None
    } else {
        prepend(s[0], json_unescape(s.skip(1)))
    }
}

/// The text that a JSON string literal stands for; `None` where `t` is no
/// such literal.
pub open spec fn json_string_value(t: Seq<char>) -> Option<Seq<char>> {
    if t.len() >= 2 && t[0] == '"' && t.last() == '"' {
        json_unescape(t.subrange(1, t.len() - 1))
    } else {
        None
    }
}

proof fn lemma_json_body_front(v: Seq<char>)
    requires
        v.len() > 0,
    ensures
        json_body(v) == json_char(v[0]) + json_body(v.skip(1)),
    decreases v.len(),
{
    if v.len() == 1 {
        assert(v.drop_last() =~= Seq::<char>::empty());
        assert(v.skip(1) =~= Seq::<char>::empty());
        assert(json_body(v) =~= json_char(v[0]) + json_body(v.skip(1)));
    } else {
        let d = v.drop_last();
        lemma_json_body_front(d);
        assert(d.skip(1) =~= v.skip(1).drop_last());
        assert(v.skip(1).last() == v.last());
        assert(json_body(v) =~= json_char(v[0]) + json_body(v.skip(1)));
    }
}

proof fn lemma_hex_digit_value(d: u32)
    requires
        d < 16,
    ensures
        hex_value(hex_digit(d)) == Some(d as int),
{
}

proof fn lemma_unescape_char(c: char, rest: Seq<char>)
    ensures
        json_unescape(json_char(c) + rest) == prepend(c, json_unescape(rest)),
{
    let s = json_char(c) + rest;
    if c == '"' || c == '\\' || c == '\n' || c == '\r' || c == '\t' {
        assert(s.skip(2) =~= rest);
    } else if is_cc(c) {
        let v = c as u32;
        lemma_hex_digit_value((v / 4096) % 16);
        lemma_hex_digit_value((v / 256) % 16);
        lemma_hex_digit_value((v / 16) % 16);
        lemma_hex_digit_value(v % 16);
        assert(s.subrange(2, 6) =~= seq![
            hex_digit((v / 4096) % 16),
            hex_digit((v / 256) % 16),
            hex_digit((v / 16) % 16),
            hex_digit(v % 16),
        ]);
        assert(v < 0xA0);
        assert(((v / 4096) % 16) * 4096 + ((v / 256) % 16) * 256 + ((v / 16) % 16) * 16 + v % 16 == v);
        assert(s.skip(6) =~= rest);
    } else {
        assert(s.skip(1) =~= rest);
    }
}

proof fn lemma_unescape_body(v: Seq<char>)
    ensures
        json_unescape(json_body(v)) == Some(v),
    decreases v.len(),
{
    if v.len() > 0 {
        lemma_json_body_front(v);
        lemma_unescape_body(v.skip(1));
        lemma_unescape_char(v[0], json_body(v.skip(1)));
        assert(seq![v[0]] + v.skip(1) =~= v);
    }
}

/// A JSON string literal that `json_quote` writes reads back, as JSON
/// reads it, to exactly the text it was written from.
pub proof fn lemma_json_quote_round_trip(value: Seq<char>)
    ensures
        json_string_value(json_quoted(value)) == Some(value),
{
    let t = json_quoted(value);
    assert(t.subrange(1, t.len() - 1) =~= json_body(value));
    lemma_unescape_body(value);
}

/// A placeholder value as the mode needs it: shell-quoted, or as it is.
pub open spec fn formatted_value(value: Seq<char>, mode: RenderMode) -> Seq<char> {
    match mode {
        RenderMode::Shell => shell_escaped(value),
        RenderMode::Eval => value,
    }
}

/// Formats one argument for the mode.
pub fn format_placeholder_value(value: &str, mode: RenderMode) -> (r: String)
    ensures
        r@ == formatted_value(value@, mode),
{
    match mode {
        RenderMode::Shell => shell_escape(value),
        RenderMode::Eval => to_string(value),
    }
}

/// The arguments as one literal: shell words for a shell; for a runtime,
/// JSON strings separated by `, `, in brackets for the bracket form.
pub open spec fn array_literal(args: Seq<Seq<char>>, mode: RenderMode, kind: ArrayLiteralKind) -> Seq<char> {
    match mode {
        RenderMode::Shell => shell_joined(args),
        RenderMode::Eval => {
            let values = join(args.map_values(|a: Seq<char>| json_quoted(a)), seq![',', ' ']);
            match kind {
                ArrayLiteralKind::Spread => values,
                ArrayLiteralKind::Bracket => seq!['['] + values + seq![']'],
            }
        },
    }
}

/// Formats the arguments as one literal.
pub fn format_array_literal(args: &[String], mode: RenderMode, kind: ArrayLiteralKind) -> (r: String)
    ensures
        r@ == array_literal(args@.map_values(|a: String| a@), mode, kind),
{
    match mode {
        RenderMode::Shell => join_shell_args(args),
        RenderMode::Eval => {
            let ghost parts = args@.map_values(|a: String| a@).map_values(|a: Seq<char>| json_quoted(a));
            let mut values = String::new();
            let mut i: usize = 0;
            while i < args.len()
                invariant
                    i <= args@.len(),
                    parts == args@.map_values(|a: String| a@).map_values(|a: Seq<char>| json_quoted(a)),
                    values@ == join(parts.subrange(0, i as int), seq![',', ' ']),
                decreases args@.len() - i,
            {
                if i > 0 {
                    push_char(&mut values, ',');
                    push_char(&mut values, ' ');
                    assert(values@ =~= join(parts.subrange(0, i as int), seq![',', ' ']) + seq![',', ' ']);
                }
                let q = json_quote(args[i].as_str());
                values.append(q.as_str());
                assert(parts.subrange(0, i + 1).drop_last() =~= parts.subrange(0, i as int));
                i = i + 1;
            }
            assert(parts.subrange(0, parts.len() as int) =~= parts);
            match kind {
                ArrayLiteralKind::Spread => values,
                ArrayLiteralKind::Bracket => {
                    let mut r = String::new();
                    push_char(&mut r, '[');
                    r.append(values.as_str());
                    push_char(&mut r, ']');
                    assert(r@ =~= seq!['['] + values@ + seq![']']);
                    r
                },
            }
        },
    }
}

/// The text around the index in a placeholder pattern: split at `{n}`, or
/// else at the first `n`; a pattern that is blank, has neither, or is only
/// the index has none.
pub open spec fn placeholder_parts(template: Seq<char>) -> Option<(Seq<char>, Seq<char>)> {
    let t = trim(template);
    let i = find(t, seq!['{', 'n', '}']);
    let j = find(t, seq!['n']);
    if t.len() == 0 {
        None
    } else if i >= 0 {
        if i == 0 && i + 3 == t.len() {
            None
        } else {
            Some((t.subrange(0, i), t.subrange(i + 3, t.len() as int)))
        }
    } else if j >= 0 {
        if j == 0 && j + 1 == t.len() {
            None
        } else {
            Some((t.subrange(0, j), t.subrange(j + 1, t.len() as int)))
        }
    } else {
        None
    }
}

/// Splits a placeholder pattern into the text before and after the index.
pub fn split_placeholder_pattern(template: &str) -> (r: Option<(&str, &str)>)
    ensures
        r matches Some((p, s)) ==> placeholder_parts(template@) == Some((p@, s@)),
        r is None ==> placeholder_parts(template@) is None,
{
    let trimmed = trim_str(template);
    let n = trimmed.unicode_len();
    if n == 0 {
        return None;
    }
    let mut brace = String::new();
    push_char(&mut brace, '{');
    push_char(&mut brace, 'n');
    push_char(&mut brace, '}');
    assert(brace@ =~= seq!['{', 'n', '}']);
    proof {
        lemma_find_result(trimmed@, seq!['{', 'n', '}']);
        lemma_find_result(trimmed@, seq!['n']);
    }
    if let Some(idx) = find_str(trimmed, brace.as_str()) {
        if idx == 0 && idx + 3 == n {
            return None;
        }
        return Some((trimmed.substring_char(0, idx), trimmed.substring_char(idx + 3, n)));
    }
    let mut letter = String::new();
    push_char(&mut letter, 'n');
    assert(letter@ =~= seq!['n']);
    if let Some(idx) = find_str(trimmed, letter.as_str()) {
        if idx == 0 && idx + 1 == n {
            return None;
        }
        return Some((trimmed.substring_char(0, idx), trimmed.substring_char(idx + 1, n)));
    }
    None
}

/// The placeholder patterns in force: the configured one, when not blank.
pub open spec fn templates_of(custom: Option<Seq<char>>) -> Seq<Seq<char>> {
    match custom {
        Some(c) => if trim(c).len() > 0 { seq![trim(c)] } else { Seq::empty() },
        None => Seq::empty(),
    }
}

/// The placeholder patterns in force.
pub fn placeholder_templates(custom: Option<&str>) -> (r: Vec<String>)
    ensures
        r.deep_view() == templates_of(match custom { Some(c) => Some(c@), None => None }),
{
    let mut templates: Vec<String> = Vec::new();
    if let Some(c) = custom {
        let t = trim_str(c);
        if t.unicode_len() > 0 {
            templates.push(to_string(t));
            assert(templates.deep_view() =~= seq![t@]);
            return templates;
        }
    }
    assert(templates.deep_view() =~= Seq::<Seq<char>>::empty());
    templates
}

/// The number of ASCII digits at the start of `s`.
pub open spec fn digit_run(s: Seq<char>) -> nat
    decreases s.len(),
{
    if s.len() > 0 && '0' <= s[0] && s[0] <= '9' {
        1 + digit_run(s.drop_first())
    } else {
        0
    }
}

/// The value of a string of decimal digits.
pub open spec fn decimal(s: Seq<char>) -> nat
    decreases s.len(),
{
    if s.len() == 0 {
        0
    } else {
        decimal(s.drop_last()) * 10 + ((s.last() as u32) - 48) as nat
    }
}

/// The argument index that a 1-based position names, when it is one that
/// `usize` can hold.
pub open spec fn arg_index(position: nat) -> Option<usize> {
    if 1 <= position && position <= usize::MAX {
        Some((position - 1) as usize)
    } else {
        None
    }
}

/// The output, the used argument indexes and whether a placeholder was met,
/// after replacing the indexed placeholders `prefix<digits>suffix` of
/// `input[cursor..]`: each becomes the argument at that 1-based position
/// (formatted for the mode), or nothing when there is no such argument; a
/// prefix that is not followed by digits (and the suffix) stays as it is.
pub open spec fn placeholder_pass(
    input: Seq<char>,
    prefix: Seq<char>,
    suffix: Seq<char>,
    args: Seq<Seq<char>>,
    track: bool,
    mode: RenderMode,
    cursor: int,
    st: (Seq<char>, Set<usize>, bool),
) -> (Seq<char>, Set<usize>, bool)
    decreases input.len() - cursor,
{
    if prefix.len() == 0 || cursor >= input.len() || cursor < 0 {
        st
    } else {
        let rest = input.subrange(cursor, input.len() as int);
        let rel = find(rest, prefix);
        proof {
            lemma_find_result(rest, prefix);
        }
        if rel < 0 {
            (st.0 + rest, st.1, st.2)
        } else {
            let ps = cursor + rel;
            let out1 = st.0 + input.subrange(cursor, ps);
            let ds = ps + prefix.len();
            let de = ds + digit_run(input.subrange(ds, input.len() as int));
            proof {
                lemma_digits(input.subrange(ds, input.len() as int), 0);
            }
            if de == ds || (suffix.len() > 0 && !crate::text::occurs_at(input, suffix, de)) {
                placeholder_pass(input, prefix, suffix, args, track, mode, ds, (out1 + prefix, st.1, st.2))
            } else {
                let had = st.2 || track;
                let idx = arg_index(decimal(input.subrange(ds, de)));
                let (out2, used) = match idx {
                    Some(k) => if k < args.len() {
                        (out1 + formatted_value(args[k as int], mode), if track { st.1.insert(k) } else { st.1 })
                    } else {
                        (out1, st.1)
                    },
                    None => (out1, st.1),
                };
                placeholder_pass(input, prefix, suffix, args, track, mode, de + suffix.len(), (out2, used, had))
            }
        }
    }
}

/// `input` with the indexed placeholders of `template` replaced, with the
/// used indexes and placeholder flag that result; unchanged when the
/// pattern has no index.
pub open spec fn template_applied(
    input: Seq<char>,
    template: Seq<char>,
    args: Seq<Seq<char>>,
    track: bool,
    mode: RenderMode,
    used: Set<usize>,
    had: bool,
) -> (Seq<char>, Set<usize>, bool) {
    match placeholder_parts(template) {
        None => (input, used, had),
        Some((p, s)) => placeholder_pass(input, p, s, args, track, mode, 0, (Seq::empty(), used, had)),
    }
}

/// Where the first use of a pattern's prefix in a text is a placeholder,
/// the prefix followed by the digits of a position `k` of the arguments and
/// then by the suffix (an empty one too), the placeholder is replaced by
/// the `k`-th argument formatted for the mode: the text before it stays,
/// `k - 1` is recorded as used when usage is tracked, and the placeholder
/// is recorded as seen. A position with no argument leaves nothing.
pub proof fn lemma_placeholder_replaced_by_argument(
    before: Seq<char>,
    template: Seq<char>,
    prefix: Seq<char>,
    digits: Seq<char>,
    suffix: Seq<char>,
    args: Seq<Seq<char>>,
    k: nat,
    track: bool,
    mode: RenderMode,
    used: Set<usize>,
    had: bool,
)
    requires
        placeholder_parts(template) == Some((prefix, suffix)),
        prefix.len() > 0,
        find(before + prefix + digits + suffix, prefix) == before.len(),
        digits.len() > 0,
        forall|j: int| 0 <= j < digits.len() ==> '0' <= #[trigger] digits[j] && digits[j] <= '9',
        suffix.len() > 0 ==> !('0' <= suffix[0] && suffix[0] <= '9'),
        decimal(digits) == k,
    ensures
        template_applied(before + prefix + digits + suffix, template, args, track, mode, used, had) == if 1 <= k
            <= args.len() && k <= usize::MAX {
            (
                before + formatted_value(args[k - 1], mode),
                if track { used.insert((k - 1) as usize) } else { used },
                had || track,
            )
        } else {
            (before, used, had || track)
        },
{
    let input = before + prefix + digits + suffix;
    let ds: int = (before.len() + prefix.len()) as int;
    let de: int = ds + digits.len();
    assert(input.subrange(0, input.len() as int) =~= input);
    assert(input.subrange(0, before.len() as int) =~= before);
    let tail = input.subrange(ds, input.len() as int);
    assert(tail =~= digits + suffix);
    assert forall|j: int| 0 <= j < digits.len() implies '0' <= #[trigger] tail[j] && tail[j] <= '9' by {
        assert(tail[j] == digits[j]);
    }
    if suffix.len() > 0 {
        assert(tail[digits.len() as int] == suffix[0]);
        lemma_digit_run_step(tail, digits.len() as int);
        assert(input.subrange(de, de + suffix.len() as int) =~= suffix);
    } else {
        assert(tail =~= digits);
        lemma_digit_run_end(tail);
    }
    assert(input.subrange(ds, de) =~= digits);
    reveal_with_fuel(placeholder_pass, 2);
}

/// A text in which the pattern's prefix does not occur is left as it is,
/// and nothing is recorded.
pub proof fn lemma_text_without_prefix_unchanged(
    input: Seq<char>,
    template: Seq<char>,
    prefix: Seq<char>,
    suffix: Seq<char>,
    args: Seq<Seq<char>>,
    track: bool,
    mode: RenderMode,
    used: Set<usize>,
    had: bool,
)
    requires
        placeholder_parts(template) == Some((prefix, suffix)),
        !contains(input, prefix),
    ensures
        template_applied(input, template, args, track, mode, used, had) == (input, used, had),
{
    if prefix.len() == 0 {
        assert(input.subrange(0, 0) =~= prefix);
    }
    if input.len() > 0 {
        assert(input.subrange(0, input.len() as int) =~= input);
        assert(Seq::<char>::empty() + input =~= input);
    }
}

/// A pattern whose text before the index is empty would never advance.
pub open spec fn template_advances(template: Seq<char>) -> bool {
    placeholder_parts(template) matches Some((p, _)) ==> p.len() > 0
}

pub proof fn lemma_digits(s: Seq<char>, k: int)
    requires
        0 <= k <= digit_run(s),
    ensures
        forall|j: int| 0 <= j < k ==> '0' <= #[trigger] s[j] && s[j] <= '9',
        k < s.len() && k == digit_run(s) ==> !('0' <= s[k] && s[k] <= '9'),
        digit_run(s) <= s.len(),
    decreases s.len(),
{
    if s.len() > 0 && '0' <= s[0] && s[0] <= '9' {
        lemma_digits(s.drop_first(), if k > 0 { k - 1 } else { 0 });
        assert forall|j: int| 0 <= j < k implies '0' <= #[trigger] s[j] && s[j] <= '9' by {
            if j > 0 {
                assert(s[j] == s.drop_first()[j - 1]);
            }
        }
    }
}

proof fn lemma_digit_run_step(s: Seq<char>, i: int)
    requires
        0 <= i < s.len(),
        forall|j: int| 0 <= j < i ==> '0' <= #[trigger] s[j] && s[j] <= '9',
    ensures
        ('0' <= s[i] && s[i] <= '9') ==> digit_run(s) > i,
        !('0' <= s[i] && s[i] <= '9') ==> digit_run(s) == i,
    decreases i,
{
    if i > 0 {
        assert forall|j: int| 0 <= j < i - 1 implies '0' <= #[trigger] s.drop_first()[j] && s.drop_first()[j] <= '9' by {
            assert(s.drop_first()[j] == s[j + 1]);
        }
        lemma_digit_run_step(s.drop_first(), i - 1);
    }
}

proof fn lemma_digit_run_end(s: Seq<char>)
    requires
        forall|j: int| 0 <= j < s.len() ==> '0' <= #[trigger] s[j] && s[j] <= '9',
    ensures
        digit_run(s) == s.len(),
    decreases s.len(),
{
    if s.len() > 0 {
        assert forall|j: int| 0 <= j < s.len() - 1 implies '0' <= #[trigger] s.drop_first()[j] && s.drop_first()[j] <= '9' by {
            assert(s.drop_first()[j] == s[j + 1]);
        }
        lemma_digit_run_end(s.drop_first());
    }
}

/// The argument index named by the digits `chars[from..to]`.
fn parse_index(chars: &Vec<char>, from: usize, to: usize) -> (r: Option<usize>)
    requires
        from <= to <= chars@.len(),
        forall|j: int| from <= j < to ==> '0' <= #[trigger] chars@[j] && chars@[j] <= '9',
    ensures
        r == arg_index(decimal(chars@.subrange(from as int, to as int))),
{
    let mut acc: usize = 0;
    let mut fits = true;
    let mut k = from;
    while k < to
        invariant
            from <= k <= to <= chars@.len(),
            forall|j: int| from <= j < to ==> '0' <= #[trigger] chars@[j] && chars@[j] <= '9',
            fits ==> acc == decimal(chars@.subrange(from as int, k as int)),
            !fits ==> decimal(chars@.subrange(from as int, k as int)) > usize::MAX,
        decreases to - k,
    {
        let c = chars[k];
        let d = (c as u32 - 48) as usize;
        let ghost prev = chars@.subrange(from as int, k as int);
        assert(chars@.subrange(from as int, k + 1).drop_last() =~= prev);
        assert(chars@.subrange(from as int, k + 1).last() == c);
        if fits {
            match acc.checked_mul(10) {
                Some(t) => match t.checked_add(d) {
                    Some(v) => {
                        acc = v;
                    },
                    None => {
                        fits = false;
                    },
                },
                None => {
                    fits = false;
                },
            }
        }
        k = k + 1;
    }
    if !fits {
        return None;
    }
    acc.checked_sub(1)
}

/// Replaces the indexed placeholders of `template` in `input`.
pub fn replace_placeholder_template(
    input: &str,
    template: &str,
    remaining_args: &[String],
    track_usage: bool,
    mode: RenderMode,
    stats: &mut RenderStats,
) -> (r: String)
    requires
        template_advances(template@),
    ensures
        (r@, final(stats).used_arg_indexes@, final(stats).had_placeholders) == template_applied(
            input@,
            template@,
            remaining_args@.map_values(|a: String| a@),
            track_usage,
            mode,
            old(stats).used_arg_indexes@,
            old(stats).had_placeholders,
        ),
{
    let ghost args = remaining_args@.map_values(|a: String| a@);
    let (prefix, suffix) = match split_placeholder_pattern(template) {
        Some(parts) => parts,
        None => {
            return to_string(input);
        },
    };
    let chars = crate::text::chars_of(input);
    let n = chars.len();
    let plen = prefix.unicode_len();
    let slen = suffix.unicode_len();
    let mut output = String::new();
    let mut cursor: usize = 0;
    let ghost goal = template_applied(
        input@,
        template@,
        args,
        track_usage,
        mode,
        stats.used_arg_indexes@,
        stats.had_placeholders,
    );
    while cursor < n
        invariant
            chars@ == input@,
            n == input@.len(),
            plen == prefix@.len(),
            slen == suffix@.len(),
            plen > 0,
            cursor <= n,
            args == remaining_args@.map_values(|a: String| a@),
            placeholder_parts(template@) == Some((prefix@, suffix@)),
            goal == template_applied(
                input@,
                template@,
                args,
                track_usage,
                mode,
                old(stats).used_arg_indexes@,
                old(stats).had_placeholders,
            ),
            goal == placeholder_pass(
                input@,
                prefix@,
                suffix@,
                args,
                track_usage,
                mode,
                cursor as int,
                (output@, stats.used_arg_indexes@, stats.had_placeholders),
            ),
        decreases n - cursor,
    {
        let rest = input.substring_char(cursor, n);
        proof {
            lemma_find_result(rest@, prefix@);
        }
        let relative = match find_str(rest, prefix) {
            Some(i) => i,
            None => {
                let ghost before = output@;
                output.append(rest);
                assert(goal == (before + rest@, stats.used_arg_indexes@, stats.had_placeholders));
                return output;
            },
        };
        let prefix_start = cursor + relative;
        output.append(input.substring_char(cursor, prefix_start));
        let digit_start = prefix_start + plen;
        let mut digit_end = digit_start;
        proof {
            assert(input@.subrange(prefix_start as int, prefix_start + plen) == prefix@) by {
                assert(rest@.subrange(relative as int, relative + plen) =~= input@.subrange(prefix_start as int, prefix_start + plen));
            }
        }
        let ghost tail = input@.subrange(digit_start as int, n as int);
        while digit_end < n && '0' <= chars[digit_end] && chars[digit_end] <= '9'
            invariant
                digit_start <= digit_end <= n,
                n == chars@.len(),
                chars@ == input@,
                tail == input@.subrange(digit_start as int, n as int),
                forall|j: int| digit_start <= j < digit_end ==> '0' <= #[trigger] chars@[j] && chars@[j] <= '9',
            decreases n - digit_end,
        {
            digit_end = digit_end + 1;
        }
        proof {
            let k = (digit_end - digit_start) as int;
            assert forall|j: int| 0 <= j < k implies '0' <= #[trigger] tail[j] && tail[j] <= '9' by {
                assert(tail[j] == chars@[digit_start + j]);
            }
            if digit_end < n {
                lemma_digit_run_step(tail, k);
            } else {
                assert(tail.len() == k);
                lemma_digit_run_end(tail);
            }
        }
        if digit_start == digit_end {
            output.append(prefix);
            cursor = prefix_start + plen;
            continue;
        }
        if slen > 0 {
            let ok = slen <= n - digit_end && str_equal(input.substring_char(digit_end, digit_end + slen), suffix);
            if !ok {
                output.append(prefix);
                cursor = prefix_start + plen;
                continue;
            }
        }
        let index = parse_index(&chars, digit_start, digit_end);
        if track_usage {
            stats.had_placeholders = true;
        }
        if let Some(idx) = index {
            if idx < remaining_args.len() {
                if track_usage {
                    stats.used_arg_indexes.insert(idx);
                }
                let v = format_placeholder_value(remaining_args[idx].as_str(), mode);
                output.append(v.as_str());
            }
        }
        cursor = digit_end + slen;
    }
    output
}

/// The indexes below `n` that are not in `used`, in ascending order.
pub open spec fn unused_indexes(n: nat, used: Set<usize>) -> Seq<usize>
    decreases n,
{
    if n == 0 {
        Seq::empty()
    } else {
        let rest = unused_indexes((n - 1) as nat, used);
        if used.contains((n - 1) as usize) { rest } else { rest.push((n - 1) as usize) }
    }
}

/// The indexes below `n`.
pub open spec fn indexes_below(n: nat) -> Set<usize> {
    Set::new(|i: usize| i < n)
}

/// `input` with every `token` replaced by the arguments not yet used, as one
/// literal; when some remain and usage is tracked, they all become used.
pub open spec fn array_token_applied(
    input: Seq<char>,
    token: Seq<char>,
    args: Seq<Seq<char>>,
    track: bool,
    mode: RenderMode,
    kind: ArrayLiteralKind,
    used: Set<usize>,
    had: bool,
) -> (Seq<char>, Set<usize>, bool) {
    if token.len() == 0 || !contains(input, token) {
        (input, used, had)
    } else {
        let unused = unused_indexes(args.len(), used);
        if unused.len() == 0 {
            (replace_all(input, token, Seq::empty()), used, had)
        } else {
            let values = unused.map_values(|i: usize| args[i as int]);
            (
                replace_all(input, token, array_literal(values, mode, kind)),
                if track { used + indexes_below(args.len()) } else { used },
                had || track,
            )
        }
    }
}

/// Replaces `token` with the unused arguments as one literal.
pub fn replace_array_literal_token(
    input: &str,
    token: &str,
    remaining_args: &[String],
    track_usage: bool,
    mode: RenderMode,
    kind: ArrayLiteralKind,
    stats: &mut RenderStats,
) -> (r: String)
    ensures
        (r@, final(stats).used_arg_indexes@, final(stats).had_placeholders) == array_token_applied(
            input@,
            token@,
            remaining_args@.map_values(|a: String| a@),
            track_usage,
            mode,
            kind,
            old(stats).used_arg_indexes@,
            old(stats).had_placeholders,
        ),
{
    let ghost args = remaining_args@.map_values(|a: String| a@);
    if token.unicode_len() == 0 || !contains_str(input, token) {
        return to_string(input);
    }
    let ghost used0 = stats.used_arg_indexes@;
    let mut unused: Vec<String> = Vec::new();
    let mut unused_idx: Vec<usize> = Vec::new();
    let mut i: usize = 0;
    while i < remaining_args.len()
        invariant
            i <= remaining_args@.len(),
            args == remaining_args@.map_values(|a: String| a@),
            used0 == stats.used_arg_indexes@,
            used0 == old(stats).used_arg_indexes@,
            stats.had_placeholders == old(stats).had_placeholders,
            unused_idx@ == unused_indexes(i as nat, used0),
            unused.deep_view() == unused_idx@.map_values(|k: usize| args[k as int]),
            forall|j: int| 0 <= j < unused_idx@.len() ==> unused_idx@[j] < i,
        decreases remaining_args@.len() - i,
    {
        if !stats.used_arg_indexes.contains(&i) {
            let ghost before = unused.deep_view();
            let ghost before_idx = unused_idx@;
            let item = remaining_args[i].clone();
            assert(item@ == args[i as int]);
            unused.push(item);
            unused_idx.push(i);
            assert(unused.deep_view() =~= before.push(args[i as int]));
            assert(unused_idx@ == before_idx.push(i));
            assert(unused_idx@.map_values(|k: usize| args[k as int]) =~= before_idx.map_values(|k: usize| args[k as int]).push(args[i as int]));
        }
        i = i + 1;
    }
    proof {
        assert(unused@.map_values(|a: String| a@) =~= unused.deep_view());
        assert(unused@.len() == unused_idx@.len());
    }
    let replacement = if unused.len() == 0 {
        String::new()
    } else {
        if track_usage {
            stats.had_placeholders = true;
            let mut j: usize = 0;
            while j < unused_idx.len()
                invariant
                    j <= unused_idx@.len(),
                    unused_idx@ == unused_indexes(remaining_args@.len() as nat, used0),
                    used0 == old(stats).used_arg_indexes@,
                    stats.used_arg_indexes@ == used0 + unused_idx@.subrange(0, j as int).to_set(),
                    stats.had_placeholders,
                decreases unused_idx@.len() - j,
            {
                let ghost before = stats.used_arg_indexes@;
                stats.used_arg_indexes.insert(unused_idx[j]);
                proof {
                    assert(unused_idx@.subrange(0, j + 1) =~= unused_idx@.subrange(0, j as int).push(unused_idx@[j as int]));
                    lemma_push_to_set(unused_idx@.subrange(0, j as int), unused_idx@[j as int]);
                }
                assert(stats.used_arg_indexes@ =~= used0 + unused_idx@.subrange(0, j + 1).to_set());
                j = j + 1;
            }
            proof {
                lemma_unused_cover(remaining_args@.len() as nat, used0);
                assert(unused_idx@.subrange(0, unused_idx@.len() as int) =~= unused_idx@);
                assert(stats.used_arg_indexes@ =~= used0 + indexes_below(remaining_args@.len() as nat));
            }
        }
        format_array_literal(unused.as_slice(), mode, kind)
    };
    replace_str(input, token, replacement.as_str())
}

/// Pushing onto a sequence adds the element to its set.
pub proof fn lemma_push_to_set<T>(s: Seq<T>, x: T)
    ensures
        s.push(x).to_set() == s.to_set().insert(x),
{
    let p = s.push(x);
    assert forall|y: T| p.contains(y) <==> (s.contains(y) || y == x) by {
        if p.contains(y) {
            let k = choose|k: int| 0 <= k < p.len() && #[trigger] p[k] == y;
            if k < s.len() {
                assert(s[k] == y);
            }
        }
        if s.contains(y) {
            let k = choose|k: int| 0 <= k < s.len() && #[trigger] s[k] == y;
            assert(p[k] == y);
        }
        if y == x {
            assert(p[s.len() as int] == y);
        }
    }
    assert(p.to_set() =~= s.to_set().insert(x));
}

proof fn lemma_unused_cover(n: nat, used: Set<usize>)
    ensures
        used + unused_indexes(n, used).to_set() =~= used + indexes_below(n),
    decreases n,
{
    if n > 0 {
        lemma_unused_cover((n - 1) as nat, used);
        let rest = unused_indexes((n - 1) as nat, used);
        if !used.contains((n - 1) as usize) {
            lemma_push_to_set(rest, (n - 1) as usize);
        }
        assert forall|x: usize| (used + unused_indexes(n, used).to_set()).contains(x) <==> (used + indexes_below(n)).contains(x) by {
            if (used + rest.to_set()).contains(x) {
            }
            if (used + indexes_below((n - 1) as nat)).contains(x) {
            }
        }
    }
}

/// `input` with the spread form `...<template>` and then the bracket form
/// `[<template>]` replaced by the unused arguments.
pub open spec fn array_forms_applied(
    input: Seq<char>,
    template: Seq<char>,
    args: Seq<Seq<char>>,
    track: bool,
    mode: RenderMode,
    used: Set<usize>,
    had: bool,
) -> (Seq<char>, Set<usize>, bool) {
    let (o1, u1, h1) = array_token_applied(
        input,
        seq!['.', '.', '.'] + template,
        args,
        track,
        mode,
        ArrayLiteralKind::Spread,
        used,
        had,
    );
    array_token_applied(
        o1,
        seq!['['] + template + seq![']'],
        args,
        track,
        mode,
        ArrayLiteralKind::Bracket,
        u1,
        h1,
    )
}

/// Replaces the spread and bracket forms of `template` in `input`.
pub fn replace_array_placeholder_literal_forms(
    input: &str,
    template: &str,
    remaining_args: &[String],
    track_usage: bool,
    mode: RenderMode,
    stats: &mut RenderStats,
) -> (r: String)
    ensures
        (r@, final(stats).used_arg_indexes@, final(stats).had_placeholders) == array_forms_applied(
            input@,
            template@,
            remaining_args@.map_values(|a: String| a@),
            track_usage,
            mode,
            old(stats).used_arg_indexes@,
            old(stats).had_placeholders,
        ),
{
    let mut spread = to_string("...");
    spread.append(template);
    let mut bracket = to_string("[");
    bracket.append(template);
    bracket.append("]");
    proof {
        reveal_strlit("...");
        reveal_strlit("[");
        reveal_strlit("]");
        assert(spread@ =~= seq!['.', '.', '.'] + template@);
        assert(bracket@ =~= seq!['['] + template@ + seq![']']);
    }
    let output = replace_array_literal_token(
        input,
        spread.as_str(),
        remaining_args,
        track_usage,
        mode,
        ArrayLiteralKind::Spread,
        stats,
    );
    replace_array_literal_token(
        output.as_str(),
        bracket.as_str(),
        remaining_args,
        track_usage,
        mode,
        ArrayLiteralKind::Bracket,
        stats,
    )
}

/// The entries of `s` whose key is not empty, in order.
pub open spec fn nonempty_keys(s: Seq<(Seq<char>, Seq<char>)>) -> Seq<(Seq<char>, Seq<char>)>
    decreases s.len(),
{
    if s.len() == 0 {
        s
    } else {
        let r = nonempty_keys(s.drop_last());
        if s.last().0.len() > 0 { r.push(s.last()) } else { r }
    }
}

/// `sorted` (by descending key length in UTF-8 bytes) with `e` placed after
/// every entry whose key is at least as long.
pub open spec fn insert_by_len(sorted: Seq<(Seq<char>, Seq<char>)>, e: (Seq<char>, Seq<char>)) -> Seq<(Seq<char>, Seq<char>)>
    decreases sorted.len(),
{
    if sorted.len() == 0 {
        seq![e]
    } else if byte_len(sorted.last().0) >= byte_len(e.0) {
        sorted.push(e)
    } else {
        insert_by_len(sorted.drop_last(), e).push(sorted.last())
    }
}

/// `s` sorted stably by descending key length in UTF-8 bytes, as
/// `str::len` measures it.
pub open spec fn by_length_desc(s: Seq<(Seq<char>, Seq<char>)>) -> Seq<(Seq<char>, Seq<char>)>
    decreases s.len(),
{
    if s.len() == 0 {
        s
    } else {
        insert_by_len(by_length_desc(s.drop_last()), s.last())
    }
}

/// One round of macro replacement over the first `k` macros: the text, and
/// whether some macro occurred.
pub open spec fn macro_pass(out: Seq<char>, ordered: Seq<(Seq<char>, Seq<char>)>, k: int) -> (Seq<char>, bool)
    decreases k,
{
    if k <= 0 {
        (out, false)
    } else {
        let (o, changed) = macro_pass(out, ordered, k - 1);
        let (key, replacement) = ordered[k - 1];
        if contains(o, key) {
            (replace_all(o, key, replacement), true)
        } else {
            (o, changed)
        }
    }
}

/// Up to `rounds` rounds of macro replacement, stopping after a round in
/// which no macro occurred.
pub open spec fn macro_rounds(out: Seq<char>, ordered: Seq<(Seq<char>, Seq<char>)>, rounds: nat) -> Seq<char>
    decreases rounds,
{
    if rounds == 0 {
        out
    } else {
        let (o, changed) = macro_pass(out, ordered, ordered.len() as int);
        if changed { macro_rounds(o, ordered, (rounds - 1) as nat) } else { o }
    }
}

/// `value` with the macros expanded: longer keys (in bytes) first, for at most eight
/// rounds, so that macros may use other macros.
pub open spec fn macros_applied(value: Seq<char>, macros: Seq<(Seq<char>, Seq<char>)>) -> Seq<char> {
    if macros.len() == 0 {
        value
    } else {
        macro_rounds(value, by_length_desc(nonempty_keys(macros)), 8)
    }
}

/// The entries of a map of strings, as pairs of texts.
pub open spec fn text_pairs(m: Seq<(Seq<char>, String)>) -> Seq<(Seq<char>, Seq<char>)> {
    m.map_values(|e: (Seq<char>, String)| (e.0, e.1@))
}

/// The pairs of strings, as pairs of texts.
pub open spec fn string_pairs(v: Seq<(String, String)>) -> Seq<(Seq<char>, Seq<char>)> {
    v.map_values(|e: (String, String)| (e.0@, e.1@))
}

proof fn lemma_insert_by_len(sorted: Seq<(Seq<char>, Seq<char>)>, e: (Seq<char>, Seq<char>), j: int)
    requires
        0 <= j <= sorted.len(),
        forall|k: int| j <= k < sorted.len() ==> byte_len((#[trigger] sorted[k]).0) < byte_len(e.0),
        j > 0 ==> byte_len(sorted[j - 1].0) >= byte_len(e.0),
    ensures
        insert_by_len(sorted, e) == sorted.insert(j, e),
    decreases sorted.len(),
{
    if sorted.len() == 0 {
        assert(insert_by_len(sorted, e) =~= sorted.insert(j, e));
    } else if j == sorted.len() {
        assert(insert_by_len(sorted, e) =~= sorted.insert(j, e));
    } else {
        let d = sorted.drop_last();
        assert forall|k: int| j <= k < d.len() implies byte_len((#[trigger] d[k]).0) < byte_len(e.0) by {
            assert(d[k] == sorted[k]);
        }
        lemma_insert_by_len(d, e, j);
        assert(insert_by_len(sorted, e) =~= sorted.insert(j, e));
    }
}

/// Expands the macros of `macros_map` in `value`.
pub fn apply_macros(value: &str, macros_map: &StrMap<String>) -> (r: String)
    ensures
        r@ == macros_applied(value@, text_pairs(macros_map@)),
{
    let ghost m = text_pairs(macros_map@);
    if macros_map.is_empty() {
        return to_string(value);
    }
    let mut ordered: Vec<(String, String)> = Vec::new();
    let mut i: usize = 0;
    while i < macros_map.len()
        invariant
            i <= macros_map@.len(),
            m == text_pairs(macros_map@),
            string_pairs(ordered@) == by_length_desc(nonempty_keys(m.subrange(0, i as int))),
            forall|k: int| 0 <= k < ordered@.len() ==> (#[trigger] ordered@[k]).0@.len() > 0,
        decreases macros_map@.len() - i,
    {
        let key = macros_map.key_at(i);
        let klen = key.as_str().len();
        proof {
            assert(m.subrange(0, i + 1).drop_last() =~= m.subrange(0, i as int));
        }
        if key.as_str().unicode_len() > 0 {
            let e = (key.clone(), macros_map.value_at(i).clone());
            let ghost sorted = string_pairs(ordered@);
            let mut j = ordered.len();
            while j > 0 && ordered[j - 1].0.as_str().len() < klen
                invariant
                    j <= ordered@.len(),
                    sorted == string_pairs(ordered@),
                    klen == byte_len(e.0@),
                    forall|k: int| j <= k < sorted.len() ==> byte_len((#[trigger] sorted[k]).0) < klen,
                decreases j,
            {
                j = j - 1;
            }
            proof {
                lemma_insert_by_len(sorted, (e.0@, e.1@), j as int);
                assert(m.subrange(0, i + 1).last() == (e.0@, e.1@));
                let x = nonempty_keys(m.subrange(0, i as int));
                assert(nonempty_keys(m.subrange(0, i + 1)) == x.push((e.0@, e.1@)));
                assert(x.push((e.0@, e.1@)).drop_last() =~= x);
            }
            ordered.insert(j, e);
            assert(string_pairs(ordered@) =~= sorted.insert(j as int, (e.0@, e.1@)));
        } else {
            assert(m.subrange(0, i + 1).last().0.len() == 0);
        }
        i = i + 1;
    }
    assert(m.subrange(0, m.len() as int) =~= m);
    let ghost ord = string_pairs(ordered@);
    let mut output = to_string(value);
    let mut round: usize = 0;
    while round < 8
        invariant
            round <= 8,
            ord == string_pairs(ordered@),
            ord == by_length_desc(nonempty_keys(m)),
            m.len() > 0,
            m == text_pairs(macros_map@),
            forall|k: int| 0 <= k < ordered@.len() ==> (#[trigger] ordered@[k]).0@.len() > 0,
            macros_applied(value@, m) == macro_rounds(output@, ord, (8 - round) as nat),
        decreases 8 - round,
    {
        let ghost start = output@;
        let mut changed = false;
        let mut k: usize = 0;
        while k < ordered.len()
            invariant
                k <= ordered@.len(),
                ord == string_pairs(ordered@),
                forall|x: int| 0 <= x < ordered@.len() ==> (#[trigger] ordered@[x]).0@.len() > 0,
                macro_pass(start, ord, k as int) == (output@, changed),
            decreases ordered@.len() - k,
        {
            let key = &ordered[k].0;
            assert(ord[k as int] == (key@, ordered@[k as int].1@));
            if contains_str(output.as_str(), key.as_str()) {
                output = replace_str(output.as_str(), key.as_str(), ordered[k].1.as_str());
                changed = true;
            }
            k = k + 1;
        }
        if !changed {
            return output;
        }
        round = round + 1;
    }
    output
}

/// What to do with arguments that no placeholder of an `eval` used.
#[derive(Clone, Copy, Debug, PartialEq, Eq, Structural)]
pub enum UnusedArgsMode {
    Ignore,
    Warn,
    Error,
}

/// The settings that a command chain gathers for executing its command.
#[derive(Debug)]
pub struct ExecutionContext {
    pub before: Option<String>,
    pub dir: String,
    pub runner: Option<String>,
    pub fallback_runner: Option<String>,
    pub check: Option<String>,
    pub placeholder: Option<String>,
    pub on_unused_args: Option<UnusedArgsMode>,
    pub macros: StrMap<String>,
    pub compute: StrMap<String>,
}

impl Default for ExecutionContext {
    fn default() -> (c: Self)
        ensures
            c.before is None,
            c.dir@ == Seq::<char>::empty(),
            c.runner is None,
            c.fallback_runner is None,
            c.check is None,
            c.placeholder is None,
            c.on_unused_args is None,
            c.macros@ == Seq::<(Seq<char>, String)>::empty(),
            c.compute@ == Seq::<(Seq<char>, String)>::empty(),
    {
        ExecutionContext {
            before: None,
            dir: String::new(),
            runner: None,
            fallback_runner: None,
            check: None,
            placeholder: None,
            on_unused_args: None,
            macros: StrMap::new(),
            compute: StrMap::new(),
        }
    }
}

/// The placeholder pattern, as text.
pub open spec fn placeholder_text(context: ExecutionContext) -> Option<Seq<char>> {
    match context.placeholder {
        Some(p) => Some(p@),
        None => None,
    }
}

/// The configured placeholder pattern, if any, always moves forward.
pub open spec fn placeholder_advances(context: ExecutionContext) -> bool {
    forall|i: int| 0 <= i < templates_of(placeholder_text(context)).len() ==> template_advances(
        #[trigger] templates_of(placeholder_text(context))[i],
    )
}

/// `value` rendered for the context: macros, then computed tokens, then
/// the indexed placeholders, then the spread and bracket forms.
pub open spec fn rendered(
    value: Seq<char>,
    context: ExecutionContext,
    args: Seq<Seq<char>>,
    computed: Seq<(Seq<char>, Seq<char>)>,
    track: bool,
    mode: RenderMode,
    used: Set<usize>,
    had: bool,
) -> (Seq<char>, Set<usize>, bool) {
    let expanded = macros_applied(macros_applied(value, text_pairs(context.macros@)), computed);
    let templates = templates_of(placeholder_text(context));
    if templates.len() == 0 {
        (expanded, used, had)
    } else {
        let (o, u, h) = template_applied(expanded, templates[0], args, track, mode, used, had);
        array_forms_applied(o, templates[0], args, track, mode, u, h)
    }
}

/// Placeholders are opt-in: without a configured pattern, rendering only
/// expands the macros and the computed tokens, and uses no argument.
pub proof fn lemma_no_placeholder_no_interpolation(
    value: Seq<char>,
    context: ExecutionContext,
    args: Seq<Seq<char>>,
    computed: Seq<(Seq<char>, Seq<char>)>,
    track: bool,
    mode: RenderMode,
    used: Set<usize>,
    had: bool,
)
    requires
        context.placeholder is None,
    ensures
        rendered(value, context, args, computed, track, mode, used, had) == (
            macros_applied(macros_applied(value, text_pairs(context.macros@)), computed),
            used,
            had,
        ),
{
    assert(placeholder_text(context) is None);
    assert(templates_of(placeholder_text(context)).len() == 0);
}

/// Renders a command template for execution.
pub fn render_runtime_string(
    value: &str,
    context: &ExecutionContext,
    remaining_args: &[String],
    computed_values: &StrMap<String>,
    track_usage: bool,
    mode: RenderMode,
    stats: &mut RenderStats,
) -> (r: String)
    requires
        placeholder_advances(*context),
    ensures
        (r@, final(stats).used_arg_indexes@, final(stats).had_placeholders) == rendered(
            value@,
            *context,
            remaining_args@.map_values(|a: String| a@),
            text_pairs(computed_values@),
            track_usage,
            mode,
            old(stats).used_arg_indexes@,
            old(stats).had_placeholders,
        ),
{
    let with_macros = apply_macros(value, &context.macros);
    let with_compute = apply_macros(with_macros.as_str(), computed_values);
    let templates = placeholder_templates(
        match &context.placeholder {
            Some(p) => Some(p.as_str()),
            None => None,
        },
    );
    if templates.len() == 0 {
        return with_compute;
    }
    assert(templates.deep_view()[0] == templates[0]@);
    let output = replace_placeholder_template(
        with_compute.as_str(),
        templates[0].as_str(),
        remaining_args,
        track_usage,
        mode,
        stats,
    );
    replace_array_placeholder_literal_forms(
        output.as_str(),
        templates[0].as_str(),
        remaining_args,
        track_usage,
        mode,
        stats,
    )
}

/// The arguments to append to the last command: all of them when no
/// placeholder is configured or met, else those that no placeholder used.
pub open spec fn tail_args(
    placeholder_configured: bool,
    args: Seq<Seq<char>>,
    used: Set<usize>,
    had: bool,
) -> Seq<Seq<char>> {
    if args.len() == 0 {
        Seq::empty()
    } else if !placeholder_configured && !had {
        args
    } else {
        unused_indexes(args.len(), used).map_values(|i: usize| args[i as int])
    }
}

/// The arguments left for the tail of the command.
pub fn unresolved_args_for_tail(
    context: &ExecutionContext,
    remaining_args: &[String],
    stats: &RenderStats,
) -> (r: Vec<String>)
    ensures
        r.deep_view() == tail_args(
            context.placeholder is Some,
            remaining_args@.map_values(|a: String| a@),
            stats.used_arg_indexes@,
            stats.had_placeholders,
        ),
{
    let ghost args = remaining_args@.map_values(|a: String| a@);
    let mut out: Vec<String> = Vec::new();
    if remaining_args.len() == 0 {
        assert(out.deep_view() =~= Seq::<Seq<char>>::empty());
        return out;
    }
    if context.placeholder.is_none() && !stats.had_placeholders {
        let mut i: usize = 0;
        while i < remaining_args.len()
            invariant
                i <= remaining_args@.len(),
                args == remaining_args@.map_values(|a: String| a@),
                out.deep_view() =~= args.subrange(0, i as int),
            decreases remaining_args@.len() - i,
        {
            let ghost before = out.deep_view();
            out.push(remaining_args[i].clone());
            assert(out.deep_view() =~= before.push(args[i as int]));
            i = i + 1;
        }
        return out;
    }
    let mut i: usize = 0;
    while i < remaining_args.len()
        invariant
            i <= remaining_args@.len(),
            args == remaining_args@.map_values(|a: String| a@),
            out.deep_view() =~= unused_indexes(i as nat, stats.used_arg_indexes@).map_values(|k: usize| args[k as int]),
        decreases remaining_args@.len() - i,
    {
        let ghost before = out.deep_view();
        if !stats.used_arg_indexes.contains(&i) {
            out.push(remaining_args[i].clone());
            assert(out.deep_view() =~= before.push(args[i as int]));
        }
        proof {
            let u = unused_indexes(i as nat, stats.used_arg_indexes@);
            if !stats.used_arg_indexes@.contains(i) {
                assert(u.push(i).map_values(|k: usize| args[k as int]) =~= u.map_values(|k: usize| args[k as int]).push(args[i as int]));
            }
        }
        i = i + 1;
    }
    out
}

/// The commands with the shell-quoted tail arguments appended to the last.
pub open spec fn with_tail(commands: Seq<Seq<char>>, args: Seq<Seq<char>>) -> Seq<Seq<char>> {
    if commands.len() == 0 || args.len() == 0 {
        commands
    } else {
        commands.update(commands.len() - 1, commands.last() + seq![' '] + shell_joined(args))
    }
}

/// Appends the remaining arguments to the last command.
pub fn commands_with_remaining_args(commands: &[String], remaining_args: &[String]) -> (r: Vec<String>)
    ensures
        r.deep_view() == with_tail(
            commands@.map_values(|c: String| c@),
            remaining_args@.map_values(|a: String| a@),
        ),
{
    let ghost cs = commands@.map_values(|c: String| c@);
    let mut out: Vec<String> = Vec::new();
    let mut i: usize = 0;
    while i < commands.len()
        invariant
            i <= commands@.len(),
            cs == commands@.map_values(|c: String| c@),
            out.deep_view() =~= cs.subrange(0, i as int),
        decreases commands@.len() - i,
    {
        let ghost before = out.deep_view();
        out.push(commands[i].clone());
        assert(out.deep_view() =~= before.push(cs[i as int]));
        i = i + 1;
    }
    assert(out.deep_view() =~= cs);
    if out.len() == 0 || remaining_args.len() == 0 {
        return out;
    }
    let last = out.len() - 1;
    let mut updated = out[last].clone();
    assert(updated@ == cs[last as int]);
    crate::text::push_char(&mut updated, ' ');
    let joined = join_shell_args(remaining_args);
    updated.append(joined.as_str());
    assert(updated@ == cs.last() + seq![' '] + joined@);
    let ghost before = out.deep_view();
    assert(joined@ == shell_joined(remaining_args@.map_values(|a: String| a@)));
    out.set(last, updated);
    assert(out.deep_view() =~= before.update(last as int, updated@));
    out
}

} // verus!
