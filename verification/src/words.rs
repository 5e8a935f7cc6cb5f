//! Splitting command lines into words, for shell completion and for the
//! `:h` help suffix.

use vstd::prelude::*;
use vstd::utf8::{decode_utf8, encode_utf8, is_char_boundary, encode_utf8_valid_utf8};
use vstd::string::StringSliceAdditionalSpecFns;

use crate::strmap::str_equal;
use crate::text::{is_whitespace, is_ws, string_from_chars, chars_of};

verus! {

/// The quoting state of the shell word splitter.
#[derive(Clone, Copy, PartialEq, Eq, Structural)]
pub enum Quote {
    Unquoted,
    Single,
    Double,
}

/// The words of `input[i..]`, given the words finished so far, the word being
/// read and the quoting state: quotes group characters, a backslash outside
/// single quotes takes the next character literally (or stands for itself at
/// the end), and white space outside quotes ends a non-empty word.
pub open spec fn shell_words_from(
    input: Seq<char>,
    i: int,
    words: Seq<Seq<char>>,
    current: Seq<char>,
    quote: Quote,
) -> Seq<Seq<char>>
    decreases input.len() - i,
{
    if i >= input.len() || i < 0 {
        if current.len() > 0 { words.push(current) } else { words }
    } else {
        let ch = input[i];
        match quote {
            Quote::Unquoted => {
                if ch == '\'' {
                    shell_words_from(input, i + 1, words, current, Quote::Single)
                } else if ch == '"' {
                    shell_words_from(input, i + 1, words, current, Quote::Double)
                } else if ch == '\\' {
                    if i + 1 < input.len() {
                        shell_words_from(input, i + 2, words, current.push(input[i + 1]), quote)
                    } else {
                        shell_words_from(input, i + 1, words, current.push(ch), quote)
                    }
                } else if is_ws(ch) {
                    if current.len() > 0 {
                        shell_words_from(input, i + 1, words.push(current), Seq::empty(), quote)
                    } else {
                        shell_words_from(input, i + 1, words, current, quote)
                    }
                } else {
                    shell_words_from(input, i + 1, words, current.push(ch), quote)
                }
            },
            Quote::Single => {
                if ch == '\'' {
                    shell_words_from(input, i + 1, words, current, Quote::Unquoted)
                } else {
                    shell_words_from(input, i + 1, words, current.push(ch), quote)
                }
            },
            Quote::Double => {
                if ch == '"' {
                    shell_words_from(input, i + 1, words, current, Quote::Unquoted)
                } else if ch == '\\' {
                    if i + 1 < input.len() {
                        shell_words_from(input, i + 2, words, current.push(input[i + 1]), quote)
                    } else {
                        shell_words_from(input, i + 1, words, current.push(ch), quote)
                    }
                } else {
                    shell_words_from(input, i + 1, words, current.push(ch), quote)
                }
            },
        }
    }
}

/// The words of a shell command line.
pub open spec fn shell_words(input: Seq<char>) -> Seq<Seq<char>> {
    shell_words_from(input, 0, Seq::empty(), Seq::empty(), Quote::Unquoted)
}

/// Splits a command line into words as a POSIX shell would, honouring single
/// and double quotes and backslash escapes.
pub fn split_shell_words(input: &str) -> (r: Vec<String>)
    ensures
        r.deep_view() == shell_words(input@),
{
    let chars = chars_of(input);
    let n = chars.len();
    let mut words: Vec<String> = Vec::new();
    let mut current: Vec<char> = Vec::new();
    let mut quote = Quote::Unquoted;
    let mut i: usize = 0;
    assert(words.deep_view() =~= Seq::<Seq<char>>::empty());
    assert(current@ =~= Seq::<char>::empty());
    while i < n
        invariant
            n == chars@.len(),
            chars@ == input@,
            i <= n,
            shell_words(input@) == shell_words_from(input@, i as int, words.deep_view(), current@, quote),
        decreases n - i,
    {
        let ch = chars[i];
        let ghost w = words.deep_view();
        match quote {
            Quote::Unquoted => {
                if ch == '\'' {
                    quote = Quote::Single;
                    i = i + 1;
                } else if ch == '"' {
                    quote = Quote::Double;
                    i = i + 1;
                } else if ch == '\\' {
                    if i + 1 < n {
                        current.push(chars[i + 1]);
                        i = i + 2;
                    } else {
                        current.push(ch);
                        i = i + 1;
                    }
                } else if is_whitespace(ch) {
                    if current.len() > 0 {
                        words.push(string_from_chars(&current));
                        assert(words.deep_view() =~= w.push(current@));
                        current = Vec::new();
                    }
                    i = i + 1;
                } else {
                    current.push(ch);
                    i = i + 1;
                }
            },
            Quote::Single => {
                if ch == '\'' {
                    quote = Quote::Unquoted;
                } else {
                    current.push(ch);
                }
                i = i + 1;
            },
            Quote::Double => {
                if ch == '"' {
                    quote = Quote::Unquoted;
                    i = i + 1;
                } else if ch == '\\' {
                    if i + 1 < n {
                        current.push(chars[i + 1]);
                        i = i + 2;
                    } else {
                        current.push(ch);
                        i = i + 1;
                    }
                } else {
                    current.push(ch);
                    i = i + 1;
                }
            },
        }
    }
    if current.len() > 0 {
        let ghost w = words.deep_view();
        words.push(string_from_chars(&current));
        assert(words.deep_view() =~= w.push(current@));
    }
    words
}

/// `words` without a leading `--`, and then without a leading program name
/// (`bin_name`, or `fire`).
pub open spec fn normalized_words(words: Seq<Seq<char>>, bin_name: Seq<char>) -> Seq<Seq<char>> {
    let w = if words.len() > 0 && words[0] == seq!['-', '-'] { words.drop_first() } else { words };
    if w.len() > 0 && (w[0] == bin_name || w[0] == seq!['f', 'i', 'r', 'e']) {
        w.drop_first()
    } else {
        w
    }
}

/// Drops the `--` separator and the program name from the front of the
/// words that the shell hands over for completion.
pub fn normalize_completion_words(words: Vec<String>, bin_name: &str) -> (r: Vec<String>)
    ensures
        r.deep_view() == normalized_words(words.deep_view(), bin_name@),
{
    let mut words = words;
    let ghost w0 = words.deep_view();
    proof {
        reveal_strlit("--");
        reveal_strlit("fire");
        assert("--"@ =~= seq!['-', '-']);
        assert("fire"@ =~= seq!['f', 'i', 'r', 'e']);
    }
    if words.len() > 0 && str_equal(words[0].as_str(), "--") {
        words.remove(0);
        assert(words.deep_view() =~= w0.drop_first());
    }
    let ghost w1 = words.deep_view();
    if words.len() > 0 && (str_equal(words[0].as_str(), bin_name) || str_equal(words[0].as_str(), "fire")) {
        words.remove(0);
        assert(words.deep_view() =~= w1.drop_first());
    }
    words
}

/// The arguments before a trailing `:h`, which asks for help.
pub fn extract_help_target(command_args: &[String]) -> (r: Option<&[String]>)
    ensures
        r matches Some(t) ==> command_args@.len() > 0 && command_args@.last()@ == seq![':', 'h']
            && t@ == command_args@.drop_last(),
        r is None ==> command_args@.len() == 0 || command_args@.last()@ != seq![':', 'h'],
{
    let n = command_args.len();
    if n == 0 {
        return None;
    }
    proof {
        reveal_strlit(":h");
        assert(":h"@ =~= seq![':', 'h']);
    }
    if str_equal(command_args[n - 1].as_str(), ":h") {
        let t = &command_args[0..n - 1];
        assert(t@ =~= command_args@.drop_last());
        Some(t)
    } else {
        None
    }
}

/// The last character boundary of `bytes` at or before `k`.
pub open spec fn boundary_at_or_before(bytes: Seq<u8>, k: int) -> int
    decreases k,
{
    if k <= 0 {
        0
    } else if is_char_boundary(bytes, k) {
        k
    } else {
        boundary_at_or_before(bytes, k - 1)
    }
}

/// The characters of `s` that lie before byte `index`, taken back to the
/// nearest character boundary.
pub open spec fn utf8_prefix(s: Seq<char>, index: int) -> Seq<char> {
    let bytes = encode_utf8(s);
    let end = boundary_at_or_before(bytes, if index < bytes.len() { index } else { bytes.len() as int });
    decode_utf8(bytes.subrange(0, end))
}

/// The text of `value` before byte `index` (clamped to its length), moved
/// back to a character boundary.
pub fn utf8_prefix_at_byte(value: &str, index: usize) -> (r: Option<&str>)
    ensures
        r matches Some(p) ==> p@ == utf8_prefix(value@, index as int),
        r is Some,
{
    let len = value.as_bytes().len();
    let mut end = if index < len { index } else { len };
    let ghost bytes = value.spec_bytes();
    proof {
        encode_utf8_valid_utf8(value@);
    }
    while !value.is_char_boundary(end)
        invariant
            bytes == value.spec_bytes(),
            bytes == encode_utf8(value@),
            vstd::utf8::valid_utf8(bytes),
            len == bytes.len(),
            end <= len,
            boundary_at_or_before(bytes, if index < len { index as int } else { len as int })
                == boundary_at_or_before(bytes, end as int),
        decreases end,
    {
        if end == 0 {
            return None;
        }
        end = end - 1;
    }
    let (p, _) = value.split_at(end);
    proof {
        vstd::utf8::encode_utf8_decode_utf8(p@);
        assert(boundary_at_or_before(bytes, end as int) == end);
    }
    Some(p)
}

/// The words of the command line up to the cursor, for completion; an
/// empty word is added when the cursor follows white space.
pub open spec fn line_words(line: Seq<char>, point: int, bin_name: Seq<char>) -> Seq<Seq<char>> {
    let prefix = utf8_prefix(line, point);
    let words = shell_words(prefix);
    let words = if prefix.len() > 0 && is_ws(prefix.last()) { words.push(Seq::empty()) } else { words };
    normalized_words(words, bin_name)
}

/// The words to complete, from the command line and the cursor's byte
/// position that the shell reports.
pub fn completion_words_from_line(line: &str, point: usize, bin_name: &str) -> (r: Option<Vec<String>>)
    ensures
        r matches Some(w) ==> w.deep_view() == line_words(line@, point as int, bin_name@),
        r is Some,
{
    let prefix = match utf8_prefix_at_byte(line, point) {
        Some(p) => p,
        None => {
            return None;
        },
    };
    let mut words = split_shell_words(prefix);
    let n = prefix.unicode_len();
    if n > 0 && is_whitespace(prefix.get_char(n - 1)) {
        let ghost w = words.deep_view();
        words.push(String::new());
        assert(words.deep_view() =~= w.push(Seq::empty()));
    }
    Some(normalize_completion_words(words, bin_name))
}

} // verus!
