//! Unix path operations on text: joining, the final component, and the
//! normalisation of relative include paths.

use vstd::prelude::*;

use crate::strmap::{entry_get, entry_insert, entry_values, str_equal, StrMap};
use crate::text::{join, join_strings, push_char, split_char, split_on, texts, to_string};

verus! {

/// The components of a Unix path: the pieces between slashes, without the
/// empty ones and without `.`.
pub open spec fn components(p: Seq<char>) -> Seq<Seq<char>> {
    kept(split_on(p, '/'))
}

/// The pieces that are neither empty nor `.`.
pub open spec fn kept(cs: Seq<Seq<char>>) -> Seq<Seq<char>> {
    cs.filter(|c: Seq<char>| c.len() > 0 && c != seq!['.'])
}

/// The final component of a path, unless it is `..` or there is none, as
/// `Path::file_name` gives it.
pub open spec fn file_name_of(p: Seq<char>) -> Option<Seq<char>> {
    let cs = components(p);
    if cs.len() == 0 || cs.last() == seq!['.', '.'] {
        None
    } else {
        Some(cs.last())
    }
}

/// The pieces of `v` that are neither empty nor `.`.
pub(crate) fn kept_components(v: &Vec<String>) -> (r: Vec<String>)
    ensures
        r.deep_view() == kept(v.deep_view()),
{
    let ghost dv = v.deep_view();
    let mut r: Vec<String> = Vec::new();
    let mut i: usize = 0;
    proof {
        reveal_strlit(".");
        assert("."@ =~= seq!['.']);
    }
    while i < v.len()
        invariant
            i <= v@.len(),
            dv == v.deep_view(),
            "."@ == seq!['.'],
            r.deep_view() == kept(dv.subrange(0, i as int)),
        decreases v@.len() - i,
    {
        proof {
            reveal_with_fuel(Seq::<_>::filter, 1);
            assert(dv.subrange(0, i + 1).drop_last() =~= dv.subrange(0, i as int));
        }
        let c = v[i].as_str();
        if c.unicode_len() > 0 && !str_equal(c, ".") {
            let ghost before = r.deep_view();
            r.push(v[i].clone());
            assert(r.deep_view() =~= before.push(dv[i as int]));
        }
        i = i + 1;
    }
    assert(dv.subrange(0, dv.len() as int) =~= dv);
    r
}

/// The final component of the path `p`.
pub fn path_file_name(p: &str) -> (r: Option<String>)
    ensures
        r matches Some(n) ==> file_name_of(p@) == Some(n@),
        r is None ==> file_name_of(p@) is None,
{
    let pieces = split_char(p, '/');
    let cs = kept_components(&pieces);
    proof {
        reveal_strlit("..");
        assert(".."@ =~= seq!['.', '.']);
    }
    if cs.len() == 0 {
        return None;
    }
    let last = &cs[cs.len() - 1];
    assert(cs.deep_view().last() == last@);
    if str_equal(last.as_str(), "..") {
        None
    } else {
        Some(last.clone())
    }
}

/// `next` taken relative to `current`: an absolute `next` replaces it,
/// otherwise it is appended after a separator, as `Path::join` does.
pub open spec fn joined_path(current: Seq<char>, next: Seq<char>) -> Seq<char> {
    if next.len() > 0 && next[0] == '/' {
        next
    } else if current.len() == 0 || current.last() == '/' {
        current + next
    } else {
        current + seq!['/'] + next
    }
}

/// Joins `next` onto `current`.
pub fn join_path(current: &str, next: &str) -> (r: String)
    ensures
        r@ == joined_path(current@, next@),
{
    if next.unicode_len() > 0 && next.get_char(0) == '/' {
        return to_string(next);
    }
    let n = current.unicode_len();
    let mut r = to_string(current);
    if n > 0 && current.get_char(n - 1) != '/' {
        crate::text::push_char(&mut r, '/');
    }
    r.append(next);
    r
}

/// The directory a command runs in, given its parent's and its own `dir`.
pub fn resolve_next_dir(current: &str, next: &str) -> (r: String)
    ensures
        r@ == joined_path(current@, next@),
{
    join_path(current, next)
}

/// The relative form of an include path: its components joined with `/`,
/// unless the path is absolute, climbs with `..`, or names nothing.
pub open spec fn include_path(p: Seq<char>) -> Option<Seq<char>> {
    let cs = components(p);
    if p.len() > 0 && p[0] == '/' {
        None
    } else if cs.contains(seq!['.', '.']) {
        None
    } else if cs.len() == 0 {
        None
    } else {
        Some(join(cs, seq!['/']))
    }
}

/// Normalises an include path, refusing absolute paths and `..`.
pub fn normalize_relative_include_path(path: &str) -> (r: Option<String>)
    ensures
        r matches Some(n) ==> include_path(path@) == Some(n@),
        r is None ==> include_path(path@) is None,
{
    if path.unicode_len() > 0 && path.get_char(0) == '/' {
        return None;
    }
    let pieces = split_char(path, '/');
    let cs = kept_components(&pieces);
    let ghost dv = cs.deep_view();
    proof {
        reveal_strlit("..");
        reveal_strlit("/");
        assert(".."@ =~= seq!['.', '.']);
        assert("/"@ =~= seq!['/']);
    }
    let mut i: usize = 0;
    while i < cs.len()
        invariant
            i <= cs@.len(),
            dv == cs.deep_view(),
            dv == components(path@),
            ".."@ == seq!['.', '.'],
            forall|k: int| 0 <= k < i ==> dv[k] != seq!['.', '.'],
        decreases cs@.len() - i,
    {
        if str_equal(cs[i].as_str(), "..") {
            assert(dv[i as int] == seq!['.', '.']);
            assert(dv.contains(seq!['.', '.']));
            assert(dv == components(path@));
            return None;
        }
        i = i + 1;
    }
    if cs.len() == 0 {
        return None;
    }
    assert(texts(cs@) =~= cs.deep_view());
    Some(join_strings(&cs, "/"))
}

/// The text by which `Path` compares a component: `..` and each name,
/// closed by NUL, with a leading mark that orders `..` before names.
pub open spec fn component_key(c: Seq<char>) -> Seq<char> {
    if c == seq!['.', '.'] {
        seq!['\u{3}', '\u{0}']
    } else {
        seq!['\u{4}'] + c + seq!['\u{0}']
    }
}

/// The keys of the components `cs`, one after the other.
pub open spec fn component_keys(cs: Seq<Seq<char>>) -> Seq<char>
    decreases cs.len(),
{
    if cs.len() == 0 {
        Seq::empty()
    } else {
        component_keys(cs.drop_last()) + component_key(cs.last())
    }
}

/// The components of the path `p` as `Path` compares them, written as one
/// text: a root for an absolute path, a leading `.` of a relative one, then
/// the other components. Two paths without NUL in them are equal as paths
/// when their keys are equal, and ordered as paths when their keys are
/// ordered by `str_lt`.
pub open spec fn path_key(p: Seq<char>) -> Seq<char> {
    let pieces = split_on(p, '/');
    let absolute = p.len() > 0 && p[0] == '/';
    let root = if absolute { seq!['\u{1}', '\u{0}'] } else { Seq::empty() };
    let cur = if !absolute && pieces.len() > 0 && pieces[0] == seq!['.'] {
        seq!['\u{2}', '\u{0}']
    } else {
        Seq::empty()
    };
    root + cur + component_keys(kept(pieces))
}

/// The comparison key of the path `p`.
pub fn path_key_of(p: &str) -> (r: String)
    ensures
        r@ == path_key(p@),
{
    let pieces = split_char(p, '/');
    let ghost pv = pieces.deep_view();
    let absolute = p.unicode_len() > 0 && p.get_char(0) == '/';
    let mut r = String::new();
    if absolute {
        push_char(&mut r, '\u{1}');
        push_char(&mut r, '\u{0}');
    }
    proof {
        reveal_strlit(".");
        reveal_strlit("..");
        assert("."@ =~= seq!['.']);
        assert(".."@ =~= seq!['.', '.']);
    }
    if !absolute && pieces.len() > 0 && str_equal(pieces[0].as_str(), ".") {
        push_char(&mut r, '\u{2}');
        push_char(&mut r, '\u{0}');
    }
    let ghost head = r@;
    let cs = kept_components(&pieces);
    let ghost cv = cs.deep_view();
    assert(r@ =~= head + component_keys(cv.subrange(0, 0)));
    let mut i: usize = 0;
    while i < cs.len()
        invariant
            i <= cs@.len(),
            cv == cs.deep_view(),
            ".."@ == seq!['.', '.'],
            r@ == head + component_keys(cv.subrange(0, i as int)),
        decreases cs@.len() - i,
    {
        let ghost before = r@;
        if str_equal(cs[i].as_str(), "..") {
            push_char(&mut r, '\u{3}');
            push_char(&mut r, '\u{0}');
        } else {
            push_char(&mut r, '\u{4}');
            r.append(cs[i].as_str());
            push_char(&mut r, '\u{0}');
        }
        assert(cv.subrange(0, i + 1).drop_last() =~= cv.subrange(0, i as int));
        assert(r@ =~= before + component_key(cv[i as int]));
        i = i + 1;
    }
    assert(cv.subrange(0, cv.len() as int) =~= cv);
    r
}

/// The paths, keyed by their comparison keys: each key once, with the first
/// path that has it.
pub open spec fn keyed_paths(paths: Seq<String>) -> Seq<(Seq<char>, String)>
    decreases paths.len(),
{
    if paths.len() == 0 {
        Seq::empty()
    } else {
        let prev = keyed_paths(paths.drop_last());
        let k = path_key(paths.last()@);
        if entry_get(prev, k) is Some {
            prev
        } else {
            entry_insert(prev, k, paths.last())
        }
    }
}

/// The paths in the order of paths, each path once, as a `BTreeSet` of
/// `PathBuf` holds them.
pub fn sorted_paths(paths: &[String]) -> (r: Vec<String>)
    ensures
        r@ == entry_values(keyed_paths(paths@)),
{
    let mut map: StrMap<String> = StrMap::new();
    let mut i: usize = 0;
    assert(paths@.take(0).len() == 0);
    while i < paths.len()
        invariant
            i <= paths@.len(),
            map@ == keyed_paths(paths@.take(i as int)),
        decreases paths@.len() - i,
    {
        assert(paths@.take(i + 1).drop_last() =~= paths@.take(i as int));
        assert(paths@.take(i + 1).last() == paths@[i as int]);
        let key = path_key_of(paths[i].as_str());
        if !map.contains_key(key.as_str()) {
            map.insert(key, paths[i].clone());
        }
        i = i + 1;
    }
    assert(paths@.take(paths@.len() as int) =~= paths@);
    map.into_values()
}

} // verus!
