//! The registry of directories installed for global use.

use vstd::prelude::*;

use crate::paths::{keyed_paths, path_key, path_key_of, sorted_paths};
use crate::strmap::{entry_get, entry_insert, entry_values, lemma_entry_get_insert, lemma_entry_insert_elements, str_equal};
use crate::text::texts;

verus! {

/// What installing a directory did.
#[derive(Clone, Copy, Debug, PartialEq, Eq, Structural)]
pub enum InstallResult {
    Added,
    AlreadyInstalled,
}

/// Whether `p` is an absolute path.
pub open spec fn is_absolute(p: Seq<char>) -> bool {
    p.len() > 0 && p[0] == '/'
}

/// The absolute paths of `dirs`, in order.
pub open spec fn absolute_only(dirs: Seq<Seq<char>>) -> Seq<Seq<char>>
    decreases dirs.len(),
{
    if dirs.len() == 0 {
        Seq::empty()
    } else {
        let prev = absolute_only(dirs.drop_last());
        if is_absolute(dirs.last()) {
            prev.push(dirs.last())
        } else {
            prev
        }
    }
}

/// The installed directories that the registry lists: the absolute ones.
pub fn load_installed_directories(listed: Vec<String>) -> (r: Vec<String>)
    ensures
        texts(r@) == absolute_only(texts(listed@)),
{
    let ghost all = texts(listed@);
    let mut out: Vec<String> = Vec::new();
    let mut i: usize = 0;
    assert(all.take(0).len() == 0);
    while i < listed.len()
        invariant
            all == texts(listed@),
            i <= all.len(),
            texts(out@) == absolute_only(all.take(i as int)),
        decreases all.len() - i,
    {
        assert(all.take(i + 1).drop_last() =~= all.take(i as int));
        assert(all.take(i + 1).last() == listed@[i as int]@);
        let p = listed[i].as_str();
        if p.unicode_len() > 0 && p.get_char(0) == '/' {
            let ghost before = texts(out@);
            out.push(listed[i].clone());
            assert(texts(out@) =~= before.push(p@));
        }
        i = i + 1;
    }
    assert(all.take(all.len() as int) =~= all);
    out
}

/// Whether some path of `installed` is the same path as `p`.
pub open spec fn lists_path(installed: Seq<String>, p: Seq<char>) -> bool {
    exists|i: int| 0 <= i < installed.len() && path_key(#[trigger] installed[i]@) == path_key(p)
}

/// What installing `absolute` into the list `installed` gives: when the
/// list has it already, nothing changes; else the new list, in the order of
/// paths and each path once, is the one to write.
pub open spec fn installed_as(installed: Seq<String>, absolute: Seq<char>, result: InstallResult, after: Seq<String>) -> bool {
    &&& lists_path(installed, absolute) ==> result == InstallResult::AlreadyInstalled && after == installed
    &&& !lists_path(installed, absolute) ==> result == InstallResult::Added && exists|s: String|
        s@ == absolute && after == entry_values(keyed_paths(#[trigger] installed.push(s)))
}

/// Installs the directory `absolute` into the list `installed`.
pub fn install_directory(installed: &[String], absolute: &str) -> (r: (InstallResult, Vec<String>))
    ensures
        installed_as(installed@, absolute@, r.0, r.1@),
        lists_path(r.1@, absolute@),
{
    let key = path_key_of(absolute);
    let mut i: usize = 0;
    while i < installed.len()
        invariant
            key@ == path_key(absolute@),
            i <= installed@.len(),
            forall|k: int| 0 <= k < i ==> path_key(#[trigger] installed@[k]@) != path_key(absolute@),
        decreases installed@.len() - i,
    {
        let other = path_key_of(installed[i].as_str());
        if str_equal(other.as_str(), key.as_str()) {
            assert(path_key(installed@[i as int]@) == path_key(absolute@));
            let mut same: Vec<String> = Vec::new();
            let mut j: usize = 0;
            while j < installed.len()
                invariant
                    j <= installed@.len(),
                    same@ == installed@.take(j as int),
                decreases installed@.len() - j,
            {
                same.push(installed[j].clone());
                assert(same@ =~= installed@.take(j + 1));
                j = j + 1;
            }
            assert(installed@.take(installed@.len() as int) =~= installed@);
            return (InstallResult::AlreadyInstalled, same);
        }
        i = i + 1;
    }
    let mut all: Vec<String> = Vec::new();
    let mut j: usize = 0;
    while j < installed.len()
        invariant
            j <= installed@.len(),
            all@ == installed@.take(j as int),
        decreases installed@.len() - j,
    {
        all.push(installed[j].clone());
        assert(all@ =~= installed@.take(j + 1));
        j = j + 1;
    }
    assert(installed@.take(installed@.len() as int) =~= installed@);
    let new_entry = crate::text::to_string(absolute);
    all.push(new_entry);
    assert(all@ == installed@.push(new_entry));
    let sorted = sorted_paths(all.as_slice());
    assert(sorted@ == entry_values(keyed_paths(installed@.push(new_entry))));
    proof {
        lemma_installed_lists_new(installed@, new_entry);
    }
    (InstallResult::Added, sorted)
}

proof fn lemma_entry_get_found<T>(s: Seq<(Seq<char>, T)>, k: Seq<char>)
    requires
        entry_get(s, k) is Some,
    ensures
        exists|i: int| 0 <= i < s.len() && s[i] == (k, entry_get(s, k)->0),
    decreases s.len(),
{
    if s[0].0 != k {
        lemma_entry_get_found(s.drop_first(), k);
        let i = choose|i: int| 0 <= i < s.drop_first().len() && s.drop_first()[i] == (k, entry_get(s, k)->0);
        assert(s[i + 1] == (k, entry_get(s, k)->0));
    } else {
        assert(s[0] == (k, entry_get(s, k)->0));
    }
}

proof fn lemma_keyed_paths_keys(paths: Seq<String>)
    ensures
        forall|i: int| 0 <= i < keyed_paths(paths).len() ==> path_key((#[trigger] keyed_paths(paths)[i]).1@)
            == keyed_paths(paths)[i].0,
    decreases paths.len(),
{
    if paths.len() > 0 {
        let prev = keyed_paths(paths.drop_last());
        lemma_keyed_paths_keys(paths.drop_last());
        let k = path_key(paths.last()@);
        if entry_get(prev, k) is None {
            assert forall|i: int| 0 <= i < keyed_paths(paths).len() implies path_key(
                (#[trigger] keyed_paths(paths)[i]).1@,
            ) == keyed_paths(paths)[i].0 by {
                lemma_entry_insert_elements(prev, k, paths.last(), i);
                let e = keyed_paths(paths)[i];
                if e != (k, paths.last()) {
                    let x = choose|x: int| 0 <= x < prev.len() && prev[x] == e;
                    assert(prev[x] == e);
                }
            }
        }
    }
}

/// After a directory is added, the list holds a path that is the same path.
proof fn lemma_installed_lists_new(installed: Seq<String>, s: String)
    ensures
        lists_path(entry_values(keyed_paths(installed.push(s))), s@),
{
    let all = installed.push(s);
    let prev = keyed_paths(installed);
    let m = keyed_paths(all);
    let k = path_key(s@);
    assert(all.drop_last() =~= installed);
    assert(all.last() == s);
    if entry_get(prev, k) is None {
        lemma_entry_get_insert(prev, k, s, k);
    }
    assert(entry_get(m, k) is Some);
    lemma_entry_get_found(m, k);
    lemma_keyed_paths_keys(all);
    let i = choose|i: int| 0 <= i < m.len() && m[i] == (k, entry_get(m, k)->0);
    let values = entry_values(m);
    assert(values[i] == m[i].1);
    assert(path_key(values[i]@) == k);
}

/// Installing the same directory again changes nothing: after a first
/// install, a second one reports the directory as installed and leaves the
/// list as the first one wrote it.
pub proof fn lemma_install_idempotent(
    installed: Seq<String>,
    absolute: Seq<char>,
    first: InstallResult,
    after: Seq<String>,
    second: InstallResult,
    again: Seq<String>,
)
    requires
        installed_as(installed, absolute, first, after),
        installed_as(after, absolute, second, again),
    ensures
        second == InstallResult::AlreadyInstalled,
        again == after,
{
    if !lists_path(installed, absolute) {
        let s = choose|s: String| s@ == absolute && after == entry_values(keyed_paths(#[trigger] installed.push(s)));
        lemma_installed_lists_new(installed, s);
        let i = choose|i: int| 0 <= i < after.len() && path_key(#[trigger] after[i]@) == path_key(s@);
        assert(path_key(after[i]@) == path_key(absolute));
    }
}

/// The installed directories that are loaded as global ones: all but the
/// project being worked in, whose files are already loaded as local ones.
pub open spec fn global_directories(installed: Seq<Seq<char>>, project_root: Seq<char>) -> Seq<Seq<char>>
    decreases installed.len(),
{
    if installed.len() == 0 {
        Seq::empty()
    } else {
        let prev = global_directories(installed.drop_last(), project_root);
        if path_key(installed.last()) == path_key(project_root) {
            prev
        } else {
            prev.push(installed.last())
        }
    }
}

/// The installed directories to load as global ones, in order.
pub fn directories_to_load(installed: &[String], project_root: &str) -> (r: Vec<String>)
    ensures
        texts(r@) == global_directories(texts(installed@), project_root@),
{
    let ghost all = texts(installed@);
    let root_key = path_key_of(project_root);
    let mut out: Vec<String> = Vec::new();
    let mut i: usize = 0;
    while i < installed.len()
        invariant
            all == texts(installed@),
            root_key@ == path_key(project_root@),
            i <= all.len(),
            texts(out@) == global_directories(all.take(i as int), project_root@),
        decreases all.len() - i,
    {
        assert(all.take(i + 1).drop_last() =~= all.take(i as int));
        assert(all.take(i + 1).last() == installed@[i as int]@);
        let key = path_key_of(installed[i].as_str());
        if !str_equal(key.as_str(), root_key.as_str()) {
            let ghost before = texts(out@);
            out.push(installed[i].clone());
            assert(texts(out@) =~= before.push(installed@[i as int]@));
        }
        i = i + 1;
    }
    assert(all.take(all.len() as int) =~= all);
    out
}

} // verus!
