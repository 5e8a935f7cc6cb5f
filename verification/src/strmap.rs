//! Maps keyed by strings, kept in ascending key order (the order in which a
//! `BTreeMap<String, _>` hands out its entries).

use vstd::prelude::*;

verus! {

/// Strict lexicographic order on character sequences, by code point; a proper
/// prefix comes first. This is the order of `String`'s `Ord`, since UTF-8
/// preserves the order of code points.
pub open spec fn str_lt(a: Seq<char>, b: Seq<char>) -> bool
    decreases a.len(),
{
    if a.len() == 0 {
        b.len() > 0
    } else if b.len() == 0 {
        false
    } else if a[0] != b[0] {
        a[0] < b[0]
    } else {
        str_lt(a.drop_first(), b.drop_first())
    }
}

pub proof fn lemma_str_lt_irreflexive(a: Seq<char>)
    ensures
        !str_lt(a, a),
    decreases a.len(),
{
    if a.len() > 0 {
        lemma_str_lt_irreflexive(a.drop_first());
    }
}

pub proof fn lemma_str_lt_transitive(a: Seq<char>, b: Seq<char>, c: Seq<char>)
    requires
        str_lt(a, b),
        str_lt(b, c),
    ensures
        str_lt(a, c),
    decreases a.len(),
{
    if a.len() > 0 && b.len() > 0 && c.len() > 0 {
        if a[0] == b[0] && b[0] == c[0] {
            lemma_str_lt_transitive(a.drop_first(), b.drop_first(), c.drop_first());
        }
    }
}

pub proof fn lemma_str_lt_total(a: Seq<char>, b: Seq<char>)
    ensures
        str_lt(a, b) || str_lt(b, a) || a == b,
    decreases a.len(),
{
    if a.len() > 0 && b.len() > 0 {
        if a[0] == b[0] {
            lemma_str_lt_total(a.drop_first(), b.drop_first());
            if a.drop_first() == b.drop_first() {
                assert(a =~= seq![a[0]] + a.drop_first());
                assert(b =~= seq![b[0]] + b.drop_first());
            }
        }
    } else if a.len() == 0 && b.len() == 0 {
        assert(a =~= b);
    }
}

/// Whether `a` comes strictly before `b`.
pub fn str_less(a: &str, b: &str) -> (r: bool)
    ensures
        r == str_lt(a@, b@),
{
    let n = a.unicode_len();
    let m = b.unicode_len();
    let mut i: usize = 0;
    assert(a@.subrange(0, n as int) =~= a@);
    assert(b@.subrange(0, m as int) =~= b@);
    while i < n && i < m
        invariant
            n == a@.len(),
            m == b@.len(),
            i <= n,
            i <= m,
            str_lt(a@, b@) == str_lt(a@.subrange(i as int, n as int), b@.subrange(i as int, m as int)),
        decreases n - i,
    {
        let x = a.get_char(i);
        let y = b.get_char(i);
        proof {
            let sa = a@.subrange(i as int, n as int);
            let sb = b@.subrange(i as int, m as int);
            assert(sa[0] == x && sb[0] == y);
            assert(sa.drop_first() =~= a@.subrange(i + 1, n as int));
            assert(sb.drop_first() =~= b@.subrange(i + 1, m as int));
        }
        if x != y {
            return x < y;
        }
        i = i + 1;
    }
    i == n && i < m
}

/// Whether two strings hold the same characters.
pub fn str_equal(a: &str, b: &str) -> (r: bool)
    ensures
        r == (a@ == b@),
{
    let n = a.unicode_len();
    let m = b.unicode_len();
    if n != m {
        return false;
    }
    let mut i: usize = 0;
    while i < n
        invariant
            n == a@.len(),
            m == b@.len(),
            n == m,
            i <= n,
            forall|k: int| 0 <= k < i ==> a@[k] == b@[k],
        decreases n - i,
    {
        if a.get_char(i) != b.get_char(i) {
            return false;
        }
        i = i + 1;
    }
    assert(a@ =~= b@);
    true
}

/// The keys of `s` ascend strictly.
pub open spec fn keys_ascend<T>(s: Seq<(Seq<char>, T)>) -> bool {
    forall|i: int, j: int| 0 <= i < j < s.len() ==> str_lt(#[trigger] s[i].0, #[trigger] s[j].0)
}

/// The value stored under `k`: that of the first entry with key `k`.
pub open spec fn entry_get<T>(s: Seq<(Seq<char>, T)>, k: Seq<char>) -> Option<T>
    decreases s.len(),
{
    if s.len() == 0 {
        None
    } else if s[0].0 == k {
        Some(s[0].1)
    } else {
        entry_get(s.drop_first(), k)
    }
}

/// The entries after storing `v` under `k` in the ascending entries `s`:
/// the value of an existing entry with key `k` is replaced; otherwise a new
/// entry stands where its key belongs.
pub open spec fn entry_insert<T>(s: Seq<(Seq<char>, T)>, k: Seq<char>, v: T) -> Seq<(Seq<char>, T)>
    decreases s.len(),
{
    if s.len() == 0 {
        seq![(k, v)]
    } else if s[0].0 == k {
        seq![(k, v)] + s.drop_first()
    } else if str_lt(k, s[0].0) {
        seq![(k, v)] + s
    } else {
        seq![s[0]] + entry_insert(s.drop_first(), k, v)
    }
}

/// The values of `s`, in the order of their keys.
pub open spec fn entry_values<T>(s: Seq<(Seq<char>, T)>) -> Seq<T> {
    s.map_values(|e: (Seq<char>, T)| e.1)
}

proof fn lemma_entry_insert_at<T>(s: Seq<(Seq<char>, T)>, k: Seq<char>, v: T, p: int)
    requires
        0 <= p <= s.len(),
        forall|j: int| 0 <= j < p ==> str_lt(#[trigger] s[j].0, k),
        p < s.len() ==> !str_lt(s[p].0, k),
    ensures
        entry_insert(s, k, v) == if p < s.len() && s[p].0 == k {
            s.update(p, (k, v))
        } else {
            s.insert(p, (k, v))
        },
    decreases p,
{
    if p == 0 {
        if s.len() > 0 && s[0].0 != k {
            lemma_str_lt_total(s[0].0, k);
            assert(entry_insert(s, k, v) =~= s.insert(0, (k, v)));
        } else if s.len() > 0 {
            assert(entry_insert(s, k, v) =~= s.update(0, (k, v)));
        } else {
            assert(entry_insert(s, k, v) =~= s.insert(0, (k, v)));
        }
    } else {
        let t = s.drop_first();
        assert(str_lt(s[0].0, k));
        if s[0].0 == k {
            lemma_str_lt_irreflexive(k);
        }
        lemma_str_lt_irreflexive(k);
        assert(!str_lt(k, s[0].0)) by {
            if str_lt(k, s[0].0) {
                lemma_str_lt_transitive(k, s[0].0, k);
            }
        }
        assert forall|j: int| 0 <= j < p - 1 implies str_lt(#[trigger] t[j].0, k) by {
            assert(t[j] == s[j + 1]);
        }
        lemma_entry_insert_at(t, k, v, p - 1);
        if p < s.len() && s[p].0 == k {
            assert(entry_insert(s, k, v) =~= s.update(p, (k, v)));
        } else {
            assert(entry_insert(s, k, v) =~= s.insert(p, (k, v)));
        }
    }
}

proof fn lemma_entry_get_ascending<T>(s: Seq<(Seq<char>, T)>, k: Seq<char>, p: int)
    requires
        0 <= p <= s.len(),
        forall|j: int| 0 <= j < p ==> s[j].0 != k,
    ensures
        entry_get(s, k) == entry_get(s.subrange(p, s.len() as int), k),
    decreases p,
{
    if p > 0 {
        let t = s.drop_first();
        assert forall|j: int| 0 <= j < p - 1 implies t[j].0 != k by {
            assert(t[j] == s[j + 1]);
        }
        lemma_entry_get_ascending(t, k, p - 1);
        assert(t.subrange(p - 1, t.len() as int) =~= s.subrange(p, s.len() as int));
    } else {
        assert(s.subrange(0, s.len() as int) =~= s);
    }
}

/// A map from strings to values of `T`, whose entries ascend by key.
#[derive(Debug)]
pub struct StrMap<T> {
    pub(crate) entries: Vec<(String, T)>,
}

impl<T> View for StrMap<T> {
    type V = Seq<(Seq<char>, T)>;

    closed spec fn view(&self) -> Seq<(Seq<char>, T)> {
        self.entries@.map_values(|e: (String, T)| (e.0@, e.1))
    }
}

impl<T> StrMap<T> {
    #[verifier::type_invariant]
    closed spec fn ascending(self) -> bool {
        keys_ascend(self@)
    }

    /// An empty map.
    pub fn new() -> (m: Self)
        ensures
            m@ == Seq::<(Seq<char>, T)>::empty(),
    {
        let m = StrMap { entries: Vec::new() };
        assert(m@ =~= Seq::<(Seq<char>, T)>::empty());
        m
    }

    /// The number of entries.
    pub fn len(&self) -> (n: usize)
        ensures
            n == self@.len(),
    {
        self.entries.len()
    }

    /// Whether the map has no entry.
    pub fn is_empty(&self) -> (r: bool)
        ensures
            r == (self@.len() == 0),
    {
        self.entries.len() == 0
    }

    /// The key of the entry at position `i`.
    pub fn key_at(&self, i: usize) -> (k: &String)
        requires
            i < self@.len(),
        ensures
            k@ == self@[i as int].0,
    {
        &self.entries[i].0
    }

    /// A value of the map is smaller than the map, for termination.
    pub proof fn lemma_value_decreases(&self, i: int)
        requires
            0 <= i < self@.len(),
        ensures
            decreases_to!(*self => self@[i].1),
    {
        assert(decreases_to!(*self => self.entries));
        assert(decreases_to!(self.entries => self.entries@));
        assert(decreases_to!(self.entries@ => self.entries@[i]));
        assert(decreases_to!(self.entries@[i] => self.entries@[i].1));
        assert(self@[i].1 == self.entries@[i].1);
    }

    /// The value of the entry at position `i`.
    pub fn value_at(&self, i: usize) -> (v: &T)
        requires
            i < self@.len(),
        ensures
            *v == self@[i as int].1,
    {
        &self.entries[i].1
    }

    /// The value stored under `k`, if any.
    pub fn get(&self, k: &str) -> (r: Option<&T>)
        ensures
            r matches Some(v) ==> entry_get(self@, k@) == Some(*v),
            r is None ==> entry_get(self@, k@) is None,
    {
        let n = self.entries.len();
        let mut i: usize = 0;
        while i < n
            invariant
                n == self@.len(),
                i <= n,
                forall|j: int| 0 <= j < i ==> self@[j].0 != k@,
            decreases n - i,
        {
            if str_equal(self.entries[i].0.as_str(), k) {
                proof {
                    lemma_entry_get_ascending(self@, k@, i as int);
                }
                return Some(&self.entries[i].1);
            }
            i = i + 1;
        }
        proof {
            lemma_entry_get_ascending(self@, k@, n as int);
        }
        None
    }

    /// Whether some entry has key `k`.
    pub fn contains_key(&self, k: &str) -> (r: bool)
        ensures
            r == (entry_get(self@, k@) is Some),
    {
        self.get(k).is_some()
    }

    /// The values, in the order of their keys.
    pub fn into_values(self) -> (r: Vec<T>)
        ensures
            r@ == entry_values(self@),
    {
        let ghost all = self@;
        let mut entries = self.entries;
        let mut out: Vec<T> = Vec::new();
        assert(entries@.map_values(|e: (String, T)| (e.0@, e.1)) =~= all.subrange(0, all.len() as int));
        while entries.len() > 0
            invariant
                out@.len() + entries@.len() == all.len(),
                out@ == entry_values(all.subrange(0, out@.len() as int)),
                entries@.map_values(|e: (String, T)| (e.0@, e.1)) == all.subrange(out@.len() as int, all.len() as int),
            decreases entries@.len(),
        {
            let ghost k = out@.len() as int;
            let ghost before = entries@;
            let (_key, value) = entries.remove(0);
            assert(entries@ =~= before.drop_first());
            assert forall|x: int| 0 <= x < entries@.len() implies (entries@[x].0@, entries@[x].1) == all[k + 1 + x] by {
                assert(entries@[x] == before[x + 1]);
                assert(before.map_values(|e: (String, T)| (e.0@, e.1))[x + 1] == all.subrange(k, all.len() as int)[x + 1]);
            }
            assert(all.subrange(k, all.len() as int)[0] == all[k]);
            out.push(value);
            assert(entries@.map_values(|e: (String, T)| (e.0@, e.1)) =~= all.subrange(k + 1, all.len() as int));
            assert(entry_values(all.subrange(0, k + 1)) =~= entry_values(all.subrange(0, k)).push(all[k].1));
        }
        assert(all.subrange(0, all.len() as int) =~= all);
        out
    }

    /// Stores `v` under `k`, replacing the value stored there before.
    pub fn insert(&mut self, k: String, v: T)
        ensures
            final(self)@ == entry_insert(old(self)@, k@, v),
    {
        proof {
            use_type_invariant(&*self);
        }
        let n = self.entries.len();
        let mut i: usize = 0;
        while i < n && str_less(self.entries[i].0.as_str(), k.as_str())
            invariant
                n == self@.len(),
                i <= n,
                forall|j: int| 0 <= j < i ==> str_lt(#[trigger] self@[j].0, k@),
            decreases n - i,
        {
            i = i + 1;
        }
        let ghost old_view = self@;
        proof {
            lemma_entry_insert_at(old_view, k@, v, i as int);
        }
        if i < n && str_equal(self.entries[i].0.as_str(), k.as_str()) {
            proof {
                assert forall|a: int, b: int| 0 <= a < b < old_view.len() implies str_lt(
                    #[trigger] old_view.update(i as int, (k@, v))[a].0,
                    #[trigger] old_view.update(i as int, (k@, v))[b].0,
                ) by {}
            }
            let mut entries: Vec<(String, T)> = Vec::new();
            std::mem::swap(&mut entries, &mut self.entries);
            entries.set(i, (k, v));
            assert(entries@.map_values(|e: (String, T)| (e.0@, e.1)) =~= old_view.update(i as int, (k@, v)));
            self.entries = entries;
            assert(self@ =~= old_view.update(i as int, (k@, v)));
        } else {
            proof {
                let new_view = old_view.insert(i as int, (k@, v));
                if i < n {
                    lemma_str_lt_total(old_view[i as int].0, k@);
                }
                assert forall|a: int, b: int| 0 <= a < b < new_view.len() implies str_lt(
                    #[trigger] new_view[a].0,
                    #[trigger] new_view[b].0,
                ) by {
                    if b == i {
                        assert(str_lt(old_view[a].0, k@));
                    } else if a == i {
                        assert(str_lt(k@, old_view[i as int].0));
                        if b - 1 > i {
                            lemma_str_lt_transitive(k@, old_view[i as int].0, old_view[b - 1].0);
                        }
                    } else if a < i && b > i {
                        assert(str_lt(old_view[a].0, old_view[b - 1].0));
                    } else if a > i {
                        assert(str_lt(old_view[a - 1].0, old_view[b - 1].0));
                    }
                }
            }
            let mut entries: Vec<(String, T)> = Vec::new();
            std::mem::swap(&mut entries, &mut self.entries);
            entries.insert(i, (k, v));
            assert(entries@.map_values(|e: (String, T)| (e.0@, e.1)) =~= old_view.insert(i as int, (k@, v)));
            self.entries = entries;
            assert(self@ =~= old_view.insert(i as int, (k@, v)));
        }
    }
}

/// The entries of `s` with `f` applied to each value.
pub open spec fn map_entries<T, U>(s: Seq<(Seq<char>, T)>, f: spec_fn(T) -> U) -> Seq<(Seq<char>, U)> {
    s.map_values(|e: (Seq<char>, T)| (e.0, f(e.1)))
}

/// Storing a value and then applying `f` is applying `f` and then storing.
pub proof fn lemma_map_entries_insert<T, U>(s: Seq<(Seq<char>, T)>, k: Seq<char>, v: T, f: spec_fn(T) -> U)
    ensures
        map_entries(entry_insert(s, k, v), f) == entry_insert(map_entries(s, f), k, f(v)),
    decreases s.len(),
{
    let ms = map_entries(s, f);
    if s.len() == 0 {
        assert(map_entries(entry_insert(s, k, v), f) =~= entry_insert(ms, k, f(v)));
    } else {
        assert(ms.drop_first() =~= map_entries(s.drop_first(), f));
        if s[0].0 == k {
            assert(map_entries(entry_insert(s, k, v), f) =~= entry_insert(ms, k, f(v)));
        } else if str_lt(k, s[0].0) {
            assert(map_entries(entry_insert(s, k, v), f) =~= entry_insert(ms, k, f(v)));
        } else {
            lemma_map_entries_insert(s.drop_first(), k, v, f);
            assert(map_entries(entry_insert(s, k, v), f) =~= seq![ms[0]] + map_entries(
                entry_insert(s.drop_first(), k, v),
                f,
            ));
        }
    }
}

/// Looking up a key after applying `f` finds `f` of what was there.
pub proof fn lemma_map_entries_get<T, U>(s: Seq<(Seq<char>, T)>, k: Seq<char>, f: spec_fn(T) -> U)
    ensures
        entry_get(map_entries(s, f), k) == match entry_get(s, k) {
            Some(v) => Some(f(v)),
            None => None,
        },
    decreases s.len(),
{
    if s.len() > 0 {
        assert(map_entries(s, f).drop_first() =~= map_entries(s.drop_first(), f));
        lemma_map_entries_get(s.drop_first(), k, f);
    }
}

/// After storing `v` under `k`, `k` finds `v` and every other key finds
/// what it found before.
pub proof fn lemma_entry_get_insert<T>(s: Seq<(Seq<char>, T)>, k: Seq<char>, v: T, x: Seq<char>)
    ensures
        entry_get(entry_insert(s, k, v), x) == if x == k {
            Some(v)
        } else {
            entry_get(s, x)
        },
    decreases s.len(),
{
    if s.len() > 0 && s[0].0 != k && !str_lt(k, s[0].0) {
        lemma_entry_get_insert(s.drop_first(), k, v, x);
        assert((seq![s[0]] + entry_insert(s.drop_first(), k, v)).drop_first() =~= entry_insert(s.drop_first(), k, v));
    } else if s.len() > 0 && s[0].0 == k {
        assert((seq![(k, v)] + s.drop_first()).drop_first() =~= s.drop_first());
    } else if s.len() > 0 {
        assert((seq![(k, v)] + s).drop_first() =~= s);
    } else {
        assert(seq![(k, v)].drop_first() =~= s);
    }
}

/// Each entry after storing `v` under `k` is the new one or an entry from
/// before.
pub proof fn lemma_entry_insert_elements<T>(s: Seq<(Seq<char>, T)>, k: Seq<char>, v: T, i: int)
    requires
        0 <= i < entry_insert(s, k, v).len(),
    ensures
        entry_insert(s, k, v)[i] == (k, v) || s.contains(entry_insert(s, k, v)[i]),
    decreases s.len(),
{
    if s.len() > 0 && s[0].0 != k && !str_lt(k, s[0].0) {
        if i > 0 {
            let t = entry_insert(s.drop_first(), k, v);
            assert(entry_insert(s, k, v)[i] == t[i - 1]);
            lemma_entry_insert_elements(s.drop_first(), k, v, i - 1);
            if s.drop_first().contains(t[i - 1]) {
                let x = choose|x: int| 0 <= x < s.drop_first().len() && s.drop_first()[x] == t[i - 1];
                assert(s[x + 1] == t[i - 1]);
            }
        } else {
            assert(s[0] == entry_insert(s, k, v)[0]);
        }
    } else if s.len() > 0 && s[0].0 == k {
        if i > 0 {
            assert(s[i] == entry_insert(s, k, v)[i]);
        }
    } else if s.len() > 0 {
        if i > 0 {
            assert(s[i - 1] == entry_insert(s, k, v)[i]);
        }
    }
}

} // verus!
