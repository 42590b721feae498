//! Name-keyed entry lists: the library keeps the maps of the data model
//! (outputs by name, layouts by name, defaults by setup fingerprint) as
//! vectors of `(name, value)` pairs whose names are pairwise distinct.
use vstd::prelude::*;

verus! {

/// No name occurs twice.
pub open spec fn distinct_names(ns: Seq<Seq<char>>) -> bool {
    forall|i: int, j: int| 0 <= i < ns.len() && 0 <= j < ns.len() && i != j ==> ns[i] != ns[j]
}

/// The position of the first occurrence of `k`, if any.
pub open spec fn name_index(ns: Seq<Seq<char>>, k: Seq<char>) -> Option<int> {
    if exists|i: int| 0 <= i < ns.len() && ns[i] == k {
        Some(choose|i: int| 0 <= i < ns.len() && ns[i] == k && forall|j: int| 0 <= j < i ==> ns[j] != k)
    } else {
        None
    }
}

pub open spec fn names_of<T>(s: Seq<(String, T)>) -> Seq<Seq<char>> {
    s.map_values(|e: (String, T)| e.0@)
}

pub open spec fn view_names<V>(s: Seq<(Seq<char>, V)>) -> Seq<Seq<char>> {
    s.map_values(|e: (Seq<char>, V)| e.0)
}

pub proof fn lemma_names_of_update<T>(s: Seq<(String, T)>, i: int, e: (String, T))
    requires
        0 <= i < s.len(),
    ensures
        names_of(s.update(i, e)) == names_of(s).update(i, e.0@),
{
    assert(names_of(s.update(i, e)) =~= names_of(s).update(i, e.0@));
}

pub proof fn lemma_names_of_push<T>(s: Seq<(String, T)>, e: (String, T))
    ensures
        names_of(s.push(e)) == names_of(s).push(e.0@),
{
    assert(names_of(s.push(e)) =~= names_of(s).push(e.0@));
}

/// Replacing the value under an existing name, or adding a new name, keeps
/// names distinct.
pub proof fn lemma_distinct_after_set(ns: Seq<Seq<char>>, k: Seq<char>)
    requires
        distinct_names(ns),
    ensures
        match name_index(ns, k) {
            Some(i) => distinct_names(ns.update(i, k)),
            None => distinct_names(ns.push(k)),
        },
{
    lemma_name_index(ns, k);
    match name_index(ns, k) {
        Some(i) => {
            assert(ns.update(i, k) =~= ns);
        },
        None => {
            let t = ns.push(k);
            assert forall|a: int, b: int| 0 <= a < t.len() && 0 <= b < t.len() && a != b implies t[a]
                != t[b] by {
                if a < ns.len() && b < ns.len() {
                    assert(t[a] == ns[a] && t[b] == ns[b]);
                } else if a < ns.len() {
                    assert(t[a] == ns[a]);
                } else {
                    assert(t[b] == ns[b]);
                }
            }
        },
    }
}

/// The value stored under `k`, if any.
pub open spec fn lookup<V>(s: Seq<(Seq<char>, V)>, k: Seq<char>) -> Option<V> {
    match name_index(view_names(s), k) {
        Some(i) => Some(s[i].1),
        None => None,
    }
}

pub proof fn lemma_first_index_exists(ns: Seq<Seq<char>>, k: Seq<char>, w: int)
    requires
        0 <= w < ns.len(),
        ns[w] == k,
    ensures
        exists|i: int| 0 <= i < ns.len() && ns[i] == k && forall|j: int| 0 <= j < i ==> ns[j] != k,
    decreases w,
{
    if exists|j: int| 0 <= j < w && ns[j] == k {
        let j = choose|j: int| 0 <= j < w && ns[j] == k;
        lemma_first_index_exists(ns, k, j);
    }
}

/// `name_index` is the first index holding `k`.
pub proof fn lemma_name_index(ns: Seq<Seq<char>>, k: Seq<char>)
    ensures
        match name_index(ns, k) {
            Some(i) => 0 <= i < ns.len() && ns[i] == k && forall|j: int| 0 <= j < i ==> ns[j] != k,
            None => forall|j: int| 0 <= j < ns.len() ==> ns[j] != k,
        },
{
    if exists|i: int| 0 <= i < ns.len() && ns[i] == k {
        let w = choose|i: int| 0 <= i < ns.len() && ns[i] == k;
        lemma_first_index_exists(ns, k, w);
    }
}

/// Whether no name occurs twice among the entries.
pub fn has_distinct_names<T>(s: &Vec<(String, T)>) -> (r: bool)
    ensures
        r == distinct_names(names_of(s@)),
{
    let ghost ns = names_of(s@);
    let n = s.len();
    let mut i: usize = 0;
    while i < n
        invariant
            n == s@.len(),
            ns == names_of(s@),
            i <= n,
            forall|a: int, b: int| 0 <= a < i && 0 <= b < n && a != b ==> ns[a] != ns[b],
        decreases n - i,
    {
        let mut j: usize = 0;
        while j < n
            invariant
                n == s@.len(),
                ns == names_of(s@),
                i < n,
                j <= n,
                forall|a: int, b: int| 0 <= a < i && 0 <= b < n && a != b ==> ns[a] != ns[b],
                forall|b: int| 0 <= b < j && b != i ==> ns[i as int] != ns[b],
            decreases n - j,
        {
            if j != i && crate::text::str_eq(s[i].0.as_str(), s[j].0.as_str()) {
                assert(ns[i as int] == ns[j as int]);
                return false;
            }
            j += 1;
        }
        i += 1;
    }
    true
}

/// The position of the first entry named `k`.
pub fn find_key<T>(s: &Vec<(String, T)>, k: &str) -> (r: Option<usize>)
    ensures
        match r {
            Some(i) => name_index(names_of(s@), k@) == Some(i as int) && i < s@.len() && s@[i as int].0@
                == k@,
            None => name_index(names_of(s@), k@) is None,
        },
{
    let key = k.to_owned();
    let ghost ns = names_of(s@);
    let mut i: usize = 0;
    while i < s.len()
        invariant
            key@ == k@,
            ns == names_of(s@),
            i <= s@.len(),
            forall|j: int| 0 <= j < i ==> ns[j] != k@,
        decreases s@.len() - i,
    {
        if s[i].0 == key {
            proof {
                lemma_name_index(ns, k@);
                let x = name_index(ns, k@)->0;
                assert(ns[i as int] == k@);
                if x > i {
                    assert(ns[i as int] != k@);
                }
            }
            return Some(i);
        }
        i += 1;
    }
    proof {
        lemma_name_index(ns, k@);
        if name_index(ns, k@) is Some {
            let x = name_index(ns, k@)->0;
            assert(ns[x] != k@);
        }
    }
    None
}

/// `s` with the value under `k` set to `v`: replaced where `k` is present,
/// appended where it is not.
pub open spec fn assoc_set<V>(s: Seq<(Seq<char>, V)>, k: Seq<char>, v: V) -> Seq<(Seq<char>, V)> {
    match name_index(view_names(s), k) {
        Some(i) => s.update(i, (k, v)),
        None => s.push((k, v)),
    }
}

/// `s` without the entry named `k`.
pub open spec fn assoc_remove<V>(s: Seq<(Seq<char>, V)>, k: Seq<char>) -> Seq<(Seq<char>, V)> {
    match name_index(view_names(s), k) {
        Some(i) => s.remove(i),
        None => s,
    }
}

/// The entries as plain values.
pub open spec fn kv_views<T: View>(s: Seq<(String, T)>) -> Seq<(Seq<char>, T::V)> {
    s.map_values(|e: (String, T)| (e.0@, e.1@))
}

pub proof fn lemma_kv_names<T: View>(s: Seq<(String, T)>)
    ensures
        view_names(kv_views(s)) == names_of(s),
{
    assert(view_names(kv_views(s)) =~= names_of(s));
}

/// Sets the value under `k`, replacing an entry of that name.
pub fn assoc_insert<T: View>(v: &mut Vec<(String, T)>, k: String, val: T)
    requires
        distinct_names(names_of(old(v)@)),
    ensures
        distinct_names(names_of(final(v)@)),
        kv_views(final(v)@) == assoc_set(kv_views(old(v)@), k@, val@),
{
    proof {
        lemma_distinct_after_set(names_of(v@), k@);
        lemma_kv_names(v@);
    }
    let ghost entry = (k, val);
    match find_key(v, k.as_str()) {
        Some(i) => {
            proof {
                lemma_names_of_update(v@, i as int, entry);
            }
            v.set(i, (k, val));
            assert(kv_views(v@) =~= kv_views(old(v)@).update(i as int, (entry.0@, entry.1@)));
        },
        None => {
            proof {
                lemma_names_of_push(v@, entry);
            }
            v.push((k, val));
            assert(kv_views(v@) =~= kv_views(old(v)@).push((entry.0@, entry.1@)));
        },
    }
}

/// The value under `k`.
pub fn assoc_get<'a, T: View>(v: &'a Vec<(String, T)>, k: &str) -> (r: Option<&'a T>)
    ensures
        match r {
            Some(x) => lookup(kv_views(v@), k@) == Some(x@),
            None => lookup(kv_views(v@), k@) is None,
        },
{
    proof {
        lemma_kv_names(v@);
    }
    match find_key(v, k) {
        Some(i) => Some(&v[i].1),
        None => None,
    }
}

/// Removes the entry named `k`, if any; whether there was one.
pub fn assoc_delete<T: View>(v: &mut Vec<(String, T)>, k: &str) -> (r: bool)
    requires
        distinct_names(names_of(old(v)@)),
    ensures
        distinct_names(names_of(final(v)@)),
        kv_views(final(v)@) == assoc_remove(kv_views(old(v)@), k@),
        r == (lookup(kv_views(old(v)@), k@) is Some),
{
    proof {
        lemma_kv_names(v@);
    }
    match find_key(v, k) {
        Some(i) => {
            let _ = v.remove(i);
            proof {
                assert(kv_views(v@) =~= kv_views(old(v)@).remove(i as int));
                assert(names_of(v@) =~= names_of(old(v)@).remove(i as int));
                let ns = names_of(v@);
                let os = names_of(old(v)@);
                assert forall|a: int, b: int| 0 <= a < ns.len() && 0 <= b < ns.len() && a != b implies ns[a]
                    != ns[b] by {
                    let ia = if a < i { a } else { a + 1 };
                    let ib = if b < i { b } else { b + 1 };
                    assert(ns[a] == os[ia]);
                    assert(ns[b] == os[ib]);
                }
            }
            true
        },
        None => false,
    }
}

/// An index holding `k`, with no earlier one, is the index of `k`.
pub proof fn lemma_name_index_first(ns: Seq<Seq<char>>, k: Seq<char>, i: int)
    requires
        0 <= i < ns.len(),
        ns[i] == k,
        forall|j: int| 0 <= j < i ==> ns[j] != k,
    ensures
        name_index(ns, k) == Some(i),
{
    lemma_name_index(ns, k);
    let x = name_index(ns, k)->0;
    if x < i {
        assert(ns[x] == k);
    } else if x > i {
        assert(ns[i] != k);
    }
}

/// Setting the value under `k` changes what is found under `k`, and nothing else.
pub proof fn lemma_lookup_set<V>(s: Seq<(Seq<char>, V)>, k: Seq<char>, v: V, k2: Seq<char>)
    ensures
        lookup(assoc_set(s, k, v), k2) == if k2 == k {
            Some(v)
        } else {
            lookup(s, k2)
        },
{
    let ns = view_names(s);
    let t = assoc_set(s, k, v);
    let nt = view_names(t);
    lemma_name_index(ns, k);
    lemma_name_index(ns, k2);
    match name_index(ns, k) {
        Some(i) => {
            assert(nt =~= ns);
            match name_index(ns, k2) {
                Some(j) => {
                    if k2 != k {
                        assert(j != i);
                    }
                },
                None => {},
            }
        },
        None => {
            assert(nt =~= ns.push(k));
            if k2 == k {
                lemma_name_index_first(nt, k, ns.len() as int);
            } else {
                match name_index(ns, k2) {
                    Some(j) => {
                        lemma_name_index_first(nt, k2, j);
                    },
                    None => {
                        lemma_name_index(nt, k2);
                        if name_index(nt, k2) is Some {
                            let x = name_index(nt, k2)->0;
                            if x < ns.len() {
                                assert(ns[x] == k2);
                            }
                        }
                    },
                }
            }
        },
    }
}

/// Setting a name to the value already found under it changes nothing.
pub proof fn lemma_set_same<V>(s: Seq<(Seq<char>, V)>, k: Seq<char>, v: V)
    requires
        lookup(s, k) == Some(v),
    ensures
        assoc_set(s, k, v) == s,
{
    lemma_name_index(view_names(s), k);
    let i = name_index(view_names(s), k)->0;
    assert(view_names(s)[i] == s[i].0);
    assert(s.update(i, (k, v)) =~= s);
}

} // verus!
