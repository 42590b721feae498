//! The order in which presets lay outputs out: the real outputs sorted by
//! name, turned so that the primary output comes first, and reversed for the
//! reverse presets.
use vstd::prelude::*;

use crate::assoc::{distinct_names, name_index, names_of, view_names};
use crate::model::{entry_views, is_real_output, OutputState, OutputStateView, Topology};
use crate::text::{
    insert_by, lemma_insert_by_at, lemma_str_lt_irreflexive, lemma_str_lt_total,
    lemma_str_lt_transitive, sort_by, str_lt, string_lt,
};

verus! {

pub type Entries = Seq<(Seq<char>, OutputStateView)>;

/// The real (neither virtual nor ignored) outputs, in order.
pub open spec fn real_entries(s: Entries) -> Entries
    decreases s.len(),
{
    if s.len() == 0 {
        Seq::empty()
    } else {
        let rest = real_entries(s.drop_last());
        if is_real_output(s.last().1) {
            rest.push(s.last())
        } else {
            rest
        }
    }
}

pub open spec fn entry_name_lt() -> spec_fn((Seq<char>, OutputStateView), (Seq<char>, OutputStateView)) -> bool {
    |a: (Seq<char>, OutputStateView), b: (Seq<char>, OutputStateView)| str_lt(a.0, b.0)
}

/// The real outputs sorted by name.
pub open spec fn available_spec(t: Entries) -> Entries {
    sort_by(real_entries(t), entry_name_lt())
}

/// `s` turned so that the entry named `hint` comes first, where there is one.
pub open spec fn with_hint(s: Entries, hint: Option<Seq<char>>) -> Entries {
    match hint {
        Some(h) => match name_index(view_names(s), h) {
            Some(k) => s.subrange(k, s.len() as int) + s.subrange(0, k),
            None => s,
        },
        None => s,
    }
}

/// Names in strictly increasing order.
pub open spec fn names_increasing(ns: Seq<Seq<char>>) -> bool {
    forall|a: int, b: int| 0 <= a < b < ns.len() ==> str_lt(#[trigger] ns[a], #[trigger] ns[b])
}

pub proof fn lemma_increasing_distinct(ns: Seq<Seq<char>>)
    requires
        names_increasing(ns),
    ensures
        distinct_names(ns),
{
    assert forall|a: int, b: int| 0 <= a < ns.len() && 0 <= b < ns.len() && a != b implies ns[a]
        != ns[b] by {
        if a < b {
            assert(str_lt(ns[a], ns[b]));
        } else {
            assert(str_lt(ns[b], ns[a]));
        }
        lemma_str_lt_irreflexive(ns[a]);
    }
}

pub proof fn lemma_rotate_distinct(s: Entries, k: int)
    requires
        0 <= k <= s.len(),
        distinct_names(view_names(s)),
    ensures
        distinct_names(view_names(s.subrange(k, s.len() as int) + s.subrange(0, k))),
{
    let r = s.subrange(k, s.len() as int) + s.subrange(0, k);
    let n = s.len() as int;
    assert forall|i: int| 0 <= i < n implies #[trigger] r[i] == s[if i < n - k {
        i + k
    } else {
        i - (n - k)
    }] by {}
    let ns = view_names(r);
    assert forall|a: int, b: int| 0 <= a < ns.len() && 0 <= b < ns.len() && a != b implies ns[a]
        != ns[b] by {
        let ia = if a < n - k {
            a + k
        } else {
            a - (n - k)
        };
        let ib = if b < n - k {
            b + k
        } else {
            b - (n - k)
        };
        assert(r[a] == s[ia]);
        assert(r[b] == s[ib]);
        assert(view_names(s)[ia] == s[ia].0);
        assert(view_names(s)[ib] == s[ib].0);
    }
}

pub proof fn lemma_reverse_distinct(s: Entries)
    requires
        distinct_names(view_names(s)),
    ensures
        distinct_names(view_names(s.reverse())),
{
    let r = s.reverse();
    let ns = view_names(r);
    assert forall|a: int, b: int| 0 <= a < ns.len() && 0 <= b < ns.len() && a != b implies ns[a]
        != ns[b] by {
        let n = s.len() as int;
        assert(r[a] == s[n - 1 - a]);
        assert(r[b] == s[n - 1 - b]);
        assert(view_names(s)[n - 1 - a] == s[n - 1 - a].0);
        assert(view_names(s)[n - 1 - b] == s[n - 1 - b].0);
    }
}

/// Inserting a name into an increasing sequence at the place where it belongs
/// keeps it increasing.
pub proof fn lemma_insert_increasing(ns: Seq<Seq<char>>, x: Seq<char>, j: int)
    requires
        names_increasing(ns),
        0 <= j <= ns.len(),
        forall|k: int| 0 <= k < j ==> str_lt(#[trigger] ns[k], x),
        j == ns.len() || str_lt(x, ns[j]),
    ensures
        names_increasing(ns.take(j).push(x) + ns.skip(j)),
{
    let r = ns.take(j).push(x) + ns.skip(j);
    assert forall|i: int| 0 <= i < r.len() implies #[trigger] r[i] == (if i < j {
        ns[i]
    } else if i == j {
        x
    } else {
        ns[i - 1]
    }) by {}
    assert forall|a: int, b: int| 0 <= a < b < r.len() implies str_lt(#[trigger] r[a], #[trigger] r[b]) by {
        if b < j {
            assert(str_lt(ns[a], ns[b]));
        } else if b == j {
            assert(str_lt(ns[a], x));
        } else if a < j {
            assert(str_lt(ns[a], x));
            assert(str_lt(x, ns[j]));
            if b - 1 > j {
                assert(str_lt(ns[j], ns[b - 1]));
                lemma_str_lt_transitive(x, ns[j], ns[b - 1]);
            }
            lemma_str_lt_transitive(ns[a], x, ns[b - 1]);
        } else if a == j {
            assert(str_lt(x, ns[j]));
            if b - 1 > j {
                assert(str_lt(ns[j], ns[b - 1]));
                lemma_str_lt_transitive(x, ns[j], ns[b - 1]);
            }
        } else {
            assert(str_lt(ns[a - 1], ns[b - 1]));
        }
    }
}

/// The real outputs of the topology, sorted by name.
pub fn available_outputs(topology: &Topology) -> (r: Vec<(String, OutputState)>)
    requires
        topology.wf(),
    ensures
        entry_views(r@) == available_spec(topology@),
        names_increasing(view_names(entry_views(r@))),
{
    let ghost t = topology@;
    assert(view_names(t) =~= names_of(topology.outputs@));
    let mut r: Vec<(String, OutputState)> = Vec::new();
    let mut i: usize = 0;
    while i < topology.outputs.len()
        invariant
            t == topology@,
            distinct_names(view_names(t)),
            i <= t.len(),
            entry_views(r@) == sort_by(real_entries(t.take(i as int)), entry_name_lt()),
            names_increasing(view_names(entry_views(r@))),
            forall|k: int|
                0 <= k < r@.len() ==> exists|j: int| 0 <= j < i && (#[trigger] r@[k]).0@ == t[j].0,
        decreases t.len() - i,
    {
        let ghost prefix = t.take(i as int);
        assert(t.take(i + 1).drop_last() =~= prefix);
        assert(t.take(i + 1).last() == t[i as int]);
        let entry = &topology.outputs[i];
        assert(t[i as int] == (entry.0@, entry.1@));
        if !entry.1.identity.is_ignored && !entry.1.identity.is_virtual {
            let name = entry.0.clone();
            let state = entry.1.clone();
            let ghost x = (name@, state@);
            let ghost before = entry_views(r@);
            let mut j: usize = 0;
            while j < r.len() && !string_lt(&name, &r[j].0)
                invariant
                    before == entry_views(r@),
                    j <= r@.len(),
                    x == t[i as int],
                    name@ == x.0,
                    forall|k: int| 0 <= k < j ==> !str_lt(x.0, #[trigger] before[k].0),
                decreases r@.len() - j,
            {
                assert(before[j as int].0 == r@[j as int].0@);
                j += 1;
            }
            proof {
                if j < r@.len() {
                    assert(before[j as int].0 == r@[j as int].0@);
                }
                assert forall|k: int| 0 <= k < j implies !(entry_name_lt())(x, #[trigger] before[k]) by {}
                lemma_insert_by_at(before, x, entry_name_lt(), j as int);
                let ns = view_names(before);
                assert forall|k: int| 0 <= k < j implies str_lt(#[trigger] ns[k], x.0) by {
                    assert(ns[k] == before[k].0);
                    assert(before[k].0 == r@[k].0@);
                    let jj = choose|jj: int| 0 <= jj < i && r@[k].0@ == t[jj].0;
                    assert(view_names(t)[jj] == t[jj].0);
                    assert(view_names(t)[i as int] == t[i as int].0);
                    assert(ns[k] != x.0);
                    assert(!str_lt(x.0, before[k].0));
                    lemma_str_lt_total(ns[k], x.0);
                }
                if j < ns.len() {
                    assert(ns[j as int] == before[j as int].0);
                }
                lemma_insert_increasing(ns, x.0, j as int);
                assert(view_names(before.take(j as int).push(x) + before.skip(j as int)) =~= ns.take(
                    j as int,
                ).push(x.0) + ns.skip(j as int));
                assert(real_entries(t.take(i + 1)) == real_entries(prefix).push(x));
                assert(real_entries(prefix).push(x).drop_last() =~= real_entries(prefix));
            }
            let ghost old_r = r@;
            r.insert(j, (name, state));
            proof {
                assert(entry_views(r@) =~= before.take(j as int).push(x) + before.skip(j as int));
                assert forall|k: int| 0 <= k < r@.len() implies exists|jj: int|
                    0 <= jj < i + 1 && (#[trigger] r@[k]).0@ == t[jj].0 by {
                    if k < j {
                        assert(r@[k] == old_r[k]);
                        let jj = choose|jj: int| 0 <= jj < i && old_r[k].0@ == t[jj].0;
                        assert(0 <= jj < i + 1 && r@[k].0@ == t[jj].0);
                    } else if k == j {
                        assert(r@[k].0@ == t[i as int].0);
                    } else {
                        assert(r@[k] == old_r[k - 1]);
                        let jj = choose|jj: int| 0 <= jj < i && old_r[k - 1].0@ == t[jj].0;
                        assert(0 <= jj < i + 1 && r@[k].0@ == t[jj].0);
                    }
                }
            }
        } else {
            assert(real_entries(t.take(i + 1)) == real_entries(prefix));
            assert forall|k: int| 0 <= k < r@.len() implies exists|jj: int|
                0 <= jj < i + 1 && (#[trigger] r@[k]).0@ == t[jj].0 by {
                let jj = choose|jj: int| 0 <= jj < i && r@[k].0@ == t[jj].0;
                assert(0 <= jj < i + 1 && r@[k].0@ == t[jj].0);
            }
        }
        i += 1;
    }
    assert(t.take(t.len() as int) =~= t);
    r
}

/// Turns `outputs` so that the output named `hint` comes first.
pub fn rotate_to_hint(outputs: Vec<(String, OutputState)>, hint: Option<&str>) -> (r: Vec<
    (String, OutputState),
>)
    requires
        distinct_names(view_names(entry_views(outputs@))),
    ensures
        entry_views(r@) == with_hint(
            entry_views(outputs@),
            match hint {
                Some(h) => Some(h@),
                None => None,
            },
        ),
        distinct_names(view_names(entry_views(r@))),
{
    let ghost s = entry_views(outputs@);
    match hint {
        None => outputs,
        Some(h) => {
            proof {
                assert(view_names(s) =~= names_of(outputs@));
            }
            match crate::assoc::find_key(&outputs, h) {
                None => outputs,
                Some(k) => {
                    let mut head = outputs;
                    let mut tail = head.split_off(k);
                    let ghost tail0 = tail@;
                    let ghost head0 = head@;
                    tail.append(&mut head);
                    proof {
                        assert(entry_views(tail@) =~= s.subrange(k as int, s.len() as int)
                            + s.subrange(0, k as int));
                        lemma_rotate_distinct(s, k as int);
                    }
                    tail
                },
            }
        },
    }
}

/// The outputs in reverse order.
pub fn reversed(outputs: Vec<(String, OutputState)>) -> (r: Vec<(String, OutputState)>)
    requires
        distinct_names(view_names(entry_views(outputs@))),
    ensures
        entry_views(r@) == entry_views(outputs@).reverse(),
        distinct_names(view_names(entry_views(r@))),
{
    let ghost orig = outputs@;
    let n = outputs.len();
    let mut v = outputs;
    let mut r: Vec<(String, OutputState)> = Vec::new();
    while v.len() > 0
        invariant
            n == orig.len(),
            v@.len() + r@.len() == n,
            v@ == orig.take(v@.len() as int),
            forall|k: int| 0 <= k < r@.len() ==> #[trigger] r@[k] == orig[n - 1 - k],
        decreases v@.len(),
    {
        let e = v.pop().unwrap();
        r.push(e);
    }
    proof {
        assert(entry_views(r@) =~= entry_views(orig).reverse());
        lemma_reverse_distinct(entry_views(orig));
    }
    r
}

} // verus!
