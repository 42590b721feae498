//! What the backends decide on plain values: which backend to try first,
//! and how each backend's view of the outputs becomes a topology and a
//! plan becomes the backend's requests.
use vstd::prelude::*;

pub mod gnome;
pub mod kscreen;
pub mod selection;
pub mod wlroots;

use crate::model::Mode;
use crate::text::{
    chars_lower_contains, chars_of, insert_by, lemma_insert_by_at, lower_contains, sort_by,
};

verus! {

/// The order modes are listed in: by area (as `u32`), then refresh rate.
pub open spec fn listed_before(a: Mode, b: Mode) -> bool {
    a.width * a.height < b.width * b.height || (a.width * a.height == b.width * b.height
        && a.refresh < b.refresh)
}

pub open spec fn listed_before_fn() -> spec_fn(Mode, Mode) -> bool {
    |a: Mode, b: Mode| listed_before(a, b)
}

/// Consecutive equal modes collapsed into one (what `Vec::dedup` does).
pub open spec fn dedup_spec(s: Seq<Mode>) -> Seq<Mode>
    decreases s.len(),
{
    if s.len() == 0 {
        s
    } else {
        let rest = dedup_spec(s.drop_last());
        if rest.len() > 0 && rest.last() == s.last() {
            rest
        } else {
            rest.push(s.last())
        }
    }
}

/// Every mode's area fits `u32` (the backends compute it in `u32`).
pub open spec fn areas_fit(s: Seq<Mode>) -> bool {
    forall|i: int| 0 <= i < s.len() ==> (#[trigger] s[i]).width * s[i].height <= u32::MAX
}

/// The modes a backend lists: sorted by area, then refresh rate (a stable
/// sort), with repeats removed.
pub fn sorted_unique_modes(modes: Vec<Mode>) -> (r: Vec<Mode>)
    requires
        areas_fit(modes@),
    ensures
        r@ == dedup_spec(sort_by(modes@, listed_before_fn())),
{
    let mut sorted: Vec<Mode> = Vec::new();
    let n = modes.len();
    let mut i: usize = 0;
    while i < n
        invariant
            n == modes@.len(),
            areas_fit(modes@),
            i <= n,
            sorted@ == sort_by(modes@.take(i as int), listed_before_fn()),
        decreases n - i,
    {
        let x = modes[i];
        assert(modes@.take(i + 1).last() == x);
        let ghost before = sorted@;
        let mut j: usize = 0;
        proof {
            assert(x.width * x.height <= u32::MAX);
            let p = modes@.take(i as int);
            assert forall|q: int| 0 <= q < p.len() implies (#[trigger] p[q]).width * p[q].height
                <= u32::MAX by {
                assert(p[q] == modes@[q]);
            }
            lemma_sorted_members(p);
        }
        while j < sorted.len() && !mode_listed_before(x, sorted[j])
            invariant
                before == sorted@,
                j <= sorted@.len(),
                x.width * x.height <= u32::MAX,
                areas_fit(sorted@),
                forall|k: int| 0 <= k < j ==> !listed_before(x, #[trigger] before[k]),
            decreases sorted@.len() - j,
        {
            j += 1;
        }
        proof {
            assert forall|k: int| 0 <= k < j implies !(listed_before_fn())(x, #[trigger] before[k]) by {}
            lemma_insert_by_at(before, x, listed_before_fn(), j as int);
        }
        sorted.insert(j, x);
        i += 1;
        proof {
            let prefix = modes@.take(i as int);
            assert(prefix.drop_last() =~= modes@.take(i - 1));
            assert(prefix.last() == x);
            assert(sorted@ =~= before.take(j as int).push(x) + before.skip(j as int));
        }
    }
    assert(modes@.take(n as int) =~= modes@);
    let mut r: Vec<Mode> = Vec::new();
    let mut k: usize = 0;
    while k < sorted.len()
        invariant
            k <= sorted@.len(),
            r@ == dedup_spec(sorted@.take(k as int)),
        decreases sorted@.len() - k,
    {
        let m = sorted[k];
        assert(sorted@.take(k + 1).drop_last() =~= sorted@.take(k as int));
        assert(sorted@.take(k + 1).last() == m);
        if r.len() == 0 || r[r.len() - 1] != m {
            r.push(m);
        }
        k += 1;
    }
    assert(sorted@.take(sorted@.len() as int) =~= sorted@);
    r
}

fn mode_listed_before(a: Mode, b: Mode) -> (r: bool)
    requires
        a.width * a.height <= u32::MAX,
        b.width * b.height <= u32::MAX,
    ensures
        r == listed_before(a, b),
{
    let aa = a.width * a.height;
    let ba = b.width * b.height;
    aa < ba || (aa == ba && a.refresh < b.refresh)
}

/// The sorted modes are modes of the input (so their areas fit too).
proof fn lemma_sorted_members(s: Seq<Mode>)
    requires
        areas_fit(s),
    ensures
        areas_fit(sort_by(s, listed_before_fn())),
    decreases s.len(),
{
    if s.len() > 0 {
        let p = s.drop_last();
        assert forall|i: int| 0 <= i < p.len() implies (#[trigger] p[i]).width * p[i].height
            <= u32::MAX by {
            assert(p[i] == s[i]);
        }
        lemma_sorted_members(p);
        let x = s.last();
        assert(x == s[s.len() - 1]);
        lemma_insert_fits(sort_by(p, listed_before_fn()), x);
    }
}

proof fn lemma_insert_fits(s: Seq<Mode>, x: Mode)
    requires
        areas_fit(s),
        x.width * x.height <= u32::MAX,
    ensures
        areas_fit(insert_by(s, x, listed_before_fn())),
    decreases s.len(),
{
    if s.len() > 0 && !listed_before(x, s[0]) {
        let t = s.drop_first();
        assert forall|i: int| 0 <= i < t.len() implies (#[trigger] t[i]).width * t[i].height
            <= u32::MAX by {
            assert(t[i] == s[i + 1]);
        }
        lemma_insert_fits(t, x);
        let r = insert_by(s, x, listed_before_fn());
        let rt = insert_by(t, x, listed_before_fn());
        assert(r == seq![s[0]] + rt);
        assert forall|i: int| 0 <= i < r.len() implies (#[trigger] r[i]).width * r[i].height
            <= u32::MAX by {
            if i > 0 {
                assert(r[i] == rt[i - 1]);
            }
        }
    } else if s.len() > 0 {
        let r = insert_by(s, x, listed_before_fn());
        assert(r == seq![x] + s);
        assert forall|i: int| 0 <= i < r.len() implies (#[trigger] r[i]).width * r[i].height
            <= u32::MAX by {
            if i > 0 {
                assert(r[i] == s[i - 1]);
            }
        }
    } else {
        assert(insert_by(s, x, listed_before_fn()) == seq![x]);
    }
}

/// `lower` holds `virtual` or `headless`, compared without ASCII case.
pub open spec fn names_virtual(s: Seq<char>) -> bool {
    lower_contains(s, "virtual"@) || lower_contains(s, "headless"@)
}

pub fn text_names_virtual(s: &str) -> (r: bool)
    ensures
        r == names_virtual(s@),
{
    let c = chars_of(s);
    chars_lower_contains(&c, &chars_of("virtual")) || chars_lower_contains(&c, &chars_of("headless"))
}

} // verus!
