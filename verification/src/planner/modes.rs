//! Choosing modes for the presets that set one: modes ordered by area, then
//! refresh rate, and the modes that all outputs share.
use vstd::prelude::*;

use super::order::Entries;
use crate::model::{entry_views, opt_mode_seq, Mode, OutputState, OutputStateView};

verus! {

pub open spec fn area(m: Mode) -> int {
    m.width * m.height
}

/// Mode `a` ranks below `b` by area, then refresh rate.
pub open spec fn key_lt(a: Mode, b: Mode) -> bool {
    area(a) < area(b) || (area(a) == area(b) && a.refresh < b.refresh)
}

/// The total order of modes by area, then refresh rate, then width, then
/// height: it ranks modes as `key_lt` does and breaks its ties.
pub open spec fn mode_lt(a: Mode, b: Mode) -> bool {
    ||| key_lt(a, b)
    ||| area(a) == area(b) && a.refresh == b.refresh && a.width < b.width
    ||| area(a) == area(b) && a.refresh == b.refresh && a.width == b.width && a.height < b.height
}

pub proof fn lemma_mode_lt_total(a: Mode, b: Mode)
    requires
        a != b,
    ensures
        mode_lt(a, b) || mode_lt(b, a),
{
}

/// `m` is the greatest mode with property `p`.
pub open spec fn is_max_in(m: Mode, p: spec_fn(Mode) -> bool) -> bool {
    p(m) && forall|m2: Mode| #[trigger] p(m2) ==> !mode_lt(m, m2)
}

/// `m` is the least mode with property `p`.
pub open spec fn is_min_in(m: Mode, p: spec_fn(Mode) -> bool) -> bool {
    p(m) && forall|m2: Mode| #[trigger] p(m2) ==> !mode_lt(m2, m)
}

pub open spec fn max_in(p: spec_fn(Mode) -> bool) -> Mode {
    choose|m: Mode| is_max_in(m, p)
}

pub open spec fn min_in(p: spec_fn(Mode) -> bool) -> Mode {
    choose|m: Mode| is_min_in(m, p)
}

pub proof fn lemma_max_in(m: Mode, p: spec_fn(Mode) -> bool)
    requires
        is_max_in(m, p),
    ensures
        max_in(p) == m,
{
    let c = max_in(p);
    assert(is_max_in(c, p));
    if c != m {
        lemma_mode_lt_total(c, m);
        assert(p(m) && p(c));
    }
}

pub proof fn lemma_min_in(m: Mode, p: spec_fn(Mode) -> bool)
    requires
        is_min_in(m, p),
    ensures
        min_in(p) == m,
{
    let c = min_in(p);
    assert(is_min_in(c, p));
    if c != m {
        lemma_mode_lt_total(c, m);
        assert(p(m) && p(c));
    }
}

/// The modes an output offers: its list of modes, or its current mode where
/// the list is empty.
pub open spec fn output_modes_spec(s: OutputStateView) -> Seq<Mode> {
    if s.available_modes.len() == 0 {
        opt_mode_seq(s.mode)
    } else {
        s.available_modes
    }
}

/// Every output in `l` offers `m`.
pub open spec fn mode_shared(m: Mode, l: Entries) -> bool {
    forall|j: int| 0 <= j < l.len() ==> (#[trigger] output_modes_spec(l[j].1)).contains(m)
}

pub open spec fn shared_pred(l: Entries) -> spec_fn(Mode) -> bool {
    |m: Mode| mode_shared(m, l)
}

/// The last mode of `ms` that no later or earlier mode outranks by area and
/// refresh rate (what `Iterator::max_by_key` returns).
pub open spec fn best_mode_spec(ms: Seq<Mode>) -> Mode
    decreases ms.len(),
{
    if ms.len() <= 1 {
        ms[0]
    } else {
        let b = best_mode_spec(ms.drop_last());
        if key_lt(ms.last(), b) {
            b
        } else {
            ms.last()
        }
    }
}

pub fn mode_area(m: Mode) -> (r: u64)
    ensures
        r == area(m),
{
    let w = m.width as u64;
    let h = m.height as u64;
    assert(w * h <= u64::MAX) by (nonlinear_arith)
        requires
            w <= u32::MAX,
            h <= u32::MAX,
    ;
    w * h
}

pub fn mode_key_before(a: Mode, b: Mode) -> (r: bool)
    ensures
        r == key_lt(a, b),
{
    let aa = mode_area(a);
    let ab = mode_area(b);
    aa < ab || (aa == ab && a.refresh < b.refresh)
}

pub fn mode_before(a: Mode, b: Mode) -> (r: bool)
    ensures
        r == mode_lt(a, b),
{
    let aa = mode_area(a);
    let ab = mode_area(b);
    if aa != ab {
        aa < ab
    } else if a.refresh != b.refresh {
        a.refresh < b.refresh
    } else if a.width != b.width {
        a.width < b.width
    } else {
        a.height < b.height
    }
}

pub fn output_modes(s: &OutputState) -> (r: Vec<Mode>)
    ensures
        r@ == output_modes_spec(s@),
{
    if s.available_modes.len() == 0 {
        let mut r: Vec<Mode> = Vec::new();
        if let Some(m) = s.mode {
            r.push(m);
        }
        assert(r@ =~= opt_mode_seq(s.mode));
        r
    } else {
        crate::model::copy_modes(&s.available_modes)
    }
}

pub fn contains_mode(v: &Vec<Mode>, m: Mode) -> (r: bool)
    ensures
        r == v@.contains(m),
{
    let mut i: usize = 0;
    while i < v.len()
        invariant
            i <= v@.len(),
            forall|j: int| 0 <= j < i ==> v@[j] != m,
        decreases v@.len() - i,
    {
        if v[i] == m {
            assert(v@[i as int] == m);
            return true;
        }
        i += 1;
    }
    false
}

/// The modes that every output offers (in the order the first offers them).
pub fn shared_modes(outputs: &Vec<(String, OutputState)>) -> (r: Vec<Mode>)
    requires
        outputs@.len() > 0,
    ensures
        forall|m: Mode| #[trigger] r@.contains(m) <==> mode_shared(m, entry_views(outputs@)),
{
    let ghost l = entry_views(outputs@);
    let first = output_modes(&outputs[0].1);
    assert(l[0].1 == outputs@[0].1@);
    let mut r: Vec<Mode> = Vec::new();
    let mut i: usize = 0;
    while i < first.len()
        invariant
            l == entry_views(outputs@),
            l.len() > 0,
            first@ == output_modes_spec(l[0].1),
            i <= first@.len(),
            forall|m: Mode|
                #[trigger] r@.contains(m) <==> (first@.take(i as int).contains(m) && mode_shared(
                    m,
                    l,
                )),
        decreases first@.len() - i,
    {
        let m = first[i];
        let mut all = true;
        let mut j: usize = 0;
        while j < outputs.len()
            invariant
                l == entry_views(outputs@),
                j <= l.len(),
                all == forall|jj: int|
                    0 <= jj < j ==> (#[trigger] output_modes_spec(l[jj].1)).contains(m),
            decreases l.len() - j,
        {
            let modes = output_modes(&outputs[j].1);
            assert(l[j as int].1 == outputs@[j as int].1@);
            if !contains_mode(&modes, m) {
                all = false;
            }
            j += 1;
        }
        let ghost old_r = r@;
        if all {
            r.push(m);
        }
        proof {
            let ft0 = first@.take(i as int);
            let ft1 = first@.take(i + 1);
            assert(ft1 =~= ft0.push(m));
            assert forall|m2: Mode| #[trigger] r@.contains(m2) <==> (ft1.contains(m2) && mode_shared(
                m2,
                l,
            )) by {
                if r@.contains(m2) {
                    let k = choose|k: int| 0 <= k < r@.len() && r@[k] == m2;
                    if k < old_r.len() {
                        assert(old_r[k] == m2);
                        assert(old_r.contains(m2));
                        let k2 = choose|k2: int| 0 <= k2 < ft0.len() && ft0[k2] == m2;
                        assert(ft1[k2] == m2);
                    } else {
                        assert(ft1[i as int] == m2);
                    }
                }
                if ft1.contains(m2) && mode_shared(m2, l) {
                    let k = choose|k: int| 0 <= k < ft1.len() && ft1[k] == m2;
                    if k < i {
                        assert(ft0[k] == m2);
                        assert(old_r.contains(m2));
                        let k3 = choose|k3: int| 0 <= k3 < old_r.len() && old_r[k3] == m2;
                        assert(r@[k3] == m2);
                    } else {
                        assert(m2 == m);
                        assert(r@[r@.len() - 1] == m2);
                    }
                }
            }
        }
        i += 1;
    }
    proof {
        assert(first@.take(first@.len() as int) =~= first@);
        assert forall|m: Mode| mode_shared(m, l) implies #[trigger] r@.contains(m) by {
            assert(output_modes_spec(l[0].1).contains(m));
        }
    }
    r
}

/// The greatest mode of `v` in the total order.
pub fn max_mode(v: &Vec<Mode>) -> (r: Option<Mode>)
    ensures
        r is None <==> v@.len() == 0,
        r matches Some(m) ==> v@.contains(m) && forall|k: int| 0 <= k < v@.len() ==> !mode_lt(
            m,
            #[trigger] v@[k],
        ),
{
    if v.len() == 0 {
        return None;
    }
    let mut best = v[0];
    let mut k: usize = 1;
    while k < v.len()
        invariant
            1 <= k <= v@.len(),
            v@.contains(best),
            forall|j: int| 0 <= j < k ==> !mode_lt(best, #[trigger] v@[j]),
        decreases v@.len() - k,
    {
        if mode_before(best, v[k]) {
            best = v[k];
            assert(v@[k as int] == best);
        }
        k += 1;
    }
    Some(best)
}

/// The least mode of `v` in the total order.
pub fn min_mode(v: &Vec<Mode>) -> (r: Option<Mode>)
    ensures
        r is None <==> v@.len() == 0,
        r matches Some(m) ==> v@.contains(m) && forall|k: int| 0 <= k < v@.len() ==> !mode_lt(
            #[trigger] v@[k],
            m,
        ),
{
    if v.len() == 0 {
        return None;
    }
    let mut best = v[0];
    let mut k: usize = 1;
    while k < v.len()
        invariant
            1 <= k <= v@.len(),
            v@.contains(best),
            forall|j: int| 0 <= j < k ==> !mode_lt(#[trigger] v@[j], best),
        decreases v@.len() - k,
    {
        if mode_before(v[k], best) {
            best = v[k];
            assert(v@[k as int] == best);
        }
        k += 1;
    }
    Some(best)
}

/// The mode of `ms` that `Iterator::max_by_key` picks by area and refresh.
pub fn best_mode(ms: &Vec<Mode>) -> (r: Mode)
    requires
        ms@.len() > 0,
    ensures
        r == best_mode_spec(ms@),
{
    let mut best = ms[0];
    let mut k: usize = 1;
    assert(ms@.take(1).len() == 1);
    while k < ms.len()
        invariant
            1 <= k <= ms@.len(),
            best == best_mode_spec(ms@.take(k as int)),
        decreases ms@.len() - k,
    {
        assert(ms@.take(k + 1).drop_last() =~= ms@.take(k as int));
        assert(ms@.take(k + 1).last() == ms@[k as int]);
        if !mode_key_before(ms[k], best) {
            best = ms[k];
        }
        k += 1;
    }
    assert(ms@.take(ms@.len() as int) =~= ms@);
    best
}

} // verus!
