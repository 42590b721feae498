//! The topology limits keep the preset planner's arithmetic inside `i32`:
//! a topology within the limits meets `preset_fits` for every preset.
use vstd::prelude::*;

use super::order::{available_spec, real_entries, with_hint, Entries};
use super::presets::{
    clamped_height, clamped_width, external_fits, external_stage, height_before, is_horizontal,
    is_reverse_spec, linear_fits, linear_order, preset_fits, width_before,
};
use crate::model::identity::OutputIdentityView;
use crate::model::{
    entries_violation, first_mode_error, mode_error, opt_mode_seq, position_out_of_range, Mode,
    OutputStateView, Topology, VirtualPreset, MAX_MODE_DIMENSION, MAX_TOPOLOGY_OUTPUTS,
};
use crate::text::{insert_by, lemma_sort_by_len, sort_by};

verus! {

/// What the limits say of one output: its position is within range and its
/// mode, if any, is no larger than the largest accepted side.
pub open spec fn output_bounded(s: OutputStateView) -> bool {
    &&& !position_out_of_range(s.position)
    &&& match s.mode {
        Some(m) => m.width <= MAX_MODE_DIMENSION && m.height <= MAX_MODE_DIMENSION,
        None => true,
    }
}

pub open spec fn all_bounded(s: Entries) -> bool {
    forall|i: int| 0 <= i < s.len() ==> output_bounded(#[trigger] s[i].1)
}

proof fn lemma_modes_valid(ms: Seq<Mode>, name: Seq<char>, k: int)
    requires
        first_mode_error(ms, name) is None,
        0 <= k < ms.len(),
    ensures
        mode_error(ms[k], name) is None,
    decreases ms.len(),
{
    if k > 0 {
        lemma_modes_valid(ms.drop_first(), name, k - 1);
    }
}

proof fn lemma_entries_bounded(s: Entries)
    requires
        entries_violation(s) is None,
    ensures
        all_bounded(s),
    decreases s.len(),
{
    if s.len() > 0 {
        lemma_entries_bounded(s.drop_first());
        let o = s[0].1;
        let ms = o.available_modes + opt_mode_seq(o.mode);
        if o.mode is Some {
            lemma_modes_valid(ms, s[0].0, o.available_modes.len() as int);
            assert(ms[o.available_modes.len() as int] == o.mode->0);
        }
        assert forall|i: int| 0 <= i < s.len() implies output_bounded(#[trigger] s[i].1) by {
            if i > 0 {
                assert(s[i] == s.drop_first()[i - 1]);
            }
        }
    }
}

proof fn lemma_real_entries_bounded(s: Entries)
    requires
        all_bounded(s),
    ensures
        all_bounded(real_entries(s)),
        real_entries(s).len() <= s.len(),
    decreases s.len(),
{
    if s.len() > 0 {
        assert(all_bounded(s.drop_last()));
        lemma_real_entries_bounded(s.drop_last());
        assert(output_bounded(s[s.len() - 1].1));
    }
}

proof fn lemma_insert_bounded(s: Entries, x: (Seq<char>, OutputStateView), lt: spec_fn(
    (Seq<char>, OutputStateView),
    (Seq<char>, OutputStateView),
) -> bool)
    requires
        all_bounded(s),
        output_bounded(x.1),
    ensures
        all_bounded(insert_by(s, x, lt)),
    decreases s.len(),
{
    if s.len() > 0 && !lt(x, s[0]) {
        assert(all_bounded(s.drop_first()));
        lemma_insert_bounded(s.drop_first(), x, lt);
        let r = insert_by(s, x, lt);
        assert forall|i: int| 0 <= i < r.len() implies output_bounded(#[trigger] r[i].1) by {
            if i > 0 {
                assert(r[i] == insert_by(s.drop_first(), x, lt)[i - 1]);
            }
        }
    }
}

proof fn lemma_sort_bounded(s: Entries, lt: spec_fn(
    (Seq<char>, OutputStateView),
    (Seq<char>, OutputStateView),
) -> bool)
    requires
        all_bounded(s),
    ensures
        all_bounded(sort_by(s, lt)),
    decreases s.len(),
{
    if s.len() > 0 {
        assert(all_bounded(s.drop_last()));
        lemma_sort_bounded(s.drop_last(), lt);
        lemma_insert_bounded(sort_by(s.drop_last(), lt), s.last(), lt);
    }
}

proof fn lemma_linear_order_bounded(t: Entries, p: VirtualPreset, hint: Option<Seq<char>>)
    requires
        all_bounded(t),
    ensures
        all_bounded(linear_order(t, p, hint)),
        linear_order(t, p, hint).len() <= t.len(),
{
    let r = real_entries(t);
    lemma_real_entries_bounded(t);
    let a = available_spec(t);
    lemma_sort_bounded(r, super::order::entry_name_lt());
    lemma_sort_by_len(r, super::order::entry_name_lt());
    let h = with_hint(a, hint);
    assert(all_bounded(h) && h.len() == a.len()) by {
        match hint {
            Some(name) => match crate::assoc::name_index(crate::assoc::view_names(a), name) {
                Some(k) => {
                    crate::assoc::lemma_name_index(crate::assoc::view_names(a), name);
                    let h2 = a.subrange(k, a.len() as int) + a.subrange(0, k);
                    assert forall|i: int| 0 <= i < h2.len() implies output_bounded(#[trigger] h2[i].1) by {
                        if i < a.len() - k {
                            assert(h2[i] == a[k + i]);
                        } else {
                            assert(h2[i] == a[i - (a.len() - k)]);
                        }
                    }
                },
                None => {},
            },
            None => {},
        }
    }
    if is_reverse_spec(p) {
        let v = h.reverse();
        assert forall|i: int| 0 <= i < v.len() implies output_bounded(#[trigger] v[i].1) by {
            assert(v[i] == h[h.len() - 1 - i]);
        }
    }
}

proof fn lemma_before_bounded(l: Entries, k: int)
    requires
        all_bounded(l),
        0 <= k <= l.len(),
    ensures
        0 <= width_before(l, k) <= k * MAX_MODE_DIMENSION,
        0 <= height_before(l, k) <= k * MAX_MODE_DIMENSION,
    decreases k,
{
    if k > 0 {
        lemma_before_bounded(l, k - 1);
        assert(output_bounded(l[k - 1].1));
        assert(clamped_width(l[k - 1].1) <= MAX_MODE_DIMENSION);
        assert(clamped_height(l[k - 1].1) <= MAX_MODE_DIMENSION);
    }
}

/// A topology within the limits meets what every preset's arithmetic asks:
/// at most 64 outputs with sides of at most 32,768 keep each row or column
/// under 2,097,152, and positions within ±1,000,000 keep every distance
/// under 2,000,001, both far inside `i32`.
pub proof fn lemma_limits_give_preset_fits(
    t: Topology,
    p: VirtualPreset,
    b: Option<OutputIdentityView>,
    hint: Option<Seq<char>>,
)
    requires
        t.limits_violation() is None,
    ensures
        preset_fits(p, t@, b, hint),
{
    let s = t@;
    assert(s.len() <= MAX_TOPOLOGY_OUTPUTS);
    assert(entries_violation(s) is None);
    lemma_entries_bounded(s);
    let st = external_stage(s, b);
    assert forall|i: int, j: int|
        0 <= i < st.len() && 0 <= j < st.len() implies st[i].1.position.x - st[j].1.position.x
        <= i32::MAX && st[i].1.position.y - st[j].1.position.y <= i32::MAX by {
        assert(output_bounded(s[i].1));
        assert(output_bounded(s[j].1));
    }
    assert(external_fits(s, b));
    let l = linear_order(s, p, hint);
    lemma_linear_order_bounded(s, p, hint);
    lemma_before_bounded(l, l.len() as int);
    assert(l.len() * MAX_MODE_DIMENSION <= 64 * 32768) by (nonlinear_arith)
        requires
            l.len() <= 64,
            MAX_MODE_DIMENSION == 32768,
    ;
    if is_horizontal(p) {
        assert(width_before(l, l.len() as int) <= i32::MAX);
    } else {
        assert(height_before(l, l.len() as int) <= i32::MAX);
    }
    assert(linear_fits(s, p, hint));
}

} // verus!
