//! Matching saved profiles against the current topology: each match rule of a
//! profile binds one live output and one layout entry, one to one.
use vstd::prelude::*;

use crate::assoc::{distinct_names, names_of, view_names};
use crate::model::identity::{identities_match_spec, OutputIdentityView};
use crate::model::{
    identities_match, is_real_output, OutputIdentity, OutputStateView, Position, Topology,
};
use crate::profile::{
    layout_views, OutputConfigView, OutputMatcher, OutputMatcherView, Profile, ProfileView,
};
use crate::text::{
    insert_by, lemma_insert_by_at, lemma_str_lt_asymmetric, lemma_str_lt_irreflexive,
    lemma_str_lt_total, lemma_str_lt_transitive, sort_by, sort_strings, str_lt, str_lt_fn,
    string_lt, views,
};

verus! {

/// One match rule's binding of a live output to a layout entry.
#[derive(Debug, PartialEq)]
pub struct MatchedOutputBinding {
    pub topology_name: String,
    pub layout_name: String,
}

pub open spec fn binding_views(v: Seq<MatchedOutputBinding>) -> Seq<(Seq<char>, Seq<char>)> {
    v.map_values(|b: MatchedOutputBinding| (b.topology_name@, b.layout_name@))
}

#[derive(Debug, PartialEq)]
pub struct MatchResult {
    pub profile: Profile,
    pub score: u32,
    pub matched_outputs: Vec<MatchedOutputBinding>,
    pub unmatched_required: Vec<String>,
    pub extra_outputs: Vec<String>,
}

pub ghost struct MatchResultView {
    pub profile: ProfileView,
    pub score: int,
    pub matched_outputs: Seq<(Seq<char>, Seq<char>)>,
    pub unmatched_required: Seq<Seq<char>>,
    pub extra_outputs: Seq<Seq<char>>,
}

impl View for MatchResult {
    type V = MatchResultView;

    open spec fn view(&self) -> MatchResultView {
        MatchResultView {
            profile: self.profile@,
            score: self.score as int,
            matched_outputs: binding_views(self.matched_outputs@),
            unmatched_required: views(self.unmatched_required@),
            extra_outputs: views(self.extra_outputs@),
        }
    }
}

pub open spec fn result_views(v: Seq<MatchResult>) -> Seq<MatchResultView> {
    v.map_values(|r: MatchResult| r@)
}

// ---------------------------------------------------------------------------
// Choosing the live output for a match rule
// ---------------------------------------------------------------------------

pub open spec fn hint_is(hint: Option<Position>, p: Position) -> bool {
    hint is Some && hint->0 == p
}

/// A live output that the rule may bind: not bound yet, real, and matching
/// the rule's identity.
pub open spec fn output_candidate(
    m: OutputMatcherView,
    bound: Seq<Seq<char>>,
    e: (Seq<char>, OutputStateView),
) -> bool {
    !bound.contains(e.0) && is_real_output(e.1) && identities_match_spec(m.identity, e.1.identity)
}

/// `a` is preferred over `b`: an output at the hinted position first, then the
/// stronger identity, then the smaller name.
pub open spec fn output_precedes(
    m: OutputMatcherView,
    a: (Seq<char>, OutputStateView),
    b: (Seq<char>, OutputStateView),
) -> bool {
    let ha = hint_is(m.position_hint, a.1.position);
    let hb = hint_is(m.position_hint, b.1.position);
    let sa = a.1.identity.match_strength_spec();
    let sb = b.1.identity.match_strength_spec();
    (ha && !hb) || (ha == hb && (sa > sb || (sa == sb && str_lt(a.0, b.0))))
}

pub open spec fn is_best_output(
    t: Seq<(Seq<char>, OutputStateView)>,
    m: OutputMatcherView,
    bound: Seq<Seq<char>>,
    i: int,
) -> bool {
    &&& 0 <= i < t.len()
    &&& output_candidate(m, bound, t[i])
    &&& forall|j: int|
        0 <= j < t.len() && j != i && output_candidate(m, bound, #[trigger] t[j])
            ==> output_precedes(m, t[i], t[j])
}

/// The output that the rule binds: the preferred candidate.
pub open spec fn best_output(
    t: Seq<(Seq<char>, OutputStateView)>,
    m: OutputMatcherView,
    bound: Seq<Seq<char>>,
) -> Option<int> {
    if exists|i: int| 0 <= i < t.len() && output_candidate(m, bound, #[trigger] t[i]) {
        Some(choose|i: int| is_best_output(t, m, bound, i))
    } else {
        None
    }
}

proof fn lemma_output_precedes_order(
    m: OutputMatcherView,
    a: (Seq<char>, OutputStateView),
    b: (Seq<char>, OutputStateView),
    c: (Seq<char>, OutputStateView),
)
    ensures
        !output_precedes(m, a, a),
        !(output_precedes(m, a, b) && output_precedes(m, b, a)),
        output_precedes(m, a, b) && output_precedes(m, b, c) ==> output_precedes(m, a, c),
        a.0 != b.0 ==> output_precedes(m, a, b) || output_precedes(m, b, a),
{
    lemma_str_lt_irreflexive(a.0);
    lemma_str_lt_asymmetric(a.0, b.0);
    if str_lt(a.0, b.0) && str_lt(b.0, c.0) {
        lemma_str_lt_transitive(a.0, b.0, c.0);
    }
    if a.0 != b.0 {
        lemma_str_lt_total(a.0, b.0);
    }
}

fn output_hint_matches(hint: Option<Position>, p: Position) -> (r: bool)
    ensures
        r == hint_is(hint, p),
{
    match hint {
        Some(h) => h == p,
        None => false,
    }
}

fn contains_name(v: &Vec<String>, name: &String) -> (r: bool)
    ensures
        r == views(v@).contains(name@),
{
    let mut i: usize = 0;
    while i < v.len()
        invariant
            i <= v@.len(),
            forall|j: int| 0 <= j < i ==> v@[j]@ != name@,
        decreases v@.len() - i,
    {
        if v[i] == *name {
            assert(views(v@)[i as int] == name@);
            return true;
        }
        i += 1;
    }
    proof {
        if views(v@).contains(name@) {
            let k = choose|k: int| 0 <= k < views(v@).len() && views(v@)[k] == name@;
            assert(v@[k]@ == name@);
        }
    }
    false
}

/// The position of the output that `matcher` binds, among outputs not in `bound`.
fn find_matching_output(matcher: &OutputMatcher, topology: &Topology, bound: &Vec<String>) -> (r:
    Option<usize>)
    requires
        topology.wf(),
    ensures
        match r {
            Some(i) => best_output(topology@, matcher@, views(bound@)) == Some(i as int) && i
                < topology@.len(),
            None => best_output(topology@, matcher@, views(bound@)) is None,
        },
{
    let ghost t = topology@;
    let ghost m = matcher@;
    let ghost b = views(bound@);
    let mut best: Option<usize> = None;
    let mut i: usize = 0;
    while i < topology.outputs.len()
        invariant
            t == topology@,
            m == matcher@,
            b == views(bound@),
            topology.wf(),
            i <= t.len(),
            match best {
                Some(k) => k < i && output_candidate(m, b, t[k as int]) && forall|j: int|
                    0 <= j < i && j != k && output_candidate(m, b, #[trigger] t[j])
                        ==> output_precedes(m, t[k as int], t[j]),
                None => forall|j: int| 0 <= j < i ==> !output_candidate(m, b, #[trigger] t[j]),
            },
        decreases t.len() - i,
    {
        let name = &topology.outputs[i].0;
        let state = &topology.outputs[i].1;
        assert(t[i as int] == (name@, state@));
        let candidate = !contains_name(bound, name) && !state.identity.is_ignored
            && !state.identity.is_virtual && identities_match(&matcher.identity, &state.identity);
        if candidate {
            match best {
                None => {
                    best = Some(i);
                },
                Some(k) => {
                    let other = &topology.outputs[k].1;
                    let hi = output_hint_matches(matcher.position_hint, state.position);
                    let hk = output_hint_matches(matcher.position_hint, other.position);
                    let si = state.identity.match_strength();
                    let sk = other.identity.match_strength();
                    let better = (hi && !hk) || (hi == hk && (si > sk || (si == sk && string_lt(
                        name,
                        &topology.outputs[k].0,
                    ))));
                    assert(t[k as int] == (topology.outputs@[k as int].0@, other@));
                    assert(better == output_precedes(m, t[i as int], t[k as int]));
                    proof {
                        assert(names_of(topology.outputs@)[i as int] != names_of(
                            topology.outputs@,
                        )[k as int]);
                        lemma_output_precedes_order(m, t[i as int], t[k as int], t[k as int]);
                    }
                    if better {
                        proof {
                            assert forall|j: int|
                                0 <= j < i + 1 && j != i && output_candidate(
                                    m,
                                    b,
                                    #[trigger] t[j],
                                ) implies output_precedes(m, t[i as int], t[j]) by {
                                if j != k {
                                    lemma_output_precedes_order(m, t[i as int], t[k as int], t[j]);
                                }
                            }
                        }
                        best = Some(i);
                    }
                },
            }
        }
        i += 1;
    }
    proof {
        match best {
            Some(k) => {
                assert(is_best_output(t, m, b, k as int));
                let c = choose|x: int| is_best_output(t, m, b, x);
                if c != k {
                    lemma_output_precedes_order(m, t[c], t[k as int], t[c]);
                }
            },
            None => {},
        }
    }
    best
}

// ---------------------------------------------------------------------------
// Choosing the layout entry for a bound output
// ---------------------------------------------------------------------------

/// A layout entry that the rule may use for an output: not used yet, and
/// matching both the output's identity and the rule's identity.
pub open spec fn layout_candidate(
    m: OutputMatcherView,
    identity: OutputIdentityView,
    used: Seq<Seq<char>>,
    e: (Seq<char>, OutputConfigView),
) -> bool {
    &&& !used.contains(e.0)
    &&& identities_match_spec(e.1.state.identity, identity)
    &&& identities_match_spec(m.identity, e.1.state.identity)
}

/// `a` is preferred over `b`: the entry at the hinted position first, then the
/// smaller name.
pub open spec fn layout_precedes(
    m: OutputMatcherView,
    a: (Seq<char>, OutputConfigView),
    b: (Seq<char>, OutputConfigView),
) -> bool {
    let ha = hint_is(m.position_hint, a.1.state.position);
    let hb = hint_is(m.position_hint, b.1.state.position);
    (ha && !hb) || (ha == hb && str_lt(a.0, b.0))
}

pub open spec fn is_best_layout(
    l: Seq<(Seq<char>, OutputConfigView)>,
    m: OutputMatcherView,
    identity: OutputIdentityView,
    used: Seq<Seq<char>>,
    i: int,
) -> bool {
    &&& 0 <= i < l.len()
    &&& layout_candidate(m, identity, used, l[i])
    &&& forall|j: int|
        0 <= j < l.len() && j != i && layout_candidate(m, identity, used, #[trigger] l[j])
            ==> layout_precedes(m, l[i], l[j])
}

pub open spec fn best_layout(
    l: Seq<(Seq<char>, OutputConfigView)>,
    m: OutputMatcherView,
    identity: OutputIdentityView,
    used: Seq<Seq<char>>,
) -> Option<int> {
    if exists|i: int| 0 <= i < l.len() && layout_candidate(m, identity, used, #[trigger] l[i]) {
        Some(choose|i: int| is_best_layout(l, m, identity, used, i))
    } else {
        None
    }
}

proof fn lemma_layout_precedes_order(
    m: OutputMatcherView,
    a: (Seq<char>, OutputConfigView),
    b: (Seq<char>, OutputConfigView),
    c: (Seq<char>, OutputConfigView),
)
    ensures
        !layout_precedes(m, a, a),
        !(layout_precedes(m, a, b) && layout_precedes(m, b, a)),
        layout_precedes(m, a, b) && layout_precedes(m, b, c) ==> layout_precedes(m, a, c),
        a.0 != b.0 ==> layout_precedes(m, a, b) || layout_precedes(m, b, a),
{
    lemma_str_lt_irreflexive(a.0);
    lemma_str_lt_asymmetric(a.0, b.0);
    if str_lt(a.0, b.0) && str_lt(b.0, c.0) {
        lemma_str_lt_transitive(a.0, b.0, c.0);
    }
    if a.0 != b.0 {
        lemma_str_lt_total(a.0, b.0);
    }
}

/// The position of the layout entry that `matcher` uses for an output of `identity`.
fn find_matching_layout_entry(
    profile: &Profile,
    identity: &OutputIdentity,
    matcher: &OutputMatcher,
    used: &Vec<String>,
) -> (r: Option<usize>)
    requires
        profile.wf(),
    ensures
        match r {
            Some(i) => best_layout(profile@.layout, matcher@, identity@, views(used@)) == Some(
                i as int,
            ) && i < profile@.layout.len(),
            None => best_layout(profile@.layout, matcher@, identity@, views(used@)) is None,
        },
{
    let ghost l = profile@.layout;
    let ghost m = matcher@;
    let ghost u = views(used@);
    let ghost id = identity@;
    let mut best: Option<usize> = None;
    let mut i: usize = 0;
    while i < profile.layout.len()
        invariant
            l == profile@.layout,
            m == matcher@,
            u == views(used@),
            id == identity@,
            profile.wf(),
            i <= l.len(),
            match best {
                Some(k) => k < i && layout_candidate(m, id, u, l[k as int]) && forall|j: int|
                    0 <= j < i && j != k && layout_candidate(m, id, u, #[trigger] l[j])
                        ==> layout_precedes(m, l[k as int], l[j]),
                None => forall|j: int| 0 <= j < i ==> !layout_candidate(m, id, u, #[trigger] l[j]),
            },
        decreases l.len() - i,
    {
        let name = &profile.layout[i].0;
        let config = &profile.layout[i].1;
        assert(l[i as int] == (name@, config@));
        let candidate = !contains_name(used, name) && identities_match(
            &config.state.identity,
            identity,
        ) && identities_match(&matcher.identity, &config.state.identity);
        if candidate {
            match best {
                None => {
                    best = Some(i);
                },
                Some(k) => {
                    let other = &profile.layout[k].1;
                    let hi = output_hint_matches(matcher.position_hint, config.state.position);
                    let hk = output_hint_matches(matcher.position_hint, other.state.position);
                    let better = (hi && !hk) || (hi == hk && string_lt(name, &profile.layout[k].0));
                    assert(l[k as int] == (profile.layout@[k as int].0@, other@));
                    assert(better == layout_precedes(m, l[i as int], l[k as int]));
                    proof {
                        assert(names_of(profile.layout@)[i as int] != names_of(
                            profile.layout@,
                        )[k as int]);
                        lemma_layout_precedes_order(m, l[i as int], l[k as int], l[k as int]);
                    }
                    if better {
                        proof {
                            assert forall|j: int|
                                0 <= j < i + 1 && j != i && layout_candidate(
                                    m,
                                    id,
                                    u,
                                    #[trigger] l[j],
                                ) implies layout_precedes(m, l[i as int], l[j]) by {
                                if j != k {
                                    lemma_layout_precedes_order(m, l[i as int], l[k as int], l[j]);
                                }
                            }
                        }
                        best = Some(i);
                    }
                },
            }
        }
        i += 1;
    }
    proof {
        match best {
            Some(k) => {
                assert(is_best_layout(l, m, id, u, k as int));
                let c = choose|x: int| is_best_layout(l, m, id, u, x);
                if c != k {
                    lemma_layout_precedes_order(m, l[c], l[k as int], l[c]);
                }
            },
            None => {},
        }
    }
    best
}

// ---------------------------------------------------------------------------
// Scoring a profile
// ---------------------------------------------------------------------------

/// The weight of the fields present on a rule's identity.
pub open spec fn identity_score(q: OutputIdentityView) -> int {
    (if q.edid_hash is Some { 100int } else { 0int }) + (if q.make is Some { 10int } else { 0int })
        + (if q.model is Some { 10int } else { 0int }) + (if q.serial is Some { 20int } else { 0int })
        + (if q.connector is Some { 5int } else { 0int })
}

/// How an unmatched required rule is described: model, description, connector,
/// or `unknown`.
pub open spec fn identity_desc_spec(q: OutputIdentityView) -> Seq<char> {
    if q.model is Some {
        q.model->0
    } else if q.description is Some {
        q.description->0
    } else if q.connector is Some {
        q.connector->0
    } else {
        "unknown"@
    }
}

/// What scoring has gathered after some of the rules.
pub ghost struct ScoreState {
    pub bindings: Seq<(Seq<char>, Seq<char>)>,
    pub unmatched: Seq<Seq<char>>,
    pub total: int,
}

pub open spec fn bound_names(b: Seq<(Seq<char>, Seq<char>)>) -> Seq<Seq<char>> {
    b.map_values(|x: (Seq<char>, Seq<char>)| x.0)
}

pub open spec fn used_names(b: Seq<(Seq<char>, Seq<char>)>) -> Seq<Seq<char>> {
    b.map_values(|x: (Seq<char>, Seq<char>)| x.1)
}

/// One rule: bind the preferred live output and its preferred layout entry
/// (no layout entry fails the whole profile), or record a required rule that
/// binds nothing.
pub open spec fn score_step(
    t: Seq<(Seq<char>, OutputStateView)>,
    p: ProfileView,
    st: ScoreState,
    m: OutputMatcherView,
) -> Option<ScoreState> {
    match best_output(t, m, bound_names(st.bindings)) {
        Some(k) => match best_layout(p.layout, m, t[k].1.identity, used_names(st.bindings)) {
            Some(l) => Some(
                ScoreState {
                    bindings: st.bindings.push((t[k].0, p.layout[l].0)),
                    total: st.total + identity_score(m.identity),
                    ..st
                },
            ),
            None => None,
        },
        None => if m.required {
            Some(ScoreState { unmatched: st.unmatched.push(identity_desc_spec(m.identity)), ..st })
        } else {
            Some(st)
        },
    }
}

pub open spec fn score_rules(
    t: Seq<(Seq<char>, OutputStateView)>,
    p: ProfileView,
    rules: Seq<OutputMatcherView>,
) -> Option<ScoreState>
    decreases rules.len(),
{
    if rules.len() == 0 {
        Some(ScoreState { bindings: Seq::empty(), unmatched: Seq::empty(), total: 0 })
    } else {
        match score_rules(t, p, rules.drop_last()) {
            Some(st) => score_step(t, p, st, rules.last()),
            None => None,
        }
    }
}

proof fn lemma_failure_persists(
    t: Seq<(Seq<char>, OutputStateView)>,
    p: ProfileView,
    rules: Seq<OutputMatcherView>,
    i: int,
)
    requires
        0 <= i <= rules.len(),
        score_rules(t, p, rules.take(i)) is None,
    ensures
        score_rules(t, p, rules) is None,
    decreases rules.len() - i,
{
    if i == rules.len() {
        assert(rules.take(i) =~= rules);
    } else {
        assert(rules.take(i + 1).drop_last() =~= rules.take(i));
        lemma_failure_persists(t, p, rules, i + 1);
    }
}

/// Names of the real outputs that no rule bound, in topology order.
pub open spec fn extra_output_names(t: Seq<(Seq<char>, OutputStateView)>, bound: Seq<Seq<char>>) -> Seq<
    Seq<char>,
>
    decreases t.len(),
{
    if t.len() == 0 {
        Seq::empty()
    } else {
        let rest = extra_output_names(t.drop_last(), bound);
        if !bound.contains(t.last().0) && is_real_output(t.last().1) {
            rest.push(t.last().0)
        } else {
            rest
        }
    }
}

/// The match of a profile against a topology: every required rule binds,
/// and, when the profile has no rules or an exact match is asked for, no
/// real output is left over.
pub open spec fn score_profile_spec(
    t: Seq<(Seq<char>, OutputStateView)>,
    p: ProfileView,
    exact: bool,
) -> Option<MatchResultView> {
    match score_rules(t, p, p.match_rules) {
        None => None,
        Some(st) => if st.unmatched.len() > 0 {
            None
        } else {
            let extra = sort_by(extra_output_names(t, bound_names(st.bindings)), str_lt_fn());
            if (p.match_rules.len() == 0 || exact) && extra.len() > 0 {
                None
            } else {
                Some(
                    MatchResultView {
                        profile: p,
                        score: st.total,
                        matched_outputs: st.bindings,
                        unmatched_required: st.unmatched,
                        extra_outputs: extra,
                    },
                )
            }
        },
    }
}

proof fn lemma_best_output_prefix(
    t: Seq<(Seq<char>, OutputStateView)>,
    m: OutputMatcherView,
    bound: Seq<Seq<char>>,
    n: int,
) -> (k: Option<int>)
    requires
        0 <= n <= t.len(),
        distinct_names(view_names(t)),
    ensures
        match k {
            Some(k) => 0 <= k < n && output_candidate(m, bound, t[k]) && forall|j: int|
                0 <= j < n && j != k && output_candidate(m, bound, #[trigger] t[j]) ==> output_precedes(
                    m,
                    t[k],
                    t[j],
                ),
            None => forall|j: int| 0 <= j < n ==> !output_candidate(m, bound, #[trigger] t[j]),
        },
    decreases n,
{
    if n == 0 {
        return None;
    }
    let prev = lemma_best_output_prefix(t, m, bound, n - 1);
    let i = n - 1;
    if !output_candidate(m, bound, t[i]) {
        return prev;
    }
    match prev {
        None => Some(i),
        Some(k) => {
            assert(view_names(t)[i] == t[i].0 && view_names(t)[k] == t[k].0);
            lemma_output_precedes_order(m, t[i], t[k], t[k]);
            if output_precedes(m, t[i], t[k]) {
                assert forall|j: int|
                    0 <= j < n && j != i && output_candidate(m, bound, #[trigger] t[j]) implies output_precedes(
                    m,
                    t[i],
                    t[j],
                ) by {
                    if j != k {
                        lemma_output_precedes_order(m, t[i], t[k], t[j]);
                    }
                }
                Some(i)
            } else {
                Some(k)
            }
        },
    }
}

proof fn lemma_best_layout_prefix(
    l: Seq<(Seq<char>, OutputConfigView)>,
    m: OutputMatcherView,
    identity: OutputIdentityView,
    used: Seq<Seq<char>>,
    n: int,
) -> (k: Option<int>)
    requires
        0 <= n <= l.len(),
        distinct_names(view_names(l)),
    ensures
        match k {
            Some(k) => 0 <= k < n && layout_candidate(m, identity, used, l[k]) && forall|j: int|
                0 <= j < n && j != k && layout_candidate(m, identity, used, #[trigger] l[j])
                    ==> layout_precedes(m, l[k], l[j]),
            None => forall|j: int| 0 <= j < n ==> !layout_candidate(m, identity, used, #[trigger] l[j]),
        },
    decreases n,
{
    if n == 0 {
        return None;
    }
    let prev = lemma_best_layout_prefix(l, m, identity, used, n - 1);
    let i = n - 1;
    if !layout_candidate(m, identity, used, l[i]) {
        return prev;
    }
    match prev {
        None => Some(i),
        Some(k) => {
            assert(view_names(l)[i] == l[i].0 && view_names(l)[k] == l[k].0);
            lemma_layout_precedes_order(m, l[i], l[k], l[k]);
            if layout_precedes(m, l[i], l[k]) {
                assert forall|j: int|
                    0 <= j < n && j != i && layout_candidate(m, identity, used, #[trigger] l[j])
                        implies layout_precedes(m, l[i], l[j]) by {
                    if j != k {
                        lemma_layout_precedes_order(m, l[i], l[k], l[j]);
                    }
                }
                Some(i)
            } else {
                Some(k)
            }
        },
    }
}

proof fn lemma_push_fresh(ns: Seq<Seq<char>>, x: Seq<char>)
    requires
        distinct_names(ns),
        !ns.contains(x),
    ensures
        distinct_names(ns.push(x)),
{
    let r = ns.push(x);
    assert forall|i: int, j: int| 0 <= i < r.len() && 0 <= j < r.len() && i != j implies r[i] != r[j] by {
        if i < ns.len() && j < ns.len() {
        } else if i == ns.len() {
            assert(r[j] == ns[j]);
        } else {
            assert(r[i] == ns[i]);
        }
    }
}

/// Scoring binds each live output at most once and uses each layout entry at
/// most once.
pub proof fn lemma_bindings_one_to_one(
    t: Seq<(Seq<char>, OutputStateView)>,
    p: ProfileView,
    rules: Seq<OutputMatcherView>,
)
    requires
        distinct_names(view_names(t)),
        distinct_names(view_names(p.layout)),
    ensures
        score_rules(t, p, rules) matches Some(st) ==> distinct_names(bound_names(st.bindings))
            && distinct_names(used_names(st.bindings)),
    decreases rules.len(),
{
    if rules.len() > 0 {
        lemma_bindings_one_to_one(t, p, rules.drop_last());
        if let Some(st) = score_rules(t, p, rules.drop_last()) {
            let m = rules.last();
            let b = bound_names(st.bindings);
            let u = used_names(st.bindings);
            if let Some(k) = best_output(t, m, b) {
                let w = lemma_best_output_prefix(t, m, b, t.len() as int);
                assert(is_best_output(t, m, b, w->0));
                assert(is_best_output(t, m, b, k));
                if let Some(x) = best_layout(p.layout, m, t[k].1.identity, u) {
                    let v = lemma_best_layout_prefix(p.layout, m, t[k].1.identity, u, p.layout.len() as int);
                    assert(is_best_layout(p.layout, m, t[k].1.identity, u, v->0));
                    assert(is_best_layout(p.layout, m, t[k].1.identity, u, x));
                    let nb = st.bindings.push((t[k].0, p.layout[x].0));
                    assert(bound_names(nb) =~= b.push(t[k].0));
                    assert(used_names(nb) =~= u.push(p.layout[x].0));
                    lemma_push_fresh(b, t[k].0);
                    lemma_push_fresh(u, p.layout[x].0);
                }
            }
        }
    }
}

/// A match binds each live output to one layout entry, one to one; every
/// required rule binds; and an exact match (or a match of a profile without
/// rules) leaves no real output unbound.
pub proof fn lemma_match_is_one_to_one(t: Seq<(Seq<char>, OutputStateView)>, p: ProfileView, exact: bool)
    requires
        distinct_names(view_names(t)),
        distinct_names(view_names(p.layout)),
    ensures
        score_profile_spec(t, p, exact) matches Some(r) ==> distinct_names(bound_names(r.matched_outputs))
            && distinct_names(used_names(r.matched_outputs)) && r.unmatched_required.len() == 0 && ((
        exact || p.match_rules.len() == 0) ==> r.extra_outputs.len() == 0),
{
    lemma_bindings_one_to_one(t, p, p.match_rules);
}

/// The largest number of match rules for which a profile's score fits in `u32`.
pub const MAX_SCORED_RULES: usize = 29_620_000;

/// A profile that the matcher can score: distinct layout names and a rule
/// count for which the score fits.
pub open spec fn scorable(p: Profile) -> bool {
    p.wf() && p.match_rules@.len() <= MAX_SCORED_RULES
}

/// Whether a profile can be scored: its layout names each output once and
/// it has no more match rules than a score can count.
pub fn is_scorable(profile: &Profile) -> (r: bool)
    ensures
        r == scorable(*profile),
{
    profile.match_rules.len() <= MAX_SCORED_RULES && crate::assoc::has_distinct_names(&profile.layout)
}

fn identity_match_score(query: &OutputIdentity) -> (r: u32)
    ensures
        r as int == identity_score(query@),
{
    let mut score: u32 = 0;
    if query.edid_hash.is_some() {
        score += 100;
    }
    if query.make.is_some() {
        score += 10;
    }
    if query.model.is_some() {
        score += 10;
    }
    if query.serial.is_some() {
        score += 20;
    }
    if query.connector.is_some() {
        score += 5;
    }
    score
}

fn identity_desc(identity: &OutputIdentity) -> (r: String)
    ensures
        r@ == identity_desc_spec(identity@),
{
    if let Some(m) = &identity.model {
        return m.clone();
    }
    if let Some(d) = &identity.description {
        return d.clone();
    }
    if let Some(c) = &identity.connector {
        return c.clone();
    }
    "unknown".to_owned()
}

/// Scores one profile against the topology.
fn score_profile(topology: &Topology, profile: &Profile, require_exact: bool) -> (r: Option<
    MatchResult,
>)
    requires
        topology.wf(),
        scorable(*profile),
    ensures
        match r {
            Some(x) => score_profile_spec(topology@, profile@, require_exact) == Some(x@),
            None => score_profile_spec(topology@, profile@, require_exact) is None,
        },
{
    let ghost t = topology@;
    let ghost p = profile@;
    let mut bound: Vec<String> = Vec::new();
    let mut used: Vec<String> = Vec::new();
    let mut bindings: Vec<MatchedOutputBinding> = Vec::new();
    let mut unmatched: Vec<String> = Vec::new();
    let mut total: u32 = 0;
    let n = profile.match_rules.len();
    let mut i: usize = 0;
    assert(p.match_rules.take(0) =~= Seq::<OutputMatcherView>::empty());
    assert(binding_views(bindings@) =~= Seq::<(Seq<char>, Seq<char>)>::empty());
    assert(views(unmatched@) =~= Seq::<Seq<char>>::empty());
    assert(views(bound@) =~= bound_names(binding_views(bindings@)));
    assert(views(used@) =~= used_names(binding_views(bindings@)));
    while i < n
        invariant
            t == topology@,
            p == profile@,
            topology.wf(),
            scorable(*profile),
            n == profile.match_rules@.len(),
            i <= n,
            total <= 145 * i,
            score_rules(t, p, p.match_rules.take(i as int)) == Some(
                ScoreState {
                    bindings: binding_views(bindings@),
                    unmatched: views(unmatched@),
                    total: total as int,
                },
            ),
            views(bound@) == bound_names(binding_views(bindings@)),
            views(used@) == used_names(binding_views(bindings@)),
        decreases n - i,
    {
        let matcher = &profile.match_rules[i];
        let ghost st = ScoreState {
            bindings: binding_views(bindings@),
            unmatched: views(unmatched@),
            total: total as int,
        };
        proof {
            assert(p.match_rules.take(i + 1).drop_last() =~= p.match_rules.take(i as int));
            assert(p.match_rules.take(i + 1).last() == matcher@);
        }
        match find_matching_output(matcher, topology, &bound) {
            Some(k) => {
                let output = &topology.outputs[k];
                assert(t[k as int] == (output.0@, output.1@));
                assert(p.layout == layout_views(profile.layout@));
                match find_matching_layout_entry(profile, &output.1.identity, matcher, &used) {
                    Some(l) => {
                        let layout_name = profile.layout[l].0.clone();
                        assert(p.layout[l as int].0 == layout_name@);
                        let ghost old_bound = views(bound@);
                        let ghost old_used = views(used@);
                        let topo_name = output.0.clone();
                        let used_name = layout_name.clone();
                        bound.push(topo_name);
                        used.push(used_name);
                        assert(views(bound@) =~= old_bound.push(t[k as int].0));
                        assert(views(used@) =~= old_used.push(p.layout[l as int].0));
                        bindings.push(
                            MatchedOutputBinding {
                                topology_name: output.0.clone(),
                                layout_name,
                            },
                        );
                        total = total + identity_match_score(&matcher.identity);
                        proof {
                            assert(binding_views(bindings@) =~= st.bindings.push(
                                (t[k as int].0, p.layout[l as int].0),
                            ));
                            assert(bound_names(binding_views(bindings@)) =~= bound_names(
                                st.bindings,
                            ).push(t[k as int].0));
                            assert(used_names(binding_views(bindings@)) =~= used_names(
                                st.bindings,
                            ).push(p.layout[l as int].0));
                        }
                    },
                    None => {
                        proof {
                            lemma_failure_persists(t, p, p.match_rules, i + 1);
                        }
                        return None;
                    },
                }
            },
            None => {
                if matcher.required {
                    unmatched.push(identity_desc(&matcher.identity));
                    assert(views(unmatched@) =~= st.unmatched.push(
                        identity_desc_spec(matcher@.identity),
                    ));
                }
            },
        }
        i += 1;
    }
    assert(p.match_rules.take(n as int) =~= p.match_rules);
    if unmatched.len() > 0 {
        return None;
    }
    let mut extra: Vec<String> = Vec::new();
    let m = topology.outputs.len();
    let mut j: usize = 0;
    while j < m
        invariant
            t == topology@,
            m == t.len(),
            j <= m,
            views(extra@) == extra_output_names(t.take(j as int), views(bound@)),
        decreases m - j,
    {
        let name = &topology.outputs[j].0;
        let state = &topology.outputs[j].1;
        assert(t[j as int] == (name@, state@));
        assert(t.take(j + 1).drop_last() =~= t.take(j as int));
        assert(t.take(j + 1).last() == t[j as int]);
        if !contains_name(&bound, name) && !state.identity.is_ignored && !state.identity.is_virtual {
            extra.push(name.clone());
        }
        j += 1;
        assert(views(extra@) =~= extra_output_names(t.take(j as int), views(bound@)));
    }
    assert(t.take(m as int) =~= t);
    let extra = sort_strings(extra);
    if (n == 0 || require_exact) && extra.len() > 0 {
        proof {
            crate::text::lemma_sort_by_len(extra_output_names(t, views(bound@)), str_lt_fn());
        }
        return None;
    }
    proof {
        crate::text::lemma_sort_by_len(extra_output_names(t, views(bound@)), str_lt_fn());
    }
    Some(
        MatchResult {
            profile: profile.clone(),
            score: total,
            matched_outputs: bindings,
            unmatched_required: unmatched,
            extra_outputs: extra,
        },
    )
}

// ---------------------------------------------------------------------------
// Ranking matches
// ---------------------------------------------------------------------------

/// `a` ranks before `b`: higher score, then higher priority, then smaller name.
pub open spec fn result_precedes(a: MatchResultView, b: MatchResultView) -> bool {
    a.score > b.score || (a.score == b.score && (a.profile.priority > b.profile.priority || (
    a.profile.priority == b.profile.priority && str_lt(a.profile.name, b.profile.name))))
}

pub open spec fn result_precedes_fn() -> spec_fn(MatchResultView, MatchResultView) -> bool {
    |a: MatchResultView, b: MatchResultView| result_precedes(a, b)
}

/// How matches are ranked: a higher score comes first; at an equal score,
/// the profile of higher priority; at an equal priority, the profile whose
/// name sorts first. The order is strict: no two matches come before each
/// other.
pub proof fn lemma_ranking_order(a: MatchResultView, b: MatchResultView)
    ensures
        a.score > b.score ==> result_precedes(a, b),
        a.score == b.score && a.profile.priority > b.profile.priority ==> result_precedes(a, b),
        a.score == b.score && a.profile.priority == b.profile.priority && str_lt(
            a.profile.name,
            b.profile.name,
        ) ==> result_precedes(a, b),
        result_precedes(a, b) ==> !result_precedes(b, a),
        !result_precedes(a, a),
{
    crate::text::lemma_str_lt_asymmetric(a.profile.name, b.profile.name);
    crate::text::lemma_str_lt_irreflexive(a.profile.name);
}

/// The matches of the profiles, in profile order.
pub open spec fn scored_results(
    t: Seq<(Seq<char>, OutputStateView)>,
    ps: Seq<ProfileView>,
    exact: bool,
) -> Seq<MatchResultView>
    decreases ps.len(),
{
    if ps.len() == 0 {
        Seq::empty()
    } else {
        let rest = scored_results(t, ps.drop_last(), exact);
        match score_profile_spec(t, ps.last(), exact) {
            Some(r) => rest.push(r),
            None => rest,
        }
    }
}

/// All matching profiles, best first (a stable sort of the matches).
pub open spec fn matching_profiles_spec(
    t: Seq<(Seq<char>, OutputStateView)>,
    ps: Seq<ProfileView>,
    exact: bool,
) -> Seq<MatchResultView> {
    sort_by(scored_results(t, ps, exact), result_precedes_fn())
}

pub open spec fn profile_views(ps: Seq<Profile>) -> Seq<ProfileView> {
    ps.map_values(|p: Profile| p@)
}

fn result_lt(a: &MatchResult, b: &MatchResult) -> (r: bool)
    ensures
        r == result_precedes(a@, b@),
{
    a.score > b.score || (a.score == b.score && (a.profile.priority > b.profile.priority || (
    a.profile.priority == b.profile.priority && string_lt(&a.profile.name, &b.profile.name))))
}

pub struct Matcher;

impl Matcher {
    fn matching_profiles_internal(topology: &Topology, profiles: &[Profile], require_exact: bool) -> (r:
        Vec<MatchResult>)
        requires
            topology.wf(),
            forall|i: int| 0 <= i < profiles@.len() ==> scorable(#[trigger] profiles@[i]),
        ensures
            result_views(r@) == matching_profiles_spec(
                topology@,
                profile_views(profiles@),
                require_exact,
            ),
    {
        let ghost t = topology@;
        let ghost ps = profile_views(profiles@);
        let mut results: Vec<MatchResult> = Vec::new();
        let n = profiles.len();
        let mut i: usize = 0;
        while i < n
            invariant
                t == topology@,
                ps == profile_views(profiles@),
                n == profiles@.len(),
                topology.wf(),
                forall|k: int| 0 <= k < profiles@.len() ==> scorable(#[trigger] profiles@[k]),
                i <= n,
                result_views(results@) == sort_by(
                    scored_results(t, ps.take(i as int), require_exact),
                    result_precedes_fn(),
                ),
            decreases n - i,
        {
            let ghost before = result_views(results@);
            proof {
                assert(ps.take(i + 1).drop_last() =~= ps.take(i as int));
                assert(ps.take(i + 1).last() == profiles@[i as int]@);
            }
            match score_profile(topology, &profiles[i], require_exact) {
                Some(x) => {
                    let mut j: usize = 0;
                    while j < results.len() && !result_lt(&x, &results[j])
                        invariant
                            j <= results@.len(),
                            before == result_views(results@),
                            forall|k: int| 0 <= k < j ==> !result_precedes(x@, #[trigger] results@[k]@),
                        decreases results@.len() - j,
                    {
                        j += 1;
                    }
                    proof {
                        assert forall|k: int| 0 <= k < j implies !(result_precedes_fn())(
                            x@,
                            #[trigger] before[k],
                        ) by {
                            assert(before[k] == results@[k]@);
                        }
                        if j < results@.len() {
                            assert(before[j as int] == results@[j as int]@);
                        }
                        lemma_insert_by_at(before, x@, result_precedes_fn(), j as int);
                    }
                    let ghost xv = x@;
                    results.insert(j, x);
                    assert(result_views(results@) =~= before.take(j as int).push(xv) + before.skip(
                        j as int,
                    ));
                    proof {
                        let prev = scored_results(t, ps.take(i as int), require_exact);
                        assert(scored_results(t, ps.take(i + 1), require_exact) == prev.push(xv));
                        assert(prev.push(xv).drop_last() =~= prev);
                        assert(sort_by(prev.push(xv), result_precedes_fn()) == insert_by(
                            sort_by(prev, result_precedes_fn()),
                            xv,
                            result_precedes_fn(),
                        ));
                    }
                },
                None => {
                    assert(scored_results(t, ps.take(i + 1), require_exact) == scored_results(
                        t,
                        ps.take(i as int),
                        require_exact,
                    ));
                },
            }
            i += 1;
        }
        assert(ps.take(n as int) =~= ps);
        results
    }

    /// All profiles that match the topology, best first.
    pub fn matching_profiles(topology: &Topology, profiles: &[Profile]) -> (r: Vec<MatchResult>)
        requires
            topology.wf(),
            forall|i: int| 0 <= i < profiles@.len() ==> scorable(#[trigger] profiles@[i]),
        ensures
            result_views(r@) == matching_profiles_spec(topology@, profile_views(profiles@), false),
    {
        Self::matching_profiles_internal(topology, profiles, false)
    }

    /// All profiles that match the topology with no real output left over, best first.
    pub fn matching_profiles_exact(topology: &Topology, profiles: &[Profile]) -> (r: Vec<
        MatchResult,
    >)
        requires
            topology.wf(),
            forall|i: int| 0 <= i < profiles@.len() ==> scorable(#[trigger] profiles@[i]),
        ensures
            result_views(r@) == matching_profiles_spec(topology@, profile_views(profiles@), true),
    {
        Self::matching_profiles_internal(topology, profiles, true)
    }

    /// The best matching profile.
    pub fn match_profile(topology: &Topology, profiles: &[Profile]) -> (r: Option<MatchResult>)
        requires
            topology.wf(),
            forall|i: int| 0 <= i < profiles@.len() ==> scorable(#[trigger] profiles@[i]),
        ensures
            match r {
                Some(x) => matching_profiles_spec(topology@, profile_views(profiles@), false).len()
                    > 0 && x@ == matching_profiles_spec(topology@, profile_views(profiles@), false)[0],
                None => matching_profiles_spec(topology@, profile_views(profiles@), false).len()
                    == 0,
            },
    {
        let mut all = Self::matching_profiles(topology, profiles);
        if all.len() == 0 {
            None
        } else {
            Some(all.remove(0))
        }
    }

    /// The best profile that matches with no real output left over.
    pub fn match_profile_exact(topology: &Topology, profiles: &[Profile]) -> (r: Option<MatchResult>)
        requires
            topology.wf(),
            forall|i: int| 0 <= i < profiles@.len() ==> scorable(#[trigger] profiles@[i]),
        ensures
            match r {
                Some(x) => matching_profiles_spec(topology@, profile_views(profiles@), true).len()
                    > 0 && x@ == matching_profiles_spec(topology@, profile_views(profiles@), true)[0],
                None => matching_profiles_spec(topology@, profile_views(profiles@), true).len() == 0,
            },
    {
        let mut all = Self::matching_profiles_exact(topology, profiles);
        if all.len() == 0 {
            None
        } else {
            Some(all.remove(0))
        }
    }

    /// Whether `candidate` is taken to be the display that `query` describes.
    pub fn identities_match(query: &OutputIdentity, candidate: &OutputIdentity) -> (r: bool)
        ensures
            r == identities_match_spec(query@, candidate@),
    {
        identities_match(query, candidate)
    }
}

} // verus!
