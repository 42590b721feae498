//! The decisions of the workflows around a backend: which profile applies to
//! a topology, what plan it gives, when an apply goes ahead, and how its
//! outcome is classified. Talking to the backend and to storage is the
//! application's; these functions take what came back.
use vstd::prelude::*;

use crate::assoc::{assoc_get, kv_views, lookup, names_of};
use crate::engine::{
    ApplyResult, ConfigFailureKind, HookPolicy, TestResult, ValidationStatus,
};
use crate::error::CoreError;
use crate::matcher::{
    matching_profiles_spec, profile_views, result_precedes_fn, score_profile_spec, scorable, scored_results,
    Matcher, MatchResultView,
};
use crate::model::identity::OutputIdentity;
use crate::model::{
    setup_fingerprint_of, LimitViolation, OutputState, OutputStateView, Topology, VirtualPreset,
};
use crate::planner::bounds::lemma_limits_give_preset_fits;
use crate::planner::presets::{hint_view, preset_spec};
use crate::planner::{
    any_enabled_real, opt_identity_view, profile_plan_spec, LayoutPlan, LayoutPlanView, PlanError, PlanErrorView,
    Planner,
};
use crate::profile::{
    inferred_matchers, Hooks, OutputConfig, OutputConfigView, OutputMatcher, Profile, ProfileView,
};
use crate::state::State;
use crate::store::{keep, lemma_keep_members, lemma_keep_step, ProfilesSettings};
use crate::text::{lemma_sort_by_all, opt_view, str_eq};

verus! {

// ---------------------------------------------------------------------------
// Choosing the profile for a topology
// ---------------------------------------------------------------------------

pub open spec fn opt_profile_view(p: Option<Profile>) -> Option<ProfileView> {
    match p {
        Some(x) => Some(x@),
        None => None,
    }
}

pub open spec fn for_setup_named(name: Seq<char>, fp: Seq<char>) -> spec_fn(ProfileView) -> bool {
    |p: ProfileView| p.name == name && p.setup_fingerprint_spec() == fp
}

pub open spec fn first_of(s: Seq<ProfileView>) -> Option<ProfileView> {
    if s.len() > 0 {
        Some(s[0])
    } else {
        None
    }
}

/// The setup's default profile: the first profile with the default's name
/// that is for the topology's setup.
pub open spec fn setup_default_spec(
    t: Seq<(Seq<char>, OutputStateView)>,
    ps: Seq<ProfileView>,
    defaults: Seq<(Seq<char>, Seq<char>)>,
) -> Option<ProfileView> {
    let fp = setup_fingerprint_of(t);
    match lookup(defaults, fp) {
        Some(name) => first_of(keep(ps, for_setup_named(name, fp))),
        None => None,
    }
}

/// The profile of the best exact match.
pub open spec fn exact_match_spec(t: Seq<(Seq<char>, OutputStateView)>, ps: Seq<ProfileView>) -> Option<
    ProfileView,
> {
    let m = matching_profiles_spec(t, ps, true);
    if m.len() > 0 {
        Some(m[0].profile)
    } else {
        None
    }
}

/// The setup's default profile, else the best exact match.
pub open spec fn select_target_spec(
    t: Seq<(Seq<char>, OutputStateView)>,
    ps: Seq<ProfileView>,
    defaults: Seq<(Seq<char>, Seq<char>)>,
) -> Option<ProfileView> {
    match setup_default_spec(t, ps, defaults) {
        Some(p) => Some(p),
        None => exact_match_spec(t, ps),
    }
}

/// Every scored result is the score of one of the profiles, with that
/// profile in it.
proof fn lemma_scored_results_are_scores(t: Seq<(Seq<char>, OutputStateView)>, ps: Seq<ProfileView>, exact: bool)
    ensures
        forall|i: int|
            0 <= i < scored_results(t, ps, exact).len() ==> score_profile_spec(
                t,
                (#[trigger] scored_results(t, ps, exact)[i]).profile,
                exact,
            ) == Some(scored_results(t, ps, exact)[i]) && ps.contains(scored_results(t, ps, exact)[i].profile),
    decreases ps.len(),
{
    if ps.len() > 0 {
        let d = ps.drop_last();
        lemma_scored_results_are_scores(t, d, exact);
        let rest = scored_results(t, d, exact);
        let all = scored_results(t, ps, exact);
        assert forall|i: int| 0 <= i < all.len() implies score_profile_spec(
            t,
            (#[trigger] all[i]).profile,
            exact,
        ) == Some(all[i]) && ps.contains(all[i].profile) by {
            if i < rest.len() {
                assert(all[i] == rest[i]);
                let k = choose|k: int| 0 <= k < d.len() && d[k] == rest[i].profile;
                assert(ps[k] == d[k]);
            } else {
                assert(ps[ps.len() - 1] == ps.last());
            }
        }
    }
}

/// The best exact match binds every real output: the chosen profile is one
/// of the profiles, and scored as an exact match it is accepted, so it
/// leaves no real output of the topology unbound.
pub proof fn lemma_exact_match_binds_every_output(t: Seq<(Seq<char>, OutputStateView)>, ps: Seq<ProfileView>)
    ensures
        exact_match_spec(t, ps) matches Some(p) ==> ps.contains(p) && score_profile_spec(t, p, true) is Some,
{
    let s = scored_results(t, ps, true);
    lemma_scored_results_are_scores(t, ps, true);
    let q = |r: MatchResultView| score_profile_spec(t, r.profile, true) == Some(r) && ps.contains(r.profile);
    assert forall|i: int| 0 <= i < s.len() implies q(#[trigger] s[i]) by {}
    lemma_sort_by_all(s, result_precedes_fn(), q);
    let m = matching_profiles_spec(t, ps, true);
    if m.len() > 0 {
        assert(q(m[0]));
    }
}

/// What is chosen automatically is the setup's default, or else a profile
/// that matches every real output exactly: a profile for fewer outputs than
/// are connected is never chosen by matching.
pub proof fn lemma_selected_target_is_default_or_exact(
    t: Seq<(Seq<char>, OutputStateView)>,
    ps: Seq<ProfileView>,
    defaults: Seq<(Seq<char>, Seq<char>)>,
)
    ensures
        select_target_spec(t, ps, defaults) matches Some(p) ==> setup_default_spec(t, ps, defaults)
            == Some(p) || (ps.contains(p) && score_profile_spec(t, p, true) is Some),
{
    lemma_exact_match_binds_every_output(t, ps);
}

pub open spec fn all_scorable(profiles: Seq<Profile>) -> bool {
    forall|i: int| 0 <= i < profiles.len() ==> scorable(#[trigger] profiles[i])
}

/// The first profile named `name` that is for the setup `fp`.
fn find_for_setup(profiles: &[Profile], name: &str, fp: &str) -> (r: Option<Profile>)
    ensures
        opt_profile_view(r) == first_of(keep(profile_views(profiles@), for_setup_named(name@, fp@))),
{
    let ghost ps = profile_views(profiles@);
    let ghost f = for_setup_named(name@, fp@);
    let mut i: usize = 0;
    while i < profiles.len()
        invariant
            ps == profile_views(profiles@),
            f == for_setup_named(name@, fp@),
            i <= ps.len(),
            keep(ps.take(i as int), f).len() == 0,
        decreases ps.len() - i,
    {
        proof {
            lemma_keep_step(ps, f, i as int);
        }
        let p = &profiles[i];
        assert(ps[i as int] == p@);
        if str_eq(p.name.as_str(), name) && str_eq(p.setup_fingerprint().as_str(), fp) {
            proof {
                lemma_keep_prefix(ps, f, i + 1);
                assert(keep(ps.take(i + 1), f)[0] == ps[i as int]);
            }
            return Some(p.clone());
        }
        i += 1;
    }
    assert(ps.take(ps.len() as int) =~= ps);
    None
}

/// What is kept of a prefix is a prefix of what is kept of the whole.
proof fn lemma_keep_prefix(s: Seq<ProfileView>, f: spec_fn(ProfileView) -> bool, n: int)
    requires
        0 <= n <= s.len(),
    ensures
        keep(s, f).len() >= keep(s.take(n), f).len(),
        forall|k: int| 0 <= k < keep(s.take(n), f).len() ==> keep(s, f)[k] == #[trigger] keep(
            s.take(n),
            f,
        )[k],
    decreases s.len() - n,
{
    if n < s.len() {
        lemma_keep_prefix(s, f, n + 1);
        lemma_keep_step(s, f, n);
        let a = keep(s.take(n), f);
        let b = keep(s.take(n + 1), f);
        assert forall|k: int| 0 <= k < a.len() implies keep(s, f)[k] == #[trigger] a[k] by {
            assert(b[k] == a[k]);
            assert(keep(s, f)[k] == b[k]);
        }
    } else {
        assert(s.take(n) =~= s);
    }
}

/// The profile to apply to the topology: the setup's default where it names
/// a profile for this setup, else the best exact match.
pub fn select_target_for_topology(topology: &Topology, profiles: &[Profile], settings: &ProfilesSettings) -> (r:
    Option<Profile>)
    requires
        topology.wf(),
        all_scorable(profiles@),
    ensures
        opt_profile_view(r) == select_target_spec(
            topology@,
            profile_views(profiles@),
            settings.defaults(),
        ),
{
    let setup_fingerprint = topology.setup_fingerprint();
    if let Some(default_name) = settings.setup_default_profile(setup_fingerprint.as_str()) {
        if let Some(profile) = find_for_setup(profiles, default_name, setup_fingerprint.as_str()) {
            return Some(profile);
        }
    }
    match Matcher::match_profile_exact(topology, profiles) {
        Some(matched) => Some(matched.profile),
        None => None,
    }
}

pub open spec fn for_setup_profile(fp: Seq<char>) -> spec_fn(ProfileView) -> bool {
    |p: ProfileView| p.setup_fingerprint_spec() == fp
}

/// Like `select_target_for_topology`, among the profiles saved for this very
/// setup, and only for a topology whose real outputs are all identified by
/// more than their connector: a topology that only names connectors gets no
/// profile.
pub fn select_trusted_target_for_topology(
    topology: &Topology,
    profiles: &[Profile],
    settings: &ProfilesSettings,
) -> (r: Option<Profile>)
    requires
        topology.wf(),
        all_scorable(profiles@),
    ensures
        !topology.has_strong_setup_identity_spec() ==> r is None,
        topology.has_strong_setup_identity_spec() ==> opt_profile_view(r) == select_target_spec(
            topology@,
            keep(profile_views(profiles@), for_setup_profile(setup_fingerprint_of(topology@))),
            settings.defaults(),
        ),
{
    if !topology.has_strong_setup_identity() {
        return None;
    }
    let setup_fingerprint = topology.setup_fingerprint();
    let ghost ps = profile_views(profiles@);
    let ghost f = for_setup_profile(setup_fingerprint@);
    let mut trusted: Vec<Profile> = Vec::new();
    let mut i: usize = 0;
    while i < profiles.len()
        invariant
            ps == profile_views(profiles@),
            f == for_setup_profile(setup_fingerprint@),
            all_scorable(profiles@),
            i <= ps.len(),
            profile_views(trusted@) == keep(ps.take(i as int), f),
            all_scorable(trusted@),
        decreases ps.len() - i,
    {
        proof {
            lemma_keep_step(ps, f, i as int);
        }
        let p = &profiles[i];
        assert(ps[i as int] == p@);
        if str_eq(p.setup_fingerprint().as_str(), setup_fingerprint.as_str()) {
            let ghost old_t = trusted@;
            let c = p.clone();
            proof {
                assert(scorable(profiles@[i as int]));
                lemma_clone_scorable(p, &c);
            }
            trusted.push(c);
            proof {
                assert(profile_views(trusted@) =~= profile_views(old_t).push(ps[i as int]));
                assert forall|k: int| 0 <= k < trusted@.len() implies scorable(#[trigger] trusted@[k]) by {
                    if k < old_t.len() {
                        assert(trusted@[k] == old_t[k]);
                    }
                }
            }
        }
        i += 1;
    }
    assert(ps.take(ps.len() as int) =~= ps);
    select_target_for_topology(topology, trusted.as_slice(), settings)
}

/// The same as `select_target_for_topology`.
pub fn select_profile_for_topology(topology: &Topology, profiles: &[Profile], settings: &ProfilesSettings) -> (r:
    Option<Profile>)
    requires
        topology.wf(),
        all_scorable(profiles@),
    ensures
        opt_profile_view(r) == select_target_spec(
            topology@,
            profile_views(profiles@),
            settings.defaults(),
        ),
{
    select_target_for_topology(topology, profiles, settings)
}

/// What to apply to a topology.
#[derive(Debug, PartialEq)]
pub enum ProfileSelectionDecision {
    SetupDefault(Profile),
    ExactMatch(Profile),
    RememberedLayout(Topology),
    NoMatch,
}

impl ProfileSelectionDecision {
    /// The chosen profile, where a profile was chosen.
    pub fn selected_profile(&self) -> (r: Option<&Profile>)
        ensures
            match self {
                ProfileSelectionDecision::SetupDefault(p) => r == Some(p),
                ProfileSelectionDecision::ExactMatch(p) => r == Some(p),
                _ => r is None,
            },
    {
        match self {
            ProfileSelectionDecision::SetupDefault(p) => Some(p),
            ProfileSelectionDecision::ExactMatch(p) => Some(p),
            _ => None,
        }
    }
}

/// The setup default, else the best exact match, else the layout last seen
/// for this setup when it had a real output on, else nothing.
pub fn select_profile_application_target(
    topology: &Topology,
    profiles: &[Profile],
    settings: &ProfilesSettings,
    state: &State,
) -> (r: ProfileSelectionDecision)
    requires
        topology.wf(),
        all_scorable(profiles@),
    ensures
        ({
            let t = topology@;
            let ps = profile_views(profiles@);
            let remembered = lookup(kv_views(state.remembered_setups@), setup_fingerprint_of(t));
            match r {
                ProfileSelectionDecision::SetupDefault(p) => setup_default_spec(
                    t,
                    ps,
                    settings.defaults(),
                ) == Some(p@),
                ProfileSelectionDecision::ExactMatch(p) => setup_default_spec(
                    t,
                    ps,
                    settings.defaults(),
                ) is None && exact_match_spec(t, ps) == Some(p@),
                ProfileSelectionDecision::RememberedLayout(l) => setup_default_spec(
                    t,
                    ps,
                    settings.defaults(),
                ) is None && exact_match_spec(t, ps) is None && remembered == Some(l@)
                    && any_enabled_real(l@),
                ProfileSelectionDecision::NoMatch => setup_default_spec(
                    t,
                    ps,
                    settings.defaults(),
                ) is None && exact_match_spec(t, ps) is None && !(remembered matches Some(l)
                    && any_enabled_real(l)),
            }
        }),
{
    let setup_fingerprint = topology.setup_fingerprint();
    if let Some(default_name) = settings.setup_default_profile(setup_fingerprint.as_str()) {
        if let Some(profile) = find_for_setup(profiles, default_name, setup_fingerprint.as_str()) {
            return ProfileSelectionDecision::SetupDefault(profile);
        }
    }
    if let Some(matched) = Matcher::match_profile_exact(topology, profiles) {
        return ProfileSelectionDecision::ExactMatch(matched.profile);
    }
    if let Some(remembered) = assoc_get(&state.remembered_setups, setup_fingerprint.as_str()) {
        if remembered.has_enabled_real_outputs() {
            return ProfileSelectionDecision::RememberedLayout(remembered.clone());
        }
    }
    ProfileSelectionDecision::NoMatch
}

pub open spec fn named_profile(name: Seq<char>) -> spec_fn(ProfileView) -> bool {
    |p: ProfileView| p.name == name
}

/// The recorded profile's name, while that profile (the first of that name)
/// still matches the topology exactly.
pub open spec fn current_profile_spec(
    t: Seq<(Seq<char>, OutputStateView)>,
    ps: Seq<ProfileView>,
    last: Option<Seq<char>>,
) -> Option<Seq<char>> {
    match last {
        Some(name) => match first_of(keep(ps, named_profile(name))) {
            Some(p) => if matching_profiles_spec(t, seq![p], true).len() > 0 {
                Some(p.name)
            } else {
                None
            },
            None => None,
        },
        None => None,
    }
}

/// A recorded profile is the current one exactly while it matches: with
/// `name` recorded as the last applied profile (as
/// `State::record_applied_profile` leaves it), `current_profile_name` gives
/// `name` back when the first profile of that name matches the topology
/// exactly, and nothing otherwise.
pub proof fn lemma_recorded_profile_is_current(
    t: Seq<(Seq<char>, OutputStateView)>,
    ps: Seq<ProfileView>,
    name: Seq<char>,
)
    ensures
        current_profile_spec(t, ps, Some(name)) == Some(name) <==> (first_of(
            keep(ps, named_profile(name)),
        ) matches Some(p) && matching_profiles_spec(t, seq![p], true).len() > 0),
        current_profile_spec(t, ps, Some(name)) is Some ==> current_profile_spec(t, ps, Some(name))
            == Some(name),
{
    lemma_keep_members(ps, named_profile(name));
    let k = keep(ps, named_profile(name));
    if k.len() > 0 {
        assert((named_profile(name))(k[0]));
    }
}

pub fn current_profile_name(topology: &Topology, profiles: &[Profile], state: &State) -> (r: Option<
    String,
>)
    requires
        topology.wf(),
        all_scorable(profiles@),
    ensures
        opt_view(r) == current_profile_spec(
            topology@,
            profile_views(profiles@),
            opt_view(state.last_profile),
        ),
{
    let last = match &state.last_profile {
        Some(name) => name,
        None => {
            return None;
        },
    };
    let ghost ps = profile_views(profiles@);
    let ghost f = named_profile(last@);
    let mut i: usize = 0;
    while i < profiles.len()
        invariant
            ps == profile_views(profiles@),
            f == named_profile(last@),
            opt_view(state.last_profile) == Some(last@),
            all_scorable(profiles@),
            topology.wf(),
            i <= ps.len(),
            keep(ps.take(i as int), f).len() == 0,
        decreases ps.len() - i,
    {
        proof {
            lemma_keep_step(ps, f, i as int);
        }
        let p = &profiles[i];
        assert(ps[i as int] == p@);
        if str_eq(p.name.as_str(), last.as_str()) {
            proof {
                lemma_keep_prefix(ps, f, i + 1);
                assert(keep(ps.take(i + 1), f)[0] == ps[i as int]);
            }
            let mut one: Vec<Profile> = Vec::new();
            one.push(p.clone());
            proof {
                assert(profile_views(one@) =~= seq![p@]);
                assert(scorable(profiles@[i as int]));
                lemma_clone_scorable(p, &one@[0]);
            }
            let matched = Matcher::match_profile_exact(topology, one.as_slice());
            let ghost spec_p = first_of(keep(ps, f));
            assert(spec_p == Some(p@));
            assert(opt_view(state.last_profile) == Some(last@));
            if matched.is_some() {
                let name = p.name.clone();
                assert(name@ == p@.name);
                assert(matching_profiles_spec(topology@, seq![p@], true).len() > 0);
                return Some(name);
            } else {
                assert(matching_profiles_spec(topology@, seq![p@], true).len() == 0);
                return None;
            }
        }
        i += 1;
    }
    assert(ps.take(ps.len() as int) =~= ps);
    None
}

/// A profile with the same view as a scorable one is scorable.
pub proof fn lemma_clone_scorable(a: &Profile, b: &Profile)
    requires
        scorable(*a),
        b@ == a@,
    ensures
        scorable(*b),
{
    assert(b.layout@.len() == crate::profile::layout_views(b.layout@).len());
    assert(a.layout@.len() == crate::profile::layout_views(a.layout@).len());
    assert(crate::profile::layout_views(b.layout@) == crate::profile::layout_views(a.layout@));
    assert(b.layout@.len() == a.layout@.len());
    assert(names_of(b.layout@) =~= names_of(a.layout@)) by {
        assert forall|k: int| 0 <= k < b.layout@.len() implies #[trigger] names_of(b.layout@)[k]
            == names_of(a.layout@)[k] by {
            assert(crate::profile::layout_views(b.layout@)[k].0 == b.layout@[k].0@);
            assert(crate::profile::layout_views(a.layout@)[k].0 == a.layout@[k].0@);
        }
    }
    assert(b.match_rules@.len() == crate::profile::matcher_views(b.match_rules@).len());
    assert(a.match_rules@.len() == crate::profile::matcher_views(a.match_rules@).len());
}

// ---------------------------------------------------------------------------
// Profiles from topologies, and plans from profiles
// ---------------------------------------------------------------------------

/// Every output of the topology as a layout entry.
pub open spec fn topology_layout(t: Seq<(Seq<char>, OutputStateView)>) -> Seq<(Seq<char>, OutputConfigView)> {
    t.map_values(
        |e: (Seq<char>, OutputStateView)| (e.0, OutputConfigView { state: e.1, preset: None }),
    )
}

/// The profile that keeps the topology as it is: every output in the layout,
/// and a match rule for each real output (required where it is on, hinted at
/// its position).
pub open spec fn profile_from_topology_spec(name: Seq<char>, t: Seq<(Seq<char>, OutputStateView)>) -> ProfileView {
    ProfileView {
        name,
        priority: 0,
        match_rules: inferred_matchers(topology_layout(t)),
        layout: topology_layout(t),
        hooks: crate::profile::HooksView {
            pre_apply: Seq::empty(),
            post_apply: Seq::empty(),
            on_failure: Seq::empty(),
        },
    }
}

proof fn lemma_topology_layout_keys(t: Seq<(Seq<char>, OutputStateView)>)
    ensures
        crate::profile::real_layout_keys(topology_layout(t)) == crate::model::real_output_keys(t),
        crate::profile::real_matcher_keys(inferred_matchers(topology_layout(t)))
            == crate::model::real_output_keys(t),
    decreases t.len(),
{
    if t.len() > 0 {
        lemma_topology_layout_keys(t.drop_last());
        assert(topology_layout(t).drop_last() =~= topology_layout(t.drop_last()));
        let l = topology_layout(t);
        let im = inferred_matchers(l.drop_last());
        if crate::model::is_real_output(t.last().1) {
            assert(inferred_matchers(l) == im.push(crate::profile::inferred_matcher(l.last().1)));
            assert(inferred_matchers(l).drop_last() =~= im);
        } else {
            assert(inferred_matchers(l) == im);
        }
    }
}

/// A profile saved from a topology is for that topology's setup: its setup
/// fingerprint is the topology's, whatever order the outputs come in, so the
/// profile is found again among the profiles for that setup.
pub proof fn lemma_profile_from_topology_keeps_setup(name: Seq<char>, t: Seq<(Seq<char>, OutputStateView)>)
    ensures
        profile_from_topology_spec(name, t).setup_fingerprint_spec() == setup_fingerprint_of(t),
{
    lemma_topology_layout_keys(t);
}

pub fn profile_from_topology(name: &str, topology: &Topology) -> (r: Profile)
    requires
        topology.wf(),
    ensures
        r@ == profile_from_topology_spec(name@, topology@),
        r.wf(),
{
    let ghost t = topology@;
    let mut match_rules: Vec<OutputMatcher> = Vec::new();
    let mut layout: Vec<(String, OutputConfig)> = Vec::new();
    let mut i: usize = 0;
    while i < topology.outputs.len()
        invariant
            t == topology@,
            i <= t.len(),
            layout@.len() == i,
            forall|k: int|
                0 <= k < i ==> (#[trigger] layout@[k]).0@ == t[k].0 && layout@[k].1@
                    == (OutputConfigView { state: t[k].1, preset: None }),
            crate::profile::matcher_views(match_rules@) == inferred_matchers(
                topology_layout(t.take(i as int)),
            ),
        decreases t.len() - i,
    {
        let e = &topology.outputs[i];
        assert(t[i as int] == (e.0@, e.1@));
        let ghost prev = topology_layout(t.take(i as int));
        let ghost next = topology_layout(t.take(i + 1));
        assert(next =~= prev.push((t[i as int].0, OutputConfigView { state: t[i as int].1, preset: None })));
        assert(next.drop_last() =~= prev);
        let state = &e.1;
        if !state.identity.is_ignored && !state.identity.is_virtual {
            let ghost old_rules = match_rules@;
            match_rules.push(
                OutputMatcher {
                    identity: state.identity.clone(),
                    required: state.enabled,
                    position_hint: Some(state.position),
                },
            );
            assert(crate::profile::matcher_views(match_rules@) =~= crate::profile::matcher_views(
                old_rules,
            ).push(crate::profile::inferred_matcher(next.last().1)));
        }
        layout.push((e.0.clone(), OutputConfig::from_state(state.clone())));
        i += 1;
    }
    assert(t.take(t.len() as int) =~= t);
    assert(crate::profile::layout_views(layout@) =~= topology_layout(t));
    proof {
        assert(names_of(layout@) =~= names_of(topology.outputs@));
    }
    let r = Profile { name: name.to_owned(), priority: 0, match_rules, layout, hooks: Hooks::default() };
    assert(r.hooks@.pre_apply =~= Seq::empty());
    assert(r.hooks@.post_apply =~= Seq::empty());
    assert(r.hooks@.on_failure =~= Seq::empty());
    r
}

/// Matching one profile gives at most its own match.
pub proof fn lemma_single_match(t: Seq<(Seq<char>, OutputStateView)>, p: ProfileView, exact: bool)
    ensures
        matching_profiles_spec(t, seq![p], exact) == match crate::matcher::score_profile_spec(
            t,
            p,
            exact,
        ) {
            Some(r) => seq![r],
            None => Seq::<MatchResultView>::empty(),
        },
        crate::matcher::score_profile_spec(t, p, exact) matches Some(r) ==> r.profile == p,
{
    let one = seq![p];
    assert(one.drop_last() =~= Seq::<ProfileView>::empty());
    assert(one.last() == p);
    assert(crate::matcher::scored_results(t, one.drop_last(), exact) =~= Seq::<MatchResultView>::empty());
    let sr = crate::matcher::scored_results(t, one, exact);
    match crate::matcher::score_profile_spec(t, p, exact) {
        Some(r) => {
            assert(sr =~= seq![r]);
            assert(sr.drop_last() =~= Seq::<MatchResultView>::empty());
            assert(sr.last() == r);
            let lt = crate::matcher::result_precedes_fn();
            assert(crate::text::sort_by(sr.drop_last(), lt) =~= Seq::<MatchResultView>::empty());
            assert(crate::text::insert_by(Seq::<MatchResultView>::empty(), r, lt) =~= seq![r]);
            assert(crate::text::sort_by(sr, lt) == crate::text::insert_by(
                crate::text::sort_by(sr.drop_last(), lt),
                sr.last(),
                lt,
            ));
        },
        None => {
            assert(sr =~= Seq::<MatchResultView>::empty());
            assert(crate::text::sort_by(sr, crate::matcher::result_precedes_fn()) =~= sr);
        },
    }
}

/// The plan for a profile that matches the topology exactly: an error where
/// it does not match, or where the plan names a missing output.
pub open spec fn plan_for_topology_spec(p: ProfileView, t: Seq<(Seq<char>, OutputStateView)>) -> Option<
    Result<Seq<(Seq<char>, OutputStateView)>, Seq<char>>,
> {
    let ms = matching_profiles_spec(t, seq![p], true);
    if ms.len() == 0 {
        None
    } else {
        Some(profile_plan_spec(ms[0].profile, ms[0].matched_outputs, t))
    }
}

/// The plan a preset gives a topology, once the topology is checked against
/// the limits: a topology that breaks a limit is refused with the first
/// limit it breaks, and one within the limits is planned (the limits keep
/// the planner's arithmetic inside `i32`).
pub fn plan_preset_for_topology(
    preset: VirtualPreset,
    topology: &Topology,
    builtin_output: Option<&OutputIdentity>,
    primary_hint: Option<&str>,
) -> (r: Result<LayoutPlan, CoreError>)
    requires
        topology.wf(),
    ensures
        match topology.limits_violation() {
            Some(v) => r matches Err(CoreError::InvalidTopology(e)) && e.view_of() == v,
            None => match preset_spec(
                preset,
                topology@,
                opt_identity_view(builtin_output),
                hint_view(primary_hint),
            ) {
                Ok(pv) => r matches Ok(p) && p@ == pv,
                Err(ev) => r matches Err(CoreError::Plan(e)) && e@ == ev,
            },
        },
{
    match topology.validate_limits() {
        Err(v) => Err(CoreError::InvalidTopology(v)),
        Ok(()) => {
            proof {
                lemma_limits_give_preset_fits(
                    *topology,
                    preset,
                    opt_identity_view(builtin_output),
                    hint_view(primary_hint),
                );
            }
            match Planner::plan_from_preset(preset, topology, builtin_output, primary_hint) {
                Ok(plan) => Ok(plan),
                Err(e) => Err(CoreError::Plan(e)),
            }
        },
    }
}

pub fn plan_profile_for_topology(profile: &Profile, topology: &Topology) -> (r: Result<
    LayoutPlan,
    CoreError,
>)
    requires
        topology.wf(),
        scorable(*profile),
    ensures
        match plan_for_topology_spec(profile@, topology@) {
            None => r matches Err(CoreError::ProfileMismatch),
            Some(Ok(outputs)) => r matches Ok(plan) && plan@.outputs == outputs
                && plan@.preset_used is None && plan.wf(),
            Some(Err(name)) => r matches Err(CoreError::Plan(e)) && e@
                == PlanErrorView::MissingOutput(name),
        },
{
    let mut one: Vec<Profile> = Vec::new();
    one.push(profile.clone());
    proof {
        assert(profile_views(one@) =~= seq![profile@]);
        lemma_clone_scorable(profile, &one@[0]);
    }
    let matched = match Matcher::match_profile_exact(topology, one.as_slice()) {
        Some(m) => m,
        None => {
            return Err(CoreError::ProfileMismatch);
        },
    };
    proof {
        lemma_single_match(topology@, profile@, true);
        lemma_clone_scorable(profile, &matched.profile);
    }
    match Planner::plan_from_profile(&matched.profile, matched.matched_outputs.as_slice(), topology) {
        Ok(plan) => Ok(plan),
        Err(e) => Err(CoreError::Plan(e)),
    }
}

/// The output is laid out as the plan says, or is off where the plan does
/// not name it.
pub open spec fn output_as_planned(
    plan: Seq<(Seq<char>, OutputStateView)>,
    name: Seq<char>,
    current: OutputStateView,
) -> bool {
    match lookup(plan, name) {
        Some(desired) => desired.same_layout_spec(current),
        None => !current.enabled,
    }
}

/// Every real output of the topology is as the plan says.
pub open spec fn topology_matches_plan_spec(
    t: Seq<(Seq<char>, OutputStateView)>,
    plan: Seq<(Seq<char>, OutputStateView)>,
) -> bool {
    forall|i: int|
        0 <= i < t.len() && crate::model::is_real_output(#[trigger] t[i].1) ==> output_as_planned(
            plan,
            t[i].0,
            t[i].1,
        )
}

fn output_planned(plan: &LayoutPlan, name: &String, current: &OutputState) -> (r: bool)
    ensures
        r == output_as_planned(plan@.outputs, name@, current@),
{
    proof {
        assert(crate::assoc::view_names(plan@.outputs) =~= names_of(plan.outputs@));
    }
    match crate::assoc::find_key(&plan.outputs, name.as_str()) {
        Some(k) => {
            assert(plan@.outputs[k as int] == (plan.outputs@[k as int].0@, plan.outputs@[k as int].1@));
            plan.outputs[k].1.same_layout_as(current)
        },
        None => !current.enabled,
    }
}

/// Whether the topology after an apply is the one the plan asked for.
pub fn topology_matches_plan(topology: &Topology, plan: &LayoutPlan) -> (r: bool)
    ensures
        r == topology_matches_plan_spec(topology@, plan@.outputs),
{
    let ghost t = topology@;
    let mut i: usize = 0;
    while i < topology.outputs.len()
        invariant
            t == topology@,
            i <= t.len(),
            forall|k: int|
                0 <= k < i && crate::model::is_real_output(#[trigger] t[k].1) ==> output_as_planned(
                    plan@.outputs,
                    t[k].0,
                    t[k].1,
                ),
        decreases t.len() - i,
    {
        let e = &topology.outputs[i];
        assert(t[i as int] == (e.0@, e.1@));
        let current = &e.1;
        if !current.identity.is_ignored && !current.identity.is_virtual {
            if !output_planned(plan, &e.0, current) {
                assert(crate::model::is_real_output(t[i as int].1));
                return false;
            }
        }
        i += 1;
    }
    true
}

// ---------------------------------------------------------------------------
// Validating and applying
// ---------------------------------------------------------------------------

/// How an apply treats validation and hooks.
#[derive(Debug, Clone, Copy, PartialEq, Eq, Structural)]
pub struct ApplyPolicy {
    pub allow_unsupported_validation: bool,
    pub hook_policy: HookPolicy,
}

impl Default for ApplyPolicy {
    fn default() -> (r: Self)
        ensures
            !r.allow_unsupported_validation,
            r.hook_policy == HookPolicy::Enabled,
    {
        ApplyPolicy { allow_unsupported_validation: false, hook_policy: HookPolicy::Enabled }
    }
}

/// A plan that leaves no real output on is refused before the backend sees
/// it.
pub fn blank_plan_rejection(plan: &LayoutPlan) -> (r: Option<TestResult>)
    ensures
        r is None <==> any_enabled_real(plan@.outputs),
        r matches Some(t) ==> !t.success && t.status == ValidationStatus::Rejected && t.failure
            == Some(ConfigFailureKind::Rejected) && opt_view(t.message) == Some(
            "refusing to apply a layout with no enabled real outputs"@,
        ),
{
    if plan.has_enabled_real_outputs() {
        None
    } else {
        Some(
            TestResult::rejected(
                Some(ConfigFailureKind::Rejected),
                Some("refusing to apply a layout with no enabled real outputs".to_owned()),
            ),
        )
    }
}

/// Whether the validation verdict stops the apply: a rejection always does,
/// and an unsupported validation does unless the policy allows it.
pub fn validation_blocks_apply(validation: &TestResult, policy: &ApplyPolicy) -> (r: bool)
    ensures
        r == (validation.status == ValidationStatus::Rejected || (validation.status
            == ValidationStatus::Unsupported && !policy.allow_unsupported_validation)),
{
    match validation.status {
        ValidationStatus::Rejected => true,
        ValidationStatus::Unsupported => !policy.allow_unsupported_validation,
        ValidationStatus::Supported => false,
    }
}

/// The outcome of validating a plan without applying it.
#[derive(Debug, PartialEq)]
pub enum ValidationExecution {
    Accepted { plan: LayoutPlan, validation: TestResult },
    Unsupported { plan: LayoutPlan, validation: TestResult },
    Rejected { plan: LayoutPlan, validation: TestResult },
}

impl ValidationExecution {
    /// The outcome that the verdict gives.
    pub fn from_validation(plan: LayoutPlan, validation: TestResult) -> (r: Self)
        ensures
            match r {
                ValidationExecution::Accepted { plan: p, validation: v } => validation.status
                    == ValidationStatus::Supported && p == plan && v == validation,
                ValidationExecution::Unsupported { plan: p, validation: v } => validation.status
                    == ValidationStatus::Unsupported && p == plan && v == validation,
                ValidationExecution::Rejected { plan: p, validation: v } => validation.status
                    == ValidationStatus::Rejected && p == plan && v == validation,
            },
    {
        match validation.status {
            ValidationStatus::Supported => ValidationExecution::Accepted { plan, validation },
            ValidationStatus::Unsupported => ValidationExecution::Unsupported { plan, validation },
            ValidationStatus::Rejected => ValidationExecution::Rejected { plan, validation },
        }
    }

    pub fn failure_kind(&self) -> (r: Option<ConfigFailureKind>)
        ensures
            match self {
                ValidationExecution::Accepted { .. } => r is None,
                ValidationExecution::Unsupported { validation, .. } => r == validation.failure,
                ValidationExecution::Rejected { validation, .. } => r == validation.failure,
            },
    {
        match self {
            ValidationExecution::Accepted { .. } => None,
            ValidationExecution::Unsupported { validation, .. } => validation.failure,
            ValidationExecution::Rejected { validation, .. } => validation.failure,
        }
    }

    pub fn failure_message(&self) -> (r: Option<&str>)
        ensures
            match self {
                ValidationExecution::Accepted { .. } => r is None,
                ValidationExecution::Unsupported { validation, .. } => opt_str_view(r) == opt_view(
                    validation.message,
                ),
                ValidationExecution::Rejected { validation, .. } => opt_str_view(r) == opt_view(
                    validation.message,
                ),
            },
    {
        match self {
            ValidationExecution::Accepted { .. } => None,
            ValidationExecution::Unsupported { validation, .. } => opt_as_str(&validation.message),
            ValidationExecution::Rejected { validation, .. } => opt_as_str(&validation.message),
        }
    }
}

pub open spec fn opt_str_view(o: Option<&str>) -> Option<Seq<char>> {
    match o {
        Some(s) => Some(s@),
        None => None,
    }
}

fn opt_as_str(o: &Option<String>) -> (r: Option<&str>)
    ensures
        opt_str_view(r) == opt_view(*o),
{
    match o {
        Some(s) => Some(s.as_str()),
        None => None,
    }
}

/// The outcome of validating and applying a plan.
#[derive(Debug, PartialEq)]
pub enum ApplyExecution {
    Unsupported { plan: LayoutPlan, validation: TestResult },
    Rejected { plan: LayoutPlan, validation: TestResult },
    ApplyFailed { plan: LayoutPlan, validation: TestResult, apply_result: ApplyResult },
    Applied {
        plan: LayoutPlan,
        validation: TestResult,
        apply_result: ApplyResult,
        applied_topology: Topology,
    },
}

impl ApplyExecution {
    /// The outcome of an apply that validation stopped.
    pub fn blocked(plan: LayoutPlan, validation: TestResult) -> (r: Self)
        ensures
            match r {
                ApplyExecution::Unsupported { plan: p, validation: v } => validation.status
                    == ValidationStatus::Unsupported && p == plan && v == validation,
                ApplyExecution::Rejected { plan: p, validation: v } => validation.status
                    != ValidationStatus::Unsupported && p == plan && v == validation,
                _ => false,
            },
    {
        match validation.status {
            ValidationStatus::Unsupported => ApplyExecution::Unsupported { plan, validation },
            _ => ApplyExecution::Rejected { plan, validation },
        }
    }

    /// The outcome of an apply that the backend carried out.
    pub fn finished(
        plan: LayoutPlan,
        validation: TestResult,
        apply_result: ApplyResult,
        applied_topology: Topology,
    ) -> (r: Self)
        ensures
            match r {
                ApplyExecution::Applied {
                    plan: p,
                    validation: v,
                    apply_result: a,
                    applied_topology: t,
                } => apply_result.success && p == plan && v == validation && a == apply_result && t
                    == applied_topology,
                ApplyExecution::ApplyFailed { plan: p, validation: v, apply_result: a } =>
                    !apply_result.success && p == plan && v == validation && a == apply_result,
                _ => false,
            },
    {
        if apply_result.success {
            ApplyExecution::Applied { plan, validation, apply_result, applied_topology }
        } else {
            ApplyExecution::ApplyFailed { plan, validation, apply_result }
        }
    }

    pub fn failure_kind(&self) -> (r: Option<ConfigFailureKind>)
        ensures
            match self {
                ApplyExecution::Unsupported { validation, .. } => r == validation.failure,
                ApplyExecution::Rejected { validation, .. } => r == validation.failure,
                ApplyExecution::ApplyFailed { apply_result, .. } => r == apply_result.failure,
                ApplyExecution::Applied { .. } => r is None,
            },
    {
        match self {
            ApplyExecution::Unsupported { validation, .. } => validation.failure,
            ApplyExecution::Rejected { validation, .. } => validation.failure,
            ApplyExecution::ApplyFailed { apply_result, .. } => apply_result.failure,
            ApplyExecution::Applied { .. } => None,
        }
    }

    pub fn failure_message(&self) -> (r: Option<&str>)
        ensures
            match self {
                ApplyExecution::Unsupported { validation, .. } => opt_str_view(r) == opt_view(
                    validation.message,
                ),
                ApplyExecution::Rejected { validation, .. } => opt_str_view(r) == opt_view(
                    validation.message,
                ),
                ApplyExecution::ApplyFailed { apply_result, .. } => opt_str_view(r) == opt_view(
                    apply_result.message,
                ),
                ApplyExecution::Applied { .. } => r is None,
            },
    {
        match self {
            ApplyExecution::Unsupported { validation, .. } => opt_as_str(&validation.message),
            ApplyExecution::Rejected { validation, .. } => opt_as_str(&validation.message),
            ApplyExecution::ApplyFailed { apply_result, .. } => opt_as_str(&apply_result.message),
            ApplyExecution::Applied { .. } => None,
        }
    }
}

/// What the topology after an apply says of the apply.
#[derive(Debug, PartialEq)]
pub enum AppliedTopologyCheck {
    /// Within limits, and as planned (or the apply already failed).
    Consistent,
    /// The backend reported success, but the outputs are not as planned.
    Mismatch,
    /// The topology breaks the limits.
    Invalid(LimitViolation),
}

pub fn check_applied_topology(applied: &Topology, plan: &LayoutPlan, apply_succeeded: bool) -> (r:
    AppliedTopologyCheck)
    ensures
        match r {
            AppliedTopologyCheck::Invalid(v) => applied.limits_violation() == Some(v.view_of()),
            AppliedTopologyCheck::Mismatch => applied.limits_violation() is None && apply_succeeded
                && !topology_matches_plan_spec(applied@, plan@.outputs),
            AppliedTopologyCheck::Consistent => applied.limits_violation() is None && !(
            apply_succeeded && !topology_matches_plan_spec(applied@, plan@.outputs)),
        },
{
    match applied.validate_limits() {
        Err(v) => AppliedTopologyCheck::Invalid(v),
        Ok(()) => {
            if apply_succeeded && !topology_matches_plan(applied, plan) {
                AppliedTopologyCheck::Mismatch
            } else {
                AppliedTopologyCheck::Consistent
            }
        },
    }
}

/// The message of an apply whose result does not match the plan.
pub fn plan_mismatch_message() -> (r: String)
    ensures
        r@ == "backend reported success but applied topology does not match the intended plan"@,
{
    "backend reported success but applied topology does not match the intended plan".to_owned()
}

/// The apply result turned into a rejection with the given message; the
/// applied state it reported is kept.
pub fn rejected_apply_result(result: ApplyResult, message: String) -> (r: ApplyResult)
    ensures
        !r.success,
        r.failure == Some(ConfigFailureKind::Rejected),
        r.message == Some(message),
        r.applied_state == result.applied_state,
{
    ApplyResult {
        success: false,
        failure: Some(ConfigFailureKind::Rejected),
        message: Some(message),
        applied_state: result.applied_state,
    }
}

} // verus!
