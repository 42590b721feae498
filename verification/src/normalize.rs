//! Filling in output identities from the identities remembered for each
//! connector ("known outputs").
use vstd::prelude::*;

use crate::assoc::{find_key, lookup, name_index, names_of, view_names};
use crate::model::identity::OutputIdentityView;
use crate::model::{entry_views, OutputIdentity, OutputState, OutputStateView, Topology};
use crate::profile::{
    layout_views, matcher_views, OutputConfig, OutputConfigView, OutputMatcher,
    OutputMatcherView, Profile, ProfileView,
};

verus! {

/// Known identities by connector, as plain values.
pub open spec fn known_views(v: Seq<(String, OutputIdentity)>) -> Seq<(Seq<char>, OutputIdentityView)> {
    v.map_values(|e: (String, OutputIdentity)| (e.0@, e.1@))
}

/// `identity` filled from the known identity under `key`, when there is one.
pub open spec fn filled_from(
    known: Seq<(Seq<char>, OutputIdentityView)>,
    key: Option<Seq<char>>,
    identity: OutputIdentityView,
) -> OutputIdentityView {
    match key {
        Some(k) => match lookup(known, k) {
            Some(cached) => identity.fallback_to(cached),
            None => identity,
        },
        None => identity,
    }
}

/// A match rule is filled from the known identity of its connector.
pub open spec fn normalized_matcher(
    known: Seq<(Seq<char>, OutputIdentityView)>,
    m: OutputMatcherView,
) -> OutputMatcherView {
    OutputMatcherView { identity: filled_from(known, m.identity.connector, m.identity), ..m }
}

/// A layout entry is filled from the known identity under its layout name,
/// or else under the connector of its identity.
pub open spec fn normalized_config(
    known: Seq<(Seq<char>, OutputIdentityView)>,
    name: Seq<char>,
    c: OutputConfigView,
) -> OutputConfigView {
    let identity = if lookup(known, name) is Some {
        filled_from(known, Some(name), c.state.identity)
    } else {
        filled_from(known, c.state.identity.connector, c.state.identity)
    };
    OutputConfigView { state: OutputStateView { identity, ..c.state }, ..c }
}

pub open spec fn normalized_profile(
    known: Seq<(Seq<char>, OutputIdentityView)>,
    p: ProfileView,
) -> ProfileView {
    ProfileView {
        match_rules: p.match_rules.map_values(|m: OutputMatcherView| normalized_matcher(known, m)),
        layout: p.layout.map_values(
            |e: (Seq<char>, OutputConfigView)| (e.0, normalized_config(known, e.0, e.1)),
        ),
        ..p
    }
}

/// Every output is filled from the known identity under its output name.
pub open spec fn normalized_topology(
    known: Seq<(Seq<char>, OutputIdentityView)>,
    t: Seq<(Seq<char>, OutputStateView)>,
) -> Seq<(Seq<char>, OutputStateView)> {
    t.map_values(
        |e: (Seq<char>, OutputStateView)|
            (e.0, OutputStateView { identity: filled_from(known, Some(e.0), e.1.identity), ..e.1 }),
    )
}

/// The known identity stored under `key`.
fn known_identity<'a>(known: &'a Vec<(String, OutputIdentity)>, key: &str) -> (r: Option<
    &'a OutputIdentity,
>)
    ensures
        match r {
            Some(i) => lookup(known_views(known@), key@) == Some(i@),
            None => lookup(known_views(known@), key@) is None,
        },
{
    assert(view_names(known_views(known@)) =~= names_of(known@));
    match find_key(known, key) {
        Some(i) => {
            assert(known_views(known@)[i as int] == (known@[i as int].0@, known@[i as int].1@));
            Some(&known[i].1)
        },
        None => None,
    }
}

fn fill_identity(known: &Vec<(String, OutputIdentity)>, key: &Option<String>, identity: &OutputIdentity) -> (r:
    OutputIdentity)
    ensures
        r@ == filled_from(known_views(known@), crate::text::opt_view(*key), identity@),
{
    match key {
        Some(k) => match known_identity(known, k.as_str()) {
            Some(cached) => identity.with_fallback(cached),
            None => identity.clone(),
        },
        None => identity.clone(),
    }
}

/// Fills the identities of the profile's match rules and layout entries from
/// the known outputs.
pub fn normalize_profile_with_known_outputs(
    profile: &Profile,
    known_outputs: &Vec<(String, OutputIdentity)>,
) -> (r: Profile)
    ensures
        r@ == normalized_profile(known_views(known_outputs@), profile@),
{
    let ghost known = known_views(known_outputs@);
    let mut rules: Vec<OutputMatcher> = Vec::new();
    let mut i: usize = 0;
    while i < profile.match_rules.len()
        invariant
            known == known_views(known_outputs@),
            i <= profile.match_rules@.len(),
            rules@.len() == i,
            forall|j: int|
                0 <= j < i ==> (#[trigger] rules@[j])@ == normalized_matcher(
                    known,
                    profile.match_rules@[j]@,
                ),
        decreases profile.match_rules@.len() - i,
    {
        let m = &profile.match_rules[i];
        let identity = fill_identity(known_outputs, &m.identity.connector, &m.identity);
        rules.push(
            OutputMatcher { identity, required: m.required, position_hint: m.position_hint },
        );
        i += 1;
    }
    assert(matcher_views(rules@) =~= profile@.match_rules.map_values(
        |m: OutputMatcherView| normalized_matcher(known, m),
    ));
    let mut layout: Vec<(String, OutputConfig)> = Vec::new();
    let mut i: usize = 0;
    while i < profile.layout.len()
        invariant
            known == known_views(known_outputs@),
            i <= profile.layout@.len(),
            layout@.len() == i,
            forall|j: int|
                0 <= j < i ==> (#[trigger] layout@[j]).0@ == profile.layout@[j].0@ && layout@[j].1@
                    == normalized_config(known, profile.layout@[j].0@, profile.layout@[j].1@),
        decreases profile.layout@.len() - i,
    {
        let name = &profile.layout[i].0;
        let config = &profile.layout[i].1;
        let identity = if known_identity(known_outputs, name.as_str()).is_some() {
            fill_identity(known_outputs, &Some(name.clone()), &config.state.identity)
        } else {
            fill_identity(known_outputs, &config.state.identity.connector, &config.state.identity)
        };
        let mut state = config.state.clone();
        state.identity = identity;
        layout.push((name.clone(), OutputConfig { state, preset: config.preset }));
        i += 1;
    }
    assert(layout_views(layout@) =~= profile@.layout.map_values(
        |e: (Seq<char>, OutputConfigView)| (e.0, normalized_config(known, e.0, e.1)),
    ));
    Profile {
        name: profile.name.clone(),
        priority: profile.priority,
        match_rules: rules,
        layout,
        hooks: profile.hooks.clone(),
    }
}

/// `normalize_profile_with_known_outputs` after inferring missing match rules.
pub fn canonicalize_profile(profile: &Profile, known_outputs: &Vec<(String, OutputIdentity)>) -> (r:
    Profile)
    ensures
        r@ == normalized_profile(
            known_views(known_outputs@),
            profile@.with_inferred_match_rules_spec(),
        ),
{
    normalize_profile_with_known_outputs(&profile.with_inferred_match_rules(), known_outputs)
}

/// Fills the identity of each output from the known identity under its name.
pub fn normalize_topology_with_known_outputs(
    topology: &Topology,
    known_outputs: &Vec<(String, OutputIdentity)>,
) -> (r: Topology)
    ensures
        r@ == normalized_topology(known_views(known_outputs@), topology@),
        topology.wf() ==> r.wf(),
{
    let ghost known = known_views(known_outputs@);
    let mut outputs: Vec<(String, OutputState)> = Vec::new();
    let mut i: usize = 0;
    while i < topology.outputs.len()
        invariant
            known == known_views(known_outputs@),
            i <= topology.outputs@.len(),
            outputs@.len() == i,
            forall|j: int|
                0 <= j < i ==> (#[trigger] outputs@[j]).0@ == topology.outputs@[j].0@ && outputs@[j].1@
                    == (OutputStateView {
                    identity: filled_from(
                        known,
                        Some(topology.outputs@[j].0@),
                        topology.outputs@[j].1@.identity,
                    ),
                    ..topology.outputs@[j].1@
                }),
        decreases topology.outputs@.len() - i,
    {
        let name = &topology.outputs[i].0;
        let identity = fill_identity(known_outputs, &Some(name.clone()), &topology.outputs[i].1.identity);
        let mut state = topology.outputs[i].1.clone();
        state.identity = identity;
        outputs.push((name.clone(), state));
        i += 1;
    }
    let r = Topology { outputs };
    assert(r@ =~= normalized_topology(known, topology@));
    assert(names_of(r.outputs@) =~= names_of(topology.outputs@));
    r
}

} // verus!
