//! The runtime state kept between runs: the last applied profile and
//! topology, default profiles, the identities known for each connector and
//! the last layout seen for each setup.
use vstd::prelude::*;

use crate::assoc::{
    assoc_get, assoc_insert, assoc_set, distinct_names, kv_views, lemma_kv_names,
    lemma_lookup_set, lemma_set_same, lookup, names_of,
};
use crate::model::identity::OutputIdentityView;
use crate::model::{
    entry_views, opt_str_eq, setup_fingerprint_of, BackendKind, OutputIdentity, OutputStateView,
    Topology,
};
use crate::normalize::{known_views, normalize_topology_with_known_outputs, normalized_topology};
use crate::text::opt_view;

verus! {

/// The key under which the default profile for every setup is kept.
pub const GLOBAL_DEFAULT_PROFILE_KEY: &'static str = "__global__";

#[derive(Debug, PartialEq)]
pub struct State {
    pub last_profile: Option<String>,
    pub last_topology_fingerprint: Option<String>,
    /// Default profile names by setup fingerprint.
    pub default_profiles: Vec<(String, String)>,
    /// A single default profile as older state files kept it.
    pub legacy_default_profile: Option<String>,
    /// Identities by output name.
    pub known_outputs: Vec<(String, OutputIdentity)>,
    /// The last topology seen for each setup fingerprint.
    pub remembered_setups: Vec<(String, Topology)>,
    pub backend: Option<BackendKind>,
    pub daemon_enabled: bool,
}

impl Default for State {
    fn default() -> (r: Self)
        ensures
            r.wf(),
            r.last_profile is None,
            r.last_topology_fingerprint is None,
            r.default_profiles@.len() == 0,
            r.legacy_default_profile is None,
            r.known_outputs@.len() == 0,
            r.remembered_setups@.len() == 0,
            r.backend is None,
            !r.daemon_enabled,
    {
        State {
            last_profile: None,
            last_topology_fingerprint: None,
            default_profiles: Vec::new(),
            legacy_default_profile: None,
            known_outputs: Vec::new(),
            remembered_setups: Vec::new(),
            backend: None,
            daemon_enabled: false,
        }
    }
}

pub fn identity_eq(a: &OutputIdentity, b: &OutputIdentity) -> (r: bool)
    ensures
        r == (a@ == b@),
{
    opt_str_eq(&a.edid_hash, &b.edid_hash) && opt_str_eq(&a.make, &b.make) && opt_str_eq(
        &a.model,
        &b.model,
    ) && opt_str_eq(&a.serial, &b.serial) && opt_str_eq(&a.connector, &b.connector) && opt_str_eq(
        &a.description,
        &b.description,
    ) && a.is_virtual == b.is_virtual && a.is_ignored == b.is_ignored
}

/// The known identities after remembering the identity of each output of `t`
/// under its name, in order.
pub open spec fn remember_identities(
    known: Seq<(Seq<char>, OutputIdentityView)>,
    t: Seq<(Seq<char>, OutputStateView)>,
) -> Seq<(Seq<char>, OutputIdentityView)>
    decreases t.len(),
{
    if t.len() == 0 {
        known
    } else {
        assoc_set(remember_identities(known, t.drop_last()), t.last().0, t.last().1.identity)
    }
}

/// Some output of `t` is not known under its name with its identity.
pub open spec fn has_new_identity(
    known: Seq<(Seq<char>, OutputIdentityView)>,
    t: Seq<(Seq<char>, OutputStateView)>,
) -> bool {
    exists|i: int| 0 <= i < t.len() && lookup(known, (#[trigger] t[i]).0) != Some(t[i].1.identity)
}

proof fn lemma_remember_lookup(
    known: Seq<(Seq<char>, OutputIdentityView)>,
    t: Seq<(Seq<char>, OutputStateView)>,
    k: Seq<char>,
)
    requires
        distinct_names(crate::assoc::view_names(t)),
    ensures
        forall|i: int|
            0 <= i < t.len() && (#[trigger] t[i]).0 == k ==> lookup(remember_identities(known, t), k)
                == Some(t[i].1.identity),
        (forall|i: int| 0 <= i < t.len() ==> (#[trigger] t[i]).0 != k) ==> lookup(
            remember_identities(known, t),
            k,
        ) == lookup(known, k),
    decreases t.len(),
{
    if t.len() > 0 {
        let p = t.drop_last();
        assert(crate::assoc::view_names(p) =~= crate::assoc::view_names(t).drop_last());
        lemma_remember_lookup(known, p, k);
        lemma_lookup_set(remember_identities(known, p), t.last().0, t.last().1.identity, k);
        assert forall|i: int| 0 <= i < t.len() && (#[trigger] t[i]).0 == k implies lookup(
            remember_identities(known, t),
            k,
        ) == Some(t[i].1.identity) by {
            if i < t.len() - 1 {
                assert(p[i] == t[i]);
                assert(crate::assoc::view_names(t)[i] == t[i].0);
                assert(crate::assoc::view_names(t)[t.len() - 1] == t.last().0);
            }
        }
        if forall|i: int| 0 <= i < t.len() ==> (#[trigger] t[i]).0 != k {
            assert forall|i: int| 0 <= i < p.len() implies (#[trigger] p[i]).0 != k by {
                assert(p[i] == t[i]);
            }
            assert(t[t.len() - 1].0 != k);
        }
    }
}

proof fn lemma_remember_step(
    known0: Seq<(Seq<char>, OutputIdentityView)>,
    t: Seq<(Seq<char>, OutputStateView)>,
    i: int,
)
    requires
        distinct_names(crate::assoc::view_names(t)),
        0 <= i < t.len(),
    ensures
        remember_identities(known0, t.take(i + 1)) == assoc_set(
            remember_identities(known0, t.take(i)),
            t[i].0,
            t[i].1.identity,
        ),
        lookup(remember_identities(known0, t.take(i)), t[i].0) == lookup(known0, t[i].0),
        has_new_identity(known0, t.take(i + 1)) == (has_new_identity(known0, t.take(i)) || lookup(
            known0,
            t[i].0,
        ) != Some(t[i].1.identity)),
{
    let prefix = t.take(i);
    let next = t.take(i + 1);
    assert(next.drop_last() =~= prefix);
    assert(next.last() == t[i]);
    assert(crate::assoc::view_names(prefix) =~= crate::assoc::view_names(t).take(i));
    lemma_remember_lookup(known0, prefix, t[i].0);
    assert forall|j: int| 0 <= j < prefix.len() implies (#[trigger] prefix[j]).0 != t[i].0 by {
        assert(crate::assoc::view_names(t)[j] == t[j].0);
        assert(crate::assoc::view_names(t)[i] == t[i].0);
    }
    if has_new_identity(known0, next) && !has_new_identity(known0, prefix) {
        let w = choose|w: int|
            0 <= w < next.len() && lookup(known0, (#[trigger] next[w]).0) != Some(next[w].1.identity);
        if w < i {
            assert(prefix[w] == next[w]);
        }
    }
    if has_new_identity(known0, prefix) {
        let w = choose|w: int|
            0 <= w < prefix.len() && lookup(known0, (#[trigger] prefix[w]).0) != Some(
                prefix[w].1.identity,
            );
        assert(next[w] == prefix[w]);
    }
    if lookup(known0, t[i].0) != Some(t[i].1.identity) {
        assert(next[i] == t[i]);
    }
}

impl State {
    /// The maps hold each key once.
    pub open spec fn wf(self) -> bool {
        &&& distinct_names(names_of(self.default_profiles@))
        &&& distinct_names(names_of(self.known_outputs@))
        &&& distinct_names(names_of(self.remembered_setups@))
    }

    /// The default profile that applies to every setup.
    pub fn global_default_profile(&self) -> (r: Option<&str>)
        ensures
            match r {
                Some(name) => lookup(kv_views(self.default_profiles@), GLOBAL_DEFAULT_PROFILE_KEY@)
                    == Some(name@),
                None => lookup(kv_views(self.default_profiles@), GLOBAL_DEFAULT_PROFILE_KEY@) is None,
            },
    {
        match assoc_get(&self.default_profiles, GLOBAL_DEFAULT_PROFILE_KEY) {
            Some(name) => Some(name.as_str()),
            None => None,
        }
    }

    /// Moves a default profile kept the old way under the global key, unless
    /// a global default is already set; whether there was one to move.
    pub fn migrate_legacy_default_profile(&mut self) -> (r: bool)
        requires
            old(self).wf(),
        ensures
            final(self).wf(),
            r == (old(self).legacy_default_profile is Some),
            final(self).legacy_default_profile is None,
            kv_views(final(self).default_profiles@) == match opt_view(
                old(self).legacy_default_profile,
            ) {
                Some(name) => if lookup(
                    kv_views(old(self).default_profiles@),
                    GLOBAL_DEFAULT_PROFILE_KEY@,
                ) is Some {
                    kv_views(old(self).default_profiles@)
                } else {
                    assoc_set(
                        kv_views(old(self).default_profiles@),
                        GLOBAL_DEFAULT_PROFILE_KEY@,
                        name,
                    )
                },
                None => kv_views(old(self).default_profiles@),
            },
            final(self).last_profile == old(self).last_profile,
            final(self).last_topology_fingerprint == old(self).last_topology_fingerprint,
            final(self).known_outputs == old(self).known_outputs,
            final(self).remembered_setups == old(self).remembered_setups,
            final(self).backend == old(self).backend,
            final(self).daemon_enabled == old(self).daemon_enabled,
    {
        let legacy = self.legacy_default_profile.take();
        match legacy {
            None => false,
            Some(name) => {
                if assoc_get(&self.default_profiles, GLOBAL_DEFAULT_PROFILE_KEY).is_none() {
                    assoc_insert(
                        &mut self.default_profiles,
                        GLOBAL_DEFAULT_PROFILE_KEY.to_owned(),
                        name,
                    );
                }
                true
            },
        }
    }

    /// Records that `profile_name` was applied, leaving `topology`.
    pub fn record_applied_profile(
        &mut self,
        profile_name: &str,
        backend: Option<BackendKind>,
        topology: &Topology,
    )
        requires
            old(self).wf(),
        ensures
            final(self).wf(),
            opt_view(final(self).last_profile) == Some(profile_name@),
            opt_view(final(self).last_topology_fingerprint) == Some(topology.fingerprint_spec()),
            kv_views(final(self).remembered_setups@) == assoc_set(
                kv_views(old(self).remembered_setups@),
                setup_fingerprint_of(topology@),
                topology@,
            ),
            final(self).backend == backend,
            final(self).default_profiles == old(self).default_profiles,
            final(self).legacy_default_profile == old(self).legacy_default_profile,
            final(self).known_outputs == old(self).known_outputs,
            final(self).daemon_enabled == old(self).daemon_enabled,
    {
        self.last_profile = Some(profile_name.to_owned());
        self.last_topology_fingerprint = Some(topology.fingerprint());
        assoc_insert(&mut self.remembered_setups, topology.setup_fingerprint(), topology.clone());
        self.backend = backend;
    }

    /// Records a topology that was observed rather than applied: no profile
    /// is current any more.
    pub fn record_observed_topology(&mut self, backend: Option<BackendKind>, topology: &Topology)
        requires
            old(self).wf(),
        ensures
            final(self).wf(),
            final(self).last_profile is None,
            opt_view(final(self).last_topology_fingerprint) == Some(topology.fingerprint_spec()),
            kv_views(final(self).remembered_setups@) == assoc_set(
                kv_views(old(self).remembered_setups@),
                setup_fingerprint_of(topology@),
                topology@,
            ),
            final(self).backend == backend,
            final(self).default_profiles == old(self).default_profiles,
            final(self).legacy_default_profile == old(self).legacy_default_profile,
            final(self).known_outputs == old(self).known_outputs,
            final(self).daemon_enabled == old(self).daemon_enabled,
    {
        self.last_profile = None;
        self.last_topology_fingerprint = Some(topology.fingerprint());
        assoc_insert(&mut self.remembered_setups, topology.setup_fingerprint(), topology.clone());
        self.backend = backend;
    }

    /// Sets the default profile for a setup.
    pub fn set_default_profile_for_setup(&mut self, setup_fingerprint: &str, profile_name: &str)
        requires
            old(self).wf(),
        ensures
            final(self).wf(),
            kv_views(final(self).default_profiles@) == assoc_set(
                kv_views(old(self).default_profiles@),
                setup_fingerprint@,
                profile_name@,
            ),
            final(self).last_profile == old(self).last_profile,
            final(self).last_topology_fingerprint == old(self).last_topology_fingerprint,
            final(self).legacy_default_profile == old(self).legacy_default_profile,
            final(self).known_outputs == old(self).known_outputs,
            final(self).remembered_setups == old(self).remembered_setups,
            final(self).backend == old(self).backend,
            final(self).daemon_enabled == old(self).daemon_enabled,
    {
        assoc_insert(&mut self.default_profiles, setup_fingerprint.to_owned(), profile_name.to_owned());
    }

    /// Records that the daemon runs with `backend`.
    pub fn record_daemon_started(&mut self, backend: BackendKind)
        ensures
            final(self).daemon_enabled,
            final(self).backend == Some(backend),
            final(self).last_profile == old(self).last_profile,
            final(self).last_topology_fingerprint == old(self).last_topology_fingerprint,
            final(self).default_profiles == old(self).default_profiles,
            final(self).legacy_default_profile == old(self).legacy_default_profile,
            final(self).known_outputs == old(self).known_outputs,
            final(self).remembered_setups == old(self).remembered_setups,
    {
        self.daemon_enabled = true;
        self.backend = Some(backend);
    }

    /// The topology with identities filled from the known outputs, after which
    /// the identity of each of its outputs is known under the output's name;
    /// and whether that changed what is known.
    pub fn observe_topology(&mut self, topology: &Topology) -> (r: (Topology, bool))
        requires
            old(self).wf(),
            topology.wf(),
        ensures
            final(self).wf(),
            r.0@ == normalized_topology(known_views(old(self).known_outputs@), topology@),
            r.0.wf(),
            kv_views(final(self).known_outputs@) == remember_identities(
                kv_views(old(self).known_outputs@),
                r.0@,
            ),
            r.1 == has_new_identity(kv_views(old(self).known_outputs@), r.0@),
            final(self).last_profile == old(self).last_profile,
            final(self).last_topology_fingerprint == old(self).last_topology_fingerprint,
            final(self).default_profiles == old(self).default_profiles,
            final(self).legacy_default_profile == old(self).legacy_default_profile,
            final(self).remembered_setups == old(self).remembered_setups,
            final(self).backend == old(self).backend,
            final(self).daemon_enabled == old(self).daemon_enabled,
    {
        let normalized = normalize_topology_with_known_outputs(topology, &self.known_outputs);
        let ghost known0 = kv_views(self.known_outputs@);
        let ghost t = normalized@;
        proof {
            assert(kv_views(old(self).known_outputs@) =~= known_views(old(self).known_outputs@));
            assert(crate::assoc::view_names(t) =~= names_of(normalized.outputs@));
        }
        let mut changed = false;
        let mut i: usize = 0;
        while i < normalized.outputs.len()
            invariant
                t == normalized@,
                distinct_names(crate::assoc::view_names(t)),
                distinct_names(names_of(self.known_outputs@)),
                i <= t.len(),
                kv_views(self.known_outputs@) == remember_identities(known0, t.take(i as int)),
                changed == has_new_identity(known0, t.take(i as int)),
                self.last_profile == old(self).last_profile,
                self.last_topology_fingerprint == old(self).last_topology_fingerprint,
                self.default_profiles == old(self).default_profiles,
                self.legacy_default_profile == old(self).legacy_default_profile,
                self.remembered_setups == old(self).remembered_setups,
                self.backend == old(self).backend,
                self.daemon_enabled == old(self).daemon_enabled,
            decreases t.len() - i,
        {
            let name = &normalized.outputs[i].0;
            let identity = &normalized.outputs[i].1.identity;
            assert(t[i as int] == (name@, normalized.outputs@[i as int].1@));
            proof {
                lemma_remember_step(known0, t, i as int);
            }
            let same = match assoc_get(&self.known_outputs, name.as_str()) {
                Some(known) => identity_eq(known, identity),
                None => false,
            };
            if !same {
                assoc_insert(&mut self.known_outputs, name.clone(), identity.clone());
                changed = true;
            } else {
                proof {
                    lemma_set_same(remember_identities(known0, t.take(i as int)), name@, identity@);
                }
            }
            i += 1;
        }
        assert(t.take(t.len() as int) =~= t);
        (normalized, changed)
    }
}

} // verus!
