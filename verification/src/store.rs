//! The saved profiles and their settings: how stored profiles are listed,
//! looked up, saved and removed. Reading and writing the file is the
//! application's; this module is what happens to its contents.
use vstd::prelude::*;

use crate::assoc::{
    assoc_delete, assoc_get, assoc_insert, assoc_remove, assoc_set, distinct_names, kv_views,
    lookup, names_of,
};
use crate::error::CoreError;
use crate::matcher::profile_views;
use crate::model::identity::OutputIdentityView;
use crate::model::OutputIdentity;
use crate::normalize::{canonicalize_profile, known_views, normalized_profile};
use crate::planner::order::names_increasing;
use crate::profile::{Profile, ProfileView};
use crate::state::State;
use crate::text::{
    insert_by, lemma_insert_by_at, lemma_str_lt_asymmetric, lemma_str_lt_irreflexive,
    lemma_str_lt_total, lemma_str_lt_transitive, sort_by, str_eq, str_lt, string_lt, views,
};

verus! {

// ---------------------------------------------------------------------------
// Keeping the elements of a sequence that pass a test
// ---------------------------------------------------------------------------

/// The elements of `s` for which `f` holds, in order.
pub open spec fn keep<T>(s: Seq<T>, f: spec_fn(T) -> bool) -> Seq<T>
    decreases s.len(),
{
    if s.len() == 0 {
        Seq::empty()
    } else {
        let rest = keep(s.drop_last(), f);
        if f(s.last()) {
            rest.push(s.last())
        } else {
            rest
        }
    }
}

pub proof fn lemma_keep_step<T>(s: Seq<T>, f: spec_fn(T) -> bool, i: int)
    requires
        0 <= i < s.len(),
    ensures
        keep(s.take(i + 1), f) == if f(s[i]) {
            keep(s.take(i), f).push(s[i])
        } else {
            keep(s.take(i), f)
        },
{
    assert(s.take(i + 1).drop_last() =~= s.take(i));
    assert(s.take(i + 1).last() == s[i]);
}

pub proof fn lemma_keep_len<T>(s: Seq<T>, f: spec_fn(T) -> bool)
    ensures
        keep(s, f).len() <= s.len(),
        keep(s, f).len() == s.len() <==> forall|i: int| 0 <= i < s.len() ==> f(#[trigger] s[i]),
    decreases s.len(),
{
    if s.len() > 0 {
        let p = s.drop_last();
        lemma_keep_len(p, f);
        if keep(s, f).len() == s.len() {
            assert forall|i: int| 0 <= i < s.len() implies f(#[trigger] s[i]) by {
                if i < p.len() {
                    assert(p[i] == s[i]);
                }
            }
        }
        if forall|i: int| 0 <= i < s.len() ==> f(#[trigger] s[i]) {
            assert forall|i: int| 0 <= i < p.len() implies f(#[trigger] p[i]) by {
                assert(p[i] == s[i]);
            }
            assert(f(s[s.len() - 1]));
        }
    }
}

// ---------------------------------------------------------------------------
// Settings
// ---------------------------------------------------------------------------

#[derive(Debug, PartialEq)]
pub struct ProfilesSettings {
    /// Default profile names by setup fingerprint.
    pub setup_defaults: Vec<(String, String)>,
    /// The output to treat as the built-in display, when configured.
    pub builtin_output: Option<OutputIdentity>,
}

impl Default for ProfilesSettings {
    fn default() -> (r: Self)
        ensures
            r.wf(),
            r.setup_defaults@.len() == 0,
            r.builtin_output is None,
    {
        ProfilesSettings { setup_defaults: Vec::new(), builtin_output: None }
    }
}

pub open spec fn value_is_not(name: Seq<char>) -> spec_fn((Seq<char>, Seq<char>)) -> bool {
    |e: (Seq<char>, Seq<char>)| e.1 != name
}

/// Appending an entry of `from` whose name is at a later position than the
/// names already kept keeps the kept names distinct.
proof fn lemma_push_fresh_name<T>(
    kept: Seq<(String, T)>,
    from: Seq<(String, T)>,
    i: int,
    next: Seq<(String, T)>,
)
    requires
        distinct_names(names_of(kept)),
        distinct_names(names_of(from)),
        0 <= i < from.len(),
        next.len() == kept.len() + 1,
        forall|k: int| 0 <= k < kept.len() ==> next[k] == kept[k],
        next[kept.len() as int].0@ == from[i].0@,
        forall|k: int|
            0 <= k < kept.len() ==> exists|j: int| 0 <= j < i && (#[trigger] kept[k]).0@ == from[j].0@,
    ensures
        distinct_names(names_of(next)),
{
    let ns = names_of(next);
    assert forall|a: int, b: int| 0 <= a < ns.len() && 0 <= b < ns.len() && a != b implies ns[a]
        != ns[b] by {
        if a < kept.len() && b < kept.len() {
            assert(names_of(kept)[a] == kept[a].0@);
            assert(names_of(kept)[b] == kept[b].0@);
        } else {
            let k = if a < kept.len() { a } else { b };
            let j = choose|j: int| 0 <= j < i && (#[trigger] kept[k]).0@ == from[j].0@;
            assert(names_of(from)[j] == from[j].0@);
            assert(names_of(from)[i] == from[i].0@);
        }
    }
}

impl ProfilesSettings {
    /// Setup fingerprints are distinct.
    pub open spec fn wf(self) -> bool {
        distinct_names(names_of(self.setup_defaults@))
    }

    pub open spec fn defaults(self) -> Seq<(Seq<char>, Seq<char>)> {
        kv_views(self.setup_defaults@)
    }

    /// The default profile of a setup.
    pub fn setup_default_profile(&self, setup_fingerprint: &str) -> (r: Option<&str>)
        ensures
            match r {
                Some(name) => lookup(self.defaults(), setup_fingerprint@) == Some(name@),
                None => lookup(self.defaults(), setup_fingerprint@) is None,
            },
    {
        match assoc_get(&self.setup_defaults, setup_fingerprint) {
            Some(name) => Some(name.as_str()),
            None => None,
        }
    }

    /// Sets the default profile of a setup.
    pub fn set_setup_default_profile(&mut self, setup_fingerprint: &str, profile_name: &str)
        requires
            old(self).wf(),
        ensures
            final(self).wf(),
            final(self).defaults() == assoc_set(old(self).defaults(), setup_fingerprint@, profile_name@),
            final(self).builtin_output == old(self).builtin_output,
    {
        assoc_insert(&mut self.setup_defaults, setup_fingerprint.to_owned(), profile_name.to_owned());
    }

    /// Clears the default of a setup where it names `profile_name`.
    pub fn clear_setup_default_if_matches(&mut self, setup_fingerprint: &str, profile_name: &str)
        requires
            old(self).wf(),
        ensures
            final(self).wf(),
            final(self).defaults() == if lookup(old(self).defaults(), setup_fingerprint@) == Some(
                profile_name@,
            ) {
                assoc_remove(old(self).defaults(), setup_fingerprint@)
            } else {
                old(self).defaults()
            },
            final(self).builtin_output == old(self).builtin_output,
    {
        let matches = match assoc_get(&self.setup_defaults, setup_fingerprint) {
            Some(name) => str_eq(name.as_str(), profile_name),
            None => false,
        };
        if matches {
            assoc_delete(&mut self.setup_defaults, setup_fingerprint);
        }
    }

    /// Clears every default that names `profile_name`.
    pub fn clear_all_profile_references(&mut self, profile_name: &str)
        requires
            old(self).wf(),
        ensures
            final(self).wf(),
            final(self).defaults() == keep(old(self).defaults(), value_is_not(profile_name@)),
            final(self).builtin_output == old(self).builtin_output,
    {
        let ghost d = self.defaults();
        let ghost old_entries = self.setup_defaults@;
        let mut kept: Vec<(String, String)> = Vec::new();
        let mut i: usize = 0;
        while i < self.setup_defaults.len()
            invariant
                old_entries == self.setup_defaults@,
                d == kv_views(old_entries),
                distinct_names(names_of(old_entries)),
                i <= old_entries.len(),
                kv_views(kept@) == keep(d.take(i as int), value_is_not(profile_name@)),
                forall|k: int|
                    0 <= k < kept@.len() ==> exists|j: int|
                        0 <= j < i && (#[trigger] kept@[k]).0@ == old_entries[j].0@ && kept@[k].1@
                            == old_entries[j].1@,
                distinct_names(names_of(kept@)),
            decreases old_entries.len() - i,
        {
            proof {
                lemma_keep_step(d, value_is_not(profile_name@), i as int);
            }
            let e = &self.setup_defaults[i];
            assert(d[i as int] == (e.0@, e.1@));
            if !str_eq(e.1.as_str(), profile_name) {
                let ghost old_kept = kept@;
                kept.push((e.0.clone(), e.1.clone()));
                proof {
                    assert(kv_views(kept@) =~= kv_views(old_kept).push(d[i as int]));
                    assert forall|k: int| 0 <= k < kept@.len() implies exists|j: int|
                        0 <= j < i + 1 && (#[trigger] kept@[k]).0@ == old_entries[j].0@
                            && kept@[k].1@ == old_entries[j].1@ by {
                        if k < old_kept.len() {
                            assert(kept@[k] == old_kept[k]);
                        }
                    }
                    lemma_push_fresh_name(old_kept, old_entries, i as int, kept@);
                }
            } else {
                proof {
                    assert forall|k: int| 0 <= k < kept@.len() implies exists|j: int|
                        0 <= j < i + 1 && (#[trigger] kept@[k]).0@ == old_entries[j].0@
                            && kept@[k].1@ == old_entries[j].1@ by {}
                }
            }
            i += 1;
        }
        assert(d.take(d.len() as int) =~= d);
        self.setup_defaults = kept;
    }
}

// ---------------------------------------------------------------------------
// Stored profiles: canonical profiles with their setup fingerprints
// ---------------------------------------------------------------------------

/// A saved profile, canonicalized, with the setup it is for.
#[derive(Debug, PartialEq)]
pub struct StoredProfile {
    pub profile: Profile,
    pub setup_fingerprint: String,
}

pub ghost struct StoredProfileView {
    pub profile: ProfileView,
    pub setup_fingerprint: Seq<char>,
}

impl View for StoredProfile {
    type V = StoredProfileView;

    open spec fn view(&self) -> StoredProfileView {
        StoredProfileView { profile: self.profile@, setup_fingerprint: self.setup_fingerprint@ }
    }
}

impl Clone for StoredProfile {
    fn clone(&self) -> (r: Self)
        ensures
            r@ == self@,
    {
        StoredProfile { profile: self.profile.clone(), setup_fingerprint: self.setup_fingerprint.clone() }
    }
}

pub open spec fn stored_views(v: Seq<StoredProfile>) -> Seq<StoredProfileView> {
    v.map_values(|s: StoredProfile| s@)
}

/// A profile as it is compared and listed: match rules inferred where it has
/// none, identities filled from the known outputs.
pub open spec fn canonical_spec(known: Seq<(Seq<char>, OutputIdentityView)>, p: ProfileView) -> ProfileView {
    normalized_profile(known, p.with_inferred_match_rules_spec())
}

pub open spec fn stored_of(known: Seq<(Seq<char>, OutputIdentityView)>, p: ProfileView) -> StoredProfileView {
    let c = canonical_spec(known, p);
    StoredProfileView { profile: c, setup_fingerprint: c.setup_fingerprint_spec() }
}

/// Listing order: by setup fingerprint, then higher priority first, then by name.
pub open spec fn stored_lt(a: StoredProfileView, b: StoredProfileView) -> bool {
    ||| str_lt(a.setup_fingerprint, b.setup_fingerprint)
    ||| a.setup_fingerprint == b.setup_fingerprint && a.profile.priority > b.profile.priority
    ||| a.setup_fingerprint == b.setup_fingerprint && a.profile.priority == b.profile.priority
        && str_lt(a.profile.name, b.profile.name)
}

pub open spec fn stored_lt_fn() -> spec_fn(StoredProfileView, StoredProfileView) -> bool {
    |a: StoredProfileView, b: StoredProfileView| stored_lt(a, b)
}

/// The stored profiles of `ps`, canonicalized and in listing order (a
/// stable sort).
pub open spec fn stored_profiles_spec(
    known: Seq<(Seq<char>, OutputIdentityView)>,
    ps: Seq<ProfileView>,
) -> Seq<StoredProfileView> {
    sort_by(ps.map_values(|p: ProfileView| stored_of(known, p)), stored_lt_fn())
}

fn stored_before(a: &StoredProfile, b: &StoredProfile) -> (r: bool)
    ensures
        r == stored_lt(a@, b@),
{
    if string_lt(&a.setup_fingerprint, &b.setup_fingerprint) {
        return true;
    }
    if a.setup_fingerprint != b.setup_fingerprint {
        return false;
    }
    if a.profile.priority != b.profile.priority {
        return a.profile.priority > b.profile.priority;
    }
    string_lt(&a.profile.name, &b.profile.name)
}

/// The profiles canonicalized with the known outputs, each with its setup
/// fingerprint, in listing order.
pub fn stored_profiles_with_known_outputs(
    profiles: Vec<Profile>,
    known_outputs: &Vec<(String, OutputIdentity)>,
) -> (r: Vec<StoredProfile>)
    ensures
        stored_views(r@) == stored_profiles_spec(known_views(known_outputs@), profile_views(profiles@)),
{
    let ghost known = known_views(known_outputs@);
    let ghost mapped = profile_views(profiles@).map_values(|p: ProfileView| stored_of(known, p));
    let mut r: Vec<StoredProfile> = Vec::new();
    let n = profiles.len();
    let mut i: usize = 0;
    while i < n
        invariant
            n == profiles@.len(),
            known == known_views(known_outputs@),
            mapped == profile_views(profiles@).map_values(|p: ProfileView| stored_of(known, p)),
            i <= n,
            stored_views(r@) == sort_by(mapped.take(i as int), stored_lt_fn()),
        decreases n - i,
    {
        let profile = canonicalize_profile(&profiles[i], known_outputs);
        let setup_fingerprint = profile.setup_fingerprint();
        let x = StoredProfile { profile, setup_fingerprint };
        assert(x@ == mapped[i as int]);
        let ghost before = stored_views(r@);
        let mut j: usize = 0;
        while j < r.len() && !stored_before(&x, &r[j])
            invariant
                before == stored_views(r@),
                j <= r@.len(),
                forall|k: int| 0 <= k < j ==> !stored_lt(x@, #[trigger] before[k]),
            decreases r@.len() - j,
        {
            j += 1;
        }
        proof {
            assert forall|k: int| 0 <= k < j implies !(stored_lt_fn())(x@, #[trigger] before[k]) by {}
            lemma_insert_by_at(before, x@, stored_lt_fn(), j as int);
        }
        r.insert(j, x);
        i += 1;
        proof {
            let prefix = mapped.take(i as int);
            assert(prefix.drop_last() =~= mapped.take(i - 1));
            assert(prefix.last() == mapped[i - 1]);
            assert(stored_views(r@) =~= before.take(j as int).push(mapped[i - 1]) + before.skip(
                j as int,
            ));
        }
    }
    assert(mapped.take(n as int) =~= mapped);
    r
}

pub open spec fn for_setup(fp: Seq<char>) -> spec_fn(StoredProfileView) -> bool {
    |s: StoredProfileView| s.setup_fingerprint == fp
}

/// The stored profiles for one setup, in order.
pub fn filter_profiles_for_setup(stored: Vec<StoredProfile>, setup_fingerprint: &str) -> (r: Vec<
    StoredProfile,
>)
    ensures
        stored_views(r@) == keep(stored_views(stored@), for_setup(setup_fingerprint@)),
{
    let ghost s = stored_views(stored@);
    let mut r: Vec<StoredProfile> = Vec::new();
    let mut i: usize = 0;
    while i < stored.len()
        invariant
            s == stored_views(stored@),
            i <= s.len(),
            stored_views(r@) == keep(s.take(i as int), for_setup(setup_fingerprint@)),
        decreases s.len() - i,
    {
        proof {
            lemma_keep_step(s, for_setup(setup_fingerprint@), i as int);
        }
        assert(s[i as int] == stored@[i as int]@);
        if str_eq(stored[i].setup_fingerprint.as_str(), setup_fingerprint) {
            let ghost old_r = r@;
            r.push(stored[i].clone());
            assert(stored_views(r@) =~= stored_views(old_r).push(s[i as int]));
        }
        i += 1;
    }
    assert(s.take(s.len() as int) =~= s);
    r
}

pub fn stored_profiles_for_setup_with_known_outputs(
    profiles: Vec<Profile>,
    setup_fingerprint: &str,
    known_outputs: &Vec<(String, OutputIdentity)>,
) -> (r: Vec<StoredProfile>)
    ensures
        stored_views(r@) == keep(
            stored_profiles_spec(known_views(known_outputs@), profile_views(profiles@)),
            for_setup(setup_fingerprint@),
        ),
{
    filter_profiles_for_setup(
        stored_profiles_with_known_outputs(profiles, known_outputs),
        setup_fingerprint,
    )
}

pub open spec fn stored_profile_views(s: Seq<StoredProfileView>) -> Seq<ProfileView> {
    s.map_values(|x: StoredProfileView| x.profile)
}

/// The profiles of stored profiles, in order.
pub fn stored_profiles_to_profiles(stored: Vec<StoredProfile>) -> (r: Vec<Profile>)
    ensures
        profile_views(r@) == stored_profile_views(stored_views(stored@)),
{
    let mut r: Vec<Profile> = Vec::new();
    let mut i: usize = 0;
    while i < stored.len()
        invariant
            i <= stored@.len(),
            r@.len() == i,
            forall|k: int| 0 <= k < i ==> (#[trigger] r@[k])@ == stored@[k]@.profile,
        decreases stored@.len() - i,
    {
        r.push(stored[i].profile.clone());
        i += 1;
    }
    assert(profile_views(r@) =~= stored_profile_views(stored_views(stored@)));
    r
}

pub fn profile_values_for_setup_with_known_outputs(
    profiles: Vec<Profile>,
    setup_fingerprint: &str,
    known_outputs: &Vec<(String, OutputIdentity)>,
) -> (r: Vec<Profile>)
    ensures
        profile_views(r@) == stored_profile_views(
            keep(
                stored_profiles_spec(known_views(known_outputs@), profile_views(profiles@)),
                for_setup(setup_fingerprint@),
            ),
        ),
{
    stored_profiles_to_profiles(
        stored_profiles_for_setup_with_known_outputs(profiles, setup_fingerprint, known_outputs),
    )
}

pub open spec fn named_for_setup(name: Seq<char>, fp: Seq<char>) -> spec_fn(StoredProfileView) -> bool {
    |s: StoredProfileView| s.profile.name == name && s.setup_fingerprint == fp
}

pub open spec fn stored_named(name: Seq<char>) -> spec_fn(StoredProfileView) -> bool {
    |s: StoredProfileView| s.profile.name == name
}

/// The stored profiles that pass `test`, in order.
fn stored_matching(
    stored: &Vec<StoredProfile>,
    name: &str,
    setup_fingerprint: Option<&str>,
) -> (r: Vec<StoredProfile>)
    ensures
        stored_views(r@) == keep(
            stored_views(stored@),
            match setup_fingerprint {
                Some(fp) => named_for_setup(name@, fp@),
                None => stored_named(name@),
            },
        ),
{
    let ghost s = stored_views(stored@);
    let ghost f = match setup_fingerprint {
        Some(fp) => named_for_setup(name@, fp@),
        None => stored_named(name@),
    };
    let mut r: Vec<StoredProfile> = Vec::new();
    let mut i: usize = 0;
    while i < stored.len()
        invariant
            s == stored_views(stored@),
            f == match setup_fingerprint {
                Some(fp) => named_for_setup(name@, fp@),
                None => stored_named(name@),
            },
            i <= s.len(),
            stored_views(r@) == keep(s.take(i as int), f),
        decreases s.len() - i,
    {
        proof {
            lemma_keep_step(s, f, i as int);
        }
        let x = &stored[i];
        assert(s[i as int] == x@);
        let hit = str_eq(x.profile.name.as_str(), name) && match setup_fingerprint {
            Some(fp) => str_eq(x.setup_fingerprint.as_str(), fp),
            None => true,
        };
        if hit {
            let ghost old_r = r@;
            r.push(x.clone());
            assert(stored_views(r@) =~= stored_views(old_r).push(s[i as int]));
        }
        i += 1;
    }
    assert(s.take(s.len() as int) =~= s);
    r
}

/// The first stored profile named `name` for the setup, if any.
pub fn get_for_setup(stored: &Vec<StoredProfile>, name: &str, setup_fingerprint: &str) -> (r: Option<
    StoredProfile,
>)
    ensures
        ({
            let hits = keep(stored_views(stored@), named_for_setup(name@, setup_fingerprint@));
            match r {
                Some(p) => hits.len() > 0 && p@ == hits[0],
                None => hits.len() == 0,
            }
        }),
{
    let mut hits = stored_matching(stored, name, Some(setup_fingerprint));
    if hits.len() == 0 {
        None
    } else {
        Some(hits.remove(0))
    }
}

/// The stored profile named `name`: none, the one, or an error where the
/// name is used for more than one setup.
pub fn get_unique(stored: &Vec<StoredProfile>, name: &str) -> (r: Result<Option<StoredProfile>, CoreError>)
    ensures
        ({
            let hits = keep(stored_views(stored@), stored_named(name@));
            match r {
                Ok(None) => hits.len() == 0,
                Ok(Some(p)) => hits.len() == 1 && p@ == hits[0],
                Err(CoreError::AmbiguousProfile(n)) => hits.len() > 1 && n@ == name@,
                Err(_) => false,
            }
        }),
{
    let mut hits = stored_matching(stored, name, None);
    if hits.len() == 0 {
        Ok(None)
    } else if hits.len() == 1 {
        Ok(Some(hits.remove(0)))
    } else {
        Err(CoreError::AmbiguousProfile(name.to_owned()))
    }
}

// ---------------------------------------------------------------------------
// Profile names
// ---------------------------------------------------------------------------

/// The names, each once, in increasing order (what collecting into a
/// `BTreeSet` gives).
pub fn sorted_unique_names(names: &Vec<String>) -> (r: Vec<String>)
    ensures
        names_increasing(views(r@)),
        forall|n: Seq<char>| #[trigger] views(r@).contains(n) <==> views(names@).contains(n),
{
    let mut r: Vec<String> = Vec::new();
    let mut i: usize = 0;
    while i < names.len()
        invariant
            i <= names@.len(),
            names_increasing(views(r@)),
            forall|n: Seq<char>|
                #[trigger] views(r@).contains(n) <==> views(names@).take(i as int).contains(n),
        decreases names@.len() - i,
    {
        let x = &names[i];
        let ghost before = views(r@);
        let mut j: usize = 0;
        while j < r.len() && string_lt(&r[j], x)
            invariant
                before == views(r@),
                j <= r@.len(),
                forall|k: int| 0 <= k < j ==> str_lt(#[trigger] before[k], x@),
            decreases r@.len() - j,
        {
            assert(before[j as int] == r@[j as int]@);
            j += 1;
        }
        let ghost prefix = views(names@).take(i as int);
        let ghost next = views(names@).take(i + 1);
        assert(next =~= prefix.push(x@));
        if j < r.len() && r[j] == *x {
            assert(before[j as int] == x@);
            proof {
                assert forall|n: Seq<char>| #[trigger] views(r@).contains(n) <==> next.contains(n) by {
                    if next.contains(n) && !prefix.contains(n) {
                        assert(n == x@);
                    }
                    if prefix.contains(n) {
                        let k = choose|k: int| 0 <= k < prefix.len() && prefix[k] == n;
                        assert(next[k] == n);
                    }
                }
            }
        } else {
            proof {
                if j < before.len() {
                    assert(before[j as int] == r@[j as int]@);
                    assert(!str_lt(before[j as int], x@));
                    assert(before[j as int] != x@);
                    lemma_str_lt_total(before[j as int], x@);
                }
                crate::planner::order::lemma_insert_increasing(before, x@, j as int);
            }
            r.insert(j, x.clone());
            proof {
                assert(views(r@) =~= before.take(j as int).push(x@) + before.skip(j as int));
                let after = views(r@);
                assert forall|n: Seq<char>| #[trigger] after.contains(n) <==> next.contains(n) by {
                    if after.contains(n) {
                        let k = choose|k: int| 0 <= k < after.len() && after[k] == n;
                        if k < j {
                            assert(before[k] == n);
                            assert(before.contains(n));
                        } else if k > j {
                            assert(before[k - 1] == n);
                            assert(before.contains(n));
                        } else {
                            assert(next[i as int] == n);
                        }
                        if before.contains(n) {
                            let q = choose|q: int| 0 <= q < prefix.len() && prefix[q] == n;
                            assert(next[q] == n);
                        }
                    }
                    if next.contains(n) {
                        let k = choose|k: int| 0 <= k < next.len() && next[k] == n;
                        if k < i {
                            assert(prefix[k] == n);
                            assert(before.contains(n));
                            let q = choose|q: int| 0 <= q < before.len() && before[q] == n;
                            if q < j {
                                assert(after[q] == n);
                            } else {
                                assert(after[q + 1] == n);
                            }
                        } else {
                            assert(after[j as int] == n);
                        }
                    }
                }
            }
        }
        i += 1;
    }
    assert(views(names@).take(names@.len() as int) =~= views(names@));
    r
}

pub open spec fn profile_names(ps: Seq<ProfileView>) -> Seq<Seq<char>> {
    ps.map_values(|p: ProfileView| p.name)
}

/// The names of the profiles, each once, in increasing order.
pub fn list_names(profiles: &Vec<Profile>) -> (r: Vec<String>)
    ensures
        names_increasing(views(r@)),
        forall|n: Seq<char>| #[trigger] views(r@).contains(n) <==> profile_names(
            profile_views(profiles@),
        ).contains(n),
{
    let mut names: Vec<String> = Vec::new();
    let mut i: usize = 0;
    while i < profiles.len()
        invariant
            i <= profiles@.len(),
            names@.len() == i,
            forall|k: int| 0 <= k < i ==> (#[trigger] names@[k])@ == profiles@[k].name@,
        decreases profiles@.len() - i,
    {
        names.push(profiles[i].name.clone());
        i += 1;
    }
    assert(views(names@) =~= profile_names(profile_views(profiles@)));
    sorted_unique_names(&names)
}

/// The names of the stored profiles, each once, in increasing order.
pub fn list_stored_names(stored: &Vec<StoredProfile>) -> (r: Vec<String>)
    ensures
        names_increasing(views(r@)),
        forall|n: Seq<char>| #[trigger] views(r@).contains(n) <==> profile_names(
            stored_profile_views(stored_views(stored@)),
        ).contains(n),
{
    let mut names: Vec<String> = Vec::new();
    let mut i: usize = 0;
    while i < stored.len()
        invariant
            i <= stored@.len(),
            names@.len() == i,
            forall|k: int| 0 <= k < i ==> (#[trigger] names@[k])@ == stored@[k].profile.name@,
        decreases stored@.len() - i,
    {
        names.push(stored[i].profile.name.clone());
        i += 1;
    }
    assert(views(names@) =~= profile_names(stored_profile_views(stored_views(stored@))));
    sorted_unique_names(&names)
}

// ---------------------------------------------------------------------------
// The contents of the profiles file, and what saving and removing do to them
// ---------------------------------------------------------------------------

#[derive(Debug, PartialEq)]
pub struct ProfilesFile {
    pub profiles: Vec<Profile>,
    pub settings: ProfilesSettings,
}

impl Default for ProfilesFile {
    fn default() -> (r: Self)
        ensures
            r.profiles@.len() == 0,
            r.settings.wf(),
            r.settings.setup_defaults@.len() == 0,
            r.settings.builtin_output is None,
    {
        ProfilesFile { profiles: Vec::new(), settings: ProfilesSettings::default() }
    }
}

/// Not the profile saved under `name` for the setup `fp`.
pub open spec fn other_slot(
    known: Seq<(Seq<char>, OutputIdentityView)>,
    name: Seq<char>,
    fp: Seq<char>,
) -> spec_fn(ProfileView) -> bool {
    |p: ProfileView| !(p.name == name && canonical_spec(known, p).setup_fingerprint_spec() == fp)
}

pub open spec fn not_named(name: Seq<char>) -> spec_fn(ProfileView) -> bool {
    |p: ProfileView| p.name != name
}

pub open spec fn named(name: Seq<char>) -> spec_fn(ProfileView) -> bool {
    |p: ProfileView| p.name == name
}

impl ProfilesFile {
    /// Keeps the profiles that pass `test`; whether any was dropped.
    fn retain_profiles(
        &mut self,
        name: &str,
        setup_fingerprint: Option<&str>,
        known_outputs: &Vec<(String, OutputIdentity)>,
    ) -> (r: bool)
        ensures
            profile_views(final(self).profiles@) == keep(
                profile_views(old(self).profiles@),
                match setup_fingerprint {
                    Some(fp) => other_slot(known_views(known_outputs@), name@, fp@),
                    None => not_named(name@),
                },
            ),
            r == (profile_views(final(self).profiles@).len() != old(self).profiles@.len()),
            final(self).settings == old(self).settings,
    {
        let ghost s = profile_views(self.profiles@);
        let ghost known = known_views(known_outputs@);
        let ghost f = match setup_fingerprint {
            Some(fp) => other_slot(known, name@, fp@),
            None => not_named(name@),
        };
        let mut kept: Vec<Profile> = Vec::new();
        let mut i: usize = 0;
        while i < self.profiles.len()
            invariant
                s == profile_views(self.profiles@),
                known == known_views(known_outputs@),
                f == match setup_fingerprint {
                    Some(fp) => other_slot(known, name@, fp@),
                    None => not_named(name@),
                },
                i <= s.len(),
                profile_views(kept@) == keep(s.take(i as int), f),
            decreases s.len() - i,
        {
            proof {
                lemma_keep_step(s, f, i as int);
            }
            let p = &self.profiles[i];
            assert(s[i as int] == p@);
            let same_name = str_eq(p.name.as_str(), name);
            let drop = match setup_fingerprint {
                Some(fp) => same_name && str_eq(
                    canonicalize_profile(p, known_outputs).setup_fingerprint().as_str(),
                    fp,
                ),
                None => same_name,
            };
            if !drop {
                let ghost old_kept = kept@;
                kept.push(p.clone());
                assert(profile_views(kept@) =~= profile_views(old_kept).push(s[i as int]));
            }
            i += 1;
        }
        assert(s.take(s.len() as int) =~= s);
        proof {
            lemma_keep_len(s, f);
        }
        let changed = kept.len() != self.profiles.len();
        self.profiles = kept;
        changed
    }

    /// Saves a profile: canonicalized, it replaces the profile saved under
    /// its name for its setup and goes last.
    pub fn save_profile(&mut self, profile: &Profile, known_outputs: &Vec<(String, OutputIdentity)>)
        ensures
            ({
                let known = known_views(known_outputs@);
                let c = canonical_spec(known, profile@);
                profile_views(final(self).profiles@) == keep(
                    profile_views(old(self).profiles@),
                    other_slot(known, c.name, c.setup_fingerprint_spec()),
                ).push(c)
            }),
            final(self).settings == old(self).settings,
    {
        let canonical = canonicalize_profile(profile, known_outputs);
        let setup_fingerprint = canonical.setup_fingerprint();
        self.retain_profiles(canonical.name.as_str(), Some(setup_fingerprint.as_str()), known_outputs);
        let ghost before = profile_views(self.profiles@);
        self.profiles.push(canonical);
        assert(profile_views(self.profiles@) =~= before.push(
            canonical_spec(known_views(known_outputs@), profile@),
        ));
    }

    /// Removes the profile saved under `name` for the setup; whether there
    /// was one. Removing it also clears the setup's default where it named
    /// the profile; nothing changes where there was none.
    pub fn remove_for_setup(
        &mut self,
        name: &str,
        setup_fingerprint: &str,
        known_outputs: &Vec<(String, OutputIdentity)>,
    ) -> (r: bool)
        requires
            old(self).settings.wf(),
        ensures
            ({
                let kept = keep(
                    profile_views(old(self).profiles@),
                    other_slot(known_views(known_outputs@), name@, setup_fingerprint@),
                );
                &&& r == (kept.len() != old(self).profiles@.len())
                &&& profile_views(final(self).profiles@) == kept
                &&& final(self).settings.wf()
                &&& final(self).settings.defaults() == if r {
                    if lookup(old(self).settings.defaults(), setup_fingerprint@) == Some(name@) {
                        assoc_remove(old(self).settings.defaults(), setup_fingerprint@)
                    } else {
                        old(self).settings.defaults()
                    }
                } else {
                    old(self).settings.defaults()
                }
                &&& final(self).settings.builtin_output == old(self).settings.builtin_output
            }),
    {
        let removed = self.retain_profiles(name, Some(setup_fingerprint), known_outputs);
        if removed {
            self.settings.clear_setup_default_if_matches(setup_fingerprint, name);
        }
        removed
    }

    /// Removes the profile named `name`, which must name one profile only;
    /// whether there was one. Removing it also clears every default that
    /// named it. Nothing changes on an error or where there was none.
    pub fn remove_unique(&mut self, name: &str) -> (r: Result<bool, CoreError>)
        requires
            old(self).settings.wf(),
        ensures
            ({
                let hits = keep(profile_views(old(self).profiles@), named(name@));
                match r {
                    Err(CoreError::AmbiguousProfile(n)) => hits.len() > 1 && n@ == name@
                        && profile_views(final(self).profiles@) == profile_views(old(self).profiles@)
                        && final(self).settings == old(self).settings,
                    Err(_) => false,
                    Ok(false) => hits.len() == 0 && profile_views(final(self).profiles@)
                        == profile_views(old(self).profiles@) && final(self).settings
                        == old(self).settings,
                    Ok(true) => hits.len() == 1 && profile_views(final(self).profiles@) == keep(
                        profile_views(old(self).profiles@),
                        not_named(name@),
                    ) && final(self).settings.wf() && final(self).settings.defaults() == keep(
                        old(self).settings.defaults(),
                        value_is_not(name@),
                    ) && final(self).settings.builtin_output == old(
                        self,
                    ).settings.builtin_output,
                }
            }),
    {
        let ghost s = profile_views(self.profiles@);
        let mut count: usize = 0;
        let mut i: usize = 0;
        while i < self.profiles.len()
            invariant
                s == profile_views(self.profiles@),
                i <= s.len(),
                count == keep(s.take(i as int), named(name@)).len(),
                count <= i,
            decreases s.len() - i,
        {
            proof {
                lemma_keep_step(s, named(name@), i as int);
            }
            assert(s[i as int] == self.profiles@[i as int]@);
            if str_eq(self.profiles[i].name.as_str(), name) {
                count += 1;
            }
            i += 1;
        }
        assert(s.take(s.len() as int) =~= s);
        if count > 1 {
            return Err(CoreError::AmbiguousProfile(name.to_owned()));
        }
        let no_known: Vec<(String, OutputIdentity)> = Vec::new();
        let removed = self.retain_profiles(name, None, &no_known);
        proof {
            lemma_keep_complement(s, name@);
        }
        if !removed {
            proof {
                lemma_keep_all(s, not_named(name@));
            }
            return Ok(false);
        }
        self.settings.clear_all_profile_references(name);
        Ok(true)
    }
}

pub proof fn lemma_keep_complement(s: Seq<ProfileView>, name: Seq<char>)
    ensures
        keep(s, named(name)).len() + keep(s, not_named(name)).len() == s.len(),
    decreases s.len(),
{
    if s.len() > 0 {
        lemma_keep_complement(s.drop_last(), name);
    }
}

pub proof fn lemma_keep_all<T>(s: Seq<T>, f: spec_fn(T) -> bool)
    requires
        keep(s, f).len() == s.len(),
    ensures
        keep(s, f) == s,
    decreases s.len(),
{
    if s.len() > 0 {
        lemma_keep_len(s.drop_last(), f);
        lemma_keep_len(s, f);
        lemma_keep_all(s.drop_last(), f);
        assert(s.drop_last().push(s.last()) =~= s);
    }
}

/// Everything `keep` keeps passes the test.
pub proof fn lemma_keep_members<T>(s: Seq<T>, f: spec_fn(T) -> bool)
    ensures
        forall|i: int| 0 <= i < keep(s, f).len() ==> f(#[trigger] keep(s, f)[i]),
    decreases s.len(),
{
    if s.len() > 0 {
        lemma_keep_members(s.drop_last(), f);
        let r = keep(s.drop_last(), f);
        assert forall|i: int| 0 <= i < keep(s, f).len() implies f(#[trigger] keep(s, f)[i]) by {
            if i < r.len() {
                assert(keep(s, f)[i] == r[i]);
            }
        }
    }
}

/// A saved profile takes its slot alone: after a save (as
/// `ProfilesFile::save_profile` states it), the canonical profile comes last
/// and no other profile has its name and, canonicalized with the same known
/// outputs, its setup fingerprint.
pub proof fn lemma_saved_profile_is_alone_in_its_slot(
    before: Seq<ProfileView>,
    known: Seq<(Seq<char>, OutputIdentityView)>,
    p: ProfileView,
)
    ensures
        ({
            let c = canonical_spec(known, p);
            let fp = c.setup_fingerprint_spec();
            let after = keep(before, other_slot(known, c.name, fp)).push(c);
            &&& after.last() == c
            &&& forall|i: int|
                0 <= i < after.len() - 1 ==> !((#[trigger] after[i]).name == c.name && canonical_spec(
                    known,
                    after[i],
                ).setup_fingerprint_spec() == fp)
        }),
{
    let c = canonical_spec(known, p);
    let fp = c.setup_fingerprint_spec();
    let f = other_slot(known, c.name, fp);
    let kept = keep(before, f);
    lemma_keep_members(before, f);
    let after = kept.push(c);
    assert forall|i: int| 0 <= i < after.len() - 1 implies !((#[trigger] after[i]).name == c.name
        && canonical_spec(known, after[i]).setup_fingerprint_spec() == fp) by {
        assert(after[i] == kept[i]);
        assert(f(kept[i]));
    }
}

proof fn lemma_keep_concat<T>(a: Seq<T>, b: Seq<T>, f: spec_fn(T) -> bool)
    ensures
        keep(a + b, f) == keep(a, f) + keep(b, f),
    decreases b.len(),
{
    if b.len() == 0 {
        assert(a + b =~= a);
        assert(keep(a, f) + keep(b, f) =~= keep(a, f));
    } else {
        lemma_keep_concat(a, b.drop_last(), f);
        assert((a + b).drop_last() =~= a + b.drop_last());
        assert((a + b).last() == b.last());
        if f(b.last()) {
            assert(keep(a, f) + keep(b.drop_last(), f).push(b.last()) =~= (keep(a, f) + keep(
                b.drop_last(),
                f,
            )).push(b.last()));
        }
    }
}

/// Where a stable insertion puts the new element.
proof fn lemma_insert_by_split<T>(s: Seq<T>, x: T, lt: spec_fn(T, T) -> bool) -> (j: int)
    ensures
        0 <= j <= s.len(),
        insert_by(s, x, lt) == s.take(j) + seq![x] + s.skip(j),
    decreases s.len(),
{
    if s.len() == 0 {
        assert(s.take(0) + seq![x] + s.skip(0) =~= seq![x]);
        0
    } else if lt(x, s[0]) {
        assert(s.take(0) + seq![x] + s.skip(0) =~= seq![x] + s);
        0
    } else {
        let t = s.drop_first();
        let k = lemma_insert_by_split(t, x, lt);
        assert(seq![s[0]] + (t.take(k) + seq![x] + t.skip(k)) =~= s.take(k + 1) + seq![x] + s.skip(
            k + 1,
        ));
        k + 1
    }
}

/// Inserting an element that fails the test leaves what passes it as it
/// was; inserting one that passes adds it to what passes.
proof fn lemma_keep_insert<T>(s: Seq<T>, x: T, lt: spec_fn(T, T) -> bool, f: spec_fn(T) -> bool)
    ensures
        !f(x) ==> keep(insert_by(s, x, lt), f) == keep(s, f),
        f(x) ==> keep(insert_by(s, x, lt), f).len() == keep(s, f).len() + 1,
        f(x) && keep(s, f).len() == 0 ==> keep(insert_by(s, x, lt), f) == seq![x],
{
    let j = lemma_insert_by_split(s, x, lt);
    let a = s.take(j);
    let b = s.skip(j);
    assert(s =~= a + b);
    lemma_keep_concat(a, b, f);
    lemma_keep_concat(a + seq![x], b, f);
    lemma_keep_concat(a, seq![x], f);
    assert(seq![x].drop_last() =~= Seq::<T>::empty());
    assert(keep(Seq::<T>::empty(), f) =~= Seq::<T>::empty());
    assert(seq![x].last() == x);
    if !f(x) {
        assert(keep(seq![x], f) =~= Seq::<T>::empty());
        assert(keep(a, f) + Seq::<T>::empty() =~= keep(a, f));
    } else {
        assert(keep(seq![x], f) =~= seq![x]);
        if keep(s, f).len() == 0 {
            assert(keep(a, f) + seq![x] + keep(b, f) =~= seq![x]);
        }
    }
}

/// Sorting keeps how many elements pass a test.
proof fn lemma_keep_sort_len<T>(s: Seq<T>, lt: spec_fn(T, T) -> bool, f: spec_fn(T) -> bool)
    ensures
        keep(sort_by(s, lt), f).len() == keep(s, f).len(),
    decreases s.len(),
{
    if s.len() > 0 {
        lemma_keep_sort_len(s.drop_last(), lt, f);
        lemma_keep_insert(sort_by(s.drop_last(), lt), s.last(), lt, f);
    }
}

/// Where one element alone passes a test, it alone passes it after sorting.
proof fn lemma_keep_sort_single<T>(s: Seq<T>, lt: spec_fn(T, T) -> bool, f: spec_fn(T) -> bool, x: T)
    requires
        keep(s, f) == seq![x],
    ensures
        keep(sort_by(s, lt), f) == seq![x],
    decreases s.len(),
{
    assert(s.len() > 0) by {
        if s.len() == 0 {
            assert(keep(s, f).len() == 0);
        }
    }
    let d = s.drop_last();
    assert(keep(s, f) == if f(s.last()) {
        keep(d, f).push(s.last())
    } else {
        keep(d, f)
    });
    if f(s.last()) {
        assert(keep(d, f).len() == 0);
        assert(s.last() == keep(s, f)[0]);
        lemma_keep_sort_len(d, lt, f);
        lemma_keep_insert(sort_by(d, lt), s.last(), lt, f);
    } else {
        lemma_keep_sort_single(d, lt, f, x);
        lemma_keep_insert(sort_by(d, lt), s.last(), lt, f);
    }
}

proof fn lemma_keep_none<T>(s: Seq<T>, f: spec_fn(T) -> bool)
    requires
        forall|i: int| 0 <= i < s.len() ==> !f(#[trigger] s[i]),
    ensures
        keep(s, f).len() == 0,
    decreases s.len(),
{
    if s.len() > 0 {
        assert(!f(s[s.len() - 1]));
        lemma_keep_none(s.drop_last(), f);
    }
}

/// A saved profile is read back: after a save (as
/// `ProfilesFile::save_profile` states it), the stored profiles hold exactly
/// one entry with the profile's name for its setup, and it is the saved
/// profile (canonicalized once more, as every stored profile is) — wherever
/// canonicalizing the saved profile again keeps its setup fingerprint.
pub proof fn lemma_saved_profile_is_found(
    before: Seq<ProfileView>,
    known: Seq<(Seq<char>, OutputIdentityView)>,
    p: ProfileView,
)
    requires
        ({
            let c = canonical_spec(known, p);
            canonical_spec(known, c).setup_fingerprint_spec() == c.setup_fingerprint_spec()
        }),
    ensures
        ({
            let c = canonical_spec(known, p);
            let fp = c.setup_fingerprint_spec();
            let after = keep(before, other_slot(known, c.name, fp)).push(c);
            keep(stored_profiles_spec(known, after), named_for_setup(c.name, fp)) == seq![
                stored_of(known, c),
            ]
        }),
{
    let c = canonical_spec(known, p);
    let fp = c.setup_fingerprint_spec();
    let f = other_slot(known, c.name, fp);
    let g = named_for_setup(c.name, fp);
    let kept = keep(before, f);
    let after = kept.push(c);
    let to_stored = |q: ProfileView| stored_of(known, q);
    let m = after.map_values(to_stored);
    lemma_keep_members(before, f);
    let km = kept.map_values(to_stored);
    assert forall|i: int| 0 <= i < km.len() implies !g(#[trigger] km[i]) by {
        assert(f(kept[i]));
    }
    lemma_keep_none(km, g);
    assert(m =~= km.push(stored_of(known, c)));
    assert(m.drop_last() =~= km);
    assert(g(stored_of(known, c)));
    assert(keep(m, g) =~= seq![stored_of(known, c)]);
    lemma_keep_sort_single(m, stored_lt_fn(), g, stored_of(known, c));
}

proof fn lemma_keep_passing<T>(s: Seq<T>, f: spec_fn(T) -> bool)
    requires
        forall|i: int| 0 <= i < s.len() ==> f(#[trigger] s[i]),
    ensures
        keep(s, f) == s,
    decreases s.len(),
{
    if s.len() > 0 {
        assert(f(s[s.len() - 1]));
        lemma_keep_passing(s.drop_last(), f);
        assert(s.drop_last().push(s.last()) =~= s);
    }
}

/// Saving is idempotent: saving a profile again (with the same known
/// outputs) leaves the profiles as the first save left them — wherever
/// canonicalizing the saved profile again keeps its setup fingerprint.
pub proof fn lemma_save_twice_is_save_once(
    before: Seq<ProfileView>,
    known: Seq<(Seq<char>, OutputIdentityView)>,
    p: ProfileView,
)
    requires
        ({
            let c = canonical_spec(known, p);
            canonical_spec(known, c).setup_fingerprint_spec() == c.setup_fingerprint_spec()
        }),
    ensures
        ({
            let c = canonical_spec(known, p);
            let f = other_slot(known, c.name, c.setup_fingerprint_spec());
            let once = keep(before, f).push(c);
            keep(once, f).push(c) == once
        }),
{
    let c = canonical_spec(known, p);
    let f = other_slot(known, c.name, c.setup_fingerprint_spec());
    let kept = keep(before, f);
    let once = kept.push(c);
    lemma_keep_members(before, f);
    lemma_keep_passing(kept, f);
    assert(once.drop_last() =~= kept);
    assert(!f(c));
}

/// Once a profile is removed by name (as `ProfilesFile::remove_unique`
/// states it), no profile has that name and no setup default names it.
pub proof fn lemma_removed_profile_leaves_no_reference(
    profiles: Seq<ProfileView>,
    defaults: Seq<(Seq<char>, Seq<char>)>,
    name: Seq<char>,
)
    ensures
        forall|i: int|
            0 <= i < keep(profiles, not_named(name)).len() ==> (#[trigger] keep(
                profiles,
                not_named(name),
            )[i]).name != name,
        forall|i: int|
            0 <= i < keep(defaults, value_is_not(name)).len() ==> (#[trigger] keep(
                defaults,
                value_is_not(name),
            )[i]).1 != name,
{
    lemma_keep_members(profiles, not_named(name));
    lemma_keep_members(defaults, value_is_not(name));
}

// ---------------------------------------------------------------------------
// Query context
// ---------------------------------------------------------------------------

/// What profile queries are answered with: the known output identities.
pub struct ProfileQueryContext {
    known_outputs: Vec<(String, OutputIdentity)>,
}

pub fn copy_known(v: &Vec<(String, OutputIdentity)>) -> (r: Vec<(String, OutputIdentity)>)
    ensures
        known_views(r@) == known_views(v@),
        names_of(r@) == names_of(v@),
{
    let mut r: Vec<(String, OutputIdentity)> = Vec::new();
    let mut i: usize = 0;
    while i < v.len()
        invariant
            i <= v@.len(),
            r@.len() == i,
            forall|k: int|
                0 <= k < i ==> (#[trigger] r@[k]).0@ == v@[k].0@ && r@[k].1@ == v@[k].1@,
        decreases v@.len() - i,
    {
        r.push((v[i].0.clone(), v[i].1.clone()));
        i += 1;
    }
    assert(known_views(r@) =~= known_views(v@));
    assert(names_of(r@) =~= names_of(v@));
    r
}

impl Default for ProfileQueryContext {
    fn default() -> (r: Self)
        ensures
            r.known().len() == 0,
    {
        ProfileQueryContext { known_outputs: Vec::new() }
    }
}

impl ProfileQueryContext {
    pub closed spec fn known(&self) -> Seq<(Seq<char>, OutputIdentityView)> {
        known_views(self.known_outputs@)
    }

    /// The context of the given state's known outputs.
    pub fn from_state(state: &State) -> (r: Self)
        ensures
            r.known() == known_views(state.known_outputs@),
    {
        ProfileQueryContext { known_outputs: copy_known(&state.known_outputs) }
    }

    pub fn known_outputs(&self) -> (r: &Vec<(String, OutputIdentity)>)
        ensures
            known_views(r@) == self.known(),
    {
        &self.known_outputs
    }
}

} // verus!
