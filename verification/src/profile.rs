//! Saved profiles: which outputs a profile applies to (match rules), the
//! layout it sets, and the hooks that run around applying it.
use vstd::prelude::*;

use crate::assoc::names_of;
use crate::model::identity::OutputIdentityView;
use crate::model::{
    is_real_output, OutputIdentity, OutputState, OutputStateView, Position, VirtualPreset,
};
use crate::text::{sort_by, sort_strings, str_lt_fn, views};

verus! {

#[derive(Debug, PartialEq)]
pub struct OutputMatcher {
    pub identity: OutputIdentity,
    pub required: bool,
    pub position_hint: Option<Position>,
}

pub ghost struct OutputMatcherView {
    pub identity: OutputIdentityView,
    pub required: bool,
    pub position_hint: Option<Position>,
}

impl View for OutputMatcher {
    type V = OutputMatcherView;

    open spec fn view(&self) -> OutputMatcherView {
        OutputMatcherView {
            identity: self.identity@,
            required: self.required,
            position_hint: self.position_hint,
        }
    }
}

impl Clone for OutputMatcher {
    fn clone(&self) -> (r: Self)
        ensures
            r@ == self@,
    {
        OutputMatcher {
            identity: self.identity.clone(),
            required: self.required,
            position_hint: self.position_hint,
        }
    }
}

impl OutputMatcher {
    pub fn new(identity: OutputIdentity, required: bool, position_hint: Option<Position>) -> (r:
        Self)
        ensures
            r.identity == identity,
            r.required == required,
            r.position_hint == position_hint,
    {
        OutputMatcher { identity, required, position_hint }
    }
}

#[derive(Debug, PartialEq)]
pub struct OutputConfig {
    pub state: OutputState,
    pub preset: Option<VirtualPreset>,
}

pub ghost struct OutputConfigView {
    pub state: OutputStateView,
    pub preset: Option<VirtualPreset>,
}

impl View for OutputConfig {
    type V = OutputConfigView;

    open spec fn view(&self) -> OutputConfigView {
        OutputConfigView { state: self.state@, preset: self.preset }
    }
}

impl Clone for OutputConfig {
    fn clone(&self) -> (r: Self)
        ensures
            r@ == self@,
    {
        OutputConfig { state: self.state.clone(), preset: self.preset }
    }
}

impl OutputConfig {
    /// A layout entry that sets `state` (what `From<OutputState>` gives).
    pub fn from_state(state: OutputState) -> (r: Self)
        ensures
            r.state == state,
            r.preset is None,
    {
        OutputConfig { state, preset: None }
    }
}

#[derive(Debug, PartialEq)]
pub struct Hook {
    pub command: String,
    pub args: Vec<String>,
    pub timeout_secs: u64,
}

pub ghost struct HookView {
    pub command: Seq<char>,
    pub args: Seq<Seq<char>>,
    pub timeout_secs: u64,
}

impl View for Hook {
    type V = HookView;

    open spec fn view(&self) -> HookView {
        HookView { command: self.command@, args: views(self.args@), timeout_secs: self.timeout_secs }
    }
}

pub fn copy_strings(v: &Vec<String>) -> (r: Vec<String>)
    ensures
        views(r@) == views(v@),
{
    let mut r: Vec<String> = Vec::new();
    let mut i: usize = 0;
    while i < v.len()
        invariant
            i <= v@.len(),
            r@.len() == i,
            forall|j: int| 0 <= j < i ==> (#[trigger] r@[j])@ == v@[j]@,
        decreases v@.len() - i,
    {
        let s = v[i].clone();
        r.push(s);
        i += 1;
    }
    assert(views(r@) =~= views(v@));
    r
}

impl Clone for Hook {
    fn clone(&self) -> (r: Self)
        ensures
            r@ == self@,
    {
        Hook {
            command: self.command.clone(),
            args: copy_strings(&self.args),
            timeout_secs: self.timeout_secs,
        }
    }
}

/// The timeout of a hook when none is configured, in seconds.
pub const DEFAULT_HOOK_TIMEOUT_SECS: u64 = 30;

/// The shortest timeout a hook runs with, in seconds.
pub const MIN_HOOK_TIMEOUT_SECS: u64 = 1;

/// The longest timeout a hook runs with, in seconds.
pub const MAX_HOOK_TIMEOUT_SECS: u64 = 300;

impl Hook {
    /// A hook running `command` without arguments and with the default timeout.
    pub fn new(command: &str) -> (r: Self)
        ensures
            r.command@ == command@,
            r.args@.len() == 0,
            r.timeout_secs == DEFAULT_HOOK_TIMEOUT_SECS,
    {
        Hook { command: command.to_owned(), args: Vec::new(), timeout_secs: DEFAULT_HOOK_TIMEOUT_SECS }
    }

    /// The configured timeout clamped to 1..=300 seconds.
    pub open spec fn effective_timeout_secs_spec(&self) -> u64 {
        if self.timeout_secs < MIN_HOOK_TIMEOUT_SECS {
            MIN_HOOK_TIMEOUT_SECS
        } else if self.timeout_secs > MAX_HOOK_TIMEOUT_SECS {
            MAX_HOOK_TIMEOUT_SECS
        } else {
            self.timeout_secs
        }
    }

    /// The timeout the hook runs with: the configured one, clamped to 1..=300 seconds.
    pub fn effective_timeout_secs(&self) -> (r: u64)
        ensures
            r == self.effective_timeout_secs_spec(),
            MIN_HOOK_TIMEOUT_SECS <= r <= MAX_HOOK_TIMEOUT_SECS,
    {
        if self.timeout_secs < MIN_HOOK_TIMEOUT_SECS {
            MIN_HOOK_TIMEOUT_SECS
        } else if self.timeout_secs > MAX_HOOK_TIMEOUT_SECS {
            MAX_HOOK_TIMEOUT_SECS
        } else {
            self.timeout_secs
        }
    }
}

pub open spec fn hook_views(v: Seq<Hook>) -> Seq<HookView> {
    v.map_values(|h: Hook| h@)
}

pub fn copy_hooks(v: &Vec<Hook>) -> (r: Vec<Hook>)
    ensures
        hook_views(r@) == hook_views(v@),
{
    let mut r: Vec<Hook> = Vec::new();
    let mut i: usize = 0;
    while i < v.len()
        invariant
            i <= v@.len(),
            r@.len() == i,
            forall|j: int| 0 <= j < i ==> (#[trigger] r@[j])@ == v@[j]@,
        decreases v@.len() - i,
    {
        let h = v[i].clone();
        r.push(h);
        i += 1;
    }
    assert(hook_views(r@) =~= hook_views(v@));
    r
}

#[derive(Debug, PartialEq)]
pub struct Hooks {
    pub pre_apply: Vec<Hook>,
    pub post_apply: Vec<Hook>,
    pub on_failure: Vec<Hook>,
}

pub ghost struct HooksView {
    pub pre_apply: Seq<HookView>,
    pub post_apply: Seq<HookView>,
    pub on_failure: Seq<HookView>,
}

impl View for Hooks {
    type V = HooksView;

    open spec fn view(&self) -> HooksView {
        HooksView {
            pre_apply: hook_views(self.pre_apply@),
            post_apply: hook_views(self.post_apply@),
            on_failure: hook_views(self.on_failure@),
        }
    }
}

impl Clone for Hooks {
    fn clone(&self) -> (r: Self)
        ensures
            r@ == self@,
    {
        Hooks {
            pre_apply: copy_hooks(&self.pre_apply),
            post_apply: copy_hooks(&self.post_apply),
            on_failure: copy_hooks(&self.on_failure),
        }
    }
}

impl Default for Hooks {
    fn default() -> (r: Self)
        ensures
            r@.pre_apply.len() == 0 && r@.post_apply.len() == 0 && r@.on_failure.len() == 0,
    {
        Hooks { pre_apply: Vec::new(), post_apply: Vec::new(), on_failure: Vec::new() }
    }
}

impl Hooks {
    pub open spec fn is_empty_spec(self) -> bool {
        self@.pre_apply.len() == 0 && self@.post_apply.len() == 0 && self@.on_failure.len() == 0
    }
}

#[derive(Debug, PartialEq)]
pub struct Profile {
    pub name: String,
    pub priority: u32,
    pub match_rules: Vec<OutputMatcher>,
    pub layout: Vec<(String, OutputConfig)>,
    pub hooks: Hooks,
}

pub ghost struct ProfileView {
    pub name: Seq<char>,
    pub priority: u32,
    pub match_rules: Seq<OutputMatcherView>,
    pub layout: Seq<(Seq<char>, OutputConfigView)>,
    pub hooks: HooksView,
}

pub open spec fn matcher_views(v: Seq<OutputMatcher>) -> Seq<OutputMatcherView> {
    v.map_values(|m: OutputMatcher| m@)
}

pub open spec fn layout_views(v: Seq<(String, OutputConfig)>) -> Seq<(Seq<char>, OutputConfigView)> {
    v.map_values(|e: (String, OutputConfig)| (e.0@, e.1@))
}

impl View for Profile {
    type V = ProfileView;

    open spec fn view(&self) -> ProfileView {
        ProfileView {
            name: self.name@,
            priority: self.priority,
            match_rules: matcher_views(self.match_rules@),
            layout: layout_views(self.layout@),
            hooks: self.hooks@,
        }
    }
}

pub fn copy_matchers(v: &Vec<OutputMatcher>) -> (r: Vec<OutputMatcher>)
    ensures
        matcher_views(r@) == matcher_views(v@),
{
    let mut r: Vec<OutputMatcher> = Vec::new();
    let mut i: usize = 0;
    while i < v.len()
        invariant
            i <= v@.len(),
            r@.len() == i,
            forall|j: int| 0 <= j < i ==> (#[trigger] r@[j])@ == v@[j]@,
        decreases v@.len() - i,
    {
        let m = v[i].clone();
        r.push(m);
        i += 1;
    }
    assert(matcher_views(r@) =~= matcher_views(v@));
    r
}

pub fn copy_layout(v: &Vec<(String, OutputConfig)>) -> (r: Vec<(String, OutputConfig)>)
    ensures
        layout_views(r@) == layout_views(v@),
{
    let mut r: Vec<(String, OutputConfig)> = Vec::new();
    let mut i: usize = 0;
    while i < v.len()
        invariant
            i <= v@.len(),
            r@.len() == i,
            forall|j: int| 0 <= j < i ==> (#[trigger] r@[j]).0@ == v@[j].0@ && r@[j].1@ == v@[j].1@,
        decreases v@.len() - i,
    {
        let name = v[i].0.clone();
        let config = v[i].1.clone();
        r.push((name, config));
        i += 1;
    }
    assert(layout_views(r@) =~= layout_views(v@));
    r
}

impl Clone for Profile {
    fn clone(&self) -> (r: Self)
        ensures
            r@ == self@,
    {
        Profile {
            name: self.name.clone(),
            priority: self.priority,
            match_rules: copy_matchers(&self.match_rules),
            layout: copy_layout(&self.layout),
            hooks: self.hooks.clone(),
        }
    }
}

/// Primary keys of the real outputs among the layout entries, in order.
pub open spec fn real_layout_keys(s: Seq<(Seq<char>, OutputConfigView)>) -> Seq<Seq<char>>
    decreases s.len(),
{
    if s.len() == 0 {
        Seq::empty()
    } else {
        let rest = real_layout_keys(s.drop_last());
        if is_real_output(s.last().1.state) {
            rest.push(s.last().1.state.identity.primary_key_spec())
        } else {
            rest
        }
    }
}

pub open spec fn is_real_identity(i: OutputIdentityView) -> bool {
    !i.is_ignored && !i.is_virtual
}

/// Primary keys of the match rules for real outputs, in order.
pub open spec fn real_matcher_keys(s: Seq<OutputMatcherView>) -> Seq<Seq<char>>
    decreases s.len(),
{
    if s.len() == 0 {
        Seq::empty()
    } else {
        let rest = real_matcher_keys(s.drop_last());
        if is_real_identity(s.last().identity) {
            rest.push(s.last().identity.primary_key_spec())
        } else {
            rest
        }
    }
}

/// The match rule inferred for a layout entry.
pub open spec fn inferred_matcher(c: OutputConfigView) -> OutputMatcherView {
    OutputMatcherView {
        identity: c.state.identity,
        required: c.state.enabled,
        position_hint: Some(c.state.position),
    }
}

/// Match rules inferred from the layout entries of real outputs, in order.
pub open spec fn inferred_matchers(s: Seq<(Seq<char>, OutputConfigView)>) -> Seq<OutputMatcherView>
    decreases s.len(),
{
    if s.len() == 0 {
        Seq::empty()
    } else {
        let rest = inferred_matchers(s.drop_last());
        if is_real_output(s.last().1.state) {
            rest.push(inferred_matcher(s.last().1))
        } else {
            rest
        }
    }
}

impl ProfileView {
    /// The setup the profile is for: the sorted primary keys of its real
    /// outputs (from the match rules, or from the layout when there are none),
    /// joined by `;`.
    pub open spec fn setup_fingerprint_spec(self) -> Seq<char> {
        let keys = if self.match_rules.len() == 0 {
            real_layout_keys(self.layout)
        } else {
            real_matcher_keys(self.match_rules)
        };
        crate::text::join(sort_by(keys, str_lt_fn()), ";"@)
    }

    /// The profile with match rules inferred from its layout when it has none.
    pub open spec fn with_inferred_match_rules_spec(self) -> ProfileView {
        if self.match_rules.len() > 0 {
            self
        } else {
            ProfileView { match_rules: inferred_matchers(self.layout), ..self }
        }
    }
}

impl Profile {
    /// Layout names are distinct.
    pub open spec fn wf(self) -> bool {
        crate::assoc::distinct_names(names_of(self.layout@))
    }

    /// A profile without hooks.
    pub fn new(
        name: &str,
        priority: u32,
        match_rules: Vec<OutputMatcher>,
        layout: Vec<(String, OutputConfig)>,
    ) -> (r: Self)
        ensures
            r.name@ == name@,
            r.priority == priority,
            r.match_rules == match_rules,
            r.layout == layout,
            r.hooks.is_empty_spec(),
    {
        Profile { name: name.to_owned(), priority, match_rules, layout, hooks: Hooks::default() }
    }

    /// The setup fingerprint the profile belongs to.
    pub fn setup_fingerprint(&self) -> (r: String)
        ensures
            r@ == self@.setup_fingerprint_spec(),
    {
        let mut keys: Vec<String> = Vec::new();
        if self.match_rules.len() == 0 {
            let ghost s = layout_views(self.layout@);
            let n = self.layout.len();
            let mut i: usize = 0;
            while i < n
                invariant
                    n == self.layout@.len(),
                    s == layout_views(self.layout@),
                    i <= n,
                    views(keys@) == real_layout_keys(s.take(i as int)),
                decreases n - i,
            {
                let c = &self.layout[i].1;
                assert(s[i as int] == (self.layout@[i as int].0@, c@));
                let ghost prefix = s.take(i + 1);
                assert(prefix.drop_last() =~= s.take(i as int));
                if !c.state.identity.is_ignored && !c.state.identity.is_virtual {
                    keys.push(c.state.identity.primary_key());
                }
                i += 1;
                assert(views(keys@) =~= real_layout_keys(s.take(i as int)));
            }
            assert(s.take(n as int) =~= s);
        } else {
            let ghost s = matcher_views(self.match_rules@);
            let n = self.match_rules.len();
            let mut i: usize = 0;
            while i < n
                invariant
                    n == self.match_rules@.len(),
                    s == matcher_views(self.match_rules@),
                    i <= n,
                    views(keys@) == real_matcher_keys(s.take(i as int)),
                decreases n - i,
            {
                let m = &self.match_rules[i];
                assert(s[i as int] == m@);
                let ghost prefix = s.take(i + 1);
                assert(prefix.drop_last() =~= s.take(i as int));
                if !m.identity.is_ignored && !m.identity.is_virtual {
                    keys.push(m.identity.primary_key());
                }
                i += 1;
                assert(views(keys@) =~= real_matcher_keys(s.take(i as int)));
            }
            assert(s.take(n as int) =~= s);
        }
        let sorted = sort_strings(keys);
        crate::text::join_strings(&sorted, ";")
    }

    /// The profile with match rules inferred from its layout when it has none:
    /// one rule per real layout output, required when the output is enabled,
    /// hinted at its position.
    pub fn with_inferred_match_rules(&self) -> (r: Profile)
        ensures
            r@ == self@.with_inferred_match_rules_spec(),
    {
        if self.match_rules.len() > 0 {
            return self.clone();
        }
        let ghost s = layout_views(self.layout@);
        let mut rules: Vec<OutputMatcher> = Vec::new();
        let n = self.layout.len();
        let mut i: usize = 0;
        while i < n
            invariant
                n == self.layout@.len(),
                s == layout_views(self.layout@),
                i <= n,
                matcher_views(rules@) == inferred_matchers(s.take(i as int)),
            decreases n - i,
        {
            let c = &self.layout[i].1;
            assert(s[i as int] == (self.layout@[i as int].0@, c@));
            let ghost prefix = s.take(i + 1);
            assert(prefix.drop_last() =~= s.take(i as int));
            if !c.state.identity.is_ignored && !c.state.identity.is_virtual {
                rules.push(
                    OutputMatcher {
                        identity: c.state.identity.clone(),
                        required: c.state.enabled,
                        position_hint: Some(c.state.position),
                    },
                );
            }
            i += 1;
            assert(matcher_views(rules@) =~= inferred_matchers(s.take(i as int)));
        }
        assert(s.take(n as int) =~= s);
        Profile {
            name: self.name.clone(),
            priority: self.priority,
            match_rules: rules,
            layout: copy_layout(&self.layout),
            hooks: self.hooks.clone(),
        }
    }
}

} // verus!
