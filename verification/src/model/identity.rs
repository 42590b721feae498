//! Output identity: what is known of a physical display (EDID hash, make,
//! model, serial, connector, description) and the rules by which two
//! identities are taken to be the same display.
use vstd::prelude::*;

use crate::model::{validate_string, validate_string_error};
use crate::text::{
    chars_lower_eq, chars_lower_starts_with, chars_of, copy_opt_string, lower_eq,
    lower_starts_with, opt_view, push_str, string_from_chars, trim, trim_bounds,
};

verus! {

#[derive(Debug, PartialEq)]
pub struct OutputIdentity {
    pub edid_hash: Option<String>,
    pub make: Option<String>,
    pub model: Option<String>,
    pub serial: Option<String>,
    pub connector: Option<String>,
    pub description: Option<String>,
    pub is_virtual: bool,
    pub is_ignored: bool,
}

/// What is known of an output's identity, as plain values.
pub ghost struct OutputIdentityView {
    pub edid_hash: Option<Seq<char>>,
    pub make: Option<Seq<char>>,
    pub model: Option<Seq<char>>,
    pub serial: Option<Seq<char>>,
    pub connector: Option<Seq<char>>,
    pub description: Option<Seq<char>>,
    pub is_virtual: bool,
    pub is_ignored: bool,
}

impl View for OutputIdentity {
    type V = OutputIdentityView;

    open spec fn view(&self) -> OutputIdentityView {
        OutputIdentityView {
            edid_hash: opt_view(self.edid_hash),
            make: opt_view(self.make),
            model: opt_view(self.model),
            serial: opt_view(self.serial),
            connector: opt_view(self.connector),
            description: opt_view(self.description),
            is_virtual: self.is_virtual,
            is_ignored: self.is_ignored,
        }
    }
}

impl Clone for OutputIdentity {
    fn clone(&self) -> (r: Self)
        ensures
            r == *self,
    {
        OutputIdentity {
            edid_hash: copy_opt_string(&self.edid_hash),
            make: copy_opt_string(&self.make),
            model: copy_opt_string(&self.model),
            serial: copy_opt_string(&self.serial),
            connector: copy_opt_string(&self.connector),
            description: copy_opt_string(&self.description),
            is_virtual: self.is_virtual,
            is_ignored: self.is_ignored,
        }
    }
}

impl Default for OutputIdentity {
    fn default() -> (r: Self)
        ensures
            r.is_empty_identity(),
    {
        OutputIdentity {
            edid_hash: None,
            make: None,
            model: None,
            serial: None,
            connector: None,
            description: None,
            is_virtual: false,
            is_ignored: false,
        }
    }
}

/// A value that stands for "nothing known" (`unknown`, `n/a`, `none`, or a
/// description of the form `Unknown - Unknown - ...`), compared without case.
pub open spec fn is_placeholder(t: Seq<char>) -> bool {
    ||| lower_eq(t, "unknown"@)
    ||| lower_eq(t, "n/a"@)
    ||| lower_eq(t, "none"@)
    ||| lower_starts_with(t, "unknown - unknown -"@)
}

/// The normalized form of an identity field: trimmed, and absent when it is
/// empty or a placeholder.
pub open spec fn normalized_value(v: Option<Seq<char>>) -> Option<Seq<char>> {
    match v {
        None => None,
        Some(s) => {
            let t = trim(s);
            if t.len() == 0 || is_placeholder(t) {
                None
            } else {
                Some(t)
            }
        },
    }
}

/// `primary` when it normalizes to a value, else `fallback` normalized.
pub open spec fn chosen_value(primary: Option<Seq<char>>, fallback: Option<Seq<char>>) -> Option<
    Seq<char>,
> {
    match normalized_value(primary) {
        Some(v) => Some(v),
        None => normalized_value(fallback),
    }
}

pub open spec fn norm_field(o: Option<Seq<char>>) -> Option<Seq<char>> {
    normalized_value(o)
}

pub open spec fn present_values(a: Option<Seq<char>>, b: Option<Seq<char>>, c: Option<Seq<char>>) -> Seq<
    Seq<char>,
> {
    let s0: Seq<Seq<char>> = if a is Some { seq![a->0] } else { Seq::empty() };
    let s1 = if b is Some { s0.push(b->0) } else { s0 };
    if c is Some { s1.push(c->0) } else { s1 }
}

pub open spec fn bool_weight(b: bool, w: int) -> int {
    if b { w } else { 0 }
}

impl OutputIdentity {
    pub open spec fn is_empty_identity(self) -> bool {
        self@.is_empty_identity()
    }
}

impl OutputIdentityView {
    pub open spec fn is_empty_identity(self) -> bool {
        &&& self.edid_hash is None
        &&& self.make is None
        &&& self.model is None
        &&& self.serial is None
        &&& self.connector is None
        &&& self.description is None
        &&& !self.is_virtual
        &&& !self.is_ignored
    }

    /// The key by which the setup fingerprint refers to this output.
    pub open spec fn primary_key_spec(self) -> Seq<char> {
        if self.edid_hash is Some {
            "edid:"@ + self.edid_hash->0
        } else {
            let parts = present_values(
                norm_field(self.make),
                norm_field(self.model),
                norm_field(self.serial),
            );
            if parts.len() > 0 {
                "id:"@ + crate::text::join(parts, ":"@)
            } else if norm_field(self.connector) is Some {
                "conn:"@ + norm_field(self.connector)->0
            } else if norm_field(self.description) is Some {
                norm_field(self.description)->0
            } else {
                "unknown"@
            }
        }
    }

    pub open spec fn match_strength_spec(self) -> int {
        bool_weight(self.edid_hash is Some, 5) + bool_weight(norm_field(self.make) is Some, 2)
            + bool_weight(norm_field(self.model) is Some, 2) + bool_weight(
            norm_field(self.serial) is Some,
            3,
        ) + bool_weight(norm_field(self.connector) is Some, 1)
    }

    pub open spec fn match_score_spec(self) -> int {
        bool_weight(self.edid_hash is Some, 100) + bool_weight(norm_field(self.make) is Some, 10)
            + bool_weight(norm_field(self.model) is Some, 10) + bool_weight(
            norm_field(self.serial) is Some,
            20,
        ) + bool_weight(norm_field(self.connector) is Some, 5)
    }

    pub open spec fn has_non_connector_identity_spec(self) -> bool {
        ||| norm_field(self.edid_hash) is Some
        ||| norm_field(self.make) is Some
        ||| norm_field(self.model) is Some
        ||| norm_field(self.serial) is Some
    }

    /// The first identity field that breaks the string limits, as the error
    /// message `validate_limits` reports.
    pub open spec fn limits_error(self, name: Seq<char>) -> Option<Seq<char>> {
        let fields: Seq<(Seq<char>, Option<Seq<char>>)> = seq![
            ("edid_hash"@, self.edid_hash),
            ("make"@, self.make),
            ("model"@, self.model),
            ("serial"@, self.serial),
            ("connector"@, self.connector),
            ("description"@, self.description),
        ];
        first_field_error(fields, name)
    }

    /// This identity with its unknown fields filled from `fallback`: the EDID
    /// hash is kept when present, every other field is the normalized value of
    /// this identity or else of the fallback.
    pub open spec fn fallback_to(self, fallback: OutputIdentityView) -> OutputIdentityView {
        OutputIdentityView {
            edid_hash: if self.edid_hash is Some {
                self.edid_hash
            } else {
                fallback.edid_hash
            },
            make: chosen_value(self.make, fallback.make),
            model: chosen_value(self.model, fallback.model),
            serial: chosen_value(self.serial, fallback.serial),
            connector: chosen_value(self.connector, fallback.connector),
            description: chosen_value(self.description, fallback.description),
            is_virtual: self.is_virtual,
            is_ignored: self.is_ignored,
        }
    }
}

/// The error for the first field of `fields` (label, value) that breaks the
/// string limits, prefixed as `validate_limits` reports it.
pub open spec fn first_field_error(fields: Seq<(Seq<char>, Option<Seq<char>>)>, name: Seq<char>) -> Option<
    Seq<char>,
>
    decreases fields.len(),
{
    if fields.len() == 0 {
        None
    } else {
        let (label, value) = fields[0];
        let here = match value {
            Some(v) => validate_string_error(label, v),
            None => None,
        };
        match here {
            Some(err) => Some("output "@ + name + " has invalid "@ + err),
            None => first_field_error(fields.drop_first(), name),
        }
    }
}

fn check_field(label: &str, value: &Option<String>, name: &str) -> (r: Result<(), String>)
    ensures
        match r {
            Ok(()) => (match *value {
                Some(v) => validate_string_error(label@, v@),
                None => None,
            }) is None,
            Err(e) => (match *value {
                Some(v) => validate_string_error(label@, v@),
                None => None,
            }) matches Some(err) && e@ == "output "@ + name@ + " has invalid "@ + err,
        },
{
    if let Some(v) = value {
        match validate_string(label, v.as_str()) {
            Err(err) => {
                let mut message = "output ".to_owned();
                push_str(&mut message, name);
                push_str(&mut message, " has invalid ");
                push_str(&mut message, err.as_str());
                return Err(message);
            },
            Ok(()) => {},
        }
    }
    Ok(())
}

/// Whether two identities are taken to be the same display.
///
/// With an EDID hash on the query, only an equal EDID hash matches. Otherwise
/// the normalized make, model and serial must not conflict; a query serial
/// then needs a candidate serial; failing that, an equal connector or an equal
/// description matches, and a query with no usable field matches anything.
pub open spec fn identities_match_spec(query: OutputIdentityView, candidate: OutputIdentityView) -> bool {
    if query.edid_hash is Some {
        candidate.edid_hash is Some && query.edid_hash->0 == candidate.edid_hash->0
    } else {
        let qm = norm_field(query.make);
        let qo = norm_field(query.model);
        let qs = norm_field(query.serial);
        let qc = norm_field(query.connector);
        let qd = norm_field(query.description);
        let cm = norm_field(candidate.make);
        let co = norm_field(candidate.model);
        let cs = norm_field(candidate.serial);
        let cc = norm_field(candidate.connector);
        let cd = norm_field(candidate.description);
        if qm is Some && cm is Some && qm != cm {
            false
        } else if qo is Some && co is Some && qo != co {
            false
        } else if qs is Some && cs is Some && qs != cs {
            false
        } else if qs is Some {
            cs is Some
        } else if qc is Some && cc is Some && qc == cc {
            true
        } else if qd is Some && cd is Some && qd == cd {
            true
        } else {
            qm is None && qo is None && qs is None && qc is None && qd is None
        }
    }
}

/// Normalizing a normalized field changes nothing.
pub proof fn lemma_normalized_value_idempotent(v: Option<Seq<char>>)
    ensures
        normalized_value(normalized_value(v)) == normalized_value(v),
{
    if let Some(s) = v {
        crate::text::lemma_trim_idempotent(s);
    }
}

/// Filling an identity's unknown fields from the same fallback a second
/// time changes nothing.
pub proof fn lemma_fallback_idempotent(x: OutputIdentityView, f: OutputIdentityView)
    ensures
        x.fallback_to(f).fallback_to(f) == x.fallback_to(f),
{
    lemma_normalized_value_idempotent(x.make);
    lemma_normalized_value_idempotent(x.model);
    lemma_normalized_value_idempotent(x.serial);
    lemma_normalized_value_idempotent(x.connector);
    lemma_normalized_value_idempotent(x.description);
    lemma_normalized_value_idempotent(f.make);
    lemma_normalized_value_idempotent(f.model);
    lemma_normalized_value_idempotent(f.serial);
    lemma_normalized_value_idempotent(f.connector);
    lemma_normalized_value_idempotent(f.description);
}

/// An EDID hash on the query decides alone: the candidate matches exactly
/// when it carries the same hash.
pub proof fn lemma_edid_decides_match(q: OutputIdentityView, c: OutputIdentityView)
    requires
        q.edid_hash is Some,
    ensures
        identities_match_spec(q, c) <==> c.edid_hash == q.edid_hash,
{
}

/// The identity with its text fields normalized (placeholders dropped).
pub open spec fn normalized_identity(q: OutputIdentityView) -> OutputIdentityView {
    OutputIdentityView {
        edid_hash: q.edid_hash,
        make: normalized_value(q.make),
        model: normalized_value(q.model),
        serial: normalized_value(q.serial),
        connector: normalized_value(q.connector),
        description: normalized_value(q.description),
        is_virtual: q.is_virtual,
        is_ignored: q.is_ignored,
    }
}

/// Placeholder values (`unknown`, `n/a`, `none`, ...) and surrounding
/// white space in the query play no part in matching: the query matches
/// what its normalized form matches.
pub proof fn lemma_match_ignores_placeholders(q: OutputIdentityView, c: OutputIdentityView)
    ensures
        identities_match_spec(q, c) == identities_match_spec(normalized_identity(q), c),
{
    lemma_normalized_value_idempotent(q.make);
    lemma_normalized_value_idempotent(q.model);
    lemma_normalized_value_idempotent(q.serial);
    lemma_normalized_value_idempotent(q.connector);
    lemma_normalized_value_idempotent(q.description);
}

/// `normalized_identity_value`: the trimmed value, or `None` when it is empty
/// or a placeholder.
pub fn normalized_identity_value(value: Option<&str>) -> (r: Option<String>)
    ensures
        opt_view(r) == normalized_value(match value {
            Some(v) => Some(v@),
            None => None,
        }),
{
    match value {
        None => None,
        Some(v) => {
            let chars = chars_of(v);
            let (a, b) = trim_bounds(&chars);
            let t = crate::model::sub_chars(&chars, a, b);
            if t.len() == 0 {
                return None;
            }
            let placeholder = chars_lower_eq(&t, &chars_of("unknown")) || chars_lower_eq(
                &t,
                &chars_of("n/a"),
            ) || chars_lower_eq(&t, &chars_of("none")) || chars_lower_starts_with(
                &t,
                &chars_of("unknown - unknown -"),
            );
            if placeholder {
                None
            } else {
                Some(string_from_chars(&chars, a, b))
            }
        },
    }
}

fn normalized_field(value: &Option<String>) -> (r: Option<String>)
    ensures
        opt_view(r) == norm_field(opt_view(*value)),
{
    match value {
        Some(v) => normalized_identity_value(Some(v.as_str())),
        None => normalized_identity_value(None),
    }
}

fn choose_identity_value(primary: &Option<String>, fallback: &Option<String>) -> (r: Option<String>)
    ensures
        opt_view(r) == chosen_value(opt_view(*primary), opt_view(*fallback)),
{
    match normalized_field(primary) {
        Some(v) => Some(v),
        None => normalized_field(fallback),
    }
}

fn opt_eq(a: &Option<String>, b: &Option<String>) -> (r: bool)
    ensures
        r == (opt_view(*a) == opt_view(*b)),
{
    match (a, b) {
        (Some(x), Some(y)) => *x == *y,
        (None, None) => true,
        _ => false,
    }
}

/// Whether `candidate` is taken to be the display that `query` describes.
pub fn identities_match(query: &OutputIdentity, candidate: &OutputIdentity) -> (r: bool)
    ensures
        r == identities_match_spec(query@, candidate@),
{
    if let Some(query_hash) = &query.edid_hash {
        if let Some(cand_hash) = &candidate.edid_hash {
            return *query_hash == *cand_hash;
        }
        return false;
    }
    let qm = normalized_field(&query.make);
    let qo = normalized_field(&query.model);
    let qs = normalized_field(&query.serial);
    let qc = normalized_field(&query.connector);
    let qd = normalized_field(&query.description);
    let cm = normalized_field(&candidate.make);
    let co = normalized_field(&candidate.model);
    let cs = normalized_field(&candidate.serial);
    let cc = normalized_field(&candidate.connector);
    let cd = normalized_field(&candidate.description);

    if qm.is_some() && cm.is_some() && !opt_eq(&qm, &cm) {
        return false;
    }
    if qo.is_some() && co.is_some() && !opt_eq(&qo, &co) {
        return false;
    }
    if qs.is_some() && cs.is_some() && !opt_eq(&qs, &cs) {
        return false;
    }
    if qs.is_some() {
        return cs.is_some();
    }
    if qc.is_some() && cc.is_some() && opt_eq(&qc, &cc) {
        return true;
    }
    if qd.is_some() && cd.is_some() && opt_eq(&qd, &cd) {
        return true;
    }
    qm.is_none() && qo.is_none() && qs.is_none() && qc.is_none() && qd.is_none()
}

impl OutputIdentity {
    /// An identity that knows only its connector.
    pub fn new(connector: &str) -> (r: Self)
        ensures
            r@.connector == Some(connector@),
            r.edid_hash is None,
            r.make is None,
            r.model is None,
            r.serial is None,
            r.description is None,
            !r.is_virtual,
            !r.is_ignored,
    {
        OutputIdentity {
            edid_hash: None,
            make: None,
            model: None,
            serial: None,
            connector: Some(connector.to_owned()),
            description: None,
            is_virtual: false,
            is_ignored: false,
        }
    }

    /// The stable key of this output: `edid:<hash>`, `id:<make>:<model>:<serial>`
    /// over the fields that are known, `conn:<connector>`, the description, or
    /// `unknown`.
    pub fn primary_key(&self) -> (r: String)
        ensures
            r@ == self@.primary_key_spec(),
    {
        if let Some(hash) = &self.edid_hash {
            let mut key = "edid:".to_owned();
            push_str(&mut key, hash.as_str());
            return key;
        }
        let make = normalized_field(&self.make);
        let model = normalized_field(&self.model);
        let serial = normalized_field(&self.serial);
        let ghost parts = present_values(opt_view(make), opt_view(model), opt_view(serial));
        let mut collected: Vec<String> = Vec::new();
        if let Some(v) = make {
            collected.push(v);
        }
        if let Some(v) = model {
            collected.push(v);
        }
        if let Some(v) = serial {
            collected.push(v);
        }
        assert(crate::text::views(collected@) =~= parts);
        if collected.len() > 0 {
            let joined = crate::text::join_strings(&collected, ":");
            let mut key = "id:".to_owned();
            push_str(&mut key, joined.as_str());
            return key;
        }
        if let Some(conn) = normalized_field(&self.connector) {
            let mut key = "conn:".to_owned();
            push_str(&mut key, conn.as_str());
            return key;
        }
        match normalized_field(&self.description) {
            Some(d) => d,
            None => "unknown".to_owned(),
        }
    }

    /// Strength of the identity as a tie-breaker between candidate outputs.
    pub fn match_strength(&self) -> (r: u8)
        ensures
            r as int == self@.match_strength_spec(),
    {
        let mut strength: u8 = 0;
        if self.edid_hash.is_some() {
            strength += 5;
        }
        if normalized_field(&self.make).is_some() {
            strength += 2;
        }
        if normalized_field(&self.model).is_some() {
            strength += 2;
        }
        if normalized_field(&self.serial).is_some() {
            strength += 3;
        }
        if normalized_field(&self.connector).is_some() {
            strength += 1;
        }
        strength
    }

    /// Weighted score of the known identity fields.
    pub fn match_score(&self) -> (r: u32)
        ensures
            r as int == self@.match_score_spec(),
    {
        let mut score: u32 = 0;
        if self.edid_hash.is_some() {
            score += 100;
        }
        if normalized_field(&self.make).is_some() {
            score += 10;
        }
        if normalized_field(&self.model).is_some() {
            score += 10;
        }
        if normalized_field(&self.serial).is_some() {
            score += 20;
        }
        if normalized_field(&self.connector).is_some() {
            score += 5;
        }
        score
    }

    /// Whether anything beyond the connector names this output.
    pub fn has_non_connector_identity(&self) -> (r: bool)
        ensures
            r == self@.has_non_connector_identity_spec(),
    {
        normalized_field(&self.edid_hash).is_some() || normalized_field(&self.make).is_some()
            || normalized_field(&self.model).is_some() || normalized_field(&self.serial).is_some()
    }

    /// Checks each identity string against the topology string limits.
    pub fn validate_limits(&self, name: &str) -> (r: Result<(), String>)
        ensures
            match r {
                Ok(()) => self@.limits_error(name@) is None,
                Err(e) => self@.limits_error(name@) == Some(e@),
            },
    {
        proof {
            reveal_with_fuel(first_field_error, 7);
        }
        check_field("edid_hash", &self.edid_hash, name)?;
        check_field("make", &self.make, name)?;
        check_field("model", &self.model, name)?;
        check_field("serial", &self.serial, name)?;
        check_field("connector", &self.connector, name)?;
        check_field("description", &self.description, name)?;
        Ok(())
    }

    /// Fills the fields that are unknown here from `fallback`.
    pub fn with_fallback(&self, fallback: &OutputIdentity) -> (r: OutputIdentity)
        ensures
            r@ == self@.fallback_to(fallback@),
    {
        OutputIdentity {
            edid_hash: if self.edid_hash.is_some() {
                copy_opt_string(&self.edid_hash)
            } else {
                copy_opt_string(&fallback.edid_hash)
            },
            make: choose_identity_value(&self.make, &fallback.make),
            model: choose_identity_value(&self.model, &fallback.model),
            serial: choose_identity_value(&self.serial, &fallback.serial),
            connector: choose_identity_value(&self.connector, &fallback.connector),
            description: choose_identity_value(&self.description, &fallback.description),
            is_virtual: self.is_virtual,
            is_ignored: self.is_ignored,
        }
    }
}

} // verus!
