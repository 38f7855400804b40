//! The daemon's secret resolution decisions: which reference a fill value
//! names, which values may be resolved for passive masking, how a live URL
//! is written back as a template, and the cache of resolved values.
//! Running the provider CLI stays outside the library.

use vstd::prelude::*;
use vstd::string::{StringExecFns, StringSliceAdditionalSpecFns};
use crate::chars::{chars_of, contains_seq, contains_str, owned, string_from_chars};
use crate::mask::{apply_replacements, insert_by_len, rep_views, replace_all, replace_all_str};
use crate::secrets::{OpConfig, is_credential_reference, is_secret_reference, is_totp_reference, names_credential, parse_reference};
use crate::slot::ValueNameMap;
use crate::values::{ValuesConfig, entry_views};

verus! {

/// Why a fill value names no reference.
#[derive(Debug, Clone, PartialEq, Eq)]
pub enum ResolveError {
    /// `{name}` where `values.toml` has no `name`.
    UnknownValue(String),
    /// Neither a provider reference nor a `{name}` reference.
    NotAReference,
}

/// The inside of `{name}`.
pub open spec fn braced_name(spec: Seq<char>) -> Option<Seq<char>> {
    if spec.len() >= 2 && spec[0] == '{' && spec.last() == '}' {
        Some(spec.subrange(1, spec.len() - 1))
    } else {
        None
    }
}

/// The provider reference a fill value names: itself when it is one, the
/// reference entered under `name` for `{name}`.
pub fn resolve_spec_target(spec: &str, values: &ValuesConfig) -> (r: Result<String, ResolveError>)
    ensures
        parse_reference(spec.spec_bytes()) is Ok ==> (r matches Ok(u) && u@ == spec@),
        parse_reference(spec.spec_bytes()) is Err ==> match braced_name(spec@) {
            Some(name) => if values@.dom().contains(name) {
                (r matches Ok(u) && u@ == values@[name])
            } else {
                (r matches Err(ResolveError::UnknownValue(n)) && n@ == name)
            },
            None => r == Err::<String, ResolveError>(ResolveError::NotAReference),
        },
{
    if is_secret_reference(spec) {
        return Ok(owned(spec));
    }
    let v = chars_of(spec);
    if v.len() >= 2 && v[0] == '{' && v[v.len() - 1] == '}' {
        let name = string_from_chars(&v, 1, v.len() - 1);
        match values.get(name.as_str()) {
            Some(uri) => Ok(owned(uri)),
            None => Err(ResolveError::UnknownValue(name)),
        }
    } else {
        Err(ResolveError::NotAReference)
    }
}

/// A value may be resolved for passive masking unless it is a one-time
/// password or a credential.
pub open spec fn maskable(uri: Seq<u8>) -> bool {
    !(parse_reference(uri) matches Ok(p) && (p.otp || names_credential(p)))
}

/// The entries a value-name map is built from, in name order.
pub open spec fn maskable_entries(e: Seq<(Seq<char>, Seq<char>)>) -> Seq<(Seq<char>, Seq<char>)>
    decreases e.len(),
{
    if e.len() == 0 {
        Seq::empty()
    } else if maskable(vstd::utf8::encode_utf8(e.last().1)) {
        maskable_entries(e.drop_last()).push(e.last())
    } else {
        maskable_entries(e.drop_last())
    }
}

/// The `values.toml` entries (name, reference) whose values may be
/// resolved for passive masking.
pub fn maskable_values(values: &ValuesConfig) -> (r: Vec<(String, String)>)
    ensures
        rep_views(r@) == maskable_entries(values.ordered_entries()),
{
    let entries = values.entries();
    let ghost e = entry_views(entries@);
    let mut r: Vec<(String, String)> = Vec::new();
    let mut i: usize = 0;
    assert(e.take(0) =~= Seq::<(Seq<char>, Seq<char>)>::empty());
    assert(rep_views(r@) =~= Seq::<(Seq<char>, Seq<char>)>::empty());
    while i < entries.len()
        invariant
            i <= entries@.len(),
            e == entry_views(entries@),
            rep_views(r@) == maskable_entries(e.take(i as int)),
        decreases entries@.len() - i,
    {
        proof {
            assert(e.take(i + 1).drop_last() =~= e.take(i as int));
            assert(e.take(i + 1).last() == (entries@[i as int].0@, entries@[i as int].1@));
        }
        let uri = entries[i].1.as_str();
        let keep = !(is_totp_reference(uri) || is_credential_reference(uri));
        if keep {
            let a = entries[i].0.clone();
            let b = entries[i].1.clone();
            let ghost before = r@;
            r.push((a, b));
            assert(rep_views(r@) =~= rep_views(before).push((entries@[i as int].0@, entries@[i as int].1@)));
        }
        i = i + 1;
    }
    assert(e.take(i as int) =~= e);
    r
}

/// `{name}`.
pub open spec fn needle(name: Seq<char>) -> Seq<char> {
    seq!['{'] + name + seq!['}']
}

/// `{name}`, the text that stands for a value in a template.
pub fn value_needle(name: &str) -> (r: String)
    ensures
        r@ == needle(name@),
{
    let mut r = String::new();
    crate::chars::push_char(&mut r, '{');
    r.append(name);
    crate::chars::push_char(&mut r, '}');
    r
}

/// The values found in a URL, each with its `{name}`, longest first
/// (equal lengths in name order).
pub open spec fn url_replacements(url: Seq<char>, resolved: Seq<(Seq<char>, Seq<char>)>) -> Seq<(Seq<char>, Seq<char>)>
    decreases resolved.len(),
{
    if resolved.len() == 0 {
        Seq::empty()
    } else {
        let r = url_replacements(url, resolved.drop_last());
        let (name, value) = resolved.last();
        if value.len() > 0 && contains_seq(url, value) {
            insert_by_len(r, (value, needle(name)))
        } else {
            r
        }
    }
}

/// A live URL written back as a template: every resolved value found in
/// it replaced by its `{name}`, longest values first. `resolved` holds
/// (name, value) for the values that resolved, in name order.
pub fn template_url(url: &str, resolved: &Vec<(String, String)>) -> (r: String)
    ensures
        r@ == apply_replacements(url@, url_replacements(url@, rep_views(resolved@))),
{
    let ghost rv = rep_views(resolved@);
    let mut reps: Vec<(String, String)> = Vec::new();
    let mut i: usize = 0;
    assert(rv.take(0) =~= Seq::<(Seq<char>, Seq<char>)>::empty());
    assert(rep_views(reps@) =~= Seq::<(Seq<char>, Seq<char>)>::empty());
    while i < resolved.len()
        invariant
            i <= resolved@.len(),
            rv == rep_views(resolved@),
            rep_views(reps@) == url_replacements(url@, rv.take(i as int)),
        decreases resolved@.len() - i,
    {
        proof {
            assert(rv.take(i + 1).drop_last() =~= rv.take(i as int));
            assert(rv.take(i + 1).last() == (resolved@[i as int].0@, resolved@[i as int].1@));
        }
        let value = &resolved[i].1;
        if !value.as_str().is_empty() && contains_str(url, value.as_str()) {
            let n = value_needle(resolved[i].0.as_str());
            crate::mask::insert_replacement(&mut reps, value.clone(), n);
        }
        i = i + 1;
    }
    assert(rv.take(i as int) =~= rv);
    let ghost reps_v = rep_views(reps@);
    let mut out = owned(url);
    let mut j: usize = 0;
    assert(reps_v.take(0) =~= Seq::<(Seq<char>, Seq<char>)>::empty());
    while j < reps.len()
        invariant
            j <= reps@.len(),
            reps_v == rep_views(reps@),
            out@ == apply_replacements(url@, reps_v.take(j as int)),
        decreases reps@.len() - j,
    {
        proof {
            assert(reps_v.take(j + 1).drop_last() =~= reps_v.take(j as int));
            assert(reps_v.take(j + 1).last() == (reps@[j as int].0@, reps@[j as int].1@));
        }
        out = replace_all_str(out.as_str(), reps[j].0.as_str(), reps[j].1.as_str());
        j = j + 1;
    }
    assert(reps_v.take(j as int) =~= reps_v);
    out
}

/// The next `values.toml` entry a URL template needs: the first entry,
/// in name order from `from` on, whose `{name}` occurs in the template as
/// filled so far.
#[derive(Debug, Clone)]
pub enum InterpolateStep {
    /// Resolve this entry's reference and substitute its value.
    Resolve { index: usize, name: String, reference: String },
    /// No further entry occurs: the template is filled.
    Done,
}

/// The first entry at or after `from` whose `{name}` occurs in `out`.
pub open spec fn next_needed(out: Seq<char>, e: Seq<(Seq<char>, Seq<char>)>, from: int) -> Option<int>
    decreases e.len() - from,
{
    if from < 0 || from >= e.len() {
        None
    } else if contains_seq(out, needle(e[from].0)) {
        Some(from)
    } else {
        next_needed(out, e, from + 1)
    }
}

/// Which entry a URL template needs next, given the template as filled so
/// far and the first entry not yet looked at.
pub fn next_interpolation(out: &str, values: &ValuesConfig, from: usize) -> (r: InterpolateStep)
    ensures
        match next_needed(out@, values.ordered_entries(), from as int) {
            Some(i) => r matches InterpolateStep::Resolve { index, name, reference } && index == i
                && name@ == values.ordered_entries()[i].0 && reference@ == values.ordered_entries()[i].1,
            None => r is Done,
        },
{
    let entries = values.entries();
    let ghost e = entry_views(entries@);
    let mut i = from;
    while i < entries.len()
        invariant
            e == entry_views(entries@),
            e == values.ordered_entries(),
            from <= i,
            next_needed(out@, e, from as int) == next_needed(out@, e, i as int),
        decreases entries@.len() - i,
    {
        let n = value_needle(entries[i].0.as_str());
        assert(e[i as int] == (entries@[i as int].0@, entries@[i as int].1@));
        if contains_str(out, n.as_str()) {
            return InterpolateStep::Resolve {
                index: i,
                name: entries[i].0.clone(),
                reference: entries[i].1.clone(),
            };
        }
        i = i + 1;
    }
    InterpolateStep::Done
}

/// A template with every `{name}` replaced by the value resolved for it.
pub fn substitute_value(out: &str, name: &str, value: &str) -> (r: String)
    ensures
        r@ == replace_all(out@, needle(name@), value@),
{
    let n = value_needle(name);
    replace_all_str(out, n.as_str(), value)
}

/// The daemon's resolver: the CLI options it runs `op` with and the
/// values it has resolved, by reference (one-time passwords are never
/// kept).
#[derive(Debug)]
pub struct SecretResolver {
    cache: ValueNameMap,
    op_config: OpConfig,
}

impl SecretResolver {
    pub closed spec fn cache_view(&self) -> Map<Seq<char>, Seq<char>> {
        self.cache@
    }

    pub closed spec fn config_view(&self) -> OpConfig {
        self.op_config
    }

    pub fn new(op_config: OpConfig) -> (r: SecretResolver)
        ensures
            r.cache_view() == Map::<Seq<char>, Seq<char>>::empty(),
            r.config_view() == op_config,
    {
        SecretResolver { cache: ValueNameMap::new(), op_config }
    }

    pub fn op_config(&self) -> (r: &OpConfig)
        ensures
            *r == self.config_view(),
    {
        &self.op_config
    }

    /// The value resolved before for `uri`; never one for a one-time
    /// password, which is read fresh each time.
    pub fn cached(&self, uri: &str) -> (r: Option<String>)
        ensures
            (parse_reference(uri.spec_bytes()) matches Ok(p) && p.otp) ==> r is None,
            !(parse_reference(uri.spec_bytes()) matches Ok(p) && p.otp) ==> match r {
                Some(v) => self.cache_view().dom().contains(uri@) && self.cache_view()[uri@] == v@,
                None => !self.cache_view().dom().contains(uri@),
            },
    {
        if is_totp_reference(uri) {
            return None;
        }
        match self.cache.lookup(uri) {
            Some(v) => Some(owned(v)),
            None => None,
        }
    }

    /// Keep a resolved value, unless it is a one-time password.
    pub fn remember(&mut self, uri: String, value: String)
        ensures
            final(self).config_view() == old(self).config_view(),
            final(self).cache_view() == if parse_reference(vstd::utf8::encode_utf8(uri@)) matches Ok(p) && p.otp {
                old(self).cache_view()
            } else {
                old(self).cache_view().insert(uri@, value@)
            },
    {
        if is_totp_reference(uri.as_str()) {
            return;
        }
        self.cache.insert(uri, value);
    }
}

} // verus!
