//! Page recognition: which known place the live page is.
//!
//! A signature is AND-combined: its URL pattern must accept the page URL,
//! at least one selector of `selector` must be present, at least one of
//! `visible_selector` must be visible, and none of `absent_selector` may be
//! present (`text` is not checked). The first place in `places.toml` order
//! whose signature holds is the recognized one.
//!
//! Asking the page is the caller's part. [`recognize_step`] says, from the
//! answers gathered so far for one place, which selector to ask about
//! next, or that the place is accepted or rejected; the caller asks, hands
//! the answer back, and moves on to the next place on a rejection.
//! [`signature_matches`] does the same for a single signature, such as an
//! interactive place's `completion`.

use vstd::prelude::*;
use vstd::string::StringSliceAdditionalSpecFns;
use crate::chars::string_views;
use crate::graph::PlaceGraph;
use crate::mask::{selector_list, split_selector_list};
use crate::model::Signature;
use crate::url_match::{UrlError, url_matches};
use crate::graph::signature_url_matches;

verus! {

/// The recognized place.
#[derive(Debug, Clone)]
pub struct PlaceMatch {
    pub place_name: String,
}

/// What a page query asks of one selector.
#[derive(Debug, Clone, Copy, PartialEq, Eq, Structural)]
pub enum ProbeKind {
    /// Does any element match it (`selector`)?
    Present,
    /// Does any visible element match it (`visible_selector`)?
    Visible,
    /// Does any element match it (`absent_selector`; a match rejects)?
    Absent,
}

/// One page query.
#[derive(Debug, Clone)]
pub struct Probe {
    pub kind: ProbeKind,
    pub selector: String,
}

/// What to do next while recognizing.
#[derive(Debug, Clone)]
pub enum RecognizeStep {
    /// Ask the page this and add the answer to the answers for this place.
    Probe(Probe),
    /// This place does not match: go on with the next one, with no answers.
    NextPlace,
    /// This place matches.
    Matched(PlaceMatch),
    /// No place is left: the page is not recognized.
    NoMatch,
}

/// Where the selector checks of one place stand.
pub enum Verdict {
    Accepted,
    Rejected,
    Ask(ProbeKind, Seq<char>),
}

/// The selector components of a signature, in the order they are checked.
pub open spec fn components(sig: Signature) -> Seq<(ProbeKind, Seq<Seq<char>>)> {
    opt_component(ProbeKind::Present, sig.selector) + opt_component(
        ProbeKind::Visible,
        sig.visible_selector,
    ) + opt_component(ProbeKind::Absent, sig.absent_selector)
}

pub open spec fn opt_component(k: ProbeKind, o: Option<String>) -> Seq<(ProbeKind, Seq<Seq<char>>)> {
    match o {
        Some(s) => seq![(k, selector_list(s@))],
        None => Seq::empty(),
    }
}

/// The state of the checks from component `ci`, selector `si` on, given
/// the answers `hits` to the queries still to come: the selectors of a
/// component are asked in order until one settles it (a match for
/// `Present`/`Visible` accepts the component, for `Absent` rejects the
/// place); a component whose selectors all miss is rejected, or for
/// `Absent` accepted.
pub open spec fn verdict(
    comps: Seq<(ProbeKind, Seq<Seq<char>>)>,
    ci: int,
    si: int,
    hits: Seq<bool>,
) -> Verdict
    decreases hits.len(), comps.len() - ci,
{
    if ci < 0 || ci >= comps.len() {
        Verdict::Accepted
    } else {
        let k = comps[ci].0;
        let sels = comps[ci].1;
        if si < 0 || si >= sels.len() {
            if k == ProbeKind::Absent {
                verdict(comps, ci + 1, 0, hits)
            } else {
                Verdict::Rejected
            }
        } else if hits.len() == 0 {
            Verdict::Ask(k, sels[si])
        } else if hits[0] {
            if k == ProbeKind::Absent {
                Verdict::Rejected
            } else {
                verdict(comps, ci + 1, 0, hits.drop_first())
            }
        } else {
            verdict(comps, ci, si + 1, hits.drop_first())
        }
    }
}

/// Each selector component of a signature comes from the field of its
/// kind: a `selector` is probed for presence, a `visible_selector` for a
/// visible match and an `absent_selector` for absence, each over its own
/// selector list, and nothing else is probed. A signature whose only
/// criterion is a visible selector list first asks whether its first
/// selector has a visible match.
pub proof fn lemma_components_follow_signature_fields(sig: Signature)
    ensures
        forall|i: int|
            0 <= i < components(sig).len() ==> match (#[trigger] components(sig)[i]).0 {
                ProbeKind::Present => sig.selector matches Some(s) && components(sig)[i].1 == selector_list(s@),
                ProbeKind::Visible => sig.visible_selector matches Some(s) && components(sig)[i].1
                    == selector_list(s@),
                ProbeKind::Absent => sig.absent_selector matches Some(s) && components(sig)[i].1 == selector_list(
                    s@,
                ),
            },
        sig.selector matches Some(s) ==> components(sig).contains((ProbeKind::Present, selector_list(s@))),
        sig.visible_selector matches Some(s) ==> components(sig).contains(
            (ProbeKind::Visible, selector_list(s@)),
        ),
        sig.absent_selector matches Some(s) ==> components(sig).contains((ProbeKind::Absent, selector_list(s@))),
        sig.selector is None && sig.absent_selector is None && sig.visible_selector is Some
            && selector_list(sig.visible_selector->0@).len() > 0 ==> verdict(
            components(sig),
            0,
            0,
            Seq::empty(),
        ) == Verdict::Ask(ProbeKind::Visible, selector_list(sig.visible_selector->0@)[0]),
{
    let a = opt_component(ProbeKind::Present, sig.selector);
    let b = opt_component(ProbeKind::Visible, sig.visible_selector);
    let c = opt_component(ProbeKind::Absent, sig.absent_selector);
    let cs = components(sig);
    assert(cs == a + b + c);
    assert forall|i: int| 0 <= i < cs.len() implies match (#[trigger] cs[i]).0 {
        ProbeKind::Present => sig.selector matches Some(s) && cs[i].1 == selector_list(s@),
        ProbeKind::Visible => sig.visible_selector matches Some(s) && cs[i].1 == selector_list(s@),
        ProbeKind::Absent => sig.absent_selector matches Some(s) && cs[i].1 == selector_list(s@),
    } by {
        if i < a.len() {
            assert(cs[i] == a[i]);
        } else if i < a.len() + b.len() {
            assert(cs[i] == b[i - a.len()]);
        } else {
            assert(cs[i] == c[i - a.len() - b.len()]);
        }
    }
    if let Some(s) = sig.selector {
        assert(cs[0] == a[0]);
    }
    if let Some(s) = sig.visible_selector {
        assert(cs[a.len() as int] == b[0]);
    }
    if let Some(s) = sig.absent_selector {
        assert(cs[(a.len() + b.len()) as int] == c[0]);
    }
}

/// Whether a selector component holds on a page, where `page(k, s)` says
/// whether selector `s` matches (for `Visible`: matches a visible element).
pub open spec fn component_holds(
    c: (ProbeKind, Seq<Seq<char>>),
    page: spec_fn(ProbeKind, Seq<char>) -> bool,
) -> bool {
    if c.0 == ProbeKind::Absent {
        forall|t: int| 0 <= t < c.1.len() ==> !page(c.0, #[trigger] c.1[t])
    } else {
        exists|t: int| 0 <= t < c.1.len() && page(c.0, #[trigger] c.1[t])
    }
}

/// Whether every component from `ci` on holds on the page.
pub open spec fn components_hold_from(
    comps: Seq<(ProbeKind, Seq<Seq<char>>)>,
    ci: int,
    page: spec_fn(ProbeKind, Seq<char>) -> bool,
) -> bool {
    forall|c: int| ci <= c < comps.len() ==> component_holds(#[trigger] comps[c], page)
}

/// Whether each answer in `hits` is what the page says of the selector
/// that the checks asked about at that point.
pub open spec fn answers_from(
    comps: Seq<(ProbeKind, Seq<Seq<char>>)>,
    ci: int,
    si: int,
    hits: Seq<bool>,
    page: spec_fn(ProbeKind, Seq<char>) -> bool,
) -> bool {
    forall|j: int|
        0 <= j < hits.len() ==> (#[trigger] verdict(comps, ci, si, hits.take(j)) matches Verdict::Ask(
            k,
            s,
        ) ==> hits[j] == page(k, s))
}

proof fn lemma_verdict_sound(
    comps: Seq<(ProbeKind, Seq<Seq<char>>)>,
    ci: int,
    si: int,
    hits: Seq<bool>,
    page: spec_fn(ProbeKind, Seq<char>) -> bool,
)
    requires
        0 <= ci <= comps.len(),
        0 <= si,
        ci < comps.len() ==> si <= comps[ci].1.len(),
        ci < comps.len() ==> forall|t: int| 0 <= t < si ==> !page(comps[ci].0, #[trigger] comps[ci].1[t]),
        answers_from(comps, ci, si, hits, page),
    ensures
        verdict(comps, ci, si, hits) is Accepted ==> components_hold_from(comps, ci, page),
        verdict(comps, ci, si, hits) is Rejected ==> !components_hold_from(comps, ci, page),
    decreases hits.len(), comps.len() - ci,
{
    if ci == comps.len() {
        return;
    }
    let k = comps[ci].0;
    let sels = comps[ci].1;
    if si == sels.len() {
        if k == ProbeKind::Absent {
            assert forall|j: int| 0 <= j < hits.len() implies (#[trigger] verdict(
                comps,
                ci + 1,
                0,
                hits.take(j),
            ) matches Verdict::Ask(k2, s2) ==> hits[j] == page(k2, s2)) by {
                assert(verdict(comps, ci, si, hits.take(j)) == verdict(comps, ci + 1, 0, hits.take(j)));
            }
            lemma_verdict_sound(comps, ci + 1, 0, hits, page);
            assert(component_holds(comps[ci], page));
        } else {
            assert(!component_holds(comps[ci], page));
        }
        return;
    }
    if hits.len() == 0 {
        return;
    }
    assert(hits.take(0) =~= Seq::<bool>::empty());
    assert(verdict(comps, ci, si, hits.take(0)) == Verdict::Ask(k, sels[si]));
    assert(hits[0] == page(k, sels[si]));
    let rest = hits.drop_first();
    if hits[0] {
        if k == ProbeKind::Absent {
            assert(!component_holds(comps[ci], page));
        } else {
            assert forall|j: int| 0 <= j < rest.len() implies (#[trigger] verdict(
                comps,
                ci + 1,
                0,
                rest.take(j),
            ) matches Verdict::Ask(k2, s2) ==> rest[j] == page(k2, s2)) by {
                let t = hits.take(j + 1);
                assert(t.drop_first() =~= rest.take(j));
                assert(t[0] == hits[0]);
                assert(verdict(comps, ci, si, t) == verdict(comps, ci + 1, 0, rest.take(j)));
            }
            lemma_verdict_sound(comps, ci + 1, 0, rest, page);
            assert(component_holds(comps[ci], page));
        }
    } else {
        assert forall|j: int| 0 <= j < rest.len() implies (#[trigger] verdict(
            comps,
            ci,
            si + 1,
            rest.take(j),
        ) matches Verdict::Ask(k2, s2) ==> rest[j] == page(k2, s2)) by {
            let t = hits.take(j + 1);
            assert(t.drop_first() =~= rest.take(j));
            assert(t[0] == hits[0]);
            assert(verdict(comps, ci, si, t) == verdict(comps, ci, si + 1, rest.take(j)));
        }
        lemma_verdict_sound(comps, ci, si + 1, rest, page);
    }
}

/// Recognition agrees with the page: when every answer handed back for a
/// signature's checks is what the page says of the selector asked about,
/// the checks accept only when every selector component holds on the page
/// and reject only when one does not.
pub proof fn lemma_recognition_agrees_with_page(
    sig: Signature,
    hits: Seq<bool>,
    page: spec_fn(ProbeKind, Seq<char>) -> bool,
)
    requires
        answers_from(components(sig), 0, 0, hits, page),
    ensures
        verdict(components(sig), 0, 0, hits) is Accepted ==> components_hold_from(components(sig), 0, page),
        verdict(components(sig), 0, 0, hits) is Rejected ==> !components_hold_from(components(sig), 0, page),
{
    lemma_verdict_sound(components(sig), 0, 0, hits, page);
}

/// How many selectors are left to ask about from component `ci`,
/// selector `si` on.
pub open spec fn selectors_from(comps: Seq<(ProbeKind, Seq<Seq<char>>)>, ci: int, si: int) -> int
    decreases comps.len() - ci,
{
    if ci < 0 || ci >= comps.len() {
        0
    } else {
        (if si < comps[ci].1.len() {
            comps[ci].1.len() - si
        } else {
            0
        }) + selectors_from(comps, ci + 1, 0)
    }
}

proof fn lemma_asks_bounded(comps: Seq<(ProbeKind, Seq<Seq<char>>)>, ci: int, si: int, hits: Seq<bool>)
    requires
        0 <= ci,
        0 <= si,
    ensures
        verdict(comps, ci, si, hits) is Ask ==> hits.len() < selectors_from(comps, ci, si),
    decreases hits.len(), comps.len() - ci,
{
    if ci >= comps.len() {
        return;
    }
    let k = comps[ci].0;
    let sels = comps[ci].1;
    lemma_selectors_from_nonneg(comps, ci + 1);
    if si >= sels.len() {
        if k == ProbeKind::Absent {
            lemma_asks_bounded(comps, ci + 1, 0, hits);
        }
    } else if hits.len() > 0 {
        if hits[0] {
            if k != ProbeKind::Absent {
                lemma_asks_bounded(comps, ci + 1, 0, hits.drop_first());
            }
        } else {
            lemma_asks_bounded(comps, ci, si + 1, hits.drop_first());
        }
    }
}

proof fn lemma_selectors_from_nonneg(comps: Seq<(ProbeKind, Seq<Seq<char>>)>, ci: int)
    ensures
        selectors_from(comps, ci, 0) >= 0,
    decreases comps.len() - ci,
{
    if 0 <= ci < comps.len() {
        lemma_selectors_from_nonneg(comps, ci + 1);
    }
}

/// Recognizing a place asks the page about each selector of its signature
/// at most once: once as many answers as it has selectors are in, the
/// checks have accepted or rejected the place.
pub proof fn lemma_recognition_asks_at_most_once_per_selector(sig: Signature, hits: Seq<bool>)
    ensures
        verdict(components(sig), 0, 0, hits) is Ask ==> hits.len() < selectors_from(
            components(sig),
            0,
            0,
        ),
{
    lemma_asks_bounded(components(sig), 0, 0, hits);
}

/// The URL part of a signature: a signature without a URL accepts any.
pub open spec fn url_check(sig: Signature, url: Seq<u8>) -> Result<bool, UrlError> {
    match sig.url {
        Some(u) => url_matches(vstd::utf8::encode_utf8(u@), url),
        None => Ok(true),
    }
}

struct Component {
    kind: ProbeKind,
    selectors: Vec<String>,
}

spec fn comp_views(cs: Seq<Component>) -> Seq<(ProbeKind, Seq<Seq<char>>)> {
    cs.map_values(|c: Component| (c.kind, string_views(c.selectors@)))
}

fn push_component(cs: &mut Vec<Component>, k: ProbeKind, o: &Option<String>)
    ensures
        comp_views(final(cs)@) == comp_views(old(cs)@) + opt_component(k, *o),
{
    match o {
        Some(s) => {
            let selectors = split_selector_list(s.as_str());
            cs.push(Component { kind: k, selectors });
            assert(comp_views(final(cs)@) =~= comp_views(old(cs)@) + opt_component(k, *o));
        },
        None => {
            assert(comp_views(final(cs)@) =~= comp_views(old(cs)@) + opt_component(k, *o));
        },
    }
}

fn signature_components(sig: &Signature) -> (r: Vec<Component>)
    ensures
        comp_views(r@) == components(*sig),
{
    let mut cs: Vec<Component> = Vec::new();
    assert(comp_views(cs@) =~= Seq::<(ProbeKind, Seq<Seq<char>>)>::empty());
    push_component(&mut cs, ProbeKind::Present, &sig.selector);
    push_component(&mut cs, ProbeKind::Visible, &sig.visible_selector);
    push_component(&mut cs, ProbeKind::Absent, &sig.absent_selector);
    assert(comp_views(cs@) =~= components(*sig));
    cs
}

enum Outcome {
    Accepted,
    Rejected,
    Ask(Probe),
}

fn selector_verdict(cs: &Vec<Component>, hits: &Vec<bool>) -> (r: Outcome)
    ensures
        match verdict(comp_views(cs@), 0, 0, hits@) {
            Verdict::Accepted => r is Accepted,
            Verdict::Rejected => r is Rejected,
            Verdict::Ask(k, s) => r matches Outcome::Ask(p) && p.kind == k && p.selector@ == s,
        },
{
    let ghost cv = comp_views(cs@);
    let mut ci: usize = 0;
    let mut si: usize = 0;
    let mut h: usize = 0;
    assert(hits@.skip(0) =~= hits@);
    loop
        invariant
            cv == comp_views(cs@),
            ci <= cs@.len(),
            ci < cs@.len() ==> si <= cs@[ci as int].selectors@.len(),
            h <= hits@.len(),
            verdict(cv, 0, 0, hits@) == verdict(cv, ci as int, si as int, hits@.skip(h as int)),
        decreases hits@.len() - h, cs@.len() - ci,
    {
        if ci == cs.len() {
            return Outcome::Accepted;
        }
        let c = &cs[ci];
        let ghost sels = string_views(c.selectors@);
        assert(cv[ci as int] == (c.kind, sels));
        if si == c.selectors.len() {
            if c.kind == ProbeKind::Absent {
                ci = ci + 1;
                si = 0;
            } else {
                return Outcome::Rejected;
            }
        } else if h == hits.len() {
            assert(hits@.skip(h as int).len() == 0);
            assert(sels[si as int] == c.selectors@[si as int]@);
            return Outcome::Ask(Probe { kind: c.kind, selector: c.selectors[si].clone() });
        } else {
            let ghost rest = hits@.skip(h as int);
            assert(rest[0] == hits@[h as int]);
            assert(rest.drop_first() =~= hits@.skip(h + 1));
            if hits[h] {
                if c.kind == ProbeKind::Absent {
                    return Outcome::Rejected;
                }
                ci = ci + 1;
                si = 0;
                h = h + 1;
            } else {
                si = si + 1;
                h = h + 1;
            }
        }
    }
}

/// Where the check of one signature stands.
#[derive(Debug, Clone)]
pub enum SignatureCheck {
    /// Ask the page this and add the answer to the answers so far.
    Probe(Probe),
    /// The signature holds.
    Matches,
    /// The signature does not hold.
    Fails,
}

/// Check a signature against the page URL and the answers so far to its
/// selector queries: the URL part first, then the selector components in
/// order. Used for recognition and for an interactive place's
/// `completion` signature.
pub fn signature_matches(sig: &Signature, url: &str, hits: &Vec<bool>) -> (r: Result<SignatureCheck, UrlError>)
    ensures
        match url_check(*sig, url.spec_bytes()) {
            Err(e) => r == Err::<SignatureCheck, UrlError>(e),
            Ok(false) => r matches Ok(SignatureCheck::Fails),
            Ok(true) => match verdict(components(*sig), 0, 0, hits@) {
                Verdict::Accepted => r matches Ok(SignatureCheck::Matches),
                Verdict::Rejected => r matches Ok(SignatureCheck::Fails),
                Verdict::Ask(k, s) => r matches Ok(SignatureCheck::Probe(p)) && p.kind == k
                    && p.selector@ == s,
            },
        },
{
    match signature_url_matches(sig, url) {
        Err(e) => Err(e),
        Ok(false) => Ok(SignatureCheck::Fails),
        Ok(true) => {
            let cs = signature_components(sig);
            match selector_verdict(&cs, hits) {
                Outcome::Accepted => Ok(SignatureCheck::Matches),
                Outcome::Rejected => Ok(SignatureCheck::Fails),
                Outcome::Ask(probe) => Ok(SignatureCheck::Probe(probe)),
            }
        },
    }
}

/// The next thing to do for place `place` of the graph, given the page
/// URL and the answers so far to this place's queries.
pub fn recognize_step(graph: &PlaceGraph, url: &str, place: usize, hits: &Vec<bool>) -> (r: Result<
    RecognizeStep,
    UrlError,
>)
    ensures
        place >= graph.places@.len() ==> r matches Ok(RecognizeStep::NoMatch),
        place < graph.places@.len() ==> {
            let sig = graph.places@[place as int].signature;
            match url_check(sig, url.spec_bytes()) {
                Err(e) => r == Err::<RecognizeStep, UrlError>(e),
                Ok(false) => r matches Ok(RecognizeStep::NextPlace),
                Ok(true) => match verdict(components(sig), 0, 0, hits@) {
                    Verdict::Accepted => r matches Ok(RecognizeStep::Matched(m)) && m.place_name@
                        == graph.places@[place as int].name@,
                    Verdict::Rejected => r matches Ok(RecognizeStep::NextPlace),
                    Verdict::Ask(k, s) => r matches Ok(RecognizeStep::Probe(p)) && p.kind == k
                        && p.selector@ == s,
                },
            }
        },
{
    if place >= graph.places.len() {
        return Ok(RecognizeStep::NoMatch);
    }
    let p = &graph.places[place];
    match signature_matches(&p.signature, url, hits) {
        Err(e) => Err(e),
        Ok(SignatureCheck::Fails) => Ok(RecognizeStep::NextPlace),
        Ok(SignatureCheck::Matches) => Ok(
            RecognizeStep::Matched(PlaceMatch { place_name: p.name.clone() }),
        ),
        Ok(SignatureCheck::Probe(probe)) => Ok(RecognizeStep::Probe(probe)),
    }
}

} // verus!
