//! Plain data shared across the toolchain: site settings, places and
//! their signatures, elements, mask configuration, slots and the unmask
//! approval decision.

use vstd::prelude::*;
use vstd::string::StringExecFns;
use crate::chars::{collapse_whitespace, collapse_whitespace_str, push_char};

verus! {

/// Non-secret site-local settings (`site.toml`).
#[derive(Debug, Clone)]
pub struct SiteConfig {
    /// 1Password account shorthand/domain passed to `op --account`.
    pub onepassword_account: Option<String>,
}

impl SiteConfig {
    /// A configuration with no account set.
    pub fn empty() -> (c: SiteConfig)
        ensures
            c.onepassword_account is None,
    {
        SiteConfig { onepassword_account: None }
    }
}

/// Recognition criteria for a page state; every set component must match.
#[derive(Debug, Clone)]
pub struct Signature {
    pub url: Option<String>,
    pub selector: Option<String>,
    pub visible_selector: Option<String>,
    pub absent_selector: Option<String>,
    pub text: Option<String>,
}

impl Signature {
    /// A signature with no criteria.
    pub fn empty() -> (s: Signature)
        ensures
            s.url is None,
            s.selector is None,
            s.visible_selector is None,
            s.absent_selector is None,
            s.text is None,
    {
        Signature { url: None, selector: None, visible_selector: None, absent_selector: None, text: None }
    }
}

/// Non-secret context shown in the unmask approval dialog.
#[derive(Debug, Clone)]
pub struct UnmaskApprovalContext {
    pub scope: Option<String>,
    pub site: Option<String>,
    pub place: Option<String>,
    pub current_url: Option<String>,
    pub reason: Option<String>,
    pub signature: Option<Signature>,
}

impl UnmaskApprovalContext {
    /// A context with nothing filled in.
    pub fn empty() -> (c: UnmaskApprovalContext)
        ensures
            c.scope is None,
            c.site is None,
            c.place is None,
            c.current_url is None,
            c.reason is None,
            c.signature is None,
    {
        UnmaskApprovalContext {
            scope: None,
            site: None,
            place: None,
            current_url: None,
            reason: None,
            signature: None,
        }
    }
}

/// The user's decision in the unmask approval dialog.
#[derive(Debug, Clone)]
pub struct UnmaskApprovalDecision {
    pub approved: bool,
    /// Optional user-written guidance, whitespace-normalized.
    pub feedback: Option<String>,
}

/// The feedback kept from what the user typed: its words joined by single
/// spaces, or nothing when it has no words.
pub open spec fn cleaned_feedback(s: Seq<char>) -> Option<Seq<char>> {
    if collapse_whitespace(s).len() == 0 {
        None
    } else {
        Some(collapse_whitespace(s))
    }
}

/// Normalize feedback whitespace; blank feedback becomes `None`.
pub fn clean_feedback(feedback: String) -> (r: Option<String>)
    ensures
        match r {
            Some(f) => cleaned_feedback(feedback@) == Some(f@),
            None => cleaned_feedback(feedback@) is None,
        },
{
    let f = collapse_whitespace_str(feedback.as_str());
    if f.as_str().is_empty() {
        None
    } else {
        Some(f)
    }
}

impl UnmaskApprovalDecision {
    pub fn new(approved: bool, feedback: &str) -> (d: UnmaskApprovalDecision)
        ensures
            d.approved == approved,
            match d.feedback {
                Some(f) => cleaned_feedback(feedback@) == Some(f@),
                None => cleaned_feedback(feedback@) is None,
            },
    {
        let feedback = clean_feedback(String::from_str(feedback));
        UnmaskApprovalDecision { approved, feedback }
    }

    /// The decision before the user has answered: not approved, no feedback.
    pub fn undecided() -> (d: UnmaskApprovalDecision)
        ensures
            !d.approved,
            d.feedback is None,
    {
        UnmaskApprovalDecision { approved: false, feedback: None }
    }
}

/// A named DOM element with optional auto-fill source and unmask flag.
#[derive(Debug, Clone)]
pub struct Element {
    pub name: String,
    pub selector: String,
    /// Secret-provider reference or `{name}` values reference for auto-fill.
    pub auto_fill: Option<String>,
    /// Whether the masking layer leaves this element's text unmasked.
    pub unmasked: bool,
}

/// How to transit from a parent place to this one.
#[derive(Debug, Clone)]
pub struct Transition {
    pub click: Option<String>,
    pub fill: Option<FillTransition>,
}

#[derive(Debug, Clone)]
pub struct Submit {
    pub click: Option<String>,
}

#[derive(Debug, Clone)]
pub struct FillTransition {
    pub selector: String,
    pub value: String,
}

/// A named, recognizable destination on a site.
#[derive(Debug, Clone)]
pub struct Place {
    pub name: String,
    /// Direct-navigation URL.
    pub url: Option<String>,
    /// Parent place name when reached by transition.
    pub from: Option<String>,
    pub via: Option<Transition>,
    /// Whether the human completes a flow here (login, 2FA).
    pub interactive: bool,
    /// Click run after all auto-fill fields were filled.
    pub submit: Option<Submit>,
    pub signature: Signature,
    /// How an interactive flow is known to be complete.
    pub completion: Option<Signature>,
    /// Where to go whenever this place is recognized.
    pub redirect: Option<String>,
    /// Per-place named elements.
    pub elements: Vec<Element>,
}

impl Place {
    /// A place with the given name, an empty signature and nothing else.
    pub fn named(name: String) -> (p: Place)
        ensures
            p.name@ == name@,
            p.url is None,
            !p.interactive,
            p.elements@.len() == 0,
    {
        Place {
            name,
            url: None,
            from: None,
            via: None,
            interactive: false,
            submit: None,
            signature: Signature::empty(),
            completion: None,
            redirect: None,
            elements: Vec::new(),
        }
    }
}

/// Identity of a redacted value.
#[derive(Debug, Clone, Hash)]
pub enum SlotId {
    /// User-given name from values.toml.
    Named(String),
    /// First 8 hex characters of the value's SHA-256.
    Hash(String),
}

/// A slot for a redacted value: `[$<id> <description>]`.
#[derive(Debug, Clone, Hash)]
pub struct Slot {
    pub id: SlotId,
    pub description: String,
}

impl SlotId {
    pub open spec fn text(&self) -> Seq<char> {
        match self {
            SlotId::Named(n) => n@,
            SlotId::Hash(h) => h@,
        }
    }
}

/// Whether two ids are the same kind with the same text.
pub open spec fn same_slot_id(a: SlotId, b: SlotId) -> bool {
    match (a, b) {
        (SlotId::Named(x), SlotId::Named(y)) => x@ == y@,
        (SlotId::Hash(x), SlotId::Hash(y)) => x@ == y@,
        _ => false,
    }
}

impl PartialEq for SlotId {
    fn eq(&self, other: &Self) -> (r: bool) {
        match (self, other) {
            (SlotId::Named(a), SlotId::Named(b)) => *a == *b,
            (SlotId::Hash(a), SlotId::Hash(b)) => *a == *b,
            _ => false,
        }
    }
}

impl vstd::std_specs::cmp::PartialEqSpecImpl for SlotId {
    open spec fn obeys_eq_spec() -> bool {
        true
    }

    open spec fn eq_spec(&self, other: &Self) -> bool {
        same_slot_id(*self, *other)
    }
}

impl Eq for SlotId {
}

impl PartialEq for Slot {
    fn eq(&self, other: &Self) -> (r: bool) {
        self.id == other.id && self.description == other.description
    }
}

impl vstd::std_specs::cmp::PartialEqSpecImpl for Slot {
    open spec fn obeys_eq_spec() -> bool {
        true
    }

    open spec fn eq_spec(&self, other: &Self) -> bool {
        same_slot_id(self.id, other.id) && self.description@ == other.description@
    }
}

impl Eq for Slot {
}

/// `[$<id>]`, or `[$<id> <description>]` when there is a description.
pub open spec fn render_slot(id: Seq<char>, description: Seq<char>) -> Seq<char> {
    if description.len() == 0 {
        seq!['[', '$'] + id + seq![']']
    } else {
        seq!['[', '$'] + id + seq![' '] + description + seq![']']
    }
}

impl Slot {
    pub open spec fn spec_render(&self) -> Seq<char> {
        render_slot(self.id.text(), self.description@)
    }

    /// Render to the `[$<id> <description>]` form used in masked HTML.
    pub fn render(&self) -> (r: String)
        ensures
            r@ == self.spec_render(),
    {
        let mut out = String::new();
        push_char(&mut out, '[');
        push_char(&mut out, '$');
        match &self.id {
            SlotId::Named(n) => out.append(n.as_str()),
            SlotId::Hash(h) => out.append(h.as_str()),
        }
        if !self.description.as_str().is_empty() {
            push_char(&mut out, ' ');
            out.append(self.description.as_str());
        }
        push_char(&mut out, ']');
        proof {
            assert(out@ =~= self.spec_render());
        }
        out
    }
}

/// A named numeric-blacklist pattern (`mask.toml` `[[mask.pattern]]`).
#[derive(Debug, Clone)]
pub struct PatternRule {
    pub name: String,
    pub regex: String,
}

/// An always-redact selector (`mask.toml` `[[mask.redact_selectors]]`).
#[derive(Debug, Clone)]
pub struct RedactSelector {
    pub selector: String,
}

#[derive(Debug, Clone)]
pub struct MaskInner {
    pub patterns: Vec<PatternRule>,
    pub redact_selectors: Vec<RedactSelector>,
}

/// Site-wide mask policy (`mask.toml`).
#[derive(Debug, Clone)]
pub struct MaskConfig {
    pub mask: MaskInner,
    /// Length cap on unmasked text; 0 means the default.
    pub max_unmasked_chars: usize,
}

/// The documented default length cap on unmasked text.
pub fn default_max_unmasked_chars() -> (n: usize)
    ensures
        n == 200,
{
    200
}

impl Default for MaskConfig {
    /// What a site without `mask.toml` has: no patterns, no redact
    /// selectors and a stored cap of 0, which building the policy reads as
    /// the default cap.
    fn default() -> (c: MaskConfig)
        ensures
            c.mask.patterns@.len() == 0,
            c.mask.redact_selectors@.len() == 0,
            c.max_unmasked_chars == 0,
    {
        MaskConfig { mask: MaskInner { patterns: Vec::new(), redact_selectors: Vec::new() }, max_unmasked_chars: 0 }
    }
}

impl MaskConfig {
    /// No patterns, no redact selectors, the default length cap.
    pub fn empty() -> (c: MaskConfig)
        ensures
            c.mask.patterns@.len() == 0,
            c.mask.redact_selectors@.len() == 0,
            c.max_unmasked_chars == 200,
    {
        MaskConfig {
            mask: MaskInner { patterns: Vec::new(), redact_selectors: Vec::new() },
            max_unmasked_chars: default_max_unmasked_chars(),
        }
    }
}

} // verus!
