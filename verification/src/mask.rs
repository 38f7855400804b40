//! The mask policy: which selectors redact, which unmask, which patterns
//! form the numeric blacklist, and what a text node or an attribute
//! becomes under them.
//!
//! Per text node: a node under a redact selector becomes one slot; under
//! an unmask selector it passes with blacklist matches slotted, unless it
//! is longer than the cap (then `[TEXT:N]`); anywhere else it becomes
//! `[TEXT:N]`. Whitespace-only nodes pass unchanged. Identity attributes
//! always become one slot; content attributes follow the text ladder with
//! `[ATTR:N]`; structural attributes stay legible with known values and
//! blacklist matches slotted.

use vstd::prelude::*;
use vstd::string::StringExecFns;
use vstd::utf8::{decode_utf8, encode_utf8};
use crate::blacklist::{apply_substring_blacklist, blacklisted, regex_compiles, regex_valid, texts};
use crate::chars::{
    chars_of, contains_seq, contains_str, decimal, is_blank, owned, split_char, split_trimmed_nonempty,
    str_eq, string_views, trim, trim_str, trimmed_nonempty, usize_to_decimal,
};
use crate::model::{Element, MaskConfig, PatternRule, Place, RedactSelector};
use crate::slot::{ValueNameMap, derive_slot, pair_views, slot_text};

verus! {

/// The selectors of a comma-separated selector list, trimmed, empty ones
/// dropped.
pub open spec fn selector_list(s: Seq<char>) -> Seq<Seq<char>> {
    trimmed_nonempty(split_char(s, ','))
}

/// Split a CSS selector list (`"a, b, c"`) into its selectors.
pub fn split_selector_list(s: &str) -> (r: Vec<String>)
    ensures
        string_views(r@) == selector_list(s@),
{
    split_trimmed_nonempty(s, ',')
}

/// Tags or attributes that identify a person or account: the whole value
/// is always one slot.
pub open spec fn sensitive_attribute(tag_name: Seq<char>, attr_name: Seq<char>) -> bool {
    ||| contains_seq(tag_name, "current-user"@)
    ||| attr_name == "username"@
    ||| attr_name == "display-name"@
    ||| attr_name == "author"@
    ||| attr_name == "author-id"@
    ||| attr_name == "user-id"@
    ||| attr_name == "account-id"@
    ||| attr_name == "email"@
    ||| attr_name == "post-upvote-ratio"@
}

/// Whether an attribute identifies a person or account.
pub fn is_sensitive_attribute(tag_name: &str, attr_name: &str) -> (r: bool)
    ensures
        r == sensitive_attribute(tag_name@, attr_name@),
{
    if contains_str(tag_name, "current-user") {
        return true;
    }
    str_eq(attr_name, "username") || str_eq(attr_name, "display-name") || str_eq(attr_name, "author")
        || str_eq(attr_name, "author-id") || str_eq(attr_name, "user-id") || str_eq(
        attr_name,
        "account-id",
    ) || str_eq(attr_name, "email") || str_eq(attr_name, "post-upvote-ratio")
}

/// Attributes that carry free, human-readable text: labels, titles,
/// tooltips, and the typed value of a form control.
pub open spec fn content_attribute(tag_name: Seq<char>, attr_name: Seq<char>) -> bool {
    ||| attr_name == "title"@
    ||| attr_name == "alt"@
    ||| attr_name == "placeholder"@
    ||| attr_name == "label"@
    ||| attr_name == "aria-label"@
    ||| attr_name == "aria-description"@
    ||| attr_name == "aria-roledescription"@
    ||| attr_name == "aria-placeholder"@
    ||| attr_name == "aria-valuetext"@
    ||| attr_name == "data-stringify-text"@
    ||| attr_name == "data-tooltip"@
    ||| attr_name == "data-original-title"@
    ||| (attr_name == "value"@ && (tag_name == "input"@ || tag_name == "textarea"@))
}

/// Whether an attribute carries free, human-readable text.
pub fn is_content_attribute(tag_name: &str, attr_name: &str) -> (r: bool)
    ensures
        r == content_attribute(tag_name@, attr_name@),
{
    if str_eq(attr_name, "title") || str_eq(attr_name, "alt") || str_eq(attr_name, "placeholder")
        || str_eq(attr_name, "label") || str_eq(attr_name, "aria-label") || str_eq(
        attr_name,
        "aria-description",
    ) || str_eq(attr_name, "aria-roledescription") || str_eq(attr_name, "aria-placeholder")
        || str_eq(attr_name, "aria-valuetext") || str_eq(attr_name, "data-stringify-text") || str_eq(
        attr_name,
        "data-tooltip",
    ) || str_eq(attr_name, "data-original-title") {
        return true;
    }
    str_eq(attr_name, "value") && (str_eq(tag_name, "input") || str_eq(tag_name, "textarea"))
}

/// `[TEXT:n]`.
pub open spec fn text_marker(n: nat) -> Seq<char> {
    "[TEXT:"@ + decimal(n) + "]"@
}

/// `[ATTR:n]`.
pub open spec fn attr_marker(n: nat) -> Seq<char> {
    "[ATTR:"@ + decimal(n) + "]"@
}

fn marker(prefix: &str, n: usize) -> (r: String)
    ensures
        r@ == prefix@ + decimal(n as nat) + "]"@,
{
    let mut r = owned(prefix);
    let d = usize_to_decimal(n);
    r.append(d.as_str());
    r.append("]");
    r
}

/// What a text node becomes.
pub open spec fn masked_text(
    buf: Seq<char>,
    redact_depth: nat,
    unmask_depth: nat,
    patterns: Seq<Seq<char>>,
    max_unmasked_chars: nat,
    names: Map<Seq<char>, Seq<char>>,
) -> Seq<char> {
    if is_blank(buf) {
        buf
    } else if redact_depth > 0 {
        slot_text(trim(buf), names)
    } else if unmask_depth > 0 {
        if buf.len() > max_unmasked_chars {
            text_marker(buf.len())
        } else {
            decode_utf8(blacklisted(buf, patterns, names))
        }
    } else {
        text_marker(buf.len())
    }
}

/// A blacklist pattern: its name and its regular expression.
#[derive(Debug, Clone)]
pub struct CompiledPattern {
    pub name: String,
    pub regex: String,
}

/// The regular expressions of the patterns.
pub open spec fn pattern_texts(p: Seq<CompiledPattern>) -> Seq<Seq<char>> {
    Seq::new(p.len(), |i: int| p[i].regex@)
}

/// Every pattern compiles.
pub open spec fn patterns_compile(p: Seq<CompiledPattern>) -> bool {
    forall|i: int| 0 <= i < p.len() ==> regex_valid(#[trigger] p[i].regex@)
}

fn pattern_sources(patterns: &[CompiledPattern]) -> (r: Vec<String>)
    requires
        patterns_compile(patterns@),
    ensures
        texts(r@) == pattern_texts(patterns@),
        forall|i: int| 0 <= i < r@.len() ==> regex_valid(#[trigger] r@[i]@),
{
    let mut r: Vec<String> = Vec::new();
    let mut i: usize = 0;
    while i < patterns.len()
        invariant
            i <= patterns@.len(),
            patterns_compile(patterns@),
            texts(r@) == pattern_texts(patterns@).take(i as int),
            forall|k: int| 0 <= k < r@.len() ==> regex_valid(#[trigger] r@[k]@),
        decreases patterns@.len() - i,
    {
        let ghost before = r@;
        let c = patterns[i].regex.clone();
        assert(c@ == patterns@[i as int].regex@);
        r.push(c);
        proof {
            assert(texts(r@) =~= texts(before).push(c@));
            assert(texts(r@) =~= pattern_texts(patterns@).take(i + 1));
        }
        i = i + 1;
    }
    assert(pattern_texts(patterns@).take(i as int) =~= pattern_texts(patterns@));
    r
}

fn blacklist_string(text: &str, patterns: &[CompiledPattern], vn: &ValueNameMap) -> (r: String)
    requires
        patterns_compile(patterns@),
    ensures
        r@ == decode_utf8(blacklisted(text@, pattern_texts(patterns@), vn@)),
{
    let sources = pattern_sources(patterns);
    let r = apply_substring_blacklist(text, &sources, vn);
    proof {
        vstd::utf8::encode_utf8_decode_utf8(r@);
    }
    r
}

/// What a text node becomes, given how many redact and unmask scopes
/// enclose it.
pub fn compute_masked_text(
    buf: &str,
    redact_depth: usize,
    unmask_depth: usize,
    patterns: &[CompiledPattern],
    max_unmasked_chars: usize,
    vn: &ValueNameMap,
) -> (r: String)
    requires
        patterns_compile(patterns@),
    ensures
        r@ == masked_text(
            buf@,
            redact_depth as nat,
            unmask_depth as nat,
            pattern_texts(patterns@),
            max_unmasked_chars as nat,
            vn@,
        ),
{
    let trimmed = trim_str(buf);
    if trimmed.as_str().is_empty() {
        proof {
            crate::chars::lemma_trim_empty_is_blank(buf@);
        }
        return owned(buf);
    }
    proof {
        crate::chars::lemma_trim_empty_is_blank(buf@);
    }
    let len = chars_of(buf).len();
    if redact_depth > 0 {
        derive_slot(trimmed.as_str(), vn).render()
    } else if unmask_depth > 0 {
        if len > max_unmasked_chars {
            marker("[TEXT:", len)
        } else {
            blacklist_string(buf, patterns, vn)
        }
    } else {
        marker("[TEXT:", len)
    }
}

/// The length of a text in UTF-8 bytes (`str::len`).
pub open spec fn byte_len(s: Seq<char>) -> nat {
    encode_utf8(s).len()
}

/// `x` placed after every replacement at least as long: the stable order
/// by decreasing length.
pub open spec fn insert_by_len(s: Seq<(Seq<char>, Seq<char>)>, x: (Seq<char>, Seq<char>)) -> Seq<(Seq<char>, Seq<char>)>
    decreases s.len(),
{
    if s.len() == 0 {
        seq![x]
    } else if byte_len(s[0].0) < byte_len(x.0) {
        seq![x] + s
    } else {
        seq![s[0]] + insert_by_len(s.skip(1), x)
    }
}

/// The known values found in `value`, each with its slot, longest first
/// (values of equal length in the order they were entered).
pub open spec fn replacements(
    entries: Seq<(Seq<char>, Seq<char>)>,
    value: Seq<char>,
    names: Map<Seq<char>, Seq<char>>,
) -> Seq<(Seq<char>, Seq<char>)>
    decreases entries.len(),
{
    if entries.len() == 0 {
        Seq::empty()
    } else {
        let r = replacements(entries.drop_last(), value, names);
        let known = entries.last().0;
        if known.len() > 0 && contains_seq(value, known) {
            insert_by_len(r, (known, slot_text(known, names)))
        } else {
            r
        }
    }
}

/// Every occurrence of `pat` in `s`, left to right and not overlapping,
/// replaced by `rep` (`str::replace`).
pub open spec fn replace_all(s: Seq<char>, pat: Seq<char>, rep: Seq<char>) -> Seq<char>
    decreases s.len(),
{
    if pat.len() == 0 || s.len() < pat.len() {
        s
    } else if s.take(pat.len() as int) == pat {
        rep + replace_all(s.skip(pat.len() as int), pat, rep)
    } else {
        seq![s[0]] + replace_all(s.skip(1), pat, rep)
    }
}

/// The replacements applied one after another.
pub open spec fn apply_replacements(value: Seq<char>, reps: Seq<(Seq<char>, Seq<char>)>) -> Seq<char>
    decreases reps.len(),
{
    if reps.len() == 0 {
        value
    } else {
        replace_all(apply_replacements(value, reps.drop_last()), reps.last().0, reps.last().1)
    }
}

/// What an attribute value becomes.
pub open spec fn masked_attribute(
    tag_name: Seq<char>,
    attr_name: Seq<char>,
    value: Seq<char>,
    redact_depth: nat,
    unmask_depth: nat,
    max_unmasked_chars: nat,
    patterns: Seq<Seq<char>>,
    vn: ValueNameMap,
) -> Seq<char> {
    if is_blank(value) {
        value
    } else if sensitive_attribute(tag_name, attr_name) {
        slot_text(trim(value), vn@)
    } else if content_attribute(tag_name, attr_name) {
        if redact_depth > 0 {
            slot_text(trim(value), vn@)
        } else if unmask_depth > 0 {
            if value.len() > max_unmasked_chars {
                attr_marker(value.len())
            } else {
                decode_utf8(blacklisted(value, patterns, vn@))
            }
        } else {
            attr_marker(value.len())
        }
    } else {
        decode_utf8(
            blacklisted(apply_replacements(value, replacements(vn.entry_seq(), value, vn@)), patterns, vn@),
        )
    }
}

/// `str::replace`.
pub fn replace_all_str(s: &str, pat: &str, rep: &str) -> (r: String)
    ensures
        r@ == replace_all(s@, pat@, rep@),
{
    let v = chars_of(s);
    let p = chars_of(pat);
    if p.len() == 0 {
        return owned(s);
    }
    let mut out = String::new();
    let mut i: usize = 0;
    assert(v@.skip(0) =~= v@);
    while i < v.len()
        invariant
            v@ == s@,
            p@ == pat@,
            p@.len() > 0,
            i <= v@.len(),
            out@ + replace_all(v@.skip(i as int), p@, rep@) == replace_all(v@, p@, rep@),
        decreases v@.len() - i,
    {
        let ghost rest = v@.skip(i as int);
        if v.len() - i < p.len() {
            let tail = crate::chars::string_from_chars(&v, i, v.len());
            assert(tail@ =~= rest);
            out.append(tail.as_str());
            return out;
        }
        let mut k: usize = 0;
        let mut same = true;
        let vl = v.len();
        while k < p.len()
            invariant
                vl == v@.len(),
                k <= p@.len(),
                i + p@.len() <= v@.len(),
                same == (forall|j: int| 0 <= j < k ==> v@[i + j] == p@[j]),
            decreases p@.len() - k,
        {
            if v[i + k] != p[k] {
                same = false;
            }
            k = k + 1;
        }
        proof {
            if same {
                assert(rest.take(p@.len() as int) =~= p@);
            } else {
                let j = choose|j: int| 0 <= j < p@.len() && v@[i + j] != p@[j];
                assert(rest.take(p@.len() as int)[j] != p@[j]);
            }
        }
        if same {
            out.append(rep);
            proof {
                assert(rest.skip(p@.len() as int) =~= v@.skip(i + p@.len()));
            }
            i = i + p.len();
        } else {
            let ghost prev = out@;
            crate::chars::push_char(&mut out, v[i]);
            proof {
                assert(rest.skip(1) =~= v@.skip(i + 1));
                assert(rest[0] == v@[i as int]);
                assert(prev + (seq![rest[0]] + replace_all(rest.skip(1), p@, rep@)) =~= out@ + replace_all(
                    rest.skip(1),
                    p@,
                    rep@,
                ));
            }
            i = i + 1;
        }
    }
    proof {
        assert(v@.skip(i as int) =~= Seq::<char>::empty());
        assert(out@ + Seq::<char>::empty() =~= out@);
    }
    out
}

/// The views of replacement pairs.
pub open spec fn rep_views(v: Seq<(String, String)>) -> Seq<(Seq<char>, Seq<char>)> {
    Seq::new(v.len(), |i: int| (v[i].0@, v[i].1@))
}

proof fn lemma_insert_by_len_at(s: Seq<(Seq<char>, Seq<char>)>, x: (Seq<char>, Seq<char>), p: int)
    requires
        0 <= p <= s.len(),
        forall|k: int| 0 <= k < p ==> byte_len(#[trigger] s[k].0) >= byte_len(x.0),
        p < s.len() ==> byte_len(s[p].0) < byte_len(x.0),
    ensures
        insert_by_len(s, x) == s.insert(p, x),
    decreases p,
{
    if p == 0 {
        if s.len() > 0 {
            assert(seq![x] + s =~= s.insert(0, x));
        } else {
            assert(seq![x] =~= s.insert(0, x));
        }
    } else {
        let t = s.skip(1);
        assert forall|k: int| 0 <= k < p - 1 implies byte_len(#[trigger] t[k].0) >= byte_len(x.0) by {
            assert(t[k] == s[k + 1]);
        }
        if p - 1 < t.len() {
            assert(t[p - 1] == s[p]);
        }
        lemma_insert_by_len_at(t, x, p - 1);
        assert(seq![s[0]] + t.insert(p - 1, x) =~= s.insert(p, x));
    }
}

fn replacement_insert_point(reps: &Vec<(String, String)>, n: usize, Ghost(known): Ghost<Seq<char>>) -> (p: usize)
    requires
        n == byte_len(known),
    ensures
        p <= reps@.len(),
        forall|k: int| 0 <= k < p ==> byte_len(#[trigger] rep_views(reps@)[k].0) >= byte_len(known),
        p < reps@.len() ==> byte_len(rep_views(reps@)[p as int].0) < byte_len(known),
{
    let mut p: usize = 0;
    while p < reps.len()
        invariant
            p <= reps@.len(),
            n == byte_len(known),
            forall|k: int| 0 <= k < p ==> byte_len(#[trigger] rep_views(reps@)[k].0) >= byte_len(known),
        decreases reps@.len() - p,
    {
        let m = reps[p].0.as_str().as_bytes().len();
        assert(rep_views(reps@)[p as int].0 == reps@[p as int].0@);
        if m < n {
            return p;
        }
        p = p + 1;
    }
    p
}

pub fn insert_replacement(reps: &mut Vec<(String, String)>, known: String, slot: String)
    ensures
        rep_views(final(reps)@) == insert_by_len(rep_views(old(reps)@), (known@, slot@)),
{
    let n = known.as_str().as_bytes().len();
    let p = replacement_insert_point(reps, n, Ghost(known@));
    let ghost before = rep_views(reps@);
    let ghost x = (known@, slot@);
    proof {
        lemma_insert_by_len_at(before, x, p as int);
    }
    reps.insert(p, (known, slot));
    assert(rep_views(reps@) =~= before.insert(p as int, x));
}

/// What an attribute value becomes, given the element's tag and how many
/// redact and unmask scopes enclose it.
pub fn compute_masked_attribute(
    tag_name: &str,
    attr_name: &str,
    value: &str,
    redact_depth: usize,
    unmask_depth: usize,
    max_unmasked_chars: usize,
    patterns: &[CompiledPattern],
    vn: &ValueNameMap,
) -> (r: String)
    requires
        patterns_compile(patterns@),
    ensures
        r@ == masked_attribute(
            tag_name@,
            attr_name@,
            value@,
            redact_depth as nat,
            unmask_depth as nat,
            max_unmasked_chars as nat,
            pattern_texts(patterns@),
            *vn,
        ),
{
    let trimmed = trim_str(value);
    proof {
        crate::chars::lemma_trim_empty_is_blank(value@);
    }
    if trimmed.as_str().is_empty() {
        return owned(value);
    }
    if is_sensitive_attribute(tag_name, attr_name) {
        return derive_slot(trimmed.as_str(), vn).render();
    }
    if is_content_attribute(tag_name, attr_name) {
        if redact_depth > 0 {
            return derive_slot(trimmed.as_str(), vn).render();
        }
        let len = chars_of(value).len();
        if unmask_depth > 0 {
            if len > max_unmasked_chars {
                return marker("[ATTR:", len);
            }
            return blacklist_string(value, patterns, vn);
        }
        return marker("[ATTR:", len);
    }
    let entries = vn.entries();
    let ghost es = pair_views(entries@);
    let mut reps: Vec<(String, String)> = Vec::new();
    let mut i: usize = 0;
    assert(es.take(0) =~= Seq::<(Seq<char>, Seq<char>)>::empty());
    assert(rep_views(reps@) =~= Seq::<(Seq<char>, Seq<char>)>::empty());
    while i < entries.len()
        invariant
            i <= entries@.len(),
            es == pair_views(entries@),
            es == vn.entry_seq(),
            rep_views(reps@) == replacements(es.take(i as int), value@, vn@),
        decreases entries@.len() - i,
    {
        proof {
            assert(es.take(i + 1).drop_last() =~= es.take(i as int));
            assert(es.take(i + 1).last() == (entries@[i as int].0@, entries@[i as int].1@));
        }
        let known = &entries[i].0;
        if !known.as_str().is_empty() && contains_str(value, known.as_str()) {
            let slot = derive_slot(known.as_str(), vn).render();
            insert_replacement(&mut reps, known.clone(), slot);
        }
        i = i + 1;
    }
    assert(es.take(i as int) =~= es);
    let ghost rv = rep_views(reps@);
    let mut out = owned(value);
    let mut j: usize = 0;
    assert(rv.take(0) =~= Seq::<(Seq<char>, Seq<char>)>::empty());
    while j < reps.len()
        invariant
            j <= reps@.len(),
            rv == rep_views(reps@),
            out@ == apply_replacements(value@, rv.take(j as int)),
        decreases reps@.len() - j,
    {
        proof {
            assert(rv.take(j + 1).drop_last() =~= rv.take(j as int));
            assert(rv.take(j + 1).last() == (reps@[j as int].0@, reps@[j as int].1@));
        }
        out = replace_all_str(out.as_str(), reps[j].0.as_str(), reps[j].1.as_str());
        j = j + 1;
    }
    assert(rv.take(j as int) =~= rv);
    blacklist_string(out.as_str(), patterns, vn)
}

/// The selectors of every redact-selector entry, in order.
pub open spec fn redact_list(rs: Seq<RedactSelector>) -> Seq<Seq<char>>
    decreases rs.len(),
{
    if rs.len() == 0 {
        Seq::empty()
    } else {
        redact_list(rs.drop_last()) + selector_list(rs.last().selector@)
    }
}

/// The selectors of every element marked unmasked, in order.
pub open spec fn unmask_list(els: Seq<Element>) -> Seq<Seq<char>>
    decreases els.len(),
{
    if els.len() == 0 {
        Seq::empty()
    } else {
        unmask_list(els.drop_last()) + if els.last().unmasked {
            selector_list(els.last().selector@)
        } else {
            Seq::empty()
        }
    }
}

/// The first pattern that does not compile.
pub open spec fn first_invalid_from(ps: Seq<PatternRule>, i: int) -> Option<int>
    decreases ps.len() - i,
{
    if i < 0 || i >= ps.len() {
        None
    } else if !regex_valid(ps[i].regex@) {
        Some(i)
    } else {
        first_invalid_from(ps, i + 1)
    }
}

/// The length cap: a cap of 0 counts as unset and means the default 200.
pub open spec fn effective_cap(n: usize) -> nat {
    if n == 0 {
        200
    } else {
        n as nat
    }
}

/// The name and expression of each pattern rule.
pub open spec fn rule_views(ps: Seq<PatternRule>) -> Seq<(Seq<char>, Seq<char>)> {
    Seq::new(ps.len(), |i: int| (ps[i].name@, ps[i].regex@))
}

/// The name and expression of each compiled pattern.
pub open spec fn compiled_views(ps: Seq<CompiledPattern>) -> Seq<(Seq<char>, Seq<char>)> {
    Seq::new(ps.len(), |i: int| (ps[i].name@, ps[i].regex@))
}

/// Why a mask configuration was refused.
#[derive(Debug, Clone)]
pub enum MaskPolicyError {
    /// The pattern of this name does not compile.
    InvalidPattern(String),
}

/// The site-wide mask policy: blacklist patterns, redact selectors,
/// site-wide unmask selectors and the length cap.
#[derive(Debug)]
pub struct MaskPolicy {
    patterns: Vec<CompiledPattern>,
    redact_selectors: Vec<String>,
    site_unmask_selectors: Vec<String>,
    max_unmasked_chars: usize,
}

/// The policy for one place: the site policy plus the place's own unmask
/// selectors.
#[derive(Debug)]
pub struct EffectivePolicy {
    patterns: Vec<CompiledPattern>,
    redact_selectors: Vec<String>,
    unmask_selectors: Vec<String>,
    max_unmasked_chars: usize,
}

fn clone_strings(v: &Vec<String>) -> (r: Vec<String>)
    ensures
        string_views(r@) == string_views(v@),
{
    let mut r: Vec<String> = Vec::new();
    let mut i: usize = 0;
    while i < v.len()
        invariant
            i <= v@.len(),
            string_views(r@) == string_views(v@).take(i as int),
        decreases v@.len() - i,
    {
        let c = v[i].clone();
        let ghost before = r@;
        r.push(c);
        assert(string_views(r@) =~= string_views(before).push(c@));
        assert(string_views(r@) =~= string_views(v@).take(i + 1));
        i = i + 1;
    }
    assert(string_views(v@).take(i as int) =~= string_views(v@));
    r
}

fn clone_patterns(v: &Vec<CompiledPattern>) -> (r: Vec<CompiledPattern>)
    ensures
        compiled_views(r@) == compiled_views(v@),
        pattern_texts(r@) == pattern_texts(v@),
{
    let mut r: Vec<CompiledPattern> = Vec::new();
    let mut i: usize = 0;
    while i < v.len()
        invariant
            i <= v@.len(),
            compiled_views(r@) == compiled_views(v@).take(i as int),
        decreases v@.len() - i,
    {
        let c = CompiledPattern { name: v[i].name.clone(), regex: v[i].regex.clone() };
        let ghost before = r@;
        r.push(c);
        assert(compiled_views(r@) =~= compiled_views(before).push((c.name@, c.regex@)));
        assert(compiled_views(r@) =~= compiled_views(v@).take(i + 1));
        i = i + 1;
    }
    assert(compiled_views(v@).take(i as int) =~= compiled_views(v@));
    assert forall|k: int| 0 <= k < r@.len() implies pattern_texts(r@)[k] == pattern_texts(v@)[k] by {
        assert(compiled_views(r@)[k] == compiled_views(v@)[k]);
    }
    assert(pattern_texts(r@) =~= pattern_texts(v@));
    r
}

fn append_strings(out: &mut Vec<String>, more: Vec<String>)
    ensures
        string_views(final(out)@) == string_views(old(out)@) + string_views(more@),
{
    let mut i: usize = 0;
    while i < more.len()
        invariant
            i <= more@.len(),
            string_views(out@) == string_views(old(out)@) + string_views(more@).take(i as int),
        decreases more@.len() - i,
    {
        let c = more[i].clone();
        let ghost before = out@;
        out.push(c);
        assert(string_views(out@) =~= string_views(before).push(c@));
        assert(string_views(out@) =~= string_views(old(out)@) + string_views(more@).take(i + 1));
        i = i + 1;
    }
    assert(string_views(more@).take(i as int) =~= string_views(more@));
}

fn unmasked_selectors(els: &[Element]) -> (r: Vec<String>)
    ensures
        string_views(r@) == unmask_list(els@),
{
    let mut r: Vec<String> = Vec::new();
    let mut i: usize = 0;
    assert(els@.take(0) =~= Seq::<Element>::empty());
    assert(string_views(r@) =~= Seq::<Seq<char>>::empty());
    while i < els.len()
        invariant
            i <= els@.len(),
            string_views(r@) == unmask_list(els@.take(i as int)),
        decreases els@.len() - i,
    {
        proof {
            assert(els@.take(i + 1).drop_last() =~= els@.take(i as int));
            assert(els@.take(i + 1).last() == els@[i as int]);
        }
        if els[i].unmasked {
            let more = split_selector_list(els[i].selector.as_str());
            append_strings(&mut r, more);
        } else {
            assert(string_views(r@) + Seq::<Seq<char>>::empty() =~= string_views(r@));
        }
        i = i + 1;
    }
    assert(els@.take(i as int) =~= els@);
    r
}

impl MaskPolicy {
    #[verifier::type_invariant]
    closed spec fn inv(&self) -> bool {
        patterns_compile(self.patterns@)
    }

    /// The blacklist patterns: name and expression.
    pub closed spec fn pattern_rules(&self) -> Seq<(Seq<char>, Seq<char>)> {
        compiled_views(self.patterns@)
    }

    pub closed spec fn redact_view(&self) -> Seq<Seq<char>> {
        string_views(self.redact_selectors@)
    }

    pub closed spec fn site_unmask_view(&self) -> Seq<Seq<char>> {
        string_views(self.site_unmask_selectors@)
    }

    pub closed spec fn cap(&self) -> nat {
        self.max_unmasked_chars as nat
    }

    /// Build the site-wide policy from `mask.toml` and the site-wide
    /// elements; refused when a pattern does not compile.
    pub fn build(cfg: &MaskConfig, site_elements: &[Element]) -> (r: Result<MaskPolicy, MaskPolicyError>)
        ensures
            match r {
                Ok(p) => {
                    &&& first_invalid_from(cfg.mask.patterns@, 0) is None
                    &&& p.pattern_rules() == rule_views(cfg.mask.patterns@)
                    &&& p.redact_view() == redact_list(cfg.mask.redact_selectors@)
                    &&& p.site_unmask_view() == unmask_list(site_elements@)
                    &&& p.cap() == effective_cap(cfg.max_unmasked_chars)
                },
                Err(MaskPolicyError::InvalidPattern(name)) => first_invalid_from(cfg.mask.patterns@, 0) matches Some(
                    i,
                ) && name@ == cfg.mask.patterns@[i].name@,
            },
    {
        let rules = &cfg.mask.patterns;
        let mut patterns: Vec<CompiledPattern> = Vec::new();
        let mut i: usize = 0;
        while i < rules.len()
            invariant
                i <= rules@.len(),
                rules@ == cfg.mask.patterns@,
                first_invalid_from(rules@, 0) == first_invalid_from(rules@, i as int),
                compiled_views(patterns@) == rule_views(rules@).take(i as int),
                patterns_compile(patterns@),
            decreases rules@.len() - i,
        {
            if !regex_compiles(rules[i].regex.as_str()) {
                return Err(MaskPolicyError::InvalidPattern(rules[i].name.clone()));
            }
            let c = CompiledPattern { name: rules[i].name.clone(), regex: rules[i].regex.clone() };
            let ghost before = patterns@;
            patterns.push(c);
            proof {
                assert(compiled_views(patterns@) =~= compiled_views(before).push((c.name@, c.regex@)));
                assert(compiled_views(patterns@) =~= rule_views(rules@).take(i + 1));
                assert forall|k: int| 0 <= k < patterns@.len() implies regex_valid(#[trigger] patterns@[k].regex@) by {
                    if k < before.len() {
                        assert(patterns@[k] == before[k]);
                    }
                }
            }
            i = i + 1;
        }
        assert(rule_views(rules@).take(i as int) =~= rule_views(rules@));
        let rs = &cfg.mask.redact_selectors;
        let mut redact: Vec<String> = Vec::new();
        let mut k: usize = 0;
        assert(rs@.take(0) =~= Seq::<RedactSelector>::empty());
        assert(string_views(redact@) =~= Seq::<Seq<char>>::empty());
        while k < rs.len()
            invariant
                k <= rs@.len(),
                string_views(redact@) == redact_list(rs@.take(k as int)),
            decreases rs@.len() - k,
        {
            proof {
                assert(rs@.take(k + 1).drop_last() =~= rs@.take(k as int));
                assert(rs@.take(k + 1).last() == rs@[k as int]);
            }
            let more = split_selector_list(rs[k].selector.as_str());
            append_strings(&mut redact, more);
            k = k + 1;
        }
        assert(rs@.take(k as int) =~= rs@);
        let site_unmask = unmasked_selectors(site_elements);
        let max = if cfg.max_unmasked_chars == 0 {
            200
        } else {
            cfg.max_unmasked_chars
        };
        Ok(
            MaskPolicy {
                patterns,
                redact_selectors: redact,
                site_unmask_selectors: site_unmask,
                max_unmasked_chars: max,
            },
        )
    }

    /// The policy for one place: the place's unmasked elements add their
    /// selectors to the site-wide unmask selectors.
    pub fn for_place(&self, place: &Place) -> (r: EffectivePolicy)
        ensures
            r.pattern_rules() == self.pattern_rules(),
            r.redact_view() == self.redact_view(),
            r.unmask_view() == self.site_unmask_view() + unmask_list(place.elements@),
            r.cap() == self.cap(),
    {
        proof {
            use_type_invariant(self);
        }
        let mut unmask = clone_strings(&self.site_unmask_selectors);
        let more = unmasked_selectors(place.elements.as_slice());
        append_strings(&mut unmask, more);
        let patterns = clone_patterns(&self.patterns);
        proof {
            assert forall|k: int| 0 <= k < patterns@.len() implies regex_valid(#[trigger] patterns@[k].regex@) by {
                assert(pattern_texts(patterns@).len() == pattern_texts(self.patterns@).len());
                assert(k < self.patterns@.len());
                assert(patterns_compile(self.patterns@));
                assert(pattern_texts(patterns@)[k] == pattern_texts(self.patterns@)[k]);
                assert(regex_valid(self.patterns@[k].regex@));
            }
        }
        EffectivePolicy {
            patterns,
            redact_selectors: clone_strings(&self.redact_selectors),
            unmask_selectors: unmask,
            max_unmasked_chars: self.max_unmasked_chars,
        }
    }

    pub fn max_unmasked_chars(&self) -> (r: usize)
        ensures
            r == self.cap(),
    {
        self.max_unmasked_chars
    }
}

impl EffectivePolicy {
    #[verifier::type_invariant]
    closed spec fn inv(&self) -> bool {
        patterns_compile(self.patterns@)
    }

    pub closed spec fn pattern_rules(&self) -> Seq<(Seq<char>, Seq<char>)> {
        compiled_views(self.patterns@)
    }

    /// The blacklist expressions: the expression of each pattern rule, in
    /// order.
    pub open spec fn pattern_exprs(&self) -> Seq<Seq<char>> {
        Seq::new(self.pattern_rules().len(), |i: int| self.pattern_rules()[i].1)
    }

    pub closed spec fn redact_view(&self) -> Seq<Seq<char>> {
        string_views(self.redact_selectors@)
    }

    pub closed spec fn unmask_view(&self) -> Seq<Seq<char>> {
        string_views(self.unmask_selectors@)
    }

    pub closed spec fn cap(&self) -> nat {
        self.max_unmasked_chars as nat
    }

    pub fn redact_selectors(&self) -> (r: &Vec<String>)
        ensures
            string_views(r@) == self.redact_view(),
    {
        &self.redact_selectors
    }

    pub fn unmask_selectors(&self) -> (r: &Vec<String>)
        ensures
            string_views(r@) == self.unmask_view(),
    {
        &self.unmask_selectors
    }

    pub fn max_unmasked_chars(&self) -> (r: usize)
        ensures
            r == self.cap(),
    {
        self.max_unmasked_chars
    }

    /// What a text node becomes under this policy.
    pub fn mask_text(&self, buf: &str, redact_depth: usize, unmask_depth: usize, vn: &ValueNameMap) -> (r: String)
        ensures
            r@ == masked_text(buf@, redact_depth as nat, unmask_depth as nat, self.pattern_exprs(), self.cap(), vn@),
    {
        proof {
            use_type_invariant(self);
        }
        assert(self.pattern_exprs() =~= pattern_texts(self.patterns@));
        compute_masked_text(buf, redact_depth, unmask_depth, self.patterns.as_slice(), self.max_unmasked_chars, vn)
    }

    /// What an attribute value becomes under this policy.
    pub fn mask_attribute(
        &self,
        tag_name: &str,
        attr_name: &str,
        value: &str,
        redact_depth: usize,
        unmask_depth: usize,
        vn: &ValueNameMap,
    ) -> (r: String)
        ensures
            r@ == masked_attribute(
                tag_name@,
                attr_name@,
                value@,
                redact_depth as nat,
                unmask_depth as nat,
                self.cap(),
                self.pattern_exprs(),
                *vn,
            ),
    {
        proof {
            use_type_invariant(self);
        }
        assert(self.pattern_exprs() =~= pattern_texts(self.patterns@));
        compute_masked_attribute(
            tag_name,
            attr_name,
            value,
            redact_depth,
            unmask_depth,
            self.max_unmasked_chars,
            self.patterns.as_slice(),
            vn,
        )
    }
}

/// Masked HTML: the output of the masking pipeline.
#[derive(Debug, Clone)]
pub struct MaskedHtml(pub String);

/// Raw, unmasked HTML, handed out only on the explicit raw path.
#[derive(Debug, Clone)]
pub struct RawHtml(pub String);

/// Default deny: outside every redact and unmask scope, text that is not
/// blank never passes; it becomes `[TEXT:N]`, N its length.
pub proof fn lemma_text_default_deny(
    buf: Seq<char>,
    patterns: Seq<Seq<char>>,
    cap: nat,
    names: Map<Seq<char>, Seq<char>>,
)
    requires
        !is_blank(buf),
    ensures
        masked_text(buf, 0, 0, patterns, cap, names) == text_marker(buf.len()),
{
}

/// A redact scope wins over any unmask scope: the whole trimmed text
/// becomes one slot.
pub proof fn lemma_redact_wins(
    buf: Seq<char>,
    redact_depth: nat,
    unmask_depth: nat,
    patterns: Seq<Seq<char>>,
    cap: nat,
    names: Map<Seq<char>, Seq<char>>,
)
    requires
        !is_blank(buf),
        redact_depth > 0,
    ensures
        masked_text(buf, redact_depth, unmask_depth, patterns, cap, names) == slot_text(trim(buf), names),
{
}

/// Whitespace-only text passes unchanged in every scope.
pub proof fn lemma_blank_text_passes(
    buf: Seq<char>,
    redact_depth: nat,
    unmask_depth: nat,
    patterns: Seq<Seq<char>>,
    cap: nat,
    names: Map<Seq<char>, Seq<char>>,
)
    requires
        is_blank(buf),
    ensures
        masked_text(buf, redact_depth, unmask_depth, patterns, cap, names) == buf,
{
}

/// Unmasked text longer than the cap collapses to `[TEXT:N]`.
pub proof fn lemma_unmasked_text_is_capped(
    buf: Seq<char>,
    unmask_depth: nat,
    patterns: Seq<Seq<char>>,
    cap: nat,
    names: Map<Seq<char>, Seq<char>>,
)
    requires
        !is_blank(buf),
        unmask_depth > 0,
        buf.len() > cap,
    ensures
        masked_text(buf, 0, unmask_depth, patterns, cap, names) == text_marker(buf.len()),
{
}

/// Identity-bearing attributes always become one slot, in every scope.
pub proof fn lemma_sensitive_attribute_is_one_slot(
    tag_name: Seq<char>,
    attr_name: Seq<char>,
    value: Seq<char>,
    redact_depth: nat,
    unmask_depth: nat,
    cap: nat,
    patterns: Seq<Seq<char>>,
    vn: ValueNameMap,
)
    requires
        !is_blank(value),
        sensitive_attribute(tag_name, attr_name),
    ensures
        masked_attribute(tag_name, attr_name, value, redact_depth, unmask_depth, cap, patterns, vn)
            == slot_text(trim(value), vn@),
{
}

/// Outside every scope, a content attribute that is not blank and not
/// identity-bearing becomes `[ATTR:N]`.
pub proof fn lemma_content_attribute_default_deny(
    tag_name: Seq<char>,
    attr_name: Seq<char>,
    value: Seq<char>,
    cap: nat,
    patterns: Seq<Seq<char>>,
    vn: ValueNameMap,
)
    requires
        !is_blank(value),
        !sensitive_attribute(tag_name, attr_name),
        content_attribute(tag_name, attr_name),
    ensures
        masked_attribute(tag_name, attr_name, value, 0, 0, cap, patterns, vn) == attr_marker(value.len()),
{
}

/// A redact scope wins for content attributes too: a content attribute that
/// is not blank becomes one slot of its trimmed value, whatever unmask
/// scope also holds.
pub proof fn lemma_content_attribute_redact_wins(
    tag_name: Seq<char>,
    attr_name: Seq<char>,
    value: Seq<char>,
    redact_depth: nat,
    unmask_depth: nat,
    cap: nat,
    patterns: Seq<Seq<char>>,
    vn: ValueNameMap,
)
    requires
        !is_blank(value),
        content_attribute(tag_name, attr_name),
        redact_depth > 0,
    ensures
        masked_attribute(tag_name, attr_name, value, redact_depth, unmask_depth, cap, patterns, vn)
            == slot_text(trim(value), vn@),
{
}

/// A content attribute that is not identity-bearing is masked as a text
/// node with the same value in the same scopes would be, except that where
/// the text would become `[TEXT:N]` the attribute becomes `[ATTR:N]`.
pub proof fn lemma_content_attribute_masked_like_text(
    tag_name: Seq<char>,
    attr_name: Seq<char>,
    value: Seq<char>,
    redact_depth: nat,
    unmask_depth: nat,
    cap: nat,
    patterns: Seq<Seq<char>>,
    vn: ValueNameMap,
)
    requires
        content_attribute(tag_name, attr_name),
        !sensitive_attribute(tag_name, attr_name),
    ensures
        is_blank(value) || redact_depth > 0 || (unmask_depth > 0 && value.len() <= cap) ==> masked_attribute(
            tag_name,
            attr_name,
            value,
            redact_depth,
            unmask_depth,
            cap,
            patterns,
            vn,
        ) == masked_text(value, redact_depth, unmask_depth, patterns, cap, vn@),
        !is_blank(value) && redact_depth == 0 && (unmask_depth == 0 || value.len() > cap) ==> masked_text(
            value,
            redact_depth,
            unmask_depth,
            patterns,
            cap,
            vn@,
        ) == text_marker(value.len()) && masked_attribute(
            tag_name,
            attr_name,
            value,
            redact_depth,
            unmask_depth,
            cap,
            patterns,
            vn,
        ) == attr_marker(value.len()),
{
}

} // verus!
