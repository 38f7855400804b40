//! The numeric blacklist: every match of every blacklist pattern becomes
//! the slot of the matched text. Matches are taken by start, longest
//! first at the same start; a match that starts inside an earlier one is
//! dropped.

use vstd::prelude::*;
use vstd::string::{StringExecFns, StringSliceAdditionalSpecFns};
use vstd::utf8::{decode_utf8, encode_utf8, is_char_boundary};
use crate::slot::{ValueNameMap, derive_slot, slot_text};

verus! {

/// Whether `pattern` compiles as a regular expression.
pub uninterp spec fn regex_valid(pattern: Seq<char>) -> bool;

/// The byte spans of the successive matches of `pattern` in `haystack`.
pub uninterp spec fn regex_find_all(pattern: Seq<char>, haystack: Seq<char>) -> Seq<(int, int)>;

/// The spans of a vector of spans.
pub open spec fn span_views(v: Seq<(usize, usize)>) -> Seq<(int, int)> {
    Seq::new(v.len(), |i: int| (v[i].0 as int, v[i].1 as int))
}

/// A span lies in `bytes`, from one character boundary to another.
pub open spec fn span_in(bytes: Seq<u8>, s: (int, int)) -> bool {
    &&& 0 <= s.0 <= s.1 <= bytes.len()
    &&& is_char_boundary(bytes, s.0)
    &&& is_char_boundary(bytes, s.1)
}

/// `regex::Regex::new(pattern)` followed by `Regex::find_iter(haystack)`,
/// as `(start, end)` byte offsets. `None` when the pattern does not
/// compile. Which spans match is the regex crate's semantics and only
/// named here; stated is what its documentation gives of every match:
/// it lies within the haystack and starts and ends on UTF-8 character
/// boundaries.
#[verifier::external_body]
pub(crate) fn regex_find_spans(pattern: &str, haystack: &str) -> (r: Option<Vec<(usize, usize)>>)
    ensures
        r is Some <==> regex_valid(pattern@),
        r matches Some(v) ==> span_views(v@) == regex_find_all(pattern@, haystack@),
        r matches Some(v) ==> forall|i: int| 0 <= i < v@.len() ==> span_in(
            haystack.spec_bytes(),
            #[trigger] span_views(v@)[i],
        ),
{
    match regex::Regex::new(pattern) {
        Ok(re) => Some(re.find_iter(haystack).map(|m| (m.start(), m.end())).collect()),
        Err(_) => None,
    }
}

/// `regex::Regex::new(pattern).is_ok()`.
#[verifier::external_body]
pub(crate) fn regex_compiles(pattern: &str) -> (r: bool)
    ensures
        r == regex_valid(pattern@),
{
    regex::Regex::new(pattern).is_ok()
}

/// `&s[from..to]`: the text between two character boundaries.
#[verifier::external_body]
pub(crate) fn str_slice(s: &str, from: usize, to: usize) -> (r: &str)
    requires
        from <= to <= s.spec_bytes().len(),
        is_char_boundary(s.spec_bytes(), from as int),
        is_char_boundary(s.spec_bytes(), to as int),
    ensures
        r.spec_bytes() == s.spec_bytes().subrange(from as int, to as int),
{
    &s[from..to]
}

/// `&s[from..]`: the text after a character boundary.
#[verifier::external_body]
pub(crate) fn str_tail(s: &str, from: usize) -> (r: &str)
    requires
        from <= s.spec_bytes().len(),
        is_char_boundary(s.spec_bytes(), from as int),
    ensures
        r.spec_bytes() == s.spec_bytes().subrange(from as int, s.spec_bytes().len() as int),
{
    &s[from..]
}

/// UTF-8 encoding distributes over concatenation.
pub proof fn lemma_encode_utf8_append(a: Seq<char>, b: Seq<char>)
    ensures
        encode_utf8(a + b) == encode_utf8(a) + encode_utf8(b),
    decreases a.len(),
{
    if a.len() == 0 {
        assert(a + b =~= b);
        assert(encode_utf8(a) + encode_utf8(b) =~= encode_utf8(b));
    } else {
        assert((a + b).drop_first() =~= a.drop_first() + b);
        assert((a + b)[0] == a[0]);
        lemma_encode_utf8_append(a.drop_first(), b);
        assert(encode_utf8(a + b) =~= encode_utf8(a) + encode_utf8(b));
    }
}

/// `a` sorts before `b`: it starts earlier, or at the same place and is
/// at least as long.
pub open spec fn span_before(a: (int, int), b: (int, int)) -> bool {
    a.0 < b.0 || (a.0 == b.0 && a.1 >= b.1)
}

/// Spans in order of start, longest first at the same start.
pub open spec fn spans_sorted(s: Seq<(int, int)>) -> bool {
    forall|i: int, j: int| 0 <= i < j < s.len() ==> span_before(#[trigger] s[i], #[trigger] s[j])
}

/// The matches of every pattern, pattern by pattern.
pub open spec fn pattern_spans(patterns: Seq<Seq<char>>, text: Seq<char>) -> Seq<(int, int)>
    decreases patterns.len(),
{
    if patterns.len() == 0 {
        Seq::empty()
    } else {
        pattern_spans(patterns.drop_last(), text) + regex_find_all(patterns.last(), text)
    }
}

/// The output of the blacklist over sorted matches, from `cursor` on:
/// text up to each kept match, then the slot of the matched text.
pub open spec fn redact_spans(
    t: Seq<u8>,
    ms: Seq<(int, int)>,
    cursor: int,
    names: Map<Seq<char>, Seq<char>>,
) -> Seq<u8>
    decreases ms.len(),
{
    if ms.len() == 0 {
        t.subrange(cursor, t.len() as int)
    } else if ms[0].0 < cursor {
        redact_spans(t, ms.skip(1), cursor, names)
    } else {
        t.subrange(cursor, ms[0].0) + encode_utf8(slot_text(decode_utf8(t.subrange(ms[0].0, ms[0].1)), names))
            + redact_spans(t, ms.skip(1), ms[0].1, names)
    }
}

/// The matches of every pattern in `text`, sorted; the sorted order of a
/// set of spans is unique (see `lemma_sorted_spans_unique`).
pub open spec fn sorted_matches(patterns: Seq<Seq<char>>, text: Seq<char>) -> Seq<(int, int)> {
    choose|ms: Seq<(int, int)>|
        spans_sorted(ms) && ms.to_multiset() == pattern_spans(patterns, text).to_multiset()
}

/// The bytes of `text` after the blacklist.
pub open spec fn blacklisted(text: Seq<char>, patterns: Seq<Seq<char>>, names: Map<Seq<char>, Seq<char>>) -> Seq<u8> {
    redact_spans(encode_utf8(text), sorted_matches(patterns, text), 0, names)
}

/// The texts of a sequence of strings.
pub open spec fn texts(v: Seq<String>) -> Seq<Seq<char>> {
    Seq::new(v.len(), |i: int| v[i]@)
}

/// Two sorted sequences of the same spans are the same sequence.
pub proof fn lemma_sorted_spans_unique(a: Seq<(int, int)>, b: Seq<(int, int)>)
    requires
        spans_sorted(a),
        spans_sorted(b),
        a.to_multiset() == b.to_multiset(),
    ensures
        a == b,
    decreases a.len(),
{
    broadcast use vstd::seq_lib::group_to_multiset_ensures, vstd::multiset::group_multiset_axioms;

    assert(a.len() == a.to_multiset().len());
    assert(b.len() == b.to_multiset().len());
    if a.len() == 0 {
        assert(a =~= b);
    } else {
        assert(a.contains(a[0]));
        assert(b.to_multiset().count(a[0]) > 0);
        assert(b.contains(a[0]));
        let j = choose|j: int| 0 <= j < b.len() && b[j] == a[0];
        assert(b.contains(b[0]));
        assert(a.to_multiset().count(b[0]) > 0);
        assert(a.contains(b[0]));
        let k = choose|k: int| 0 <= k < a.len() && a[k] == b[0];
        if j > 0 {
            assert(span_before(b[0], b[j]));
        }
        if k > 0 {
            assert(span_before(a[0], a[k]));
        }
        assert(a[0] == b[0]);
        let a1 = a.skip(1);
        let b1 = b.skip(1);
        assert(a.remove(0) =~= a1);
        assert(b.remove(0) =~= b1);
        assert(a1.to_multiset() == a.to_multiset().remove(a[0]));
        assert(b1.to_multiset() == b.to_multiset().remove(b[0]));
        assert forall|x: int, y: int| 0 <= x < y < a1.len() implies span_before(#[trigger] a1[x], #[trigger] a1[y]) by {
            assert(a1[x] == a[x + 1] && a1[y] == a[y + 1]);
        }
        assert forall|x: int, y: int| 0 <= x < y < b1.len() implies span_before(#[trigger] b1[x], #[trigger] b1[y]) by {
            assert(b1[x] == b[x + 1] && b1[y] == b[y + 1]);
        }
        lemma_sorted_spans_unique(a1, b1);
        assert(a =~= seq![a[0]] + a1);
        assert(b =~= seq![b[0]] + b1);
    }
}

/// Where span `x` goes among sorted spans: after every span that sorts
/// before it.
fn span_insert_point(out: &Vec<(usize, usize)>, x: (usize, usize)) -> (p: usize)
    ensures
        p <= out@.len(),
        forall|k: int| 0 <= k < p ==> span_before(#[trigger] span_views(out@)[k], (x.0 as int, x.1 as int)),
        p < out@.len() ==> !span_before(span_views(out@)[p as int], (x.0 as int, x.1 as int)),
{
    let mut p: usize = 0;
    while p < out.len()
        invariant
            p <= out@.len(),
            forall|k: int| 0 <= k < p ==> span_before(#[trigger] span_views(out@)[k], (x.0 as int, x.1 as int)),
        decreases out@.len() - p,
    {
        let y = out[p];
        if x.0 < y.0 || (x.0 == y.0 && x.1 > y.1) {
            return p;
        }
        p = p + 1;
    }
    p
}

/// Sort spans by start, longest first at the same start.
fn sort_spans(v: Vec<(usize, usize)>, Ghost(t): Ghost<Seq<u8>>) -> (r: Vec<(usize, usize)>)
    requires
        forall|i: int| 0 <= i < v@.len() ==> span_in(t, #[trigger] span_views(v@)[i]),
    ensures
        spans_sorted(span_views(r@)),
        span_views(r@).to_multiset() == span_views(v@).to_multiset(),
        forall|i: int| 0 <= i < r@.len() ==> span_in(t, #[trigger] span_views(r@)[i]),
{
    broadcast use vstd::seq_lib::group_to_multiset_ensures, vstd::multiset::group_multiset_axioms;

    let mut out: Vec<(usize, usize)> = Vec::new();
    let mut i: usize = 0;
    assert(span_views(v@).take(0) =~= Seq::<(int, int)>::empty());
    assert(span_views(out@) =~= Seq::<(int, int)>::empty());
    while i < v.len()
        invariant
            i <= v@.len(),
            spans_sorted(span_views(out@)),
            span_views(out@).to_multiset() == span_views(v@).take(i as int).to_multiset(),
            forall|k: int| 0 <= k < v@.len() ==> span_in(t, #[trigger] span_views(v@)[k]),
            forall|k: int| 0 <= k < out@.len() ==> span_in(t, #[trigger] span_views(out@)[k]),
        decreases v@.len() - i,
    {
        let x = v[i];
        let ghost xv = (x.0 as int, x.1 as int);
        let p = span_insert_point(&out, x);
        let ghost ov = span_views(out@);
        proof {
            assert(span_views(v@)[i as int] == xv);
            if p < out@.len() {
                assert(!span_before(ov[p as int], xv));
                assert(span_before(xv, ov[p as int]));
                assert forall|k: int| p <= k < ov.len() implies span_before(xv, #[trigger] ov[k]) by {
                    if k > p {
                        assert(span_before(ov[p as int], ov[k]));
                    }
                }
            }
        }
        out.insert(p, x);
        proof {
            let nv = span_views(out@);
            assert(nv =~= ov.insert(p as int, xv));
            assert forall|a: int, b: int| 0 <= a < b < nv.len() implies span_before(#[trigger] nv[a], #[trigger] nv[b]) by {
                if b < p {
                    assert(nv[a] == ov[a] && nv[b] == ov[b]);
                } else if b == p {
                    assert(nv[a] == ov[a]);
                } else if a == p {
                    assert(nv[b] == ov[b - 1]);
                } else if a < p {
                    assert(nv[a] == ov[a] && nv[b] == ov[b - 1]);
                } else {
                    assert(nv[a] == ov[a - 1] && nv[b] == ov[b - 1]);
                }
            }
            vstd::seq_lib::to_multiset_insert(ov, p as int, xv);
            assert(span_views(v@).take(i + 1) =~= span_views(v@).take(i as int).push(xv));
            vstd::seq_lib::to_multiset_build(span_views(v@).take(i as int), xv);
            assert forall|k: int| 0 <= k < out@.len() implies span_in(t, #[trigger] span_views(out@)[k]) by {
                if k < p {
                    assert(nv[k] == ov[k]);
                } else if k == p {
                } else {
                    assert(nv[k] == ov[k - 1]);
                }
            }
        }
        i = i + 1;
    }
    assert(span_views(v@).take(i as int) =~= span_views(v@));
    out
}

/// The spans of every pattern in `text`.
fn collect_spans(text: &str, patterns: &Vec<String>) -> (r: Vec<(usize, usize)>)
    requires
        forall|i: int| 0 <= i < patterns@.len() ==> regex_valid(#[trigger] patterns@[i]@),
    ensures
        span_views(r@) == pattern_spans(Seq::new(patterns@.len(), |i: int| patterns@[i]@), text@),
        forall|i: int| 0 <= i < r@.len() ==> span_in(text.spec_bytes(), #[trigger] span_views(r@)[i]),
{
    let ghost ps = Seq::new(patterns@.len(), |i: int| patterns@[i]@);
    let mut all: Vec<(usize, usize)> = Vec::new();
    let mut i: usize = 0;
    assert(ps.take(0) =~= Seq::<Seq<char>>::empty());
    assert(span_views(all@) =~= Seq::<(int, int)>::empty());
    while i < patterns.len()
        invariant
            i <= patterns@.len(),
            ps == Seq::new(patterns@.len(), |i: int| patterns@[i]@),
            forall|k: int| 0 <= k < patterns@.len() ==> regex_valid(#[trigger] patterns@[k]@),
            span_views(all@) == pattern_spans(ps.take(i as int), text@),
            forall|k: int| 0 <= k < all@.len() ==> span_in(text.spec_bytes(), #[trigger] span_views(all@)[k]),
        decreases patterns@.len() - i,
    {
        proof {
            assert(ps.take(i + 1).drop_last() =~= ps.take(i as int));
            assert(ps.take(i + 1).last() == patterns@[i as int]@);
        }
        match regex_find_spans(patterns[i].as_str(), text) {
            Some(found) => {
                let ghost before = span_views(all@);
                let mut k: usize = 0;
                while k < found.len()
                    invariant
                        k <= found@.len(),
                        span_views(all@) == before + span_views(found@).take(k as int),
                        forall|j: int| 0 <= j < found@.len() ==> span_in(text.spec_bytes(), #[trigger] span_views(found@)[j]),
                        forall|j: int| 0 <= j < all@.len() ==> span_in(text.spec_bytes(), #[trigger] span_views(all@)[j]),
                    decreases found@.len() - k,
                {
                    let ghost old_all = all@;
                    all.push(found[k]);
                    proof {
                        let f = span_views(found@);
                        assert(span_views(all@) =~= span_views(old_all).push(f[k as int]));
                        assert(f.take(k + 1) =~= f.take(k as int).push(f[k as int]));
                        assert(span_views(all@) =~= before + f.take(k + 1));
                        assert forall|j: int| 0 <= j < all@.len() implies span_in(text.spec_bytes(), #[trigger] span_views(all@)[j]) by {
                            if j < old_all.len() {
                                assert(span_views(all@)[j] == span_views(old_all)[j]);
                            } else {
                                assert(span_views(all@)[j] == f[k as int]);
                            }
                        }
                    }
                    k = k + 1;
                }
                assert(span_views(found@).take(k as int) =~= span_views(found@));
            },
            None => {
                assert(false);
            },
        }
        i = i + 1;
    }
    assert(ps.take(i as int) =~= ps);
    all
}

/// Replace every blacklist match in `text` with the slot of the matched
/// text; the result's bytes are those of `redact_spans` over the matches
/// in sorted order.
pub fn apply_substring_blacklist(text: &str, patterns: &Vec<String>, vn: &ValueNameMap) -> (r: String)
    requires
        forall|i: int| 0 <= i < patterns@.len() ==> regex_valid(#[trigger] patterns@[i]@),
    ensures
        encode_utf8(r@) == blacklisted(text@, texts(patterns@), vn@),
{
    let ghost t = text.spec_bytes();
    let all = collect_spans(text, patterns);
    let ms = sort_spans(all, Ghost(t));
    let ghost msv = span_views(ms@);
    let mut out = String::new();
    let mut cursor: usize = 0;
    let mut k: usize = 0;
    proof {
        vstd::utf8::encode_utf8_valid_utf8(text@);
        assert(msv.skip(0) =~= msv);
        assert(encode_utf8(out@) =~= Seq::<u8>::empty());
        assert(Seq::<u8>::empty() + redact_spans(t, msv, 0, vn@) =~= redact_spans(t, msv, 0, vn@));
    }
    while k < ms.len()
        invariant
            t == text.spec_bytes(),
            vstd::utf8::valid_utf8(t),
            msv == span_views(ms@),
            k <= ms@.len(),
            cursor <= t.len(),
            is_char_boundary(t, cursor as int),
            forall|i: int| 0 <= i < ms@.len() ==> span_in(t, #[trigger] span_views(ms@)[i]),
            encode_utf8(out@) + redact_spans(t, msv.skip(k as int), cursor as int, vn@) == redact_spans(t, msv, 0, vn@),
        decreases ms@.len() - k,
    {
        let (s, e) = ms[k];
        let ghost rest = msv.skip(k as int);
        proof {
            assert(rest[0] == msv[k as int]);
            assert(rest.skip(1) =~= msv.skip(k + 1));
            assert(span_in(t, msv[k as int]));
        }
        if s < cursor {
            k = k + 1;
        } else {
            let before = str_slice(text, cursor, s);
            let matched = str_slice(text, s, e);
            let slot = derive_slot(matched, vn).render();
            let ghost prev = out@;
            out.append(before);
            out.append(slot.as_str());
            proof {
                vstd::utf8::encode_utf8_decode_utf8(matched@);
                lemma_encode_utf8_append(prev, before@);
                lemma_encode_utf8_append(prev + before@, slot@);
                assert(decode_utf8(t.subrange(s as int, e as int)) == matched@);
                assert(encode_utf8(out@) + redact_spans(t, msv.skip(k + 1), e as int, vn@) =~= encode_utf8(prev)
                    + redact_spans(t, rest, cursor as int, vn@));
            }
            cursor = e;
            k = k + 1;
        }
    }
    let tail = str_tail(text, cursor);
    let ghost prev = out@;
    out.append(tail);
    proof {
        lemma_encode_utf8_append(prev, tail@);
        assert(msv.skip(k as int) =~= Seq::<(int, int)>::empty());
        assert(Seq::new(patterns@.len(), |i: int| patterns@[i]@) =~= texts(patterns@));
        let chosen = sorted_matches(texts(patterns@), text@);
        assert(spans_sorted(msv) && msv.to_multiset() == pattern_spans(texts(patterns@), text@).to_multiset());
        lemma_sorted_spans_unique(chosen, msv);
    }
    out
}

} // verus!
