//! Structured matching of a place signature URL against the browser's
//! current URL.
//!
//! Both URLs are split into scheme, authority, path segments, query pairs
//! and fragment. Within a component, `*` matches any run of bytes and a
//! `{name}` placeholder matches a non-empty run; a `**` path segment matches
//! zero or more whole segments. Signature query pairs must each be matched
//! by a distinct pair of the current URL, each taking the first free pair
//! that matches (extra pairs are free, and for pairs without wildcards so
//! is their order), and a fragment is checked only when the signature has
//! one.

use vstd::prelude::*;
use vstd::multiset::Multiset;
use vstd::string::StringSliceAdditionalSpecFns;
use crate::text::{copy_range, find_byte, lemma_find_byte, lemma_find_byte_is, lemma_find_byte_none, segments, split_on, split_nonempty, split_once_bytes, split_once_opt, views};

verus! {

/// Why a signature URL could not be parsed.
#[derive(Debug, Clone, Copy, PartialEq, Eq, Structural)]
pub enum UrlError {
    /// The URL has no `://`.
    NotAbsolute,
    /// The scheme or the host is empty.
    MissingSchemeOrHost,
}

/// A query pair: key, and the value when `=` is present.
pub type QueryPairSpec = (Seq<u8>, Option<Seq<u8>>);

/// The parsed form of an absolute URL, over its bytes.
pub struct UrlSpec {
    pub scheme: Seq<u8>,
    pub authority: Seq<u8>,
    pub path: Seq<Seq<u8>>,
    pub query: Seq<QueryPairSpec>,
    pub fragment: Option<Seq<u8>>,
}

/// Index of the first `://` in `s`, if any.
pub open spec fn find_scheme_sep(s: Seq<u8>) -> Option<int> {
    if exists|i: int| 0 <= i && i + 3 <= s.len() && is_sep_at(s, i) && (forall|j: int|
        0 <= j < i ==> !is_sep_at(s, j)) {
        Some(choose|i: int| 0 <= i && i + 3 <= s.len() && is_sep_at(s, i) && (forall|j: int|
            0 <= j < i ==> !is_sep_at(s, j)))
    } else {
        None
    }
}

pub open spec fn is_sep_at(s: Seq<u8>, i: int) -> bool {
    0 <= i && i + 3 <= s.len() && s[i] == 58u8 && s[i + 1] == 47u8 && s[i + 2] == 47u8
}

pub open spec fn query_pair_spec(p: Seq<u8>) -> QueryPairSpec {
    split_once_opt(p, 61u8)
}

pub open spec fn query_pairs_spec(q: Option<Seq<u8>>) -> Seq<QueryPairSpec> {
    match q {
        None => Seq::empty(),
        Some(q) => {
            let ps = segments(q, 38u8);
            Seq::new(ps.len(), |i: int| query_pair_spec(ps[i]))
        },
    }
}

/// Parse an absolute URL: `scheme://authority[/path][?query][#fragment]`.
pub open spec fn parse_url_spec(input: Seq<u8>) -> Result<UrlSpec, UrlError> {
    match find_scheme_sep(input) {
        None => Err(UrlError::NotAbsolute),
        Some(i) => {
            let scheme = input.take(i);
            let rest = input.skip(i + 3);
            let (before_fragment, fragment) = split_once_opt(rest, 35u8);
            let (before_query, query) = split_once_opt(before_fragment, 63u8);
            let (authority, path) = match split_once_opt(before_query, 47u8) {
                (a, Some(p)) => (a, p),
                (a, None) => (a, Seq::<u8>::empty()),
            };
            if scheme.len() == 0 || authority.len() == 0 {
                Err(UrlError::MissingSchemeOrHost)
            } else {
                Ok(
                    UrlSpec {
                        scheme,
                        authority,
                        path: segments(path, 47u8),
                        query: query_pairs_spec(query),
                        fragment,
                    },
                )
            }
        },
    }
}

/// Position of the first `}` in `s`.
pub open spec fn close_brace(s: Seq<u8>) -> Option<int> {
    find_byte(s, 125u8)
}

/// Whether component `value` matches component pattern `p`.
pub open spec fn comp_match(p: Seq<u8>, v: Seq<u8>) -> bool
    decreases p.len(), v.len(),
{
    if p.len() == 0 {
        v.len() == 0
    } else if p[0] == 42u8 {
        comp_match(p.drop_first(), v) || (v.len() > 0 && comp_match(p, v.drop_first()))
    } else if p[0] == 123u8 && close_brace(p.drop_first()) is Some {
        let end = close_brace(p.drop_first())->0;
        let rest = p.skip(end + 2);
        exists|k: int| 1 <= k <= v.len() && comp_match(rest, #[trigger] v.skip(k))
    } else {
        v.len() > 0 && p[0] == v[0] && comp_match(p.drop_first(), v.drop_first())
    }
}

/// The bytes of the `**` path segment.
pub open spec fn double_star() -> Seq<u8> {
    seq![42u8, 42u8]
}

/// Whether the current path segments `c` match the signature segments `s`.
pub open spec fn path_match(s: Seq<Seq<u8>>, c: Seq<Seq<u8>>) -> bool
    decreases s.len(), c.len(),
{
    if s.len() == 0 {
        c.len() == 0
    } else if s[0] == double_star() {
        path_match(s.drop_first(), c) || (c.len() > 0 && path_match(s, c.drop_first()))
    } else {
        c.len() > 0 && comp_match(s[0], c[0]) && path_match(s.drop_first(), c.drop_first())
    }
}

pub open spec fn opt_value_match(s: Option<Seq<u8>>, c: Option<Seq<u8>>) -> bool {
    match (s, c) {
        (Some(s), Some(c)) => comp_match(s, c),
        (None, None) => true,
        _ => false,
    }
}

pub open spec fn pair_match(s: QueryPairSpec, c: QueryPairSpec) -> bool {
    comp_match(s.0, c.0) && opt_value_match(s.1, c.1)
}

/// Whether `j` is the first pair of `cur`, not yet `used`, that matches `s`.
pub open spec fn is_first_free_match(s: QueryPairSpec, cur: Seq<QueryPairSpec>, used: Seq<bool>, j: int) -> bool {
    &&& 0 <= j < cur.len()
    &&& !used[j]
    &&& pair_match(s, cur[j])
    &&& forall|k: int| 0 <= k < j ==> used[k] || !pair_match(s, cur[k])
}

pub open spec fn first_free_match(s: QueryPairSpec, cur: Seq<QueryPairSpec>, used: Seq<bool>) -> Option<int> {
    if exists|j: int| is_first_free_match(s, cur, used, j) {
        Some(choose|j: int| is_first_free_match(s, cur, used, j))
    } else {
        None
    }
}

/// Each signature pair, in order, takes the first matching pair of `cur`
/// that no earlier signature pair took; all must find one.
pub open spec fn greedy_match(sig: Seq<QueryPairSpec>, cur: Seq<QueryPairSpec>, used: Seq<bool>) -> bool
    decreases sig.len(),
{
    if sig.len() == 0 {
        true
    } else {
        match first_free_match(sig[0], cur, used) {
            None => false,
            Some(j) => greedy_match(sig.drop_first(), cur, used.update(j, true)),
        }
    }
}

pub open spec fn query_match(sig: Seq<QueryPairSpec>, cur: Seq<QueryPairSpec>) -> bool {
    greedy_match(sig, cur, Seq::new(cur.len(), |i: int| false))
}

/// Whether the parsed current URL satisfies the parsed signature URL.
pub open spec fn parts_match(s: UrlSpec, c: UrlSpec) -> bool {
    &&& comp_match(s.scheme, c.scheme)
    &&& comp_match(s.authority, c.authority)
    &&& path_match(s.path, c.path)
    &&& query_match(s.query, c.query)
    &&& match s.fragment {
        None => true,
        Some(sf) => match c.fragment {
            None => false,
            Some(cf) => comp_match(sf, cf),
        },
    }
}

/// An unparsable signature is an error; an unparsable current URL
/// (such as `about:blank`) simply does not match.
pub open spec fn url_matches(sig: Seq<u8>, cur: Seq<u8>) -> Result<bool, UrlError> {
    match parse_url_spec(sig) {
        Err(e) => Err(e),
        Ok(s) => match parse_url_spec(cur) {
            Err(_) => Ok(false),
            Ok(c) => Ok(parts_match(s, c)),
        },
    }
}

} // verus!

verus! {

/// One `key[=value]` pair of a query string.
#[derive(Debug, Clone)]
pub struct QueryPair {
    pub key: Vec<u8>,
    pub value: Option<Vec<u8>>,
}

impl View for QueryPair {
    type V = QueryPairSpec;

    open spec fn view(&self) -> QueryPairSpec {
        (
            self.key@,
            match self.value {
                Some(v) => Some(v@),
                None => None,
            },
        )
    }
}

pub open spec fn pair_views(v: Seq<QueryPair>) -> Seq<QueryPairSpec> {
    Seq::new(v.len(), |i: int| v[i]@)
}

/// A parsed absolute URL.
#[derive(Debug, Clone)]
pub struct ParsedUrl {
    pub scheme: Vec<u8>,
    pub authority: Vec<u8>,
    pub path_segments: Vec<Vec<u8>>,
    pub query: Vec<QueryPair>,
    pub fragment: Option<Vec<u8>>,
}

impl ParsedUrl {
    pub open spec fn spec(&self) -> UrlSpec {
        UrlSpec {
            scheme: self.scheme@,
            authority: self.authority@,
            path: views(self.path_segments@),
            query: pair_views(self.query@),
            fragment: match self.fragment {
                Some(f) => Some(f@),
                None => None,
            },
        }
    }
}

/// Whether `value[vi..]` matches the component pattern `pattern[pi..]`.
pub fn component_matches_from(pattern: &[u8], pi: usize, value: &[u8], vi: usize) -> (r: bool)
    requires
        pi <= pattern@.len(),
        vi <= value@.len(),
    ensures
        r == comp_match(pattern@.skip(pi as int), value@.skip(vi as int)),
    decreases pattern@.len() - pi, value@.len() - vi,
{
    let ghost p = pattern@.skip(pi as int);
    let ghost v = value@.skip(vi as int);
    let plen = pattern.len();
    let vlen = value.len();
    if pi == plen {
        assert(p.len() == 0);
        return vi == vlen;
    }
    assert(p[0] == pattern@[pi as int]);
    assert(p.drop_first() =~= pattern@.skip(pi + 1));
    if vi < vlen {
        assert(v.drop_first() =~= value@.skip(vi + 1));
        assert(v[0] == value@[vi as int]);
    }
    if pattern[pi] == 42u8 {
        if component_matches_from(pattern, pi + 1, value, vi) {
            return true;
        }
        return vi < vlen && component_matches_from(pattern, pi, value, vi + 1);
    }
    if pattern[pi] == 123u8 {
        let mut e = pi + 1;
        while e < plen && pattern[e] != 125u8
            invariant
                pi + 1 <= e <= plen,
                plen == pattern@.len(),
                forall|j: int| pi + 1 <= j < e ==> pattern@[j] != 125u8,
            decreases plen - e,
        {
            e = e + 1;
        }
        if e < plen {
            proof {
                lemma_find_byte_is(p.drop_first(), 125u8, e - (pi + 1));
                assert(p.skip(e - pi + 1) =~= pattern@.skip(e + 1));
            }
            let mut q: usize = vlen;
            while q > vi
                invariant
                    vi <= q <= vlen,
                    vlen == value@.len(),
                    pi + 1 <= e < plen,
                    plen == pattern@.len(),
                    v == value@.skip(vi as int),
                    p == pattern@.skip(pi as int),
                    p.len() > 0,
                    p[0] == 123u8,
                    close_brace(p.drop_first()) == Some(e - (pi + 1)),
                    p.skip(e - pi + 1) == pattern@.skip(e + 1),
                    forall|m: int| q - vi < m <= vlen - vi ==> !comp_match(pattern@.skip(e + 1), #[trigger] v.skip(m)),
                decreases q - vi,
            {
                let hit = component_matches_from(pattern, e + 1, value, q);
                assert(v.skip(q - vi) =~= value@.skip(q as int));
                if hit {
                    proof {
                        let m = q - vi;
                        assert(comp_match(p.skip(e - pi + 1), v.skip(m)));
                        assert(close_brace(p.drop_first()) == Some(e - (pi + 1)));
                        assert(1 <= m <= v.len());
                    }
                    return true;
                }
                q = q - 1;
            }
            return false;
        } else {
            proof {
                assert forall|j: int| 0 <= j < p.drop_first().len() implies p.drop_first()[j] != 125u8 by {
                    assert(p.drop_first()[j] == pattern@[pi + 1 + j]);
                }
                lemma_find_byte_none(p.drop_first(), 125u8);
            }
        }
    }
    vi < vlen && pattern[pi] == value[vi] && component_matches_from(pattern, pi + 1, value, vi + 1)
}

/// Whether component `value` matches component pattern `pattern`.
pub fn component_matches(pattern: &[u8], value: &[u8]) -> (r: bool)
    ensures
        r == comp_match(pattern@, value@),
{
    assert(pattern@.skip(0) =~= pattern@);
    assert(value@.skip(0) =~= value@);
    component_matches_from(pattern, 0, value, 0)
}

fn is_double_star(seg: &Vec<u8>) -> (r: bool)
    ensures
        r == (seg@ == double_star()),
{
    if seg.len() == 2 && seg[0] == 42u8 && seg[1] == 42u8 {
        assert(seg@ =~= double_star());
        true
    } else {
        false
    }
}

/// Whether the current segments `current[ci..]` match `signature[si..]`.
pub fn path_matches_from(signature: &Vec<Vec<u8>>, si: usize, current: &Vec<Vec<u8>>, ci: usize) -> (r: bool)
    requires
        si <= signature@.len(),
        ci <= current@.len(),
    ensures
        r == path_match(views(signature@).skip(si as int), views(current@).skip(ci as int)),
    decreases signature@.len() - si, current@.len() - ci,
{
    let ghost s = views(signature@).skip(si as int);
    let ghost c = views(current@).skip(ci as int);
    let slen = signature.len();
    let clen = current.len();
    if si == slen {
        return ci == clen;
    }
    assert(s[0] == signature@[si as int]@);
    assert(s.drop_first() =~= views(signature@).skip(si + 1));
    if ci < clen {
        assert(c.drop_first() =~= views(current@).skip(ci + 1));
        assert(c[0] == current@[ci as int]@);
    }
    if is_double_star(&signature[si]) {
        if path_matches_from(signature, si + 1, current, ci) {
            return true;
        }
        return ci < clen && path_matches_from(signature, si, current, ci + 1);
    }
    ci < clen && component_matches(signature[si].as_slice(), current[ci].as_slice())
        && path_matches_from(signature, si + 1, current, ci + 1)
}

/// Whether the current path segments match the signature's.
pub fn path_matches(signature: &Vec<Vec<u8>>, current: &Vec<Vec<u8>>) -> (r: bool)
    ensures
        r == path_match(views(signature@), views(current@)),
{
    assert(views(signature@).skip(0) =~= views(signature@));
    assert(views(current@).skip(0) =~= views(current@));
    path_matches_from(signature, 0, current, 0)
}

/// A value is required exactly when the signature has one.
pub fn optional_value_matches(signature: &Option<Vec<u8>>, current: &Option<Vec<u8>>) -> (r: bool)
    ensures
        r == opt_value_match(
            match signature {
                Some(s) => Some(s@),
                None => None,
            },
            match current {
                Some(c) => Some(c@),
                None => None,
            },
        ),
{
    match (signature, current) {
        (Some(s), Some(c)) => component_matches(s.as_slice(), c.as_slice()),
        (None, None) => true,
        _ => false,
    }
}

/// The first pair of `current`, not yet `used`, that matches `sp`.
fn find_free_match(sp: &QueryPair, current: &Vec<QueryPair>, used: &Vec<bool>) -> (r: Option<usize>)
    requires
        used@.len() == current@.len(),
    ensures
        r matches Some(j) ==> first_free_match(sp@, pair_views(current@), used@) == Some(j as int),
        r is None ==> first_free_match(sp@, pair_views(current@), used@) is None,
{
    let ghost cur = pair_views(current@);
    let clen = current.len();
    let mut j: usize = 0;
    while j < clen
        invariant
            j <= clen,
            clen == current@.len(),
            used@.len() == clen,
            cur == pair_views(current@),
            forall|m: int| 0 <= m < j ==> used@[m] || !pair_match(sp@, cur[m]),
        decreases clen - j,
    {
        let cp = &current[j];
        assert(cur[j as int] == cp@);
        if !used[j] && component_matches(sp.key.as_slice(), cp.key.as_slice())
            && optional_value_matches(&sp.value, &cp.value) {
            proof {
                assert(is_first_free_match(sp@, cur, used@, j as int));
                let w = first_free_match(sp@, cur, used@)->0;
                assert(is_first_free_match(sp@, cur, used@, w));
                if w < j {
                } else if w > j {
                }
            }
            return Some(j);
        }
        j = j + 1;
    }
    proof {
        if first_free_match(sp@, cur, used@) is Some {
            let w = choose|w: int| is_first_free_match(sp@, cur, used@, w);
            assert(is_first_free_match(sp@, cur, used@, w));
        }
    }
    None
}

/// Every signature pair must take a distinct matching pair of `current`.
pub fn query_matches(signature: &Vec<QueryPair>, current: &Vec<QueryPair>) -> (r: bool)
    ensures
        r == query_match(pair_views(signature@), pair_views(current@)),
{
    let ghost sig = pair_views(signature@);
    let ghost cur = pair_views(current@);
    let mut used: Vec<bool> = Vec::new();
    let clen = current.len();
    let mut i: usize = 0;
    while i < clen
        invariant
            i <= clen,
            clen == current@.len(),
            used@.len() == i,
            forall|j: int| 0 <= j < i ==> !used@[j],
        decreases clen - i,
    {
        used.push(false);
        i = i + 1;
    }
    assert(used@ =~= Seq::new(cur.len(), |i: int| false));
    let slen = signature.len();
    let mut k: usize = 0;
    assert(sig.skip(0) =~= sig);
    while k < slen
        invariant
            k <= slen,
            slen == signature@.len(),
            clen == current@.len(),
            used@.len() == clen,
            sig == pair_views(signature@),
            cur == pair_views(current@),
            query_match(sig, cur) == greedy_match(sig.skip(k as int), cur, used@),
        decreases slen - k,
    {
        let ghost rest = sig.skip(k as int);
        assert(rest[0] == signature@[k as int]@);
        assert(rest.drop_first() =~= sig.skip(k + 1));
        let found = find_free_match(&signature[k], current, &used);
        let j = match found {
            None => {
                return false;
            },
            Some(j) => j,
        };
        used.set(j, true);
        k = k + 1;
    }
    true
}

} // verus!

verus! {

/// The non-empty `/`-separated segments of a path.
pub fn path_segments(path: &[u8]) -> (r: Vec<Vec<u8>>)
    ensures
        views(r@) == segments(path@, 47u8),
{
    split_nonempty(path, 47u8)
}

/// The non-empty `&`-separated pairs of a query, each split at its first `=`.
pub fn query_pairs(query: Option<&[u8]>) -> (r: Vec<QueryPair>)
    ensures
        pair_views(r@) == query_pairs_spec(
            match query {
                Some(q) => Some(q@),
                None => None,
            },
        ),
{
    let mut out: Vec<QueryPair> = Vec::new();
    match query {
        None => {
            assert(pair_views(out@) =~= Seq::<QueryPairSpec>::empty());
            out
        },
        Some(q) => {
            let pieces = split_nonempty(q, 38u8);
            let ghost ps = segments(q@, 38u8);
            let n = pieces.len();
            let mut i: usize = 0;
            while i < n
                invariant
                    i <= n,
                    n == pieces@.len(),
                    views(pieces@) == ps,
                    pair_views(out@) =~= Seq::new(i as nat, |k: int| query_pair_spec(ps[k])),
                decreases n - i,
            {
                let (key, value) = split_once_bytes(pieces[i].as_slice(), 61u8);
                assert(pieces@[i as int]@ == ps[i as int]);
                let pair = QueryPair { key, value };
                assert(pair@ == query_pair_spec(ps[i as int]));
                let ghost before = out@;
                out.push(pair);
                assert(pair_views(out@) =~= pair_views(before).push(pair@));
                i = i + 1;
            }
            out
        },
    }
}

proof fn lemma_scheme_sep_is(s: Seq<u8>, i: int)
    requires
        is_sep_at(s, i),
        forall|j: int| 0 <= j < i ==> !is_sep_at(s, j),
    ensures
        find_scheme_sep(s) == Some(i),
{
    let k = find_scheme_sep(s)->0;
    assert(is_sep_at(s, k) && forall|j: int| 0 <= j < k ==> !is_sep_at(s, j));
    if k < i {
    } else if k > i {
    }
}

/// Position of the first `://` in `input`.
fn find_scheme(input: &[u8]) -> (r: Option<usize>)
    ensures
        r matches Some(i) ==> find_scheme_sep(input@) == Some(i as int) && i + 3 <= input@.len(),
        r is None ==> find_scheme_sep(input@) is None,
{
    let n = input.len();
    let mut i: usize = 0;
    while i < n
        invariant
            n == input@.len(),
            i <= n,
            forall|j: int| 0 <= j < i ==> !is_sep_at(input@, j),
        decreases n - i,
    {
        if n - i >= 3 && input[i] == 58u8 && input[i + 1] == 47u8 && input[i + 2] == 47u8 {
            proof {
                lemma_scheme_sep_is(input@, i as int);
            }
            return Some(i);
        }
        i = i + 1;
    }
    proof {
        if find_scheme_sep(input@) is Some {
            let k = choose|k: int| 0 <= k && k + 3 <= input@.len() && is_sep_at(input@, k) && (forall|j: int|
                0 <= j < k ==> !is_sep_at(input@, j));
            assert(!is_sep_at(input@, k));
        }
    }
    None
}

/// Parse an absolute URL into its components.
pub fn parse_url(input: &[u8]) -> (r: Result<ParsedUrl, UrlError>)
    ensures
        match (r, parse_url_spec(input@)) {
            (Ok(u), Ok(s)) => u.spec() == s,
            (Err(e), Err(f)) => e == f,
            _ => false,
        },
{
    let n = input.len();
    let i = match find_scheme(input) {
        None => {
            return Err(UrlError::NotAbsolute);
        },
        Some(i) => i,
    };
    let scheme = copy_range(input, 0, i);
    let rest = copy_range(input, i + 3, n);
    assert(scheme@ =~= input@.take(i as int));
    assert(rest@ =~= input@.skip(i + 3));
    let (before_fragment, fragment) = split_once_bytes(rest.as_slice(), 35u8);
    let (before_query, query_raw) = split_once_bytes(before_fragment.as_slice(), 63u8);
    let (authority, path_raw) = split_once_bytes(before_query.as_slice(), 47u8);
    let path_bytes: Vec<u8> = match path_raw {
        Some(p) => p,
        None => Vec::new(),
    };
    if scheme.len() == 0 || authority.len() == 0 {
        return Err(UrlError::MissingSchemeOrHost);
    }
    let path_segments = path_segments(path_bytes.as_slice());
    let query = match &query_raw {
        Some(q) => query_pairs(Some(q.as_slice())),
        None => query_pairs(None),
    };
    let u = ParsedUrl { scheme, authority, path_segments, query, fragment };
    proof {
        let s = parse_url_spec(input@)->Ok_0;
        assert(u.spec().path =~= s.path);
    }
    Ok(u)
}

/// Whether `current_url` satisfies `signature_url`. An unparsable
/// signature is an error; an unparsable current URL is no match.
pub fn matches_signature_url(signature_url: &str, current_url: &str) -> (r: Result<bool, UrlError>)
    ensures
        r == url_matches(signature_url.spec_bytes(), current_url.spec_bytes()),
{
    let sig = match parse_url(signature_url.as_bytes()) {
        Ok(sig) => sig,
        Err(e) => return Err(e),
    };
    let current = match parse_url(current_url.as_bytes()) {
        Ok(current) => current,
        Err(_) => return Ok(false),
    };
    let ghost s = sig.spec();
    let ghost c = current.spec();
    if !component_matches(sig.scheme.as_slice(), current.scheme.as_slice()) {
        return Ok(false);
    }
    if !component_matches(sig.authority.as_slice(), current.authority.as_slice()) {
        return Ok(false);
    }
    if !path_matches(&sig.path_segments, &current.path_segments) {
        return Ok(false);
    }
    if !query_matches(&sig.query, &current.query) {
        return Ok(false);
    }
    match &sig.fragment {
        Some(sf) => match &current.fragment {
            None => Ok(false),
            Some(cf) => Ok(component_matches(sf.as_slice(), cf.as_slice())),
        },
        None => Ok(true),
    }
}

} // verus!

verus! {

/// Whether `p` holds no `*` and no `{`, so that it can only match itself.
pub open spec fn is_literal(p: Seq<u8>) -> bool {
    forall|i: int| 0 <= i < p.len() ==> p[i] != 42u8 && p[i] != 123u8
}

/// A component pattern without `*` or `{` matches exactly the identical value.
pub proof fn lemma_literal_component_matches_only_itself(p: Seq<u8>, v: Seq<u8>)
    requires
        is_literal(p),
    ensures
        comp_match(p, v) <==> p == v,
    decreases p.len(),
{
    if p.len() == 0 {
        if v.len() == 0 {
            assert(p =~= v);
        }
    } else {
        assert(is_literal(p.drop_first())) by {
            assert forall|i: int| 0 <= i < p.drop_first().len() implies p.drop_first()[i] != 42u8
                && p.drop_first()[i] != 123u8 by {
                assert(p.drop_first()[i] == p[i + 1]);
            }
        }
        if v.len() > 0 {
            lemma_literal_component_matches_only_itself(p.drop_first(), v.drop_first());
            if p[0] == v[0] && p.drop_first() == v.drop_first() {
                assert(p =~= v) by {
                    assert forall|i: int| 0 <= i < p.len() implies p[i] == v[i] by {
                        if i > 0 {
                            assert(p[i] == p.drop_first()[i - 1]);
                            assert(v[i] == v.drop_first()[i - 1]);
                        }
                    }
                }
            }
            if p == v {
                assert(p.drop_first() =~= v.drop_first());
            }
        }
    }
}

/// A component pattern that starts with the placeholder `{n}` (`n` holding
/// no `}`) matches a value exactly when some non-empty run at its start is
/// followed by what the rest `r` of the pattern matches: the placeholder
/// stands for any non-empty run, also one followed by literal text.
pub proof fn lemma_placeholder_matches_any_run(n: Seq<u8>, r: Seq<u8>, x: Seq<u8>, y: Seq<u8>, v: Seq<u8>)
    requires
        forall|i: int| 0 <= i < n.len() ==> n[i] != 125u8,
    ensures
        x.len() > 0 && comp_match(r, y) ==> comp_match(seq![123u8] + n + seq![125u8] + r, x + y),
        comp_match(seq![123u8] + n + seq![125u8] + r, v) <==> exists|k: int|
            1 <= k <= v.len() && comp_match(r, #[trigger] v.skip(k)),
{
    let p = seq![123u8] + n + seq![125u8] + r;
    let q = p.drop_first();
    assert(q =~= n + seq![125u8] + r);
    assert(p[0] == 123u8);
    assert(q[n.len() as int] == 125u8);
    assert forall|j: int| 0 <= j < n.len() implies q[j] != 125u8 by {
        assert(q[j] == n[j]);
    }
    lemma_find_byte_is(q, 125u8, n.len() as int);
    assert(close_brace(q) == Some(n.len() as int));
    assert(p.skip(n.len() as int + 2) =~= r);
    if x.len() > 0 && comp_match(r, y) {
        let w = x + y;
        assert(w.skip(x.len() as int) =~= y);
        assert(1 <= x.len() <= w.len() && comp_match(r, w.skip(x.len() as int)));
    }
}

/// A component pattern `*r` matches any run followed by what `r` matches.
pub proof fn lemma_star_matches_any_run(r: Seq<u8>, x: Seq<u8>, y: Seq<u8>)
    requires
        comp_match(r, y),
    ensures
        comp_match(seq![42u8] + r, x + y),
    decreases x.len(),
{
    let p = seq![42u8] + r;
    assert(p[0] == 42u8);
    assert(p.drop_first() =~= r);
    if x.len() == 0 {
        assert(x + y =~= y);
    } else {
        lemma_star_matches_any_run(r, x.drop_first(), y);
        assert((x + y).drop_first() =~= x.drop_first() + y);
    }
}

/// A signature path that is the single segment `**` matches every path.
pub proof fn lemma_double_star_matches_any_path(c: Seq<Seq<u8>>)
    ensures
        path_match(seq![double_star()], c),
    decreases c.len(),
{
    let s = seq![double_star()];
    assert(s.drop_first() =~= Seq::<Seq<u8>>::empty());
    assert(s[0] == double_star());
    if c.len() > 0 {
        lemma_double_star_matches_any_path(c.drop_first());
        assert(path_match(s, c.drop_first()));
    } else {
        assert(path_match(s.drop_first(), c));
    }
}

/// A trailing delimiter adds no segment.
pub proof fn lemma_trailing_delimiter_adds_no_segment(s: Seq<u8>, d: u8)
    ensures
        segments(s.push(d), d) == segments(s, d),
{
    let y = s.push(d);
    assert(y.drop_last() =~= s);
    assert(split_on(y, d) == split_on(s, d).push(Seq::<u8>::empty()));
    assert(split_on(y, d).drop_last() =~= split_on(s, d));
}

/// Whether `s` contains no `?` and no `#`.
pub open spec fn no_query_or_fragment(s: Seq<u8>) -> bool {
    forall|i: int| 0 <= i < s.len() ==> s[i] != 63u8 && s[i] != 35u8
}

proof fn lemma_no_byte_after_push(s: Seq<u8>, d: u8, e: u8)
    requires
        forall|i: int| 0 <= i < s.len() ==> s[i] != d,
        e != d,
    ensures
        find_byte(s.push(e), d) is None,
{
    assert forall|i: int| 0 <= i < s.push(e).len() implies s.push(e)[i] != d by {
        if i < s.len() {
            assert(s.push(e)[i] == s[i]);
        }
    }
    lemma_find_byte_none(s.push(e), d);
}

/// Appending `/` to an absolute URL without query or fragment parses to the
/// same components.
pub proof fn lemma_trailing_slash_parses_the_same(x: Seq<u8>)
    requires
        find_scheme_sep(x) is Some,
        no_query_or_fragment(x),
    ensures
        parse_url_spec(x.push(47u8)) == parse_url_spec(x),
{
    let y = x.push(47u8);
    let i = find_scheme_sep(x)->0;
    assert(is_sep_at(x, i) && forall|j: int| 0 <= j < i ==> !is_sep_at(x, j));
    assert(is_sep_at(y, i));
    assert forall|j: int| 0 <= j < i implies !is_sep_at(y, j) by {
        assert(!is_sep_at(x, j));
    }
    lemma_scheme_sep_is(y, i);
    let rx = x.skip(i + 3);
    let ry = y.skip(i + 3);
    assert(ry =~= rx.push(47u8));
    assert(y.take(i) =~= x.take(i));
    assert forall|k: int| 0 <= k < rx.len() implies rx[k] != 35u8 && rx[k] != 63u8 by {
        assert(rx[k] == x[k + i + 3]);
    }
    lemma_no_byte_after_push(rx, 35u8, 47u8);
    lemma_no_byte_after_push(rx, 63u8, 47u8);
    lemma_find_byte_none(rx, 35u8);
    lemma_find_byte_none(rx, 63u8);
    lemma_find_byte(rx, 47u8);
    match find_byte(rx, 47u8) {
        Some(j) => {
            assert(ry[j] == 47u8);
            assert forall|m: int| 0 <= m < j implies ry[m] != 47u8 by {
                assert(ry[m] == rx[m]);
            }
            lemma_find_byte_is(ry, 47u8, j);
            assert(ry.take(j) =~= rx.take(j));
            assert(ry.skip(j + 1) =~= rx.skip(j + 1).push(47u8));
            lemma_trailing_delimiter_adds_no_segment(rx.skip(j + 1), 47u8);
        },
        None => {
            assert forall|m: int| 0 <= m < rx.len() implies ry[m] != 47u8 by {
                assert(ry[m] == rx[m]);
            }
            lemma_find_byte_is(ry, 47u8, rx.len() as int);
            assert(ry.take(rx.len() as int) =~= rx);
            assert(ry.skip(rx.len() as int + 1) =~= Seq::<u8>::empty());
        },
    }
}

/// A trailing `/` on the current URL does not change whether it matches.
pub proof fn lemma_trailing_slash_in_current_url(sig: Seq<u8>, cur: Seq<u8>)
    requires
        find_scheme_sep(cur) is Some,
        no_query_or_fragment(cur),
    ensures
        url_matches(sig, cur.push(47u8)) == url_matches(sig, cur),
{
    lemma_trailing_slash_parses_the_same(cur);
}

/// A trailing `/` on the signature URL does not change what it matches.
pub proof fn lemma_trailing_slash_in_signature_url(sig: Seq<u8>, cur: Seq<u8>)
    requires
        find_scheme_sep(sig) is Some,
        no_query_or_fragment(sig),
    ensures
        url_matches(sig.push(47u8), cur) == url_matches(sig, cur),
{
    lemma_trailing_slash_parses_the_same(sig);
}

proof fn lemma_first_free_extends(s: QueryPairSpec, cur: Seq<QueryPairSpec>, used: Seq<bool>, ext: Seq<QueryPairSpec>, j: int)
    requires
        used.len() == cur.len(),
        first_free_match(s, cur, used) == Some(j),
    ensures
        first_free_match(s, cur + ext, used + Seq::new(ext.len(), |i: int| false)) == Some(j),
{
    let c2 = cur + ext;
    let u2 = used + Seq::new(ext.len(), |i: int| false);
    assert(is_first_free_match(s, cur, used, j));
    assert(is_first_free_match(s, c2, u2, j)) by {
        assert(c2[j] == cur[j]);
        assert(u2[j] == used[j]);
        assert forall|k: int| 0 <= k < j implies u2[k] || !pair_match(s, c2[k]) by {
            assert(c2[k] == cur[k]);
            assert(u2[k] == used[k]);
        }
    }
    let w = first_free_match(s, c2, u2)->0;
    assert(is_first_free_match(s, c2, u2, w));
    if w < j {
    } else if w > j {
    }
}

proof fn lemma_greedy_extends(sig: Seq<QueryPairSpec>, cur: Seq<QueryPairSpec>, used: Seq<bool>, ext: Seq<QueryPairSpec>)
    requires
        used.len() == cur.len(),
        greedy_match(sig, cur, used),
    ensures
        greedy_match(sig, cur + ext, used + Seq::new(ext.len(), |i: int| false)),
    decreases sig.len(),
{
    if sig.len() > 0 {
        let j = first_free_match(sig[0], cur, used)->0;
        lemma_first_free_extends(sig[0], cur, used, ext, j);
        let u2 = used + Seq::new(ext.len(), |i: int| false);
        assert(is_first_free_match(sig[0], cur, used, j));
        lemma_greedy_extends(sig.drop_first(), cur, used.update(j, true), ext);
        assert(used.update(j, true) + Seq::new(ext.len(), |i: int| false) =~= u2.update(j, true));
    }
}

/// Extra pairs at the end of the current query never turn a match into a
/// mismatch.
pub proof fn lemma_extra_query_pairs_keep_a_match(sig: Seq<QueryPairSpec>, cur: Seq<QueryPairSpec>, ext: Seq<QueryPairSpec>)
    requires
        query_match(sig, cur),
    ensures
        query_match(sig, cur + ext),
{
    lemma_greedy_extends(sig, cur, Seq::new(cur.len(), |i: int| false), ext);
    assert(Seq::new(cur.len(), |i: int| false) + Seq::new(ext.len(), |i: int| false) =~= Seq::new(
        (cur + ext).len(),
        |i: int| false,
    ));
}


/// A query pair whose key and value hold no wildcard.
pub open spec fn literal_pair(s: QueryPairSpec) -> bool {
    &&& is_literal(s.0)
    &&& (s.1 matches Some(v) ==> is_literal(v))
}

proof fn lemma_literal_pair_match(s: QueryPairSpec, c: QueryPairSpec)
    requires
        literal_pair(s),
    ensures
        pair_match(s, c) <==> s == c,
{
    lemma_literal_component_matches_only_itself(s.0, c.0);
    match (s.1, c.1) {
        (Some(sv), Some(cv)) => {
            lemma_literal_component_matches_only_itself(sv, cv);
        },
        _ => {},
    }
}

/// The pairs of `cur` not yet `used`.
pub open spec fn free_pairs(cur: Seq<QueryPairSpec>, used: Seq<bool>) -> Multiset<QueryPairSpec>
    decreases cur.len(),
{
    if cur.len() == 0 {
        Multiset::empty()
    } else {
        let m = free_pairs(cur.drop_last(), used.drop_last());
        if !used[cur.len() - 1] {
            m.insert(cur.last())
        } else {
            m
        }
    }
}

proof fn lemma_free_pairs_count(cur: Seq<QueryPairSpec>, used: Seq<bool>, x: QueryPairSpec)
    requires
        used.len() == cur.len(),
    ensures
        free_pairs(cur, used).count(x) > 0 <==> exists|k: int| 0 <= k < cur.len() && !used[k] && cur[k] == x,
    decreases cur.len(),
{
    if cur.len() > 0 {
        let n = cur.len() - 1;
        lemma_free_pairs_count(cur.drop_last(), used.drop_last(), x);
        if free_pairs(cur.drop_last(), used.drop_last()).count(x) > 0 {
            let k = choose|k: int| 0 <= k < cur.drop_last().len() && !used.drop_last()[k] && cur.drop_last()[k] == x;
            assert(0 <= k < cur.len() && !used[k] && cur[k] == x);
        }
        if exists|k: int| 0 <= k < cur.len() && !used[k] && cur[k] == x {
            let k = choose|k: int| 0 <= k < cur.len() && !used[k] && cur[k] == x;
            if k < n {
                assert(!used.drop_last()[k] && cur.drop_last()[k] == x);
            }
        }
    }
}

proof fn lemma_free_pairs_take(cur: Seq<QueryPairSpec>, used: Seq<bool>, j: int)
    requires
        used.len() == cur.len(),
        0 <= j < cur.len(),
        !used[j],
    ensures
        free_pairs(cur, used.update(j, true)) =~= free_pairs(cur, used).remove(cur[j]),
    decreases cur.len(),
{
    let n = cur.len() - 1;
    let u2 = used.update(j, true);
    let base = free_pairs(cur.drop_last(), used.drop_last());
    if j == n {
        assert(u2.drop_last() =~= used.drop_last());
        assert(base.insert(cur[j]).remove(cur[j]) =~= base);
    } else {
        assert(u2.drop_last() =~= used.drop_last().update(j, true));
        lemma_free_pairs_take(cur.drop_last(), used.drop_last(), j);
        if !used[n] {
            lemma_free_pairs_count(cur.drop_last(), used.drop_last(), cur[j]);
            assert(!used.drop_last()[j] && cur.drop_last()[j] == cur[j]);
            assert(base.count(cur[j]) > 0);
            assert(base.remove(cur[j]).insert(cur.last()) =~= base.insert(cur.last()).remove(cur[j]));
        }
    }
}

proof fn lemma_first_free_exists(s: QueryPairSpec, cur: Seq<QueryPairSpec>, used: Seq<bool>, k: int)
    requires
        0 <= k < cur.len(),
        !used[k],
        pair_match(s, cur[k]),
    ensures
        first_free_match(s, cur, used) is Some,
    decreases k,
{
    if forall|k2: int| 0 <= k2 < k ==> used[k2] || !pair_match(s, cur[k2]) {
        assert(is_first_free_match(s, cur, used, k));
    } else {
        let k2 = choose|k2: int| 0 <= k2 < k && !(used[k2] || !pair_match(s, cur[k2]));
        lemma_first_free_exists(s, cur, used, k2);
    }
}

proof fn lemma_greedy_literal(sig: Seq<QueryPairSpec>, cur: Seq<QueryPairSpec>, used: Seq<bool>)
    requires
        used.len() == cur.len(),
        forall|i: int| 0 <= i < sig.len() ==> literal_pair(#[trigger] sig[i]),
    ensures
        greedy_match(sig, cur, used) <==> sig.to_multiset().subset_of(free_pairs(cur, used)),
    decreases sig.len(),
{
    broadcast use vstd::seq_lib::group_to_multiset_ensures;
    let sm = sig.to_multiset();
    let f = free_pairs(cur, used);
    if sig.len() == 0 {
        assert forall|v: QueryPairSpec| sm.count(v) <= f.count(v) by {
            assert(!sig.contains(v));
        }
        return;
    }
    let s = sig[0];
    let rest = sig.drop_first();
    assert(sig.remove(0) =~= rest);
    assert(rest.to_multiset() == sm.remove(s));
    assert(sig.contains(s));
    assert(sm.count(s) > 0);
    assert forall|i: int| 0 <= i < rest.len() implies literal_pair(#[trigger] rest[i]) by {
        assert(rest[i] == sig[i + 1]);
    }
    match first_free_match(s, cur, used) {
        Some(j) => {
            assert(is_first_free_match(s, cur, used, j));
            lemma_literal_pair_match(s, cur[j]);
            lemma_free_pairs_take(cur, used, j);
            lemma_free_pairs_count(cur, used, s);
            assert(f.count(s) > 0);
            lemma_greedy_literal(rest, cur, used.update(j, true));
            let rm = rest.to_multiset();
            let f2 = f.remove(s);
            if rm.subset_of(f2) {
                assert forall|v: QueryPairSpec| sm.count(v) <= f.count(v) by {
                    assert(rm.count(v) <= f2.count(v));
                }
            }
            if sm.subset_of(f) {
                assert forall|v: QueryPairSpec| rm.count(v) <= f2.count(v) by {
                    assert(sm.count(v) <= f.count(v));
                }
            }
        },
        None => {
            lemma_free_pairs_count(cur, used, s);
            if f.count(s) > 0 {
                let k = choose|k: int| 0 <= k < cur.len() && !used[k] && cur[k] == s;
                lemma_literal_pair_match(s, cur[k]);
                lemma_first_free_exists(s, cur, used, k);
            }
            assert(!(sm.count(s) <= f.count(s)));
        },
    }
}

proof fn lemma_free_pairs_all(cur: Seq<QueryPairSpec>)
    ensures
        free_pairs(cur, Seq::new(cur.len(), |i: int| false)) =~= cur.to_multiset(),
    decreases cur.len(),
{
    broadcast use vstd::seq_lib::group_to_multiset_ensures;
    if cur.len() == 0 {
        assert(cur.to_multiset() =~= Multiset::<QueryPairSpec>::empty()) by {
            assert forall|v: QueryPairSpec| cur.to_multiset().count(v) == 0 by {
                assert(!cur.contains(v));
            }
        }
    } else {
        let u = Seq::new(cur.len(), |i: int| false);
        assert(u.drop_last() =~= Seq::new(cur.drop_last().len(), |i: int| false));
        lemma_free_pairs_all(cur.drop_last());
        assert(cur =~= cur.drop_last().push(cur.last()));
    }
}

/// With signature pairs that hold no wildcard, a query matches exactly
/// when each signature pair occurs among the current pairs at least as
/// often as in the signature: extra pairs are allowed and a repeated key
/// needs as many matching pairs.
pub proof fn lemma_literal_query_match_is_containment(sig: Seq<QueryPairSpec>, cur: Seq<QueryPairSpec>)
    requires
        forall|i: int| 0 <= i < sig.len() ==> literal_pair(#[trigger] sig[i]),
    ensures
        query_match(sig, cur) <==> sig.to_multiset().subset_of(cur.to_multiset()),
{
    lemma_free_pairs_all(cur);
    lemma_greedy_literal(sig, cur, Seq::new(cur.len(), |i: int| false));
}

/// With signature pairs that hold no wildcard, the order of the current
/// URL's query pairs does not matter.
pub proof fn lemma_query_order_does_not_matter(
    sig: Seq<QueryPairSpec>,
    cur: Seq<QueryPairSpec>,
    reordered: Seq<QueryPairSpec>,
)
    requires
        forall|i: int| 0 <= i < sig.len() ==> literal_pair(#[trigger] sig[i]),
        reordered.to_multiset() == cur.to_multiset(),
    ensures
        query_match(sig, reordered) == query_match(sig, cur),
{
    lemma_literal_query_match_is_containment(sig, cur);
    lemma_literal_query_match_is_containment(sig, reordered);
}


/// A signature without a fragment accepts the current URL whatever its
/// fragment; one with a fragment rejects a current URL that has none.
pub proof fn lemma_fragment_checked_only_when_signed(s: UrlSpec, c: UrlSpec, other: Option<Seq<u8>>)
    ensures
        s.fragment is None ==> parts_match(s, c) == parts_match(
            s,
            (UrlSpec { fragment: other, ..c }),
        ),
        s.fragment is Some && c.fragment is None ==> !parts_match(s, c),
{
}

} // verus!
