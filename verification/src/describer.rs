//! The describer set: labels for the shape of a value, used as the
//! `<description>` of a slot. The first describer whose pattern matches
//! wins; long all-digit values fall back to `<N>-digit numeric`, anything
//! else to `text`.

use vstd::prelude::*;
use vstd::string::StringExecFns;
use crate::chars::{chars_of, decimal, owned, usize_to_decimal};

verus! {

/// Whether `pattern` compiles, and if so whether it matches somewhere in
/// `haystack` (`regex::Regex::new(pattern)` then `is_match(haystack)`).
pub uninterp spec fn regex_match(pattern: Seq<char>, haystack: Seq<char>) -> Option<bool>;

/// `regex::Regex::new(pattern)` followed by `Regex::is_match(haystack)`:
/// `None` when the pattern does not compile. What a match is, is the
/// regex crate's syntax and semantics; the contract only names it.
#[verifier::external_body]
pub(crate) fn regex_is_match(pattern: &str, haystack: &str) -> (r: Option<bool>)
    ensures
        r == regex_match(pattern@, haystack@),
{
    match regex::Regex::new(pattern) {
        Ok(re) => Some(re.is_match(haystack)),
        Err(_) => None,
    }
}

/// How many describers there are.
pub open spec fn describer_count() -> int {
    11
}

/// The pattern of describer `i`, most specific first.
pub open spec fn describer_pattern(i: int) -> Seq<char> {
    if i == 0 {
        r"^[0-9a-fA-F]{8}-[0-9a-fA-F]{4}-[0-9a-fA-F]{4}-[0-9a-fA-F]{4}-[0-9a-fA-F]{12}$"@
    } else if i == 1 {
        r"^[A-Za-z0-9._%+\-]+@[A-Za-z0-9.\-]+\.[A-Za-z]{2,}$"@
    } else if i == 2 {
        r"^(?:25[0-5]|2[0-4][0-9]|[01]?[0-9][0-9]?)(?:\.(?:25[0-5]|2[0-4][0-9]|[01]?[0-9][0-9]?)){3}$"@
    } else if i == 3 {
        r"^(?:[0-9A-Fa-f]{1,4}:){2,7}[0-9A-Fa-f]{1,4}$"@
    } else if i == 4 {
        r"^\d{4}-\d{2}-\d{2}T\d{2}:\d{2}"@
    } else if i == 5 {
        r"^\d{4}-\d{2}-\d{2}$"@
    } else if i == 6 {
        r"^\d{1,2}:\d{2}(?::\d{2})?(?:\s?[APap][Mm])?$"@
    } else if i == 7 {
        r"^-?\$[0-9][0-9,]*(?:\.[0-9]+)?$"@
    } else if i == 8 {
        r"^-?\d+(?:\.\d+)?%$"@
    } else if i == 9 {
        r"^[0-9A-Fa-f]{16,}$"@
    } else {
        r"^\+?\d{1,2}?[\s.\-]?\(?\d{3}\)?[\s.\-]?\d{3}[\s.\-]?\d{4}$"@
    }
}

/// The label of describer `i`.
pub open spec fn describer_label(i: int) -> Seq<char> {
    if i == 0 {
        "uuid"@
    } else if i == 1 {
        "email"@
    } else if i == 2 {
        "ipv4"@
    } else if i == 3 {
        "ipv6"@
    } else if i == 4 {
        "datetime"@
    } else if i == 5 {
        "date"@
    } else if i == 6 {
        "time"@
    } else if i == 7 {
        "currency"@
    } else if i == 8 {
        "percent"@
    } else if i == 9 {
        "hex"@
    } else {
        "phone"@
    }
}

fn pattern_of(i: usize) -> (r: &'static str)
    requires
        i < 11,
    ensures
        r@ == describer_pattern(i as int),
{
    if i == 0 {
        r"^[0-9a-fA-F]{8}-[0-9a-fA-F]{4}-[0-9a-fA-F]{4}-[0-9a-fA-F]{4}-[0-9a-fA-F]{12}$"
    } else if i == 1 {
        r"^[A-Za-z0-9._%+\-]+@[A-Za-z0-9.\-]+\.[A-Za-z]{2,}$"
    } else if i == 2 {
        r"^(?:25[0-5]|2[0-4][0-9]|[01]?[0-9][0-9]?)(?:\.(?:25[0-5]|2[0-4][0-9]|[01]?[0-9][0-9]?)){3}$"
    } else if i == 3 {
        r"^(?:[0-9A-Fa-f]{1,4}:){2,7}[0-9A-Fa-f]{1,4}$"
    } else if i == 4 {
        r"^\d{4}-\d{2}-\d{2}T\d{2}:\d{2}"
    } else if i == 5 {
        r"^\d{4}-\d{2}-\d{2}$"
    } else if i == 6 {
        r"^\d{1,2}:\d{2}(?::\d{2})?(?:\s?[APap][Mm])?$"
    } else if i == 7 {
        r"^-?\$[0-9][0-9,]*(?:\.[0-9]+)?$"
    } else if i == 8 {
        r"^-?\d+(?:\.\d+)?%$"
    } else if i == 9 {
        r"^[0-9A-Fa-f]{16,}$"
    } else {
        r"^\+?\d{1,2}?[\s.\-]?\(?\d{3}\)?[\s.\-]?\d{3}[\s.\-]?\d{4}$"
    }
}

fn label_of(i: usize) -> (r: &'static str)
    requires
        i < 11,
    ensures
        r@ == describer_label(i as int),
{
    if i == 0 {
        "uuid"
    } else if i == 1 {
        "email"
    } else if i == 2 {
        "ipv4"
    } else if i == 3 {
        "ipv6"
    } else if i == 4 {
        "datetime"
    } else if i == 5 {
        "date"
    } else if i == 6 {
        "time"
    } else if i == 7 {
        "currency"
    } else if i == 8 {
        "percent"
    } else if i == 9 {
        "hex"
    } else {
        "phone"
    }
}

/// The first describer, from `i` on, whose pattern matches `value`.
pub open spec fn first_describer_from(value: Seq<char>, i: int) -> Option<int>
    decreases describer_count() - i,
{
    if i >= describer_count() || i < 0 {
        None
    } else if regex_match(describer_pattern(i), value) == Some(true) {
        Some(i)
    } else {
        first_describer_from(value, i + 1)
    }
}

/// Whether every character of `s` is an ASCII digit.
pub open spec fn all_ascii_digits(s: Seq<char>) -> bool {
    forall|i: int| 0 <= i < s.len() ==> '0' <= #[trigger] s[i] && s[i] <= '9'
}

/// The description of a value.
pub open spec fn describe_spec(value: Seq<char>) -> Seq<char> {
    match first_describer_from(value, 0) {
        Some(i) => describer_label(i),
        None => if value.len() >= 8 && all_ascii_digits(value) {
            decimal(value.len()) + "-digit numeric"@
        } else {
            "text"@
        },
    }
}

proof fn lemma_first_describer_reaches(value: Seq<char>, k: int, i: int)
    requires
        0 <= k <= i,
        i < 11,
        regex_match(describer_pattern(i), value) == Some(true),
        forall|j: int| k <= j < i ==> regex_match(#[trigger] describer_pattern(j), value) != Some(true),
    ensures
        first_describer_from(value, k) == Some(i),
    decreases i - k,
{
    if k < i {
        lemma_first_describer_reaches(value, k + 1, i);
    }
}

proof fn lemma_no_describer_from(value: Seq<char>, k: int)
    requires
        0 <= k <= 11,
        forall|j: int| k <= j < 11 ==> regex_match(#[trigger] describer_pattern(j), value) != Some(true),
    ensures
        first_describer_from(value, k) is None,
    decreases 11 - k,
{
    if k < 11 {
        lemma_no_describer_from(value, k + 1);
    }
}

/// Every one of the eleven describers is tried, in order, and the first
/// whose pattern matches names the value: a value that describer `i`
/// matches and no earlier one does is described by the label of `i` (the
/// last, `phone`, included). A value that none matches is described as a
/// digit run of its length when it is eight or more ASCII digits, else as
/// `text`.
pub proof fn lemma_first_matching_describer_names_value(value: Seq<char>, i: int)
    ensures
        0 <= i < 11 && regex_match(describer_pattern(i), value) == Some(true) && (forall|j: int|
            0 <= j < i ==> regex_match(#[trigger] describer_pattern(j), value) != Some(true)) ==> describe_spec(
            value,
        ) == describer_label(i),
        i == 10 && regex_match(describer_pattern(10), value) == Some(true) && (forall|j: int|
            0 <= j < 10 ==> regex_match(#[trigger] describer_pattern(j), value) != Some(true)) ==> describe_spec(
            value,
        ) == "phone"@,
        (forall|j: int| 0 <= j < 11 ==> regex_match(#[trigger] describer_pattern(j), value) != Some(true))
            ==> describe_spec(value) == if value.len() >= 8 && all_ascii_digits(value) {
            decimal(value.len()) + "-digit numeric"@
        } else {
            "text"@
        },
{
    if 0 <= i < 11 && regex_match(describer_pattern(i), value) == Some(true) && (forall|j: int|
        0 <= j < i ==> regex_match(#[trigger] describer_pattern(j), value) != Some(true)) {
        lemma_first_describer_reaches(value, 0, i);
    }
    if forall|j: int| 0 <= j < 11 ==> regex_match(#[trigger] describer_pattern(j), value) != Some(true) {
        lemma_no_describer_from(value, 0);
    }
}

/// The description of a value's shape.
pub fn describe(value: &str) -> (r: String)
    ensures
        r@ == describe_spec(value@),
{
    let mut i: usize = 0;
    while i < 11
        invariant
            i <= 11,
            first_describer_from(value@, 0) == first_describer_from(value@, i as int),
        decreases 11 - i,
    {
        let m = regex_is_match(pattern_of(i), value);
        if m == Some(true) {
            return owned(label_of(i));
        }
        i = i + 1;
    }
    let v = chars_of(value);
    let mut digits = true;
    let mut k: usize = 0;
    while k < v.len()
        invariant
            k <= v@.len(),
            v@ == value@,
            digits == all_ascii_digits(v@.take(k as int)),
        decreases v@.len() - k,
    {
        let c = v[k];
        proof {
            let t = v@.take(k + 1);
            assert(t.drop_last() =~= v@.take(k as int));
            assert(t.last() == c);
            assert(all_ascii_digits(t) == (all_ascii_digits(v@.take(k as int)) && '0' <= c && c <= '9')) by {
                if all_ascii_digits(v@.take(k as int)) && '0' <= c && c <= '9' {
                    assert forall|j: int| 0 <= j < t.len() implies '0' <= #[trigger] t[j] && t[j] <= '9' by {
                        if j < k {
                            assert(t[j] == v@.take(k as int)[j]);
                        }
                    }
                }
                if all_ascii_digits(t) {
                    assert(t[k as int] == c);
                    assert forall|j: int| 0 <= j < k implies '0' <= #[trigger] v@.take(k as int)[j] && v@.take(k as int)[j] <= '9' by {
                        assert(v@.take(k as int)[j] == t[j]);
                    }
                }
            }
        }
        if !('0' <= c && c <= '9') {
            digits = false;
        }
        k = k + 1;
    }
    assert(v@.take(k as int) =~= v@);
    if v.len() >= 8 && digits {
        let mut r = usize_to_decimal(v.len());
        r.append("-digit numeric");
        r
    } else {
        owned("text")
    }
}

} // verus!
