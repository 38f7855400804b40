//! Percent-encoding of secret-reference components: unreserved bytes stay,
//! every other byte becomes `%XX` with upper-case hex digits. Decoding
//! accepts what `u8::from_str_radix(_, 16)` accepts for the two escape
//! characters, and the decoded bytes must be UTF-8.

use vstd::prelude::*;
use vstd::utf8::{decode_utf8, encode_utf8, valid_utf8};
use vstd::string::StringSliceAdditionalSpecFns;
use crate::text::string_from_bytes;

verus! {

/// RFC 3986 unreserved bytes: ASCII letters, digits, `-`, `_`, `.`, `~`.
pub open spec fn is_unreserved(b: u8) -> bool {
    ||| (48 <= b && b <= 57)
    ||| (65 <= b && b <= 90)
    ||| (97 <= b && b <= 122)
    ||| b == 45
    ||| b == 95
    ||| b == 46
    ||| b == 126
}

/// The upper-case hex digit for `n < 16`.
pub open spec fn hex_upper(n: u8) -> u8 {
    if n < 10 {
        (48 + n) as u8
    } else {
        (55 + n) as u8
    }
}

/// One byte, encoded.
pub open spec fn encode_byte(b: u8) -> Seq<u8> {
    if is_unreserved(b) {
        seq![b]
    } else {
        seq![37u8, hex_upper(b / 16), hex_upper(b % 16)]
    }
}

/// The encoding of a byte string, byte by byte.
pub open spec fn pct_encode(s: Seq<u8>) -> Seq<u8>
    decreases s.len(),
{
    if s.len() == 0 {
        Seq::empty()
    } else {
        pct_encode(s.drop_last()) + encode_byte(s.last())
    }
}

/// The value of one hex digit, either case.
pub open spec fn hex_value(c: u8) -> Option<u8> {
    if 48 <= c && c <= 57 {
        Some((c - 48) as u8)
    } else if 65 <= c && c <= 70 {
        Some((c - 55) as u8)
    } else if 97 <= c && c <= 102 {
        Some((c - 87) as u8)
    } else {
        None
    }
}

/// The byte that the two characters after `%` stand for, read as a base-16
/// number the way `u8::from_str_radix` reads it: two hex digits, or a `+`
/// sign followed by one hex digit.
pub open spec fn escape_value(hi: u8, lo: u8) -> Option<u8> {
    match hex_value(lo) {
        None => None,
        Some(l) => if hi == 43 {
            Some(l)
        } else {
            match hex_value(hi) {
                None => None,
                Some(h) => Some((16 * h + l) as u8),
            }
        },
    }
}

/// Why a component failed to decode.
#[derive(Debug, Clone, Copy, PartialEq, Eq, Structural)]
pub enum DecodeError {
    /// A `%` with fewer than two characters after it.
    IncompleteEscape,
    /// A `%` followed by characters that are not a base-16 byte.
    InvalidEscape,
    /// The decoded bytes are not UTF-8.
    InvalidUtf8,
}

/// Percent-decoding, left to right; the first bad escape decides the error.
pub open spec fn pct_decode(s: Seq<u8>) -> Result<Seq<u8>, DecodeError>
    decreases s.len(),
{
    if s.len() == 0 {
        Ok(Seq::empty())
    } else if s[0] == 37 {
        if s.len() < 3 {
            Err(DecodeError::IncompleteEscape)
        } else {
            match escape_value(s[1], s[2]) {
                None => Err(DecodeError::InvalidEscape),
                Some(b) => match pct_decode(s.skip(3)) {
                    Ok(r) => Ok(seq![b] + r),
                    Err(e) => Err(e),
                },
            }
        }
    } else {
        match pct_decode(s.skip(1)) {
            Ok(r) => Ok(seq![s[0]] + r),
            Err(e) => Err(e),
        }
    }
}

/// A decoded component: the decoded bytes read as UTF-8 text.
pub open spec fn decode_component_spec(s: Seq<u8>) -> Result<Seq<char>, DecodeError> {
    match pct_decode(s) {
        Err(e) => Err(e),
        Ok(d) => if valid_utf8(d) {
            Ok(decode_utf8(d))
        } else {
            Err(DecodeError::InvalidUtf8)
        },
    }
}

proof fn lemma_pct_encode_append(a: Seq<u8>, b: Seq<u8>)
    ensures
        pct_encode(a + b) == pct_encode(a) + pct_encode(b),
    decreases b.len(),
{
    if b.len() == 0 {
        assert(a + b =~= a);
        assert(pct_encode(a) + pct_encode(b) =~= pct_encode(a));
    } else {
        assert((a + b).drop_last() =~= a + b.drop_last());
        assert((a + b).last() == b.last());
        lemma_pct_encode_append(a, b.drop_last());
        assert(pct_encode(a) + pct_encode(b.drop_last()) + encode_byte(b.last()) =~= pct_encode(a)
            + (pct_encode(b.drop_last()) + encode_byte(b.last())));
    }
}

/// The encoding of `s` starts with the encoding of its first byte.
proof fn lemma_pct_encode_front(s: Seq<u8>)
    requires
        s.len() > 0,
    ensures
        pct_encode(s) == encode_byte(s[0]) + pct_encode(s.skip(1)),
{
    assert(s =~= seq![s[0]] + s.skip(1));
    lemma_pct_encode_append(seq![s[0]], s.skip(1));
    let one = seq![s[0]];
    assert(one.drop_last() =~= Seq::<u8>::empty());
    assert(pct_encode(one.drop_last()) == Seq::<u8>::empty());
    assert(one.last() == s[0]);
    assert(pct_encode(one) == pct_encode(one.drop_last()) + encode_byte(s[0]));
    assert(Seq::<u8>::empty() + encode_byte(s[0]) =~= encode_byte(s[0]));
}

proof fn lemma_hex_roundtrip(b: u8)
    ensures
        hex_value(hex_upper(b / 16)) == Some(b / 16),
        hex_value(hex_upper(b % 16)) == Some(b % 16),
        16 * (b / 16) + b % 16 == b,
        hex_upper(b / 16) != 43,
{
}

/// Decoding undoes encoding: every byte string comes back unchanged.
pub proof fn lemma_decode_inverts_encode(s: Seq<u8>)
    ensures
        pct_decode(pct_encode(s)) == Ok::<Seq<u8>, DecodeError>(s),
    decreases s.len(),
{
    if s.len() > 0 {
        let e = pct_encode(s);
        let rest = s.skip(1);
        lemma_pct_encode_front(s);
        lemma_decode_inverts_encode(rest);
        let b = s[0];
        assert(seq![b] + rest =~= s);
        if is_unreserved(b) {
            assert(e.skip(1) =~= pct_encode(rest));
            assert(e[0] == b);
            assert(b != 37);
            assert(pct_decode(e) == Ok::<Seq<u8>, DecodeError>(seq![b] + rest));
        } else {
            lemma_hex_roundtrip(b);
            assert(e.skip(3) =~= pct_encode(rest));
            assert(e[0] == 37 && e[1] == hex_upper(b / 16) && e[2] == hex_upper(b % 16));
            assert(escape_value(e[1], e[2]) == Some(b));
            assert(e.len() >= 3);
            assert(pct_decode(e) == Ok::<Seq<u8>, DecodeError>(seq![b] + rest));
        }
    } else {
        assert(s =~= Seq::<u8>::empty());
    }
}

/// Decoding the encoding of any text gives the text back.
pub proof fn lemma_decode_component_inverts_encode(text: Seq<char>)
    ensures
        decode_component_spec(pct_encode(encode_utf8(text))) == Ok::<Seq<char>, DecodeError>(text),
{
    lemma_decode_inverts_encode(encode_utf8(text));
    vstd::utf8::encode_utf8_valid_utf8(text);
    vstd::utf8::encode_utf8_decode_utf8(text);
}

/// Every encoded byte is unreserved or `%`: no `/`, no `?`.
pub proof fn lemma_encoded_bytes(s: Seq<u8>)
    ensures
        forall|i: int| 0 <= i < pct_encode(s).len() ==> {
            let c = #[trigger] pct_encode(s)[i];
            is_unreserved(c) || c == 37
        },
        pct_encode(s).len() >= s.len(),
    decreases s.len(),
{
    if s.len() > 0 {
        lemma_encoded_bytes(s.drop_last());
        let p = pct_encode(s.drop_last());
        let e = encode_byte(s.last());
        assert forall|i: int| 0 <= i < pct_encode(s).len() implies {
            let c = #[trigger] pct_encode(s)[i];
            is_unreserved(c) || c == 37
        } by {
            if i < p.len() {
                assert(pct_encode(s)[i] == p[i]);
            } else {
                assert(pct_encode(s)[i] == e[i - p.len()]);
            }
        }
    }
}

fn hex_digit_upper(n: u8) -> (r: u8)
    requires
        n < 16,
    ensures
        r == hex_upper(n),
{
    if n < 10 {
        48 + n
    } else {
        55 + n
    }
}

fn unreserved(b: u8) -> (r: bool)
    ensures
        r == is_unreserved(b),
{
    (48 <= b && b <= 57) || (65 <= b && b <= 90) || (97 <= b && b <= 122) || b == 45 || b == 95
        || b == 46 || b == 126
}

/// Encode the bytes of `value`.
pub fn encode_bytes(value: &[u8]) -> (r: Vec<u8>)
    ensures
        r@ == pct_encode(value@),
{
    let mut out: Vec<u8> = Vec::new();
    let mut i: usize = 0;
    while i < value.len()
        invariant
            i <= value@.len(),
            out@ == pct_encode(value@.take(i as int)),
        decreases value@.len() - i,
    {
        let b = value[i];
        proof {
            assert(value@.take(i + 1).drop_last() =~= value@.take(i as int));
            assert(value@.take(i + 1).last() == b);
        }
        if unreserved(b) {
            out.push(b);
        } else {
            out.push(37);
            out.push(hex_digit_upper(b / 16));
            out.push(hex_digit_upper(b % 16));
        }
        proof {
            assert(out@ =~= pct_encode(value@.take(i as int)) + encode_byte(b));
        }
        i = i + 1;
    }
    proof {
        assert(value@.take(i as int) =~= value@);
    }
    out
}

/// Percent-encode a reference component.
pub fn encode_component(value: &str) -> (r: String)
    ensures
        encode_utf8(r@) == pct_encode(value.spec_bytes()),
{
    let bytes = encode_bytes(value.as_bytes());
    proof {
        lemma_encoded_bytes(value.spec_bytes());
    }
    string_from_bytes(&bytes)
}

fn hex_digit_value(c: u8) -> (r: Option<u8>)
    ensures
        r == hex_value(c),
{
    if 48 <= c && c <= 57 {
        Some(c - 48)
    } else if 65 <= c && c <= 70 {
        Some(c - 55)
    } else if 97 <= c && c <= 102 {
        Some(c - 87)
    } else {
        None
    }
}

fn escape_byte(hi: u8, lo: u8) -> (r: Option<u8>)
    ensures
        r == escape_value(hi, lo),
{
    match hex_digit_value(lo) {
        None => None,
        Some(l) => if hi == 43 {
            Some(l)
        } else {
            match hex_digit_value(hi) {
                None => None,
                Some(h) => Some(16 * h + l),
            }
        },
    }
}

/// Percent-decode `value` to bytes.
pub fn decode_bytes(value: &[u8]) -> (r: Result<Vec<u8>, DecodeError>)
    ensures
        match r {
            Ok(v) => pct_decode(value@) == Ok::<Seq<u8>, DecodeError>(v@),
            Err(e) => pct_decode(value@) == Err::<Seq<u8>, DecodeError>(e),
        },
{
    let mut out: Vec<u8> = Vec::new();
    let mut i: usize = 0;
    proof {
        assert(value@.skip(0) =~= value@);
    }
    while i < value.len()
        invariant
            i <= value@.len(),
            pct_decode(value@) == match pct_decode(value@.skip(i as int)) {
                Ok(r) => Ok(out@ + r),
                Err(e) => Err::<Seq<u8>, DecodeError>(e),
            },
        decreases value@.len() - i,
    {
        let ghost s = value@.skip(i as int);
        if value[i] == 37 {
            if value.len() - i < 3 {
                return Err(DecodeError::IncompleteEscape);
            }
            match escape_byte(value[i + 1], value[i + 2]) {
                None => {
                    return Err(DecodeError::InvalidEscape);
                },
                Some(b) => {
                    proof {
                        assert(s.skip(3) =~= value@.skip(i + 3));
                        assert(out@.push(b) =~= out@ + seq![b]);
                        assert forall|r: Seq<u8>| out@ + (seq![b] + r) == out@.push(b) + r by {
                            assert(out@ + (seq![b] + r) =~= out@.push(b) + r);
                        }
                    }
                    out.push(b);
                    i = i + 3;
                },
            }
        } else {
            let b = value[i];
            proof {
                assert(s.skip(1) =~= value@.skip(i + 1));
                assert forall|r: Seq<u8>| out@ + (seq![b] + r) == out@.push(b) + r by {
                    assert(out@ + (seq![b] + r) =~= out@.push(b) + r);
                }
            }
            out.push(b);
            i = i + 1;
        }
    }
    proof {
        assert(value@.skip(i as int) =~= Seq::<u8>::empty());
        assert(out@ + Seq::<u8>::empty() =~= out@);
    }
    Ok(out)
}

/// Percent-decode the bytes of a component and read them as UTF-8.
pub fn decode_component_bytes(value: &[u8]) -> (r: Result<String, DecodeError>)
    ensures
        match r {
            Ok(s) => decode_component_spec(value@) == Ok::<Seq<char>, DecodeError>(s@),
            Err(e) => decode_component_spec(value@) == Err::<Seq<char>, DecodeError>(e),
        },
{
    match decode_bytes(value) {
        Err(e) => Err(e),
        Ok(bytes) => match crate::chars::string_from_utf8(bytes) {
            Some(s) => Ok(s),
            None => Err(DecodeError::InvalidUtf8),
        },
    }
}

/// Percent-decode a reference component.
pub fn decode_component(value: &str) -> (r: Result<String, DecodeError>)
    ensures
        match r {
            Ok(s) => decode_component_spec(value.spec_bytes()) == Ok::<Seq<char>, DecodeError>(s@),
            Err(e) => decode_component_spec(value.spec_bytes()) == Err::<Seq<char>, DecodeError>(e),
        },
{
    decode_component_bytes(value.as_bytes())
}

} // verus!
