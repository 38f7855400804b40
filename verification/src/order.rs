//! Lexicographic order on byte strings (the order of `str` and `String`),
//! on optional byte strings (`None` first), and the laws that make it a
//! total order.

use vstd::prelude::*;

verus! {

/// `-1`, `0` or `1` as `a` sorts before, with, or after `b`, byte by byte,
/// a proper prefix first.
pub open spec fn lex_order(a: Seq<u8>, b: Seq<u8>) -> int
    decreases a.len(),
{
    if a.len() == 0 {
        if b.len() == 0 {
            0
        } else {
            -1
        }
    } else if b.len() == 0 {
        1
    } else if a[0] < b[0] {
        -1
    } else if a[0] > b[0] {
        1
    } else {
        lex_order(a.skip(1), b.skip(1))
    }
}

/// The order of optional byte strings: absent first, then by bytes.
pub open spec fn opt_order(a: Option<Seq<u8>>, b: Option<Seq<u8>>) -> int {
    match (a, b) {
        (None, None) => 0,
        (None, Some(_)) => -1,
        (Some(_), None) => 1,
        (Some(x), Some(y)) => lex_order(x, y),
    }
}

/// Swapping the arguments reverses the order; only equal strings tie.
pub proof fn lemma_lex_order_antisymmetric(a: Seq<u8>, b: Seq<u8>)
    ensures
        lex_order(a, b) == -lex_order(b, a),
        -1 <= lex_order(a, b) <= 1,
        lex_order(a, b) == 0 <==> a == b,
    decreases a.len(),
{
    if a.len() > 0 && b.len() > 0 && a[0] == b[0] {
        lemma_lex_order_antisymmetric(a.skip(1), b.skip(1));
        if a.skip(1) == b.skip(1) {
            assert(a =~= seq![a[0]] + a.skip(1));
            assert(b =~= seq![b[0]] + b.skip(1));
        }
        if a == b {
            assert(a.skip(1) =~= b.skip(1));
        }
    } else if a.len() == 0 && b.len() == 0 {
        assert(a =~= b);
    } else if a.len() > 0 && b.len() > 0 {
        assert(a[0] != b[0]);
    }
}

/// The order is transitive, strictly so when either step is strict.
pub proof fn lemma_lex_order_transitive(a: Seq<u8>, b: Seq<u8>, c: Seq<u8>)
    ensures
        lex_order(a, b) <= 0 && lex_order(b, c) <= 0 ==> lex_order(a, c) <= 0,
        lex_order(a, b) < 0 && lex_order(b, c) <= 0 ==> lex_order(a, c) < 0,
        lex_order(a, b) <= 0 && lex_order(b, c) < 0 ==> lex_order(a, c) < 0,
    decreases a.len(),
{
    lemma_lex_order_antisymmetric(a, b);
    lemma_lex_order_antisymmetric(b, c);
    lemma_lex_order_antisymmetric(a, c);
    if a.len() > 0 && b.len() > 0 && c.len() > 0 {
        lemma_lex_order_transitive(a.skip(1), b.skip(1), c.skip(1));
    }
}

pub proof fn lemma_opt_order(a: Option<Seq<u8>>, b: Option<Seq<u8>>, c: Option<Seq<u8>>)
    ensures
        opt_order(a, b) == -opt_order(b, a),
        -1 <= opt_order(a, b) <= 1,
        opt_order(a, b) == 0 <==> a == b,
        opt_order(a, b) <= 0 && opt_order(b, c) <= 0 ==> opt_order(a, c) <= 0,
        opt_order(a, b) < 0 && opt_order(b, c) <= 0 ==> opt_order(a, c) < 0,
        opt_order(a, b) <= 0 && opt_order(b, c) < 0 ==> opt_order(a, c) < 0,
{
    match (a, b) {
        (Some(x), Some(y)) => {
            lemma_lex_order_antisymmetric(x, y);
        },
        _ => {},
    }
    match (a, b, c) {
        (Some(x), Some(y), Some(z)) => {
            lemma_lex_order_transitive(x, y, z);
        },
        _ => {},
    }
}

/// Compare two byte strings.
pub fn compare_bytes(a: &[u8], b: &[u8]) -> (r: i8)
    ensures
        r as int == lex_order(a@, b@),
{
    let mut i: usize = 0;
    assert(a@.skip(0) =~= a@);
    assert(b@.skip(0) =~= b@);
    while i < a.len() && i < b.len()
        invariant
            i <= a@.len(),
            i <= b@.len(),
            a@.take(i as int) == b@.take(i as int),
            lex_order(a@, b@) == lex_order(a@.skip(i as int), b@.skip(i as int)),
        decreases a@.len() - i,
    {
        let ghost sa = a@.skip(i as int);
        let ghost sb = b@.skip(i as int);
        proof {
            assert(sa[0] == a@[i as int]);
            assert(sb[0] == b@[i as int]);
        }
        if a[i] < b[i] {
            return -1;
        }
        if a[i] > b[i] {
            return 1;
        }
        proof {
            assert(sa.skip(1) =~= a@.skip(i + 1));
            assert(sb.skip(1) =~= b@.skip(i + 1));
            assert(a@.take(i + 1) =~= a@.take(i as int).push(a@[i as int]));
            assert(b@.take(i + 1) =~= b@.take(i as int).push(b@[i as int]));
        }
        i = i + 1;
    }
    if i < a.len() {
        return 1;
    }
    if i < b.len() {
        return -1;
    }
    0
}

/// Compare two optional strings by their bytes, absent first.
pub fn compare_opt_bytes(a: Option<&[u8]>, b: Option<&[u8]>) -> (r: i8)
    ensures
        r as int == opt_order(
            match a {
                Some(x) => Some(x@),
                None => None,
            },
            match b {
                Some(x) => Some(x@),
                None => None,
            },
        ),
{
    match (a, b) {
        (None, None) => 0,
        (None, Some(_)) => -1,
        (Some(_), None) => 1,
        (Some(x), Some(y)) => compare_bytes(x, y),
    }
}

} // verus!
