//! Byte-sequence helpers shared by the parsers: first-occurrence search,
//! splitting on a delimiter and copying ranges.

use vstd::prelude::*;
use vstd::utf8::{encode_utf8, is_ascii_chars};
use crate::chars::push_char;

verus! {

/// Index of the first occurrence of `d` in `s`, if any.
pub open spec fn find_byte(s: Seq<u8>, d: u8) -> Option<int> {
    if exists|i: int| 0 <= i < s.len() && s[i] == d && (forall|j: int| 0 <= j < i ==> s[j] != d) {
        Some(choose|i: int| 0 <= i < s.len() && s[i] == d && (forall|j: int| 0 <= j < i ==> s[j] != d))
    } else {
        None
    }
}

/// Split at the first `d`: the part before, and the part after if `d` occurs.
pub open spec fn split_once_opt(s: Seq<u8>, d: u8) -> (Seq<u8>, Option<Seq<u8>>) {
    match find_byte(s, d) {
        Some(i) => (s.take(i), Some(s.skip(i + 1))),
        None => (s, None),
    }
}

/// The pieces of `s` between occurrences of `d`, empty pieces included;
/// there is always at least one piece.
pub open spec fn split_on(s: Seq<u8>, d: u8) -> Seq<Seq<u8>>
    decreases s.len(),
{
    if s.len() == 0 {
        seq![Seq::<u8>::empty()]
    } else {
        let p = split_on(s.drop_last(), d);
        if s.last() == d {
            p.push(Seq::<u8>::empty())
        } else {
            p.update(p.len() - 1, p[p.len() - 1].push(s.last()))
        }
    }
}

/// The non-empty pieces of `ps`, in order.
pub open spec fn nonempty_pieces(ps: Seq<Seq<u8>>) -> Seq<Seq<u8>>
    decreases ps.len(),
{
    if ps.len() == 0 {
        Seq::empty()
    } else {
        let r = nonempty_pieces(ps.drop_last());
        if ps.last().len() > 0 {
            r.push(ps.last())
        } else {
            r
        }
    }
}

/// The byte contents of each vector in `v`.
pub open spec fn views(v: Seq<Vec<u8>>) -> Seq<Seq<u8>> {
    Seq::new(v.len(), |i: int| v[i]@)
}

/// `s` split on `d`, with empty pieces dropped.
pub open spec fn segments(s: Seq<u8>, d: u8) -> Seq<Seq<u8>> {
    nonempty_pieces(split_on(s, d))
}

pub proof fn lemma_split_on_len(s: Seq<u8>, d: u8)
    ensures
        split_on(s, d).len() >= 1,
    decreases s.len(),
{
    if s.len() > 0 {
        lemma_split_on_len(s.drop_last(), d);
    }
}

pub proof fn lemma_find_byte(s: Seq<u8>, d: u8)
    ensures
        find_byte(s, d) matches Some(i) ==> 0 <= i < s.len() && s[i] == d && (forall|j: int|
            0 <= j < i ==> s[j] != d),
        find_byte(s, d) is None ==> forall|j: int| 0 <= j < s.len() ==> s[j] != d,
{
    if find_byte(s, d) is None {
        assert forall|j: int| 0 <= j < s.len() implies s[j] != d by {
            if s[j] == d {
                lemma_first_occurrence(s, d, j);
                let k = choose|k: int| 0 <= k <= j && s[k] == d && forall|m: int| 0 <= m < k ==> s[m] != d;
                assert(0 <= k < s.len() && s[k] == d && (forall|m: int| 0 <= m < k ==> s[m] != d));
            }
        }
    }
}

proof fn lemma_first_occurrence(s: Seq<u8>, d: u8, j: int)
    requires
        0 <= j < s.len(),
        s[j] == d,
    ensures
        exists|k: int| 0 <= k <= j && s[k] == d && forall|m: int| 0 <= m < k ==> s[m] != d,
    decreases j,
{
    if exists|m: int| 0 <= m < j && s[m] == d {
        let m = choose|m: int| 0 <= m < j && s[m] == d;
        lemma_first_occurrence(s, d, m);
    } else {
        assert(forall|m: int| 0 <= m < j ==> s[m] != d);
    }
}

/// Position of the first `d` in `b`, if any.
pub fn find_first(b: &[u8], d: u8) -> (r: Option<usize>)
    ensures
        r matches Some(i) ==> find_byte(b@, d) == Some(i as int) && i < b@.len(),
        r is None ==> find_byte(b@, d) is None,
{
    let mut i: usize = 0;
    while i < b.len()
        invariant
            i <= b@.len(),
            forall|j: int| 0 <= j < i ==> b@[j] != d,
        decreases b@.len() - i,
    {
        if b[i] == d {
            proof {
                lemma_find_byte(b@, d);
                if let Some(k) = find_byte(b@, d) {
                    assert(k == i as int);
                }
            }
            return Some(i);
        }
        i = i + 1;
    }
    proof {
        lemma_find_byte(b@, d);
    }
    None
}

/// A copy of `b[lo..hi]`.
pub fn copy_range(b: &[u8], lo: usize, hi: usize) -> (r: Vec<u8>)
    requires
        lo <= hi <= b@.len(),
    ensures
        r@ == b@.subrange(lo as int, hi as int),
{
    let mut r: Vec<u8> = Vec::new();
    let mut i = lo;
    while i < hi
        invariant
            lo <= i <= hi <= b@.len(),
            r@ == b@.subrange(lo as int, i as int),
        decreases hi - i,
    {
        r.push(b[i]);
        i = i + 1;
        assert(r@ =~= b@.subrange(lo as int, i as int));
    }
    r
}

/// `b` split at its first `d` (the delimiter itself dropped).
pub fn split_once_bytes(b: &[u8], d: u8) -> (r: (Vec<u8>, Option<Vec<u8>>))
    ensures
        r.0@ == split_once_opt(b@, d).0,
        r.1 is Some == split_once_opt(b@, d).1 is Some,
        r.1 matches Some(a) ==> split_once_opt(b@, d).1 == Some(a@),
{
    proof {
        lemma_find_byte(b@, d);
    }
    let n = b.len();
    match find_first(b, d) {
        Some(i) => {
            let before = copy_range(b, 0, i);
            let after = copy_range(b, i + 1, n);
            assert(before@ =~= b@.take(i as int));
            assert(after@ =~= b@.skip(i + 1));
            (before, Some(after))
        },
        None => {
            let all = copy_range(b, 0, b.len());
            assert(all@ =~= b@);
            (all, None)
        },
    }
}

/// The non-empty pieces of `b` between occurrences of `d`.
pub fn split_nonempty(b: &[u8], d: u8) -> (r: Vec<Vec<u8>>)
    ensures
        views(r@) == segments(b@, d),
{
    let mut done: Vec<Vec<u8>> = Vec::new();
    let mut cur: Vec<u8> = Vec::new();
    let mut i: usize = 0;
    proof {
        assert(b@.take(0) =~= Seq::<u8>::empty());
        lemma_split_on_len(b@.take(0), d);
        assert(split_on(b@.take(0), d).drop_last() =~= Seq::<Seq<u8>>::empty());
    }
    while i < b.len()
        invariant
            i <= b@.len(),
            split_on(b@.take(i as int), d).len() >= 1,
            views(done@) == nonempty_pieces(split_on(b@.take(i as int), d).drop_last()),
            cur@ == split_on(b@.take(i as int), d).last(),
        decreases b@.len() - i,
    {
        let ghost p = split_on(b@.take(i as int), d);
        let ghost s1 = b@.take(i + 1);
        proof {
            assert(s1.drop_last() =~= b@.take(i as int));
            assert(s1.last() == b@[i as int]);
        }
        if b[i] == d {
            if cur.len() > 0 {
                let mut piece: Vec<u8> = Vec::new();
                std::mem::swap(&mut piece, &mut cur);
                let ghost before = done@;
                done.push(piece);
                proof {
                    assert(views(done@) =~= views(before).push(piece@));
                }
            }
            proof {
                assert(split_on(s1, d) == p.push(Seq::<u8>::empty()));
                assert(split_on(s1, d).drop_last() =~= p);
                assert(p.drop_last().push(p.last()) =~= p);
                assert(cur@ =~= Seq::<u8>::empty());
            }
        } else {
            cur.push(b[i]);
            proof {
                let q = p.update(p.len() - 1, p[p.len() - 1].push(b@[i as int]));
                assert(split_on(s1, d) == q);
                assert(q.drop_last() =~= p.drop_last());
            }
        }
        i = i + 1;
    }
    let ghost p = split_on(b@.take(i as int), d);
    if cur.len() > 0 {
        let ghost before = done@;
        let ghost c = cur@;
        done.push(cur);
        proof {
            assert(views(done@) =~= views(before).push(c));
        }
    }
    proof {
        assert(b@.take(i as int) =~= b@);
        assert(p.drop_last().push(p.last()) =~= p);
    }
    done
}

} // verus!

verus! {

pub proof fn lemma_find_byte_is(s: Seq<u8>, d: u8, i: int)
    requires
        0 <= i < s.len(),
        s[i] == d,
        forall|j: int| 0 <= j < i ==> s[j] != d,
    ensures
        find_byte(s, d) == Some(i),
{
    lemma_find_byte(s, d);
    let k = find_byte(s, d)->0;
    if k < i {
    } else if k > i {
    }
}

pub proof fn lemma_find_byte_none(s: Seq<u8>, d: u8)
    requires
        forall|j: int| 0 <= j < s.len() ==> s[j] != d,
    ensures
        find_byte(s, d) is None,
{
    lemma_find_byte(s, d);
}

} // verus!

verus! {

/// The pieces of `b` between occurrences of `d`, empty pieces included.
pub fn split_pieces(b: &[u8], d: u8) -> (r: Vec<Vec<u8>>)
    ensures
        views(r@) == split_on(b@, d),
{
    let mut done: Vec<Vec<u8>> = Vec::new();
    let mut cur: Vec<u8> = Vec::new();
    let mut i: usize = 0;
    proof {
        assert(b@.take(0) =~= Seq::<u8>::empty());
        assert(split_on(b@.take(0), d).drop_last() =~= Seq::<Seq<u8>>::empty());
    }
    while i < b.len()
        invariant
            i <= b@.len(),
            split_on(b@.take(i as int), d).len() >= 1,
            views(done@) == split_on(b@.take(i as int), d).drop_last(),
            cur@ == split_on(b@.take(i as int), d).last(),
        decreases b@.len() - i,
    {
        let ghost p = split_on(b@.take(i as int), d);
        let ghost s1 = b@.take(i + 1);
        proof {
            assert(s1.drop_last() =~= b@.take(i as int));
            assert(s1.last() == b@[i as int]);
            lemma_split_on_len(s1, d);
        }
        if b[i] == d {
            let mut piece: Vec<u8> = Vec::new();
            std::mem::swap(&mut piece, &mut cur);
            let ghost before = done@;
            done.push(piece);
            proof {
                assert(views(done@) =~= views(before).push(piece@));
                assert(split_on(s1, d) == p.push(Seq::<u8>::empty()));
                assert(split_on(s1, d).drop_last() =~= p);
                assert(p.drop_last().push(p.last()) =~= p);
            }
        } else {
            cur.push(b[i]);
            proof {
                let q = p.update(p.len() - 1, p[p.len() - 1].push(b@[i as int]));
                assert(split_on(s1, d) == q);
                assert(q.drop_last() =~= p.drop_last());
            }
        }
        i = i + 1;
    }
    let ghost p = split_on(b@.take(i as int), d);
    let ghost before = done@;
    let ghost c = cur@;
    done.push(cur);
    proof {
        assert(views(done@) =~= views(before).push(c));
        assert(b@.take(i as int) =~= b@);
        assert(p.drop_last().push(p.last()) =~= p);
    }
    done
}

/// If `b` holds no `d`, splitting it gives `b` alone.
pub proof fn lemma_split_on_no_delimiter(b: Seq<u8>, d: u8)
    requires
        forall|i: int| 0 <= i < b.len() ==> b[i] != d,
    ensures
        split_on(b, d) == seq![b],
    decreases b.len(),
{
    if b.len() == 0 {
        assert(b =~= Seq::<u8>::empty());
        assert(split_on(b, d) =~= seq![b]);
    } else {
        lemma_split_on_no_delimiter(b.drop_last(), d);
        let p = split_on(b.drop_last(), d);
        assert(b.last() != d);
        assert(b.drop_last().push(b.last()) =~= b);
        assert(split_on(b, d) == p.update(0, p[0].push(b.last())));
        assert(p.update(0, p[0].push(b.last())) =~= seq![b]);
    }
}

/// Splitting `x + [d] + b`, where `b` holds no `d`, adds `b` as one last piece.
pub proof fn lemma_split_on_append(x: Seq<u8>, b: Seq<u8>, d: u8)
    requires
        forall|i: int| 0 <= i < b.len() ==> b[i] != d,
    ensures
        split_on(x + seq![d] + b, d) == split_on(x, d).push(b),
    decreases b.len(),
{
    lemma_split_on_len(x, d);
    if b.len() == 0 {
        let y = x + seq![d] + b;
        assert(b =~= Seq::<u8>::empty());
        assert(y.drop_last() =~= x);
        assert(y.last() == d);
        assert(split_on(y, d) == split_on(x, d).push(Seq::<u8>::empty()));
    } else {
        let y = x + seq![d] + b;
        assert(y.drop_last() =~= x + seq![d] + b.drop_last());
        lemma_split_on_append(x, b.drop_last(), d);
        let p = split_on(y.drop_last(), d);
        assert(p == split_on(x, d).push(b.drop_last()));
        assert(y.last() == b.last());
        assert(b.last() != d);
        assert(split_on(y, d) == p.update(p.len() - 1, p[p.len() - 1].push(y.last())));
        assert(b.drop_last().push(b.last()) =~= b);
        assert(p.update(p.len() - 1, p[p.len() - 1].push(y.last())) =~= split_on(x, d).push(b));
    }
}

} // verus!

verus! {

/// Whether every byte of `b` is ASCII.
pub open spec fn all_ascii(b: Seq<u8>) -> bool {
    forall|i: int| 0 <= i < b.len() ==> #[trigger] b[i] < 128
}

/// The text whose characters are the ASCII bytes of `b`.
pub fn string_from_bytes(b: &Vec<u8>) -> (s: String)
    requires
        all_ascii(b@),
    ensures
        encode_utf8(s@) == b@,
        s@.len() == b@.len(),
        forall|j: int| 0 <= j < b@.len() ==> #[trigger] s@[j] == (b@[j] as char),
{
    let mut s = String::new();
    let mut i: usize = 0;
    while i < b.len()
        invariant
            i <= b@.len(),
            all_ascii(b@),
            s@.len() == i,
            forall|j: int| 0 <= j < i ==> #[trigger] s@[j] == (b@[j] as char),
        decreases b@.len() - i,
    {
        let c = b[i] as char;
        push_char(&mut s, c);
        i = i + 1;
    }
    proof {
        assert forall|j: int| 0 <= j < s@.len() implies '\0' <= #[trigger] s@[j] <= '\u{7f}' by {
            assert(b@[j] < 128);
        }
        assert(is_ascii_chars(s@));
        vstd::utf8::is_ascii_chars_encode_utf8(s@);
        assert forall|j: int| 0 <= j < b@.len() implies encode_utf8(s@)[j] == b@[j] by {
            assert(s@[j] as u8 == b@[j]);
        }
        assert(encode_utf8(s@) =~= b@);
    }
    s
}

/// Whether `b` begins with `p`.
pub fn starts_with(b: &[u8], p: &[u8]) -> (r: bool)
    ensures
        r == (p@.len() <= b@.len() && b@.take(p@.len() as int) == p@),
{
    if p.len() > b.len() {
        return false;
    }
    let mut i: usize = 0;
    while i < p.len()
        invariant
            i <= p@.len() <= b@.len(),
            forall|j: int| 0 <= j < i ==> b@[j] == p@[j],
        decreases p@.len() - i,
    {
        if b[i] != p[i] {
            assert(b@.take(p@.len() as int)[i as int] != p@[i as int]);
            return false;
        }
        i = i + 1;
    }
    assert(b@.take(p@.len() as int) =~= p@);
    true
}

} // verus!
