//! Slot derivation: a value becomes `[$<id> <description>]`. The id is the
//! user's name for the value when it has one, else the first four bytes of
//! the value's SHA-256 in lower-case hex; the description comes from the
//! describer set.

use vstd::prelude::*;
use vstd::string::StringSliceAdditionalSpecFns;
use crate::describer::{describe, describe_spec};
use crate::model::{Slot, SlotId, render_slot};
use crate::text::copy_range;

verus! {

/// The SHA-256 digest of `data`.
pub uninterp spec fn sha256(data: Seq<u8>) -> Seq<u8>;

/// `sha2::Sha256::digest`: the 32-byte SHA-256 digest of `data`.
#[verifier::external_body]
fn sha256_digest(data: &[u8]) -> (r: Vec<u8>)
    ensures
        r@ == sha256(data@),
        r@.len() == 32,
{
    <sha2::Sha256 as sha2::Digest>::digest(data).to_vec()
}

/// A lower-case hex digit.
pub open spec fn hex_lower_digit(n: u8) -> char {
    if n < 10 {
        ((48 + n) as u8) as char
    } else {
        ((87 + n) as u8) as char
    }
}

/// Bytes in lower-case hex, two digits per byte, high nibble first.
pub open spec fn hex_lower(b: Seq<u8>) -> Seq<char>
    decreases b.len(),
{
    if b.len() == 0 {
        Seq::empty()
    } else {
        hex_lower(b.drop_last()) + seq![hex_lower_digit(b.last() / 16), hex_lower_digit(b.last() % 16)]
    }
}

/// `hex::encode`: each byte as two lower-case hex digits, high nibble first.
#[verifier::external_body]
fn hex_encode(bytes: &[u8]) -> (r: String)
    ensures
        r@ == hex_lower(bytes@),
{
    hex::encode(bytes)
}

/// The hash id of a value.
pub open spec fn short_hash_spec(value: Seq<u8>) -> Seq<char> {
    hex_lower(sha256(value).take(4))
}

/// Eight characters, each a lower-case hex digit.
pub open spec fn hash_id_shaped(s: Seq<char>) -> bool {
    &&& s.len() == 8
    &&& forall|i: int| 0 <= i < 8 ==> ('0' <= #[trigger] s[i] && s[i] <= '9') || ('a' <= s[i] && s[i] <= 'f')
}

/// The first four bytes of the value's SHA-256, in hex: eight lower-case
/// hex digits.
pub fn short_hash(value: &str) -> (r: String)
    ensures
        r@ == short_hash_spec(value.spec_bytes()),
        sha256(value.spec_bytes()).len() == 32,
        hash_id_shaped(r@),
{
    let digest = sha256_digest(value.as_bytes());
    let head = copy_range(digest.as_slice(), 0, 4);
    assert(head@ =~= digest@.take(4));
    proof {
        lemma_hash_id_shape(value.spec_bytes());
    }
    hex_encode(head.as_slice())
}

/// A hash id has eight characters, each a lower-case hex digit.
pub proof fn lemma_hash_id_shape(value: Seq<u8>)
    requires
        sha256(value).len() == 32,
    ensures
        short_hash_spec(value).len() == 8,
        forall|i: int| 0 <= i < 8 ==> {
            let c = #[trigger] short_hash_spec(value)[i];
            ('0' <= c && c <= '9') || ('a' <= c && c <= 'f')
        },
{
    let d = sha256(value).take(4);
    lemma_hex_lower_shape(d);
}

proof fn lemma_hex_lower_shape(b: Seq<u8>)
    ensures
        hex_lower(b).len() == 2 * b.len(),
        forall|i: int| 0 <= i < hex_lower(b).len() ==> {
            let c = #[trigger] hex_lower(b)[i];
            ('0' <= c && c <= '9') || ('a' <= c && c <= 'f')
        },
    decreases b.len(),
{
    if b.len() > 0 {
        lemma_hex_lower_shape(b.drop_last());
        let p = hex_lower(b.drop_last());
        let hi = b.last() / 16;
        let lo = b.last() % 16;
        assert forall|i: int| 0 <= i < hex_lower(b).len() implies {
            let c = #[trigger] hex_lower(b)[i];
            ('0' <= c && c <= '9') || ('a' <= c && c <= 'f')
        } by {
            if i < p.len() {
                assert(hex_lower(b)[i] == p[i]);
            } else if i == p.len() {
                assert(hex_lower(b)[i] == hex_lower_digit(hi));
            } else {
                assert(hex_lower(b)[i] == hex_lower_digit(lo));
            }
        }
    }
}

/// The pairs of a value map: value, then the user's name for it.
pub open spec fn pair_views(p: Seq<(String, String)>) -> Seq<(Seq<char>, Seq<char>)> {
    Seq::new(p.len(), |i: int| (p[i].0@, p[i].1@))
}

/// The map the pairs describe.
pub open spec fn map_of(p: Seq<(Seq<char>, Seq<char>)>) -> Map<Seq<char>, Seq<char>>
    decreases p.len(),
{
    if p.len() == 0 {
        Map::empty()
    } else {
        map_of(p.drop_last()).insert(p.last().0, p.last().1)
    }
}

/// The map the pairs describe has a finite domain.
pub proof fn lemma_map_of_finite(p: Seq<(Seq<char>, Seq<char>)>)
    ensures
        map_of(p).dom().finite(),
    decreases p.len(),
{
    if p.len() > 0 {
        lemma_map_of_finite(p.drop_last());
    }
}

/// No value occurs twice.
pub open spec fn distinct_values(p: Seq<(Seq<char>, Seq<char>)>) -> bool {
    forall|i: int, j: int| 0 <= i < j < p.len() ==> #[trigger] p[i].0 != #[trigger] p[j].0
}

pub proof fn lemma_map_of_get(p: Seq<(Seq<char>, Seq<char>)>, k: Seq<char>)
    requires
        distinct_values(p),
    ensures
        map_of(p).dom().contains(k) <==> exists|i: int| 0 <= i < p.len() && #[trigger] p[i].0 == k,
        forall|i: int| 0 <= i < p.len() && #[trigger] p[i].0 == k ==> map_of(p)[k] == p[i].1,
    decreases p.len(),
{
    if p.len() > 0 {
        let q = p.drop_last();
        assert(distinct_values(q)) by {
            assert forall|i: int, j: int| 0 <= i < j < q.len() implies #[trigger] q[i].0 != #[trigger] q[j].0 by {
                assert(q[i] == p[i]);
                assert(q[j] == p[j]);
            }
        }
        lemma_map_of_get(q, k);
        if map_of(p).dom().contains(k) && k != p.last().0 {
            let i = choose|i: int| 0 <= i < q.len() && #[trigger] q[i].0 == k;
            assert(p[i].0 == k);
        }
        assert forall|i: int| 0 <= i < p.len() && #[trigger] p[i].0 == k implies map_of(p)[k] == p[i].1 by {
            if i < p.len() - 1 {
                assert(q[i] == p[i]);
                assert(p[i].0 != p[p.len() - 1].0);
            }
        }
        if exists|i: int| 0 <= i < p.len() && #[trigger] p[i].0 == k {
            let i = choose|i: int| 0 <= i < p.len() && #[trigger] p[i].0 == k;
            if i < p.len() - 1 {
                assert(q[i] == p[i]);
            }
        }
    }
}

pub proof fn lemma_map_of_update(p: Seq<(Seq<char>, Seq<char>)>, i: int, v: Seq<char>)
    requires
        distinct_values(p),
        0 <= i < p.len(),
    ensures
        map_of(p.update(i, (p[i].0, v))) == map_of(p).insert(p[i].0, v),
        distinct_values(p.update(i, (p[i].0, v))),
    decreases p.len(),
{
    let k = p[i].0;
    let u = p.update(i, (k, v));
    assert forall|a: int, b: int| 0 <= a < b < u.len() implies #[trigger] u[a].0 != #[trigger] u[b].0 by {
        assert(u[a].0 == p[a].0);
        assert(u[b].0 == p[b].0);
    }
    let q = p.drop_last();
    assert(distinct_values(q)) by {
        assert forall|a: int, b: int| 0 <= a < b < q.len() implies #[trigger] q[a].0 != #[trigger] q[b].0 by {
            assert(q[a] == p[a]);
            assert(q[b] == p[b]);
        }
    }
    if i == p.len() - 1 {
        assert(u.drop_last() =~= q);
        assert(map_of(u) =~= map_of(p).insert(k, v));
    } else {
        lemma_map_of_update(q, i, v);
        assert(u.drop_last() =~= q.update(i, (k, v)));
        assert(p.last().0 != k);
        assert(map_of(u) =~= map_of(p).insert(k, v));
    }
}

/// Inserting a pair for a fresh value anywhere inserts it in the map.
pub proof fn lemma_map_of_insert_fresh(p: Seq<(Seq<char>, Seq<char>)>, i: int, x: (Seq<char>, Seq<char>))
    requires
        0 <= i <= p.len(),
        forall|j: int| 0 <= j < p.len() ==> #[trigger] p[j].0 != x.0,
    ensures
        map_of(p.insert(i, x)) == map_of(p).insert(x.0, x.1),
    decreases p.len(),
{
    let n = p.insert(i, x);
    if i == p.len() {
        assert(n.drop_last() =~= p);
        assert(n.last() == x);
    } else {
        let q = p.drop_last();
        assert forall|j: int| 0 <= j < q.len() implies #[trigger] q[j].0 != x.0 by {
            assert(q[j] == p[j]);
        }
        lemma_map_of_insert_fresh(q, i, x);
        assert(n.drop_last() =~= q.insert(i, x));
        assert(n.last() == p.last());
        assert(p.last().0 != x.0) by {
            assert(p[p.len() - 1].0 != x.0);
        }
        assert(map_of(n) =~= map_of(p).insert(x.0, x.1));
    }
}

proof fn lemma_map_of_len(p: Seq<(Seq<char>, Seq<char>)>)
    requires
        distinct_values(p),
    ensures
        map_of(p).dom().finite(),
        map_of(p).dom().len() == p.len(),
    decreases p.len(),
{
    if p.len() > 0 {
        let q = p.drop_last();
        assert(distinct_values(q)) by {
            assert forall|a: int, b: int| 0 <= a < b < q.len() implies #[trigger] q[a].0 != #[trigger] q[b].0 by {
                assert(q[a] == p[a]);
                assert(q[b] == p[b]);
            }
        }
        lemma_map_of_len(q);
        lemma_map_of_get(q, p.last().0);
        if map_of(q).dom().contains(p.last().0) {
            let i = choose|i: int| 0 <= i < q.len() && #[trigger] q[i].0 == p.last().0;
            assert(p[i].0 == p[p.len() - 1].0);
        }
    }
}

/// What the daemon knows of real values: value → the user's name for it.
#[derive(Debug)]
pub struct ValueNameMap {
    pairs: Vec<(String, String)>,
}

impl View for ValueNameMap {
    type V = Map<Seq<char>, Seq<char>>;

    closed spec fn view(&self) -> Map<Seq<char>, Seq<char>> {
        map_of(pair_views(self.pairs@))
    }
}

impl ValueNameMap {
    /// No value is entered twice.
    #[verifier::type_invariant]
    closed spec fn well_formed(&self) -> bool {
        distinct_values(pair_views(self.pairs@))
    }

    pub fn new() -> (m: ValueNameMap)
        ensures
            m@ == Map::<Seq<char>, Seq<char>>::empty(),
            m@.dom().finite(),
    {
        let m = ValueNameMap { pairs: Vec::new() };
        assert(pair_views(m.pairs@) =~= Seq::<(Seq<char>, Seq<char>)>::empty());
        m
    }

    fn find(&self, value: &str) -> (r: Option<usize>)
        ensures
            r matches Some(i) ==> i < self.pairs@.len() && self.pairs@[i as int].0@ == value@,
            r is None ==> !self@.dom().contains(value@),
    {
        proof {
            use_type_invariant(self);
        }
        let mut i: usize = 0;
        while i < self.pairs.len()
            invariant
                i <= self.pairs@.len(),
                forall|j: int| 0 <= j < i ==> self.pairs@[j].0@ != value@,
            decreases self.pairs@.len() - i,
        {
            if crate::chars::chars_equal(self.pairs[i].0.as_str(), &crate::chars::chars_of(value)) {
                return Some(i);
            }
            i = i + 1;
        }
        proof {
            let pv = pair_views(self.pairs@);
            lemma_map_of_get(pv, value@);
            if self@.dom().contains(value@) {
                let j = choose|j: int| 0 <= j < pv.len() && #[trigger] pv[j].0 == value@;
                assert(pv[j].0 == self.pairs@[j].0@);
            }
        }
        None
    }

    /// Enter a value and its name; a value entered before gets the new name.
    pub fn insert(&mut self, value: String, name: String)
        ensures
            final(self)@ == old(self)@.insert(value@, name@),
            final(self)@.dom().finite(),
            final(self)@.dom().len() == old(self)@.dom().len() + if old(self)@.dom().contains(value@) {
                0int
            } else {
                1int
            },
    {
        proof {
            use_type_invariant(&*self);
            lemma_map_of_finite(pair_views(self.pairs@));
        }
        let ghost pv = pair_views(self.pairs@);
        let found = self.find(value.as_str());
        let mut pairs: Vec<(String, String)> = Vec::new();
        std::mem::swap(&mut pairs, &mut self.pairs);
        assert(pair_views(pairs@) == pv);
        match found {
            Some(i) => {
                let ghost n = name@;
                pairs.set(i, (value, name));
                proof {
                    assert(pair_views(pairs@) =~= pv.update(i as int, (pv[i as int].0, n)));
                    lemma_map_of_update(pv, i as int, n);
                }
            },
            None => {
                let ghost k = value@;
                let ghost n = name@;
                pairs.push((value, name));
                proof {
                    let nv = pair_views(pairs@);
                    assert(nv =~= pv.push((k, n)));
                    assert(nv.drop_last() =~= pv);
                    lemma_map_of_get(pv, k);
                    assert forall|a: int, b: int| 0 <= a < b < nv.len() implies #[trigger] nv[a].0 != #[trigger] nv[b].0 by {
                        if b == nv.len() - 1 {
                            assert(nv[a] == pv[a]);
                        } else {
                            assert(nv[a] == pv[a]);
                            assert(nv[b] == pv[b]);
                        }
                    }
                }
            },
        }
        self.pairs = pairs;
        proof {
            lemma_map_of_finite(pair_views(self.pairs@));
        }
    }

    /// The name entered for `value`, if any.
    pub fn lookup(&self, value: &str) -> (r: Option<&str>)
        ensures
            match r {
                Some(n) => self@.dom().contains(value@) && self@[value@] == n@,
                None => !self@.dom().contains(value@),
            },
    {
        proof {
            use_type_invariant(self);
        }
        match self.find(value) {
            Some(i) => {
                proof {
                    let pv = pair_views(self.pairs@);
                    lemma_map_of_get(pv, value@);
                    assert(pv[i as int].0 == value@);
                }
                Some(self.pairs[i].1.as_str())
            },
            None => None,
        }
    }

    /// Every value with its name, in the order they were first entered.
    /// The values and names, in the order they were first entered.
    pub closed spec fn entry_seq(&self) -> Seq<(Seq<char>, Seq<char>)> {
        pair_views(self.pairs@)
    }

    pub fn entries(&self) -> (r: Vec<(String, String)>)
        ensures
            pair_views(r@) == self.entry_seq(),
            distinct_values(pair_views(r@)),
            map_of(pair_views(r@)) == self@,
    {
        proof {
            use_type_invariant(self);
        }
        let mut r: Vec<(String, String)> = Vec::new();
        let mut i: usize = 0;
        while i < self.pairs.len()
            invariant
                i <= self.pairs@.len(),
                pair_views(r@) == pair_views(self.pairs@).take(i as int),
            decreases self.pairs@.len() - i,
        {
            let ghost before = r@;
            let v = self.pairs[i].0.clone();
            let n = self.pairs[i].1.clone();
            assert(v@ == self.pairs@[i as int].0@);
            assert(n@ == self.pairs@[i as int].1@);
            r.push((v, n));
            proof {
                assert(pair_views(r@) =~= pair_views(before).push(pair_views(self.pairs@)[i as int]));
                assert(pair_views(r@) =~= pair_views(self.pairs@).take(i + 1));
            }
            i = i + 1;
        }
        proof {
            assert(pair_views(self.pairs@).take(i as int) =~= pair_views(self.pairs@));
        }
        r
    }

    pub fn len(&self) -> (r: usize)
        ensures
            r == self@.dom().len(),
            self@.dom().finite(),
    {
        proof {
            use_type_invariant(self);
            lemma_map_of_finite(pair_views(self.pairs@));
            lemma_map_of_len(pair_views(self.pairs@));
        }
        self.pairs.len()
    }

    pub fn is_empty(&self) -> (r: bool)
        ensures
            r == (self@.dom().len() == 0),
            self@.dom().finite(),
    {
        self.len() == 0
    }
}

/// Every value map holds finitely many values.
pub proof fn lemma_value_name_map_finite(m: ValueNameMap)
    ensures
        m@.dom().finite(),
{
    lemma_map_of_finite(pair_views(m.pairs@));
}

/// The id a value gets: its name when it has one, else its hash.
pub open spec fn slot_id_text(value: Seq<char>, names: Map<Seq<char>, Seq<char>>) -> Seq<char> {
    if names.dom().contains(value) {
        names[value]
    } else {
        short_hash_spec(vstd::utf8::encode_utf8(value))
    }
}

/// The rendered slot of a value.
pub open spec fn slot_text(value: Seq<char>, names: Map<Seq<char>, Seq<char>>) -> Seq<char> {
    render_slot(slot_id_text(value, names), describe_spec(value))
}

/// The slot of a value.
pub fn derive_slot(value: &str, vn: &ValueNameMap) -> (s: Slot)
    ensures
        s.id is Named <==> vn@.dom().contains(value@),
        s.id.text() == slot_id_text(value@, vn@),
        s.description@ == describe_spec(value@),
        s.spec_render() == slot_text(value@, vn@),
        s.id is Hash ==> hash_id_shaped(s.id.text()),
{
    let id = match vn.lookup(value) {
        Some(name) => SlotId::Named(crate::chars::owned(name)),
        None => SlotId::Hash(short_hash(value)),
    };
    Slot { id, description: describe(value) }
}

impl Clone for ValueNameMap {
    fn clone(&self) -> (r: ValueNameMap)
        ensures
            r@ == self@,
    {
        proof {
            use_type_invariant(self);
        }
        let pairs = self.entries();
        ValueNameMap { pairs }
    }
}

} // verus!
