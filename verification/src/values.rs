//! `values.toml`: the user's names for values, each mapped to a secret
//! reference, kept in name order (names compared byte by byte).

use vstd::prelude::*;
use vstd::utf8::encode_utf8;
use crate::slot::{distinct_values, lemma_map_of_get, lemma_map_of_insert_fresh, lemma_map_of_update, map_of};
use crate::order::{compare_bytes, lemma_lex_order_antisymmetric, lemma_lex_order_transitive, lex_order};

verus! {

/// The names and references of value entries.
pub open spec fn entry_views(v: Seq<(String, String)>) -> Seq<(Seq<char>, Seq<char>)> {
    Seq::new(v.len(), |i: int| (v[i].0@, v[i].1@))
}

/// Names strictly increasing, so each occurs once.
pub open spec fn names_ordered(e: Seq<(Seq<char>, Seq<char>)>) -> bool {
    forall|i: int, j: int| 0 <= i < j < e.len() ==> lex_order(encode_utf8(#[trigger] e[i].0), encode_utf8(#[trigger] e[j].0)) < 0
}

/// `values.toml` content: name → secret-provider reference.
#[derive(Debug)]
pub struct ValuesConfig {
    entries: Vec<(String, String)>,
}

proof fn lemma_encode_injective(a: Seq<char>, b: Seq<char>)
    requires
        encode_utf8(a) == encode_utf8(b),
    ensures
        a == b,
{
    vstd::utf8::encode_utf8_decode_utf8(a);
    vstd::utf8::encode_utf8_decode_utf8(b);
}

proof fn lemma_ordered_distinct(e: Seq<(Seq<char>, Seq<char>)>)
    requires
        names_ordered(e),
    ensures
        distinct_values(e),
{
    assert forall|i: int, j: int| 0 <= i < j < e.len() implies #[trigger] e[i].0 != #[trigger] e[j].0 by {
        assert(lex_order(encode_utf8(e[i].0), encode_utf8(e[j].0)) < 0);
        lemma_lex_order_antisymmetric(encode_utf8(e[i].0), encode_utf8(e[j].0));
    }
}

proof fn lemma_insert_keeps_order(e: Seq<(Seq<char>, Seq<char>)>, i: int, x: (Seq<char>, Seq<char>))
    requires
        names_ordered(e),
        0 <= i <= e.len(),
        forall|k: int| 0 <= k < i ==> lex_order(encode_utf8(#[trigger] e[k].0), encode_utf8(x.0)) < 0,
        i < e.len() ==> lex_order(encode_utf8(x.0), encode_utf8(e[i].0)) < 0,
    ensures
        names_ordered(e.insert(i, x)),
{
    let n = e.insert(i, x);
    assert forall|a: int, b: int| 0 <= a < b < n.len() implies lex_order(encode_utf8(#[trigger] n[a].0), encode_utf8(#[trigger] n[b].0)) < 0 by {
        if b < i {
            assert(n[a] == e[a] && n[b] == e[b]);
        } else if b == i {
            assert(n[a] == e[a] && n[b] == x);
        } else if a == i {
            assert(n[b] == e[b - 1] && n[a] == x);
            if b - 1 > i {
                assert(lex_order(encode_utf8(e[i].0), encode_utf8(e[b - 1].0)) < 0);
                lemma_lex_order_transitive(encode_utf8(x.0), encode_utf8(e[i].0), encode_utf8(e[b - 1].0));
            }
        } else if a < i {
            assert(n[a] == e[a] && n[b] == e[b - 1]);
            if i < e.len() {
                lemma_lex_order_transitive(encode_utf8(e[a].0), encode_utf8(x.0), encode_utf8(e[i].0));
                if b - 1 > i {
                    assert(lex_order(encode_utf8(e[i].0), encode_utf8(e[b - 1].0)) < 0);
                    lemma_lex_order_transitive(encode_utf8(e[a].0), encode_utf8(e[i].0), encode_utf8(e[b - 1].0));
                }
            }
        } else {
            assert(n[a] == e[a - 1] && n[b] == e[b - 1]);
        }
    }
}

impl View for ValuesConfig {
    type V = Map<Seq<char>, Seq<char>>;

    closed spec fn view(&self) -> Map<Seq<char>, Seq<char>> {
        map_of(entry_views(self.entries@))
    }
}

impl ValuesConfig {
    #[verifier::type_invariant]
    closed spec fn inv(&self) -> bool {
        names_ordered(entry_views(self.entries@))
    }

    /// The entries in name order.
    pub closed spec fn ordered_entries(&self) -> Seq<(Seq<char>, Seq<char>)> {
        entry_views(self.entries@)
    }

    pub fn new() -> (v: ValuesConfig)
        ensures
            v@ == Map::<Seq<char>, Seq<char>>::empty(),
            v.ordered_entries().len() == 0,
    {
        let entries: Vec<(String, String)> = Vec::new();
        assert(entry_views(entries@) =~= Seq::<(Seq<char>, Seq<char>)>::empty());
        ValuesConfig { entries }
    }

    /// Where `name` is, or where it would go.
    fn position(&self, name: &str) -> (r: (usize, bool))
        ensures
            r.0 <= self.entries@.len(),
            forall|i: int| 0 <= i < r.0 ==> lex_order(encode_utf8(#[trigger] self.entries@[i].0@), encode_utf8(name@)) < 0,
            r.1 ==> r.0 < self.entries@.len() && self.entries@[r.0 as int].0@ == name@,
            !r.1 ==> (r.0 < self.entries@.len() ==> lex_order(encode_utf8(name@), encode_utf8(self.entries@[r.0 as int].0@)) < 0),
    {
        proof {
            use_type_invariant(self);
        }
        let nb = name.as_bytes();
        let mut i: usize = 0;
        while i < self.entries.len()
            invariant
                i <= self.entries@.len(),
                nb@ == encode_utf8(name@),
                forall|k: int| 0 <= k < i ==> lex_order(encode_utf8(#[trigger] self.entries@[k].0@), encode_utf8(name@)) < 0,
            decreases self.entries@.len() - i,
        {
            let c = compare_bytes(self.entries[i].0.as_str().as_bytes(), nb);
            if c == 0 {
                proof {
                    lemma_lex_order_antisymmetric(encode_utf8(self.entries@[i as int].0@), encode_utf8(name@));
                    lemma_encode_injective(self.entries@[i as int].0@, name@);
                }
                return (i, true);
            }
            if c > 0 {
                proof {
                    lemma_lex_order_antisymmetric(encode_utf8(self.entries@[i as int].0@), encode_utf8(name@));
                }
                return (i, false);
            }
            i = i + 1;
        }
        (i, false)
    }

    /// The reference entered under `name`.
    pub fn get(&self, name: &str) -> (r: Option<&str>)
        ensures
            match r {
                Some(v) => self@.dom().contains(name@) && self@[name@] == v@,
                None => !self@.dom().contains(name@),
            },
    {
        proof {
            use_type_invariant(self);
        }
        let (i, found) = self.position(name);
        proof {
            let e = entry_views(self.entries@);
            lemma_ordered_distinct(e);
            lemma_map_of_get(e, name@);
            if found {
                assert(e[i as int].0 == name@);
            } else {
                assert forall|k: int| 0 <= k < e.len() implies e[k].0 != name@ by {
                    assert(e[k].0 == self.entries@[k].0@);
                    if k < i {
                        lemma_lex_order_antisymmetric(encode_utf8(e[k].0), encode_utf8(name@));
                    } else if i < e.len() {
                        if k > i {
                            assert(lex_order(encode_utf8(e[i as int].0), encode_utf8(e[k].0)) < 0);
                            lemma_lex_order_transitive(encode_utf8(name@), encode_utf8(e[i as int].0), encode_utf8(e[k].0));
                        }
                        lemma_lex_order_antisymmetric(encode_utf8(name@), encode_utf8(e[k].0));
                    }
                }
            }
        }
        if found {
            Some(self.entries[i].1.as_str())
        } else {
            None
        }
    }

    /// Enter `reference` under `name`, replacing what was there.
    pub fn insert(&mut self, name: String, reference: String)
        ensures
            final(self)@ == old(self)@.insert(name@, reference@),
    {
        proof {
            use_type_invariant(&*self);
        }
        let (i, found) = self.position(name.as_str());
        let ghost e = entry_views(self.entries@);
        let ghost x = (name@, reference@);
        let mut entries: Vec<(String, String)> = Vec::new();
        std::mem::swap(&mut entries, &mut self.entries);
        assert(entry_views(entries@) == e);
        proof {
            lemma_ordered_distinct(e);
        }
        if found {
            entries.set(i, (name, reference));
            proof {
                let n = entry_views(entries@);
                assert(n =~= e.update(i as int, (e[i as int].0, x.1)));
                assert forall|a: int, b: int| 0 <= a < b < n.len() implies lex_order(encode_utf8(#[trigger] n[a].0), encode_utf8(#[trigger] n[b].0)) < 0 by {
                    assert(n[a].0 == e[a].0 && n[b].0 == e[b].0);
                }
                lemma_map_of_update(e, i as int, x.1);
            }
        } else {
            entries.insert(i, (name, reference));
            proof {
                let n = entry_views(entries@);
                assert(n =~= e.insert(i as int, x));
                lemma_insert_keeps_order(e, i as int, x);
                assert forall|j: int| 0 <= j < e.len() implies #[trigger] e[j].0 != x.0 by {
                    if j < i {
                        lemma_lex_order_antisymmetric(encode_utf8(e[j].0), encode_utf8(x.0));
                    } else {
                        if j > i {
                            assert(lex_order(encode_utf8(e[i as int].0), encode_utf8(e[j].0)) < 0);
                            lemma_lex_order_transitive(encode_utf8(x.0), encode_utf8(e[i as int].0), encode_utf8(e[j].0));
                        }
                        lemma_lex_order_antisymmetric(encode_utf8(x.0), encode_utf8(e[j].0));
                    }
                }
                lemma_map_of_insert_fresh(e, i as int, x);
            }
        }
        self.entries = entries;
    }

    /// The entries in name order.
    pub fn entries(&self) -> (r: &Vec<(String, String)>)
        ensures
            entry_views(r@) == self.ordered_entries(),
            names_ordered(entry_views(r@)),
            map_of(entry_views(r@)) == self@,
    {
        proof {
            use_type_invariant(self);
        }
        &self.entries
    }

    pub fn len(&self) -> (r: usize)
        ensures
            r == self.ordered_entries().len(),
    {
        self.entries.len()
    }
}

impl Default for ValuesConfig {
    fn default() -> (v: ValuesConfig)
        ensures
            v@ == Map::<Seq<char>, Seq<char>>::empty(),
    {
        ValuesConfig::new()
    }
}

fn copy_entries(v: &Vec<(String, String)>) -> (r: Vec<(String, String)>)
    ensures
        entry_views(r@) == entry_views(v@),
{
    let mut r: Vec<(String, String)> = Vec::new();
    let mut i: usize = 0;
    while i < v.len()
        invariant
            i <= v@.len(),
            entry_views(r@) == entry_views(v@).take(i as int),
        decreases v@.len() - i,
    {
        let a = v[i].0.clone();
        let b = v[i].1.clone();
        assert(a@ == v@[i as int].0@ && b@ == v@[i as int].1@);
        let ghost before = r@;
        r.push((a, b));
        assert(entry_views(r@) =~= entry_views(before).push((v@[i as int].0@, v@[i as int].1@)));
        assert(entry_views(r@) =~= entry_views(v@).take(i + 1));
        i = i + 1;
    }
    assert(entry_views(v@).take(i as int) =~= entry_views(v@));
    r
}

impl Clone for ValuesConfig {
    fn clone(&self) -> (r: ValuesConfig)
        ensures
            r@ == self@,
            r.ordered_entries() == self.ordered_entries(),
    {
        proof {
            use_type_invariant(self);
        }
        ValuesConfig { entries: copy_entries(&self.entries) }
    }
}

} // verus!
