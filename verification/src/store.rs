//! The result aggregator: a keyed store from repository name to fetched
//! value.
//!
//! Fetch completions write into the store one key at a time with [`ResultMap::upsert`],
//! which replaces the whole value under its key and touches no other key; the
//! render pass reads a point-in-time copy through [`ResultMap::snapshot`].
//! Entries are kept in ascending key order, so a snapshot always lists
//! repositories deterministically.

use vstd::prelude::*;

use crate::text::lemma_lex_irrefl;
use crate::text::lemma_lex_total;
use crate::text::lemma_lex_trans;
use crate::text::lex_lt;
use crate::text::str_lt;

verus! {

/// A value the aggregator can hold: it has a mathematical image, and it can
/// be copied without changing that image.
pub trait StoreValue: DeepView + Sized {
    /// An equal value, component for component.
    fn duplicate(&self) -> (r: Self)
        ensures
            r.deep_view() == self.deep_view(),
    ;
}

impl<T: StoreValue> StoreValue for Vec<T> {
    #[verifier::loop_isolation(false)]
    fn duplicate(&self) -> (r: Self)
        ensures
            r.deep_view() == self.deep_view(),
    {
        let mut out: Vec<T> = Vec::new();
        let mut i: usize = 0;
        proof {
            assert(out.deep_view() =~= self.deep_view().take(0));
        }
        while i < self.len()
            invariant
                i <= self@.len(),
                out@.len() == i,
                forall|k: int|
                    0 <= k < i ==> (#[trigger] out@[k].deep_view()) == self@[k].deep_view(),
            decreases self@.len() - i,
        {
            out.push(self[i].duplicate());
            i += 1;
        }
        proof {
            assert forall|k: int|
                0 <= k < self@.len() implies out.deep_view()[k] == self.deep_view()[k] by {
                assert(out@[k].deep_view() == self@[k].deep_view());
            }
            assert(out.deep_view() =~= self.deep_view());
        }
        out
    }
}

/// The value under `k` in an association list, the last occurrence winning.
spec fn assoc_lookup<X>(es: Seq<(Seq<char>, X)>, k: Seq<char>) -> Option<X>
    decreases es.len(),
{
    if es.len() == 0 {
        None
    } else if es.last().0 == k {
        Some(es.last().1)
    } else {
        assoc_lookup(es.drop_last(), k)
    }
}

/// A key that appears nowhere is never found.
proof fn lemma_assoc_absent<X>(es: Seq<(Seq<char>, X)>, k: Seq<char>)
    requires
        forall|j: int| 0 <= j < es.len() ==> (#[trigger] es[j].0) != k,
    ensures
        assoc_lookup(es, k) is None,
    decreases es.len(),
{
    if es.len() > 0 {
        assert(forall|j: int|
            0 <= j < es.drop_last().len() ==> #[trigger] es.drop_last()[j] == es[j]);
        lemma_assoc_absent(es.drop_last(), k);
    }
}

/// With no duplicate of its key, the lookup finds exactly the entry at `j`.
proof fn lemma_assoc_at<X>(es: Seq<(Seq<char>, X)>, k: Seq<char>, j: int)
    requires
        0 <= j < es.len(),
        es[j].0 == k,
        forall|q: int| 0 <= q < es.len() && q != j ==> (#[trigger] es[q].0) != k,
    ensures
        assoc_lookup(es, k) == Some(es[j].1),
    decreases es.len(),
{
    if j == es.len() - 1 {
    } else {
        assert(es.last().0 != k);
        assert(forall|q: int|
            0 <= q < es.drop_last().len() ==> #[trigger] es.drop_last()[q] == es[q]);
        lemma_assoc_at(es.drop_last(), k, j);
    }
}

/// Replacing the value at `j` changes the lookup under that key and no other.
proof fn lemma_assoc_update<X>(es: Seq<(Seq<char>, X)>, j: int, v: X)
    requires
        0 <= j < es.len(),
        forall|q: int| 0 <= q < es.len() && q != j ==> (#[trigger] es[q].0) != es[j].0,
    ensures
        forall|k: Seq<char>|
            #[trigger] assoc_lookup(es.update(j, (es[j].0, v)), k) == if k == es[j].0 {
                Some(v)
            } else {
                assoc_lookup(es, k)
            },
    decreases es.len(),
{
    let es2 = es.update(j, (es[j].0, v));
    if j == es.len() - 1 {
        assert(es2.drop_last() =~= es.drop_last());
        assert forall|k: Seq<char>|
            #[trigger] assoc_lookup(es2, k) == if k == es[j].0 {
                Some(v)
            } else {
                assoc_lookup(es, k)
            } by {
            if k != es[j].0 {
                assert(assoc_lookup(es2, k) == assoc_lookup(es2.drop_last(), k));
            }
        }
    } else {
        assert(es2.drop_last() =~= es.drop_last().update(j, (es[j].0, v)));
        assert(es.drop_last()[j] == es[j]);
        assert(forall|q: int|
            0 <= q < es.drop_last().len() ==> #[trigger] es.drop_last()[q] == es[q]);
        lemma_assoc_update(es.drop_last(), j, v);
        assert forall|k: Seq<char>|
            #[trigger] assoc_lookup(es2, k) == if k == es[j].0 {
                Some(v)
            } else {
                assoc_lookup(es, k)
            } by {
            assert(es2.last() == es.last());
            if es.last().0 == k {
            } else {
                assert(assoc_lookup(es2.drop_last(), k) == if k == es[j].0 {
                    Some(v)
                } else {
                    assoc_lookup(es.drop_last(), k)
                });
            }
        }
    }
}

/// Inserting a fresh key changes the lookup under that key and no other.
proof fn lemma_assoc_insert<X>(es: Seq<(Seq<char>, X)>, pos: int, key: Seq<char>, v: X)
    requires
        0 <= pos <= es.len(),
        forall|j: int| 0 <= j < es.len() ==> (#[trigger] es[j].0) != key,
    ensures
        forall|k: Seq<char>|
            #[trigger] assoc_lookup(es.insert(pos, (key, v)), k) == if k == key {
                Some(v)
            } else {
                assoc_lookup(es, k)
            },
    decreases es.len(),
{
    let es2 = es.insert(pos, (key, v));
    if pos == es.len() {
        assert(es2.last() == (key, v));
        assert(es2.drop_last() =~= es);
    } else {
        assert(es2.last() == es.last());
        assert(es2.drop_last() =~= es.drop_last().insert(pos, (key, v)));
        assert(forall|j: int|
            0 <= j < es.drop_last().len() ==> #[trigger] es.drop_last()[j] == es[j]);
        lemma_assoc_insert(es.drop_last(), pos, key, v);
        assert forall|k: Seq<char>|
            #[trigger] assoc_lookup(es2, k) == if k == key {
                Some(v)
            } else {
                assoc_lookup(es, k)
            } by {
            if es.last().0 == k {
            } else {
                assert(assoc_lookup(es2.drop_last(), k) == if k == key {
                    Some(v)
                } else {
                    assoc_lookup(es.drop_last(), k)
                });
            }
        }
    }
}

/// Removing the entry at `j` empties the lookup under its key and no other.
proof fn lemma_assoc_remove<X>(es: Seq<(Seq<char>, X)>, j: int)
    requires
        0 <= j < es.len(),
        forall|q: int| 0 <= q < es.len() && q != j ==> (#[trigger] es[q].0) != es[j].0,
    ensures
        forall|k: Seq<char>|
            #[trigger] assoc_lookup(es.remove(j), k) == if k == es[j].0 {
                None::<X>
            } else {
                assoc_lookup(es, k)
            },
    decreases es.len(),
{
    let es2 = es.remove(j);
    if j == es.len() - 1 {
        assert(es2 =~= es.drop_last());
        assert forall|k: Seq<char>|
            #[trigger] assoc_lookup(es2, k) == if k == es[j].0 {
                None::<X>
            } else {
                assoc_lookup(es, k)
            } by {
            if k == es[j].0 {
                assert(forall|q: int|
                    0 <= q < es2.len() ==> #[trigger] es2[q] == es[q]);
                lemma_assoc_absent(es2, k);
            }
        }
    } else {
        assert(es2.last() == es.last());
        assert(es2.drop_last() =~= es.drop_last().remove(j));
        assert(es.drop_last()[j] == es[j]);
        assert(forall|q: int|
            0 <= q < es.drop_last().len() ==> #[trigger] es.drop_last()[q] == es[q]);
        lemma_assoc_remove(es.drop_last(), j);
        assert forall|k: Seq<char>|
            #[trigger] assoc_lookup(es2, k) == if k == es[j].0 {
                None::<X>
            } else {
                assoc_lookup(es, k)
            } by {
            if es.last().0 == k {
            } else {
                assert(assoc_lookup(es2.drop_last(), k) == if k == es[j].0 {
                    None::<X>
                } else {
                    assoc_lookup(es.drop_last(), k)
                });
            }
        }
    }
}

/// The keyed store.
pub struct ResultMap<V: StoreValue> {
    entries: Vec<(String, V)>,
}

impl<V: StoreValue> ResultMap<V> {
    /// The entries as pairs of key characters and value image, in store
    /// order.
    pub closed spec fn kv(&self) -> Seq<(Seq<char>, V::V)> {
        Seq::new(
            self.entries@.len(),
            |k: int| (self.entries@[k].0@, self.entries@[k].1.deep_view()),
        )
    }

    /// The keys in store order.
    pub open spec fn key_seq(&self) -> Seq<Seq<char>> {
        Seq::new(self.kv().len(), |k: int| self.kv()[k].0)
    }

    /// Entries stand in strictly ascending key order; in particular every key
    /// appears once.
    pub open spec fn inv(&self) -> bool {
        forall|i: int, j: int|
            0 <= i < j < self.key_seq().len() ==> lex_lt(
                #[trigger] self.key_seq()[i],
                #[trigger] self.key_seq()[j],
            )
    }

    /// No two entries share a key.
    proof fn lemma_unique_keys(&self)
        requires
            self.inv(),
        ensures
            forall|i: int, j: int|
                0 <= i < self.kv().len() && 0 <= j < self.kv().len() && i != j ==> (
                #[trigger] self.kv()[i].0) != (#[trigger] self.kv()[j].0),
    {
        assert forall|i: int, j: int|
            0 <= i < self.kv().len() && 0 <= j < self.kv().len() && i != j implies (
        #[trigger] self.kv()[i].0) != (#[trigger] self.kv()[j].0) by {
            if i < j {
                assert(lex_lt(self.key_seq()[i], self.key_seq()[j]));
            } else {
                assert(lex_lt(self.key_seq()[j], self.key_seq()[i]));
            }
            if self.kv()[i].0 == self.kv()[j].0 {
                lemma_lex_irrefl(self.kv()[i].0);
            }
        }
    }

    /// An empty store.
    pub fn new() -> (r: Self)
        ensures
            r.inv(),
            r@ == Map::<Seq<char>, V::V>::empty(),
            r.key_seq().len() == 0,
    {
        let r = ResultMap { entries: Vec::new() };
        proof {
            assert(r.kv() =~= Seq::<(Seq<char>, V::V)>::empty());
            assert(r@ =~= Map::<Seq<char>, V::V>::empty());
        }
        r
    }

    /// How many repositories hold a value.
    pub fn len(&self) -> (r: usize)
        ensures
            r == self.key_seq().len(),
    {
        self.entries.len()
    }

    /// The key at position `i` of the deterministic order.
    pub fn key_at(&self, i: usize) -> (r: &String)
        requires
            i < self.key_seq().len(),
        ensures
            r@ == self.key_seq()[i as int],
    {
        &self.entries[i].0
    }

    /// The value at position `i` of the deterministic order.
    pub fn val_at(&self, i: usize) -> (r: &V)
        requires
            self.inv(),
            i < self.key_seq().len(),
        ensures
            self@.contains_key(self.key_seq()[i as int]),
            r.deep_view() == self@[self.key_seq()[i as int]],
    {
        proof {
            self.lemma_unique_keys();
            lemma_assoc_at(self.kv(), self.kv()[i as int].0, i as int);
        }
        &self.entries[i].1
    }

    /// Stores `val` under `key`, replacing the whole previous value if one
    /// was there and touching no other key.
    #[verifier::loop_isolation(false)]
    pub fn upsert(&mut self, key: String, val: V)
        requires
            old(self).inv(),
        ensures
            final(self).inv(),
            final(self)@ == old(self)@.insert(key@, val.deep_view()),
    {
        proof {
            self.lemma_unique_keys();
        }
        let ghost kv0 = self.kv();
        let mut i: usize = 0;
        while i < self.entries.len() && str_lt(&self.entries[i].0, &key)
            invariant
                i <= self.entries@.len(),
                self.kv() == kv0,
                forall|q: int| 0 <= q < i ==> lex_lt((#[trigger] kv0[q].0), key@),
            decreases self.entries@.len() - i,
        {
            i += 1;
        }
        if i < self.entries.len() && self.entries[i].0 == key {
            let ghost dv = val.deep_view();
            self.entries[i] = (key, val);
            proof {
                assert(self.kv() =~= kv0.update(i as int, (kv0[i as int].0, dv)));
                lemma_assoc_update(kv0, i as int, dv);
                assert(self.key_seq() =~= old(self).key_seq());
                assert(self@ =~= old(self)@.insert(kv0[i as int].0, dv));
            }
        } else {
            let ghost dv = val.deep_view();
            let ghost kb = key@;
            proof {
                assert forall|j: int| i <= j < kv0.len() implies lex_lt(kb, #[trigger] kv0[j].0) by {
                    assert(old(self).key_seq()[i as int] == kv0[i as int].0);
                    assert(kv0[i as int].0 != kb);
                    lemma_lex_total(kb, kv0[i as int].0);
                    assert(lex_lt(kb, kv0[i as int].0));
                    if j > i {
                        assert(old(self).key_seq()[j] == kv0[j].0);
                        assert(lex_lt(old(self).key_seq()[i as int], old(self).key_seq()[j]));
                        lemma_lex_trans(kb, kv0[i as int].0, kv0[j].0);
                    }
                }
                assert forall|j: int| 0 <= j < kv0.len() implies (#[trigger] kv0[j].0) != kb by {
                    if j < i {
                        if kv0[j].0 == kb {
                            lemma_lex_irrefl(kb);
                        }
                    } else {
                        if kv0[j].0 == kb {
                            lemma_lex_irrefl(kb);
                        }
                    }
                }
                lemma_assoc_insert(kv0, i as int, kb, dv);
            }
            self.entries.insert(i, (key, val));
            proof {
                kv0.insert_ensures(i as int, (kb, dv));
                assert(self.kv() =~= kv0.insert(i as int, (kb, dv)));
                assert(self@ =~= old(self)@.insert(kb, dv));
                let ks = self.key_seq();
                assert forall|p: int, q: int| 0 <= p < q < ks.len() implies lex_lt(
                    #[trigger] ks[p],
                    #[trigger] ks[q],
                ) by {
                    assert(forall|a: int, b: int|
                        0 <= a < b < kv0.len() ==> lex_lt(
                            (#[trigger] old(self).key_seq()[a]),
                            (#[trigger] old(self).key_seq()[b]),
                        ));
                    assert(forall|a: int| 0 <= a < kv0.len() ==> old(self).key_seq()[a] == (
                    #[trigger] kv0[a].0));
                    if q < i {
                        assert(ks[p] == kv0[p].0 && ks[q] == kv0[q].0);
                        assert(lex_lt(old(self).key_seq()[p], old(self).key_seq()[q]));
                    } else if p > i {
                        assert(ks[p] == kv0[p - 1].0 && ks[q] == kv0[q - 1].0);
                        assert(lex_lt(old(self).key_seq()[p - 1], old(self).key_seq()[q - 1]));
                    } else if p < i && q == i {
                        assert(ks[p] == kv0[p].0 && ks[q] == kb);
                    } else if p < i && q > i {
                        assert(ks[p] == kv0[p].0 && ks[q] == kv0[q - 1].0);
                        assert(lex_lt(kv0[p].0, kb));
                        lemma_lex_trans(kv0[p].0, kb, kv0[q - 1].0);
                    } else if p == i {
                        assert(ks[p] == kb && ks[q] == kv0[q - 1].0);
                    }
                }
            }
        }
    }

    /// Drops the value under `key`, if any; every other key is untouched.
    #[verifier::loop_isolation(false)]
    pub fn remove(&mut self, key: &String)
        requires
            old(self).inv(),
        ensures
            final(self).inv(),
            final(self)@ == old(self)@.remove(key@),
    {
        proof {
            self.lemma_unique_keys();
        }
        let ghost kv0 = self.kv();
        let mut i: usize = 0;
        while i < self.entries.len()
            invariant
                i <= self.entries@.len(),
                self.kv() == kv0,
                forall|q: int| 0 <= q < i ==> (#[trigger] kv0[q].0) != key@,
            decreases self.entries@.len() - i,
        {
            if self.entries[i].0 == *key {
                self.entries.remove(i);
                proof {
                    kv0.remove_ensures(i as int);
                    assert(self.kv() =~= kv0.remove(i as int));
                    lemma_assoc_remove(kv0, i as int);
                    assert(self@ =~= old(self)@.remove(key@));
                    let ks = self.key_seq();
                    assert forall|p: int, q: int| 0 <= p < q < ks.len() implies lex_lt(
                        #[trigger] ks[p],
                        #[trigger] ks[q],
                    ) by {
                        assert(forall|a: int, b: int|
                            0 <= a < b < kv0.len() ==> lex_lt(
                                (#[trigger] old(self).key_seq()[a]),
                                (#[trigger] old(self).key_seq()[b]),
                            ));
                        assert(forall|a: int| 0 <= a < kv0.len() ==> old(self).key_seq()[a] == (
                        #[trigger] kv0[a].0));
                        if q < i {
                            assert(ks[p] == kv0[p].0 && ks[q] == kv0[q].0);
                        } else if p >= i {
                            assert(ks[p] == kv0[p + 1].0 && ks[q] == kv0[q + 1].0);
                        } else {
                            assert(ks[p] == kv0[p].0 && ks[q] == kv0[q + 1].0);
                        }
                    }
                }
                return ;
            }
            i += 1;
        }
        proof {
            lemma_assoc_absent(kv0, key@);
            assert(!self@.contains_key(key@));
            assert(self@ =~= old(self)@.remove(key@));
            assert(self.key_seq() =~= old(self).key_seq());
            assert forall|p: int, q: int|
                0 <= p < q < self.key_seq().len() implies lex_lt(
                #[trigger] self.key_seq()[p],
                #[trigger] self.key_seq()[q],
            ) by {
                assert(lex_lt(old(self).key_seq()[p], old(self).key_seq()[q]));
            }
        }
    }

    /// The value under `key`, if one is stored.
    #[verifier::loop_isolation(false)]
    pub fn get(&self, key: &String) -> (r: Option<&V>)
        requires
            self.inv(),
        ensures
            match r {
                Some(x) => self@.contains_key(key@) && x.deep_view() == self@[key@],
                None => !self@.contains_key(key@),
            },
    {
        proof {
            self.lemma_unique_keys();
        }
        let mut i: usize = 0;
        while i < self.entries.len()
            invariant
                i <= self.entries@.len(),
                forall|q: int| 0 <= q < i ==> (#[trigger] self.kv()[q].0) != key@,
            decreases self.entries@.len() - i,
        {
            if self.entries[i].0 == *key {
                proof {
                    lemma_assoc_at(self.kv(), key@, i as int);
                }
                return Some(&self.entries[i].1);
            }
            i += 1;
        }
        proof {
            lemma_assoc_absent(self.kv(), key@);
        }
        None
    }

    /// A point-in-time copy, safe to walk while fetch completions keep
    /// writing into the original.
    #[verifier::loop_isolation(false)]
    pub fn snapshot(&self) -> (r: Self)
        requires
            self.inv(),
        ensures
            r.inv(),
            r@ == self@,
            r.key_seq() == self.key_seq(),
    {
        let mut out: Vec<(String, V)> = Vec::new();
        let mut i: usize = 0;
        while i < self.entries.len()
            invariant
                i <= self.entries@.len(),
                out@.len() == i,
                forall|q: int|
                    0 <= q < i ==> (#[trigger] out@[q].0)@ == self.kv()[q].0 && out@[q].1.deep_view()
                        == self.kv()[q].1,
            decreases self.entries@.len() - i,
        {
            let k = self.entries[i].0.clone();
            let v = self.entries[i].1.duplicate();
            out.push((k, v));
            i += 1;
        }
        let r = ResultMap { entries: out };
        proof {
            assert(r.kv() =~= self.kv());
            assert(r.key_seq() =~= self.key_seq());
            assert(r@ =~= self@);
        }
        r
    }
}

impl<V: StoreValue> View for ResultMap<V> {
    type V = Map<Seq<char>, <V as DeepView>::V>;

    /// The store as a mapping from repository name to stored image.
    closed spec fn view(&self) -> Map<Seq<char>, <V as DeepView>::V> {
        Map::new(
            |k: Seq<char>| assoc_lookup(self.kv(), k) is Some,
            |k: Seq<char>| assoc_lookup(self.kv(), k).unwrap(),
        )
    }
}

/// Writes under distinct keys never lose one another: after both land, the
/// store holds both values, and the order they landed in does not matter.
pub proof fn lemma_distinct_upserts<X>(
    m: Map<Seq<char>, X>,
    a: Seq<char>,
    va: X,
    b: Seq<char>,
    vb: X,
)
    requires
        a != b,
    ensures
        m.insert(a, va).insert(b, vb)[a] == va,
        m.insert(a, va).insert(b, vb)[b] == vb,
        m.insert(a, va).insert(b, vb).contains_key(a),
        m.insert(a, va).insert(b, vb).contains_key(b),
        m.insert(a, va).insert(b, vb) == m.insert(b, vb).insert(a, va),
{
    assert(m.insert(a, va).insert(b, vb) =~= m.insert(b, vb).insert(a, va));
}

} // verus!
