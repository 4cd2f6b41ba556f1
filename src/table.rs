//! A table keyed by strings, kept as a vector of pairs sorted by key. The
//! pairs are thus a function of the map the table holds, which makes any
//! serialisation of the table deterministic.
use vstd::prelude::*;
use crate::order::{key_less, key_lt, lemma_key_lt};

verus! {

/// The map obtained from `m` by inserting the pairs of `s`, first to last.
pub open spec fn insert_all<V>(m: Map<Seq<char>, V>, s: Seq<(Seq<char>, V)>) -> Map<Seq<char>, V>
    decreases s.len(),
{
    if s.len() == 0 {
        m
    } else {
        insert_all(m, s.drop_last()).insert(s.last().0, s.last().1)
    }
}

/// No two pairs of `s` share a key.
pub open spec fn keys_unique<V>(s: Seq<(Seq<char>, V)>) -> bool {
    forall|i: int, j: int|
        0 <= i < s.len() && 0 <= j < s.len() && i != j ==> #[trigger] s[i].0 != #[trigger] s[j].0
}

/// The keys of `s` ascend strictly.
pub open spec fn keys_sorted<V>(s: Seq<(Seq<char>, V)>) -> bool {
    forall|i: int, j: int|
        0 <= i < j < s.len() ==> key_lt(#[trigger] s[i].0, #[trigger] s[j].0)
}

/// The pairs, sorted by key, whose insertion gives `m`.
pub open spec fn sorted_pairs<V>(m: Map<Seq<char>, V>) -> Seq<(Seq<char>, V)> {
    choose|s: Seq<(Seq<char>, V)>| keys_sorted(s) && insert_all(Map::empty(), s) == m
}

pub proof fn lemma_sorted_keys_unique<V>(s: Seq<(Seq<char>, V)>)
    requires
        keys_sorted(s),
    ensures
        keys_unique(s),
{
    assert forall|i: int, j: int|
        0 <= i < s.len() && 0 <= j < s.len() && i != j implies #[trigger] s[i].0
        != #[trigger] s[j].0 by {
        if i < j {
            lemma_key_lt(s[i].0, s[j].0, s[j].0);
        } else {
            lemma_key_lt(s[j].0, s[i].0, s[i].0);
        }
    }
}

/// Two key-sorted sequences of pairs that give the same map are equal.
pub proof fn lemma_sorted_pairs_unique<V>(s1: Seq<(Seq<char>, V)>, s2: Seq<(Seq<char>, V)>)
    requires
        keys_sorted(s1),
        keys_sorted(s2),
        insert_all(Map::empty(), s1) == insert_all(Map::empty(), s2),
    ensures
        s1 == s2,
    decreases s1.len(),
{
    let m = insert_all(Map::<Seq<char>, V>::empty(), s1);
    lemma_sorted_keys_unique(s1);
    lemma_sorted_keys_unique(s2);
    lemma_insert_all_unique(Map::empty(), s1);
    lemma_insert_all_unique(Map::empty(), s2);
    if s1.len() == 0 {
        if s2.len() > 0 {
            assert(m.contains_key(s2[0].0));
        }
        assert(s1 =~= s2);
    } else if s2.len() == 0 {
        assert(m.contains_key(s1[0].0));
    } else {
        let n1 = s1.len() - 1;
        let n2 = s2.len() - 1;
        let k1 = s1[n1].0;
        let k2 = s2[n2].0;
        assert(m.contains_key(k1));
        assert(m.contains_key(k2));
        let j = choose|j: int| 0 <= j < s2.len() && #[trigger] s2[j].0 == k1;
        let i = choose|i: int| 0 <= i < s1.len() && #[trigger] s1[i].0 == k2;
        if k1 != k2 {
            assert(j < n2);
            assert(i < n1);
            assert(key_lt(s2[j].0, s2[n2].0));
            assert(key_lt(s1[i].0, s1[n1].0));
            lemma_key_lt(k1, k2, k1);
        }
        assert(s1[n1] == s2[n2]);
        let p1 = s1.drop_last();
        let p2 = s2.drop_last();
        assert(keys_sorted(p1)) by {
            assert forall|a: int, b: int| 0 <= a < b < p1.len() implies key_lt(
                #[trigger] p1[a].0,
                #[trigger] p1[b].0,
            ) by {
                assert(p1[a] == s1[a] && p1[b] == s1[b]);
            }
        }
        assert(keys_sorted(p2)) by {
            assert forall|a: int, b: int| 0 <= a < b < p2.len() implies key_lt(
                #[trigger] p2[a].0,
                #[trigger] p2[b].0,
            ) by {
                assert(p2[a] == s2[a] && p2[b] == s2[b]);
            }
        }
        lemma_sorted_keys_unique(p1);
        lemma_sorted_keys_unique(p2);
        lemma_insert_all_unique(Map::empty(), p1);
        lemma_insert_all_unique(Map::empty(), p2);
        assert forall|a: int| 0 <= a < p1.len() implies #[trigger] p1[a].0 != k1 by {
            assert(p1[a] == s1[a]);
        }
        assert forall|a: int| 0 <= a < p2.len() implies #[trigger] p2[a].0 != k1 by {
            assert(p2[a] == s2[a]);
        }
        assert(insert_all(Map::<Seq<char>, V>::empty(), p1) =~= m.remove(k1));
        assert(insert_all(Map::<Seq<char>, V>::empty(), p2) =~= m.remove(k1));
        lemma_sorted_pairs_unique(p1, p2);
        assert(s1 =~= p1.push(s1[n1]));
        assert(s2 =~= p2.push(s2[n2]));
    }
}

/// Where the keys of `s` are distinct, inserting `s` maps each of its keys to
/// the value paired with it, and leaves every other key as `m` had it.
pub proof fn lemma_insert_all_unique<V>(m: Map<Seq<char>, V>, s: Seq<(Seq<char>, V)>)
    requires
        keys_unique(s),
    ensures
        forall|i: int|
            0 <= i < s.len() ==> insert_all(m, s).contains_key(#[trigger] s[i].0) && insert_all(
                m,
                s,
            )[s[i].0] == s[i].1,
        forall|k: Seq<char>|
            (forall|i: int| 0 <= i < s.len() ==> #[trigger] s[i].0 != k) ==> (#[trigger] insert_all(
                m,
                s,
            ).contains_key(k) == m.contains_key(k)) && (m.contains_key(k) ==> insert_all(m, s)[k]
                == m[k]),
    decreases s.len(),
{
    if s.len() > 0 {
        let p = s.drop_last();
        assert(insert_all(m, s) == insert_all(m, p).insert(s.last().0, s.last().1));
        assert forall|i: int, j: int|
            0 <= i < p.len() && 0 <= j < p.len() && i != j implies #[trigger] p[i].0
            != #[trigger] p[j].0 by {
            assert(p[i] == s[i]);
            assert(p[j] == s[j]);
        }
        lemma_insert_all_unique(m, p);
        assert forall|i: int| 0 <= i < s.len() implies insert_all(m, s).contains_key(
            #[trigger] s[i].0,
        ) && insert_all(m, s)[s[i].0] == s[i].1 by {
            if i < s.len() - 1 {
                assert(p[i] == s[i]);
                assert(s[i].0 != s[s.len() - 1].0);
            }
        }
        assert forall|k: Seq<char>|
            (forall|i: int| 0 <= i < s.len() ==> #[trigger] s[i].0 != k) implies (
            #[trigger] insert_all(m, s).contains_key(k) == m.contains_key(k)) && (m.contains_key(k)
            ==> insert_all(m, s)[k] == m[k]) by {
            assert forall|i: int| 0 <= i < p.len() implies #[trigger] p[i].0 != k by {
                assert(p[i] == s[i]);
            }
            assert(s[s.len() - 1].0 != k);
        }
    }
}

/// A string-keyed table.
pub struct Table<V> {
    entries: Vec<(String, V)>,
}

impl<V: View> Table<V> {
    /// The table's pairs, keys as character sequences, in stored order.
    pub closed spec fn pairs(&self) -> Seq<(Seq<char>, V::V)> {
        self.entries@.map_values(|e: (String, V)| (e.0@, e.1@))
    }

    /// What the table maps each key to.
    pub open spec fn view(&self) -> Map<Seq<char>, V::V> {
        insert_all(Map::empty(), self.pairs())
    }

    /// The stored keys ascend strictly.
    pub open spec fn wf(&self) -> bool {
        keys_sorted(self.pairs())
    }

    /// The pairs are determined by the map: they are its sorted pairs.
    pub proof fn lemma_pairs_determined(&self)
        requires
            self.wf(),
        ensures
            self.pairs() == sorted_pairs(self@),
    {
        let s = sorted_pairs(self@);
        assert(keys_sorted(s) && insert_all(Map::empty(), s) == self@);
        lemma_sorted_pairs_unique(self.pairs(), s);
    }

    /// The map agrees with the pairs, key by key.
    pub proof fn lemma_view(&self)
        requires
            self.wf(),
        ensures
            forall|i: int|
                0 <= i < self.pairs().len() ==> self@.contains_key(#[trigger] self.pairs()[i].0)
                    && self@[self.pairs()[i].0] == self.pairs()[i].1,
            forall|k: Seq<char>|
                (forall|i: int| 0 <= i < self.pairs().len() ==> #[trigger] self.pairs()[i].0 != k)
                    ==> !#[trigger] self@.contains_key(k),
    {
        lemma_sorted_keys_unique(self.pairs());
        lemma_insert_all_unique(Map::empty(), self.pairs());
    }

    pub fn new() -> (r: Self)
        ensures
            r.wf(),
            r.pairs() == Seq::<(Seq<char>, V::V)>::empty(),
            r@ == Map::<Seq<char>, V::V>::empty(),
    {
        let r = Table { entries: Vec::new() };
        assert(r.pairs() =~= Seq::<(Seq<char>, V::V)>::empty());
        r
    }

    pub fn len(&self) -> (r: usize)
        ensures
            r == self.pairs().len(),
    {
        self.entries.len()
    }

    /// The pair stored at position `i`.
    pub fn entry(&self, i: usize) -> (r: (&String, &V))
        requires
            i < self.pairs().len(),
        ensures
            r.0@ == self.pairs()[i as int].0,
            r.1@ == self.pairs()[i as int].1,
    {
        let e = &self.entries[i];
        (&e.0, &e.1)
    }

    /// Where `k` stands: its position, or the position where it belongs.
    fn locate(&self, k: &String) -> (r: (bool, usize))
        requires
            self.wf(),
        ensures
            r.1 <= self.pairs().len(),
            r.0 ==> r.1 < self.pairs().len() && self.pairs()[r.1 as int].0 == k@,
            !r.0 ==> forall|j: int| 0 <= j < r.1 ==> key_lt(#[trigger] self.pairs()[j].0, k@),
            !r.0 ==> forall|j: int|
                r.1 <= j < self.pairs().len() ==> key_lt(k@, #[trigger] self.pairs()[j].0),
    {
        let mut i: usize = 0;
        while i < self.entries.len()
            invariant
                self.wf(),
                i <= self.entries@.len(),
                self.pairs().len() == self.entries@.len(),
                forall|j: int| 0 <= j < i ==> key_lt(#[trigger] self.pairs()[j].0, k@),
            decreases self.entries@.len() - i,
        {
            let ghost ki = self.pairs()[i as int].0;
            if self.entries[i].0 == *k {
                return (true, i);
            }
            if key_less(k, &self.entries[i].0) {
                assert forall|j: int| i <= j < self.pairs().len() implies key_lt(
                    k@,
                    #[trigger] self.pairs()[j].0,
                ) by {
                    if j > i {
                        lemma_key_lt(k@, ki, self.pairs()[j].0);
                    }
                }
                return (false, i);
            }
            proof {
                lemma_key_lt(k@, ki, ki);
            }
            i = i + 1;
        }
        (false, i)
    }

    /// The value stored under `k`, if any.
    pub fn get(&self, k: &String) -> (r: Option<&V>)
        requires
            self.wf(),
        ensures
            r is Some <==> self@.contains_key(k@),
            r matches Some(v) ==> v@ == self@[k@],
    {
        proof {
            self.lemma_view();
        }
        let (found, i) = self.locate(k);
        if found {
            Some(&self.entries[i].1)
        } else {
            assert forall|j: int| 0 <= j < self.pairs().len() implies #[trigger] self.pairs()[j].0
                != k@ by {
                lemma_key_lt(self.pairs()[j].0, k@, k@);
                lemma_key_lt(k@, self.pairs()[j].0, k@);
            }
            None
        }
    }

    /// Maps `k` to `v`, replacing any earlier value of `k`.
    pub fn insert(&mut self, k: String, v: V)
        requires
            old(self).wf(),
        ensures
            final(self).wf(),
            final(self)@ == old(self)@.insert(k@, v@),
    {
        let ghost kv = k@;
        let ghost v0 = v@;
        proof {
            self.lemma_view();
        }
        let (found, i) = self.locate(&k);
        let ghost n = old(self).pairs().len();
        if found {
            self.entries.set(i, (k, v));
            assert(self.pairs() =~= old(self).pairs().update(i as int, (kv, v0)));
            assert forall|a: int, b: int| 0 <= a < b < self.pairs().len() implies key_lt(
                #[trigger] self.pairs()[a].0,
                #[trigger] self.pairs()[b].0,
            ) by {
                assert(self.pairs()[a].0 == old(self).pairs()[a].0);
                assert(self.pairs()[b].0 == old(self).pairs()[b].0);
            }
            proof {
                self.lemma_view();
            }
            assert forall|k2: Seq<char>|
                #[trigger] self@.contains_key(k2) == old(self)@.insert(kv, v0).contains_key(k2) && (
                self@.contains_key(k2) ==> self@[k2] == old(self)@.insert(kv, v0)[k2]) by {
                if k2 == kv {
                    assert(self.pairs()[i as int].0 == kv);
                } else if exists|j: int| 0 <= j < n && #[trigger] old(self).pairs()[j].0 == k2 {
                    let j = choose|j: int| 0 <= j < n && #[trigger] old(self).pairs()[j].0 == k2;
                    assert(self.pairs()[j] == old(self).pairs()[j]);
                } else {
                    assert forall|j: int| 0 <= j < n implies #[trigger] self.pairs()[j].0 != k2 by {
                        if j != i {
                            assert(self.pairs()[j] == old(self).pairs()[j]);
                        }
                    }
                }
            }
            assert(self@ =~= old(self)@.insert(kv, v0));
        } else {
            self.entries.insert(i, (k, v));
            let ghost o = old(self).pairs();
            assert(self.pairs() =~= o.insert(i as int, (kv, v0)));
            assert forall|a: int, b: int| 0 <= a < b < self.pairs().len() implies key_lt(
                #[trigger] self.pairs()[a].0,
                #[trigger] self.pairs()[b].0,
            ) by {
                if b < i {
                    assert(self.pairs()[a] == o[a] && self.pairs()[b] == o[b]);
                } else if b == i {
                    assert(self.pairs()[a] == o[a]);
                } else if a < i {
                    assert(self.pairs()[a] == o[a] && self.pairs()[b] == o[b - 1]);
                    lemma_key_lt(o[a].0, kv, o[b - 1].0);
                } else if a == i {
                    assert(self.pairs()[b] == o[b - 1]);
                } else {
                    assert(self.pairs()[a] == o[a - 1] && self.pairs()[b] == o[b - 1]);
                }
            }
            proof {
                self.lemma_view();
            }
            assert forall|k2: Seq<char>|
                #[trigger] self@.contains_key(k2) == old(self)@.insert(kv, v0).contains_key(k2) && (
                self@.contains_key(k2) ==> self@[k2] == old(self)@.insert(kv, v0)[k2]) by {
                if k2 == kv {
                    assert(self.pairs()[i as int].0 == kv);
                } else if exists|j: int| 0 <= j < n && #[trigger] o[j].0 == k2 {
                    let j = choose|j: int| 0 <= j < n && #[trigger] o[j].0 == k2;
                    if j < i {
                        assert(self.pairs()[j] == o[j]);
                    } else {
                        assert(self.pairs()[j + 1] == o[j]);
                    }
                } else {
                    assert forall|j: int| 0 <= j < n + 1 implies #[trigger] self.pairs()[j].0
                        != k2 by {
                        if j < i {
                            assert(self.pairs()[j] == o[j]);
                        } else if j > i {
                            assert(self.pairs()[j] == o[j - 1]);
                        }
                    }
                }
            }
            assert(self@ =~= old(self)@.insert(kv, v0));
        }
    }
}

} // verus!
