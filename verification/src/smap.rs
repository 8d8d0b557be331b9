//! A string-to-string map kept as an association list with unique keys.
//!
//! Variable maps and link maps are small, so a vector of pairs is enough;
//! what matters is the mathematical view: a `Map<Seq<char>, Seq<char>>`,
//! plus the concrete pair order (`kvs`) for operations that walk the
//! entries one by one.

use vstd::prelude::*;

verus! {

/// No key occurs twice in the pair list.
pub open spec fn unique_keys<V>(kvs: Seq<(Seq<char>, V)>) -> bool {
    forall|i: int, j: int| 0 <= i < j < kvs.len() ==> kvs[i].0 != kvs[j].0
}

/// The mathematical map described by a pair list; a later pair wins over
/// an earlier one with the same key.
pub open spec fn map_of<V>(kvs: Seq<(Seq<char>, V)>) -> Map<Seq<char>, V>
    decreases kvs.len(),
{
    if kvs.len() == 0 {
        Map::empty()
    } else {
        map_of(kvs.drop_last()).insert(kvs.last().0, kvs.last().1)
    }
}

/// A key is in `map_of(kvs)` exactly when some pair carries it.
pub proof fn lemma_map_of_contains<V>(kvs: Seq<(Seq<char>, V)>, k: Seq<char>)
    ensures
        map_of(kvs).contains_key(k) <==> exists|i: int| 0 <= i < kvs.len() && kvs[i].0 == k,
    decreases kvs.len(),
{
    if kvs.len() > 0 {
        lemma_map_of_contains(kvs.drop_last(), k);
        if kvs.last().0 == k {
            assert(kvs[kvs.len() - 1].0 == k);
        } else if map_of(kvs).contains_key(k) {
            let i = choose|i: int| 0 <= i < kvs.drop_last().len() && kvs.drop_last()[i].0 == k;
            assert(kvs[i].0 == k);
        } else if exists|i: int| 0 <= i < kvs.len() && kvs[i].0 == k {
            let i = choose|i: int| 0 <= i < kvs.len() && kvs[i].0 == k;
            assert(kvs.drop_last()[i].0 == k);
        }
    }
}

/// With unique keys, each pair gives the map's value at its key.
pub proof fn lemma_map_of_index<V>(kvs: Seq<(Seq<char>, V)>, i: int)
    requires
        unique_keys(kvs),
        0 <= i < kvs.len(),
    ensures
        map_of(kvs).contains_key(kvs[i].0),
        map_of(kvs)[kvs[i].0] == kvs[i].1,
    decreases kvs.len(),
{
    if i == kvs.len() - 1 {
    } else {
        assert(kvs[i].0 != kvs.last().0);
        lemma_map_of_index(kvs.drop_last(), i);
        assert(kvs.drop_last()[i] == kvs[i]);
    }
}

/// A string-to-string map with unique keys, the work-horse of variable
/// maps, link maps and persisted records.
#[derive(Debug)]
pub struct StrMap {
    pairs: Vec<(String, String)>,
}

impl View for StrMap {
    type V = Map<Seq<char>, Seq<char>>;

    open spec fn view(&self) -> Map<Seq<char>, Seq<char>> {
        map_of(self.kvs())
    }
}

impl StrMap {
    /// The pair list, as character sequences, in storage order.
    pub closed spec fn kvs(self) -> Seq<(Seq<char>, Seq<char>)> {
        self.pairs.deep_view()
    }

    /// Well-formed: no key occurs twice.
    pub open spec fn wf(self) -> bool {
        unique_keys(self.kvs())
    }

    pub fn new() -> (m: StrMap)
        ensures
            m.wf(),
            m.kvs() == Seq::<(Seq<char>, Seq<char>)>::empty(),
            m@ == Map::<Seq<char>, Seq<char>>::empty(),
    {
        let m = StrMap { pairs: Vec::new() };
        proof {
            assert(m.kvs() =~= Seq::<(Seq<char>, Seq<char>)>::empty());
        }
        m
    }

    /// How many entries the map holds.
    pub fn len(&self) -> (n: usize)
        ensures
            n == self.kvs().len(),
    {
        self.pairs.len()
    }

    pub fn is_empty(&self) -> (r: bool)
        ensures
            r == (self.kvs().len() == 0),
            r == (self@ =~= Map::<Seq<char>, Seq<char>>::empty()),
    {
        proof {
            if self.kvs().len() > 0 {
                lemma_map_of_contains(self.kvs(), self.kvs()[0].0);
            }
        }
        self.pairs.len() == 0
    }

    /// Read access to the stored pairs, for callers that walk the entries.
    pub fn entries(&self) -> (r: &Vec<(String, String)>)
        ensures
            r.deep_view() == self.kvs(),
    {
        &self.pairs
    }

    /// Looks a key up.
    pub fn get(&self, key: &String) -> (r: Option<&String>)
        requires
            self.wf(),
        ensures
            match r {
                Some(v) => self@.contains_key(key@) && v@ == self@[key@],
                None => !self@.contains_key(key@),
            },
    {
        let n = self.pairs.len();
        let mut i: usize = 0;
        while i < n
            invariant
                i <= n,
                n == self.kvs().len(),
                self.wf(),
                forall|j: int| 0 <= j < i ==> self.kvs()[j].0 != key@,
            decreases n - i,
        {
            if self.pairs[i].0.eq(key) {
                proof {
                    lemma_map_of_index(self.kvs(), i as int);
                }
                return Some(&self.pairs[i].1);
            }
            i += 1;
        }
        proof {
            lemma_map_of_contains(self.kvs(), key@);
        }
        None
    }

    pub fn contains_key(&self, key: &String) -> (r: bool)
        requires
            self.wf(),
        ensures
            r == self@.contains_key(key@),
    {
        self.get(key).is_some()
    }

    /// Adds a binding, replacing any previous binding of the same key.
    pub fn insert(&mut self, key: String, value: String)
        requires
            old(self).wf(),
        ensures
            final(self).wf(),
            final(self)@ == old(self)@.insert(key@, value@),
            final(self).kvs().len() <= old(self).kvs().len() + 1,
    {
        let n = self.pairs.len();
        let mut i: usize = 0;
        while i < n
            invariant
                i <= n,
                n == self.kvs().len(),
                self.wf(),
                self.kvs() == old(self).kvs(),
                forall|j: int| 0 <= j < i ==> self.kvs()[j].0 != key@,
            decreases n - i,
        {
            if self.pairs[i].0.eq(&key) {
                let ghost old_kvs = self.kvs();
                self.pairs[i] = (key, value);
                proof {
                    assert(self.kvs() =~= old_kvs.update(i as int, (key@, value@)));
                    lemma_map_of_update(old_kvs, i as int, key@, value@);
                }
                return;
            }
            i += 1;
        }
        let ghost old_kvs = self.kvs();
        self.pairs.push((key, value));
        proof {
            assert(self.kvs() =~= old_kvs.push((key@, value@)));
            assert(self.kvs().drop_last() =~= old_kvs);
        }
    }

    /// An independent copy with the same entries.
    pub fn clone_map(&self) -> (m: StrMap)
        ensures
            m.kvs() == self.kvs(),
            m@ == self@,
            m.wf() == self.wf(),
    {
        let n = self.pairs.len();
        let mut out: Vec<(String, String)> = Vec::new();
        let mut i: usize = 0;
        while i < n
            invariant
                i <= n,
                n == self.kvs().len(),
                out.deep_view() =~= self.kvs().take(i as int),
            decreases n - i,
        {
            let k = self.pairs[i].0.clone();
            let v = self.pairs[i].1.clone();
            let ghost prev = out.deep_view();
            out.push((k, v));
            proof {
                assert(self.kvs()[i as int] == (k@, v@));
                assert(out.deep_view() =~= prev.push((k@, v@)));
                assert(out.deep_view() =~= self.kvs().take(i + 1));
            }
            i += 1;
        }
        let m = StrMap { pairs: out };
        proof {
            assert(m.kvs() =~= self.kvs());
        }
        m
    }

    /// Builds a map from a pair list; a later pair wins over an earlier
    /// one with the same key.
    pub fn from_pairs(pairs: Vec<(String, String)>) -> (m: StrMap)
        ensures
            m.wf(),
            m@ == map_of(pairs.deep_view()),
    {
        let mut m = StrMap::new();
        let n = pairs.len();
        let mut i: usize = 0;
        while i < n
            invariant
                i <= n,
                n == pairs.deep_view().len(),
                m.wf(),
                m@ =~= map_of(pairs.deep_view().take(i as int)),
            decreases n - i,
        {
            let k = pairs[i].0.clone();
            let v = pairs[i].1.clone();
            m.insert(k, v);
            proof {
                assert(pairs.deep_view().take(i + 1).drop_last() =~= pairs.deep_view().take(
                    i as int,
                ));
                assert(pairs.deep_view().take(i + 1).last() == (k@, v@));
            }
            i += 1;
        }
        proof {
            assert(pairs.deep_view().take(n as int) =~= pairs.deep_view());
        }
        m
    }

    /// Copies every binding of `other` into `self`; `other`'s bindings win.
    pub fn extend_from(&mut self, other: &StrMap)
        requires
            old(self).wf(),
            other.wf(),
        ensures
            final(self).wf(),
            final(self)@ == old(self)@.union_prefer_right(other@),
    {
        let n = other.pairs.len();
        let mut i: usize = 0;
        while i < n
            invariant
                i <= n,
                n == other.kvs().len(),
                other.wf(),
                self.wf(),
                self@ =~= old(self)@.union_prefer_right(map_of(other.kvs().take(i as int))),
            decreases n - i,
        {
            let k = other.pairs[i].0.clone();
            let v = other.pairs[i].1.clone();
            self.insert(k, v);
            proof {
                assert(other.kvs().take(i + 1).drop_last() =~= other.kvs().take(i as int));
                assert(other.kvs().take(i + 1).last() == (k@, v@));
                assert(old(self)@.union_prefer_right(map_of(other.kvs().take(i as int))).insert(
                    k@,
                    v@,
                ) =~= old(self)@.union_prefer_right(map_of(other.kvs().take(i + 1))));
            }
            i += 1;
        }
        proof {
            assert(other.kvs().take(n as int) =~= other.kvs());
        }
    }
}

/// Updating a pair in place updates the map, when the key is unchanged at
/// that position or fresh elsewhere.
pub proof fn lemma_map_of_update<V>(kvs: Seq<(Seq<char>, V)>, i: int, k: Seq<char>, v: V)
    requires
        unique_keys(kvs),
        0 <= i < kvs.len(),
        kvs[i].0 == k,
    ensures
        map_of(kvs.update(i, (k, v))) == map_of(kvs).insert(k, v),
        unique_keys(kvs.update(i, (k, v))),
    decreases kvs.len(),
{
    let upd = kvs.update(i, (k, v));
    assert(unique_keys(upd)) by {
        assert(forall|p: int, q: int| 0 <= p < q < upd.len() ==> upd[p].0 != upd[q].0) by {
            assert(forall|p: int| 0 <= p < kvs.len() && p != i ==> upd[p] == kvs[p]);
        }
    }
    if i == kvs.len() - 1 {
        assert(upd.drop_last() =~= kvs.drop_last());
        assert(map_of(upd) =~= map_of(kvs).insert(k, v));
    } else {
        lemma_map_of_update(kvs.drop_last(), i, k, v);
        assert(upd.drop_last() =~= kvs.drop_last().update(i, (k, v)));
        assert(kvs[kvs.len() - 1].0 != k);
        assert(map_of(upd) =~= map_of(kvs).insert(k, v));
    }
}

} // verus!
