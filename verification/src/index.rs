//! The in-memory index underlying each collection: an insertion-ordered list
//! of key/record pairs with pairwise distinct keys, viewed as a map from key
//! to record.
//!
//! Both collections of the crate (the recipe catalog and the account
//! registry) keep their authoritative read state in one of these.

use vstd::prelude::*;

verus! {

/// Whether the keys of `s` are pairwise distinct.
pub open spec fn distinct_keys<V>(s: Seq<(String, V)>) -> bool {
    forall|i: int, j: int| 0 <= i < j < s.len() ==> s[i].0@ != s[j].0@
}

/// The map described by the pairs of `s`; a later pair wins over an earlier
/// one with the same key.
pub open spec fn map_of<V>(s: Seq<(String, V)>) -> Map<Seq<char>, V>
    decreases s.len(),
{
    if s.len() == 0 {
        Map::empty()
    } else {
        map_of(s.drop_last()).insert(s.last().0@, s.last().1)
    }
}

/// A key is in `map_of(s)` exactly when some pair of `s` carries it.
pub proof fn lemma_map_of_contains<V>(s: Seq<(String, V)>, k: Seq<char>)
    ensures
        map_of(s).contains_key(k) <==> exists|i: int| 0 <= i < s.len() && s[i].0@ == k,
    decreases s.len(),
{
    if s.len() > 0 {
        let t = s.drop_last();
        lemma_map_of_contains(t, k);
        if s.last().0@ == k {
            assert(s[s.len() - 1].0@ == k);
        } else {
            if map_of(s).contains_key(k) {
                let i = choose|i: int| 0 <= i < t.len() && t[i].0@ == k;
                assert(s[i].0@ == k);
            }
            if exists|i: int| 0 <= i < s.len() && s[i].0@ == k {
                let i = choose|i: int| 0 <= i < s.len() && s[i].0@ == k;
                assert(t[i].0@ == k);
            }
        }
    }
}

/// With distinct keys, the pair at `i` gives the map's value at its key.
pub proof fn lemma_map_of_index<V>(s: Seq<(String, V)>, i: int)
    requires
        distinct_keys(s),
        0 <= i < s.len(),
    ensures
        map_of(s).contains_key(s[i].0@),
        map_of(s)[s[i].0@] == s[i].1,
    decreases s.len(),
{
    if i < s.len() - 1 {
        let t = s.drop_last();
        assert(distinct_keys(t));
        lemma_map_of_index(t, i);
        assert(s[s.len() - 1].0@ != s[i].0@);
    }
}

/// With distinct keys, removing the pair at `i` removes exactly its key from
/// the map.
pub proof fn lemma_map_of_remove<V>(s: Seq<(String, V)>, i: int)
    requires
        distinct_keys(s),
        0 <= i < s.len(),
    ensures
        distinct_keys(s.remove(i)),
        map_of(s.remove(i)) =~= map_of(s).remove(s[i].0@),
    decreases s.len(),
{
    let k = s[i].0@;
    if i == s.len() - 1 {
        assert(s.remove(i) =~= s.drop_last());
        lemma_map_of_contains(s.drop_last(), k);
        assert(forall|j: int| 0 <= j < s.len() - 1 ==> s[j].0@ != k);
        assert(!map_of(s.drop_last()).contains_key(k));
        assert(map_of(s.drop_last()).insert(k, s.last().1).remove(k) =~= map_of(s.drop_last()));
    } else {
        let t = s.drop_last();
        assert(distinct_keys(t));
        lemma_map_of_remove(t, i);
        assert(s.remove(i).drop_last() =~= t.remove(i));
        assert(s.remove(i).last() == s.last());
        assert(s.last().0@ != k);
        assert(map_of(s.remove(i)) =~= map_of(t.remove(i)).insert(s.last().0@, s.last().1));
        assert(map_of(t).remove(k).insert(s.last().0@, s.last().1) =~= map_of(t).insert(
            s.last().0@,
            s.last().1,
        ).remove(k));
    }
}

/// With distinct keys, overwriting the record at `i` (keeping its key) makes
/// the map's value at that key the new record.
pub proof fn lemma_map_of_update<V>(s: Seq<(String, V)>, i: int, p: (String, V))
    requires
        distinct_keys(s),
        0 <= i < s.len(),
        p.0@ == s[i].0@,
    ensures
        distinct_keys(s.update(i, p)),
        map_of(s.update(i, p)) =~= map_of(s).insert(p.0@, p.1),
    decreases s.len(),
{
    let k = s[i].0@;
    if i == s.len() - 1 {
        assert(s.update(i, p).drop_last() =~= s.drop_last());
        assert(s.update(i, p).last() == p);
        assert(map_of(s.drop_last()).insert(k, p.1) =~= map_of(s.drop_last()).insert(
            k,
            s.last().1,
        ).insert(k, p.1));
    } else {
        let t = s.drop_last();
        assert(distinct_keys(t));
        lemma_map_of_update(t, i, p);
        assert(s.update(i, p).drop_last() =~= t.update(i, p));
        assert(s.update(i, p).last() == s.last());
        assert(s.last().0@ != k);
        assert(map_of(s.update(i, p)) =~= map_of(t.update(i, p)).insert(s.last().0@, s.last().1));
        assert(map_of(t).insert(k, p.1).insert(s.last().0@, s.last().1) =~= map_of(t).insert(
            s.last().0@,
            s.last().1,
        ).insert(k, p.1));
    }
}

/// With distinct keys the map is finite and has exactly one entry per pair.
pub proof fn lemma_map_of_len<V>(s: Seq<(String, V)>)
    requires
        distinct_keys(s),
    ensures
        map_of(s).dom().finite(),
        map_of(s).len() == s.len(),
    decreases s.len(),
{
    if s.len() > 0 {
        let t = s.drop_last();
        let k = s.last().0@;
        assert(distinct_keys(t));
        lemma_map_of_len(t);
        lemma_map_of_contains(t, k);
        assert(forall|j: int| 0 <= j < s.len() - 1 ==> s[j].0@ != k);
        assert(!map_of(t).contains_key(k));
        assert(map_of(s).dom() =~= map_of(t).dom().insert(k));
    }
}

/// An insertion-ordered association list with pairwise distinct keys, read
/// through its map view.
pub struct Index<V> {
    pairs: Vec<(String, V)>,
}

impl<V> View for Index<V> {
    type V = Map<Seq<char>, V>;

    closed spec fn view(&self) -> Map<Seq<char>, V> {
        map_of(self.pairs@)
    }
}

impl<V> Index<V> {
    /// Well-formedness: no key occurs twice.
    pub closed spec fn wf(&self) -> bool {
        distinct_keys(self.pairs@)
    }

    /// The pairs in insertion order, the representation behind the map view.
    pub closed spec fn entries(&self) -> Seq<(String, V)> {
        self.pairs@
    }

    /// How the entry list and the map view relate on a well-formed index.
    pub proof fn lemma_inv(&self)
        requires
            self.wf(),
        ensures
            self@ == map_of(self.entries()),
            distinct_keys(self.entries()),
            self@.dom().finite(),
            self@.len() == self.entries().len(),
            forall|i: int|
                0 <= i < self.entries().len() ==> self@.contains_key(#[trigger] self.entries()[i].0@)
                    && self@[self.entries()[i].0@] == self.entries()[i].1,
            forall|k: Seq<char>|
                self@.contains_key(k) ==> exists|i: int|
                    0 <= i < self.entries().len() && #[trigger] self.entries()[i].0@ == k,
    {
        lemma_map_of_len(self.pairs@);
        assert forall|i: int| 0 <= i < self.entries().len() implies self@.contains_key(
            #[trigger] self.entries()[i].0@,
        ) && self@[self.entries()[i].0@] == self.entries()[i].1 by {
            lemma_map_of_index(self.pairs@, i);
        }
        assert forall|k: Seq<char>| self@.contains_key(k) implies exists|i: int|
            0 <= i < self.entries().len() && #[trigger] self.entries()[i].0@ == k by {
            lemma_map_of_contains(self.pairs@, k);
            let i = choose|i: int| 0 <= i < self.pairs@.len() && self.pairs@[i].0@ == k;
            assert(self.entries()[i].0@ == k);
        }
    }

    /// An empty index.
    pub fn new() -> (r: Self)
        ensures
            r.wf(),
            r@ =~= Map::<Seq<char>, V>::empty(),
            r.entries() =~= Seq::<(String, V)>::empty(),
    {
        Index { pairs: Vec::new() }
    }

    /// The number of records held.
    pub fn len(&self) -> (r: usize)
        ensures
            r == self.entries().len(),
    {
        self.pairs.len()
    }

    /// A read-only look at the pairs in insertion order.
    pub fn list(&self) -> (r: &Vec<(String, V)>)
        ensures
            r@ == self.entries(),
    {
        &self.pairs
    }

    /// Where `id` sits in the entry list, if anywhere.
    fn position(&self, id: &str) -> (r: Option<usize>)
        ensures
            match r {
                Some(i) => i < self.entries().len() && self.entries()[i as int].0@ == id@,
                None => !self@.contains_key(id@),
            },
    {
        let key: String = id.to_owned();
        let n = self.pairs.len();
        let mut i: usize = 0;
        while i < n
            invariant
                i <= n,
                n == self.pairs@.len(),
                key@ == id@,
                forall|j: int| 0 <= j < i ==> self.pairs@[j].0@ != id@,
            decreases n - i,
        {
            if self.pairs[i].0 == key {
                return Some(i);
            }
            i = i + 1;
        }
        proof {
            lemma_map_of_contains(self.pairs@, id@);
        }
        None
    }

    /// Whether a record is held under `id`.
    pub fn contains(&self, id: &str) -> (r: bool)
        requires
            self.wf(),
        ensures
            r == self@.contains_key(id@),
    {
        match self.position(id) {
            Some(i) => {
                proof {
                    lemma_map_of_index(self.pairs@, i as int);
                }
                true
            },
            None => false,
        }
    }

    /// The record held under `id`, if any.
    pub fn get(&self, id: &str) -> (r: Option<&V>)
        requires
            self.wf(),
        ensures
            match r {
                Some(v) => self@.contains_key(id@) && *v == self@[id@],
                None => !self@.contains_key(id@),
            },
    {
        match self.position(id) {
            Some(i) => {
                proof {
                    lemma_map_of_index(self.pairs@, i as int);
                }
                Some(&self.pairs[i].1)
            },
            None => None,
        }
    }

    /// Appends a record under a key not yet held.
    pub fn insert(&mut self, id: String, v: V)
        requires
            old(self).wf(),
            !old(self)@.contains_key(id@),
        ensures
            final(self).wf(),
            final(self)@ =~= old(self)@.insert(id@, v),
            final(self).entries() =~= old(self).entries().push((id, v)),
    {
        proof {
            lemma_map_of_contains(self.pairs@, id@);
        }
        let ghost before = self.pairs@;
        self.pairs.push((id, v));
        proof {
            assert(self.pairs@.drop_last() =~= before);
        }
    }

    /// Overwrites the record under `id`, if held; reports whether it was.
    pub fn set_value(&mut self, id: &str, v: V) -> (r: bool)
        requires
            old(self).wf(),
        ensures
            final(self).wf(),
            r == old(self)@.contains_key(id@),
            r ==> final(self)@ =~= old(self)@.insert(id@, v),
            r ==> exists|i: int|
                0 <= i < old(self).entries().len() && #[trigger] old(self).entries()[i].0@ == id@
                    && final(self).entries() =~= old(self).entries().update(
                    i,
                    (old(self).entries()[i].0, v),
                ),
            !r ==> *final(self) == *old(self),
    {
        match self.position(id) {
            Some(i) => {
                proof {
                    lemma_map_of_index(self.pairs@, i as int);
                }
                let ghost before = self.pairs@;
                self.pairs[i].1 = v;
                proof {
                    let p = (before[i as int].0, v);
                    assert(self.pairs@ =~= before.update(i as int, p));
                    lemma_map_of_update(before, i as int, p);
                }
                true
            },
            None => false,
        }
    }

    /// Inserts the record under `id`, overwriting whatever was held there.
    pub fn upsert(&mut self, id: String, v: V)
        requires
            old(self).wf(),
        ensures
            final(self).wf(),
            final(self)@ =~= old(self)@.insert(id@, v),
    {
        if self.contains(id.as_str()) {
            self.set_value(id.as_str(), v);
        } else {
            self.insert(id, v);
        }
    }

    /// Removes the record under `id`, if held; reports whether it was.
    pub fn remove(&mut self, id: &str) -> (r: bool)
        requires
            old(self).wf(),
        ensures
            final(self).wf(),
            r == old(self)@.contains_key(id@),
            final(self)@ =~= old(self)@.remove(id@),
            r ==> exists|i: int|
                0 <= i < old(self).entries().len() && #[trigger] old(self).entries()[i].0@ == id@
                    && final(self).entries() =~= old(self).entries().remove(i),
            !r ==> *final(self) == *old(self),
    {
        match self.position(id) {
            Some(i) => {
                proof {
                    lemma_map_of_index(self.pairs@, i as int);
                    lemma_map_of_remove(self.pairs@, i as int);
                }
                self.pairs.remove(i);
                true
            },
            None => {
                proof {
                    assert(self@.remove(id@) =~= self@);
                }
                false
            },
        }
    }
}

} // verus!
