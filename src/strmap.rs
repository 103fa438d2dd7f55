//! A small string-to-string map, kept as an association list.

use vstd::prelude::*;

verus! {

/// A map from strings to strings. Keys are unique; entries keep the order
/// in which their keys were first inserted.
#[derive(Clone, Debug)]
pub struct StrMap {
    entries: Vec<(String, String)>,
}

/// Whether the keys of an entry list are pairwise distinct.
pub open spec fn keys_distinct(e: Seq<(Seq<char>, Seq<char>)>) -> bool {
    forall|i: int, j: int| 0 <= i < j < e.len() ==> e[i].0 != e[j].0
}

/// The map that an entry list with distinct keys describes.
pub open spec fn entries_map(e: Seq<(Seq<char>, Seq<char>)>) -> Map<Seq<char>, Seq<char>>
    decreases e.len(),
{
    if e.len() == 0 {
        Map::empty()
    } else {
        entries_map(e.drop_last()).insert(e.last().0, e.last().1)
    }
}

impl StrMap {
    /// The entries as pairs of character sequences, in order.
    pub closed spec fn pairs(&self) -> Seq<(Seq<char>, Seq<char>)> {
        self.entries@.map_values(|p: (String, String)| (p.0@, p.1@))
    }

    pub closed spec fn wf(&self) -> bool {
        keys_distinct(self.pairs())
    }

    /// The map that this value stands for.
    pub open spec fn view(&self) -> Map<Seq<char>, Seq<char>> {
        entries_map(self.pairs())
    }

    proof fn lemma_map_domain(e: Seq<(Seq<char>, Seq<char>)>)
        ensures
            forall|k: Seq<char>|
                entries_map(e).contains_key(k) <==> exists|i: int| 0 <= i < e.len() && e[i].0 == k,
        decreases e.len(),
    {
        if e.len() > 0 {
            let d = e.drop_last();
            Self::lemma_map_domain(d);
            assert forall|k: Seq<char>|
                entries_map(e).contains_key(k) <==> exists|i: int| 0 <= i < e.len() && e[i].0 == k by {
                if entries_map(e).contains_key(k) {
                    if k != e.last().0 {
                        assert(entries_map(d).contains_key(k));
                        let i = choose|i: int| 0 <= i < d.len() && d[i].0 == k;
                        assert(e[i].0 == k);
                    } else {
                        assert(e[e.len() - 1].0 == k);
                    }
                }
                if exists|i: int| 0 <= i < e.len() && e[i].0 == k {
                    let i = choose|i: int| 0 <= i < e.len() && e[i].0 == k;
                    if i < e.len() - 1 {
                        assert(d[i].0 == k);
                        assert(entries_map(d).contains_key(k));
                    }
                }
            }
        }
    }

    proof fn lemma_map_value(e: Seq<(Seq<char>, Seq<char>)>, i: int)
        requires
            keys_distinct(e),
            0 <= i < e.len(),
        ensures
            entries_map(e).contains_key(e[i].0),
            entries_map(e)[e[i].0] == e[i].1,
        decreases e.len(),
    {
        if i < e.len() - 1 {
            Self::lemma_map_value(e.drop_last(), i);
        }
    }

    /// Each key of the map stands at some position of the entries.
    pub proof fn lemma_domain_positions(&self)
        ensures
            forall|k: Seq<char>|
                self@.contains_key(k) <==> exists|i: int| 0 <= i < self.pairs().len() && self.pairs()[i].0 == k,
    {
        Self::lemma_map_domain(self.pairs());
    }

    /// An empty map.
    pub fn new() -> (r: StrMap)
        ensures
            r.wf(),
            r@ == Map::<Seq<char>, Seq<char>>::empty(),
    {
        let r = StrMap { entries: Vec::new() };
        assert(r.pairs() =~= Seq::empty());
        r
    }

    /// The number of keys.
    pub fn len(&self) -> (r: usize)
        requires
            self.wf(),
        ensures
            r == self@.len(),
    {
        proof { self.lemma_len(); }
        self.entries.len()
    }

    proof fn lemma_len(&self)
        requires
            self.wf(),
        ensures
            self@.len() == self.entries@.len(),
    {
        Self::lemma_len_of(self.pairs());
    }

    proof fn lemma_len_of(e: Seq<(Seq<char>, Seq<char>)>)
        requires
            keys_distinct(e),
        ensures
            entries_map(e).dom().finite(),
            entries_map(e).len() == e.len(),
        decreases e.len(),
    {
        if e.len() > 0 {
            let d = e.drop_last();
            assert(keys_distinct(d));
            Self::lemma_len_of(d);
            Self::lemma_map_domain(d);
            assert(!entries_map(d).contains_key(e.last().0)) by {
                if entries_map(d).contains_key(e.last().0) {
                    let i = choose|i: int| 0 <= i < d.len() && d[i].0 == e.last().0;
                    assert(e[i].0 == e[e.len() - 1].0);
                }
            }
        }
    }

    /// Whether the map holds no key.
    pub fn is_empty(&self) -> (r: bool)
        requires
            self.wf(),
        ensures
            r == (self@.len() == 0),
    {
        self.len() == 0
    }

    /// The position of `key` among the entries, if it is there.
    fn find(&self, key: &str) -> (r: Option<usize>)
        requires
            self.wf(),
        ensures
            match r {
                Some(i) => i < self.pairs().len() && self.pairs()[i as int].0 == key@,
                None => !self@.contains_key(key@),
            },
    {
        let mut i: usize = 0;
        while i < self.entries.len()
            invariant
                i <= self.entries@.len(),
                forall|j: int| 0 <= j < i ==> self.pairs()[j].0 != key@,
            decreases self.entries@.len() - i,
        {
            if crate::text::str_eq(self.entries[i].0.as_str(), key) {
                return Some(i);
            }
            i = i + 1;
        }
        proof {
            Self::lemma_map_domain(self.pairs());
        }
        None
    }

    /// The value under `key`.
    pub fn get(&self, key: &str) -> (r: Option<&String>)
        requires
            self.wf(),
        ensures
            match r {
                Some(v) => self@.contains_key(key@) && self@[key@] == v@,
                None => !self@.contains_key(key@),
            },
    {
        match self.find(key) {
            Some(i) => {
                proof { Self::lemma_map_value(self.pairs(), i as int); }
                Some(&self.entries[i].1)
            },
            None => None,
        }
    }

    /// Whether `key` is present.
    pub fn contains_key(&self, key: &str) -> (r: bool)
        requires
            self.wf(),
        ensures
            r == self@.contains_key(key@),
    {
        self.get(key).is_some()
    }

    /// Sets `key` to `value`, replacing any earlier value.
    pub fn insert(&mut self, key: String, value: String)
        requires
            old(self).wf(),
        ensures
            final(self).wf(),
            final(self)@ == old(self)@.insert(key@, value@),
    {
        match self.find(key.as_str()) {
            Some(i) => {
                let ghost e = self.pairs();
                self.entries.set(i, (key, value));
                proof {
                    let e2 = self.pairs();
                    assert(e2 =~= e.update(i as int, (e[i as int].0, value@)));
                    assert forall|j: int| 0 <= j < e.len() implies e2[j].0 == e[j].0 by {}
                    assert(keys_distinct(e2));
                    Self::lemma_map_domain(e);
                    Self::lemma_map_domain(e2);
                    assert forall|k: Seq<char>| #[trigger] entries_map(e2).contains_key(k) implies
                        entries_map(e2)[k] == entries_map(e).insert(key@, value@)[k] by {
                        let j = choose|j: int| 0 <= j < e2.len() && e2[j].0 == k;
                        Self::lemma_map_value(e2, j);
                        if j != i {
                            Self::lemma_map_value(e, j);
                        }
                    }
                    assert(entries_map(e2) =~= entries_map(e).insert(key@, value@));
                }
            },
            None => {
                let ghost e = self.pairs();
                self.entries.push((key, value));
                proof {
                    assert(self.pairs().drop_last() =~= e);
                    assert forall|j: int| 0 <= j < e.len() implies self.pairs()[j] == e[j] by {}
                    assert(self.pairs()[e.len() as int].0 == key@);
                    Self::lemma_map_domain(e);
                    assert forall|a: int, b: int| 0 <= a < b < self.pairs().len() implies
                        self.pairs()[a].0 != self.pairs()[b].0 by {
                        assert(self.pairs()[a] == e[a]);
                        if b == e.len() {
                            assert(!entries_map(e).contains_key(key@));
                            assert(e[a].0 != key@);
                        } else {
                            assert(self.pairs()[b] == e[b]);
                            assert(keys_distinct(e));
                        }
                    }
                }
            },
        }
    }

    /// Removes `key`, if it is present.
    pub fn remove(&mut self, key: &str)
        requires
            old(self).wf(),
        ensures
            final(self).wf(),
            final(self)@ == old(self)@.remove(key@),
    {
        match self.find(key) {
            Some(i) => {
                let ghost e = self.pairs();
                let _ = self.entries.remove(i);
                proof {
                    let e2 = self.pairs();
                    assert(e2 =~= e.remove(i as int));
                    Self::lemma_map_domain(e);
                    Self::lemma_map_domain(e2);
                    assert forall|k: Seq<char>|
                        entries_map(e2).contains_key(k) <==> entries_map(e).remove(key@).contains_key(k) by {
                        if entries_map(e).remove(key@).contains_key(k) {
                            let j = choose|j: int| 0 <= j < e.len() && e[j].0 == k;
                            if j < i { assert(e2[j].0 == k); } else { assert(j != i); assert(e2[j - 1].0 == k); }
                        }
                    }
                    assert forall|k: Seq<char>| #[trigger] entries_map(e2).contains_key(k) implies
                        entries_map(e2)[k] == entries_map(e)[k] by {
                        let j = choose|j: int| 0 <= j < e2.len() && e2[j].0 == k;
                        Self::lemma_map_value(e2, j);
                        if j < i { Self::lemma_map_value(e, j); } else { Self::lemma_map_value(e, j + 1); }
                    }
                    assert(entries_map(e2) =~= entries_map(e).remove(key@));
                }
            },
            None => {
                assert(self@ =~= self@.remove(key@));
            },
        }
    }

    /// Removes every key.
    pub fn clear(&mut self)
        ensures
            final(self).wf(),
            final(self)@ == Map::<Seq<char>, Seq<char>>::empty(),
    {
        self.entries.clear();
        assert(self.pairs() =~= Seq::empty());
    }

    /// The keys, in the order of their first insertion.
    pub fn keys(&self) -> (r: Vec<String>)
        requires
            self.wf(),
        ensures
            r@.len() == self.pairs().len(),
            forall|i: int| 0 <= i < r@.len() ==> #[trigger] r@[i]@ == self.pairs()[i].0,
            forall|k: Seq<char>| self@.contains_key(k) <==> exists|i: int| 0 <= i < r@.len() && r@[i]@ == k,
    {
        let mut r: Vec<String> = Vec::new();
        let mut i: usize = 0;
        while i < self.entries.len()
            invariant
                i <= self.entries@.len(),
                r@.len() == i,
                forall|j: int| 0 <= j < i ==> #[trigger] r@[j]@ == self.pairs()[j].0,
            decreases self.entries@.len() - i,
        {
            r.push(self.entries[i].0.clone());
            i = i + 1;
        }
        proof {
            Self::lemma_map_domain(self.pairs());
            assert forall|k: Seq<char>| self@.contains_key(k) <==> exists|i: int| 0 <= i < r@.len() && r@[i]@ == k by {
                if self@.contains_key(k) {
                    let j = choose|j: int| 0 <= j < self.pairs().len() && self.pairs()[j].0 == k;
                    assert(r@[j]@ == k);
                }
                if exists|i: int| 0 <= i < r@.len() && r@[i]@ == k {
                    let j = choose|j: int| 0 <= j < r@.len() && r@[j]@ == k;
                    assert(self.pairs()[j].0 == k);
                }
            }
        }
        r
    }

    /// The entry at position `i`, in the order of first insertion.
    pub fn entry_at(&self, i: usize) -> (r: (&String, &String))
        requires
            self.wf(),
            i < self.pairs().len(),
        ensures
            r.0@ == self.pairs()[i as int].0,
            r.1@ == self.pairs()[i as int].1,
            self@.contains_key(r.0@),
            self@[r.0@] == r.1@,
    {
        proof { Self::lemma_map_value(self.pairs(), i as int); }
        (&self.entries[i].0, &self.entries[i].1)
    }

    /// The number of entries, which is the number of keys.
    pub fn entry_count(&self) -> (r: usize)
        ensures
            r == self.pairs().len(),
    {
        self.entries.len()
    }

    /// This map with every entry of `other` inserted in order.
    pub fn merged(self, other: &StrMap) -> (r: StrMap)
        requires
            self.wf(),
            other.wf(),
        ensures
            r.wf(),
            r@ == self@.union_prefer_right(other@),
    {
        let mut r = self;
        let mut k: usize = 0;
        let ghost e = other.pairs();
        assert(e.take(0) =~= Seq::empty());
        assert(self@.union_prefer_right(Map::empty()) =~= self@);
        while k < other.entries.len()
            invariant
                r.wf(),
                e == other.pairs(),
                k <= e.len(),
                r@ == self@.union_prefer_right(entries_map(e.take(k as int))),
            decreases e.len() - k,
        {
            let key = other.entries[k].0.clone();
            let value = other.entries[k].1.clone();
            r.insert(key, value);
            proof {
                assert(e.take(k + 1).drop_last() =~= e.take(k as int));
                assert(e.take(k + 1).last() == e[k as int]);
                assert(r@ =~= self@.union_prefer_right(entries_map(e.take(k + 1))));
            }
            k = k + 1;
        }
        assert(e.take(k as int) =~= e);
        r
    }

    /// A copy of this map.
    pub fn clone_map(&self) -> (r: StrMap)
        requires
            self.wf(),
        ensures
            r.wf(),
            r@ == self@,
    {
        let r = StrMap::new().merged(self);
        assert(Map::<Seq<char>, Seq<char>>::empty().union_prefer_right(self@) =~= self@);
        r
    }
}

} // verus!
