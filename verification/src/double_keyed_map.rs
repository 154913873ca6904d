//! A map whose keys are pairs `(A, B)`, looked up by a reference to each half.

use vstd::prelude::*;

verus! {

/// A key type whose equality is decided by its view.
pub trait MapKey: View + Sized {
    /// Whether the two keys are equal.
    fn key_eq(&self, other: &Self) -> (r: bool)
        ensures
            r == (self@ == other@),
    ;
}

impl MapKey for u32 {
    fn key_eq(&self, other: &Self) -> (r: bool) {
        *self == *other
    }
}

impl MapKey for u64 {
    fn key_eq(&self, other: &Self) -> (r: bool) {
        *self == *other
    }
}

impl MapKey for usize {
    fn key_eq(&self, other: &Self) -> (r: bool) {
        *self == *other
    }
}

impl MapKey for String {
    fn key_eq(&self, other: &Self) -> (r: bool) {
        *self == *other
    }
}

/// A pair of keys.
#[derive(PartialEq, Eq, Hash)]
pub struct Pair<A, B>(A, B);

impl<A: Clone, B: Clone> Clone for Pair<A, B> {
    fn clone(&self) -> (r: Self) {
        Pair(self.0.clone(), self.1.clone())
    }
}

impl<A: View, B: View> Pair<A, B> {
    /// The pair of views.
    pub closed spec fn key(&self) -> (A::V, B::V) {
        (self.0@, self.1@)
    }
}

/// A map keyed by pairs `(A, B)`.
pub struct DoubleKeyedMap<A: MapKey, B: MapKey, V> {
    entries: Vec<(Pair<A, B>, V)>,
}

impl<A: MapKey, B: MapKey, V> View for DoubleKeyedMap<A, B, V> {
    type V = Map<(A::V, B::V), V>;

    closed spec fn view(&self) -> Map<(A::V, B::V), V> {
        Map::new(
            |k: (A::V, B::V)| exists|i: int| 0 <= i < self.entries@.len() && #[trigger] self.entries@[i].0.key() == k,
            |k: (A::V, B::V)| self.entries@[self.index_of(k)].1,
        )
    }
}

impl<A: MapKey, B: MapKey, V> DoubleKeyedMap<A, B, V> {
    /// Where the entry with key `k` is held.
    closed spec fn index_of(&self, k: (A::V, B::V)) -> int {
        choose|i: int| 0 <= i < self.entries@.len() && #[trigger] self.entries@[i].0.key() == k
    }

    /// The map's invariant: no key occurs twice.
    pub closed spec fn wf(&self) -> bool {
        forall|i: int, j: int|
            0 <= i < j < self.entries@.len() ==> #[trigger] self.entries@[i].0.key()
                != #[trigger] self.entries@[j].0.key()
    }

    /// The view has finitely many keys, one per entry.
    proof fn lemma_view(&self, i: int)
        requires
            self.wf(),
            0 <= i < self.entries@.len(),
        ensures
            self@.contains_key(self.entries@[i].0.key()),
            self@[self.entries@[i].0.key()] == self.entries@[i].1,
    {
        let k = self.entries@[i].0.key();
        assert(self@.contains_key(k));
        let j = self.index_of(k);
        assert(self.entries@[j].0.key() == k);
        if i < j {
            assert(self.entries@[i].0.key() != self.entries@[j].0.key());
        } else if j < i {
            assert(self.entries@[j].0.key() != self.entries@[i].0.key());
        }
    }

    /// An empty map.
    pub fn new() -> (r: Self)
        ensures
            r.wf(),
            r@ == Map::<(A::V, B::V), V>::empty(),
    {
        let r = DoubleKeyedMap { entries: Vec::new() };
        assert(r@ =~= Map::<(A::V, B::V), V>::empty());
        r
    }

    /// The position of the entry with keys `a` and `b`, if there is one.
    fn find(&self, a: &A, b: &B) -> (r: Option<usize>)
        requires
            self.wf(),
        ensures
            match r {
                Some(i) => i < self.entries@.len() && self.entries@[i as int].0.key() == (a@, b@),
                None => !self@.contains_key((a@, b@)),
            },
    {
        let mut i: usize = 0;
        while i < self.entries.len()
            invariant
                i <= self.entries@.len(),
                forall|j: int| 0 <= j < i ==> #[trigger] self.entries@[j].0.key() != (a@, b@),
            decreases self.entries@.len() - i,
        {
            let e = &self.entries[i];
            if e.0.0.key_eq(a) && e.0.1.key_eq(b) {
                return Some(i);
            }
            i = i + 1;
        }
        None
    }

    /// The value stored under keys `a` and `b`, if any.
    pub fn get(&self, a: &A, b: &B) -> (r: Option<&V>)
        requires
            self.wf(),
        ensures
            match r {
                Some(v) => self@.contains_key((a@, b@)) && *v == self@[(a@, b@)],
                None => !self@.contains_key((a@, b@)),
            },
    {
        match self.find(a, b) {
            Some(i) => {
                proof {
                    self.lemma_view(i as int);
                }
                Some(&self.entries[i].1)
            },
            None => None,
        }
    }

    /// The keys of the entries, in storage order.
    closed spec fn key_seq(&self) -> Seq<(A::V, B::V)> {
        self.entries@.map_values(|e: (Pair<A, B>, V)| e.0.key())
    }

    /// The keys of the map are those of the entries, and there are as many.
    proof fn lemma_dom(&self)
        requires
            self.wf(),
        ensures
            self@.dom() == self.key_seq().to_set(),
            self@.dom().finite(),
            self@.dom().len() == self.entries@.len(),
    {
        assert(self@.dom() =~= self.key_seq().to_set()) by {
            assert forall|k: (A::V, B::V)| self@.dom().contains(k) implies self.key_seq().to_set().contains(k) by {
                let i = self.index_of(k);
                assert(self.key_seq()[i] == k);
            }
            assert forall|k: (A::V, B::V)| self.key_seq().to_set().contains(k) implies self@.dom().contains(k) by {
                let i = choose|i: int| 0 <= i < self.key_seq().len() && self.key_seq()[i] == k;
                assert(self.entries@[i].0.key() == k);
            }
        }
        assert(self.key_seq().no_duplicates()) by {
            assert forall|i: int, j: int|
                0 <= i < self.key_seq().len() && 0 <= j < self.key_seq().len() && i != j
                implies self.key_seq()[i] != self.key_seq()[j] by {
                if i < j {
                    assert(self.entries@[i].0.key() != self.entries@[j].0.key());
                } else {
                    assert(self.entries@[j].0.key() != self.entries@[i].0.key());
                }
            }
        }
        self.key_seq().unique_seq_to_set();
        vstd::seq_lib::seq_to_set_is_finite(self.key_seq());
    }

    /// Replacing the value of entry `i` updates the view at its key.
    proof fn lemma_update(old_map: &Self, new_map: &Self, i: int, v: V)
        requires
            old_map.wf(),
            0 <= i < old_map.entries@.len(),
            new_map.entries@ == old_map.entries@.update(i, (old_map.entries@[i].0, v)),
        ensures
            new_map.wf(),
            new_map@ == old_map@.insert(old_map.entries@[i].0.key(), v),
    {
        let k = old_map.entries@[i].0.key();
        assert forall|x: int, y: int| 0 <= x < y < new_map.entries@.len() implies #[trigger] new_map.entries@[x].0.key()
                != #[trigger] new_map.entries@[y].0.key() by {
            assert(old_map.entries@[x].0.key() != old_map.entries@[y].0.key());
        }
        new_map.lemma_view(i);
        assert forall|k2: (A::V, B::V)| k2 != k && old_map@.contains_key(k2) implies new_map@.contains_key(k2)
            && new_map@[k2] == old_map@[k2] by {
            let j = old_map.index_of(k2);
            old_map.lemma_view(j);
            new_map.lemma_view(j);
        }
        assert forall|k2: (A::V, B::V)| new_map@.contains_key(k2) implies k2 == k || old_map@.contains_key(k2) by {
            let j = new_map.index_of(k2);
            if j != i {
                old_map.lemma_view(j);
            }
        }
        assert(new_map.entries@[i] == (old_map.entries@[i].0, v));
        assert(new_map@.contains_key(k) && new_map@[k] == v);
        assert forall|x: (A::V, B::V)| #[trigger] new_map@.dom().contains(x) == old_map@.insert(k, v).dom().contains(x) by {
            if new_map@.dom().contains(x) {
                let j = new_map.index_of(x);
                if j != i {
                    old_map.lemma_view(j);
                }
            }
            if x != k && old_map@.dom().contains(x) {
                let j = old_map.index_of(x);
                old_map.lemma_view(j);
                new_map.lemma_view(j);
            }
        }
        assert(new_map@.dom() =~= old_map@.insert(k, v).dom());
        assert(new_map@ =~= old_map@.insert(k, v));
    }

    /// Replacing the value of entry `i`, whatever the new value, updates the
    /// view at its key.
    proof fn lemma_update_any(old_map: &Self, i: int)
        requires
            old_map.wf(),
            0 <= i < old_map.entries@.len(),
        ensures
            forall|new_map: Self, v: V|
                #![trigger new_map@, old_map.entries@.update(i, (old_map.entries@[i].0, v))]
                new_map.entries@ == old_map.entries@.update(i, (old_map.entries@[i].0, v)) ==> {
                    &&& new_map.wf()
                    &&& new_map@ == old_map@.insert(old_map.entries@[i].0.key(), v)
                },
    {
        assert forall|new_map: Self, v: V|
            #![trigger new_map@, old_map.entries@.update(i, (old_map.entries@[i].0, v))]
            new_map.entries@ == old_map.entries@.update(i, (old_map.entries@[i].0, v)) implies {
                &&& new_map.wf()
                &&& new_map@ == old_map@.insert(old_map.entries@[i].0.key(), v)
            } by {
            Self::lemma_update(old_map, &new_map, i, v);
        }
    }

    /// Appending an entry with a fresh key inserts it into the view.
    proof fn lemma_push(old_map: &Self, new_map: &Self, e: (Pair<A, B>, V))
        requires
            old_map.wf(),
            !old_map@.contains_key(e.0.key()),
            new_map.entries@ == old_map.entries@.push(e),
        ensures
            new_map.wf(),
            new_map@ == old_map@.insert(e.0.key(), e.1),
    {
        let n = old_map.entries@.len() as int;
        assert forall|x: int, y: int| 0 <= x < y < new_map.entries@.len() implies #[trigger] new_map.entries@[x].0.key()
                != #[trigger] new_map.entries@[y].0.key() by {
            if y == n {
                old_map.lemma_view(x);
            } else {
                assert(old_map.entries@[x].0.key() != old_map.entries@[y].0.key());
            }
        }
        new_map.lemma_view(n);
        assert forall|k2: (A::V, B::V)| old_map@.contains_key(k2) implies new_map@.contains_key(k2)
            && new_map@[k2] == old_map@[k2] by {
            let j = old_map.index_of(k2);
            old_map.lemma_view(j);
            new_map.lemma_view(j);
        }
        assert forall|k2: (A::V, B::V)| new_map@.contains_key(k2) implies k2 == e.0.key() || old_map@.contains_key(k2) by {
            let j = new_map.index_of(k2);
            if j != n {
                old_map.lemma_view(j);
            }
        }
        assert(new_map.entries@[n] == e);
        assert(new_map@.contains_key(e.0.key()) && new_map@[e.0.key()] == e.1);
        assert forall|x: (A::V, B::V)| #[trigger] new_map@.dom().contains(x) == old_map@.insert(e.0.key(), e.1).dom().contains(x) by {
            if new_map@.dom().contains(x) {
                let j = new_map.index_of(x);
                if j != n {
                    old_map.lemma_view(j);
                }
            }
            if old_map@.dom().contains(x) {
                let j = old_map.index_of(x);
                old_map.lemma_view(j);
                new_map.lemma_view(j);
            }
        }
        assert(new_map@.dom() =~= old_map@.insert(e.0.key(), e.1).dom());
        assert(new_map@ =~= old_map@.insert(e.0.key(), e.1));
    }

    /// Removing entry `i` removes its key from the view.
    proof fn lemma_remove(old_map: &Self, new_map: &Self, i: int)
        requires
            old_map.wf(),
            0 <= i < old_map.entries@.len(),
            new_map.entries@ == old_map.entries@.remove(i),
        ensures
            new_map.wf(),
            new_map@ == old_map@.remove(old_map.entries@[i].0.key()),
    {
        let k = old_map.entries@[i].0.key();
        assert forall|x: int, y: int| 0 <= x < y < new_map.entries@.len() implies #[trigger] new_map.entries@[x].0.key()
                != #[trigger] new_map.entries@[y].0.key() by {
            let ox = if x < i { x } else { x + 1 };
            let oy = if y < i { y } else { y + 1 };
            assert(old_map.entries@[ox].0.key() != old_map.entries@[oy].0.key());
        }
        assert forall|k2: (A::V, B::V)| k2 != k && old_map@.contains_key(k2) implies new_map@.contains_key(k2)
            && new_map@[k2] == old_map@[k2] by {
            let j = old_map.index_of(k2);
            old_map.lemma_view(j);
            let nj = if j < i { j } else { j - 1 };
            assert(j != i);
            assert(new_map.entries@[nj] == old_map.entries@[j]);
            new_map.lemma_view(nj);
        }
        assert forall|k2: (A::V, B::V)| new_map@.contains_key(k2) implies k2 != k && old_map@.contains_key(k2) by {
            let j = new_map.index_of(k2);
            let oj = if j < i { j } else { j + 1 };
            assert(new_map.entries@[j] == old_map.entries@[oj]);
            old_map.lemma_view(oj);
            assert(old_map.entries@[oj].0.key() != old_map.entries@[i].0.key()) by {
                if oj < i {
                } else {
                }
            }
        }
        assert forall|x: (A::V, B::V)| #[trigger] new_map@.dom().contains(x) == old_map@.remove(k).dom().contains(x) by {
            if new_map@.dom().contains(x) {
                let j = new_map.index_of(x);
                let oj = if j < i { j } else { j + 1 };
                assert(new_map.entries@[j] == old_map.entries@[oj]);
                old_map.lemma_view(oj);
                if oj < i {
                    assert(old_map.entries@[oj].0.key() != old_map.entries@[i].0.key());
                } else {
                    assert(old_map.entries@[i].0.key() != old_map.entries@[oj].0.key());
                }
            }
            if x != k && old_map@.dom().contains(x) {
                let j = old_map.index_of(x);
                old_map.lemma_view(j);
                let nj = if j < i { j } else { j - 1 };
                assert(new_map.entries@[nj] == old_map.entries@[j]);
                new_map.lemma_view(nj);
            }
        }
        assert(new_map@.dom() =~= old_map@.remove(k).dom());
        assert(new_map@ =~= old_map@.remove(k));
    }

    /// Stores `v` under keys `a` and `b`, replacing any value stored there.
    pub fn insert(&mut self, a: A, b: B, v: V)
        requires
            old(self).wf(),
        ensures
            final(self).wf(),
            final(self)@ == old(self)@.insert((a@, b@), v),
    {
        match self.find(&a, &b) {
            Some(i) => {
                let ghost old_map = *self;
                let e = self.entries.remove(i);
                self.entries.insert(i, (e.0, v));
                proof {
                    assert(self.entries@ =~= old_map.entries@.update(i as int, (old_map.entries@[i as int].0, v)));
                    Self::lemma_update(&old_map, self, i as int, v);
                }
            },
            None => {
                let ghost old_map = *self;
                let p = Pair(a, b);
                assert(p.key() == (a@, b@));
                self.entries.push((p, v));
                proof {
                    Self::lemma_push(&old_map, self, self.entries@.last());
                }
            },
        }
    }

    /// Removes and returns the value stored under keys `a` and `b`, if any.
    pub fn remove(&mut self, a: &A, b: &B) -> (r: Option<V>)
        requires
            old(self).wf(),
        ensures
            final(self).wf(),
            final(self)@ == old(self)@.remove((a@, b@)),
            match r {
                Some(v) => old(self)@.contains_key((a@, b@)) && v == old(self)@[(a@, b@)],
                None => !old(self)@.contains_key((a@, b@)),
            },
    {
        match self.find(a, b) {
            Some(i) => {
                let ghost old_map = *self;
                proof {
                    old_map.lemma_view(i as int);
                }
                let e = self.entries.remove(i);
                proof {
                    Self::lemma_remove(&old_map, self, i as int);
                }
                Some(e.1)
            },
            None => {
                assert(self@ =~= self@.remove((a@, b@)));
                None
            },
        }
    }

    /// Whether the map is empty.
    pub fn is_empty(&self) -> (r: bool)
        requires
            self.wf(),
        ensures
            r == (self@.dom().len() == 0),
    {
        proof {
            self.lemma_dom();
        }
        self.entries.len() == 0
    }

    /// The number of entries in the map.
    pub fn len(&self) -> (r: usize)
        requires
            self.wf(),
        ensures
            r == self@.dom().len(),
            self@.dom().finite(),
    {
        proof {
            self.lemma_dom();
        }
        self.entries.len()
    }

    /// A mutable reference to the value stored under keys `a` and `b`, if any.
    pub fn get_mut(&mut self, a: &A, b: &B) -> (r: Option<&mut V>)
        requires
            old(self).wf(),
        ensures
            match r {
                Some(v) => {
                    &&& old(self)@.contains_key((a@, b@))
                    &&& *v == old(self)@[(a@, b@)]
                    &&& final(self).wf()
                    &&& final(self)@ == old(self)@.insert((a@, b@), *final(v))
                },
                None => !old(self)@.contains_key((a@, b@)) && *final(self) == *old(self),
            },
    {
        match self.find(a, b) {
            Some(i) => {
                proof {
                    self.lemma_view(i as int);
                }
                proof {
                    Self::lemma_update_any(self, i as int);
                }
                let e = &mut self.entries[i];
                Some(&mut e.1)
            },
            None => None,
        }
    }

    /// A mutable reference to the value stored under keys `a` and `b`,
    /// storing `default` there first if there is none (the entry for the keys,
    /// filled with `default` if vacant).
    pub fn entry(&mut self, a: A, b: B, default: V) -> (r: &mut V)
        requires
            old(self).wf(),
        ensures
            *r == (if old(self)@.contains_key((a@, b@)) {
                old(self)@[(a@, b@)]
            } else {
                default
            }),
            final(self).wf(),
            final(self)@ == old(self)@.insert((a@, b@), *final(r)),
    {
        match self.find(&a, &b) {
            Some(i) => {
                proof {
                    self.lemma_view(i as int);
                    Self::lemma_update_any(self, i as int);
                }
                let e = &mut self.entries[i];
                &mut e.1
            },
            None => {
                let ghost old_map = *self;
                let p = Pair(a, b);
                assert(p.key() == (a@, b@));
                self.entries.push((p, default));
                let n = self.entries.len() - 1;
                proof {
                    Self::lemma_push(&old_map, self, self.entries@.last());
                    self.lemma_view(n as int);
                    Self::lemma_update_any(self, n as int);
                    assert forall|v: V| #[trigger] self@.insert((a@, b@), v) == old_map@.insert((a@, b@), v) by {
                        assert(self@.insert((a@, b@), v) =~= old_map@.insert((a@, b@), v));
                    }
                }
                let e = &mut self.entries[n];
                &mut e.1
            },
        }
    }

    /// The entries of the map as `(a, b, value)` triples, each key once.
    pub fn iter(&self) -> (r: Vec<(&A, &B, &V)>)
        requires
            self.wf(),
        ensures
            r@.len() == self@.dom().len(),
            forall|i: int| 0 <= i < r@.len() ==> {
                &&& self@.contains_key((r@[i].0@, r@[i].1@))
                &&& *r@[i].2 == self@[(r@[i].0@, r@[i].1@)]
            },
            forall|i: int, j: int|
                0 <= i < j < r@.len() ==> (#[trigger] r@[i].0@, r@[i].1@) != (#[trigger] r@[j].0@,
                r@[j].1@),
    {
        proof {
            self.lemma_dom();
        }
        let mut r: Vec<(&A, &B, &V)> = Vec::new();
        let mut i: usize = 0;
        while i < self.entries.len()
            invariant
                self.wf(),
                i <= self.entries@.len(),
                r@.len() == i,
                forall|j: int| 0 <= j < i ==> (#[trigger] r@[j].0@, r@[j].1@) == self.entries@[j].0.key()
                    && *r@[j].2 == self.entries@[j].1,
            decreases self.entries@.len() - i,
        {
            let e = &self.entries[i];
            proof {
                assert(e.0.key() == (e.0.0@, e.0.1@));
            }
            r.push((&e.0.0, &e.0.1, &e.1));
            i = i + 1;
        }
        proof {
            assert forall|j: int| 0 <= j < r@.len() implies {
                &&& self@.contains_key((r@[j].0@, r@[j].1@))
                &&& *r@[j].2 == self@[(r@[j].0@, r@[j].1@)]
            } by {
                self.lemma_view(j);
            }
            assert forall|x: int, y: int| 0 <= x < y < r@.len() implies (#[trigger] r@[x].0@, r@[x].1@)
                != (#[trigger] r@[y].0@, r@[y].1@) by {
                assert(self.entries@[x].0.key() != self.entries@[y].0.key());
            }
        }
        r
    }

    /// The key pairs of the map, each once.
    pub fn keys(&self) -> (r: Vec<(&A, &B)>)
        requires
            self.wf(),
        ensures
            r@.len() == self@.dom().len(),
            forall|i: int| 0 <= i < r@.len() ==> self@.contains_key((r@[i].0@, r@[i].1@)),
            forall|i: int, j: int|
                0 <= i < j < r@.len() ==> (#[trigger] r@[i].0@, r@[i].1@) != (#[trigger] r@[j].0@,
                r@[j].1@),
    {
        let all = self.iter();
        let mut r: Vec<(&A, &B)> = Vec::new();
        let mut i: usize = 0;
        while i < all.len()
            invariant
                i <= all@.len(),
                r@.len() == i,
                forall|j: int| 0 <= j < i ==> #[trigger] r@[j] == (all@[j].0, all@[j].1),
            decreases all@.len() - i,
        {
            r.push((all[i].0, all[i].1));
            i = i + 1;
        }
        proof {
            assert forall|x: int, y: int| 0 <= x < y < r@.len() implies (#[trigger] r@[x].0@, r@[x].1@)
                != (#[trigger] r@[y].0@, r@[y].1@) by {
                assert(r@[x] == (all@[x].0, all@[x].1));
                assert(r@[y] == (all@[y].0, all@[y].1));
                assert((all@[x].0@, all@[x].1@) != (all@[y].0@, all@[y].1@));
            }
            assert forall|x: int| 0 <= x < r@.len() implies self@.contains_key((r@[x].0@, r@[x].1@)) by {
                assert(r@[x] == (all@[x].0, all@[x].1));
            }
        }
        r
    }

    /// The values of the map, one per key.
    pub fn values(&self) -> (r: Vec<&V>)
        requires
            self.wf(),
        ensures
            r@.len() == self@.dom().len(),
            exists|ks: Seq<(A::V, B::V)>|
                #![trigger ks.no_duplicates()]
                ks.len() == r@.len() && ks.no_duplicates() && forall|i: int|
                    0 <= i < r@.len() ==> self@.contains_key(#[trigger] ks[i]) && *r@[i] == self@[ks[i]],
    {
        let all = self.iter();
        let mut r: Vec<&V> = Vec::new();
        let mut i: usize = 0;
        while i < all.len()
            invariant
                i <= all@.len(),
                r@.len() == i,
                forall|j: int| 0 <= j < i ==> #[trigger] r@[j] == all@[j].2,
            decreases all@.len() - i,
        {
            r.push(all[i].2);
            i = i + 1;
        }
        proof {
            let ks = Seq::new(all@.len(), |j: int| (all@[j].0@, all@[j].1@));
            assert forall|x: int| 0 <= x < r@.len() implies self@.contains_key(#[trigger] ks[x]) && *r@[x] == self@[ks[x]] by {
                assert(r@[x] == all@[x].2);
            }
            assert(ks.no_duplicates()) by {
                assert forall|x: int, y: int| 0 <= x < ks.len() && 0 <= y < ks.len() && x != y implies ks[x] != ks[y] by {
                    if x < y {
                        assert((all@[x].0@, all@[x].1@) != (all@[y].0@, all@[y].1@));
                    } else {
                        assert((all@[y].0@, all@[y].1@) != (all@[x].0@, all@[x].1@));
                    }
                }
            }
        }
        r
    }
}

impl<A: MapKey + Clone, B: MapKey + Clone, V: Clone> Clone for DoubleKeyedMap<A, B, V> {
    fn clone(&self) -> (r: Self) {
        DoubleKeyedMap { entries: self.entries.clone() }
    }
}

} // verus!
