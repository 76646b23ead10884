//! Finite maps and sets kept as vectors of distinct keys.
//!
//! Keys are compared by their views, so a `String` key is looked up by its
//! characters. Iteration is by index, in the order the entries are held.

use vstd::prelude::*;

verus! {

/// A type whose values can key a [`KeyedMap`] or fill a [`KeyedSet`]: equality
/// and copies are decided on views.
pub trait MapKey: View + Sized {
    fn key_eq(&self, other: &Self) -> (b: bool)
        ensures
            b == (self@ == other@),
    ;

    fn key_copy(&self) -> (c: Self)
        ensures
            c@ == self@,
    ;
}

/// A type whose values can be copied with an equal view.
pub trait DeepCopy: View + Sized {
    fn deep_copy(&self) -> (c: Self)
        ensures
            c@ == self@,
    ;
}

impl MapKey for String {
    fn key_eq(&self, other: &Self) -> (b: bool) {
        *self == *other
    }

    fn key_copy(&self) -> (c: Self) {
        self.clone()
    }
}

impl DeepCopy for String {
    fn deep_copy(&self) -> (c: Self) {
        self.clone()
    }
}

impl MapKey for u128 {
    fn key_eq(&self, other: &Self) -> (b: bool) {
        *self == *other
    }

    fn key_copy(&self) -> (c: Self) {
        *self
    }
}

impl DeepCopy for u128 {
    fn deep_copy(&self) -> (c: Self) {
        *self
    }
}

impl MapKey for usize {
    fn key_eq(&self, other: &Self) -> (b: bool) {
        *self == *other
    }

    fn key_copy(&self) -> (c: Self) {
        *self
    }
}

impl MapKey for [u8; 32] {
    fn key_eq(&self, other: &Self) -> (b: bool) {
        crate::principal::bytes_equal(self.as_slice(), other.as_slice())
    }

    fn key_copy(&self) -> (c: Self) {
        *self
    }
}

impl DeepCopy for [u8; 32] {
    fn deep_copy(&self) -> (c: Self) {
        *self
    }
}

impl DeepCopy for Vec<u128> {
    fn deep_copy(&self) -> (c: Self) {
        vstd::slice::slice_to_vec(self.as_slice())
    }
}

impl DeepCopy for Vec<u8> {
    fn deep_copy(&self) -> (c: Self) {
        vstd::slice::slice_to_vec(self.as_slice())
    }
}

/// A finite map from keys to values; no two entries have keys with the same view.
pub struct KeyedMap<K: MapKey, V: View> {
    entries: Vec<(K, V)>,
}

impl<K: MapKey, V: View> KeyedMap<K, V> {
    /// The number of entries.
    pub closed spec fn spec_len(&self) -> nat {
        self.entries@.len()
    }

    /// The view of the key held at position `i`.
    pub closed spec fn spec_key_at(&self, i: int) -> K::V {
        self.entries@[i].0@
    }

    /// The view of the value held at position `i`.
    pub closed spec fn spec_value_at(&self, i: int) -> V::V {
        self.entries@[i].1@
    }

    /// The value held at position `i`.
    pub closed spec fn spec_raw_value_at(&self, i: int) -> V {
        self.entries@[i].1
    }

    /// The value held under `k`, if any.
    pub closed spec fn spec_raw_get(&self, k: K::V) -> V {
        self.entries@[self.spec_index_of(k)].1
    }

    /// The position at which `k` is held, if any.
    pub closed spec fn spec_index_of(&self, k: K::V) -> int {
        choose|i: int| 0 <= i < self.entries@.len() && self.entries@[i].0@ == k
    }

    /// No key is held twice.
    #[verifier::type_invariant]
    pub closed spec fn inv(&self) -> bool {
        forall|i: int, j: int|
            0 <= i < self.entries@.len() && 0 <= j < self.entries@.len() && i != j
                ==> self.entries@[i].0@ != self.entries@[j].0@
    }

    /// What the positions tell of the view: the keys held are exactly the
    /// keys of the view, each once, with its value.
    pub proof fn lemma_positions(&self)
        requires
            self.inv(),
        ensures
            self@.dom().finite(),
            self@.len() == self.spec_len(),
            forall|i: int|
                0 <= i < self.spec_len() ==> #[trigger] self@.contains_key(self.spec_key_at(i))
                    && self@[self.spec_key_at(i)] == self.spec_value_at(i),
            forall|k: K::V|
                #[trigger] self@.contains_key(k) ==> 0 <= self.spec_index_of(k) < self.spec_len()
                    && self.spec_key_at(self.spec_index_of(k)) == k,
            forall|i: int, j: int|
                0 <= i < self.spec_len() && 0 <= j < self.spec_len() && i != j
                    ==> self.spec_key_at(i) != self.spec_key_at(j),
    {
        assert forall|i: int| 0 <= i < self.spec_len() implies #[trigger] self@.contains_key(
            self.spec_key_at(i),
        ) && self@[self.spec_key_at(i)] == self.spec_value_at(i) by {
            let j = self.spec_index_of(self.spec_key_at(i));
            assert(self.entries@[i].0@ == self.spec_key_at(i));
        }
        lemma_keys_finite_len(self.entries@);
    }

    pub fn new() -> (m: Self)
        ensures
            m@ == Map::<K::V, V::V>::empty(),
            m.spec_len() == 0,
    {
        let m = KeyedMap { entries: Vec::new() };
        assert(m@ =~= Map::<K::V, V::V>::empty());
        m
    }

    pub fn len(&self) -> (n: usize)
        ensures
            n == self.spec_len(),
            n == self@.len(),
            self.inv(),
    {
        proof {
            use_type_invariant(self);
            self.lemma_positions();
        }
        self.entries.len()
    }

    pub fn is_empty(&self) -> (b: bool)
        ensures
            b == (self@.len() == 0),
            b == (self@ == Map::<K::V, V::V>::empty()),
    {
        proof {
            use_type_invariant(self);
            self.lemma_positions();
            if self.entries@.len() > 0 {
                assert(self@.contains_key(self.spec_key_at(0)));
            } else {
                assert(self@ =~= Map::<K::V, V::V>::empty());
            }
        }
        self.entries.len() == 0
    }

    /// The position of `k`, if it is held.
    pub fn find(&self, k: &K) -> (r: Option<usize>)
        ensures
            match r {
                Some(i) => i < self.spec_len() && self.spec_key_at(i as int) == k@
                    && self@.contains_key(k@),
                None => !self@.contains_key(k@),
            },
    {
        proof {
            use_type_invariant(self);
            self.lemma_positions();
        }
        let mut i: usize = 0;
        while i < self.entries.len()
            invariant
                i <= self.entries@.len(),
                forall|j: int| 0 <= j < i ==> self.entries@[j].0@ != k@,
            decreases self.entries@.len() - i,
        {
            if self.entries[i].0.key_eq(k) {
                return Some(i);
            }
            i += 1;
        }
        None
    }

    pub fn contains_key(&self, k: &K) -> (b: bool)
        ensures
            b == self@.contains_key(k@),
    {
        self.find(k).is_some()
    }

    pub fn get(&self, k: &K) -> (r: Option<&V>)
        ensures
            match r {
                Some(v) => self@.contains_key(k@) && v@ == self@[k@] && *v == self.spec_raw_get(k@),
                None => !self@.contains_key(k@),
            },
    {
        proof {
            use_type_invariant(self);
            self.lemma_positions();
        }
        match self.find(k) {
            Some(i) => Some(&self.entries[i].1),
            None => None,
        }
    }

    /// The key held at position `i`.
    pub fn key_at(&self, i: usize) -> (k: &K)
        requires
            i < self.spec_len(),
        ensures
            k@ == self.spec_key_at(i as int),
    {
        &self.entries[i].0
    }

    /// The value held at position `i`.
    pub fn value_at(&self, i: usize) -> (v: &V)
        requires
            i < self.spec_len(),
        ensures
            v@ == self.spec_value_at(i as int),
            *v == self.spec_raw_value_at(i as int),
    {
        &self.entries[i].1
    }

    /// Sets the value of `k`; a new key goes last, a held key keeps its position.
    pub fn insert(&mut self, k: K, v: V)
        ensures
            final(self)@ == old(self)@.insert(k@, v@),
    {
        proof {
            use_type_invariant(&*self);
            self.lemma_positions();
        }
        let found = self.find(&k);
        let mut e: Vec<(K, V)> = Vec::new();
        std::mem::swap(&mut e, &mut self.entries);
        let ghost old_entries = e@;
        match found {
            Some(i) => {
                e.remove(i);
                let ghost mid = e@;
                e.insert(i, (k, v));
                proof {
                    let new_entries = e@;
                    assert forall|a: int| 0 <= a < new_entries.len() && a != i implies new_entries[a]
                        == old_entries[a] by {
                        if a < i {
                            assert(new_entries[a] == mid[a]);
                        } else {
                            assert(new_entries[a] == mid[a - 1]);
                        }
                    }
                    assert forall|a: int, b: int|
                        0 <= a < new_entries.len() && 0 <= b < new_entries.len() && a
                            != b implies new_entries[a].0@ != new_entries[b].0@ by {
                        if a != i && b != i {
                            assert(new_entries[a] == old_entries[a]);
                            assert(new_entries[b] == old_entries[b]);
                        } else if a == i {
                            assert(new_entries[b] == old_entries[b]);
                        } else {
                            assert(new_entries[a] == old_entries[a]);
                        }
                    }
                    assert(new_entries[i as int].0@ == k@);
                    assert forall|a: int| #![trigger old_entries[a]] 0 <= a < old_entries.len() && old_entries[a].0@
                        != k@ implies exists|j: int| #![trigger new_entries[j]]
                        0 <= j < new_entries.len() && new_entries[j] == old_entries[a] by {
                        assert(new_entries[a] == old_entries[a]);
                    }
                    assert forall|j: int| #![trigger new_entries[j]] 0 <= j < new_entries.len() && new_entries[j].0@
                        != k@ implies exists|a: int| #![trigger old_entries[a]]
                        0 <= a < old_entries.len() && new_entries[j] == old_entries[a] by {
                        assert(new_entries[j] == old_entries[j]);
                    }
                }
            },
            None => {
                e.push((k, v));
                proof {
                    let new_entries = e@;
                    assert forall|a: int| 0 <= a < old_entries.len() implies new_entries[a]
                        == old_entries[a] by {}
                    assert forall|a: int|
                        0 <= a < old_entries.len() implies old_entries[a].0@ != k@ by {
                        assert(old(self)@.contains_key(old_entries[a].0@));
                    }
                    assert(new_entries[old_entries.len() as int].0@ == k@);
                    assert forall|a: int| #![trigger old_entries[a]] 0 <= a < old_entries.len() && old_entries[a].0@
                        != k@ implies exists|j: int| #![trigger new_entries[j]]
                        0 <= j < new_entries.len() && new_entries[j] == old_entries[a] by {
                        assert(new_entries[a] == old_entries[a]);
                    }
                    assert forall|j: int| #![trigger new_entries[j]] 0 <= j < new_entries.len() && new_entries[j].0@
                        != k@ implies exists|a: int| #![trigger old_entries[a]]
                        0 <= a < old_entries.len() && new_entries[j] == old_entries[a] by {
                        assert(new_entries[j] == old_entries[j]);
                    }
                }
            },
        }
        self.entries = e;
        proof {
            self.lemma_view_after_write(old(self), k@, v@);
        }
    }

    proof fn lemma_view_after_write(&self, before: &Self, k: K::V, v: V::V)
        requires
            self.inv(),
            before.inv(),
            exists|i: int|
                #![trigger self.entries@[i]]
                0 <= i < self.entries@.len() && self.entries@[i].0@ == k && self.entries@[i].1@
                    == v,
            forall|i: int|
                #![trigger before.entries@[i]]
                0 <= i < before.entries@.len() && before.entries@[i].0@ != k ==> exists|j: int|
                    #![trigger self.entries@[j]]
                    0 <= j < self.entries@.len() && self.entries@[j] == before.entries@[i],
            forall|j: int|
                #![trigger self.entries@[j]]
                0 <= j < self.entries@.len() && self.entries@[j].0@ != k ==> exists|i: int|
                    #![trigger before.entries@[i]]
                    0 <= i < before.entries@.len() && self.entries@[j] == before.entries@[i],
        ensures
            self@ == before@.insert(k, v),
    {
        self.lemma_positions();
        before.lemma_positions();
        let target = before@.insert(k, v);
        assert forall|q: K::V| #[trigger] self@.contains_key(q) <==> target.contains_key(q) by {
            if q == k {
                let i = choose|i: int|
                    0 <= i < self.entries@.len() && self.entries@[i].0@ == k
                        && self.entries@[i].1@ == v;
                assert(self.spec_key_at(i) == k);
            } else {
                if self@.contains_key(q) {
                    let j = self.spec_index_of(q);
                    assert(self.entries@[j].0@ == q);
                    let i = choose|i: int|
                        0 <= i < before.entries@.len() && self.entries@[j] == before.entries@[i];
                    assert(before.spec_key_at(i) == q);
                }
                if before@.contains_key(q) {
                    let i = before.spec_index_of(q);
                    assert(before.entries@[i].0@ == q);
                    let j = choose|j: int|
                        0 <= j < self.entries@.len() && self.entries@[j] == before.entries@[i];
                    assert(self.spec_key_at(j) == q);
                }
            }
        }
        assert forall|q: K::V| #[trigger] self@.contains_key(q) implies self@[q] == target[q] by {
            if q == k {
                let i = choose|i: int|
                    0 <= i < self.entries@.len() && self.entries@[i].0@ == k
                        && self.entries@[i].1@ == v;
                assert(self.spec_key_at(i) == k);
            } else {
                let j = self.spec_index_of(q);
                let i = choose|i: int|
                    0 <= i < before.entries@.len() && self.entries@[j] == before.entries@[i];
                assert(before.spec_key_at(i) == q);
            }
        }
        assert(self@ =~= target);
    }

    proof fn lemma_view_after_remove(&self, before: &Self, k: K::V)
        requires
            self.inv(),
            before.inv(),
            forall|i: int| 0 <= i < self.entries@.len() ==> self.entries@[i].0@ != k,
            forall|i: int|
                #![trigger before.entries@[i]]
                0 <= i < before.entries@.len() && before.entries@[i].0@ != k ==> exists|j: int|
                    #![trigger self.entries@[j]]
                    0 <= j < self.entries@.len() && self.entries@[j] == before.entries@[i],
            forall|j: int|
                #![trigger self.entries@[j]]
                0 <= j < self.entries@.len() ==> exists|i: int|
                    #![trigger before.entries@[i]]
                    0 <= i < before.entries@.len() && self.entries@[j] == before.entries@[i],
        ensures
            self@ == before@.remove(k),
    {
        self.lemma_positions();
        before.lemma_positions();
        let target = before@.remove(k);
        assert forall|q: K::V| #[trigger] self@.contains_key(q) <==> target.contains_key(q) by {
            if self@.contains_key(q) {
                let j = self.spec_index_of(q);
                assert(self.entries@[j].0@ == q);
                let i = choose|i: int|
                    0 <= i < before.entries@.len() && self.entries@[j] == before.entries@[i];
                assert(before.spec_key_at(i) == q);
            }
            if target.contains_key(q) {
                let i = before.spec_index_of(q);
                assert(before.entries@[i].0@ == q);
                let j = choose|j: int|
                    0 <= j < self.entries@.len() && self.entries@[j] == before.entries@[i];
                assert(self.spec_key_at(j) == q);
            }
        }
        assert forall|q: K::V| #[trigger] self@.contains_key(q) implies self@[q] == target[q] by {
            let j = self.spec_index_of(q);
            let i = choose|i: int|
                0 <= i < before.entries@.len() && self.entries@[j] == before.entries@[i];
            assert(before.spec_key_at(i) == q);
        }
        assert(self@ =~= target);
    }

    /// Removes `k`, handing back its value; the other entries keep their order.
    pub fn remove(&mut self, k: &K) -> (r: Option<V>)
        ensures
            final(self)@ == old(self)@.remove(k@),
            match r {
                Some(v) => old(self)@.contains_key(k@) && v@ == old(self)@[k@],
                None => !old(self)@.contains_key(k@),
            },
    {
        proof {
            use_type_invariant(&*self);
            self.lemma_positions();
        }
        let found = self.find(k);
        let mut e: Vec<(K, V)> = Vec::new();
        std::mem::swap(&mut e, &mut self.entries);
        let ghost old_entries = e@;
        match found {
            Some(i) => {
                let (_, v) = e.remove(i);
                proof {
                    let new_entries = e@;
                    assert forall|a: int| #![trigger old_entries[a]] 0 <= a < old_entries.len() && old_entries[a].0@
                        != k@ implies exists|j: int| #![trigger new_entries[j]]
                        0 <= j < new_entries.len() && new_entries[j] == old_entries[a] by {
                        if a < i {
                            assert(new_entries[a] == old_entries[a]);
                        } else {
                            assert(a != i);
                            assert(new_entries[a - 1] == old_entries[a]);
                        }
                    }
                    assert forall|j: int| #![trigger new_entries[j]] 0 <= j < new_entries.len() implies exists|a: int| #![trigger old_entries[a]]
                        0 <= a < old_entries.len() && new_entries[j] == old_entries[a] by {
                        if j < i {
                            assert(new_entries[j] == old_entries[j]);
                        } else {
                            assert(new_entries[j] == old_entries[j + 1]);
                        }
                    }
                    assert forall|j: int| 0 <= j < new_entries.len() implies new_entries[j].0@
                        != k@ by {
                        if j < i {
                            assert(new_entries[j] == old_entries[j]);
                        } else {
                            assert(new_entries[j] == old_entries[j + 1]);
                        }
                    }
                    assert forall|a: int, b: int|
                        0 <= a < new_entries.len() && 0 <= b < new_entries.len() && a
                            != b implies new_entries[a].0@ != new_entries[b].0@ by {
                        let oa = if a < i { a } else { a + 1 };
                        let ob = if b < i { b } else { b + 1 };
                        assert(new_entries[a] == old_entries[oa]);
                        assert(new_entries[b] == old_entries[ob]);
                    }
                }
                self.entries = e;
                proof {
                    self.lemma_view_after_remove(old(self), k@);
                }
                Some(v)
            },
            None => {
                self.entries = e;
                proof {
                    assert(self.entries@ == old(self).entries@);
                    assert(self@ =~= old(self)@);
                    assert(old(self)@.remove(k@) =~= old(self)@);
                }
                None
            },
        }
    }
}

proof fn lemma_keys_finite_len<K: View, V: View>(s: Seq<(K, V)>)
    requires
        forall|i: int, j: int|
            0 <= i < s.len() && 0 <= j < s.len() && i != j ==> s[i].0@ != s[j].0@,
    ensures
        Map::new(
            |k: K::V| exists|i: int| 0 <= i < s.len() && s[i].0@ == k,
            |k: K::V| s[choose|i: int| 0 <= i < s.len() && s[i].0@ == k].1@,
        ).dom().finite(),
        Map::new(
            |k: K::V| exists|i: int| 0 <= i < s.len() && s[i].0@ == k,
            |k: K::V| s[choose|i: int| 0 <= i < s.len() && s[i].0@ == k].1@,
        ).len() == s.len(),
    decreases s.len(),
{
    let d = Set::new(|k: K::V| exists|i: int| 0 <= i < s.len() && s[i].0@ == k);
    let m = Map::new(
        |k: K::V| exists|i: int| 0 <= i < s.len() && s[i].0@ == k,
        |k: K::V| s[choose|i: int| 0 <= i < s.len() && s[i].0@ == k].1@,
    );
    assert(m.dom() =~= d);
    if s.len() == 0 {
        assert(d =~= Set::empty());
    } else {
        let t = s.drop_last();
        lemma_keys_finite_len(t);
        let dt = Set::new(|k: K::V| exists|i: int| 0 <= i < t.len() && t[i].0@ == k);
        let mt = Map::new(
            |k: K::V| exists|i: int| 0 <= i < t.len() && t[i].0@ == k,
            |k: K::V| t[choose|i: int| 0 <= i < t.len() && t[i].0@ == k].1@,
        );
        assert(mt.dom() =~= dt);
        let last = s.last().0@;
        assert forall|k: K::V| d.contains(k) <==> dt.insert(last).contains(k) by {
            if d.contains(k) && k != last {
                let i = choose|i: int| 0 <= i < s.len() && s[i].0@ == k;
                assert(i != s.len() - 1);
                assert(t[i].0@ == k);
            }
            if dt.contains(k) {
                let i = choose|i: int| 0 <= i < t.len() && t[i].0@ == k;
                assert(s[i].0@ == k);
            }
            if k == last {
                assert(s[s.len() - 1].0@ == k);
            }
        }
        assert(d =~= dt.insert(last));
        assert(!dt.contains(last)) by {
            if dt.contains(last) {
                let i = choose|i: int| 0 <= i < t.len() && t[i].0@ == last;
                assert(s[i].0@ == s[s.len() - 1].0@);
            }
        }
    }
}

impl<K: MapKey, V: DeepCopy> DeepCopy for KeyedMap<K, V> {
    fn deep_copy(&self) -> (c: Self) {
        proof {
            use_type_invariant(self);
        }
        let mut v: Vec<(K, V)> = Vec::new();
        let mut i: usize = 0;
        while i < self.entries.len()
            invariant
                i <= self.entries@.len(),
                v@.len() == i,
                forall|j: int|
                    0 <= j < i ==> #[trigger] v@[j].0@ == self.entries@[j].0@ && v@[j].1@
                        == self.entries@[j].1@,
            decreases self.entries@.len() - i,
        {
            let k = self.entries[i].0.key_copy();
            let x = self.entries[i].1.deep_copy();
            v.push((k, x));
            i += 1;
        }
        let c = KeyedMap { entries: v };
        proof {
            self.lemma_positions();
            c.lemma_positions();
            assert forall|q: K::V| #[trigger] c@.contains_key(q) <==> self@.contains_key(q) by {
                if c@.contains_key(q) {
                    let j = c.spec_index_of(q);
                    assert(self.spec_key_at(j) == q);
                }
                if self@.contains_key(q) {
                    let j = self.spec_index_of(q);
                    assert(c.spec_key_at(j) == q);
                }
            }
            assert forall|q: K::V| #[trigger] c@.contains_key(q) implies c@[q] == self@[q] by {
                let j = self.spec_index_of(q);
                assert(c.spec_key_at(j) == q);
                assert(c@[c.spec_key_at(j)] == c.spec_value_at(j));
            }
            assert(c@ =~= self@);
        }
        c
    }
}

impl<K: MapKey, V: DeepCopy> KeyedMap<K, V> {
    /// Copies of the entries, each key once.
    pub fn to_pairs(&self) -> (r: Vec<(K, V)>)
        ensures
            r@.len() == self@.len(),
            forall|i: int|
                0 <= i < r@.len() ==> self@.contains_key((#[trigger] r@[i]).0@) && r@[i].1@
                    == self@[r@[i].0@],
            forall|i: int, j: int| 0 <= i < j < r@.len() ==> (#[trigger] r@[i]).0@ != (#[trigger] r@[j]).0@,
    {
        proof {
            use_type_invariant(self);
            self.lemma_positions();
        }
        let mut v: Vec<(K, V)> = Vec::new();
        let mut i: usize = 0;
        while i < self.entries.len()
            invariant
                i <= self.entries@.len(),
                self.inv(),
                v@.len() == i,
                forall|j: int|
                    0 <= j < i ==> #[trigger] v@[j].0@ == self.spec_key_at(j) && v@[j].1@
                        == self.spec_value_at(j),
            decreases self.entries@.len() - i,
        {
            let k = self.entries[i].0.key_copy();
            let x = self.entries[i].1.deep_copy();
            v.push((k, x));
            i += 1;
        }
        proof {
            self.lemma_positions();
            assert forall|a: int, b: int| 0 <= a < b < v@.len() implies (#[trigger] v@[a]).0@ != (
            #[trigger] v@[b]).0@ by {
                assert(v@[a].0@ == self.spec_key_at(a));
                assert(v@[b].0@ == self.spec_key_at(b));
            }
            assert forall|a: int| 0 <= a < v@.len() implies self@.contains_key((#[trigger] v@[a]).0@)
                && v@[a].1@ == self@[v@[a].0@] by {
                assert(v@[a].0@ == self.spec_key_at(a));
            }
        }
        v
    }

    /// Copies every entry of `other` in, its values replacing those held
    /// under the same keys.
    pub fn merge_from(&mut self, other: &KeyedMap<K, V>)
        ensures
            final(self)@ == old(self)@.union_prefer_right(other@),
    {
        proof {
            use_type_invariant(other);
            other.lemma_positions();
        }
        let ghost base = self@;
        let mut q: usize = 0;
        while q < other.entries.len()
            invariant
                q <= other.entries@.len(),
                other.inv(),
                forall|k: K::V| #[trigger] self@.contains_key(k) <==> (base.contains_key(k) || exists|p: int|
                    0 <= p < q && other.entries@[p].0@ == k),
                forall|k: K::V|
                    #[trigger] self@.contains_key(k) ==> self@[k] == (if exists|p: int|
                        0 <= p < q && other.entries@[p].0@ == k {
                        other@[k]
                    } else {
                        base[k]
                    }),
            decreases other.entries@.len() - q,
        {
            proof {
                other.lemma_positions();
            }
            let k = other.entries[q].0.key_copy();
            let x = other.entries[q].1.deep_copy();
            let ghost before = self@;
            let ghost kv = k@;
            assert(other.spec_key_at(q as int) == kv);
            assert(other@[kv] == other.spec_value_at(q as int));
            self.insert(k, x);
            proof {
                assert forall|k2: K::V| #[trigger] self@.contains_key(k2) <==> (base.contains_key(k2)
                    || exists|p: int| 0 <= p < q + 1 && other.entries@[p].0@ == k2) by {
                    if k2 == kv {
                        assert(other.entries@[q as int].0@ == k2);
                    } else if exists|p: int| 0 <= p < q + 1 && other.entries@[p].0@ == k2 {
                        let p = choose|p: int| 0 <= p < q + 1 && other.entries@[p].0@ == k2;
                        assert(p != q);
                    }
                }
                assert forall|k2: K::V| #[trigger] self@.contains_key(k2) implies self@[k2] == (if exists|
                    p: int,
                | 0 <= p < q + 1 && other.entries@[p].0@ == k2 {
                    other@[k2]
                } else {
                    base[k2]
                }) by {
                    if k2 == kv {
                        assert(other.entries@[q as int].0@ == k2);
                    } else {
                        if exists|p: int| 0 <= p < q + 1 && other.entries@[p].0@ == k2 {
                            let p = choose|p: int| 0 <= p < q + 1 && other.entries@[p].0@ == k2;
                            assert(p != q);
                            assert(exists|p: int| 0 <= p < q && other.entries@[p].0@ == k2);
                        } else {
                            assert(!exists|p: int| 0 <= p < q && other.entries@[p].0@ == k2);
                        }
                    }
                }
            }
            q += 1;
        }
        proof {
            let target = base.union_prefer_right(other@);
            assert forall|k: K::V| #[trigger] self@.contains_key(k) <==> target.contains_key(k) by {
                if other@.contains_key(k) {
                    let p = other.spec_index_of(k);
                    assert(other.entries@[p].0@ == k);
                }
                if exists|p: int| 0 <= p < q && other.entries@[p].0@ == k {
                    let p = choose|p: int| 0 <= p < q && other.entries@[p].0@ == k;
                    assert(other.spec_key_at(p) == k);
                }
            }
            assert forall|k: K::V| #[trigger] self@.contains_key(k) implies self@[k] == target[k] by {
                if other@.contains_key(k) {
                    let p = other.spec_index_of(k);
                    assert(other.entries@[p].0@ == k);
                }
                if exists|p: int| 0 <= p < q && other.entries@[p].0@ == k {
                    let p = choose|p: int| 0 <= p < q && other.entries@[p].0@ == k;
                    assert(other.spec_key_at(p) == k);
                }
            }
            assert(self@ =~= target);
        }
    }
}

impl<K: MapKey, V: View> View for KeyedMap<K, V> {
    type V = Map<K::V, V::V>;

    closed spec fn view(&self) -> Map<K::V, V::V> {
        Map::new(
            |k: K::V| exists|i: int| 0 <= i < self.entries@.len() && self.entries@[i].0@ == k,
            |k: K::V| self.entries@[self.spec_index_of(k)].1@,
        )
    }
}

/// The number of bytes held in all the values of a finite map.
pub open spec fn total_len<K>(m: Map<K, Seq<u8>>) -> int
    decreases m.len(),
{
    if m.dom().finite() && m.dom().len() > 0 {
        let k = m.dom().choose();
        m[k].len() + total_len(m.remove(k))
    } else {
        0
    }
}

/// The bytes of any one value can be taken out of the total first.
pub proof fn lemma_total_len_remove<K>(m: Map<K, Seq<u8>>, k: K)
    requires
        m.dom().finite(),
        m.contains_key(k),
    ensures
        total_len(m) == m[k].len() + total_len(m.remove(k)),
    decreases m.len(),
{
    let c = m.dom().choose();
    assert(m.dom().len() > 0);
    if c != k {
        lemma_total_len_remove(m.remove(c), k);
        lemma_total_len_remove(m.remove(k), c);
        assert(m.remove(c).remove(k) =~= m.remove(k).remove(c));
    }
}

/// The total of a finite map is never negative.
pub proof fn lemma_total_len_nonneg<K>(m: Map<K, Seq<u8>>)
    ensures
        total_len(m) >= 0,
    decreases m.len(),
{
    if m.dom().finite() && m.dom().len() > 0 {
        lemma_total_len_nonneg(m.remove(m.dom().choose()));
    }
}

impl<K: MapKey> KeyedMap<K, Vec<u8>> {
    /// The number of bytes held in all the values.
    pub fn total_len(&self) -> (t: u128)
        ensures
            t == total_len(self@),
    {
        proof {
            use_type_invariant(self);
            self.lemma_positions();
        }
        let mut t: u128 = 0;
        let mut i: usize = 0;
        let ghost mut seen: Set<K::V> = Set::empty();
        proof {
            assert(self@.restrict(seen) =~= Map::<K::V, Seq<u8>>::empty());
            assert(seen =~= Set::new(|k: K::V| exists|j: int| 0 <= j < i && self.spec_key_at(j) == k));
        }
        while i < self.entries.len()
            invariant
                self.inv(),
                i <= self.spec_len(),
                seen == Set::new(|k: K::V| exists|j: int| 0 <= j < i && self.spec_key_at(j) == k),
                seen.finite(),
                t == total_len(self@.restrict(seen)),
                t <= i * (usize::MAX as int),
            decreases self.spec_len() - i,
        {
            proof {
                self.lemma_positions();
            }
            let n = self.entries[i].1.len();
            let ghost k = self.spec_key_at(i as int);
            let ghost next = seen.insert(k);
            proof {
                assert(!seen.contains(k)) by {
                    if seen.contains(k) {
                        let j = choose|j: int| 0 <= j < i && self.spec_key_at(j) == k;
                        assert(self.spec_key_at(j) == self.spec_key_at(i as int));
                    }
                }
                assert(next =~= Set::new(
                    |q: K::V| exists|j: int| 0 <= j < i + 1 && self.spec_key_at(j) == q,
                ));
                let m2 = self@.restrict(next);
                assert(m2.dom() =~= next);
                assert(m2.remove(k) =~= self@.restrict(seen));
                lemma_total_len_remove(m2, k);
                assert(i * (usize::MAX as int) + (usize::MAX as int) == (i + 1) * (usize::MAX as int))
                    by (nonlinear_arith);
                assert((i + 1) * (usize::MAX as int) <= (usize::MAX as int) * (usize::MAX as int))
                    by (nonlinear_arith)
                    requires
                        i + 1 <= usize::MAX,
                ;
                assert((usize::MAX as int) * (usize::MAX as int) <= u128::MAX) by (nonlinear_arith)
                    requires
                        usize::MAX <= u64::MAX,
                ;
            }
            t = t + n as u128;
            proof {
                seen = next;
            }
            i += 1;
        }
        proof {
            assert(seen =~= self@.dom()) by {
                assert forall|q: K::V| self@.contains_key(q) implies seen.contains(q) by {
                    let j = self.spec_index_of(q);
                    assert(self.spec_key_at(j) == q);
                }
            }
            assert(self@.restrict(seen) =~= self@);
        }
        t
    }
}

/// A finite set of keys, no two with the same view.
pub struct KeyedSet<K: MapKey> {
    map: KeyedMap<K, ()>,
}

impl<K: MapKey> View for KeyedSet<K> {
    type V = Set<K::V>;

    closed spec fn view(&self) -> Set<K::V> {
        self.map@.dom()
    }
}

impl<K: MapKey> KeyedSet<K> {
    /// The number of members.
    pub closed spec fn spec_len(&self) -> nat {
        self.map.spec_len()
    }

    /// The view of the member held at position `i`.
    pub closed spec fn spec_at(&self, i: int) -> K::V {
        self.map.spec_key_at(i)
    }

    /// The position at which `k` is held, if it is a member.
    pub closed spec fn spec_index_of(&self, k: K::V) -> int {
        self.map.spec_index_of(k)
    }

    /// What the positions tell of the view: the members held are exactly the
    /// members of the view, each once.
    pub proof fn lemma_positions(&self)
        requires
            self.inv(),
        ensures
            self@.finite(),
            self@.len() == self.spec_len(),
            forall|i: int| 0 <= i < self.spec_len() ==> #[trigger] self@.contains(self.spec_at(i)),
            forall|k: K::V|
                #[trigger] self@.contains(k) ==> 0 <= self.spec_index_of(k) < self.spec_len()
                    && self.spec_at(self.spec_index_of(k)) == k,
            forall|i: int, j: int|
                0 <= i < self.spec_len() && 0 <= j < self.spec_len() && i != j ==> self.spec_at(i)
                    != self.spec_at(j),
    {
        self.map.lemma_positions();
        assert forall|i: int| 0 <= i < self.spec_len() implies #[trigger] self@.contains(
            self.spec_at(i),
        ) by {
            assert(self.map@.contains_key(self.map.spec_key_at(i)));
        }
        assert forall|k: K::V| #[trigger] self@.contains(k) implies 0 <= self.spec_index_of(k)
            < self.spec_len() && self.spec_at(self.spec_index_of(k)) == k by {
            assert(self.map@.contains_key(k));
        }
    }

    /// The set's well-formedness, which every value of the type has.
    pub closed spec fn inv(&self) -> bool {
        self.map.inv()
    }

    pub fn new() -> (s: Self)
        ensures
            s@ == Set::<K::V>::empty(),
    {
        let s = KeyedSet { map: KeyedMap::new() };
        assert(s@ =~= Set::<K::V>::empty());
        s
    }

    pub fn len(&self) -> (n: usize)
        ensures
            n == self.spec_len(),
            n == self@.len(),
            self.inv(),
    {
        proof {
            use_type_invariant(&self.map);
        }
        self.map.len()
    }

    pub fn is_empty(&self) -> (b: bool)
        ensures
            b == (self@.len() == 0),
            b == (self@ == Set::<K::V>::empty()),
            self.inv(),
    {
        let b = self.map.is_empty();
        proof {
            use_type_invariant(&self.map);
            self.map.lemma_positions();
            if !b {
                assert(self@.contains(self.map.spec_key_at(0)));
            } else {
                assert(self@ =~= Set::<K::V>::empty());
            }
        }
        b
    }

    pub fn contains(&self, k: &K) -> (b: bool)
        ensures
            b == self@.contains(k@),
    {
        self.map.contains_key(k)
    }

    /// The member held at position `i`.
    pub fn at(&self, i: usize) -> (k: &K)
        requires
            i < self.spec_len(),
        ensures
            k@ == self.spec_at(i as int),
    {
        self.map.key_at(i)
    }

    pub fn insert(&mut self, k: K)
        ensures
            final(self)@ == old(self)@.insert(k@),
    {
        let ghost kv = k@;
        self.map.insert(k, ());
        assert(self@ =~= old(self)@.insert(kv));
    }

    pub fn remove(&mut self, k: &K)
        ensures
            final(self)@ == old(self)@.remove(k@),
    {
        self.map.remove(k);
        assert(self@ =~= old(self)@.remove(k@));
    }
}

impl<K: MapKey> DeepCopy for KeyedSet<K> {
    fn deep_copy(&self) -> (c: Self) {
        let mut c = KeyedSet::new();
        let mut i: usize = 0;
        proof {
            use_type_invariant(&self.map);
            self.lemma_positions();
        }
        while i < self.len()
            invariant
                i <= self.spec_len(),
                self.inv(),
                c@ == Set::new(|k: K::V| exists|j: int| 0 <= j < i && self.spec_at(j) == k),
            decreases self.spec_len() - i,
        {
            let k = self.at(i).key_copy();
            let ghost before = c@;
            c.insert(k);
            assert(c@ =~= Set::new(|k: K::V| exists|j: int| 0 <= j < i + 1 && self.spec_at(j) == k)) by {
                assert forall|q: K::V| c@.contains(q) implies exists|j: int| 0 <= j < i + 1 && self.spec_at(j) == q by {
                    if q != self.spec_at(i as int) {
                        assert(before.contains(q));
                    }
                }
            }
            i += 1;
        }
        proof {
            self.lemma_positions();
            assert forall|q: K::V| c@.contains(q) <==> self@.contains(q) by {
                if self@.contains(q) {
                    let j = self.spec_index_of(q);
                    assert(self.spec_at(j) == q);
                }
            }
            assert(c@ =~= self@);
        }
        c
    }
}

impl DeepCopy for () {
    fn deep_copy(&self) -> (c: Self) {
        ()
    }
}

} // verus!
