//! Keyed maps held as vectors of entries with pairwise-distinct keys.
//!
//! Every keyed collection of the engine (parameter maps, template
//! associations, per-region snapshots, image lookups) is an [`AssocMap`].
//! Its mathematical content is the `Map` from key views to value views;
//! the order of entries carries no meaning beyond iteration.

use vstd::prelude::*;
use vstd::set_lib::lemma_subset_equality;

verus! {

/// An exec key of an association map: equality and cloning must agree with
/// the mathematical view of the key.
pub trait MapKey: View + Sized {
    /// Decides equality of two keys, exactly as their views compare.
    fn key_eq(&self, other: &Self) -> (r: bool)
        ensures
            r == (self@ == other@),
    ;

    /// Clones a key; the copy has the same view.
    fn key_dup(&self) -> (r: Self)
        ensures
            r@ == self@,
    ;
}

/// An exec value of an association map: equality and cloning must agree with
/// the mathematical view of the value.
pub trait MapVal: View + Sized {
    /// Decides equality of two values, exactly as their views compare.
    fn val_eq(&self, other: &Self) -> (r: bool)
        ensures
            r == (self@ == other@),
    ;

    /// Clones a value; the copy has the same view.
    fn val_dup(&self) -> (r: Self)
        ensures
            r@ == self@,
    ;
}

impl MapKey for String {
    fn key_eq(&self, other: &Self) -> (r: bool) {
        self.eq(other)
    }

    fn key_dup(&self) -> (r: Self) {
        self.clone()
    }
}

impl MapVal for String {
    fn val_eq(&self, other: &Self) -> (r: bool) {
        self.eq(other)
    }

    fn val_dup(&self) -> (r: Self) {
        self.clone()
    }
}

impl MapVal for bool {
    fn val_eq(&self, other: &Self) -> (r: bool) {
        *self == *other
    }

    fn val_dup(&self) -> (r: Self) {
        *self
    }
}

/// A mapping with unique keys and no ordering semantics, stored as a vector
/// of entries.  Viewed as a `Map` from key views to value views.
#[derive(Debug)]
pub struct AssocMap<K: MapKey, T: MapVal> {
    entries: Vec<(K, T)>,
}

impl<K: MapKey, T: MapVal> View for AssocMap<K, T> {
    type V = Map<K::V, T::V>;

    closed spec fn view(&self) -> Map<K::V, T::V> {
        AssocMap::<K, T>::map_of(self.entries@)
    }
}

impl<K: MapKey, T: MapVal> AssocMap<K, T> {
    /// The entries in storage order, as ghost data.
    pub closed spec fn kvs(&self) -> Seq<(K, T)> {
        self.entries@
    }

    /// The map a sequence of entries denotes; a later entry overrides an
    /// earlier one with the same key.
    pub open spec fn map_of(s: Seq<(K, T)>) -> Map<K::V, T::V>
        decreases s.len(),
    {
        if s.len() == 0 {
            Map::empty()
        } else {
            Self::map_of(s.drop_last()).insert(s.last().0@, s.last().1@)
        }
    }

    /// Entry keys are pairwise distinct, so each key denotes one value.
    #[verifier::type_invariant]
    pub closed spec fn wf(&self) -> bool {
        forall|i: int, j: int|
            0 <= i < j < self.kvs().len() ==> self.kvs()[i].0@ != self.kvs()[j].0@
    }

    proof fn lemma_map_of_contains(s: Seq<(K, T)>, i: int)
        requires
            0 <= i < s.len(),
        ensures
            Self::map_of(s).contains_key(s[i].0@),
        decreases s.len(),
    {
        if i < s.len() - 1 {
            Self::lemma_map_of_contains(s.drop_last(), i);
            assert(s.drop_last()[i] == s[i]);
        }
    }

    proof fn lemma_map_of_index(s: Seq<(K, T)>, k: K::V) -> (i: int)
        requires
            Self::map_of(s).contains_key(k),
        ensures
            0 <= i < s.len(),
            s[i].0@ == k,
        decreases s.len(),
    {
        if s.len() == 0 {
            assert(false);
            0
        } else if s.last().0@ == k {
            s.len() - 1
        } else {
            let i = Self::lemma_map_of_index(s.drop_last(), k);
            assert(s.drop_last()[i] == s[i]);
            i
        }
    }

    proof fn lemma_map_of_value(s: Seq<(K, T)>, i: int)
        requires
            0 <= i < s.len(),
            forall|a: int, b: int| 0 <= a < b < s.len() ==> s[a].0@ != s[b].0@,
        ensures
            Self::map_of(s)[s[i].0@] == s[i].1@,
        decreases s.len(),
    {
        if i < s.len() - 1 {
            assert(s[i].0@ != s[s.len() - 1].0@);
            Self::lemma_map_of_value(s.drop_last(), i);
            assert(s.drop_last()[i] == s[i]);
        }
    }

    proof fn lemma_map_of_dom_len(s: Seq<(K, T)>)
        requires
            forall|a: int, b: int| 0 <= a < b < s.len() ==> s[a].0@ != s[b].0@,
        ensures
            Self::map_of(s).dom().finite(),
            Self::map_of(s).dom().len() == s.len(),
        decreases s.len(),
    {
        if s.len() > 0 {
            Self::lemma_map_of_dom_len(s.drop_last());
            if Self::map_of(s.drop_last()).contains_key(s.last().0@) {
                let i = Self::lemma_map_of_index(s.drop_last(), s.last().0@);
                assert(s.drop_last()[i] == s[i]);
                assert(false);
            }
            assert(Self::map_of(s).dom() =~= Self::map_of(s.drop_last()).dom().insert(
                s.last().0@,
            ));
        }
    }

    proof fn lemma_map_of_congruence(s1: Seq<(K, T)>, s2: Seq<(K, T)>)
        requires
            s1.len() == s2.len(),
            forall|j: int|
                0 <= j < s1.len() ==> s1[j].0@ == s2[j].0@ && s1[j].1@ == s2[j].1@,
        ensures
            Self::map_of(s1) == Self::map_of(s2),
        decreases s1.len(),
    {
        if s1.len() > 0 {
            assert forall|j: int| 0 <= j < s1.len() - 1 implies s1.drop_last()[j].0@ == s2.drop_last()[j].0@
                && s1.drop_last()[j].1@ == s2.drop_last()[j].1@ by {
                assert(s1.drop_last()[j] == s1[j]);
                assert(s2.drop_last()[j] == s2[j]);
            }
            Self::lemma_map_of_congruence(s1.drop_last(), s2.drop_last());
            assert(s1[s1.len() - 1].0@ == s2[s1.len() - 1].0@);
            assert(s1[s1.len() - 1].1@ == s2[s1.len() - 1].1@);
        }
    }

    /// Entry keys are pairwise distinct.
    pub proof fn lemma_distinct_keys(&self)
        requires
            self.wf(),
        ensures
            forall|a: int, b: int|
                0 <= a < b < self.kvs().len() ==> self.kvs()[a].0@ != self.kvs()[b].0@,
    {
    }

    /// Each stored entry is present in the map with its own value.
    pub proof fn lemma_entry_in_view(&self, i: int)
        requires
            self.wf(),
            0 <= i < self.kvs().len(),
        ensures
            self@.contains_key(self.kvs()[i].0@),
            self@[self.kvs()[i].0@] == self.kvs()[i].1@,
    {
        Self::lemma_map_of_contains(self.kvs(), i);
        Self::lemma_map_of_value(self.kvs(), i);
    }

    /// Each key of the map is held by exactly one stored entry; returns its
    /// position.
    pub proof fn lemma_view_entry(&self, k: K::V) -> (i: int)
        requires
            self.wf(),
            self@.contains_key(k),
        ensures
            0 <= i < self.kvs().len(),
            self.kvs()[i].0@ == k,
            self.kvs()[i].1@ == self@[k],
    {
        let i = Self::lemma_map_of_index(self.kvs(), k);
        Self::lemma_map_of_value(self.kvs(), i);
        i
    }

    /// The map has exactly as many keys as there are entries.
    pub proof fn lemma_dom_len(&self)
        requires
            self.wf(),
        ensures
            self@.dom().finite(),
            self@.dom().len() == self.kvs().len(),
    {
        Self::lemma_map_of_dom_len(self.kvs());
    }

    /// An empty map.
    pub fn new() -> (r: Self)
        ensures
            r@ == Map::<K::V, T::V>::empty(),
            r.kvs().len() == 0,
    {
        AssocMap { entries: Vec::new() }
    }

    /// The number of entries, which equals the number of keys.
    pub fn len(&self) -> (n: usize)
        ensures
            n == self.kvs().len(),
    {
        self.entries.len()
    }

    /// Whether the map holds no keys at all.
    pub fn is_empty(&self) -> (r: bool)
        ensures
            r == (self@ == Map::<K::V, T::V>::empty()),
            r == (self.kvs().len() == 0),
    {
        proof {
            use_type_invariant(&*self);
        }
        let r = self.entries.len() == 0;
        proof {
            if r {
                assert(self@ =~= Map::<K::V, T::V>::empty());
            } else {
                self.lemma_entry_in_view(0);
                assert(!Map::<K::V, T::V>::empty().contains_key(self.kvs()[0].0@));
            }
        }
        r
    }

    /// The key of the entry at position `i`.
    pub fn key_at(&self, i: usize) -> (k: &K)
        requires
            i < self.kvs().len(),
        ensures
            *k == self.kvs()[i as int].0,
            self@.contains_key(k@),
            self@[k@] == self.kvs()[i as int].1@,
    {
        proof {
            use_type_invariant(&*self);
            self.lemma_entry_in_view(i as int);
        }
        &self.entries[i].0
    }

    /// The value of the entry at position `i`.
    pub fn val_at(&self, i: usize) -> (v: &T)
        requires
            i < self.kvs().len(),
        ensures
            *v == self.kvs()[i as int].1,
            v@ == self@[self.kvs()[i as int].0@],
    {
        proof {
            use_type_invariant(&*self);
            self.lemma_entry_in_view(i as int);
        }
        &self.entries[i].1
    }

    /// Looks a key up, exactly as the map view does.
    pub fn get(&self, key: &K) -> (r: Option<&T>)
        ensures
            match r {
                Some(v) => self@.contains_key(key@) && v@ == self@[key@],
                None => !self@.contains_key(key@),
            },
    {
        proof {
            use_type_invariant(&*self);
        }
        let n = self.entries.len();
        let mut i: usize = 0;
        while i < n
            invariant
                self.wf(),
                n == self.kvs().len(),
                i <= n,
                forall|j: int| 0 <= j < i ==> self.kvs()[j].0@ != key@,
            decreases n - i,
        {
            if self.entries[i].0.key_eq(key) {
                proof {
                    self.lemma_entry_in_view(i as int);
                }
                return Some(&self.entries[i].1);
            }
            i += 1;
        }
        proof {
            if self@.contains_key(key@) {
                let j = self.lemma_view_entry(key@);
            }
        }
        None
    }

    proof fn lemma_map_of_update(s: Seq<(K, T)>, i: int, key: K, value: T)
        requires
            0 <= i < s.len(),
            forall|a: int, b: int| 0 <= a < b < s.len() ==> s[a].0@ != s[b].0@,
            s[i].0@ == key@,
        ensures
            forall|a: int, b: int|
                0 <= a < b < s.len() ==> s.update(i, (key, value))[a].0@ != s.update(
                    i,
                    (key, value),
                )[b].0@,
            Self::map_of(s.update(i, (key, value))) == Self::map_of(s).insert(key@, value@),
    {
        let t = s.update(i, (key, value));
        assert forall|a: int, b: int| 0 <= a < b < s.len() implies t[a].0@ != t[b].0@ by {
            assert(t[a].0@ == s[a].0@);
            assert(t[b].0@ == s[b].0@);
        }
        assert forall|k: K::V| #[trigger] Self::map_of(t).contains_key(k) implies Self::map_of(
            s,
        ).insert(key@, value@).contains_key(k) && Self::map_of(t)[k] == Self::map_of(s).insert(
            key@,
            value@,
        )[k] by {
            let a = Self::lemma_map_of_index(t, k);
            Self::lemma_map_of_value(t, a);
            if a == i {
                assert(Self::map_of(t)[k] == value@);
            } else {
                assert(t[a] == s[a]);
                assert(s[a].0@ != s[i].0@);
                Self::lemma_map_of_contains(s, a);
                Self::lemma_map_of_value(s, a);
            }
        }
        assert forall|k: K::V| #[trigger] Self::map_of(s).insert(key@, value@).contains_key(
            k,
        ) implies Self::map_of(t).contains_key(k) by {
            if k == key@ {
                Self::lemma_map_of_contains(t, i);
                assert(t[i].0@ == key@);
            } else {
                let a = Self::lemma_map_of_index(s, k);
                assert(t[a].0@ == s[a].0@);
                Self::lemma_map_of_contains(t, a);
            }
        }
        assert(Self::map_of(t) =~= Self::map_of(s).insert(key@, value@));
    }

    fn find_key(entries: &Vec<(K, T)>, key: &K) -> (r: Option<usize>)
        ensures
            match r {
                Some(i) => i < entries@.len() && entries@[i as int].0@ == key@,
                None => forall|j: int| 0 <= j < entries@.len() ==> entries@[j].0@ != key@,
            },
    {
        let n = entries.len();
        let mut i: usize = 0;
        while i < n
            invariant
                n == entries@.len(),
                i <= n,
                forall|j: int| 0 <= j < i ==> entries@[j].0@ != key@,
            decreases n - i,
        {
            if entries[i].0.key_eq(key) {
                return Some(i);
            }
            i += 1;
        }
        None
    }

    /// Binds a key to a value: a fresh key is added, a present key is
    /// rebound.
    pub fn insert(&mut self, key: K, value: T)
        ensures
            final(self)@ == old(self)@.insert(key@, value@),
            final(self).kvs().len() <= old(self).kvs().len() + 1,
    {
        proof {
            use_type_invariant(&*self);
        }
        let ghost old_kvs = self.entries@;
        proof {
            assert(self.kvs() == old_kvs);
            assert(forall|a: int, b: int|
                0 <= a < b < old_kvs.len() ==> old_kvs[a].0@ != old_kvs[b].0@);
        }
        let mut entries: Vec<(K, T)> = Vec::new();
        core::mem::swap(&mut entries, &mut self.entries);
        match Self::find_key(&entries, &key) {
            Some(i) => {
                proof {
                    Self::lemma_map_of_update(old_kvs, i as int, key, value);
                }
                entries[i] = (key, value);
            },
            None => {
                entries.push((key, value));
                proof {
                    assert(entries@.drop_last() =~= old_kvs);
                }
            },
        }
        self.entries = entries;
    }

    /// Clones the whole map; the copy denotes the same map.
    pub fn dup(&self) -> (r: Self)
        ensures
            r@ == self@,
            r.kvs().len() == self.kvs().len(),
    {
        proof {
            use_type_invariant(&*self);
        }
        let n = self.entries.len();
        let mut out: Vec<(K, T)> = Vec::new();
        let mut i: usize = 0;
        while i < n
            invariant
                self.wf(),
                n == self.kvs().len(),
                i <= n,
                out@.len() == i,
                forall|j: int|
                    0 <= j < i ==> out@[j].0@ == self.kvs()[j].0@ && out@[j].1@
                        == self.kvs()[j].1@,
            decreases n - i,
        {
            let k = self.entries[i].0.key_dup();
            let v = self.entries[i].1.val_dup();
            out.push((k, v));
            i += 1;
        }
        proof {
            Self::lemma_map_of_congruence(out@, self.kvs());
        }
        AssocMap { entries: out }
    }

    /// Decides equality of the two denoted maps, whatever the entry orders.
    pub fn map_eq(&self, other: &Self) -> (r: bool)
        ensures
            r == (self@ == other@),
    {
        proof {
            use_type_invariant(&*self);
            use_type_invariant(&*other);
            self.lemma_dom_len();
            other.lemma_dom_len();
        }
        let n = self.entries.len();
        if n != other.entries.len() {
            return false;
        }
        let mut i: usize = 0;
        while i < n
            invariant
                self.wf(),
                other.wf(),
                n == self.kvs().len(),
                n == other.kvs().len(),
                i <= n,
                forall|j: int|
                    0 <= j < i ==> other@.contains_key(#[trigger] self.kvs()[j].0@)
                        && other@[self.kvs()[j].0@] == self.kvs()[j].1@,
            decreases n - i,
        {
            proof {
                self.lemma_entry_in_view(i as int);
            }
            let k = &self.entries[i].0;
            match other.get(k) {
                Some(v) => {
                    if !self.entries[i].1.val_eq(v) {
                        return false;
                    }
                },
                None => {
                    return false;
                },
            }
            i += 1;
        }
        proof {
            self.lemma_dom_len();
            other.lemma_dom_len();
            assert forall|k: K::V| #[trigger] self@.contains_key(k) implies other@.contains_key(k)
                && other@[k] == self@[k] by {
                let j = self.lemma_view_entry(k);
            }
            assert(self@.dom().subset_of(other@.dom()));
            lemma_subset_equality(self@.dom(), other@.dom());
            assert(self@ =~= other@);
        }
        true
    }
}

} // verus!
