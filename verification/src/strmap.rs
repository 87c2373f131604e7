//! Maps and sets keyed by text.
//!
//! Both collections keep their entries in insertion order in a vector; no key
//! occurs twice. Their models are a `Map` and a `Set` over texts, and their entries
//! can be gone through by position, which a hash map keyed by text does not offer.

use crate::text::{self, str_eq, Text};
use vstd::prelude::*;

verus! {

/// A map from text to `V`.
#[derive(Debug)]
pub struct StrMap<V> {
    keys: Vec<String>,
    values: Vec<V>,
}

impl<V: DeepView> View for StrMap<V> {
    type V = Map<Text, V::V>;

    closed spec fn view(&self) -> Map<Text, V::V> {
        Map::new(
            |k: Text| text::texts(self.keys@).contains(k),
            |k: Text| self.values@[text::texts(self.keys@).index_of(k)].deep_view(),
        )
    }
}

impl<V> StrMap<V> {
    #[verifier::type_invariant]
    spec fn wf(&self) -> bool {
        &&& self.keys@.len() == self.values@.len()
        &&& text::texts(self.keys@).no_duplicates()
    }

    /// The keys in insertion order.
    pub closed spec fn keys(&self) -> Seq<Text> {
        text::texts(self.keys@)
    }
}

impl<V: DeepView> StrMap<V> {
    /// An empty map.
    pub fn new() -> (r: Self)
        ensures
            r@ == Map::<Text, V::V>::empty(),
            r.keys() == Seq::<Text>::empty(),
    {
        let r: StrMap<V> = StrMap { keys: Vec::new(), values: Vec::new() };
        assert(r@ =~= Map::<Text, V::V>::empty());
        r
    }

    fn position(&self, key: &str) -> (r: Option<usize>)
        ensures
            match r {
                Some(i) => i < self.keys@.len() && i < self.values@.len() && self.keys@[i as int]@
                    == key@ && self@.dom().contains(key@) && self@[key@]
                    == self.values@[i as int].deep_view(),
                None => !self@.dom().contains(key@) && !text::texts(self.keys@).contains(key@),
            },
    {
        proof {
            use_type_invariant(self);
        }
        let mut i: usize = 0;
        while i < self.keys.len()
            invariant
                0 <= i <= self.keys.len(),
                self.wf(),
                forall|j: int| 0 <= j < i ==> self.keys@[j]@ != key@,
            decreases self.keys.len() - i,
        {
            if str_eq(self.keys[i].as_str(), key) {
                proof {
                    let ks = text::texts(self.keys@);
                    assert(ks[i as int] == key@);
                    assert(ks.contains(key@));
                    assert(ks.index_of(key@) == i);
                }
                return Some(i);
            }
            i = i + 1;
        }
        None
    }

    /// The number of entries. The keys are distinct, and are exactly the domain
    /// of the model.
    pub fn len(&self) -> (r: usize)
        ensures
            r == self.keys().len(),
            self.keys().no_duplicates(),
            self@.dom() == self.keys().to_set(),
            self@.dom().finite(),
            self@.dom().len() == r,
    {
        proof {
            use_type_invariant(self);
            assert(self@.dom() =~= self.keys().to_set());
            vstd::seq_lib::seq_to_set_is_finite(self.keys());
            self.keys().unique_seq_to_set();
        }
        self.keys.len()
    }

    /// Whether `key` has an entry.
    pub fn contains_key(&self, key: &str) -> (r: bool)
        ensures
            r == self@.dom().contains(key@),
    {
        self.position(key).is_some()
    }

    /// The value of `key`.
    pub fn get(&self, key: &str) -> (r: Option<&V>)
        ensures
            match r {
                Some(v) => self@.dom().contains(key@) && v.deep_view() == self@[key@],
                None => !self@.dom().contains(key@),
            },
    {
        match self.position(key) {
            Some(i) => Some(&self.values[i]),
            None => None,
        }
    }

    /// The key at a position in insertion order.
    pub fn key_at(&self, i: usize) -> (r: &String)
        requires
            i < self.keys().len(),
        ensures
            r@ == self.keys()[i as int],
            self@.dom().contains(r@),
    {
        assert(text::texts(self.keys@)[i as int] == self.keys@[i as int]@);
        &self.keys[i]
    }

    /// The value at a position in insertion order.
    pub fn value_at(&self, i: usize) -> (r: &V)
        requires
            i < self.keys().len(),
        ensures
            self@.dom().contains(self.keys()[i as int]),
            r.deep_view() == self@[self.keys()[i as int]],
    {
        proof {
            use_type_invariant(self);
            let ks = text::texts(self.keys@);
            assert(ks.contains(ks[i as int]));
            assert(ks.index_of(ks[i as int]) == i);
        }
        &self.values[i]
    }

    /// Sets the value of `key`: an existing entry keeps its place, a new one
    /// goes last.
    pub fn insert(&mut self, key: String, value: V)
        ensures
            final(self)@ == old(self)@.insert(key@, value.deep_view()),
            final(self).keys() == if old(self)@.dom().contains(key@) {
                old(self).keys()
            } else {
                old(self).keys().push(key@)
            },
    {
        proof {
            use_type_invariant(&*self);
        }
        let ghost before = *self;
        let found = self.position(key.as_str());
        let mut taken: StrMap<V> = StrMap::new();
        std::mem::swap(&mut taken, self);
        let StrMap { mut keys, mut values } = taken;
        match found {
            Some(i) => {
                values.set(i, value);
                proof {
                    let ks = text::texts(keys@);
                    assert(ks[i as int] == key@);
                    assert(ks.contains(key@));
                    assert(ks.index_of(key@) == i);
                    assert forall|k: Text| #[trigger] ks.contains(k) && k != key@ implies ks.index_of(k)
                        != i by {}
                }
            },
            None => {
                proof {
                    let ks = text::texts(keys@);
                    let ks2 = text::texts(keys@.push(key));
                    assert(ks2 =~= ks.push(key@));
                    assert(ks2.no_duplicates());
                    assert(ks2[ks.len() as int] == key@);
                    assert(ks2.index_of(key@) == ks.len());
                    assert forall|k: Text| #[trigger] ks.contains(k) implies ks2.contains(k)
                        && ks2.index_of(k) == ks.index_of(k) by {
                        let j = ks.index_of(k);
                        assert(ks2[j] == k);
                    }
                    assert forall|k: Text| #[trigger] ks2.contains(k) && k != key@ implies ks.contains(k) by {
                        let j = ks2.index_of(k);
                        assert(ks[j] == k);
                    }
                }
                keys.push(key);
                values.push(value);
            },
        }
        *self = StrMap { keys, values };
        assert(self@ =~= before@.insert(key@, value.deep_view()));
        assert(self.keys() =~= if before@.dom().contains(key@) {
            before.keys()
        } else {
            before.keys().push(key@)
        });
    }

    /// Removes the entry of `key`, if it has one, and hands out its value; the
    /// other entries keep their order.
    pub fn remove(&mut self, key: &str) -> (r: Option<V>)
        ensures
            final(self)@ == old(self)@.remove(key@),
            match r {
                Some(v) => old(self)@.dom().contains(key@) && v.deep_view() == old(self)@[key@],
                None => !old(self)@.dom().contains(key@),
            },
    {
        proof {
            use_type_invariant(&*self);
        }
        let ghost before = *self;
        let found = self.position(key);
        match found {
            Some(i) => {
                let mut taken: StrMap<V> = StrMap::new();
                std::mem::swap(&mut taken, self);
                let StrMap { mut keys, mut values } = taken;
                let ghost ks = text::texts(keys@);
                let _ = keys.remove(i);
                let v = values.remove(i);
                proof {
                    let ks2 = text::texts(keys@);
                    assert(ks2 =~= ks.remove(i as int));
                    assert(ks[i as int] == key@);
                    assert forall|a: int, b: int| 0 <= a < ks2.len() && 0 <= b < ks2.len() && a
                        != b implies ks2[a] != ks2[b] by {
                        let a0 = if a < i { a } else { a + 1 };
                        let b0 = if b < i { b } else { b + 1 };
                        assert(ks[a0] != ks[b0]);
                    }
                    assert(ks2.no_duplicates());
                    assert forall|k: Text| #[trigger] ks2.contains(k) implies ks.contains(k) && k != key@
                        && ks2.index_of(k) == (if ks.index_of(k) < i {
                        ks.index_of(k)
                    } else {
                        ks.index_of(k) - 1
                    }) by {
                        let j = ks2.index_of(k);
                        let j0 = if j < i { j } else { j + 1 };
                        assert(ks[j0] == k);
                        assert(ks.index_of(k) == j0);
                    }
                    assert forall|k: Text| #[trigger] ks.contains(k) && k != key@ implies ks2.contains(k) by {
                        let j = ks.index_of(k);
                        let j2 = if j < i { j } else { j - 1 };
                        assert(ks2[j2] == k);
                    }
                }
                *self = StrMap { keys, values };
                assert(self@ =~= before@.remove(key@));
                Some(v)
            },
            None => {
                assert(self@ =~= before@.remove(key@));
                None
            },
        }
    }

    /// Removes every entry.
    pub fn clear(&mut self)
        ensures
            final(self)@ == Map::<Text, V::V>::empty(),
            final(self).keys() == Seq::<Text>::empty(),
    {
        *self = StrMap::new();
    }
}

impl StrMap<String> {
    /// A copy with the same entries in the same order.
    pub fn copy(&self) -> (r: Self)
        ensures
            r@ == self@,
            r.keys() == self.keys(),
    {
        proof {
            use_type_invariant(self);
        }
        let r = StrMap {
            keys: text::list_to_vec(self.keys.as_slice()),
            values: text::list_to_vec(self.values.as_slice()),
        };
        assert(r@ =~= self@);
        r
    }

    /// Adds every entry of another map; of two values for one key, the added
    /// one counts.
    pub fn extend(&mut self, other: &Self)
        ensures
            final(self)@ == old(self)@.union_prefer_right(other@),
    {
        let n = other.len();
        let ghost ks = other.keys();
        let ghost before = self@;
        let mut i: usize = 0;
        while i < n
            invariant
                0 <= i <= n,
                n == ks.len(),
                ks == other.keys(),
                other@.dom() == ks.to_set(),
                ks.no_duplicates(),
                forall|k: Text| #[trigger]
                    self@.dom().contains(k) <==> before.dom().contains(k) || ks.take(
                        i as int,
                    ).contains(k),
                forall|k: Text| #[trigger]
                    self@.dom().contains(k) ==> self@[k] == if ks.take(i as int).contains(k) {
                        other@[k]
                    } else {
                        before[k]
                    },
            decreases n - i,
        {
            let ghost x = ks[i as int];
            proof {
                assert forall|k: Text| #[trigger]
                    ks.take(i + 1).contains(k) <==> ks.take(i as int).contains(k) || k == x by {
                    if ks.take(i as int).contains(k) {
                        assert(ks.take(i + 1)[ks.take(i as int).index_of(k)] == k);
                    }
                    if k == x {
                        assert(ks.take(i + 1)[i as int] == k);
                    }
                    if ks.take(i + 1).contains(k) && k != x {
                        assert(ks.take(i as int)[ks.take(i + 1).index_of(k)] == k);
                    }
                }
            }
            self.insert(other.key_at(i).clone(), other.value_at(i).clone());
            i = i + 1;
        }
        assert(ks.take(n as int) =~= ks);
        assert(self@ =~= before.union_prefer_right(other@));
    }

    /// Whether two maps hold the same entries, in whatever order.
    pub fn same(&self, other: &Self) -> (r: bool)
        ensures
            r == (self@ == other@),
    {
        let n = self.len();
        if n != other.len() {
            return false;
        }
        let ghost ks = self.keys();
        let mut i: usize = 0;
        while i < n
            invariant
                0 <= i <= n,
                n == ks.len(),
                ks == self.keys(),
                self@.dom() == ks.to_set(),
                forall|j: int|
                    0 <= j < i ==> other@.dom().contains(#[trigger] ks[j]) && other@[ks[j]]
                        == self@[ks[j]],
            decreases n - i,
        {
            match other.get(self.key_at(i).as_str()) {
                Some(v) => {
                    if !str_eq(v.as_str(), self.value_at(i).as_str()) {
                        assert(self@[ks[i as int]] != other@[ks[i as int]]);
                        return false;
                    }
                },
                None => {
                    assert(self@.dom().contains(ks[i as int]));
                    return false;
                },
            }
            i = i + 1;
        }
        proof {
            assert forall|k: Text| self@.dom().contains(k) implies other@.dom().contains(k)
                && other@[k] == self@[k] by {
                assert(ks.contains(k));
                assert(ks[ks.index_of(k)] == k);
            }
            assert(self@.dom().subset_of(other@.dom()));
            vstd::set_lib::lemma_subset_equality(self@.dom(), other@.dom());
            assert(self@ =~= other@);
        }
        true
    }
}

impl<V: DeepView> StrMap<V> {
    /// Whether the map has no entry.
    pub fn is_empty(&self) -> (r: bool)
        ensures
            r == (self@ == Map::<Text, V::V>::empty()),
    {
        let n = self.len();
        proof {
            if n == 0 {
                assert(self@.dom() =~= Set::<Text>::empty());
                assert(self@ =~= Map::<Text, V::V>::empty());
            } else {
                assert(self.keys().contains(self.keys()[0]));
                assert(self@.dom().contains(self.keys()[0]));
            }
        }
        n == 0
    }
}

/// A set of texts.
#[derive(Debug)]
pub struct StrSet {
    items: Vec<String>,
}

impl View for StrSet {
    type V = Set<Text>;

    closed spec fn view(&self) -> Set<Text> {
        text::texts(self.items@).to_set()
    }
}

impl DeepView for StrSet {
    type V = Set<Text>;

    open spec fn deep_view(&self) -> Set<Text> {
        self@
    }
}

impl StrSet {
    #[verifier::type_invariant]
    spec fn wf(&self) -> bool {
        text::texts(self.items@).no_duplicates()
    }

    /// The members in insertion order.
    pub closed spec fn items(&self) -> Seq<Text> {
        text::texts(self.items@)
    }

    /// An empty set.
    pub fn new() -> (r: Self)
        ensures
            r@ == Set::<Text>::empty(),
    {
        let r = StrSet { items: Vec::new() };
        assert(r@ =~= Set::<Text>::empty());
        r
    }

    /// The number of members.
    pub fn len(&self) -> (r: usize)
        ensures
            r == self@.len(),
            r == self.items().len(),
            self.items().no_duplicates(),
            self@ == self.items().to_set(),
            self@.finite(),
    {
        proof {
            use_type_invariant(self);
            vstd::seq_lib::seq_to_set_is_finite(self.items());
            self.items().unique_seq_to_set();
        }
        self.items.len()
    }

    /// Whether the set has no member.
    pub fn is_empty(&self) -> (r: bool)
        ensures
            r == (self@ == Set::<Text>::empty()),
    {
        proof {
            if self.items().len() > 0 {
                assert(self.items().contains(self.items()[0]));
                assert(self@.contains(self.items()[0]));
            } else {
                assert(self@ =~= Set::<Text>::empty());
            }
        }
        self.items.len() == 0
    }

    /// Whether `x` is a member.
    pub fn contains(&self, x: &str) -> (r: bool)
        ensures
            r == self@.contains(x@),
    {
        crate::text::list_contains(self.items.as_slice(), x)
    }

    /// The member at a position in insertion order.
    pub fn item_at(&self, i: usize) -> (r: &String)
        requires
            i < self.items().len(),
        ensures
            r@ == self.items()[i as int],
            self@.contains(r@),
    {
        assert(text::texts(self.items@)[i as int] == self.items@[i as int]@);
        &self.items[i]
    }

    /// Adds a member; says whether it is new.
    pub fn insert(&mut self, x: String) -> (r: bool)
        ensures
            final(self)@ == old(self)@.insert(x@),
            r == !old(self)@.contains(x@),
    {
        proof {
            use_type_invariant(&*self);
        }
        let ghost before = *self;
        if self.contains(x.as_str()) {
            assert(self@ =~= before@.insert(x@));
            false
        } else {
            let mut items: Vec<String> = Vec::new();
            std::mem::swap(&mut items, &mut self.items);
            proof {
                let a = text::texts(items@);
                let b = text::texts(items@.push(x));
                assert(b =~= a.push(x@));
                assert forall|t: Text| #[trigger] b.contains(t) <==> a.contains(t) || t == x@ by {
                    if a.contains(t) {
                        assert(b[a.index_of(t)] == t);
                    }
                    if t == x@ {
                        assert(b[a.len() as int] == t);
                    }
                    if b.contains(t) && t != x@ {
                        assert(a[b.index_of(t)] == t);
                    }
                }
            }
            items.push(x);
            *self = StrSet { items };
            assert(self@ =~= before@.insert(x@));
            true
        }
    }

    /// Removes a member; says whether it was there.
    pub fn remove(&mut self, x: &str) -> (r: bool)
        ensures
            final(self)@ == old(self)@.remove(x@),
            r == old(self)@.contains(x@),
    {
        proof {
            use_type_invariant(&*self);
        }
        let ghost before = *self;
        let mut i: usize = 0;
        while i < self.items.len()
            invariant
                0 <= i <= self.items.len(),
                *self == before,
                before == *old(self),
                self.wf(),
                forall|j: int| 0 <= j < i ==> self.items@[j]@ != x@,
            decreases self.items.len() - i,
        {
            if str_eq(self.items[i].as_str(), x) {
                let mut items: Vec<String> = Vec::new();
                std::mem::swap(&mut items, &mut self.items);
                let ghost a = text::texts(items@);
                let _ = items.remove(i);
                proof {
                    let b = text::texts(items@);
                    assert(b =~= a.remove(i as int));
                    assert(a[i as int] == x@);
                    assert forall|p: int, q: int| 0 <= p < b.len() && 0 <= q < b.len() && p
                        != q implies b[p] != b[q] by {
                        let p0 = if p < i { p } else { p + 1 };
                        let q0 = if q < i { q } else { q + 1 };
                        assert(a[p0] != a[q0]);
                    }
                    assert forall|t: Text| #[trigger] b.contains(t) <==> a.contains(t) && t != x@ by {
                        if b.contains(t) {
                            let j = b.index_of(t);
                            let j0 = if j < i { j } else { j + 1 };
                            assert(a[j0] == t);
                        }
                        if a.contains(t) && t != x@ {
                            let j = a.index_of(t);
                            let j2 = if j < i { j } else { j - 1 };
                            assert(b[j2] == t);
                        }
                    }
                }
                *self = StrSet { items };
                assert(self@ =~= before@.remove(x@));
                return true;
            }
            i = i + 1;
        }
        assert(!text::texts(self.items@).contains(x@));
        assert(self@ =~= before@.remove(x@));
        false
    }

    /// A copy with the same members.
    pub fn copy(&self) -> (r: Self)
        ensures
            r@ == self@,
    {
        proof {
            use_type_invariant(self);
        }
        StrSet { items: crate::text::list_to_vec(self.items.as_slice()) }
    }
}

} // verus!
