//! A small keyed store: entries are kept in insertion order, no key occurs
//! twice, and lookups scan the entries.

use vstd::prelude::*;
use crate::primitives::{bytes_clone, bytes_eq, H256};

verus! {

/// What a type needs in order to serve as a key of a [`Table`].
pub trait Key: Sized {
    /// The mathematical value that identifies a key.
    type Id;

    spec fn id(&self) -> Self::Id;

    fn same(&self, other: &Self) -> (r: bool)
        ensures
            r == (self.id() == other.id()),
    ;

    fn dup(&self) -> (r: Self)
        ensures
            r.id() == self.id(),
    ;
}

impl Key for u32 {
    type Id = u32;

    open spec fn id(&self) -> u32 {
        *self
    }

    fn same(&self, other: &Self) -> (r: bool) {
        *self == *other
    }

    fn dup(&self) -> (r: Self) {
        *self
    }
}

impl Key for u64 {
    type Id = u64;

    open spec fn id(&self) -> u64 {
        *self
    }

    fn same(&self, other: &Self) -> (r: bool) {
        *self == *other
    }

    fn dup(&self) -> (r: Self) {
        *self
    }
}

impl Key for H256 {
    type Id = H256;

    open spec fn id(&self) -> H256 {
        *self
    }

    fn same(&self, other: &Self) -> (r: bool) {
        *self == *other
    }

    fn dup(&self) -> (r: Self) {
        *self
    }
}

impl Key for Vec<u8> {
    type Id = Seq<u8>;

    open spec fn id(&self) -> Seq<u8> {
        self@
    }

    fn same(&self, other: &Self) -> (r: bool) {
        bytes_eq(self, other)
    }

    fn dup(&self) -> (r: Self) {
        bytes_clone(self)
    }
}

/// Keys of `keys`, each taken by its identity.
pub open spec fn ids_of<K: Key>(keys: Seq<K>) -> Seq<K::Id> {
    Seq::new(keys.len(), |i: int| keys[i].id())
}

/// Values stored under keys, in the order in which the keys were first stored.
pub struct Table<K, V> {
    keys: Vec<K>,
    vals: Vec<V>,
}

impl<K: Key, V> Table<K, V> {
    /// Identities of the stored keys, in insertion order.
    pub closed spec fn ids(&self) -> Seq<K::Id> {
        ids_of(self.keys@)
    }

    /// Stored values; `values()[i]` belongs to `ids()[i]`.
    pub closed spec fn values(&self) -> Seq<V> {
        self.vals@
    }

    /// Well-formedness: every key has its value, and no key occurs twice.
    pub open spec fn wf(&self) -> bool {
        &&& self.ids().len() == self.values().len()
        &&& self.ids().no_duplicates()
    }

    /// Whether something is stored under `id`.
    pub open spec fn contains(&self, id: K::Id) -> bool {
        self.ids().contains(id)
    }

    /// Position of `id` among the entries (meaningful when it is stored).
    pub open spec fn position(&self, id: K::Id) -> int {
        self.ids().index_of(id)
    }

    /// The table as a map from key identity to value.
    pub open spec fn view(&self) -> Map<K::Id, V> {
        Map::new(|id: K::Id| self.ids().contains(id), |id: K::Id| self.values()[self.ids().index_of(id)])
    }

    /// How many entries there are.
    pub open spec fn spec_len(&self) -> nat {
        self.ids().len()
    }

    /// In a well-formed table the position of a stored key is the one index that holds it.
    pub proof fn lemma_position(&self, i: int)
        requires
            self.wf(),
            0 <= i < self.ids().len(),
        ensures
            self.contains(self.ids()[i]),
            self.position(self.ids()[i]) == i,
            self@.dom().contains(self.ids()[i]),
            self@[self.ids()[i]] == self.values()[i],
    {
        let id = self.ids()[i];
        assert(self.ids().contains(id));
        let j = self.ids().index_of(id);
        assert(0 <= j < self.ids().len() && self.ids()[j] == id);
        if j != i {
            assert(false);  // contradicts no_duplicates
        }
    }

    /// An empty table.
    pub fn new() -> (t: Self)
        ensures
            t.wf(),
            t.ids() == Seq::<K::Id>::empty(),
            t.values() == Seq::<V>::empty(),
            t@ == Map::<K::Id, V>::empty(),
    {
        let t = Table { keys: Vec::new(), vals: Vec::new() };
        assert(t.ids() =~= Seq::<K::Id>::empty());
        assert(t@ =~= Map::<K::Id, V>::empty());
        t
    }

    /// How many entries there are.
    pub fn len(&self) -> (n: usize)
        requires
            self.wf(),
        ensures
            n == self.ids().len(),
    {
        self.keys.len()
    }

    /// Index of the entry stored under `key`, if there is one.
    pub fn find(&self, key: &K) -> (r: Option<usize>)
        requires
            self.wf(),
        ensures
            r.is_some() == self.contains(key.id()),
            r matches Some(i) ==> i < self.ids().len() && self.ids()[i as int] == key.id() && i == self.position(
                key.id(),
            ),
    {
        let mut i: usize = 0;
        while i < self.keys.len()
            invariant
                self.wf(),
                i <= self.keys.len(),
                forall|j: int| 0 <= j < i ==> self.ids()[j] != key.id(),
            decreases self.keys.len() - i,
        {
            if self.keys[i].same(key) {
                proof {
                    self.lemma_position(i as int);
                }
                return Some(i);
            }
            i += 1;
        }
        None
    }

    /// Whether something is stored under `key`.
    pub fn contains_key(&self, key: &K) -> (r: bool)
        requires
            self.wf(),
        ensures
            r == self.contains(key.id()),
            r == self@.dom().contains(key.id()),
    {
        self.find(key).is_some()
    }

    /// What is stored under `key`.
    pub fn get(&self, key: &K) -> (r: Option<&V>)
        requires
            self.wf(),
        ensures
            r.is_some() == self@.dom().contains(key.id()),
            r matches Some(v) ==> *v == self@[key.id()],
    {
        match self.find(key) {
            Some(i) => Some(&self.vals[i]),
            None => None,
        }
    }

    /// Key of the `i`-th entry.
    pub fn key_at(&self, i: usize) -> (k: &K)
        requires
            self.wf(),
            i < self.ids().len(),
        ensures
            k.id() == self.ids()[i as int],
    {
        &self.keys[i]
    }

    /// Value of the `i`-th entry.
    pub fn value_at(&self, i: usize) -> (v: &V)
        requires
            self.wf(),
            i < self.ids().len(),
        ensures
            *v == self.values()[i as int],
            *v == self@[self.ids()[i as int]],
    {
        proof {
            self.lemma_position(i as int);
        }
        &self.vals[i]
    }

    /// Stores `value` under `key`, replacing what was stored there.
    pub fn insert(&mut self, key: &K, value: V)
        requires
            old(self).wf(),
        ensures
            final(self).wf(),
            final(self)@ == old(self)@.insert(key.id(), value),
            old(self).contains(key.id()) ==> final(self).ids() == old(self).ids() && final(self).values()
                == old(self).values().update(old(self).position(key.id()), value),
            !old(self).contains(key.id()) ==> final(self).ids() == old(self).ids().push(key.id())
                && final(self).values() == old(self).values().push(value),
    {
        let ghost before = *self;
        match self.find(key) {
            Some(i) => {
                self.vals.set(i, value);
                assert(self.ids() == before.ids());
                assert forall|id: K::Id| #[trigger] self@.dom().contains(id) implies self@[id]
                    == before@.insert(key.id(), value)[id] by {
                    let j = self.ids().index_of(id);
                    before.lemma_position(j);
                    if id == key.id() {
                    }
                }
                assert(self@ =~= before@.insert(key.id(), value));
            },
            None => {
                let k = key.dup();
                self.keys.push(k);
                self.vals.push(value);
                assert(self.ids() =~= before.ids().push(key.id()));
                assert forall|a: int, b: int| 0 <= a < b < self.ids().len() implies self.ids()[a]
                    != self.ids()[b] by {
                    if b == before.ids().len() {
                        assert(before.ids()[a] != key.id());
                    }
                }
                let ghost n = before.ids().len() as int;
                assert forall|id: K::Id| #[trigger]
                    self@.dom().contains(id) == before@.insert(key.id(), value).dom().contains(id) by {
                    if before.ids().contains(id) {
                        let j = before.ids().index_of(id);
                        assert(self.ids()[j] == id);
                    }
                    if id == key.id() {
                        assert(self.ids()[n] == id);
                    }
                    if self.ids().contains(id) {
                        let j = self.ids().index_of(id);
                        if j < n {
                            assert(before.ids()[j] == id);
                        }
                    }
                }
                assert forall|id: K::Id| #[trigger] self@.dom().contains(id) implies self@[id]
                    == before@.insert(key.id(), value)[id] by {
                    let j = self.ids().index_of(id);
                    self.lemma_position(j);
                    if j < n {
                        assert(before.ids()[j] == id);
                        before.lemma_position(j);
                    }
                }
                assert(self@ =~= before@.insert(key.id(), value));
            },
        }
    }

    /// Takes the entry stored under `key` out of the table.
    pub fn remove(&mut self, key: &K) -> (r: Option<V>)
        requires
            old(self).wf(),
        ensures
            final(self).wf(),
            final(self)@ == old(self)@.remove(key.id()),
            r.is_some() == old(self)@.dom().contains(key.id()),
            r matches Some(v) ==> v == old(self)@[key.id()] && final(self).ids() == old(self).ids().remove(
                old(self).position(key.id()),
            ) && final(self).values() == old(self).values().remove(old(self).position(key.id())),
            r.is_none() ==> final(self).ids() == old(self).ids() && final(self).values() == old(
                self,
            ).values(),
    {
        let ghost before = *self;
        match self.find(key) {
            Some(i) => {
                let _k = self.keys.remove(i);
                let v = self.vals.remove(i);
                assert(self.ids() =~= before.ids().remove(i as int));
                assert forall|a: int, b: int| 0 <= a < b < self.ids().len() implies self.ids()[a]
                    != self.ids()[b] by {
                    let a0 = if a < i { a } else { a + 1 };
                    let b0 = if b < i { b } else { b + 1 };
                    assert(before.ids()[a0] != before.ids()[b0]);
                }
                assert forall|id: K::Id| #[trigger]
                    self@.dom().contains(id) == before@.remove(key.id()).dom().contains(id) by {
                    if self.ids().contains(id) {
                        let j = self.ids().index_of(id);
                        let j0 = if j < i { j } else { j + 1 };
                        assert(before.ids()[j0] == id);
                        assert(id != key.id());
                    }
                    if before.ids().contains(id) && id != key.id() {
                        let j0 = before.ids().index_of(id);
                        let j = if j0 < i { j0 } else { j0 - 1 };
                        assert(self.ids()[j] == id);
                    }
                }
                assert forall|id: K::Id| #[trigger] self@.dom().contains(id) implies self@[id]
                    == before@.remove(key.id())[id] by {
                    let j = self.ids().index_of(id);
                    self.lemma_position(j);
                    let j0 = if j < i { j } else { j + 1 };
                    assert(before.ids()[j0] == id);
                    before.lemma_position(j0);
                }
                assert(self@ =~= before@.remove(key.id()));
                Some(v)
            },
            None => {
                assert(self@ =~= before@.remove(key.id()));
                None
            },
        }
    }
}

} // verus!
