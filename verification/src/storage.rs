//! The object store behind the array API: one byte array per object key,
//! and the counter from which fresh object identifiers are drawn.
use vstd::prelude::*;
use std::collections::HashMap;
use crate::array::{grow_to, overwrite};
use crate::names::{max_object_id, max_parsed, name_bytes};
use crate::types::DaosObjId;

verus! {

broadcast use vstd::std_specs::hash::group_hash_axioms;

/// What an object holds after `data` is stored over `prev`: the store writes
/// in place from the first byte and does not truncate, so bytes of `prev`
/// past the end of `data` remain.
pub open spec fn written_over(prev: Seq<u8>, data: Seq<u8>) -> Seq<u8> {
    overwrite(grow_to(prev, data.len() as int), 0, data)
}

/// What the store holds under `key`, or nothing when it holds no such object.
pub open spec fn held_or_empty(objects: Map<u64, Seq<u8>>, key: u64) -> Seq<u8> {
    if objects.contains_key(key) { objects[key] } else { Seq::empty() }
}

/// The objects after `data` is stored under `key`.
pub open spec fn store_insert(objects: Map<u64, Seq<u8>>, key: u64, data: Seq<u8>) -> Map<u64, Seq<u8>> {
    objects.insert(key, written_over(held_or_empty(objects, key), data))
}

/// The identifier after `id` in the order in which identifiers are handed
/// out; it wraps around at the largest 64-bit value.
pub open spec fn successor(id: u64) -> u64 {
    if id == u64::MAX { 0 } else { (id + 1) as u64 }
}

/// An object store: the bytes of each object, by key, and the next object
/// identifier to hand out.
pub struct Storage {
    objects: HashMap<u64, Vec<u8>>,
    next_oid: u64,
}

impl View for Storage {
    type V = Map<u64, Seq<u8>>;

    /// The bytes of each object, by key.
    closed spec fn view(&self) -> Map<u64, Seq<u8>> {
        self.objects@.map_values(|v: Vec<u8>| v@)
    }
}

impl Storage {
    /// The low word of the next object identifier to be handed out.
    pub closed spec fn next_id(&self) -> u64 {
        self.next_oid
    }

    /// A store that holds no objects and hands out identifiers from one past
    /// the largest number among `names` (the names of objects already kept
    /// elsewhere), or from one when no name reads as a number.
    pub fn new(names: &Vec<String>) -> (s: Storage)
        requires
            max_parsed(name_bytes(names@)) < u64::MAX,
        ensures
            s@ == Map::<u64, Seq<u8>>::empty(),
            s.next_id() == max_parsed(name_bytes(names@)) + 1,
    {
        let max_id = max_object_id(names);
        let s = Storage { objects: HashMap::new(), next_oid: max_id + 1 };
        assert(s@ =~= Map::<u64, Seq<u8>>::empty());
        s
    }

    /// The bytes of the object, if the store holds it.
    pub fn get(&self, oid: &DaosObjId) -> (r: Option<Vec<u8>>)
        ensures
            match r {
                Some(v) => self@.contains_key(oid.lo) && v@ == self@[oid.lo],
                None => !self@.contains_key(oid.lo),
            },
    {
        match self.objects.get(&oid.lo) {
            Some(v) => {
                let mut copy: Vec<u8> = Vec::with_capacity(v.len());
                let mut i: usize = 0;
                while i < v.len()
                    invariant
                        i <= v@.len(),
                        copy@ == v@.take(i as int),
                    decreases v.len() - i,
                {
                    copy.push(v[i]);
                    i = i + 1;
                    assert(copy@ =~= v@.take(i as int));
                }
                assert(v@.take(i as int) =~= v@);
                Some(copy)
            },
            None => None,
        }
    }

    /// Whether the store holds the object.
    pub fn contains(&self, oid: &DaosObjId) -> (r: bool)
        ensures
            r == self@.contains_key(oid.lo),
    {
        self.objects.contains_key(&oid.lo)
    }

    /// Stores `data` as the object's bytes, written in place from the first
    /// byte over what the object held: when the object held more bytes than
    /// `data`, those past its end remain.
    pub fn insert(&mut self, oid: DaosObjId, data: Vec<u8>)
        ensures
            final(self)@ == store_insert(old(self)@, oid.lo, data@),
            final(self).next_id() == old(self).next_id(),
    {
        let mut data = data;
        let ghost given = data@;
        match self.objects.get(&oid.lo) {
            Some(prev) => {
                if data.len() < prev.len() {
                    let mut i: usize = data.len();
                    assert(data@ =~= given + prev@.subrange(given.len() as int, i as int));
                    while i < prev.len()
                        invariant
                            given.len() <= i <= prev@.len(),
                            data@ == given + prev@.subrange(given.len() as int, i as int),
                        decreases prev.len() - i,
                    {
                        data.push(prev[i]);
                        i = i + 1;
                        assert(data@ =~= given + prev@.subrange(given.len() as int, i as int));
                    }
                }
                assert(data@ =~= written_over(prev@, given));
            },
            None => {
                assert(data@ =~= written_over(Seq::empty(), given));
            },
        }
        self.objects.insert(oid.lo, data);
        assert(self@ =~= store_insert(old(self)@, oid.lo, given));
    }

    /// Removes the object from the store, if it holds it.
    pub fn remove(&mut self, oid: &DaosObjId)
        ensures
            final(self)@ == old(self)@.remove(oid.lo),
            final(self).next_id() == old(self).next_id(),
    {
        self.objects.remove(&oid.lo);
        assert(self@ =~= old(self)@.remove(oid.lo));
    }

    /// Hands out the next object identifier's low word and advances the counter.
    pub fn take_next_oid(&mut self) -> (id: u64)
        ensures
            id == old(self).next_id(),
            final(self).next_id() == successor(old(self).next_id()),
            final(self)@ == old(self)@,
    {
        let id = self.next_oid;
        self.next_oid = if id == u64::MAX { 0 } else { id + 1 };
        id
    }
}

} // verus!
