//! A map from paths to values that remembers the order of insertion.
//!
//! The items stand in a list, in the order of insertion. An index from a
//! hash of the bytes of each path to the places of the paths with that hash
//! finds an item without a walk through the list.
//!
//! The map of the standard library is specified for keys that are integers,
//! and not for keys that are strings: of a map keyed by `String` nothing
//! could be proved, not even that it holds a key that was inserted. So the
//! index is keyed by an integer, and the paths themselves are compared byte
//! by byte.

use crate::pak::path::bytes_eq;
use std::collections::HashMap;
use vstd::prelude::*;
use vstd::string::StringSliceAdditionalSpecFns;
use vstd::utf8::{encode_utf8, encode_utf8_valid_utf8, valid_utf8};

verus! {

/// No two items of the listing have the same key.
pub open spec fn distinct_keys<T>(listing: Seq<(Seq<u8>, T)>) -> bool {
    forall|i: int, j: int|
        0 <= i < j < listing.len() ==> (#[trigger] listing[i]).0 != (#[trigger] listing[j]).0
}

/// The listing holds an item under `key`.
pub open spec fn listed<T>(listing: Seq<(Seq<u8>, T)>, key: Seq<u8>) -> bool {
    exists|i: int| 0 <= i < listing.len() && (#[trigger] listing[i]).0 == key
}

/// An index at which the listing holds an item under `key`.
pub open spec fn index_of<T>(listing: Seq<(Seq<u8>, T)>, key: Seq<u8>) -> int {
    choose|i: int| 0 <= i < listing.len() && (#[trigger] listing[i]).0 == key
}

/// The map that a listing with distinct keys stands for.
pub open spec fn as_map<T>(listing: Seq<(Seq<u8>, T)>) -> Map<Seq<u8>, T> {
    Map::new(|key: Seq<u8>| listed(listing, key), |key: Seq<u8>| listing[index_of(listing, key)].1)
}

/// In a listing with distinct keys, the item at `i` is the one that the map
/// holds under its key.
pub proof fn lemma_as_map_at<T>(listing: Seq<(Seq<u8>, T)>, i: int)
    requires
        distinct_keys(listing),
        0 <= i < listing.len(),
    ensures
        as_map(listing).contains_key(listing[i].0),
        as_map(listing)[listing[i].0] == listing[i].1,
        index_of(listing, listing[i].0) == i,
{
    let key = listing[i].0;
    assert(listed(listing, key));
    let j = index_of(listing, key);
    if j < i {
        assert(listing[j].0 != listing[i].0);
    } else if i < j {
        assert(listing[i].0 != listing[j].0);
    }
}

/// Appending an item under a new key inserts it into the map.
pub proof fn lemma_as_map_push<T>(listing: Seq<(Seq<u8>, T)>, key: Seq<u8>, value: T)
    requires
        distinct_keys(listing),
        !listed(listing, key),
    ensures
        distinct_keys(listing.push((key, value))),
        as_map(listing.push((key, value))) == as_map(listing).insert(key, value),
{
    let longer = listing.push((key, value));
    assert forall|i: int, j: int| 0 <= i < j < longer.len() implies (#[trigger] longer[i]).0 != (
    #[trigger] longer[j]).0 by {
        if j < listing.len() {
            assert(listing[i].0 != listing[j].0);
        } else {
            assert(longer[i] == listing[i]);
        }
    }
    assert forall|k: Seq<u8>| listed(longer, k) <==> (k == key || listed(listing, k)) by {
        if listed(longer, k) {
            let i = index_of(longer, k);
            if i < listing.len() {
                assert(listing[i].0 == k);
            }
        }
        if k == key {
            assert(longer[listing.len() as int].0 == k);
        }
        if listed(listing, k) {
            let i = index_of(listing, k);
            assert(longer[i].0 == k);
        }
    }
    assert forall|k: Seq<u8>| listed(longer, k) implies #[trigger] as_map(longer)[k] == as_map(
        listing,
    ).insert(key, value)[k] by {
        let i = index_of(longer, k);
        lemma_as_map_at(longer, i);
        if i < listing.len() {
            assert(listing[i] == longer[i]);
            lemma_as_map_at(listing, i);
        }
    }
    assert(as_map(longer) =~= as_map(listing).insert(key, value));
}

/// Replacing the value of an item replaces it in the map.
pub proof fn lemma_as_map_update<T>(listing: Seq<(Seq<u8>, T)>, i: int, value: T)
    requires
        distinct_keys(listing),
        0 <= i < listing.len(),
    ensures
        distinct_keys(listing.update(i, (listing[i].0, value))),
        as_map(listing.update(i, (listing[i].0, value))) == as_map(listing).insert(
            listing[i].0,
            value,
        ),
{
    let key = listing[i].0;
    let changed = listing.update(i, (key, value));
    assert forall|a: int, b: int| 0 <= a < b < changed.len() implies (#[trigger] changed[a]).0 != (
    #[trigger] changed[b]).0 by {
        assert(listing[a].0 != listing[b].0);
    }
    assert forall|k: Seq<u8>| listed(changed, k) <==> listed(listing, k) by {
        if listed(changed, k) {
            let a = index_of(changed, k);
            assert(listing[a].0 == k);
        }
        if listed(listing, k) {
            let a = index_of(listing, k);
            assert(changed[a].0 == k);
        }
    }
    assert(listed(listing, key));
    assert forall|k: Seq<u8>| listed(changed, k) implies #[trigger] as_map(changed)[k] == as_map(
        listing,
    ).insert(key, value)[k] by {
        let a = index_of(changed, k);
        lemma_as_map_at(changed, a);
        if a != i {
            assert(listing[a] == changed[a]);
            lemma_as_map_at(listing, a);
            assert(listing[a].0 != listing[i].0) by {
                if a < i {
                    assert(listing[a].0 != listing[i].0);
                } else {
                    assert(listing[i].0 != listing[a].0);
                }
            }
        }
    }
    assert(as_map(changed) =~= as_map(listing).insert(key, value));
}

/// The hash of a run of bytes and one more byte, from the hash of the run.
pub open spec fn hash_step(hash: u64, byte: u8) -> u64 {
    ((hash * 0x100_0000_01B3 + byte + 1) % 0x1_0000_0000_0000_0000) as u64
}

/// The hash of the bytes of a path.
pub open spec fn path_hash(bytes: Seq<u8>) -> u64
    decreases bytes.len(),
{
    if bytes.len() == 0 {
        0xCBF2_9CE4_8422_2325
    } else {
        hash_step(path_hash(bytes.drop_last()), bytes.last())
    }
}

/// The hash of the bytes of a path.
pub fn hash_bytes(bytes: &[u8]) -> (hash: u64)
    ensures
        hash == path_hash(bytes@),
{
    let mut hash: u64 = 0xCBF2_9CE4_8422_2325;
    let mut i: usize = 0;
    while i < bytes.len()
        invariant
            i <= bytes@.len(),
            hash == path_hash(bytes@.subrange(0, i as int)),
        decreases bytes@.len() - i,
    {
        assert(hash * 0x100_0000_01B3 <= 0xFFFF_FFFF_FFFF_FFFF * 0x100_0000_01B3) by (
            nonlinear_arith)
            requires
                hash <= 0xFFFF_FFFF_FFFF_FFFF,
        ;
        let wide: u128 = hash as u128 * 0x100_0000_01B3u128 + bytes[i] as u128 + 1u128;
        proof {
            let next = bytes@.subrange(0, i + 1);
            assert(next.drop_last() =~= bytes@.subrange(0, i as int));
            assert(next.last() == bytes@[i as int]);
        }
        hash = (wide % 0x1_0000_0000_0000_0000u128) as u64;
        i = i + 1;
    }
    assert(bytes@.subrange(0, i as int) =~= bytes@);
    hash
}

/// The index holds the place `i` under the hash.
pub open spec fn indexed(index: Map<u64, Vec<usize>>, hash: u64, i: int) -> bool {
    index.contains_key(hash) && exists|j: int|
        0 <= j < index[hash]@.len() && #[trigger] index[hash]@[j] == i
}

/// A map keyed by paths. It lists its items in the order in which their
/// paths were first inserted; paths are told apart by their UTF-8 bytes.
#[derive(Debug)]
pub struct PathMap<V> {
    names: Vec<String>,
    values: Vec<V>,
    index: HashMap<u64, Vec<usize>>,
}

impl<V: View> View for PathMap<V> {
    type V = Map<Seq<u8>, V::V>;

    /// The map from the bytes of each path to the view of its value.
    open spec fn view(&self) -> Map<Seq<u8>, V::V> {
        as_map(self.listing())
    }
}

impl<V> PathMap<V> {
    #[verifier::type_invariant]
    closed spec fn inv(self) -> bool {
        &&& self.names.len() == self.values.len()
        &&& forall|i: int, j: int|
            0 <= i < j < self.names.len() ==> encode_utf8(self.names[i]@) != encode_utf8(
                self.names[j]@,
            )
        &&& forall|i: int|
            0 <= i < self.names.len() ==> indexed(
                self.index@,
                #[trigger] path_hash(encode_utf8(self.names[i]@)),
                i,
            )
        &&& forall|hash: u64, j: int|
            self.index@.contains_key(hash) && 0 <= j < self.index@[hash]@.len() ==> (
            #[trigger] self.index@[hash]@[j]) < self.names.len()
    }
}

impl<V: View> PathMap<V> {
    /// The items in order of insertion: the bytes of each path, and the view
    /// of its value.
    pub closed spec fn listing(&self) -> Seq<(Seq<u8>, V::V)> {
        Seq::new(
            self.names.len() as nat,
            |i: int| (encode_utf8(self.names[i]@), self.values[i]@),
        )
    }

    proof fn lemma_distinct(self)
        requires
            self.inv(),
        ensures
            distinct_keys(self.listing()),
    {
        assert forall|i: int, j: int| 0 <= i < j < self.listing().len() implies (
        #[trigger] self.listing()[i]).0 != (#[trigger] self.listing()[j]).0 by {
            assert(encode_utf8(self.names[i]@) != encode_utf8(self.names[j]@));
        }
    }

    /// Every key of the listing is valid UTF-8.
    pub proof fn lemma_keys_valid(self)
        ensures
            forall|i: int|
                0 <= i < self.listing().len() ==> valid_utf8((#[trigger] self.listing()[i]).0),
    {
        assert forall|i: int| 0 <= i < self.listing().len() implies valid_utf8(
            (#[trigger] self.listing()[i]).0,
        ) by {
            encode_utf8_valid_utf8(self.names[i]@);
        }
    }

    /// A map without items.
    pub fn new() -> (map: Self)
        ensures
            map.listing() == Seq::<(Seq<u8>, V::V)>::empty(),
            map@ == Map::<Seq<u8>, V::V>::empty(),
    {
        let map = PathMap { names: Vec::new(), values: Vec::new(), index: HashMap::new() };
        assert(map.listing() =~= Seq::<(Seq<u8>, V::V)>::empty());
        assert(map@ =~= Map::<Seq<u8>, V::V>::empty());
        map
    }

    /// Number of items.
    pub fn len(&self) -> (n: usize)
        ensures
            n == self.listing().len(),
            distinct_keys(self.listing()),
    {
        proof {
            use_type_invariant(self);
            self.lemma_distinct();
        }
        self.names.len()
    }

    /// Whether the map holds no item.
    pub fn is_empty(&self) -> (b: bool)
        ensures
            b == (self.listing().len() == 0),
    {
        self.names.len() == 0
    }

    /// The path of the item at `index` of the listing.
    pub fn path(&self, index: usize) -> (path: &str)
        requires
            index < self.listing().len(),
        ensures
            encode_utf8(path@) == self.listing()[index as int].0,
    {
        self.names[index].as_str()
    }

    /// The value of the item at `index` of the listing.
    pub fn value(&self, index: usize) -> (value: &V)
        requires
            index < self.listing().len(),
        ensures
            value@ == self.listing()[index as int].1,
    {
        proof {
            use_type_invariant(self);
        }
        &self.values[index]
    }

    /// Index in the listing of the item under `path`.
    pub fn position(&self, path: &str) -> (r: Option<usize>)
        ensures
            distinct_keys(self.listing()),
            match r {
                Some(i) => i < self.listing().len() && self.listing()[i as int].0 == encode_utf8(
                    path@,
                ),
                None => !listed(self.listing(), encode_utf8(path@)),
            },
    {
        proof {
            use_type_invariant(self);
            self.lemma_distinct();
        }
        let wanted = path.as_bytes();
        let hash = hash_bytes(wanted);
        let bucket = match self.index.get(&hash) {
            Some(bucket) => bucket,
            None => {
                assert(!listed(self.listing(), wanted@)) by {
                    if listed(self.listing(), wanted@) {
                        let k = index_of(self.listing(), wanted@);
                        assert(indexed(self.index@, path_hash(encode_utf8(self.names[k]@)), k));
                    }
                }
                return None;
            },
        };
        let mut j: usize = 0;
        while j < bucket.len()
            invariant
                j <= bucket@.len(),
                wanted@ == encode_utf8(path@),
                hash == path_hash(wanted@),
                self.index@.contains_key(hash),
                bucket@ == self.index@[hash]@,
                self.inv(),
                distinct_keys(self.listing()),
                forall|k: int|
                    0 <= k < j ==> encode_utf8(self.names[bucket@[k] as int]@) != wanted@,
            decreases bucket@.len() - j,
        {
            let i = bucket[j];
            assert(self.index@[hash]@[j as int] < self.names.len());
            if bytes_eq(self.names[i].as_str().as_bytes(), wanted) {
                return Some(i);
            }
            j = j + 1;
        }
        assert(!listed(self.listing(), wanted@)) by {
            if listed(self.listing(), wanted@) {
                let k = index_of(self.listing(), wanted@);
                assert(indexed(self.index@, path_hash(encode_utf8(self.names[k]@)), k));
                let at = choose|at: int|
                    0 <= at < self.index@[hash]@.len() && #[trigger] self.index@[hash]@[at] == k;
                assert(encode_utf8(self.names[bucket@[at] as int]@) != wanted@);
            }
        }
        None
    }

    /// The value under `path`.
    pub fn get(&self, path: &str) -> (r: Option<&V>)
        ensures
            match r {
                Some(value) => self@.contains_key(encode_utf8(path@)) && value@
                    == self@[encode_utf8(path@)],
                None => !self@.contains_key(encode_utf8(path@)),
            },
    {
        match self.position(path) {
            Some(i) => {
                proof {
                    lemma_as_map_at(self.listing(), i as int);
                }
                Some(self.value(i))
            },
            None => None,
        }
    }

    /// Whether the map holds a value under `path`.
    pub fn contains_key(&self, path: &str) -> (b: bool)
        ensures
            b == self@.contains_key(encode_utf8(path@)),
    {
        self.position(path).is_some()
    }

    /// Puts `value` under `path`. A path that the map holds already keeps
    /// its place in the listing and has its value replaced; a new path goes
    /// to the end of the listing.
    pub fn insert(&mut self, path: String, value: V)
        ensures
            final(self)@ == old(self)@.insert(encode_utf8(path@), value@),
            distinct_keys(final(self).listing()),
            match index_in(old(self).listing(), encode_utf8(path@)) {
                Some(i) => final(self).listing() == old(self).listing().update(
                    i,
                    (encode_utf8(path@), value@),
                ),
                None => final(self).listing() == old(self).listing().push(
                    (encode_utf8(path@), value@),
                ),
            },
    {
        let ghost before = self.listing();
        let ghost key = encode_utf8(path@);
        let found = self.position(path.as_str());
        proof {
            use_type_invariant(&*self);
            self.lemma_distinct();
        }
        let mut taken = PathMap { names: Vec::new(), values: Vec::new(), index: HashMap::new() };
        core::mem::swap(self, &mut taken);
        let PathMap { mut names, mut values, mut index } = taken;
        match found {
            Some(i) => {
                proof {
                    lemma_as_map_update(before, i as int, value@);
                    lemma_as_map_at(before, i as int);
                }
                values.set(i, value);
                *self = PathMap { names, values, index };
                assert(self.listing() =~= before.update(i as int, (key, value@)));
            },
            None => {
                proof {
                    lemma_as_map_push(before, key, value@);
                }
                let ghost old_names = names@;
                let ghost old_index = index@;
                let place = names.len();
                let hash = hash_bytes(path.as_str().as_bytes());
                names.push(path);
                values.push(value);
                let mut bucket = match index.remove(&hash) {
                    Some(bucket) => bucket,
                    None => Vec::new(),
                };
                let ghost old_bucket = bucket@;
                bucket.push(place);
                index.insert(hash, bucket);
                assert forall|a: int, b: int| 0 <= a < b < names.len() implies encode_utf8(
                    names[a]@,
                ) != encode_utf8(names[b]@) by {
                    if b < names.len() - 1 {
                        assert(before[a].0 != before[b].0);
                    } else {
                        assert(before[a].0 == encode_utf8(names[a]@));
                    }
                }
                assert forall|i: int| 0 <= i < names.len() implies indexed(
                    index@,
                    #[trigger] path_hash(encode_utf8(names[i]@)),
                    i,
                ) by {
                    let h = path_hash(encode_utf8(names[i]@));
                    if i < place {
                        assert(names[i] == old_names[i]);
                        assert(indexed(old_index, path_hash(encode_utf8(old_names[i]@)), i));
                        let at = choose|at: int|
                            0 <= at < old_index[h]@.len() && #[trigger] old_index[h]@[at] == i;
                        if h == hash {
                            assert(old_bucket == old_index[h]@);
                            assert(index@[h]@[at] == i);
                        } else {
                            assert(index@[h]@[at] == i);
                        }
                    } else {
                        assert(index@[h]@[old_bucket.len() as int] == i);
                    }
                }
                assert forall|h: u64, j: int|
                    index@.contains_key(h) && 0 <= j < index@[h]@.len() implies (
                #[trigger] index@[h]@[j]) < names.len() by {
                    if h == hash {
                        if j < old_bucket.len() {
                            assert(old_index.contains_key(h));
                            assert(old_index[h]@[j] < old_names.len());
                        }
                    } else {
                        assert(old_index.contains_key(h));
                        assert(old_index[h]@[j] < old_names.len());
                    }
                }
                *self = PathMap { names, values, index };
                assert(self.listing() =~= before.push((key, value@)));
            },
        }
    }
}

/// The index at which the listing holds an item under `key`, where it holds
/// one.
pub open spec fn index_in<T>(listing: Seq<(Seq<u8>, T)>, key: Seq<u8>) -> Option<int> {
    if listed(listing, key) {
        Some(index_of(listing, key))
    } else {
        None
    }
}

} // verus!
