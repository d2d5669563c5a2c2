//! The contract every storage engine meets, and an engine that keeps its
//! entries in memory.

use crate::error::StorageError;
use crate::text::str_eq;
use vstd::slice::slice_to_vec;
use vstd::prelude::*;
use vstd::string::*;

verus! {

/// The unit of persistence: a key and the bytes stored under it. An engine
/// never looks into the value.
#[derive(Debug, Clone, PartialEq, Eq)]
pub struct StorageEntry {
    pub key: String,
    pub value: Vec<u8>,
}

impl View for StorageEntry {
    type V = (Seq<char>, Seq<u8>);

    open spec fn view(&self) -> (Seq<char>, Seq<u8>) {
        (self.key@, self.value@)
    }
}

/// The entries as plain pairs, in order.
pub open spec fn entry_views(entries: Seq<StorageEntry>) -> Seq<(Seq<char>, Seq<u8>)> {
    Seq::new(entries.len(), |i: int| entries[i]@)
}

/// The keys of `pairs`, in order.
pub open spec fn keys_of(pairs: Seq<(Seq<char>, Seq<u8>)>) -> Seq<Seq<char>> {
    Seq::new(pairs.len(), |i: int| pairs[i].0)
}

/// The map that storing `pairs` one after the other leaves: of two pairs
/// with one key the later stays.
pub open spec fn map_of(pairs: Seq<(Seq<char>, Seq<u8>)>) -> Map<Seq<char>, Seq<u8>>
    decreases pairs.len(),
{
    if pairs.len() == 0 {
        Map::empty()
    } else {
        map_of(pairs.drop_last()).insert(pairs.last().0, pairs.last().1)
    }
}

/// The contract of a storage engine: a map from keys to values that is
/// changed one entry at a time.
///
/// An engine whose medium can fail is not `reliable`; of a reliable and
/// initialized one every result is determined by its entries.
pub trait StorageBackend {
    /// The entries stored, by key. An engine of which nothing is proved
    /// leaves this as it is.
    open spec fn entries(&self) -> Map<Seq<char>, Seq<u8>> {
        Map::empty()
    }

    /// Whether the engine's structure has been created.
    open spec fn initialized(&self) -> bool {
        false
    }

    /// Whether the medium under the engine cannot fail.
    open spec fn reliable(&self) -> bool {
        false
    }

    /// Creates what the engine needs. Entries that exist stay as they are.
    fn initialize(&mut self) -> (r: Result<(), StorageError>)
        ensures
            final(self).entries() == old(self).entries(),
            final(self).reliable() == old(self).reliable(),
            match r {
                Ok(()) => final(self).initialized(),
                Err(e) => {
                    &&& e != StorageError::NotFound
                    &&& !old(self).reliable()
                    &&& final(self).initialized() == old(self).initialized()
                },
            },
    ;

    fn is_initialized(&self) -> (b: bool)
        ensures
            b == self.initialized(),
    ;

    /// The value stored under `key`.
    fn get(&self, key: &str) -> (r: Result<Vec<u8>, StorageError>)
        ensures
            match r {
                Ok(v) => self.entries().contains_key(key@) && self.entries()[key@] == v@,
                Err(e) => if e == StorageError::NotFound {
                    !self.entries().contains_key(key@)
                } else {
                    !(self.initialized() && self.reliable())
                },
            },
    ;

    /// Stores `value` under `key`, whether or not the key exists. The entry
    /// is stored whole or not at all.
    fn set(&mut self, key: &str, value: &[u8]) -> (r: Result<(), StorageError>)
        ensures
            final(self).initialized() == old(self).initialized(),
            final(self).reliable() == old(self).reliable(),
            match r {
                Ok(()) => final(self).entries() == old(self).entries().insert(key@, value@),
                Err(e) => {
                    &&& e != StorageError::NotFound
                    &&& !(old(self).initialized() && old(self).reliable())
                    &&& final(self).entries() == old(self).entries()
                },
            },
    ;

    /// Removes the entry under `key`; a key that is not stored is an error.
    fn remove(&mut self, key: &str) -> (r: Result<(), StorageError>)
        ensures
            final(self).initialized() == old(self).initialized(),
            final(self).reliable() == old(self).reliable(),
            match r {
                Ok(()) => {
                    &&& old(self).entries().contains_key(key@)
                    &&& final(self).entries() == old(self).entries().remove(key@)
                },
                Err(e) => {
                    &&& final(self).entries() == old(self).entries()
                    &&& if e == StorageError::NotFound {
                        !old(self).entries().contains_key(key@)
                    } else {
                        !(old(self).initialized() && old(self).reliable())
                    }
                },
            },
    ;

    /// All keys stored, each once, in no particular order.
    fn list_keys(&self) -> (r: Result<Vec<String>, StorageError>)
        ensures
            match r {
                Ok(keys) => {
                    &&& keys.deep_view().no_duplicates()
                    &&& forall|k: Seq<char>| #[trigger]
                        keys.deep_view().contains(k) <==> self.entries().contains_key(k)
                },
                Err(e) => e != StorageError::NotFound && !(self.initialized() && self.reliable()),
            },
    ;
}

/// A storage engine that keeps its entries in memory, in the order in which
/// their keys were first stored.
#[derive(Debug)]
pub struct MemoryBackend {
    entries: Vec<StorageEntry>,
    ready: bool,
}

impl MemoryBackend {
    #[verifier::type_invariant]
    spec fn keys_are_distinct(self) -> bool {
        self.pairs().len() == self.entries.len() && keys_of(self.pairs()).no_duplicates()
    }

    /// The entries as plain pairs, in the order kept.
    pub closed spec fn pairs(&self) -> Seq<(Seq<char>, Seq<u8>)> {
        entry_views(self.entries@)
    }

    /// An engine that holds nothing and is not initialized yet.
    pub fn new() -> (b: Self)
        ensures
            b.pairs().len() == 0,
            b.entries() == Map::<Seq<char>, Seq<u8>>::empty(),
            !b.initialized(),
    {
        MemoryBackend { entries: Vec::new(), ready: false }
    }

    /// The position of `key` among the entries.
    fn position(&self, key: &str) -> (r: Option<usize>)
        ensures
            match r {
                Some(i) => i < self.pairs().len() && self.pairs()[i as int].0 == key@,
                None => !keys_of(self.pairs()).contains(key@),
            },
    {
        let mut i: usize = 0;
        while i < self.entries.len()
            invariant
                i <= self.entries.len(),
                self.pairs().len() == self.entries.len(),
                forall|j: int| 0 <= j < i ==> (#[trigger] self.pairs()[j]).0 != key@,
            decreases self.entries.len() - i,
        {
            if str_eq(self.entries[i].key.as_str(), key) {
                return Some(i);
            }
            i += 1;
        }
        proof {
            let keys = keys_of(self.pairs());
            if keys.contains(key@) {
                let j = choose|j: int| 0 <= j < keys.len() && keys[j] == key@;
                assert(self.pairs()[j].0 == key@);
            }
        }
        None
    }
}

/// Where `keys` holds `k` at `i` and nothing twice, the map of the pairs has
/// under `k` the value of the pair at `i`.
pub proof fn lemma_map_of_distinct(pairs: Seq<(Seq<char>, Seq<u8>)>, i: int)
    requires
        0 <= i < pairs.len(),
        keys_of(pairs).no_duplicates(),
    ensures
        map_of(pairs).contains_key(pairs[i].0),
        map_of(pairs)[pairs[i].0] == pairs[i].1,
    decreases pairs.len(),
{
    let front = pairs.drop_last();
    if i < pairs.len() - 1 {
        assert(keys_of(front) =~= keys_of(pairs).drop_last());
        assert(keys_of(pairs)[i] != keys_of(pairs)[pairs.len() - 1]);
        lemma_map_of_distinct(front, i);
        assert(front[i] == pairs[i]);
    }
}

/// The map of some pairs holds exactly their keys.
pub proof fn lemma_map_of_dom(pairs: Seq<(Seq<char>, Seq<u8>)>)
    ensures
        forall|k: Seq<char>| #[trigger]
            map_of(pairs).contains_key(k) <==> keys_of(pairs).contains(k),
    decreases pairs.len(),
{
    if pairs.len() > 0 {
        let front = pairs.drop_last();
        lemma_map_of_dom(front);
        assert(keys_of(front) =~= keys_of(pairs).drop_last());
        assert forall|k: Seq<char>| #[trigger]
            map_of(pairs).contains_key(k) <==> keys_of(pairs).contains(k) by {
            let last = pairs.last().0;
            assert(map_of(pairs).contains_key(k) <==> (k == last || map_of(front).contains_key(k)));
            assert(map_of(front).contains_key(k) <==> keys_of(front).contains(k));
            if keys_of(pairs).contains(k) && k != last {
                let j = choose|j: int| 0 <= j < pairs.len() && keys_of(pairs)[j] == k;
                assert(keys_of(front)[j] == k);
                assert(keys_of(front).contains(k));
            }
            if keys_of(front).contains(k) {
                let j = choose|j: int| 0 <= j < front.len() && keys_of(front)[j] == k;
                assert(keys_of(pairs)[j] == k);
                assert(keys_of(pairs).contains(k));
            }
            if k == last {
                assert(keys_of(pairs)[pairs.len() - 1] == k);
                assert(keys_of(pairs).contains(k));
            }
        }
    }
}


/// Storing under a key that the pairs hold replaces the value there.
pub proof fn lemma_map_of_update(pairs: Seq<(Seq<char>, Seq<u8>)>, i: int, value: Seq<u8>)
    requires
        0 <= i < pairs.len(),
        keys_of(pairs).no_duplicates(),
    ensures
        keys_of(pairs.update(i, (pairs[i].0, value))) == keys_of(pairs),
        map_of(pairs.update(i, (pairs[i].0, value))) == map_of(pairs).insert(pairs[i].0, value),
{
    let key = pairs[i].0;
    let after = pairs.update(i, (key, value));
    assert(keys_of(after) =~= keys_of(pairs));
    lemma_map_of_dom(pairs);
    lemma_map_of_dom(after);
    lemma_map_of_distinct(pairs, i);
    lemma_map_of_distinct(after, i);
    assert forall|k: Seq<char>| #[trigger]
        map_of(after).contains_key(k) && k != key implies map_of(after)[k] == map_of(pairs)[k] by {
        let j = choose|j: int| 0 <= j < after.len() && keys_of(after)[j] == k;
        lemma_map_of_distinct(pairs, j);
        lemma_map_of_distinct(after, j);
    }
    assert(map_of(after) =~= map_of(pairs).insert(key, value));
}

/// Taking the pair at `i` out takes its key out of the map.
pub proof fn lemma_map_of_remove(pairs: Seq<(Seq<char>, Seq<u8>)>, i: int)
    requires
        0 <= i < pairs.len(),
        keys_of(pairs).no_duplicates(),
    ensures
        keys_of(pairs.remove(i)).no_duplicates(),
        map_of(pairs.remove(i)) == map_of(pairs).remove(pairs[i].0),
{
    let key = pairs[i].0;
    let after = pairs.remove(i);
    let keys = keys_of(pairs);
    assert(keys_of(after) =~= keys.remove(i));
    assert forall|a: int, b: int| 0 <= a < after.len() && 0 <= b < after.len() && a != b implies
        keys_of(after)[a] != keys_of(after)[b] by {
        let a0 = if a < i { a } else { a + 1 };
        let b0 = if b < i { b } else { b + 1 };
        assert(keys_of(after)[a] == keys[a0]);
        assert(keys_of(after)[b] == keys[b0]);
    }
    lemma_map_of_dom(pairs);
    lemma_map_of_dom(after);
    assert forall|k: Seq<char>| #[trigger]
        map_of(after).contains_key(k) <==> (map_of(pairs).contains_key(k) && k != key) by {
        if keys_of(after).contains(k) {
            let j = choose|j: int| 0 <= j < after.len() && keys_of(after)[j] == k;
            let j0 = if j < i { j } else { j + 1 };
            assert(keys[j0] == k);
            assert(keys[i] == key);
        }
        if keys.contains(k) && k != key {
            let j = choose|j: int| 0 <= j < pairs.len() && keys[j] == k;
            let j1 = if j < i { j } else { j - 1 };
            assert(keys_of(after)[j1] == k);
        }
    }
    assert forall|k: Seq<char>| #[trigger] map_of(after).contains_key(k) implies map_of(after)[k]
        == map_of(pairs)[k] by {
        let j = choose|j: int| 0 <= j < after.len() && keys_of(after)[j] == k;
        let j0 = if j < i { j } else { j + 1 };
        lemma_map_of_distinct(after, j);
        lemma_map_of_distinct(pairs, j0);
    }
    assert(map_of(after) =~= map_of(pairs).remove(key));
}

impl StorageBackend for MemoryBackend {
    closed spec fn entries(&self) -> Map<Seq<char>, Seq<u8>> {
        map_of(self.pairs())
    }

    closed spec fn initialized(&self) -> bool {
        self.ready
    }

    open spec fn reliable(&self) -> bool {
        true
    }

    fn initialize(&mut self) -> (r: Result<(), StorageError>)
        ensures
            r is Ok,
            final(self).pairs() == old(self).pairs(),
    {
        proof {
            use_type_invariant(&*self);
        }
        self.ready = true;
        Ok(())
    }

    fn is_initialized(&self) -> (b: bool) {
        self.ready
    }

    fn get(&self, key: &str) -> (r: Result<Vec<u8>, StorageError>)
        ensures
            !self.initialized() ==> r == Err::<Vec<u8>, StorageError>(
                StorageError::BackendUnavailable,
            ),
            self.initialized() ==> (r is Ok <==> self.entries().contains_key(key@)),
    {
        proof {
            use_type_invariant(self);
            lemma_map_of_dom(self.pairs());
        }
        if !self.ready {
            return Err(StorageError::BackendUnavailable);
        }
        match self.position(key) {
            Some(i) => {
                proof {
                    lemma_map_of_distinct(self.pairs(), i as int);
                }
                Ok(slice_to_vec(self.entries[i].value.as_slice()))
            },
            None => Err(StorageError::NotFound),
        }
    }

    fn set(&mut self, key: &str, value: &[u8]) -> (r: Result<(), StorageError>)
        ensures
            !old(self).initialized() ==> r == Err::<(), StorageError>(
                StorageError::BackendUnavailable,
            ) && final(self).pairs() == old(self).pairs(),
            old(self).initialized() ==> r is Ok,
            r is Ok ==> if old(self).entries().contains_key(key@) {
                exists|i: int|
                    0 <= i < old(self).pairs().len() && (#[trigger] old(self).pairs()[i]).0 == key@
                        && final(self).pairs() == old(self).pairs().update(i, (key@, value@))
            } else {
                final(self).pairs() == old(self).pairs().push((key@, value@))
            },
    {
        proof {
            use_type_invariant(&*self);
            lemma_map_of_dom(self.pairs());
        }
        if !self.ready {
            return Err(StorageError::BackendUnavailable);
        }
        let entry = StorageEntry { key: key.to_string(), value: slice_to_vec(value) };
        let found = self.position(key);
        let ghost before = self.pairs();
        let mut entries: Vec<StorageEntry> = Vec::new();
        proof {
            assert(entry_views(entries@) =~= Seq::<(Seq<char>, Seq<u8>)>::empty());
        }
        core::mem::swap(&mut self.entries, &mut entries);
        match found {
            Some(i) => {
                proof {
                    lemma_map_of_update(before, i as int, value@);
                    assert(entry_views(entries@.update(i as int, entry)) =~= before.update(
                        i as int,
                        (key@, value@),
                    ));
                }
                entries.set(i, entry);
                proof {
                    assert(entry_views(entries@) == before.update(i as int, (key@, value@)));
                    assert(keys_of(before)[i as int] == key@);
                }
            },
            None => {
                proof {
                    let after = before.push((key@, value@));
                    assert(entry_views(entries@.push(entry)) =~= after);
                    assert(after.drop_last() == before);
                    assert(keys_of(after) =~= keys_of(before).push(key@));
                }
                entries.push(entry);
                proof {
                    assert(entry_views(entries@) == before.push((key@, value@)));
                }
            },
        }
        self.entries = entries;
        Ok(())
    }

    fn remove(&mut self, key: &str) -> (r: Result<(), StorageError>)
        ensures
            !old(self).initialized() ==> r == Err::<(), StorageError>(
                StorageError::BackendUnavailable,
            ),
            old(self).initialized() ==> (r is Ok <==> old(self).entries().contains_key(key@)),
            r is Err ==> final(self).pairs() == old(self).pairs(),
            r is Ok ==> exists|i: int|
                0 <= i < old(self).pairs().len() && (#[trigger] old(self).pairs()[i]).0 == key@
                    && final(self).pairs() == old(self).pairs().remove(i),
    {
        proof {
            use_type_invariant(&*self);
            lemma_map_of_dom(self.pairs());
        }
        if !self.ready {
            return Err(StorageError::BackendUnavailable);
        }
        match self.position(key) {
            Some(i) => {
                let ghost before = self.pairs();
                let mut entries: Vec<StorageEntry> = Vec::new();
                proof {
                    assert(entry_views(entries@) =~= Seq::<(Seq<char>, Seq<u8>)>::empty());
                }
                core::mem::swap(&mut self.entries, &mut entries);
                proof {
                    lemma_map_of_remove(before, i as int);
                    lemma_map_of_distinct(before, i as int);
                    assert(entry_views(entries@.remove(i as int)) =~= before.remove(i as int));
                }
                entries.remove(i);
                self.entries = entries;
                Ok(())
            },
            None => Err(StorageError::NotFound),
        }
    }

    fn list_keys(&self) -> (r: Result<Vec<String>, StorageError>)
        ensures
            match r {
                Ok(keys) => self.initialized() && keys.deep_view() == keys_of(self.pairs()),
                Err(e) => !self.initialized() && e == StorageError::BackendUnavailable,
            },
    {
        proof {
            use_type_invariant(self);
            lemma_map_of_dom(self.pairs());
        }
        if !self.ready {
            return Err(StorageError::BackendUnavailable);
        }
        let mut keys: Vec<String> = Vec::new();
        let mut i: usize = 0;
        while i < self.entries.len()
            invariant
                i <= self.entries.len(),
                self.pairs().len() == self.entries.len(),
                keys.deep_view() == keys_of(self.pairs()).take(i as int),
            decreases self.entries.len() - i,
        {
            let ghost before = keys.deep_view();
            keys.push(self.entries[i].key.clone());
            proof {
                assert(keys.deep_view() =~= before.push(self.entries[i as int].key@));
                assert(keys_of(self.pairs()).take(i + 1) =~= keys_of(self.pairs()).take(
                    i as int,
                ).push(self.pairs()[i as int].0));
            }
            i += 1;
        }
        proof {
            assert(keys_of(self.pairs()).take(i as int) == keys_of(self.pairs()));
        }
        Ok(keys)
    }
}

} // verus!
