//! The key-value store behind the game state, and the partition of its keys
//! into domains.

use crate::wire::{bytes_equal, bytes_to_vec};
use vstd::prelude::*;

verus! {

/// The logical domains that share one flat key-value store.
#[derive(Clone, Copy, Debug, PartialEq, Eq, Structural)]
pub enum KeySpace {
    /// Core metadata for the game state.
    Metadata,
    /// Map chunks, keyed by the chunk coordinate.
    MapchunkData,
    /// Plugin key-value storage.
    Plugin,
    /// Inventory storage.
    Inventory,
    /// Player data.
    Player,
    /// User metadata.
    UserMeta,
}

impl KeySpace {
    /// The tag byte of a domain: the characters 0, m, p, i, u and P stand for
    /// metadata, map chunks, plugins, inventories, user metadata and players.
    pub open spec fn spec_identifier(self) -> u8 {
        match self {
            KeySpace::Metadata => 0x30u8,
            KeySpace::MapchunkData => 0x6du8,
            KeySpace::Plugin => 0x70u8,
            KeySpace::Inventory => 0x69u8,
            KeySpace::UserMeta => 0x75u8,
            KeySpace::Player => 0x50u8,
        }
    }

    /// The key under which `key` is stored in this domain: the tag, then `key`.
    pub open spec fn spec_make_key(self, key: Seq<u8>) -> Seq<u8> {
        seq![self.spec_identifier()] + key
    }

    /// The tag byte of the domain.
    pub fn identifier(&self) -> (tag: u8)
        ensures
            tag == self.spec_identifier(),
    {
        match self {
            KeySpace::Metadata => 0x30u8,
            KeySpace::MapchunkData => 0x6du8,
            KeySpace::Plugin => 0x70u8,
            KeySpace::Inventory => 0x69u8,
            KeySpace::UserMeta => 0x75u8,
            KeySpace::Player => 0x50u8,
        }
    }

    /// The key under which `key` is stored in this domain.
    pub fn make_key(&self, key: &[u8]) -> (result: Vec<u8>)
        ensures
            result@ == self.spec_make_key(key@),
    {
        let mut result: Vec<u8> = Vec::new();
        result.push(self.identifier());
        result.extend_from_slice(key);
        result
    }
}

/// Two keys are equal only if they lie in the same domain and were made from
/// the same identifier: domains never collide, whatever the identifiers are.
pub proof fn lemma_key_spaces_are_disjoint(a: KeySpace, b: KeySpace, x: Seq<u8>, y: Seq<u8>)
    ensures
        a.spec_make_key(x) == b.spec_make_key(y) <==> a == b && x == y,
{
    if a.spec_make_key(x) == b.spec_make_key(y) {
        assert(a.spec_make_key(x)[0] == a.spec_identifier());
        assert(b.spec_make_key(y)[0] == b.spec_identifier());
        assert(a.spec_make_key(x).subrange(1, 1 + x.len() as int) =~= x);
        assert(b.spec_make_key(y).subrange(1, 1 + y.len() as int) =~= y);
        assert(a.spec_make_key(x).len() == 1 + x.len());
        assert(b.spec_make_key(y).len() == 1 + y.len());
    }
}

/// Advisory hint of how durable a store has to be. Stores are always in order.
#[derive(Clone, Copy, Debug, PartialEq, Eq, Structural)]
pub enum StoreDurability {
    /// This store can be buffered in memory, coalesced, etc.
    Low,
    /// This store should flush data to the database backend.
    High,
    /// This should force flushing data to disk.
    Maximum,
}

/// The store could not carry out an operation.
#[derive(Clone, Copy, Debug, PartialEq, Eq, Structural)]
pub struct StoreError;

/// A byte-oriented persistent store. It knows nothing of domains: keys are
/// made with [`KeySpace::make_key`].
///
/// A store says of itself whether it can be relied upon. One that can never
/// fails and holds what was put into it; of any other store nothing is known.
/// A store is taken as one that cannot be relied upon unless it says otherwise:
/// an implementation that overrides neither `reliable` nor `contents` is such
/// a store, and so is every store behind a shared handle or on a disk. Of the
/// operations that are built on such a store, only the clauses that do not
/// depend on `reliable` hold: which errors can come, that nothing is written
/// or published where the caller's own logic fails, and what is published
/// where they succeed. What the store holds afterwards is stated of the
/// stores that can be relied upon, such as [`InMemGameDabase`].
pub trait GameDatabase {
    /// What a store that can be relied upon holds: the latest value that was
    /// put under each key.
    open spec fn contents(&self) -> Map<Seq<u8>, Seq<u8>> {
        Map::empty()
    }

    /// Whether the store can be relied upon.
    open spec fn reliable(&self) -> bool {
        false
    }

    /// The latest value for a key, or None where nothing was put under it.
    fn get(&self, key: &[u8]) -> (result: Result<Option<Vec<u8>>, StoreError>)
        ensures
            self.reliable() ==> (result matches Ok(found) && match found {
                Some(value) => self.contents().contains_key(key@) && self.contents()[key@]
                    == value@,
                None => !self.contents().contains_key(key@),
            }),
    ;

    /// Puts a value under a key, in place of what was there.
    fn put(&mut self, key: &[u8], value: &[u8]) -> (result: Result<(), StoreError>)
        ensures
            final(self).reliable() == old(self).reliable(),
            old(self).reliable() ==> result is Ok && final(self).contents() == old(
                self,
            ).contents().insert(key@, value@),
    ;

    /// Asks the store to make buffered writes durable.
    fn flush(&mut self) -> (result: Result<(), StoreError>)
        ensures
            final(self).reliable() == old(self).reliable(),
            old(self).reliable() ==> result is Ok && final(self).contents() == old(self).contents(),
    ;
}

/// A store that lives in memory: sufficient for tests, and not persistent.
pub struct InMemGameDabase {
    data: Vec<(Vec<u8>, Vec<u8>)>,
}

/// Whether entry `i` is the first one of `entries` with the key `key`.
pub open spec fn is_first_entry(entries: Seq<(Vec<u8>, Vec<u8>)>, key: Seq<u8>, i: int) -> bool {
    &&& 0 <= i < entries.len()
    &&& entries[i].0@ == key
    &&& forall|j: int| 0 <= j < i ==> (#[trigger] entries[j]).0@ != key
}

/// The map that a list of entries stands for: under each key the value of
/// the first entry with that key.
pub open spec fn entries_map(entries: Seq<(Vec<u8>, Vec<u8>)>) -> Map<Seq<u8>, Seq<u8>> {
    Map::new(
        |key: Seq<u8>| exists|i: int| is_first_entry(entries, key, i),
        |key: Seq<u8>| entries[choose|i: int| is_first_entry(entries, key, i)].1@,
    )
}

/// Giving the first entry of a key another value puts that value under the key.
proof fn lemma_entry_updated(
    before: Seq<(Vec<u8>, Vec<u8>)>,
    after: Seq<(Vec<u8>, Vec<u8>)>,
    key: Seq<u8>,
    i: int,
    value: Seq<u8>,
)
    requires
        is_first_entry(before, key, i),
        after.len() == before.len(),
        after[i].0@ == key,
        after[i].1@ == value,
        forall|j: int| 0 <= j < before.len() && j != i ==> after[j] == before[j],
    ensures
        entries_map(after) == entries_map(before).insert(key, value),
{
    assert forall|k: Seq<u8>, j: int| is_first_entry(after, k, j) == is_first_entry(
        before,
        k,
        j,
    ) by {
        if 0 <= j < before.len() {
            assert(after[j].0@ == before[j].0@);
            if is_first_entry(after, k, j) {
                assert forall|m: int| 0 <= m < j implies (#[trigger] before[m]).0@ != k by {
                    assert(after[m].0@ == before[m].0@);
                }
            }
            if is_first_entry(before, k, j) {
                assert forall|m: int| 0 <= m < j implies (#[trigger] after[m]).0@ != k by {
                    assert(after[m].0@ == before[m].0@);
                }
            }
        }
    }
    assert forall|k: Seq<u8>| #[trigger]
        entries_map(after).contains_key(k) == entries_map(before).insert(
            key,
            value,
        ).contains_key(k) by {
        if k == key {
            assert(is_first_entry(after, key, i));
        }
    }
    assert forall|k: Seq<u8>| #[trigger] entries_map(after).contains_key(k) implies entries_map(
        after,
    )[k] == entries_map(before).insert(key, value)[k] by {
        let j = choose|j: int| is_first_entry(after, k, j);
        let j0 = choose|j: int| is_first_entry(before, k, j);
        assert(is_first_entry(before, k, j));
        assert(is_first_entry(before, k, j0));
        assert(j == j0) by {
            if j < j0 {
                assert(before[j].0@ == k);
            }
            if j0 < j {
                assert(before[j0].0@ == k);
            }
        }
        if k == key {
            assert(is_first_entry(before, key, i));
            assert(j == i) by {
                if j < i {
                    assert(before[j].0@ == k);
                }
                if i < j {
                    assert(before[i].0@ == k);
                }
            }
        } else {
            assert(j != i);
        }
    }
    assert(entries_map(after) =~= entries_map(before).insert(key, value));
}

/// Appending an entry whose key no entry has puts its value under that key.
proof fn lemma_entry_pushed(before: Seq<(Vec<u8>, Vec<u8>)>, entry: (Vec<u8>, Vec<u8>))
    requires
        forall|j: int| 0 <= j < before.len() ==> (#[trigger] before[j]).0@ != entry.0@,
    ensures
        entries_map(before.push(entry)) == entries_map(before).insert(entry.0@, entry.1@),
{
    let after = before.push(entry);
    let last = before.len() as int;
    assert(is_first_entry(after, entry.0@, last)) by {
        assert forall|m: int| 0 <= m < last implies (#[trigger] after[m]).0@ != entry.0@ by {
            assert(after[m] == before[m]);
        }
    }
    assert forall|k: Seq<u8>, j: int| k != entry.0@ implies is_first_entry(after, k, j)
        == is_first_entry(before, k, j) by {
        if is_first_entry(after, k, j) {
            assert(j != last);
            assert forall|m: int| 0 <= m < j implies (#[trigger] before[m]).0@ != k by {
                assert(after[m] == before[m]);
            }
            assert(after[j] == before[j]);
        }
        if is_first_entry(before, k, j) {
            assert(after[j] == before[j]);
            assert forall|m: int| 0 <= m < j implies (#[trigger] after[m]).0@ != k by {
                assert(after[m] == before[m]);
            }
        }
    }
    assert forall|k: Seq<u8>| #[trigger]
        entries_map(after).contains_key(k) == entries_map(before).insert(
            entry.0@,
            entry.1@,
        ).contains_key(k) by {
        if k != entry.0@ {
            if entries_map(after).contains_key(k) {
                let j = choose|j: int| is_first_entry(after, k, j);
                assert(is_first_entry(before, k, j));
            }
            if entries_map(before).contains_key(k) {
                let j = choose|j: int| is_first_entry(before, k, j);
                assert(is_first_entry(after, k, j));
            }
        }
    }
    assert forall|k: Seq<u8>| #[trigger] entries_map(after).contains_key(k) implies entries_map(
        after,
    )[k] == entries_map(before).insert(entry.0@, entry.1@)[k] by {
        let j = choose|j: int| is_first_entry(after, k, j);
        if k == entry.0@ {
            assert(j == last) by {
                if j < last {
                    assert(after[j] == before[j]);
                }
            }
        } else {
            assert(is_first_entry(before, k, j));
            let j0 = choose|j: int| is_first_entry(before, k, j);
            assert(j == j0) by {
                if j < j0 {
                    assert(before[j].0@ == k);
                }
                if j0 < j {
                    assert(before[j0].0@ == k);
                }
            }
            assert(after[j] == before[j]);
        }
    }
    assert(entries_map(after) =~= entries_map(before).insert(entry.0@, entry.1@));
}

impl InMemGameDabase {
    /// The entries of the store, in the order in which their keys were first put.
    pub closed spec fn entries(&self) -> Seq<(Vec<u8>, Vec<u8>)> {
        self.data@
    }

    /// A store that holds nothing.
    pub fn new() -> (db: InMemGameDabase)
        ensures
            db.contents() == Map::<Seq<u8>, Seq<u8>>::empty(),
    {
        let db = InMemGameDabase { data: Vec::new() };
        assert(db.contents() =~= Map::<Seq<u8>, Seq<u8>>::empty());
        db
    }

    /// The index of the entry with the given key.
    fn position(&self, key: &[u8]) -> (found: Option<usize>)
        ensures
            match found {
                Some(i) => is_first_entry(self.entries(), key@, i as int),
                None => forall|j: int| 0 <= j < self.entries().len() ==> (#[trigger] self.entries()[j]).0@ != key@,
            },
    {
        let mut i: usize = 0;
        while i < self.data.len()
            invariant
                i <= self.data.len(),
                forall|j: int| 0 <= j < i ==> (#[trigger] self.data@[j]).0@ != key@,
            decreases self.data.len() - i,
        {
            if bytes_equal(self.data[i].0.as_slice(), key) {
                return Some(i);
            }
            i = i + 1;
        }
        None
    }
}

impl GameDatabase for InMemGameDabase {
    open spec fn contents(&self) -> Map<Seq<u8>, Seq<u8>> {
        entries_map(self.entries())
    }

    open spec fn reliable(&self) -> bool {
        true
    }

    fn get(&self, key: &[u8]) -> (result: Result<Option<Vec<u8>>, StoreError>) {
        match self.position(key) {
            Some(i) => {
                let value = bytes_to_vec(self.data[i].1.as_slice());
                Ok(Some(value))
            },
            None => Ok(None),
        }
    }

    fn put(&mut self, key: &[u8], value: &[u8]) -> (result: Result<(), StoreError>) {
        let ghost before = self.entries();
        match self.position(key) {
            Some(i) => {
                self.data[i].1 = bytes_to_vec(value);
                proof {
                    lemma_entry_updated(before, self.entries(), key@, i as int, value@);
                }
            },
            None => {
                let entry = (bytes_to_vec(key), bytes_to_vec(value));
                self.data.push(entry);
                proof {
                    lemma_entry_pushed(before, entry);
                }
            },
        }
        Ok(())
    }

    fn flush(&mut self) -> (result: Result<(), StoreError>) {
        Ok(())
    }
}

} // verus!
