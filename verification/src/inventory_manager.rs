//! The component that keeps inventories in the store and changes them atomically.

use crate::database::GameDatabase;
use crate::inventory::{
    lemma_changed_record_keeps_its_shape, lemma_db_keys_are_injective,
    lemma_record_is_well_formed,
    record_is_inventory, record_with_slots, Inventory, InventoryError, InventoryKey,
    InventoryShape,
};
use crate::protocol::{InventoryRecordView, ItemStackView};
use vstd::prelude::*;

verus! {

/// The sending half of a broadcast channel of tokio.
#[verifier::external_type_specification]
#[verifier::external_body]
#[verifier::reject_recursive_types(T)]
pub struct ExSender<T>(tokio::sync::broadcast::Sender<T>);

/// The receiving half of a broadcast channel of tokio.
#[verifier::external_type_specification]
#[verifier::external_body]
#[verifier::reject_recursive_types(T)]
pub struct ExReceiver<T>(tokio::sync::broadcast::Receiver<T>);

/// How many notifications the channel retains for a subscriber that lags.
pub const BROADCAST_CHANNEL_SIZE: usize = 32;

/// Opens a broadcast channel that retains `capacity` values, and returns its
/// sending half.
///
/// Calls `tokio::sync::broadcast::channel`, which panics where the capacity is
/// zero or above half of the largest `usize`, and drops the receiver that
/// comes with the channel.
#[verifier::external_body]
fn open_channel(capacity: usize) -> (sender: tokio::sync::broadcast::Sender<InventoryKey>)
    requires
        0 < capacity <= usize::MAX / 2,
{
    let (sender, _) = tokio::sync::broadcast::channel(capacity);
    sender
}

/// Hands a key to every current subscriber of the channel.
///
/// Calls `tokio::sync::broadcast::Sender::send`. It never blocks: a
/// subscriber that lags loses the oldest values. Whether anyone receives the
/// key depends on who is subscribed, so nothing is promised.
#[verifier::external_body]
fn send_update(sender: &tokio::sync::broadcast::Sender<InventoryKey>, key: InventoryKey) {
    let _ = sender.send(key);
}

/// A new subscriber of the channel. It receives what is sent from now on.
///
/// Calls `tokio::sync::broadcast::Sender::subscribe`. What the subscriber
/// will receive depends on what is sent later and on how fast it reads, so
/// nothing is promised of it. The call panics once the channel has a quarter
/// of the largest `usize` of subscribers, which do not fit into memory.
#[verifier::external_body]
fn subscribe_to(sender: &tokio::sync::broadcast::Sender<InventoryKey>) -> (receiver:
    tokio::sync::broadcast::Receiver<InventoryKey>) {
    sender.subscribe()
}

/// What the store holds under the key of an inventory.
pub enum StoredInventory {
    /// Nothing.
    Absent,
    /// Bytes that do not hold an inventory.
    Corrupt,
    /// The record of an inventory.
    Record(InventoryRecordView),
}

/// What a store with the given contents holds under the key of an inventory.
pub open spec fn stored_inventory(contents: Map<Seq<u8>, Seq<u8>>, key: InventoryKey) -> StoredInventory {
    if !contents.contains_key(key.spec_db_key()) {
        StoredInventory::Absent
    } else {
        match InventoryRecordView::parse(contents[key.spec_db_key()]) {
            Some(record) => if record_is_inventory(record) {
                StoredInventory::Record(record)
            } else {
                StoredInventory::Corrupt
            },
            None => StoredInventory::Corrupt,
        }
    }
}

/// The record of an inventory of the given dimensions with all slots empty.
pub open spec fn empty_record(height: u32, width: u32) -> InventoryRecordView {
    InventoryRecordView {
        height,
        width,
        contents: Seq::new((height * width) as nat, |i: int| ItemStackView::empty()),
    }
}

/// The contents of a store after the first `n` of the given inventories were
/// put into it, in order, each under its own key.
pub open spec fn persisted(contents: Map<Seq<u8>, Seq<u8>>, inventories: Seq<Inventory>, n: int) -> Map<
    Seq<u8>,
    Seq<u8>,
>
    decreases n,
{
    if n <= 0 || n > inventories.len() {
        contents
    } else {
        persisted(contents, inventories, n - 1).insert(
            inventories[n - 1].spec_key().spec_db_key(),
            inventories[n - 1].spec_to_proto().encoding(),
        )
    }
}

/// The keys of the first `n` of the given inventories, in order.
pub open spec fn keys_of(inventories: Seq<Inventory>, n: int) -> Seq<InventoryKey> {
    Seq::new(
        if 0 <= n <= inventories.len() {
            n as nat
        } else {
            0
        },
        |i: int| inventories[i].spec_key(),
    )
}

/// Whether `inventories` are what a store with the given contents holds
/// under `keys`, one for one.
pub open spec fn all_loaded(
    contents: Map<Seq<u8>, Seq<u8>>,
    keys: Seq<InventoryKey>,
    inventories: Seq<Inventory>,
) -> bool {
    &&& inventories.len() == keys.len()
    &&& forall|i: int|
        0 <= i < keys.len() ==> (#[trigger] stored_inventory(contents, keys[i])
            matches StoredInventory::Record(record) && inventories[i].is_from_proto(
            record,
            keys[i],
        ) && inventories[i].wf())
}

/// Whether the inventory that `before` holds under `key`, if it holds one,
/// is held by `after` too, with the same dimensions and as many slots.
pub open spec fn keeps_shape(
    before: Map<Seq<u8>, Seq<u8>>,
    after: Map<Seq<u8>, Seq<u8>>,
    key: InventoryKey,
) -> bool {
    stored_inventory(before, key) matches StoredInventory::Record(record) ==> (stored_inventory(
        after,
        key,
    ) matches StoredInventory::Record(written) && written.height == record.height && written.width
        == record.width && written.contents.len() == record.contents.len())
}

/// Whether the inventories have the given shapes, one for one.
pub open spec fn have_shapes(inventories: Seq<Inventory>, shapes: Seq<InventoryShape>) -> bool {
    &&& inventories.len() == shapes.len()
    &&& forall|i: int|
        0 <= i < inventories.len() ==> (#[trigger] inventories[i]).spec_has_shape(shapes[i])
}

/// Whether there are as many inventories after as before and each has kept
/// its key, its dimensions and its number of slots.
pub open spec fn same_shapes(after: Seq<Inventory>, before: Seq<Inventory>) -> bool {
    &&& after.len() == before.len()
    &&& forall|i: int| 0 <= i < after.len() ==> (#[trigger] after[i]).same_shape_as(&before[i])
}

/// Whether key `i` is the first of `keys` under which a store with the given
/// contents holds no inventory.
pub open spec fn is_first_unloadable(
    contents: Map<Seq<u8>, Seq<u8>>,
    keys: Seq<InventoryKey>,
    i: int,
) -> bool {
    &&& 0 <= i < keys.len()
    &&& !(stored_inventory(contents, keys[i]) is Record)
    &&& forall|j: int| 0 <= j < i ==> (#[trigger] stored_inventory(contents, keys[j])) is Record
}

/// What was written for an inventory is what the store then holds for it:
/// reading gives the record that was written.
pub proof fn lemma_written_record_is_stored(
    contents: Map<Seq<u8>, Seq<u8>>,
    key: InventoryKey,
    record: InventoryRecordView,
)
    requires
        record.encodable(),
        record_is_inventory(record),
    ensures
        stored_inventory(contents.insert(key.spec_db_key(), record.encoding()), key)
            == StoredInventory::Record(record),
{
    record.lemma_encoding_parses();
}

/// Writing an inventory leaves every other inventory as it was.
pub proof fn lemma_other_inventories_are_untouched(
    contents: Map<Seq<u8>, Seq<u8>>,
    written: InventoryKey,
    bytes: Seq<u8>,
    other: InventoryKey,
)
    requires
        other != written,
    ensures
        stored_inventory(contents.insert(written.spec_db_key(), bytes), other) == stored_inventory(
            contents,
            other,
        ),
{
    lemma_db_keys_are_injective(written, other);
}

/// Inventories that were loaded and are written back with the shapes that
/// they had leave every inventory of the store with its shape.
pub proof fn lemma_persisted_keeps_shapes(
    contents: Map<Seq<u8>, Seq<u8>>,
    keys: Seq<InventoryKey>,
    loaded: Seq<Inventory>,
    inventories: Seq<Inventory>,
    n: int,
    key: InventoryKey,
)
    requires
        all_loaded(contents, keys, loaded),
        same_shapes(inventories, loaded),
        0 <= n <= inventories.len(),
        forall|j: int| 0 <= j < n ==> (#[trigger] inventories[j]).spec_to_proto().encodable(),
    ensures
        keeps_shape(contents, persisted(contents, inventories, n), key),
    decreases n,
{
    if n > 0 {
        lemma_persisted_keeps_shapes(contents, keys, loaded, inventories, n - 1, key);
        let inventory = inventories[n - 1];
        let earlier = persisted(contents, inventories, n - 1);
        assert(inventory.same_shape_as(&loaded[n - 1]));
        assert(stored_inventory(contents, keys[n - 1]) is Record);
        if inventory.spec_key() == key {
            lemma_record_is_well_formed(inventory);
            lemma_record_is_well_formed(loaded[n - 1]);
            lemma_written_record_is_stored(earlier, key, inventory.spec_to_proto());
        } else {
            lemma_other_inventories_are_untouched(
                earlier,
                inventory.spec_key(),
                inventory.spec_to_proto().encoding(),
                key,
            );
        }
    }
}

/// The record of an empty inventory can be written, and has the shape of an
/// inventory where the dimensions are those of one.
pub proof fn lemma_empty_record(height: u32, width: u32)
    requires
        0 < height * width <= u32::MAX,
    ensures
        empty_record(height, width).encodable(),
        record_is_inventory(empty_record(height, width)),
{
    let record = empty_record(height, width);
    assert(width * height == height * width) by (nonlinear_arith);
    assert forall|i: int| 0 <= i < record.contents.len() implies (#[trigger] record.contents[i]).encodable()
        && record.contents[i].encoding().len() <= u64::MAX by {
        assert(record.contents[i] == ItemStackView::empty());
        assert(vstd::utf8::encode_utf8(Seq::<char>::empty()).len() == 0);
        assert(ItemStackView::empty().encoding() =~= Seq::<u8>::empty());
    }
}

/// Game component that manages access to inventories of items.
///
/// Every operation has the manager to itself for as long as it runs, the
/// caller's mutator included: no two of them ever interleave.
pub struct InventoryManager<D: GameDatabase> {
    db: D,
    update_sender: tokio::sync::broadcast::Sender<InventoryKey>,
    published: Ghost<Seq<InventoryKey>>,
}

impl<D: GameDatabase> InventoryManager<D> {
    /// What the store holds.
    pub closed spec fn stored(&self) -> Map<Seq<u8>, Seq<u8>> {
        self.db.contents()
    }

    /// The store itself, whatever kind it is of.
    pub closed spec fn store(&self) -> D {
        self.db
    }

    /// Whether the operations of the store always succeed.
    pub closed spec fn reliable(&self) -> bool {
        self.db.reliable()
    }

    /// The keys that were handed to the subscribers so far, in order.
    pub closed spec fn published(&self) -> Seq<InventoryKey> {
        self.published@
    }

    /// Whether the manager is over the same kind of store as `before`: one
    /// that can be relied upon, or one that cannot.
    pub open spec fn follows(&self, before: &Self) -> bool {
        self.reliable() == before.reliable()
    }

    /// Whether nothing was written or published since `before`: the store
    /// is the one that it was, of whatever kind it is.
    pub open spec fn unchanged_since(&self, before: &Self) -> bool {
        &&& self.store() == before.store()
        &&& self.follows(before)
        &&& self.stored() == before.stored()
        &&& self.published() == before.published()
    }

    /// A manager of the inventories in the given store. Nothing is published yet.
    pub fn new(db: D) -> (manager: InventoryManager<D>)
        ensures
            manager.store() == db,
            manager.stored() == db.contents(),
            manager.reliable() == db.reliable(),
            manager.published() == Seq::<InventoryKey>::empty(),
    {
        InventoryManager {
            db,
            update_sender: open_channel(BROADCAST_CHANNEL_SIZE),
            published: Ghost(Seq::empty()),
        }
    }

    /// The store behind the manager.
    pub fn database(&self) -> (db: &D)
        ensures
            *db == self.store(),
            db.contents() == self.stored(),
            db.reliable() == self.reliable(),
    {
        &self.db
    }

    /// A new subscriber to the keys of the inventories that change. It sees
    /// the keys that are published from now on, and may miss some where it
    /// lags: a key is a hint to read the inventory again.
    pub fn subscribe(&self) -> (receiver: tokio::sync::broadcast::Receiver<InventoryKey>) {
        subscribe_to(&self.update_sender)
    }

    fn broadcast_update(&mut self, key: InventoryKey)
        ensures
            final(self).stored() == old(self).stored(),
            final(self).follows(old(self)),
            final(self).published() == old(self).published().push(key),
    {
        send_update(&self.update_sender, key);
        proof {
            self.published@ = self.published@.push(key);
        }
    }

    /// Create a new, empty inventory.
    pub fn make_inventory(&mut self, height: u32, width: u32) -> (result: Result<
        InventoryKey,
        InventoryError,
    >)
        ensures
            final(self).follows(old(self)),
            final(self).published() == old(self).published(),
            if 0 < height * width <= u32::MAX {
                &&& result matches Err(e) ==> e == InventoryError::Store
                &&& old(self).reliable() ==> (result matches Ok(key) && final(self).stored() == old(self).stored().insert(key.spec_db_key(), empty_record(height, width).encoding()))
            } else {
                &&& result matches Err(e) && e == InventoryError::Dimension
                &&& final(self).stored() == old(self).stored()
            },
    {
        let inventory = match Inventory::new((height, width)) {
            Ok(inventory) => inventory,
            Err(e) => {
                return Err(e);
            },
        };
        let record = inventory.to_proto();
        assert(record@.contents =~= empty_record(height, width).contents);
        let bytes = record.encode_to_vec();
        match self.db.put(inventory.key().to_db_key().as_slice(), bytes.as_slice()) {
            Ok(()) => Ok(inventory.key()),
            Err(_) => Err(InventoryError::Store),
        }
    }

    /// The inventory that the given bytes hold, where they are what the
    /// store holds under the key of an inventory.
    pub fn interpret(stored: Option<Vec<u8>>, key: InventoryKey) -> (result: Result<
        Option<Inventory>,
        InventoryError,
    >)
        ensures
            match stored {
                None => result matches Ok(None),
                Some(bytes) => match InventoryRecordView::parse(bytes@) {
                    Some(record) => if record_is_inventory(record) {
                        result matches Ok(Some(inventory)) && inventory.is_from_proto(record, key)
                            && inventory.wf()
                    } else {
                        result matches Err(e) && e == InventoryError::Corruption
                    },
                    None => result matches Err(e) && e == InventoryError::Corruption,
                },
            },
    {
        match stored {
            Some(x) => {
                let inv_proto = match crate::protocol::Inventory::decode(x.as_slice()) {
                    Ok(record) => record,
                    Err(_) => {
                        return Err(InventoryError::Corruption);
                    },
                };
                match Inventory::from_proto(inv_proto, key) {
                    Ok(inventory) => Ok(Some(inventory)),
                    Err(e) => Err(e),
                }
            },
            None => Ok(None),
        }
    }

    /// Get a readonly copy of an inventory: what the store holds at this moment.
    pub fn get(&self, key: &InventoryKey) -> (result: Result<Option<Inventory>, InventoryError>)
        ensures
            result matches Ok(Some(inventory)) ==> inventory.wf() && inventory.spec_key() == *key,
            result matches Err(e) ==> e == InventoryError::Corruption || e == InventoryError::Store,
            self.reliable() ==> match stored_inventory(self.stored(), *key) {
                StoredInventory::Record(record) => result matches Ok(Some(inventory))
                    && inventory.is_from_proto(record, *key),
                StoredInventory::Absent => result matches Ok(None),
                StoredInventory::Corrupt => result matches Err(e) && e
                    == InventoryError::Corruption,
            },
    {
        let bytes = match self.db.get(key.to_db_key().as_slice()) {
            Ok(bytes) => bytes,
            Err(_) => {
                return Err(InventoryError::Store);
            },
        };
        Self::interpret(bytes, *key)
    }

    /// Run the given mutator on the indicated inventory.
    /// The function may mutate the data, or leave it as-is, and it may return a value
    /// to the caller through its own return value.
    ///
    /// The inventory is loaded, handed to the mutator, and written back and
    /// published if the mutator succeeds. Where the mutator fails, nothing is
    /// written or published, and its error is returned. The same holds where
    /// the mutator leaves an inventory of another shape than it was given: what
    /// is written has the key, the dimensions and the number of slots of what
    /// was loaded.
    pub fn mutate_inventory_atomically<F, T>(&mut self, key: &InventoryKey, mutator: F) -> (result:
        Result<T, InventoryError>) where F: FnOnce(&mut Inventory) -> Result<T, InventoryError>
        requires
            forall|inventory: &mut Inventory|
                inventory.wf() && inventory.spec_key() == *key && (old(self).reliable() ==> (
                stored_inventory(old(self).stored(), *key) matches StoredInventory::Record(record)
                    && inventory.is_from_proto(record, *key))) ==> call_requires(
                    mutator,
                    (inventory,),
                ),
        ensures
            final(self).follows(old(self)),
            final(self).published() == (if result is Ok {
                old(self).published().push(*key)
            } else {
                old(self).published()
            }),
            // A mutator that cannot succeed leaves everything as it was,
            // whatever the store is.
            (forall|inventory: &mut Inventory, outcome: Result<T, InventoryError>| #[trigger]
                call_ensures(mutator, (inventory,), outcome) ==> outcome is Err) ==> result is Err
                && final(self).unchanged_since(old(self)),
            // What is not a failure of the store leaves the store alone.
            result matches Err(e) && e != InventoryError::Store ==> final(self).unchanged_since(
                old(self),
            ),
            // The stored inventory keeps its shape, whatever the mutator does.
            old(self).reliable() ==> forall|other: InventoryKey| #[trigger]
                keeps_shape(old(self).stored(), final(self).stored(), other),
            ({
                ||| {
                    // The inventory could not be loaded.
                    &&& final(self).unchanged_since(old(self))
                    &&& result matches Err(e) && (if old(self).reliable() {
                        match stored_inventory(old(self).stored(), *key) {
                            StoredInventory::Absent => e == InventoryError::NotFound,
                            StoredInventory::Corrupt => e == InventoryError::Corruption,
                            StoredInventory::Record(_) => false,
                        }
                    } else {
                        e == InventoryError::NotFound || e == InventoryError::Corruption || e
                            == InventoryError::Store
                    })
                }
                ||| exists|inventory: &mut Inventory, outcome: Result<T, InventoryError>|
                    {
                        // The inventory was loaded and handed to the mutator.
                        &&& inventory.wf()
                        &&& inventory.spec_key() == *key
                        &&& old(self).reliable() ==> (stored_inventory(old(self).stored(), *key)
                            matches StoredInventory::Record(record) && inventory.is_from_proto(
                            record,
                            *key,
                        ))
                        &&& #[trigger] call_ensures(mutator, (inventory,), outcome)
                        &&& match outcome {
                            Err(e) => final(self).unchanged_since(old(self)) && (result
                                matches Err(f) && f == e),
                            Ok(value) => if final(inventory).same_shape_as(inventory) {
                                &&& record_is_inventory(
                                    record_with_slots(
                                        inventory.spec_to_proto(),
                                        final(inventory)@,
                                    ),
                                )
                                &&& if old(self).reliable() {
                                    &&& result matches Ok(v) && v == value
                                    &&& final(self).stored() == old(self).stored().insert(
                                        key.spec_db_key(),
                                        record_with_slots(
                                            inventory.spec_to_proto(),
                                            final(inventory)@,
                                        ).encoding(),
                                    )
                                } else {
                                    ||| result matches Ok(v) && v == value
                                    ||| result matches Err(e) && e == InventoryError::Store
                                }
                            } else {
                                &&& final(self).unchanged_since(old(self))
                                &&& result matches Err(e) && e == InventoryError::Shape
                            },
                        }
                    }
            }),
    {
        let mut inv = match self.get(key) {
            Ok(Some(inv)) => inv,
            Ok(None) => {
                return Err(InventoryError::NotFound);
            },
            Err(e) => {
                return Err(e);
            },
        };
        let shape = inv.shape();
        let ghost loaded = inv;
        let outcome = mutator(&mut inv);
        assert(exists|x: &mut Inventory|
            *x == loaded && *final(x) == inv && #[trigger] call_ensures(mutator, (x,), outcome));
        match outcome {
            Err(e) => Err(e),
            Ok(value) => {
                // An inventory never changes its shape.
                if !inv.has_shape(&shape) {
                    return Err(InventoryError::Shape);
                }
                proof {
                    lemma_record_is_well_formed(loaded);
                    lemma_changed_record_keeps_its_shape(loaded.spec_to_proto(), inv@);
                    assert(inv.spec_to_proto() == record_with_slots(loaded.spec_to_proto(), inv@));
                }
                let new_bytes = inv.to_proto().encode_to_vec();
                match self.db.put(key.to_db_key().as_slice(), new_bytes.as_slice()) {
                    Ok(()) => {},
                    Err(_) => {
                        return Err(InventoryError::Store);
                    },
                }
                proof {
                    assert forall|other: InventoryKey| old(self).reliable() implies #[trigger]
                        keeps_shape(old(self).stored(), self.stored(), other) by {
                        if other == *key {
                            lemma_written_record_is_stored(
                                old(self).stored(),
                                *key,
                                inv.spec_to_proto(),
                            );
                        } else {
                            lemma_other_inventories_are_untouched(
                                old(self).stored(),
                                *key,
                                inv.spec_to_proto().encoding(),
                                other,
                            );
                        }
                    }
                }
                self.broadcast_update(*key);
                Ok(value)
            },
        }
    }

    /// Reads the inventories under the given keys, in order, and stops at
    /// the first that cannot be read.
    fn load_all(&self, keys: &[InventoryKey]) -> (result: Result<Vec<Inventory>, InventoryError>)
        ensures
            result matches Ok(inventories) ==> inventories@.len() == keys@.len() && forall|i: int|
                0 <= i < keys@.len() ==> (#[trigger] inventories@[i]).wf() && inventories@[i].spec_key()
                    == keys@[i],
            result matches Err(e) ==> e == InventoryError::NotFound || e
                == InventoryError::Corruption || e == InventoryError::Store,
            self.reliable() ==> match result {
                Ok(inventories) => all_loaded(self.stored(), keys@, inventories@),
                Err(e) => exists|i: int|
                    is_first_unloadable(self.stored(), keys@, i) && (if stored_inventory(
                        self.stored(),
                        keys@[i],
                    ) is Absent {
                        e == InventoryError::NotFound
                    } else {
                        e == InventoryError::Corruption
                    }),
            },
    {
        let mut inventories: Vec<Inventory> = Vec::new();
        let mut i: usize = 0;
        while i < keys.len()
            invariant
                i <= keys.len(),
                inventories@.len() == i,
                forall|j: int|
                    0 <= j < i ==> (#[trigger] inventories@[j]).wf() && inventories@[j].spec_key()
                        == keys@[j],
                self.reliable() ==> forall|j: int|
                    0 <= j < i ==> (#[trigger] stored_inventory(self.stored(), keys@[j])
                        matches StoredInventory::Record(record) && inventories@[j].is_from_proto(
                        record,
                        keys@[j],
                    ) && inventories@[j].wf()),
            decreases keys.len() - i,
        {
            match self.get(&keys[i]) {
                Ok(Some(inv)) => {
                    inventories.push(inv);
                },
                Ok(None) => {
                    assert(self.reliable() ==> is_first_unloadable(
                        self.stored(),
                        keys@,
                        i as int,
                    ));
                    return Err(InventoryError::NotFound);
                },
                Err(e) => {
                    assert(self.reliable() ==> is_first_unloadable(
                        self.stored(),
                        keys@,
                        i as int,
                    ));
                    return Err(e);
                },
            }
            i = i + 1;
        }
        Ok(inventories)
    }

    /// Writes the given inventories back, in order, each under its own key,
    /// and publishes the key of each. Stops where the store fails, and says
    /// how many were written.
    fn store_all(&mut self, inventories: &Vec<Inventory>) -> (written: usize)
        ensures
            final(self).follows(old(self)),
            written <= inventories@.len(),
            final(self).published() == old(self).published() + keys_of(
                inventories@,
                written as int,
            ),
            old(self).reliable() ==> written == inventories@.len() && final(self).stored()
                == persisted(old(self).stored(), inventories@, written as int),
            forall|j: int|
                0 <= j < written ==> (#[trigger] inventories@[j]).spec_to_proto().encodable(),
    {
        let mut k: usize = 0;
        assert(old(self).published() + keys_of(inventories@, 0) =~= old(self).published());
        while k < inventories.len()
            invariant
                k <= inventories.len(),
                self.follows(old(self)),
                self.published() == old(self).published() + keys_of(inventories@, k as int),
                forall|j: int|
                    0 <= j < k ==> (#[trigger] inventories@[j]).spec_to_proto().encodable(),
                old(self).reliable() ==> self.stored() == persisted(
                    old(self).stored(),
                    inventories@,
                    k as int,
                ),
            decreases inventories.len() - k,
        {
            let inv = &inventories[k];
            let new_bytes = inv.to_proto().encode_to_vec();
            match self.db.put(inv.key().to_db_key().as_slice(), new_bytes.as_slice()) {
                Ok(()) => {},
                Err(_) => {
                    return k;
                },
            }
            self.broadcast_update(inv.key());
            assert(keys_of(inventories@, k + 1) =~= keys_of(inventories@, k as int).push(
                inv.spec_key(),
            ));
            assert(self.published() =~= old(self).published() + keys_of(inventories@, k + 1));
            k = k + 1;
        }
        k
    }

    /// The shapes of the given inventories, one for one.
    fn shapes_of(inventories: &Vec<Inventory>) -> (shapes: Vec<InventoryShape>)
        ensures
            have_shapes(inventories@, shapes@),
    {
        let mut shapes: Vec<InventoryShape> = Vec::new();
        let mut i: usize = 0;
        while i < inventories.len()
            invariant
                i <= inventories.len(),
                shapes@.len() == i,
                forall|k: int| 0 <= k < i ==> (#[trigger] inventories@[k]).spec_has_shape(shapes@[k]),
            decreases inventories.len() - i,
        {
            shapes.push(inventories[i].shape());
            i = i + 1;
        }
        shapes
    }

    /// Whether the given inventories have the given shapes, one for one.
    fn check_shapes(inventories: &Vec<Inventory>, shapes: &Vec<InventoryShape>) -> (same: bool)
        ensures
            same == have_shapes(inventories@, shapes@),
    {
        if inventories.len() != shapes.len() {
            return false;
        }
        let mut i: usize = 0;
        while i < inventories.len()
            invariant
                i <= inventories.len(),
                inventories@.len() == shapes@.len(),
                forall|k: int| 0 <= k < i ==> (#[trigger] inventories@[k]).spec_has_shape(shapes@[k]),
            decreases inventories.len() - i,
        {
            if !inventories[i].has_shape(&shapes[i]) {
                return false;
            }
            i = i + 1;
        }
        true
    }

    /// Run the given mutator on the indicated vec of inventories.
    /// The function may mutate the data, or leave it as-is, and it may return a value to the caller
    /// through its own return value.
    ///
    /// The inventories are loaded in the order of their keys and handed to
    /// the mutator. If it succeeds, each inventory is written back under its
    /// key and published, in order. Where the mutator fails, nothing is
    /// written or published, and its error is returned. The same holds where
    /// the mutator leaves other inventories than it was given: more or fewer,
    /// or one with another key, other dimensions or another number of slots.
    /// Where the store fails on the way, the inventories before the failure
    /// are written and published, and those after it are not.
    pub fn mutate_inventories_atomically<F, T>(&mut self, keys: &[InventoryKey], mutator: F) -> (result:
        Result<T, InventoryError>) where F: FnOnce(&mut Vec<Inventory>) -> Result<T, InventoryError>
        requires
            forall|inventories: &mut Vec<Inventory>|
                inventories@.len() == keys@.len() && (forall|i: int|
                    0 <= i < keys@.len() ==> (#[trigger] inventories@[i]).wf()
                        && inventories@[i].spec_key() == keys@[i]) && (old(self).reliable()
                    ==> all_loaded(old(self).stored(), keys@, inventories@)) ==> call_requires(
                    mutator,
                    (inventories,),
                ),
        ensures
            final(self).follows(old(self)),
            result is Err && old(self).reliable() ==> final(self).published() == old(self).published(),
            // A mutator that cannot succeed leaves everything as it was,
            // whatever the store is.
            (forall|inventories: &mut Vec<Inventory>, outcome: Result<T, InventoryError>| #[trigger]
                call_ensures(mutator, (inventories,), outcome) ==> outcome is Err) ==> result is Err
                && final(self).unchanged_since(old(self)),
            // What is not a failure of the store leaves the store alone.
            result matches Err(e) && e != InventoryError::Store ==> final(self).unchanged_since(
                old(self),
            ),
            // The stored inventories keep their shapes, whatever the mutator does.
            old(self).reliable() ==> forall|other: InventoryKey| #[trigger]
                keeps_shape(old(self).stored(), final(self).stored(), other),
            ({
                ||| {
                    // One of the inventories could not be loaded.
                    &&& final(self).unchanged_since(old(self))
                    &&& result matches Err(e) && (if old(self).reliable() {
                        exists|i: int|
                            is_first_unloadable(old(self).stored(), keys@, i) && (if stored_inventory(
                                old(self).stored(),
                                keys@[i],
                            ) is Absent {
                                e == InventoryError::NotFound
                            } else {
                                e == InventoryError::Corruption
                            })
                    } else {
                        e == InventoryError::NotFound || e == InventoryError::Corruption || e
                            == InventoryError::Store
                    })
                }
                ||| exists|inventories: &mut Vec<Inventory>, outcome: Result<T, InventoryError>|
                    {
                        // The inventories were loaded and handed to the mutator.
                        &&& inventories@.len() == keys@.len()
                        &&& forall|i: int|
                            0 <= i < keys@.len() ==> (#[trigger] inventories@[i]).wf()
                                && inventories@[i].spec_key() == keys@[i]
                        &&& old(self).reliable() ==> all_loaded(
                            old(self).stored(),
                            keys@,
                            inventories@,
                        )
                        &&& #[trigger] call_ensures(mutator, (inventories,), outcome)
                        &&& match outcome {
                            Err(e) => final(self).unchanged_since(old(self)) && (result
                                matches Err(f) && f == e),
                            Ok(value) => if same_shapes(final(inventories)@, inventories@) {
                                exists|n: int|
                                    {
                                        &&& 0 <= n <= keys@.len()
                                        &&& #[trigger] keys_of(final(inventories)@, n) == keys@.take(
                                            n,
                                        )
                                        &&& final(self).published() == old(self).published()
                                            + keys@.take(n)
                                        &&& old(self).reliable() ==> n == keys@.len()
                                        &&& old(self).reliable() ==> final(self).stored()
                                            == persisted(
                                            old(self).stored(),
                                            final(inventories)@,
                                            n,
                                        )
                                        &&& if n == keys@.len() {
                                            result matches Ok(v) && v == value
                                        } else {
                                            result matches Err(e) && e == InventoryError::Store
                                        }
                                    }
                            } else {
                                &&& final(self).unchanged_since(old(self))
                                &&& result matches Err(e) && e == InventoryError::Shape
                            },
                        }
                    }
            }),
    {
        let mut inventories = match self.load_all(keys) {
            Ok(inventories) => inventories,
            Err(e) => {
                return Err(e);
            },
        };
        let shapes = Self::shapes_of(&inventories);
        let ghost loaded = inventories;
        let outcome = mutator(&mut inventories);
        assert(exists|x: &mut Vec<Inventory>|
            *x == loaded && *final(x) == inventories && #[trigger] call_ensures(
                mutator,
                (x,),
                outcome,
            ));
        match outcome {
            Err(e) => Err(e),
            Ok(value) => {
                // An inventory never changes its shape.
                if !Self::check_shapes(&inventories, &shapes) {
                    assert(!same_shapes(inventories@, loaded@)) by {
                        if same_shapes(inventories@, loaded@) {
                            assert forall|k: int| 0 <= k < inventories@.len() implies (
                            #[trigger] inventories@[k]).spec_has_shape(shapes@[k]) by {
                                assert(inventories@[k].same_shape_as(&loaded@[k]));
                                assert(loaded@[k].spec_has_shape(shapes@[k]));
                            }
                        }
                    }
                    return Err(InventoryError::Shape);
                }
                assert(same_shapes(inventories@, loaded@)) by {
                    assert forall|k: int| 0 <= k < inventories@.len() implies (
                    #[trigger] inventories@[k]).same_shape_as(&loaded@[k]) by {
                        assert(inventories@[k].spec_has_shape(shapes@[k]));
                        assert(loaded@[k].spec_has_shape(shapes@[k]));
                    }
                }
                let written = self.store_all(&inventories);
                proof {
                    let n = written as int;
                    assert forall|other: InventoryKey| old(self).reliable() implies #[trigger]
                        keeps_shape(old(self).stored(), self.stored(), other) by {
                        lemma_persisted_keeps_shapes(
                            old(self).stored(),
                            keys@,
                            loaded@,
                            inventories@,
                            n,
                            other,
                        );
                    }
                    assert(keys_of(inventories@, n) =~= keys@.take(n)) by {
                        assert forall|k: int| 0 <= k < n implies inventories@[k].spec_key()
                            == keys@[k] by {
                            assert(inventories@[k].same_shape_as(&loaded@[k]));
                            assert(loaded@[k].spec_key() == keys@[k]);
                        }
                    }
                }
                if written == inventories.len() {
                    Ok(value)
                } else {
                    Err(InventoryError::Store)
                }
            },
        }
    }
}

} // verus!
