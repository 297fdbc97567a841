use cuberef_game_state::database::{GameDatabase, InMemGameDabase, KeySpace, StoreError};
use cuberef_game_state::inventory::{Inventory, InventoryError, InventoryKey};
use cuberef_game_state::inventory_manager::InventoryManager;
use cuberef_game_state::items::{ItemStack, MaybeStack};

fn stack(name: &str, quantity: u32, max_stack: u32, stackable: bool) -> ItemStack {
    ItemStack {
        proto: cuberef_game_state::protocol::ItemStack {
            item_name: name.to_string(),
            quantity,
            max_stack,
            stackable,
        },
    }
}

fn quantities(inventory: &Inventory) -> Vec<u32> {
    inventory
        .contents()
        .iter()
        .map(|slot| slot.as_ref().map(|s| s.proto.quantity).unwrap_or(0))
        .collect()
}

/// A store whose writes fail once a number of them has succeeded.
struct FailingDb {
    inner: InMemGameDabase,
    writes_left: usize,
    reads_fail: bool,
}

impl GameDatabase for FailingDb {
    fn get(&self, key: &[u8]) -> Result<Option<Vec<u8>>, StoreError> {
        if self.reads_fail {
            return Err(StoreError);
        }
        self.inner.get(key)
    }

    fn put(&mut self, key: &[u8], value: &[u8]) -> Result<(), StoreError> {
        if self.writes_left == 0 {
            return Err(StoreError);
        }
        self.writes_left -= 1;
        self.inner.put(key, value)
    }

    fn flush(&mut self) -> Result<(), StoreError> {
        self.inner.flush()
    }
}

#[test]
fn key_bytes_round_trip() {
    let bytes: Vec<u8> = (100u8..116).collect();
    let key = InventoryKey::parse_bytes(&bytes).unwrap();
    assert_eq!(key.as_bytes(), &bytes[..]);
    assert_eq!(InventoryKey::parse_bytes(key.as_bytes()).unwrap(), key);
    assert_eq!(key.to_db_key(), KeySpace::Inventory.make_key(&bytes));
    assert_eq!(key.to_db_key().len(), 17);
}

#[test]
fn key_of_wrong_length_is_rejected() {
    assert_eq!(InventoryKey::parse_bytes(&[0u8; 15]).unwrap_err(), InventoryError::Corruption);
    assert_eq!(InventoryKey::parse_bytes(&[0u8; 17]).unwrap_err(), InventoryError::Corruption);
    assert_eq!(InventoryKey::parse_bytes(&[]).unwrap_err(), InventoryError::Corruption);
    assert!(InventoryKey::parse_bytes(&[0u8; 16]).is_ok());
}

#[test]
fn keys_compare_by_their_bytes() {
    let a = InventoryKey::parse_bytes(&[1u8; 16]).unwrap();
    let b = InventoryKey::parse_bytes(&[1u8; 16]).unwrap();
    let mut other = [1u8; 16];
    other[15] = 2;
    let c = InventoryKey::parse_bytes(&other).unwrap();
    assert!(a == b);
    assert!(a != c);
    assert!(a < c);
}

#[test]
fn random_keys_are_version_four_identifiers_and_differ() {
    let a = InventoryKey::random();
    let b = InventoryKey::random();
    assert_ne!(a, b);
    for key in [a, b] {
        assert_eq!(key.as_bytes().len(), 16);
        assert_eq!(key.as_bytes()[6] >> 4, 4);
        assert_eq!(key.as_bytes()[8] >> 6, 2);
        assert_eq!(uuid::Uuid::from_slice(key.as_bytes()).unwrap().get_version_num(), 4);
    }
}

#[test]
fn new_inventory_is_empty_and_of_the_given_shape() {
    let inventory = Inventory::new((4, 8)).unwrap();
    assert_eq!(inventory.dimensions(), (4, 8));
    assert_eq!(inventory.len(), 32);
    assert_eq!(inventory.contents().len(), 32);
    assert!(inventory.contents().iter().all(|slot| slot.is_none()));
}

#[test]
fn new_inventory_rejects_bad_dimensions() {
    assert_eq!(Inventory::new((0, 8)).unwrap_err(), InventoryError::Dimension);
    assert_eq!(Inventory::new((4, 0)).unwrap_err(), InventoryError::Dimension);
    assert_eq!(Inventory::new((0, 0)).unwrap_err(), InventoryError::Dimension);
    assert_eq!(Inventory::new((65536, 65536)).unwrap_err(), InventoryError::Dimension);
    assert_eq!(Inventory::new((u32::MAX, 2)).unwrap_err(), InventoryError::Dimension);
    assert!(Inventory::new((1, 1)).is_ok());
}

#[test]
fn inventory_record_round_trip() {
    let mut inventory = Inventory::new((2, 2)).unwrap();
    *inventory.contents_mut(1) = Some(stack("dirt", 5, 256, true));
    *inventory.contents_mut(2) = Some(stack("pickaxe", 1, 0, false));
    let record = inventory.to_proto();
    assert_eq!((record.height, record.width), (2, 2));
    assert_eq!(record.contents.len(), 4);
    assert_eq!(record.contents[0].item_name, "");
    assert_eq!(record.contents[0].quantity, 0);
    assert_eq!(record.contents[1].item_name, "dirt");
    assert_eq!(record.contents[1].quantity, 5);
    let back = Inventory::from_proto(record, inventory.key()).unwrap();
    assert_eq!(back.key(), inventory.key());
    assert_eq!(back.dimensions(), (2, 2));
    assert_eq!(quantities(&back), vec![0, 5, 1, 0]);
    assert_eq!(back.contents()[2].as_ref().unwrap().proto.item_name, "pickaxe");
}

#[test]
fn from_proto_rejects_records_of_the_wrong_shape() {
    let key = InventoryKey::random();
    let slot = || stack("", 0, 0, false).proto;
    let record = |height, width, slots: usize| cuberef_game_state::protocol::Inventory {
        height,
        width,
        contents: (0..slots).map(|_| slot()).collect(),
    };
    assert_eq!(
        Inventory::from_proto(record(2, 2, 3), key).unwrap_err(),
        InventoryError::Corruption
    );
    assert_eq!(
        Inventory::from_proto(record(0, 0, 0), key).unwrap_err(),
        InventoryError::Corruption
    );
    assert_eq!(
        Inventory::from_proto(record(65536, 65536, 0), key).unwrap_err(),
        InventoryError::Corruption
    );
    assert!(Inventory::from_proto(record(2, 3, 6), key).is_ok());
}

#[test]
fn try_insert_merges_first_and_then_fills_the_first_empty_slot() {
    let mut inventory = Inventory::new((1, 4)).unwrap();
    *inventory.contents_mut(1) = Some(stack("dirt", 250, 256, true));
    *inventory.contents_mut(2) = Some(stack("stone", 1, 64, true));
    *inventory.contents_mut(3) = Some(stack("dirt", 255, 256, true));
    assert!(inventory.try_insert(stack("dirt", 10, 256, true)).is_none());
    assert_eq!(quantities(&inventory), vec![3, 256, 1, 256]);
    assert_eq!(inventory.contents()[0].as_ref().unwrap().proto.item_name, "dirt");
    assert_eq!(inventory.len(), 4);
}

#[test]
fn try_insert_hands_back_what_has_no_room() {
    let mut inventory = Inventory::new((1, 2)).unwrap();
    *inventory.contents_mut(0) = Some(stack("dirt", 250, 256, true));
    *inventory.contents_mut(1) = Some(stack("pickaxe", 1, 0, false));
    let left = inventory.try_insert(stack("dirt", 10, 256, true)).unwrap();
    assert_eq!(left.proto.quantity, 4);
    assert_eq!(quantities(&inventory), vec![256, 1]);
    let left = inventory.try_insert(stack("pickaxe", 1, 0, false)).unwrap();
    assert_eq!(left.proto.quantity, 1);
    assert_eq!(inventory.dimensions(), (1, 2));
    assert_eq!(inventory.len(), 2);
}

#[test]
fn give_back_prefers_the_slot_of_origin() {
    let mut inventory = Inventory::new((1, 3)).unwrap();
    assert!(inventory.give_back(2, stack("dirt", 5, 256, true)).is_none());
    assert_eq!(quantities(&inventory), vec![0, 0, 5]);
    assert!(inventory.give_back(2, stack("dirt", 255, 256, true)).is_none());
    assert_eq!(quantities(&inventory), vec![4, 0, 256]);
    assert!(inventory.give_back(2, stack("stone", 1, 64, true)).is_none());
    assert_eq!(quantities(&inventory), vec![4, 1, 256]);
    assert!(inventory.give_back(7, stack("stone", 2, 64, true)).is_none());
    assert_eq!(quantities(&inventory), vec![4, 3, 256]);
    let left = inventory.give_back(0, stack("pickaxe", 1, 0, false)).unwrap();
    assert_eq!(left.proto.item_name, "pickaxe");
    assert_eq!(quantities(&inventory), vec![4, 3, 256]);
}

#[test]
fn shape_is_kept_by_every_mutation() {
    let mut inventory = Inventory::new((3, 5)).unwrap();
    for round in 0..40u32 {
        let slot = (round as usize * 7) % 15;
        let _ = inventory.contents_mut(slot).try_merge(Some(stack("dirt", 100, 256, true)));
        let _ = inventory.try_insert(stack("stone", 33, 64, true));
        let _ = inventory.contents_mut(slot).take_items(Some(round));
        let _ = inventory.give_back(slot, stack("sand", 9, 16, true));
        assert_eq!(inventory.dimensions(), (3, 5));
        assert_eq!(inventory.len(), 15);
        assert_eq!(inventory.contents().len(), 15);
    }
}

#[test]
fn make_inventory_persists_an_empty_inventory() {
    let mut manager = InventoryManager::new(InMemGameDabase::new());
    let key = manager.make_inventory(4, 8).unwrap();
    let inventory = manager.get(&key).unwrap().unwrap();
    assert_eq!(inventory.key(), key);
    assert_eq!(inventory.dimensions(), (4, 8));
    assert_eq!(inventory.len(), 32);
    assert!(inventory.contents().iter().all(|slot| slot.is_none()));
    let other = manager.make_inventory(1, 1).unwrap();
    assert_ne!(other, key);
}

#[test]
fn make_inventory_rejects_bad_dimensions_before_any_write() {
    let db = FailingDb { inner: InMemGameDabase::new(), writes_left: 0, reads_fail: false };
    let mut manager = InventoryManager::new(db);
    assert_eq!(manager.make_inventory(0, 5).unwrap_err(), InventoryError::Dimension);
    assert_eq!(manager.make_inventory(5, 0).unwrap_err(), InventoryError::Dimension);
    assert_eq!(manager.make_inventory(1 << 20, 1 << 20).unwrap_err(), InventoryError::Dimension);
    assert_eq!(manager.make_inventory(1, 1).unwrap_err(), InventoryError::Store);
}

#[test]
fn get_of_unknown_key_is_none() {
    let manager = InventoryManager::new(InMemGameDabase::new());
    assert!(manager.get(&InventoryKey::random()).unwrap().is_none());
}

#[test]
fn get_of_corrupt_bytes_fails() {
    let key = InventoryKey::random();
    let mut db = InMemGameDabase::new();
    db.put(&key.to_db_key(), &[0xff, 0xff, 0xff]).unwrap();
    let manager = InventoryManager::new(db);
    assert_eq!(manager.get(&key).unwrap_err(), InventoryError::Corruption);
    // a record that decodes but has not the shape of an inventory
    let key = InventoryKey::random();
    let mut db = InMemGameDabase::new();
    db.put(&key.to_db_key(), &[0x08, 0x02, 0x10, 0x02, 0x1a, 0x00]).unwrap();
    let manager = InventoryManager::new(db);
    assert_eq!(manager.get(&key).unwrap_err(), InventoryError::Corruption);
}

#[test]
fn get_reports_a_failing_store() {
    let db = FailingDb { inner: InMemGameDabase::new(), writes_left: 0, reads_fail: true };
    let manager = InventoryManager::new(db);
    assert_eq!(manager.get(&InventoryKey::random()).unwrap_err(), InventoryError::Store);
}

#[test]
fn merge_of_three_hundred_into_single_slot_container() {
    let mut manager = InventoryManager::new(InMemGameDabase::new());
    let key = manager.make_inventory(1, 1).unwrap();
    let left = manager
        .mutate_inventory_atomically(&key, |inventory| {
            Ok(inventory.contents_mut(0).try_merge(Some(stack("dirt", 300, 256, true))))
        })
        .unwrap()
        .unwrap();
    assert_eq!(left.proto.quantity, 44);
    assert_eq!(left.proto.item_name, "dirt");
    let inventory = manager.get(&key).unwrap().unwrap();
    assert_eq!(quantities(&inventory), vec![256]);
    assert_eq!(inventory.contents()[0].as_ref().unwrap().proto.item_name, "dirt");
}

#[test]
fn mutate_unknown_key_fails_without_write_or_notification() {
    let mut manager = InventoryManager::new(InMemGameDabase::new());
    let mut updates = manager.subscribe();
    let mut called = false;
    let result = manager.mutate_inventory_atomically(&InventoryKey::random(), |_| {
        called = true;
        Ok(())
    });
    assert_eq!(result.unwrap_err(), InventoryError::NotFound);
    assert!(!called);
    assert!(updates.try_recv().is_err());
}

#[test]
fn mutate_publishes_the_key_once() {
    let mut manager = InventoryManager::new(InMemGameDabase::new());
    let key = manager.make_inventory(2, 2).unwrap();
    let mut first = manager.subscribe();
    let mut second = manager.subscribe();
    let value = manager
        .mutate_inventory_atomically(&key, |inventory| {
            *inventory.contents_mut(3) = Some(stack("dirt", 1, 256, true));
            Ok(17u8)
        })
        .unwrap();
    assert_eq!(value, 17);
    assert_eq!(first.try_recv().unwrap(), key);
    assert!(first.try_recv().is_err());
    assert_eq!(second.try_recv().unwrap(), key);
    assert!(second.try_recv().is_err());
    assert_eq!(quantities(&manager.get(&key).unwrap().unwrap()), vec![0, 0, 0, 1]);
}

#[test]
fn mutate_without_subscribers_still_persists() {
    let mut manager = InventoryManager::new(InMemGameDabase::new());
    let key = manager.make_inventory(1, 1).unwrap();
    manager
        .mutate_inventory_atomically(&key, |inventory| {
            *inventory.contents_mut(0) = Some(stack("dirt", 2, 256, true));
            Ok(())
        })
        .unwrap();
    assert_eq!(quantities(&manager.get(&key).unwrap().unwrap()), vec![2]);
}

#[test]
fn failing_mutator_persists_nothing_for_one_inventory() {
    let mut manager = InventoryManager::new(InMemGameDabase::new());
    let key = manager.make_inventory(1, 1).unwrap();
    let mut updates = manager.subscribe();
    let result: Result<(), InventoryError> =
        manager.mutate_inventory_atomically(&key, |inventory| {
            *inventory.contents_mut(0) = Some(stack("dirt", 2, 256, true));
            Err(InventoryError::Aborted)
        });
    assert_eq!(result.unwrap_err(), InventoryError::Aborted);
    assert_eq!(quantities(&manager.get(&key).unwrap().unwrap()), vec![0]);
    assert!(updates.try_recv().is_err());
}

#[test]
fn failing_mutator_persists_neither_container() {
    let mut manager = InventoryManager::new(InMemGameDabase::new());
    let k1 = manager.make_inventory(1, 1).unwrap();
    let k2 = manager.make_inventory(1, 2).unwrap();
    manager
        .mutate_inventory_atomically(&k1, |inventory| {
            *inventory.contents_mut(0) = Some(stack("dirt", 7, 256, true));
            Ok(())
        })
        .unwrap();
    let mut updates = manager.subscribe();
    let result: Result<(), InventoryError> =
        manager.mutate_inventories_atomically(&[k1, k2], |inventories| {
            let moved = inventories[0].contents_mut(0).take();
            *inventories[1].contents_mut(1) = moved;
            Err(InventoryError::Aborted)
        });
    assert_eq!(result.unwrap_err(), InventoryError::Aborted);
    assert_eq!(quantities(&manager.get(&k1).unwrap().unwrap()), vec![7]);
    assert_eq!(quantities(&manager.get(&k2).unwrap().unwrap()), vec![0, 0]);
    assert!(updates.try_recv().is_err());
}

#[test]
fn mutate_many_moves_a_stack_between_containers() {
    let mut manager = InventoryManager::new(InMemGameDabase::new());
    let k1 = manager.make_inventory(1, 1).unwrap();
    let k2 = manager.make_inventory(1, 2).unwrap();
    manager
        .mutate_inventory_atomically(&k1, |inventory| {
            *inventory.contents_mut(0) = Some(stack("dirt", 7, 256, true));
            Ok(())
        })
        .unwrap();
    let mut updates = manager.subscribe();
    let seen = manager
        .mutate_inventories_atomically(&[k1, k2], |inventories| {
            assert_eq!(inventories.len(), 2);
            let moved = inventories[0].contents_mut(0).take();
            *inventories[1].contents_mut(1) = moved;
            Ok((inventories[0].key(), inventories[1].key()))
        })
        .unwrap();
    assert_eq!(seen, (k1, k2));
    assert_eq!(quantities(&manager.get(&k1).unwrap().unwrap()), vec![0]);
    assert_eq!(quantities(&manager.get(&k2).unwrap().unwrap()), vec![0, 7]);
    assert_eq!(updates.try_recv().unwrap(), k1);
    assert_eq!(updates.try_recv().unwrap(), k2);
    assert!(updates.try_recv().is_err());
}

#[test]
fn mutate_many_with_unknown_key_calls_nothing() {
    let mut manager = InventoryManager::new(InMemGameDabase::new());
    let k1 = manager.make_inventory(1, 1).unwrap();
    let mut called = false;
    let result = manager.mutate_inventories_atomically(&[k1, InventoryKey::random()], |_| {
        called = true;
        Ok(())
    });
    assert_eq!(result.unwrap_err(), InventoryError::NotFound);
    assert!(!called);
    let result = manager.mutate_inventories_atomically(&[], |inventories| Ok(inventories.len()));
    assert_eq!(result.unwrap(), 0);
}

#[test]
fn mutate_many_stops_where_the_store_fails() {
    let mut inner = InventoryManager::new(InMemGameDabase::new());
    let k1 = inner.make_inventory(1, 1).unwrap();
    let k2 = inner.make_inventory(1, 1).unwrap();
    // the same two inventories in a store that takes one more write
    let mut db = FailingDb { inner: InMemGameDabase::new(), writes_left: 3, reads_fail: false };
    for key in [k1, k2] {
        let bytes = inner.get(&key).unwrap().unwrap().to_proto().encode_to_vec();
        db.put(&key.to_db_key(), &bytes).unwrap();
    }
    let mut manager = InventoryManager::new(db);
    let mut updates = manager.subscribe();
    let result = manager.mutate_inventories_atomically(&[k1, k2], |inventories| {
        *inventories[0].contents_mut(0) = Some(stack("dirt", 1, 256, true));
        *inventories[1].contents_mut(0) = Some(stack("dirt", 2, 256, true));
        Ok(())
    });
    assert_eq!(result.unwrap_err(), InventoryError::Store);
    assert_eq!(quantities(&manager.get(&k1).unwrap().unwrap()), vec![1]);
    assert_eq!(quantities(&manager.get(&k2).unwrap().unwrap()), vec![0]);
    assert_eq!(updates.try_recv().unwrap(), k1);
    assert!(updates.try_recv().is_err());
}

#[test]
fn slow_subscriber_loses_the_oldest_notifications() {
    let mut manager = InventoryManager::new(InMemGameDabase::new());
    let key = manager.make_inventory(1, 1).unwrap();
    let mut updates = manager.subscribe();
    for _ in 0..40 {
        manager.mutate_inventory_atomically(&key, |_| Ok(())).unwrap();
    }
    assert!(matches!(
        updates.try_recv(),
        Err(tokio::sync::broadcast::error::TryRecvError::Lagged(8))
    ));
    let mut received = 0;
    while let Ok(seen) = updates.try_recv() {
        assert_eq!(seen, key);
        received += 1;
    }
    assert_eq!(received, 32);
}

#[test]
fn insert_conserves_the_number_of_items() {
    let total = |inventory: &Inventory| -> u64 { quantities(inventory).iter().map(|q| *q as u64).sum() };
    let mut inventory = Inventory::new((2, 2)).unwrap();
    *inventory.contents_mut(0) = Some(stack("dirt", 250, 256, true));
    *inventory.contents_mut(2) = Some(stack("dirt", 200, 256, true));
    *inventory.contents_mut(3) = Some(stack("stone", 1, 64, true));
    for put in [3u32, 60, 200, 7] {
        let before = total(&inventory) + put as u64;
        let left = inventory.try_insert(stack("dirt", put, 256, true));
        let left = left.map(|s| s.proto.quantity as u64).unwrap_or(0);
        assert_eq!(total(&inventory) + left, before);
    }
    assert_eq!(quantities(&inventory), vec![256, 208, 256, 1]);
    let before = total(&inventory) + 100;
    let left = inventory.give_back(1, stack("dirt", 100, 256, true)).unwrap();
    assert_eq!(left.proto.quantity, 52);
    assert_eq!(total(&inventory) + 52, before);
}

#[test]
fn interpret_tells_absent_from_damaged() {
    type Manager = InventoryManager<InMemGameDabase>;
    let key = InventoryKey::random();
    assert!(Manager::interpret(None, key).unwrap().is_none());
    assert_eq!(
        Manager::interpret(Some(vec![0x08]), key).unwrap_err(),
        InventoryError::Corruption
    );
    let bytes = Inventory::new((1, 2)).unwrap().to_proto().encode_to_vec();
    let inventory = Manager::interpret(Some(bytes), key).unwrap().unwrap();
    assert_eq!(inventory.key(), key);
    assert_eq!(inventory.dimensions(), (1, 2));
}

#[test]
fn mutator_that_swaps_the_inventory_writes_nothing() {
    let mut manager = InventoryManager::new(InMemGameDabase::new());
    let key = manager.make_inventory(1, 2).unwrap();
    manager
        .mutate_inventory_atomically(&key, |inventory| {
            *inventory.contents_mut(1) = Some(stack("dirt", 5, 256, true));
            Ok(())
        })
        .unwrap();
    let mut updates = manager.subscribe();
    // other dimensions and another key
    let result = manager.mutate_inventory_atomically(&key, |inventory| {
        *inventory = Inventory::new((3, 3)).unwrap();
        Ok(())
    });
    assert_eq!(result.unwrap_err(), InventoryError::Shape);
    // as many slots, in another arrangement
    let result = manager.mutate_inventory_atomically(&key, |inventory| {
        *inventory = Inventory::new((2, 1)).unwrap();
        Ok(())
    });
    assert_eq!(result.unwrap_err(), InventoryError::Shape);
    let stored = manager.get(&key).unwrap().unwrap();
    assert_eq!(stored.dimensions(), (1, 2));
    assert_eq!(stored.key(), key);
    assert_eq!(quantities(&stored), vec![0, 5]);
    assert!(updates.try_recv().is_err());
}

#[test]
fn mutator_that_swaps_two_inventories_writes_neither() {
    let mut manager = InventoryManager::new(InMemGameDabase::new());
    let k1 = manager.make_inventory(1, 1).unwrap();
    let k2 = manager.make_inventory(1, 2).unwrap();
    let mut updates = manager.subscribe();
    let result = manager.mutate_inventories_atomically(&[k1, k2], |inventories| {
        *inventories[0].contents_mut(0) = Some(stack("dirt", 1, 256, true));
        inventories.swap(0, 1);
        Ok(())
    });
    assert_eq!(result.unwrap_err(), InventoryError::Shape);
    let result = manager.mutate_inventories_atomically(&[k1, k2], |inventories| {
        *inventories[0].contents_mut(0) = Some(stack("dirt", 1, 256, true));
        inventories.pop();
        Ok(())
    });
    assert_eq!(result.unwrap_err(), InventoryError::Shape);
    let result = manager.mutate_inventories_atomically(&[k1, k2], |inventories| {
        inventories.push(Inventory::new((1, 1)).unwrap());
        Ok(())
    });
    assert_eq!(result.unwrap_err(), InventoryError::Shape);
    assert_eq!(quantities(&manager.get(&k1).unwrap().unwrap()), vec![0]);
    assert_eq!(quantities(&manager.get(&k2).unwrap().unwrap()), vec![0, 0]);
    assert!(updates.try_recv().is_err());
}

#[test]
fn shape_of_an_inventory_is_key_dimensions_and_slots() {
    let inventory = Inventory::new((2, 3)).unwrap();
    let shape = inventory.shape();
    assert_eq!(shape.key, inventory.key());
    assert_eq!(shape.dimensions, (2, 3));
    assert_eq!(shape.slots, 6);
    assert!(inventory.has_shape(&shape));
    let mut changed = Inventory::new((2, 3)).unwrap();
    assert!(!changed.has_shape(&shape));
    *changed.contents_mut(0) = Some(stack("dirt", 1, 256, true));
    assert!(changed.has_shape(&changed.shape()));
    let mut other = shape;
    other.dimensions = (3, 2);
    assert!(!inventory.has_shape(&other));
}

#[test]
fn failing_mutator_leaves_a_failing_store_alone() {
    let mut inner = InventoryManager::new(InMemGameDabase::new());
    let key = inner.make_inventory(1, 1).unwrap();
    let mut db = FailingDb { inner: InMemGameDabase::new(), writes_left: 1, reads_fail: false };
    let bytes = inner.get(&key).unwrap().unwrap().to_proto().encode_to_vec();
    db.put(&key.to_db_key(), &bytes).unwrap();
    let mut manager = InventoryManager::new(db);
    let result: Result<(), InventoryError> =
        manager.mutate_inventories_atomically(&[key], |inventories| {
            *inventories[0].contents_mut(0) = Some(stack("dirt", 1, 256, true));
            Err(InventoryError::Aborted)
        });
    assert_eq!(result.unwrap_err(), InventoryError::Aborted);
    assert_eq!(manager.database().writes_left, 0);
    assert_eq!(quantities(&manager.get(&key).unwrap().unwrap()), vec![0]);
}

#[test]
fn give_back_conserves_each_kind_on_concrete_values() {
    fn total(inventory: &Inventory, left: &Option<ItemStack>, name: &str) -> u64 {
        inventory
            .contents()
            .iter()
            .chain(std::iter::once(left))
            .flatten()
            .filter(|s| s.proto.item_name == name)
            .map(|s| s.proto.quantity as u64)
            .sum()
    }
    for slot in [0usize, 1, 2, 3, 9] {
        let mut inventory = Inventory::new((1, 4)).unwrap();
        *inventory.contents_mut(0) = Some(stack("stone", 60, 64, true));
        *inventory.contents_mut(1) = Some(stack("dirt", 250, 256, true));
        *inventory.contents_mut(2) = Some(stack("dirt", 255, 256, true));
        *inventory.contents_mut(3) = Some(stack("pickaxe", 1, 0, false));
        let left = inventory.give_back(slot, stack("dirt", 40, 256, true));
        assert_eq!(total(&inventory, &left, "dirt"), 250 + 255 + 40);
        assert_eq!(total(&inventory, &left, "stone"), 60);
        assert_eq!(total(&inventory, &left, "pickaxe"), 1);
        assert_eq!(left.map(|s| s.proto.quantity), Some(33));
        assert_eq!(inventory.len(), 4);
    }
}
