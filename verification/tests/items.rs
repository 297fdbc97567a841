use cuberef_game_state::items::{Item, ItemError, ItemManager, ItemStack, MaybeStack};
use cuberef_game_state::protocol::{ItemDef, QuantityType};

fn stack(name: &str, quantity: u32, max_stack: u32, stackable: bool) -> ItemStack {
    ItemStack {
        proto: cuberef_game_state::protocol::ItemStack {
            item_name: name.to_string(),
            quantity,
            max_stack,
            stackable,
        },
    }
}

fn item(name: &str, quantity_type: Option<QuantityType>) -> Item<(), ()> {
    Item {
        proto: ItemDef {
            short_name: name.to_string(),
            display_name: name.to_uppercase(),
            quantity_type,
        },
        dig_handler: None,
        tap_handler: None,
        place_handler: None,
    }
}

fn quantity(slot: &Option<ItemStack>) -> u64 {
    slot.as_ref().map(|s| s.proto.quantity as u64).unwrap_or(0)
}

#[test]
fn new_stack_of_stackable_item() {
    let dirt = item("default:dirt", Some(QuantityType::Stack(256)));
    let s = ItemStack::new(&dirt, 7);
    assert_eq!(s.proto.item_name, "default:dirt");
    assert_eq!(s.proto.quantity, 7);
    assert_eq!(s.proto.max_stack, 256);
    assert!(s.proto.stackable);
}

#[test]
fn new_stack_of_wear_item_and_of_plain_item() {
    let pick = item("default:pickaxe", Some(QuantityType::Wear(100)));
    let s = ItemStack::new(&pick, 1);
    assert_eq!(s.proto.max_stack, 0);
    assert!(!s.proto.stackable);
    let plain = item("default:key", None);
    let s = ItemStack::new(&plain, 1);
    assert_eq!(s.proto.max_stack, 0);
    assert!(!s.proto.stackable);
}

#[test]
fn from_proto_of_empty_name_is_no_stack() {
    let record = stack("", 0, 0, false).proto;
    assert!(ItemStack::from_proto(&record).is_none());
    let record = stack("default:dirt", 3, 256, true).proto;
    let s = ItemStack::from_proto(&record).unwrap();
    assert_eq!(s.proto().quantity, 3);
    assert_eq!(s.proto().item_name, "default:dirt");
}

#[test]
fn try_merge_moves_what_fits() {
    let mut a = stack("default:dirt", 250, 256, true);
    let left = a.try_merge(stack("default:dirt", 10, 256, true)).unwrap();
    assert_eq!(a.proto.quantity, 256);
    assert_eq!(left.proto.quantity, 4);
    assert_eq!(left.proto.item_name, "default:dirt");
    assert_eq!(left.proto.max_stack, 256);
}

#[test]
fn try_merge_absorbs_whole_stack() {
    let mut a = stack("default:dirt", 10, 256, true);
    assert!(a.try_merge(stack("default:dirt", 20, 256, true)).is_none());
    assert_eq!(a.proto.quantity, 30);
}

#[test]
fn try_merge_refuses_other_kind() {
    let mut a = stack("default:dirt", 10, 256, true);
    let left = a.try_merge(stack("default:stone", 20, 256, true)).unwrap();
    assert_eq!(a.proto.quantity, 10);
    assert_eq!(left.proto.quantity, 20);
    assert_eq!(left.proto.item_name, "default:stone");
}

#[test]
fn try_merge_refuses_unstackable_on_either_side() {
    let mut tool = stack("default:pickaxe", 1, 0, false);
    let left = tool.try_merge(stack("default:pickaxe", 1, 0, false)).unwrap();
    assert_eq!(tool.proto.quantity, 1);
    assert_eq!(left.proto.quantity, 1);
    let mut dirt = stack("default:dirt", 1, 256, true);
    let left = dirt.try_merge(stack("default:dirt", 5, 0, false)).unwrap();
    assert_eq!(dirt.proto.quantity, 1);
    assert_eq!(left.proto.quantity, 5);
}

#[test]
fn try_merge_into_stack_over_its_limit_moves_nothing() {
    let mut a = stack("default:dirt", 300, 256, true);
    let left = a.try_merge(stack("default:dirt", 5, 256, true)).unwrap();
    assert_eq!(a.proto.quantity, 300);
    assert_eq!(left.proto.quantity, 5);
}

#[test]
fn try_merge_all_is_all_or_nothing() {
    let mut a = stack("default:dirt", 250, 256, true);
    assert!(!a.try_merge_all(stack("default:dirt", 7, 256, true)));
    assert_eq!(a.proto.quantity, 250);
    assert!(a.try_merge_all(stack("default:dirt", 6, 256, true)));
    assert_eq!(a.proto.quantity, 256);
    assert!(!a.try_merge_all(stack("default:stone", 0, 256, true)));
    assert_eq!(a.proto.quantity, 256);
}

#[test]
fn decrement_counts_down_to_nothing() {
    let s = stack("default:dirt", 3, 256, true);
    let s = s.decrement().unwrap();
    assert_eq!(s.proto.quantity, 2);
    let s = s.decrement().unwrap();
    assert_eq!(s.proto.quantity, 1);
    assert!(s.decrement().is_none());
    assert!(stack("default:dirt", 0, 256, true).decrement().is_none());
}

#[test]
fn merge_into_empty_slot_respects_the_stack_limit() {
    let mut slot: Option<ItemStack> = None;
    let left = slot.try_merge(Some(stack("default:dirt", 300, 256, true)));
    assert_eq!(slot.as_ref().unwrap().proto.quantity, 256);
    let left = left.unwrap();
    assert_eq!(left.proto.quantity, 44);
    assert_eq!(left.proto.item_name, "default:dirt");
}

#[test]
fn merge_into_empty_slot_takes_unstackable_whole() {
    let mut slot: Option<ItemStack> = None;
    assert!(slot.try_merge(Some(stack("default:pickaxe", 1, 0, false))).is_none());
    assert_eq!(slot.as_ref().unwrap().proto.item_name, "default:pickaxe");
    let mut slot: Option<ItemStack> = None;
    assert!(slot.try_merge(None).is_none());
    assert!(slot.is_none());
}

#[test]
fn merge_conserves_quantity_on_concrete_values() {
    for (held, put) in [(0u32, 300u32), (250, 10), (256, 1), (5, 5), (300, 7)] {
        let mut slot = if held == 0 { None } else { Some(stack("default:dirt", held, 256, true)) };
        let before = quantity(&slot) + put as u64;
        let left = slot.try_merge(Some(stack("default:dirt", put, 256, true)));
        assert_eq!(before, quantity(&slot) + quantity(&left));
    }
}

#[test]
fn slot_try_merge_all_on_concrete_values() {
    let mut slot: Option<ItemStack> = None;
    assert!(!slot.try_merge_all(Some(stack("default:dirt", 300, 256, true))));
    assert!(slot.is_none());
    assert!(slot.try_merge_all(Some(stack("default:dirt", 200, 256, true))));
    assert_eq!(quantity(&slot), 200);
    assert!(!slot.try_merge_all(Some(stack("default:dirt", 57, 256, true))));
    assert_eq!(quantity(&slot), 200);
    assert!(slot.try_merge_all(Some(stack("default:dirt", 56, 256, true))));
    assert_eq!(quantity(&slot), 256);
    assert!(slot.try_merge_all(None));
    assert_eq!(quantity(&slot), 256);
}

#[test]
fn take_items_splits_a_stack() {
    let mut slot = Some(stack("default:dirt", 10, 256, true));
    let taken = slot.take_items(Some(3)).unwrap();
    assert_eq!(taken.proto.quantity, 3);
    assert_eq!(taken.proto.item_name, "default:dirt");
    assert_eq!(quantity(&slot), 7);
    let taken = slot.take_items(Some(100)).unwrap();
    assert_eq!(taken.proto.quantity, 7);
    assert!(slot.is_none());
    assert!(slot.take_items(Some(1)).is_none());
    assert!(slot.take_items(None).is_none());
}

#[test]
fn take_items_all_empties_the_slot() {
    let mut slot = Some(stack("default:dirt", 10, 256, true));
    let taken = slot.take_items(None).unwrap();
    assert_eq!(taken.proto.quantity, 10);
    assert!(slot.is_none());
}

#[test]
fn take_items_of_unstackable_is_whole_or_nothing() {
    let mut slot = Some(stack("default:pickaxe", 1, 0, false));
    assert!(slot.take_items(Some(1)).is_none());
    assert_eq!(quantity(&slot), 1);
    let taken = slot.take_items(None).unwrap();
    assert_eq!(taken.proto.item_name, "default:pickaxe");
    assert!(slot.is_none());
}

#[test]
fn take_bounds_on_concrete_values() {
    for (held, count) in [(10u32, 3u32), (10, 10), (10, 11), (1, 1), (7, 0)] {
        let mut slot = Some(stack("default:dirt", held, 256, true));
        let taken = slot.take_items(Some(count));
        assert!(quantity(&taken) <= count.min(held) as u64);
        assert_eq!(quantity(&slot) + quantity(&taken), held as u64);
    }
}

#[test]
fn try_take_all_needs_enough_items() {
    let mut slot = Some(stack("default:dirt", 10, 256, true));
    assert!(slot.try_take_all(Some(11)).is_none());
    assert_eq!(quantity(&slot), 10);
    let taken = slot.try_take_all(Some(4)).unwrap();
    assert_eq!(taken.proto.quantity, 4);
    assert_eq!(quantity(&slot), 6);
    let taken = slot.try_take_all(Some(6)).unwrap();
    assert_eq!(taken.proto.quantity, 6);
    assert!(slot.is_none());
}

#[test]
fn try_take_all_from_empty_or_unstackable_slot() {
    let mut slot: Option<ItemStack> = None;
    assert!(slot.try_take_all(Some(1)).is_none());
    assert!(slot.try_take_all(None).is_none());
    let mut slot = Some(stack("default:pickaxe", 1, 0, false));
    assert!(slot.try_take_all(Some(1)).is_none());
    assert_eq!(quantity(&slot), 1);
    assert!(slot.try_take_all(None).is_some());
    assert!(slot.is_none());
}

#[test]
fn register_and_find_items() {
    let mut manager: ItemManager<(), ()> = ItemManager::new();
    assert!(manager.get_item("default:dirt").is_none());
    manager.register_item(item("default:dirt", Some(QuantityType::Stack(256)))).unwrap();
    manager.register_item(item("default:stone", Some(QuantityType::Stack(64)))).unwrap();
    assert_eq!(manager.get_item("default:stone").unwrap().proto.display_name, "DEFAULT:STONE");
    assert!(manager.get_item("default:sand").is_none());
    let held = stack("default:dirt", 1, 256, true);
    assert_eq!(manager.from_stack(&held).unwrap().proto.short_name, "default:dirt");
    let names: Vec<&str> =
        manager.registered_items().iter().map(|i| i.proto.short_name.as_str()).collect();
    assert_eq!(names, vec!["default:dirt", "default:stone"]);
}

#[test]
fn register_item_twice_fails() {
    let mut manager: ItemManager<(), ()> = ItemManager::new();
    manager.register_item(item("default:dirt", None)).unwrap();
    match manager.register_item(item("default:dirt", Some(QuantityType::Stack(1)))) {
        Err(ItemError::AlreadyRegistered { name }) => assert_eq!(name, "default:dirt"),
        Ok(()) => panic!("registered twice"),
    }
    assert_eq!(manager.registered_items().len(), 1);
    assert!(manager.get_item("default:dirt").unwrap().proto.quantity_type.is_none());
}

fn fields(slot: &Option<ItemStack>) -> Option<(String, u32, u32, bool)> {
    slot.as_ref().map(|s| {
        (s.proto.item_name.clone(), s.proto.quantity, s.proto.max_stack, s.proto.stackable)
    })
}

#[test]
fn take_items_of_nothing_hands_out_nothing() {
    let mut slot = Some(stack("default:dirt", 7, 256, true));
    assert!(slot.take_items(Some(0)).is_none());
    assert_eq!(fields(&slot), Some(("default:dirt".to_string(), 7, 256, true)));
    let mut empty: Option<ItemStack> = None;
    assert!(empty.take_items(Some(0)).is_none());
    assert!(empty.is_none());
}

#[test]
fn try_take_all_of_nothing_hands_out_nothing() {
    let mut slot = Some(stack("default:dirt", 7, 256, true));
    assert!(slot.try_take_all(Some(0)).is_none());
    assert_eq!(fields(&slot), Some(("default:dirt".to_string(), 7, 256, true)));
    let mut rigid = Some(stack("default:pickaxe", 1, 0, false));
    assert!(rigid.try_take_all(Some(0)).is_none());
    assert_eq!(quantity(&rigid), 1);
}

#[test]
fn stack_with_no_limit_is_never_split() {
    // the flag is set, and yet the stack takes no second item
    for count in [1u32, 2, 4, 5, 6, u32::MAX] {
        let mut slot = Some(stack("default:odd", 5, 0, true));
        assert!(slot.take_items(Some(count)).is_none());
        assert_eq!(fields(&slot), Some(("default:odd".to_string(), 5, 0, true)));
        assert!(slot.try_take_all(Some(count)).is_none());
        assert_eq!(fields(&slot), Some(("default:odd".to_string(), 5, 0, true)));
    }
    let mut slot = Some(stack("default:odd", 5, 0, true));
    assert_eq!(fields(&slot.take_items(None)), Some(("default:odd".to_string(), 5, 0, true)));
    assert!(slot.is_none());
    let mut slot = Some(stack("default:odd", 5, 0, true));
    assert_eq!(fields(&slot.try_take_all(None)), Some(("default:odd".to_string(), 5, 0, true)));
    assert!(slot.is_none());
}

#[test]
fn splits_needs_the_flag_and_a_limit() {
    assert!(stack("default:dirt", 1, 256, true).splits());
    assert!(!stack("default:odd", 1, 0, true).splits());
    assert!(!stack("default:pickaxe", 1, 256, false).splits());
    assert!(!stack("default:pickaxe", 1, 0, false).splits());
}

#[test]
fn taken_stacks_hold_at_least_one_item() {
    for (held, count) in [(1u32, 0u32), (1, 1), (9, 0), (9, 1), (9, 8), (9, 9), (9, 10)] {
        let mut slot = Some(stack("default:dirt", held, 256, true));
        let taken = slot.take_items(Some(count));
        assert!(taken.as_ref().map_or(true, |s| s.proto.quantity >= 1));
        assert!(slot.as_ref().map_or(true, |s| s.proto.quantity >= 1));
        let mut slot = Some(stack("default:dirt", held, 256, true));
        let taken = slot.try_take_all(Some(count));
        assert!(taken.as_ref().map_or(true, |s| s.proto.quantity >= 1));
        assert!(slot.as_ref().map_or(true, |s| s.proto.quantity >= 1));
    }
}
