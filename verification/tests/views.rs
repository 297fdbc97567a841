use cuberef_game_state::database::InMemGameDabase;
use cuberef_game_state::game_state::GameState;
use cuberef_game_state::inventory::{InventoryError, InventoryKey};
use cuberef_game_state::inventory_view::{
    return_to_origin, BorrowedStack, InventoryView, InventoryViewId, TypeErasedInventoryView,
    ViewBacking,
};
use cuberef_game_state::items::ItemStack;

type State = GameState<InMemGameDabase>;
type View = InventoryView<()>;

fn stack(name: &str, quantity: u32, max_stack: u32, stackable: bool) -> ItemStack {
    ItemStack {
        proto: cuberef_game_state::protocol::ItemStack {
            item_name: name.to_string(),
            quantity,
            max_stack,
            stackable,
        },
    }
}

fn quantities(slots: &[Option<ItemStack>]) -> Vec<u32> {
    slots.iter().map(|slot| slot.as_ref().map(|s| s.proto.quantity).unwrap_or(0)).collect()
}

fn stored_quantities(state: &State, key: &InventoryKey) -> Vec<u32> {
    quantities(state.inventory_manager().get(key).unwrap().unwrap().contents())
}

fn new_state() -> State {
    GameState::new(InMemGameDabase::new())
}

#[test]
fn view_ids_increase() {
    let mut state = new_state();
    let key = state.inventory_manager_mut().make_inventory(2, 3).unwrap();
    let a = View::new_stored(key, &mut state, true, true).unwrap();
    let b = View::new_transient(&mut state, (1, 1), vec![], true, true).unwrap();
    let c = View::new_stored(key, &mut state, false, false).unwrap();
    assert_eq!(a.id(), InventoryViewId(1));
    assert_eq!(b.id(), InventoryViewId(2));
    assert_eq!(c.id(), InventoryViewId(3));
    assert!(a.id() < b.id() && b.id() < c.id());
}

#[test]
fn stored_view_takes_its_shape_from_the_inventory() {
    let mut state = new_state();
    let key = state.inventory_manager_mut().make_inventory(2, 3).unwrap();
    let view = View::new_stored(key, &mut state, true, false).unwrap();
    assert_eq!(view.dimensions(), (2, 3));
    assert!(view.can_place());
    assert!(!view.can_take());
    assert!(matches!(view.backing(), ViewBacking::Stored(k) if *k == key));
    assert!(view.wants_update_for(&key));
    assert!(!view.wants_update_for(&InventoryKey::random()));
}

#[test]
fn stored_view_of_unknown_inventory_fails_and_uses_no_id() {
    let mut state = new_state();
    let missing = View::new_stored(InventoryKey::random(), &mut state, true, true);
    assert!(matches!(missing, Err(InventoryError::NotFound)));
    let key = state.inventory_manager_mut().make_inventory(1, 1).unwrap();
    assert_eq!(View::new_stored(key, &mut state, true, true).unwrap().id(), InventoryViewId(1));
}

#[test]
fn transient_view_starts_empty_or_with_the_given_stacks() {
    let mut state = new_state();
    let view = View::new_transient(&mut state, (2, 2), vec![], true, true).unwrap();
    assert_eq!(view.dimensions(), (2, 2));
    assert_eq!(quantities(&view.peek(&state).unwrap()), vec![0, 0, 0, 0]);
    assert!(!view.wants_update_for(&InventoryKey::random()));
    let given = vec![None, Some(BorrowedStack::new(stack("dirt", 3, 256, true), None))];
    let view = View::new_transient(&mut state, (1, 2), given, true, true).unwrap();
    assert_eq!(quantities(&view.peek(&state).unwrap()), vec![0, 3]);
    let nothing = View::new_transient(&mut state, (0, 5), vec![], true, true).unwrap();
    assert!(nothing.peek(&state).unwrap().is_empty());
}

#[test]
fn transient_view_rejects_contents_of_the_wrong_length() {
    let mut state = new_state();
    let given = vec![None, None, None];
    let result = View::new_transient(&mut state, (2, 2), given, true, true);
    assert!(matches!(result, Err(InventoryError::Dimension)));
}

#[test]
fn peek_of_stored_view_is_always_current() {
    let mut state = new_state();
    let key = state.inventory_manager_mut().make_inventory(1, 2).unwrap();
    let view = View::new_stored(key, &mut state, true, true).unwrap();
    assert_eq!(quantities(&view.peek(&state).unwrap()), vec![0, 0]);
    state
        .inventory_manager_mut()
        .mutate_inventory_atomically(&key, |inventory| {
            *inventory.contents_mut(1) = Some(stack("dirt", 9, 256, true));
            Ok(())
        })
        .unwrap();
    assert_eq!(quantities(&view.peek(&state).unwrap()), vec![0, 9]);
}

#[test]
fn take_from_stored_view_records_the_origin() {
    let mut state = new_state();
    let key = state.inventory_manager_mut().make_inventory(1, 2).unwrap();
    let mut view = View::new_stored(key, &mut state, true, true).unwrap();
    view.put(&mut state, 1, BorrowedStack::new(stack("dirt", 10, 256, true), None)).unwrap();
    let mut updates = state.inventory_manager().subscribe();
    let taken = view.take(&mut state, 1, Some(4)).unwrap().unwrap();
    assert_eq!(taken.borrowed_stack().proto.quantity, 4);
    assert_eq!(taken.borrowed_stack().proto.item_name, "dirt");
    assert_eq!(taken.borrows_from(), Some((key, 1)));
    assert_eq!(stored_quantities(&state, &key), vec![0, 6]);
    assert_eq!(updates.try_recv().unwrap(), key);
    assert!(view.take(&mut state, 0, None).unwrap().is_none());
    let all = view.take(&mut state, 1, None).unwrap().unwrap();
    assert_eq!(all.borrowed_stack().proto.quantity, 6);
    assert_eq!(stored_quantities(&state, &key), vec![0, 0]);
}

#[test]
fn slot_outside_the_view_is_a_range_error() {
    let mut state = new_state();
    let key = state.inventory_manager_mut().make_inventory(2, 2).unwrap();
    let mut stored = View::new_stored(key, &mut state, true, true).unwrap();
    let mut transient = View::new_transient(&mut state, (2, 2), vec![], true, true).unwrap();
    for view in [&mut stored, &mut transient] {
        assert!(matches!(view.take(&mut state, 4, None), Err(InventoryError::Range)));
        assert!(matches!(view.take(&mut state, usize::MAX, Some(1)), Err(InventoryError::Range)));
        let put = view.put(&mut state, 4, BorrowedStack::new(stack("dirt", 1, 256, true), None));
        assert!(matches!(put, Err(InventoryError::Range)));
        assert!(view.take(&mut state, 3, None).unwrap().is_none());
    }
    assert_eq!(stored_quantities(&state, &key), vec![0, 0, 0, 0]);
}

#[test]
fn put_into_stored_view_merges_and_hands_back_the_rest() {
    let mut state = new_state();
    let key = state.inventory_manager_mut().make_inventory(1, 1).unwrap();
    let other = InventoryKey::random();
    let mut view = View::new_stored(key, &mut state, true, true).unwrap();
    let put = BorrowedStack::new(stack("dirt", 300, 256, true), Some((other, 5)));
    let left = view.put(&mut state, 0, put).unwrap().unwrap();
    assert_eq!(left.borrowed_stack().proto.quantity, 44);
    assert_eq!(left.borrows_from(), Some((other, 5)));
    assert_eq!(stored_quantities(&state, &key), vec![256]);
    let refused = view
        .put(&mut state, 0, BorrowedStack::new(stack("stone", 2, 64, true), None))
        .unwrap()
        .unwrap();
    assert_eq!(refused.borrowed_stack().proto.quantity, 2);
    assert_eq!(refused.borrows_from(), None);
    assert_eq!(stored_quantities(&state, &key), vec![256]);
}

#[test]
fn take_from_transient_view_keeps_the_origin() {
    let mut state = new_state();
    let origin = Some((InventoryKey::random(), 3));
    let given = vec![Some(BorrowedStack::new(stack("dirt", 10, 256, true), origin)), None];
    let mut view = View::new_transient(&mut state, (1, 2), given, true, true).unwrap();
    let taken = view.take(&mut state, 0, Some(4)).unwrap().unwrap();
    assert_eq!(taken.borrowed_stack().proto.quantity, 4);
    assert_eq!(taken.borrows_from(), origin);
    assert_eq!(quantities(&view.peek(&state).unwrap()), vec![6, 0]);
    assert!(view.take(&mut state, 1, Some(1)).unwrap().is_none());
    let rest = view.take(&mut state, 0, Some(100)).unwrap().unwrap();
    assert_eq!(rest.borrowed_stack().proto.quantity, 6);
    assert_eq!(rest.borrows_from(), origin);
    assert_eq!(quantities(&view.peek(&state).unwrap()), vec![0, 0]);
}

#[test]
fn put_into_transient_view_merges_into_the_slot() {
    let mut state = new_state();
    let first = Some((InventoryKey::random(), 0));
    let second = Some((InventoryKey::random(), 1));
    let mut view = View::new_transient(&mut state, (1, 1), vec![], true, true).unwrap();
    let left =
        view.put(&mut state, 0, BorrowedStack::new(stack("dirt", 250, 256, true), first)).unwrap();
    assert!(left.is_none());
    let left = view
        .put(&mut state, 0, BorrowedStack::new(stack("dirt", 10, 256, true), second))
        .unwrap()
        .unwrap();
    assert_eq!(left.borrowed_stack().proto.quantity, 4);
    assert_eq!(left.borrows_from(), second);
    assert_eq!(quantities(&view.peek(&state).unwrap()), vec![256]);
    let held = view.take(&mut state, 0, None).unwrap().unwrap();
    assert_eq!(held.borrows_from(), first);
    assert_eq!(held.borrowed_stack().proto.quantity, 256);
}

#[test]
fn cleared_transient_view_returns_stack_to_its_origin() {
    let mut state = new_state();
    let k = state.inventory_manager_mut().make_inventory(1, 2).unwrap();
    let held = BorrowedStack::new(stack("dirt", 7, 256, true), Some((k, 0)));
    let mut view = View::new_transient(&mut state, (1, 1), vec![Some(held)], true, true).unwrap();
    let kept = view.clear(&mut state);
    assert!(kept.is_empty());
    assert_eq!(stored_quantities(&state, &k), vec![7, 0]);
    assert_eq!(quantities(&view.peek(&state).unwrap_or_default()), Vec::<u32>::new());
}

#[test]
fn cleared_stack_goes_to_an_open_slot_when_its_own_is_taken() {
    let mut state = new_state();
    let k = state.inventory_manager_mut().make_inventory(1, 3).unwrap();
    state
        .inventory_manager_mut()
        .mutate_inventory_atomically(&k, |inventory| {
            *inventory.contents_mut(0) = Some(stack("stone", 1, 64, true));
            *inventory.contents_mut(2) = Some(stack("dirt", 255, 256, true));
            Ok(())
        })
        .unwrap();
    let held = BorrowedStack::new(stack("dirt", 7, 256, true), Some((k, 0)));
    let mut view = View::new_transient(&mut state, (1, 1), vec![Some(held)], true, true).unwrap();
    assert!(view.clear(&mut state).is_empty());
    assert_eq!(stored_quantities(&state, &k), vec![1, 6, 256]);
}

#[test]
fn clear_hands_back_what_cannot_be_returned() {
    let mut state = new_state();
    let full = state.inventory_manager_mut().make_inventory(1, 1).unwrap();
    state
        .inventory_manager_mut()
        .mutate_inventory_atomically(&full, |inventory| {
            *inventory.contents_mut(0) = Some(stack("stone", 1, 64, true));
            Ok(())
        })
        .unwrap();
    let gone = InventoryKey::random();
    let given = vec![
        Some(BorrowedStack::new(stack("dirt", 7, 256, true), Some((full, 0)))),
        None,
        Some(BorrowedStack::new(stack("sand", 2, 256, true), None)),
        Some(BorrowedStack::new(stack("coal", 3, 256, true), Some((gone, 0)))),
    ];
    let mut view = View::new_transient(&mut state, (2, 2), given, true, true).unwrap();
    let mut updates = state.inventory_manager().subscribe();
    let kept = view.clear(&mut state);
    let names: Vec<&str> =
        kept.iter().map(|b| b.borrowed_stack().proto.item_name.as_str()).collect();
    assert_eq!(names, vec!["dirt", "sand", "coal"]);
    assert_eq!(kept[0].borrows_from(), Some((full, 0)));
    assert_eq!(kept[0].borrowed_stack().proto.quantity, 7);
    assert_eq!(kept[1].borrows_from(), None);
    assert_eq!(kept[2].borrows_from(), Some((gone, 0)));
    assert_eq!(stored_quantities(&state, &full), vec![1]);
    assert_eq!(updates.try_recv().unwrap(), full);
    assert!(updates.try_recv().is_err());
}

#[test]
fn cleared_view_stays_cleared() {
    let mut state = new_state();
    let key = state.inventory_manager_mut().make_inventory(1, 1).unwrap();
    let mut stored = View::new_stored(key, &mut state, true, true).unwrap();
    let mut transient = View::new_transient(&mut state, (1, 1), vec![], true, true).unwrap();
    let mut updates = state.inventory_manager().subscribe();
    for view in [&mut stored, &mut transient] {
        assert!(view.clear(&mut state).is_empty());
        assert!(matches!(view.peek(&state), Err(InventoryError::Cleared)));
        assert!(matches!(view.take(&mut state, 0, None), Err(InventoryError::Cleared)));
        let put = view.put(&mut state, 0, BorrowedStack::new(stack("dirt", 1, 256, true), None));
        assert!(matches!(put, Err(InventoryError::Cleared)));
        assert!(view.clear(&mut state).is_empty());
    }
    assert!(updates.try_recv().is_err());
    assert_eq!(stored_quantities(&state, &key), vec![0]);
}

#[test]
fn return_to_origin_on_concrete_values() {
    let mut state = new_state();
    let k = state.inventory_manager_mut().make_inventory(1, 1).unwrap();
    let manager = state.inventory_manager_mut();
    let left = return_to_origin(
        manager,
        BorrowedStack::new(stack("dirt", 300, 256, true), Some((k, 0))),
    )
    .unwrap();
    assert_eq!(left.borrowed_stack().proto.quantity, 44);
    assert_eq!(left.borrows_from(), Some((k, 0)));
    assert_eq!(stored_quantities(&state, &k), vec![256]);
    let nowhere = BorrowedStack::new(stack("dirt", 1, 256, true), None);
    let kept = return_to_origin(state.inventory_manager_mut(), nowhere).unwrap();
    assert_eq!(kept.borrowed_stack().proto.quantity, 1);
}

#[test]
fn tick_of_the_game_state() {
    let mut state = new_state();
    assert_eq!(state.tick(), 0);
    state.set_tick(99);
    assert_eq!(state.tick(), 99);
    assert_eq!(state.next_view_id(), InventoryViewId(1));
    assert_eq!(state.next_view_id(), InventoryViewId(2));
    let mut counter = u64::MAX;
    assert_eq!(
        cuberef_game_state::inventory_view::next_id(&mut counter),
        InventoryViewId(u64::MAX)
    );
    assert_eq!(counter, 0);
}

fn stored_total(state: &State, key: &InventoryKey, name: &str) -> u64 {
    let inventory = state.inventory_manager().get(key).unwrap().unwrap();
    inventory
        .contents()
        .iter()
        .flatten()
        .filter(|s| s.proto.item_name == name)
        .map(|s| s.proto.quantity as u64)
        .sum()
}

#[test]
fn cleared_stack_adds_to_the_items_of_its_kind_alone() {
    let mut state = new_state();
    let k = state.inventory_manager_mut().make_inventory(2, 2).unwrap();
    state
        .inventory_manager_mut()
        .mutate_inventory_atomically(&k, |inventory| {
            *inventory.contents_mut(0) = Some(stack("stone", 60, 64, true));
            *inventory.contents_mut(1) = Some(stack("dirt", 250, 256, true));
            *inventory.contents_mut(3) = Some(stack("dirt", 3, 256, true));
            Ok(())
        })
        .unwrap();
    let held = BorrowedStack::new(stack("dirt", 40, 256, true), Some((k, 0)));
    let mut view =
        View::new_transient(&mut state, (1, 2), vec![None, Some(held)], true, true).unwrap();
    assert!(view.clear(&mut state).is_empty());
    assert_eq!(stored_total(&state, &k, "dirt"), 253 + 40);
    assert_eq!(stored_total(&state, &k, "stone"), 60);
    assert_eq!(stored_quantities(&state, &k), vec![60, 256, 0, 37]);
    let stored = state.inventory_manager().get(&k).unwrap().unwrap();
    assert_eq!(stored.dimensions(), (2, 2));
    assert_eq!(stored.len(), 4);
    assert!(matches!(view.peek(&state), Err(InventoryError::Cleared)));
}

#[test]
fn every_view_refuses_a_slot_that_it_does_not_have() {
    fn refused<V: TypeErasedInventoryView<InMemGameDabase>>(view: &mut V, state: &mut State) {
        assert!(matches!(view.take(state, 6, Some(1)), Err(InventoryError::Range)));
        let put = view.put(state, 6, BorrowedStack::new(stack("dirt", 1, 256, true), None));
        assert!(matches!(put, Err(InventoryError::Range)));
    }
    let mut state = new_state();
    let k = state.inventory_manager_mut().make_inventory(2, 3).unwrap();
    let mut stored = View::new_stored(k, &mut state, true, true).unwrap();
    let mut transient = View::new_transient(&mut state, (3, 2), vec![], true, true).unwrap();
    refused(&mut stored, &mut state);
    refused(&mut transient, &mut state);
    assert_eq!(stored_quantities(&state, &k), vec![0; 6]);
}

#[test]
fn take_of_nothing_from_a_view_changes_nothing() {
    let mut state = new_state();
    let k = state.inventory_manager_mut().make_inventory(1, 1).unwrap();
    state
        .inventory_manager_mut()
        .mutate_inventory_atomically(&k, |inventory| {
            *inventory.contents_mut(0) = Some(stack("dirt", 9, 256, true));
            Ok(())
        })
        .unwrap();
    let mut stored = View::new_stored(k, &mut state, true, true).unwrap();
    assert!(stored.take(&mut state, 0, Some(0)).unwrap().is_none());
    assert_eq!(stored_quantities(&state, &k), vec![9]);
    let held = BorrowedStack::new(stack("dirt", 4, 256, true), Some((k, 0)));
    let mut transient =
        View::new_transient(&mut state, (1, 1), vec![Some(held)], true, true).unwrap();
    assert!(transient.take(&mut state, 0, Some(0)).unwrap().is_none());
    assert_eq!(quantities(&transient.peek(&state).unwrap()), vec![4]);
}
