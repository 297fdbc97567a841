use cuberef_game_state::client::{ClientInventory, ClientItemManager};
use cuberef_game_state::items::ItemError;
use cuberef_game_state::protocol::{Inventory, ItemDef, ItemStack, QuantityType};

fn def(name: &str, quantity_type: Option<QuantityType>) -> ItemDef {
    ItemDef { short_name: name.to_string(), display_name: format!("the {name}"), quantity_type }
}

fn record(name: &str, quantity: u32) -> ItemStack {
    ItemStack { item_name: name.to_string(), quantity, max_stack: 256, stackable: true }
}

#[test]
fn client_items_are_found_by_name() {
    let defs = vec![
        def("default:dirt", Some(QuantityType::Stack(256))),
        def("default:pickaxe", Some(QuantityType::Wear(100))),
        def("default:key", None),
    ];
    let manager = ClientItemManager::new(defs).unwrap();
    assert_eq!(manager.get("default:pickaxe").unwrap().display_name, "the default:pickaxe");
    assert_eq!(manager.get("default:dirt").unwrap().quantity_type, Some(QuantityType::Stack(256)));
    assert!(manager.get("default:stone").is_none());
    assert!(manager.get("").is_none());
    let names: Vec<&str> = manager.all_item_defs().iter().map(|d| d.short_name.as_str()).collect();
    assert_eq!(names, vec!["default:dirt", "default:pickaxe", "default:key"]);
}

#[test]
fn client_items_reject_a_name_that_was_given_before() {
    let defs = vec![def("a", None), def("b", None), def("c", None), def("b", None), def("a", None)];
    match ClientItemManager::new(defs) {
        Err(ItemError::AlreadyRegistered { name }) => assert_eq!(name, "b"),
        Ok(_) => panic!("a name was accepted twice"),
    }
    assert!(ClientItemManager::new(vec![]).unwrap().all_item_defs().is_empty());
}

#[test]
fn client_inventory_shows_records_without_name_as_empty_slots() {
    let proto = Inventory {
        height: 1,
        width: 3,
        contents: vec![record("", 0), record("dirt", 5), record("", 9)],
    };
    let mut inventory = ClientInventory::from_proto(proto);
    assert_eq!(inventory.dimensions(), (1, 3));
    assert_eq!(inventory.contents().len(), 3);
    assert!(inventory.contents()[0].is_none());
    assert_eq!(inventory.contents()[1].as_ref().unwrap().quantity, 5);
    assert!(inventory.contents()[2].is_none());
    *inventory.contents_mut(2) = inventory.contents_mut(1).take();
    assert!(inventory.contents()[1].is_none());
    assert_eq!(inventory.contents()[2].as_ref().unwrap().item_name, "dirt");
}

#[test]
fn client_inventory_takes_the_record_as_it_is() {
    let proto = Inventory { height: 7, width: 9, contents: vec![record("dirt", 1)] };
    let inventory = ClientInventory::from_proto(proto);
    assert_eq!(inventory.dimensions(), (7, 9));
    assert_eq!(inventory.contents().len(), 1);
}
