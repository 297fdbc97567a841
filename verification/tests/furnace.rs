use cuberef_game_state::furnace::{
    furnace_deserialize, furnace_dig_handler, furnace_serialize, BlockTypeHandle, FuelRecipe,
    FurnaceRecipes, FurnaceState, FurnaceTimerCallback, SmeltRecipe,
};
use cuberef_game_state::inventory::Inventory;
use cuberef_game_state::items::ItemStack;

const OFF: BlockTypeHandle = BlockTypeHandle { kind: 10, variant: 0 };
const ON: BlockTypeHandle = BlockTypeHandle { kind: 11, variant: 0 };
const AIR: BlockTypeHandle = BlockTypeHandle { kind: 0, variant: 0 };

fn callback() -> FurnaceTimerCallback {
    FurnaceTimerCallback { furnace_off_handle: OFF, furnace_on_handle: ON }
}

fn stack(name: &str, quantity: u32) -> ItemStack {
    ItemStack {
        proto: cuberef_game_state::protocol::ItemStack {
            item_name: name.to_string(),
            quantity,
            max_stack: 256,
            stackable: true,
        },
    }
}

fn quantity(slot: &Option<ItemStack>) -> u32 {
    slot.as_ref().map(|s| s.proto.quantity).unwrap_or(0)
}

fn smelting(result: &str, smelt_ticks: u32) -> SmeltRecipe {
    SmeltRecipe { quantity: 1, smelt_ticks, result: stack(result, 1) }
}

fn recipes(fuel: bool, input: bool, input_after: bool) -> FurnaceRecipes {
    FurnaceRecipes {
        fuel: if fuel { Some(FuelRecipe { quantity: 1, burn_ticks: 10 }) } else { None },
        input: if input { Some(smelting("stone", 3)) } else { None },
        input_after: if input_after { Some(smelting("stone", 3)) } else { None },
    }
}

struct Furnace {
    block: BlockTypeHandle,
    state: FurnaceState,
    input: Option<ItemStack>,
    output: Option<ItemStack>,
    fuel: Option<ItemStack>,
}

impl Furnace {
    fn tick(&mut self, recipes: &FurnaceRecipes) -> bool {
        callback().inline_callback(
            &mut self.block,
            &mut self.state,
            &mut self.input,
            &mut self.output,
            &mut self.fuel,
            recipes,
        )
    }
}

fn cold(input: Option<ItemStack>, fuel: Option<ItemStack>) -> Furnace {
    Furnace {
        block: BlockTypeHandle { kind: 10, variant: 3 },
        state: FurnaceState::default(),
        input,
        output: None,
        fuel,
    }
}

#[test]
fn furnace_state_has_the_expected_bytes() {
    let state = FurnaceState {
        flame_left: 3,
        total_flame: 0,
        smelt_progress: 300,
        smelt_ticks: 4,
        smelted_item: "dirt".to_string(),
    };
    let bytes = furnace_serialize(&state);
    assert_eq!(
        bytes,
        vec![0x08, 3, 0x18, 0xac, 0x02, 0x20, 4, 0x2a, 4, b'd', b'i', b'r', b't']
    );
    assert_eq!(furnace_serialize(&FurnaceState::default()), Vec::<u8>::new());
}

#[test]
fn furnace_state_round_trip() {
    for state in [
        FurnaceState::default(),
        FurnaceState {
            flame_left: u32::MAX,
            total_flame: 1,
            smelt_progress: 128,
            smelt_ticks: 255,
            smelted_item: "default:dirt_with_grass".to_string(),
        },
    ] {
        let bytes = furnace_serialize(&state);
        let back = furnace_deserialize(&bytes).unwrap();
        assert_eq!(back.flame_left, state.flame_left);
        assert_eq!(back.total_flame, state.total_flame);
        assert_eq!(back.smelt_progress, state.smelt_progress);
        assert_eq!(back.smelt_ticks, state.smelt_ticks);
        assert_eq!(back.smelted_item, state.smelted_item);
        assert_eq!(back.encode_to_vec(), bytes);
    }
    assert!(furnace_deserialize(&[0x08, 0x00]).is_err());
    assert!(furnace_deserialize(&[0x30, 0x01]).is_err());
    assert!(FurnaceState::decode(&[0x2a, 0x01]).is_err());
}

#[test]
fn appearance_follows_the_flame() {
    let cb = callback();
    let mut block = BlockTypeHandle { kind: 10, variant: 5 };
    assert!(cb.set_appearance_on(&mut block));
    assert_eq!(block, BlockTypeHandle { kind: 11, variant: 5 });
    assert!(!cb.set_appearance_on(&mut block));
    let mut state = FurnaceState { smelt_progress: 2, ..FurnaceState::default() };
    assert!(cb.shut_down_furnace(&mut block, &mut state));
    assert_eq!(block, BlockTypeHandle { kind: 10, variant: 5 });
    assert_eq!(state.smelt_progress, 0);
    assert!(!cb.shut_down_furnace(&mut block, &mut state));
    let mut other = BlockTypeHandle { kind: 99, variant: 1 };
    assert!(!cb.set_appearance_on(&mut other));
    assert!(!cb.shut_down_furnace(&mut other, &mut state));
    assert_eq!(other, BlockTypeHandle { kind: 99, variant: 1 });
    assert!(OFF.equals_ignore_variant(BlockTypeHandle { kind: 10, variant: 9 }));
    assert_eq!(OFF.with_variant(9).variant(), 9);
}

#[test]
fn furnace_is_lit_when_fuel_and_input_match() {
    let mut furnace = cold(Some(stack("dirt", 2)), Some(stack("coal", 5)));
    assert!(furnace.tick(&recipes(true, true, true)));
    assert_eq!(furnace.state.flame_left, 10);
    assert_eq!(quantity(&furnace.fuel), 4);
    assert_eq!(furnace.block, BlockTypeHandle { kind: 11, variant: 3 });
    assert_eq!(furnace.state.smelted_item, "dirt");
    assert_eq!(furnace.state.smelt_ticks, 3);
    assert_eq!(furnace.state.smelt_progress, 0);
}

#[test]
fn furnace_stays_cold_without_fuel_or_input() {
    let mut furnace = cold(Some(stack("dirt", 2)), None);
    assert!(furnace.tick(&recipes(false, true, true)));
    assert_eq!(furnace.state.flame_left, 0);
    assert_eq!(furnace.block.kind, 10);
    assert_eq!(furnace.state.smelted_item, "dirt");
    // nothing changes any more
    assert!(!furnace.tick(&recipes(false, true, true)));
    let mut furnace = cold(None, Some(stack("coal", 5)));
    assert!(!furnace.tick(&recipes(true, false, false)));
    assert_eq!(quantity(&furnace.fuel), 5);
    assert_eq!(furnace.state.flame_left, 0);
}

#[test]
fn furnace_smelts_one_item_after_the_ticks_of_the_recipe() {
    let mut furnace = cold(Some(stack("dirt", 2)), Some(stack("coal", 1)));
    let all = recipes(true, true, true);
    furnace.tick(&all);
    assert!(furnace.fuel.is_none());
    for progress in 1..3 {
        assert!(furnace.tick(&all));
        assert_eq!(furnace.state.smelt_progress, progress);
        assert!(furnace.output.is_none());
    }
    assert!(furnace.tick(&all));
    assert_eq!(furnace.state.smelt_progress, 0);
    assert_eq!(quantity(&furnace.input), 1);
    assert_eq!(quantity(&furnace.output), 1);
    assert_eq!(furnace.output.as_ref().unwrap().proto.item_name, "stone");
    assert_eq!(furnace.state.flame_left, 7);
    // the last item: afterwards no recipe matches the empty slot
    let last = recipes(true, true, false);
    furnace.tick(&last);
    furnace.tick(&last);
    assert!(!furnace.tick(&last));
    assert!(furnace.input.is_none());
    assert_eq!(quantity(&furnace.output), 2);
    assert_eq!(furnace.state.smelted_item, "");
    assert_eq!(furnace.state.flame_left, 4);
}

#[test]
fn furnace_waits_while_the_output_is_full() {
    let mut furnace = cold(Some(stack("dirt", 2)), Some(stack("coal", 1)));
    furnace.output = Some(stack("stone", 256));
    let all = recipes(true, true, true);
    for _ in 0..6 {
        furnace.tick(&all);
    }
    assert_eq!(quantity(&furnace.input), 2);
    assert_eq!(quantity(&furnace.output), 256);
    assert_eq!(furnace.state.smelt_progress, 5);
    furnace.state.smelt_progress = u32::MAX;
    assert!(furnace.tick(&all));
    assert_eq!(furnace.state.smelt_progress, u32::MAX);
}

#[test]
fn furnace_starts_over_when_the_input_changes() {
    let mut furnace = cold(Some(stack("dirt", 2)), Some(stack("coal", 1)));
    let all = recipes(true, true, true);
    furnace.tick(&all);
    furnace.tick(&all);
    assert_eq!(furnace.state.smelt_progress, 1);
    furnace.input = Some(stack("sand", 1));
    assert!(furnace.tick(&all));
    assert_eq!(furnace.state.smelt_progress, 0);
    assert_eq!(furnace.state.smelted_item, "sand");
    furnace.input = Some(stack("gold", 1));
    assert!(!furnace.tick(&recipes(true, false, false)));
    assert_eq!(furnace.state.smelted_item, "");
}

#[test]
fn furnace_goes_out_when_the_flame_is_used_up() {
    let mut furnace = cold(Some(stack("dirt", 200)), Some(stack("coal", 1)));
    furnace.state.smelt_ticks = 1000;
    let all = FurnaceRecipes { input: Some(smelting("stone", 1000)), ..recipes(true, true, true) };
    furnace.tick(&all);
    for _ in 0..10 {
        furnace.tick(&all);
    }
    assert_eq!(furnace.state.flame_left, 0);
    assert_eq!(furnace.block.kind, 11);
    // no fuel is left: the furnace is shut down, and what was smelted is lost
    let progress = furnace.state.smelt_progress;
    assert!(progress > 0);
    assert!(furnace.tick(&recipes(false, true, true)));
    assert_eq!(furnace.block, BlockTypeHandle { kind: 10, variant: 3 });
    assert_eq!(furnace.state.smelt_progress, 0);
}

#[test]
fn furnace_with_things_in_it_is_not_dug_up() {
    let mut full = Inventory::new((1, 1)).unwrap();
    *full.contents_mut(0) = Some(stack("dirt", 1));
    let inventories = vec![Inventory::new((1, 1)).unwrap(), full];
    let mut block = ON;
    let drops = furnace_dig_handler(&mut block, AIR, &inventories, stack("default:furnace", 1));
    assert!(drops.is_empty());
    assert_eq!(block, ON);
}

#[test]
fn empty_furnace_is_dug_up() {
    let inventories = vec![
        Inventory::new((1, 1)).unwrap(),
        Inventory::new((1, 1)).unwrap(),
        Inventory::new((1, 1)).unwrap(),
    ];
    let mut block = OFF;
    let drops = furnace_dig_handler(&mut block, AIR, &inventories, stack("default:furnace", 1));
    assert_eq!(drops.len(), 1);
    assert_eq!(drops[0].proto.item_name, "default:furnace");
    assert_eq!(drops[0].proto.quantity, 1);
    assert_eq!(block, AIR);
    let mut block = OFF;
    let drops = furnace_dig_handler(&mut block, AIR, &vec![], stack("default:furnace", 1));
    assert_eq!(drops.len(), 1);
    assert_eq!(block, AIR);
}
