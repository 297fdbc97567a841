//! The state of a running game, as far as items and inventories go.

use crate::database::GameDatabase;
use crate::inventory_manager::InventoryManager;
use crate::inventory_view::{next_id, InventoryViewId};
use vstd::prelude::*;

verus! {

/// The state of the game that inventories and their views need: the
/// inventory manager, the counter of view IDs, and the current tick.
pub struct GameState<D: GameDatabase> {
    inventory_manager: InventoryManager<D>,
    view_counter: u64,
    tick: u64,
}

impl<D: GameDatabase> GameState<D> {
    /// The inventory manager.
    pub closed spec fn spec_inventory_manager(&self) -> &InventoryManager<D> {
        &self.inventory_manager
    }

    /// The ID that the next view gets.
    pub closed spec fn spec_view_counter(&self) -> u64 {
        self.view_counter
    }

    /// The current tick of the game.
    pub closed spec fn spec_tick(&self) -> u64 {
        self.tick
    }

    /// A game state over the given store, at tick zero. The first view gets
    /// the ID one.
    pub fn new(db: D) -> (game_state: GameState<D>)
        ensures
            game_state.inventory_manager().stored() == db.contents(),
            game_state.inventory_manager().reliable() == db.reliable(),
            game_state.inventory_manager().published() == Seq::<
                crate::inventory::InventoryKey,
            >::empty(),
            game_state.spec_view_counter() == 1,
            game_state.tick() == 0,
    {
        GameState { inventory_manager: InventoryManager::new(db), view_counter: 1, tick: 0 }
    }

    /// The inventory manager, to read inventories.
    #[verifier::when_used_as_spec(spec_inventory_manager)]
    pub fn inventory_manager(&self) -> (manager: &InventoryManager<D>)
        ensures
            manager == self.spec_inventory_manager(),
    {
        &self.inventory_manager
    }

    /// The inventory manager, to change inventories.
    pub fn inventory_manager_mut(&mut self) -> (manager: &mut InventoryManager<D>)
        ensures
            *manager == *old(self).inventory_manager(),
            *final(self).inventory_manager() == *final(manager),
            final(self).spec_view_counter() == old(self).spec_view_counter(),
            final(self).tick() == old(self).tick(),
    {
        &mut self.inventory_manager
    }

    /// The current tick of the game.
    #[verifier::when_used_as_spec(spec_tick)]
    pub fn tick(&self) -> (tick: u64)
        ensures
            tick == self.spec_tick(),
    {
        self.tick
    }

    /// Sets the current tick of the game.
    pub fn set_tick(&mut self, tick: u64)
        ensures
            final(self).tick() == tick,
            *final(self).inventory_manager() == *old(self).inventory_manager(),
            final(self).spec_view_counter() == old(self).spec_view_counter(),
    {
        self.tick = tick;
    }

    /// Hands out the ID for a new inventory view.
    pub fn next_view_id(&mut self) -> (id: InventoryViewId)
        ensures
            id.0 == old(self).spec_view_counter(),
            final(self).spec_view_counter() == (if old(self).spec_view_counter() == u64::MAX {
                0
            } else {
                old(self).spec_view_counter() + 1
            }),
            *final(self).inventory_manager() == *old(self).inventory_manager(),
            final(self).tick() == old(self).tick(),
    {
        next_id(&mut self.view_counter)
    }
}

} // verus!
