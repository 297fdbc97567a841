//! Persistent item and inventory state of a game server.
//!
//! - [`items`]: item stacks and the algebra of merging stacks and taking
//!   items out of slots, with its laws.
//! - [`inventory`]: inventories, which are grids of slots, and their keys.
//! - [`inventory_manager`]: the manager that keeps inventories in a store
//!   and changes them atomically.
//! - [`inventory_view`]: views over inventories for user interaction.
//! - [`player`]: connected players, what is persisted of them, and the steps
//!   of the periodic writeback.
//! - [`database`]: the key-value store and the partition of its keys.
//! - [`protocol`] and [`wire`]: the records that are persisted, and their bytes.
//! - [`game_state`]: what inventories and views need of the running game.
//! - [`furnace`]: a block that smelts what is put into it.
//! - [`client`]: what a client keeps of items and inventories.
//! - [`constants`]: names that plugins agree on.
//! - [`renderer`]: what the client's renderer decides.

pub mod client;
pub mod constants;
pub mod database;
pub mod furnace;
pub mod game_state;
pub mod inventory;
pub mod inventory_manager;
pub mod inventory_view;
pub mod items;
pub mod player;
pub mod protocol;
pub mod renderer;
pub mod wire;
