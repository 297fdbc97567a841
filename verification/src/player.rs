//! Players: what is kept of them while they are connected, and what is persisted.

use crate::database::{GameDatabase, KeySpace};
use crate::game_state::GameState;
use crate::inventory::{lemma_key_bytes_are_injective, InventoryError, InventoryKey};
use crate::inventory_manager::{
    empty_record, lemma_empty_record, lemma_written_record_is_stored, stored_inventory,
    StoredInventory,
};
use crate::inventory_view::{InventoryView, InventoryViewId, ViewBacking};
use crate::protocol::{StoredPlayer, StoredPlayerView, Vec3D};
use crate::wire::bytes_to_vec;
use vstd::prelude::*;
use vstd::utf8::encode_utf8;

verus! {

/// Why an operation on players failed.
#[derive(Clone, Copy, Debug, PartialEq, Eq, Structural)]
pub enum PlayerError {
    /// A player of that name is connected already.
    AlreadyConnected,
    /// The bookkeeping of connected players is not as it has to be: a player
    /// that is not connected was to be disconnected, or the last writeback
    /// was asked for while the periodic one had not ended.
    Consistency,
    /// What is stored of the player or of the main inventory cannot be read. It is lost.
    Corruption,
    /// The player's main inventory is not in the store.
    MissingInventory,
    /// A store failed.
    Store,
}

/// The error of an operation on players that comes of an error with inventories.
pub open spec fn spec_player_error(e: InventoryError) -> PlayerError {
    match e {
        InventoryError::NotFound => PlayerError::MissingInventory,
        InventoryError::Store => PlayerError::Store,
        _ => PlayerError::Corruption,
    }
}

/// The error of an operation on players that comes of an error with inventories.
pub fn player_error(e: InventoryError) -> (error: PlayerError)
    ensures
        error == spec_player_error(e),
{
    match e {
        InventoryError::NotFound => PlayerError::MissingInventory,
        InventoryError::Store => PlayerError::Store,
        _ => PlayerError::Corruption,
    }
}

/// Where a player is, and how the player moves and looks, at some tick.
/// Each number is held as the 64 bits of a double-precision number
/// (IEEE 754 binary64).
#[derive(Clone, Copy, Debug)]
pub struct PlayerPositionUpdate {
    /// The tick at which the position was reported.
    pub tick: u64,
    pub position: Vec3D,
    pub velocity: Vec3D,
    /// Azimuth and elevation.
    pub face_direction: (u64, u64),
}

/// The bits of the double-precision number five.
pub const FIVE: u64 = 0x4014_0000_0000_0000;

/// The bits of the double-precision number ten.
pub const TEN: u64 = 0x4024_0000_0000_0000;

/// Where a new player appears.
pub open spec fn spawn_position() -> Vec3D {
    Vec3D { x: FIVE, y: TEN, z: FIVE }
}

/// A window that is open for a player, with the inventory views that it shows.
pub struct Popup {
    inventory_views: Vec<(String, InventoryView<()>)>,
}

impl Popup {
    /// The views of the popup, each with its name, in the order in which
    /// they were added.
    pub closed spec fn views(&self) -> Seq<(String, InventoryView<()>)> {
        self.inventory_views@
    }

    /// A popup that shows nothing yet.
    pub fn new() -> (popup: Popup)
        ensures
            popup.views().len() == 0,
    {
        Popup { inventory_views: Vec::new() }
    }

    /// Adds a view of a stored inventory under the given name.
    pub fn inventory_view_stored<D: GameDatabase>(
        self,
        name: String,
        inventory_key: InventoryKey,
        can_place: bool,
        can_take: bool,
        game_state: &mut GameState<D>,
    ) -> (result: Result<Popup, InventoryError>)
        ensures
            *final(game_state).inventory_manager() == *old(game_state).inventory_manager(),
            final(game_state).tick() == old(game_state).tick(),
            match result {
                Ok(popup) => {
                    &&& popup.views().len() == self.views().len() + 1
                    &&& popup.views().last().1.spec_backing() == ViewBacking::<()>::Stored(
                        inventory_key,
                    )
                    &&& popup.views().last().1.spec_id().0 == old(game_state).spec_view_counter()
                    &&& final(game_state).spec_view_counter() == (if old(
                        game_state,
                    ).spec_view_counter() == u64::MAX {
                        0
                    } else {
                        old(game_state).spec_view_counter() + 1
                    })
                },
                Err(e) => {
                    &&& final(game_state).spec_view_counter() == old(
                        game_state,
                    ).spec_view_counter()
                    &&& e == InventoryError::NotFound || e == InventoryError::Corruption || e
                        == InventoryError::Store
                },
            },
            old(game_state).inventory_manager().reliable() ==> match stored_inventory(
                old(game_state).inventory_manager().stored(),
                inventory_key,
            ) {
                StoredInventory::Record(_) => result is Ok,
                StoredInventory::Absent => result matches Err(e) && e == InventoryError::NotFound,
                StoredInventory::Corrupt => result matches Err(e) && e
                    == InventoryError::Corruption,
            },
    {
        let view = match InventoryView::new_stored(inventory_key, game_state, can_place, can_take) {
            Ok(view) => view,
            Err(e) => {
                return Err(e);
            },
        };
        let mut popup = self;
        popup.inventory_views.push((name, view));
        Ok(popup)
    }
}

/// Mutable state of a connected player.
pub struct PlayerState {
    pub last_position: PlayerPositionUpdate,
    /// The inventory popup is always loaded, even when it's not shown
    pub inventory_popup: Popup,
    /// Other active popups for the player. These get deleted when closed.
    pub active_popups: Vec<Popup>,
    /// The player's main inventory, which is shown in the user hotbar
    pub hotbar_inventory_view: InventoryView<()>,
}

/// A connected player.
pub struct Player {
    /// Player's in-game name
    name: String,
    /// Player's inventory (immutable key that can be used to access mutable inventory)
    /// The main inventory is a bit special - it's drawn in the HUD and used for interactions
    main_inventory_key: InventoryKey,
    /// Mutable state of the player
    state: PlayerState,
}

/// The popup that shows a player's main inventory.
fn make_inventory_popup<D: GameDatabase>(
    game_state: &mut GameState<D>,
    main_inventory_key: InventoryKey,
) -> (result: Result<Popup, InventoryError>)
    ensures
        *final(game_state).inventory_manager() == *old(game_state).inventory_manager(),
        final(game_state).tick() == old(game_state).tick(),
        result matches Err(e) ==> e == InventoryError::NotFound || e == InventoryError::Corruption
            || e == InventoryError::Store,
        old(game_state).inventory_manager().reliable() ==> match stored_inventory(
            old(game_state).inventory_manager().stored(),
            main_inventory_key,
        ) {
            StoredInventory::Record(_) => result is Ok,
            StoredInventory::Absent => result matches Err(e) && e == InventoryError::NotFound,
            StoredInventory::Corrupt => result matches Err(e) && e == InventoryError::Corruption,
        },
{
    let name = "main".to_owned();
    Popup::new().inventory_view_stored(name, main_inventory_key, true, true, game_state)
}

impl Player {
    /// The player's in-game name.
    pub closed spec fn spec_name(&self) -> Seq<char> {
        self.name@
    }

    /// The key of the player's main inventory.
    pub closed spec fn spec_main_inventory(&self) -> InventoryKey {
        self.main_inventory_key
    }

    /// Where the player was last reported to be.
    pub closed spec fn spec_last_position(&self) -> PlayerPositionUpdate {
        self.state.last_position
    }

    /// The ID of the view that shows the player's main inventory in the hotbar.
    pub closed spec fn spec_hotbar_inventory_view(&self) -> InventoryViewId {
        self.state.hotbar_inventory_view.spec_id()
    }

    /// What is persisted of the player.
    pub open spec fn spec_to_server_proto(&self) -> StoredPlayerView {
        StoredPlayerView {
            name: self.spec_name(),
            last_position: Some(self.spec_last_position().position),
            main_inventory: self.spec_main_inventory()@,
        }
    }

    /// The player's in-game name.
    pub fn name(&self) -> (name: &str)
        ensures
            name@ == self.spec_name(),
    {
        self.name.as_str()
    }

    /// Returns the inventory key for this player's main inventory.
    /// This can be used with InventoryManager to view or modify the
    /// player's inventory
    pub fn main_inventory(&self) -> (key: InventoryKey)
        ensures
            key == self.spec_main_inventory(),
    {
        self.main_inventory_key
    }

    /// The ID of the view that shows the player's main inventory in the hotbar.
    pub fn hotbar_inventory_view(&self) -> (id: InventoryViewId)
        ensures
            id == self.spec_hotbar_inventory_view(),
    {
        self.state.hotbar_inventory_view.id()
    }

    /// Where the player was last reported to be.
    pub fn last_position(&self) -> (position: PlayerPositionUpdate)
        ensures
            position == self.spec_last_position(),
    {
        self.state.last_position
    }

    /// What is persisted of the player.
    pub fn to_server_proto(&self) -> (proto: StoredPlayer)
        ensures
            proto@ == self.spec_to_server_proto(),
    {
        StoredPlayer {
            name: self.name.clone(),
            last_position: Some(self.state.last_position.position),
            main_inventory: bytes_to_vec(self.main_inventory_key.as_bytes()),
        }
    }

    /// The player that a record stands for. The record has to hold a
    /// position and the key of an inventory, and the inventory has to be in
    /// the store.
    pub fn from_server_proto<D: GameDatabase>(game_state: &mut GameState<D>, proto: &StoredPlayer) -> (result:
        Result<Player, PlayerError>)
        ensures
            *final(game_state).inventory_manager() == *old(game_state).inventory_manager(),
            final(game_state).tick() == old(game_state).tick(),
            match result {
                Ok(player) => {
                    &&& player.spec_to_server_proto() == proto@
                    &&& player.spec_last_position().tick == old(game_state).tick()
                    &&& player.spec_last_position().position == proto@.last_position.unwrap()
                    &&& player.spec_last_position().velocity == (Vec3D { x: 0, y: 0, z: 0 })
                    &&& player.spec_last_position().face_direction == (0u64, 0u64)
                },
                Err(e) => e == PlayerError::Corruption || e == PlayerError::MissingInventory || e
                    == PlayerError::Store,
            },
            proto@.main_inventory.len() != 16 || proto@.last_position is None ==> (result
                matches Err(e) && e == PlayerError::Corruption),
            old(game_state).inventory_manager().reliable() && proto@.last_position is Some
                ==> forall|key: InventoryKey|
                key@ == proto@.main_inventory ==> match #[trigger] stored_inventory(
                    old(game_state).inventory_manager().stored(),
                    key,
                ) {
                    StoredInventory::Record(_) => result is Ok,
                    StoredInventory::Absent => result matches Err(e) && e
                        == PlayerError::MissingInventory,
                    StoredInventory::Corrupt => result matches Err(e) && e
                        == PlayerError::Corruption,
                },
    {
        let main_inventory_key = match InventoryKey::parse_bytes(proto.main_inventory.as_slice()) {
            Ok(key) => key,
            Err(_) => {
                proof {
                    assert forall|key: InventoryKey| key@ != proto@.main_inventory by {
                        lemma_key_bytes_are_injective(key, key);
                    }
                }
                return Err(PlayerError::Corruption);
            },
        };
        let position = match proto.last_position {
            Some(position) => position,
            None => {
                return Err(PlayerError::Corruption);
            },
        };
        proof {
            assert forall|key: InventoryKey| key@ == proto@.main_inventory implies key
                == main_inventory_key by {
                lemma_key_bytes_are_injective(key, main_inventory_key);
            }
        }
        let tick = game_state.tick();
        let inventory_popup = match make_inventory_popup(game_state, main_inventory_key) {
            Ok(popup) => popup,
            Err(e) => {
                return Err(player_error(e));
            },
        };
        let hotbar_inventory_view = match InventoryView::new_stored(
            main_inventory_key,
            game_state,
            false,
            false,
        ) {
            Ok(view) => view,
            Err(e) => {
                return Err(player_error(e));
            },
        };
        Ok(
            Player {
                name: proto.name.clone(),
                main_inventory_key,
                state: PlayerState {
                    last_position: PlayerPositionUpdate {
                        tick,
                        position,
                        velocity: Vec3D { x: 0, y: 0, z: 0 },
                        face_direction: (0, 0),
                    },
                    active_popups: Vec::new(),
                    inventory_popup,
                    hotbar_inventory_view,
                },
            },
        )
    }

    /// A new player of the given name, with a new main inventory of four
    /// rows and eight columns, at the place where new players appear.
    pub fn new_player<D: GameDatabase>(name: &str, game_state: &mut GameState<D>) -> (result: Result<
        Player,
        PlayerError,
    >)
        ensures
            final(game_state).inventory_manager().follows(old(game_state).inventory_manager()),
            final(game_state).inventory_manager().published() == old(
                game_state,
            ).inventory_manager().published(),
            final(game_state).tick() == old(game_state).tick(),
            match result {
                Ok(player) => {
                    &&& player.spec_name() == name@
                    &&& player.spec_last_position().tick == old(game_state).tick()
                    &&& player.spec_last_position().position == spawn_position()
                    &&& player.spec_last_position().velocity == (Vec3D { x: 0, y: 0, z: 0 })
                    &&& player.spec_last_position().face_direction == (0u64, 0u64)
                },
                Err(e) => e == PlayerError::Store || e == PlayerError::Corruption || e
                    == PlayerError::MissingInventory,
            },
            old(game_state).inventory_manager().reliable() ==> (result matches Ok(player) && final(game_state).inventory_manager().stored() == old(game_state).inventory_manager().stored().insert(
                player.spec_main_inventory().spec_db_key(),
                empty_record(4, 8).encoding(),
            )),
    {
        let main_inventory_key = match game_state.inventory_manager_mut().make_inventory(4, 8) {
            Ok(key) => key,
            Err(e) => {
                return Err(player_error(e));
            },
        };
        proof {
            lemma_empty_record(4, 8);
            lemma_written_record_is_stored(
                old(game_state).inventory_manager().stored(),
                main_inventory_key,
                empty_record(4, 8),
            );
            assert(4u32 * 8u32 == 32);
        }
        let tick = game_state.tick();
        let inventory_popup = match make_inventory_popup(game_state, main_inventory_key) {
            Ok(popup) => popup,
            Err(e) => {
                return Err(player_error(e));
            },
        };
        let hotbar_inventory_view = match InventoryView::new_stored(
            main_inventory_key,
            game_state,
            false,
            false,
        ) {
            Ok(view) => view,
            Err(e) => {
                return Err(player_error(e));
            },
        };
        Ok(
            Player {
                name: name.to_owned(),
                main_inventory_key,
                state: PlayerState {
                    last_position: PlayerPositionUpdate {
                        tick,
                        position: Vec3D { x: FIVE, y: TEN, z: FIVE },
                        velocity: Vec3D { x: 0, y: 0, z: 0 },
                        face_direction: (0, 0),
                    },
                    active_popups: Vec::new(),
                    inventory_popup,
                    hotbar_inventory_view,
                },
            },
        )
    }
}

/// What a store holds of a player.
pub enum StoredPlayerState {
    /// Nothing.
    Absent,
    /// Bytes that do not hold the record of a player.
    Corrupt,
    /// The record of the player.
    Record(StoredPlayerView),
}

/// The key of the store under which the player of the given name is kept.
pub open spec fn spec_db_key(name: Seq<char>) -> Seq<u8> {
    KeySpace::Player.spec_make_key(encode_utf8(name))
}

/// What a store with the given contents holds of the player of the given name.
pub open spec fn stored_player(contents: Map<Seq<u8>, Seq<u8>>, name: Seq<char>) -> StoredPlayerState {
    if !contents.contains_key(spec_db_key(name)) {
        StoredPlayerState::Absent
    } else {
        match StoredPlayerView::parse(contents[spec_db_key(name)]) {
            Some(record) => StoredPlayerState::Record(record),
            None => StoredPlayerState::Corrupt,
        }
    }
}

/// The contents of a store after the first `n` of the given players were
/// written back, in order.
pub open spec fn written_back(contents: Map<Seq<u8>, Seq<u8>>, players: Seq<Player>, n: int) -> Map<
    Seq<u8>,
    Seq<u8>,
>
    decreases n,
{
    if n <= 0 || n > players.len() {
        contents
    } else {
        written_back(contents, players, n - 1).insert(
            spec_db_key(players[n - 1].spec_name()),
            players[n - 1].spec_to_server_proto().encoding(),
        )
    }
}

/// The handle of a connected player. The player stays connected until the
/// handle is given back to the manager.
pub struct PlayerContext {
    name: String,
}

impl PlayerContext {
    /// The player's in-game name.
    pub closed spec fn spec_name(&self) -> Seq<char> {
        self.name@
    }

    /// The name of the player.
    pub fn name(&self) -> (name: &str)
        ensures
            name@ == self.spec_name(),
    {
        self.name.as_str()
    }
}

/// How far the periodic writeback has come.
#[derive(Clone, Copy, Debug, PartialEq, Eq, Structural)]
pub enum WritebackPhase {
    /// It goes on.
    Running,
    /// It has ended.
    Finished,
    /// It has ended, and the last writeback after it was made.
    Joined,
}

/// What happened to the periodic writeback.
#[derive(Clone, Copy, Debug, PartialEq, Eq, Structural)]
pub enum WritebackEvent {
    /// It has just begun, and has not waited yet.
    Started,
    /// It has waited, and the interval has passed.
    IntervalPassed,
    /// It has waited, and saw that shutdown was requested.
    Cancelled,
}

/// What the periodic writeback did in one step, and what it does next.
pub struct WritebackStep {
    /// Whether writing the players back succeeded, where the step wrote them back.
    pub flushed: Result<(), PlayerError>,
    pub action: WritebackAction,
}

/// What the periodic writeback does next.
#[derive(Clone, Copy, Debug, PartialEq, Eq, Structural)]
pub enum WritebackAction {
    /// It waits until the given number of seconds has passed or shutdown is
    /// requested, whichever comes first, and then writes back.
    Wait { seconds: u64 },
    /// It ends.
    Exit,
}

/// The number of seconds between two periodic writebacks.
pub const PLAYER_WRITEBACK_INTERVAL: u64 = 10;

/// Manages players and provides access to them and their data.
pub struct PlayerManager<D: GameDatabase> {
    db: D,
    active_players: Vec<Player>,
    shutdown: bool,
    writeback: WritebackPhase,
}

impl<D: GameDatabase> PlayerManager<D> {
    /// What the store holds.
    pub closed spec fn stored(&self) -> Map<Seq<u8>, Seq<u8>> {
        self.db.contents()
    }

    /// Whether the operations of the store always succeed.
    pub closed spec fn reliable(&self) -> bool {
        self.db.reliable()
    }

    /// The connected players, in the order in which they connected.
    pub closed spec fn active(&self) -> Seq<Player> {
        self.active_players@
    }

    /// Whether shutdown was requested.
    pub closed spec fn shutdown_requested(&self) -> bool {
        self.shutdown
    }

    /// How far the periodic writeback has come.
    pub closed spec fn phase(&self) -> WritebackPhase {
        self.writeback
    }

    /// Whether a player of the given name is connected.
    pub open spec fn is_connected(&self, name: Seq<char>) -> bool {
        exists|i: int| 0 <= i < self.active().len() && #[trigger] self.active()[i].spec_name() == name
    }

    /// No two connected players have the same name.
    pub open spec fn wf(&self) -> bool {
        forall|i: int, j: int|
            0 <= i < j < self.active().len() ==> self.active()[i].spec_name()
                != self.active()[j].spec_name()
    }

    /// Whether the manager is as `before` but for the connected players
    /// and for what the store holds: the kind of store, whether shutdown was
    /// requested, and how far the periodic writeback has come.
    pub open spec fn follows(&self, before: &Self) -> bool {
        &&& self.reliable() == before.reliable()
        &&& self.shutdown_requested() == before.shutdown_requested()
        &&& self.phase() == before.phase()
    }

    /// Whether the manager is as `before`.
    pub open spec fn unchanged_since(&self, before: &Self) -> bool {
        &&& self.follows(before)
        &&& self.stored() == before.stored()
        &&& self.active() == before.active()
    }

    /// A manager of the players in the given store. Nobody is connected, and
    /// the periodic writeback goes on.
    pub fn new(db: D) -> (manager: PlayerManager<D>)
        ensures
            manager.stored() == db.contents(),
            manager.reliable() == db.reliable(),
            manager.active().len() == 0,
            !manager.shutdown_requested(),
            manager.phase() == WritebackPhase::Running,
            manager.wf(),
    {
        PlayerManager {
            db,
            active_players: Vec::new(),
            shutdown: false,
            writeback: WritebackPhase::Running,
        }
    }

    /// The store behind the manager.
    pub fn database(&self) -> (db: &D)
        ensures
            db.contents() == self.stored(),
            db.reliable() == self.reliable(),
    {
        &self.db
    }

    /// The key of the store under which the player of the given name is kept.
    pub fn db_key(player: &str) -> (key: Vec<u8>)
        ensures
            key@ == spec_db_key(player@),
    {
        KeySpace::Player.make_key(player.as_bytes())
    }

    /// Where the player of the given name stands among the connected ones.
    fn position(&self, name: &str) -> (found: Option<usize>)
        ensures
            match found {
                Some(i) => i < self.active().len() && self.active()[i as int].spec_name() == name@,
                None => !self.is_connected(name@),
            },
    {
        let wanted = name.to_owned();
        let mut i: usize = 0;
        while i < self.active_players.len()
            invariant
                i <= self.active_players.len(),
                wanted@ == name@,
                forall|k: int| 0 <= k < i ==> (#[trigger] self.active()[k]).spec_name() != name@,
            decreases self.active_players.len() - i,
        {
            if self.active_players[i].name == wanted {
                return Some(i);
            }
            i = i + 1;
        }
        None
    }

    /// The connected player of the given handle.
    pub fn player(&self, context: &PlayerContext) -> (player: Option<&Player>)
        ensures
            match player {
                Some(p) => p.spec_name() == context.spec_name() && self.active().contains(*p),
                None => !self.is_connected(context.spec_name()),
            },
    {
        match self.position(context.name()) {
            Some(i) => Some(&self.active_players[i]),
            None => None,
        }
    }

    /// Records where a connected player is. Returns false, and records
    /// nothing, where the player of the handle is not connected.
    pub fn update_position(&mut self, context: &PlayerContext, pos: PlayerPositionUpdate) -> (updated:
        bool)
        requires
            old(self).wf(),
        ensures
            final(self).follows(old(self)),
            final(self).stored() == old(self).stored(),
            final(self).active().len() == old(self).active().len(),
            final(self).wf(),
            updated == old(self).is_connected(context.spec_name()),
            forall|i: int|
                0 <= i < old(self).active().len() ==> {
                    &&& (#[trigger] final(self).active()[i]).spec_name() == old(
                        self,
                    ).active()[i].spec_name()
                    &&& final(self).active()[i].spec_main_inventory() == old(
                        self,
                    ).active()[i].spec_main_inventory()
                    &&& final(self).active()[i].spec_last_position() == (if old(
                        self,
                    ).active()[i].spec_name() == context.spec_name() {
                        pos
                    } else {
                        old(self).active()[i].spec_last_position()
                    })
                },
    {
        match self.position(context.name()) {
            Some(i) => {
                self.active_players[i].state.last_position = pos;
                assert forall|k: int| 0 <= k < old(self).active().len() && k != i implies (
                #[trigger] old(self).active()[k]).spec_name() != context.spec_name() by {
                    if k < i {
                        assert(old(self).active()[k].spec_name() != old(
                            self,
                        ).active()[i as int].spec_name());
                    } else {
                        assert(old(self).active()[i as int].spec_name() != old(
                            self,
                        ).active()[k].spec_name());
                    }
                }
                true
            },
            None => false,
        }
    }

    /// Writes a player back to the store.
    fn write_back(db: &mut D, player: &Player) -> (result: Result<(), PlayerError>)
        ensures
            final(db).reliable() == old(db).reliable(),
            result matches Err(e) ==> e == PlayerError::Store,
            old(db).reliable() ==> result is Ok && final(db).contents() == old(
                db,
            ).contents().insert(
                spec_db_key(player.spec_name()),
                player.spec_to_server_proto().encoding(),
            ),
    {
        let key = Self::db_key(player.name.as_str());
        let bytes = player.to_server_proto().encode_to_vec();
        match db.put(key.as_slice(), bytes.as_slice()) {
            Ok(()) => Ok(()),
            Err(_) => Err(PlayerError::Store),
        }
    }

    /// Writes every connected player back to the store, in the order in
    /// which they connected, and stops where the store fails.
    pub fn flush(&mut self) -> (result: Result<(), PlayerError>)
        ensures
            final(self).follows(old(self)),
            final(self).active() == old(self).active(),
            result matches Err(e) ==> e == PlayerError::Store,
            old(self).reliable() ==> result is Ok && final(self).stored() == written_back(
                old(self).stored(),
                old(self).active(),
                old(self).active().len() as int,
            ),
    {
        let mut i: usize = 0;
        while i < self.active_players.len()
            invariant
                i <= self.active_players.len(),
                self.follows(old(self)),
                self.active() == old(self).active(),
                old(self).reliable() ==> self.stored() == written_back(
                    old(self).stored(),
                    old(self).active(),
                    i as int,
                ),
            decreases self.active_players.len() - i,
        {
            match Self::write_back(&mut self.db, &self.active_players[i]) {
                Ok(()) => {},
                Err(e) => {
                    return Err(e);
                },
            }
            i = i + 1;
        }
        Ok(())
    }

    /// Connects the player of the given name, and returns the handle of the
    /// connection. A player that the store knows is loaded from it; its
    /// record has to bear its name, a position, and the key of an inventory
    /// that is in the store. A player that the store does not know is
    /// created, with a new main inventory, and written to the store at once.
    pub fn connect<G: GameDatabase>(&mut self, game_state: &mut GameState<G>, name: &str) -> (result:
        Result<PlayerContext, PlayerError>)
        requires
            old(self).wf(),
        ensures
            final(self).wf(),
            final(self).follows(old(self)),
            final(game_state).tick() == old(game_state).tick(),
            final(game_state).inventory_manager().follows(old(game_state).inventory_manager()),
            final(game_state).inventory_manager().published() == old(
                game_state,
            ).inventory_manager().published(),
            match result {
                Ok(context) => {
                    &&& !old(self).is_connected(name@)
                    &&& context.spec_name() == name@
                    &&& final(self).active() == old(self).active().push(final(self).active().last())
                    &&& final(self).active().last().spec_name() == name@
                    &&& final(self).active().last().spec_last_position().tick == old(
                        game_state,
                    ).tick()
                },
                Err(e) => final(self).active() == old(self).active() && e
                    != PlayerError::Consistency,
            },
            old(self).is_connected(name@) ==> {
                &&& result matches Err(e) && e == PlayerError::AlreadyConnected
                &&& final(self).unchanged_since(old(self))
                &&& *final(game_state).inventory_manager() == *old(game_state).inventory_manager()
            },
            !old(self).is_connected(name@) && old(self).reliable() && old(
                game_state,
            ).inventory_manager().reliable() ==> match stored_player(old(self).stored(), name@) {
                StoredPlayerState::Absent => {
                    &&& result is Ok
                    &&& final(self).active().last().spec_last_position().position
                        == spawn_position()
                    &&& final(self).stored() == old(self).stored().insert(
                        spec_db_key(name@),
                        final(self).active().last().spec_to_server_proto().encoding(),
                    )
                    &&& final(game_state).inventory_manager().stored() == old(
                        game_state,
                    ).inventory_manager().stored().insert(
                        final(self).active().last().spec_main_inventory().spec_db_key(),
                        empty_record(4, 8).encoding(),
                    )
                },
                StoredPlayerState::Corrupt => {
                    &&& result matches Err(e) && e == PlayerError::Corruption
                    &&& final(self).unchanged_since(old(self))
                    &&& *final(game_state).inventory_manager() == *old(
                        game_state,
                    ).inventory_manager()
                },
                StoredPlayerState::Record(record) => {
                    &&& final(self).stored() == old(self).stored()
                    &&& *final(game_state).inventory_manager() == *old(
                        game_state,
                    ).inventory_manager()
                    &&& if record.name != name@ || record.main_inventory.len() != 16
                        || record.last_position is None {
                        result matches Err(e) && e == PlayerError::Corruption
                    } else {
                        forall|key: InventoryKey|
                            key@ == record.main_inventory ==> match #[trigger] stored_inventory(
                                old(game_state).inventory_manager().stored(),
                                key,
                            ) {
                                StoredInventory::Record(_) => result is Ok && final(self).active().last().spec_to_server_proto() == record,
                                StoredInventory::Absent => result matches Err(e) && e
                                    == PlayerError::MissingInventory,
                                StoredInventory::Corrupt => result matches Err(e) && e
                                    == PlayerError::Corruption,
                            }
                    }
                },
            },
    {
        if self.position(name).is_some() {
            return Err(PlayerError::AlreadyConnected);
        }
        let stored = match self.db.get(Self::db_key(name).as_slice()) {
            Ok(stored) => stored,
            Err(_) => {
                return Err(PlayerError::Store);
            },
        };
        let player = match stored {
            Some(player_proto) => {
                let record = match StoredPlayer::decode(player_proto.as_slice()) {
                    Ok(record) => record,
                    Err(_) => {
                        return Err(PlayerError::Corruption);
                    },
                };
                // A record under the name of another player is damaged.
                let wanted = name.to_owned();
                if !(record.name == wanted) {
                    return Err(PlayerError::Corruption);
                }
                match Player::from_server_proto(game_state, &record) {
                    Ok(player) => player,
                    Err(e) => {
                        return Err(e);
                    },
                }
            },
            None => {
                let player = match Player::new_player(name, game_state) {
                    Ok(player) => player,
                    Err(e) => {
                        return Err(e);
                    },
                };
                match Self::write_back(&mut self.db, &player) {
                    Ok(()) => {},
                    Err(e) => {
                        assert(self.active() == old(self).active());
                        return Err(e);
                    },
                }
                player
            },
        };
        self.active_players.push(player);
        proof {
            let before = old(self).active();
            let after = self.active();
            assert(after =~= before.push(after.last()));
            assert forall|i: int, j: int| 0 <= i < j < after.len() implies after[i].spec_name()
                != after[j].spec_name() by {
                if j == before.len() {
                    assert(before[i].spec_name() != name@);
                } else {
                    assert(before[i].spec_name() != before[j].spec_name());
                }
            }
        }
        Ok(PlayerContext { name: name.to_owned() })
    }

    /// Disconnects the player of the given name: the player is written back
    /// to the store and is no longer connected, also where the store fails.
    pub fn drop_disconnect(&mut self, name: &str) -> (result: Result<(), PlayerError>)
        requires
            old(self).wf(),
        ensures
            final(self).wf(),
            final(self).follows(old(self)),
            !final(self).is_connected(name@),
            if old(self).is_connected(name@) {
                exists|i: int|
                    {
                        &&& 0 <= i < old(self).active().len()
                        &&& (#[trigger] old(self).active()[i]).spec_name() == name@
                        &&& final(self).active() == old(self).active().remove(i)
                        &&& result matches Err(e) ==> e == PlayerError::Store
                        &&& old(self).reliable() ==> result is Ok && final(self).stored() == old(
                            self,
                        ).stored().insert(
                            spec_db_key(name@),
                            old(self).active()[i].spec_to_server_proto().encoding(),
                        )
                    }
            } else {
                &&& result matches Err(e) && e == PlayerError::Consistency
                &&& final(self).unchanged_since(old(self))
            },
    {
        match self.position(name) {
            Some(i) => {
                let result = Self::write_back(&mut self.db, &self.active_players[i]);
                let ghost before = self.active();
                self.active_players.remove(i);
                proof {
                    let after = self.active();
                    assert(after == before.remove(i as int));
                    assert forall|a: int, b: int| 0 <= a < b < after.len() implies after[a].spec_name()
                        != after[b].spec_name() by {
                        let a0 = if a < i {
                            a
                        } else {
                            a + 1
                        };
                        let b0 = if b < i {
                            b
                        } else {
                            b + 1
                        };
                        assert(before[a0].spec_name() != before[b0].spec_name());
                    }
                    assert forall|k: int| 0 <= k < after.len() implies (#[trigger] after[k]).spec_name()
                        != name@ by {
                        let k0 = if k < i {
                            k
                        } else {
                            k + 1
                        };
                        if k0 < i {
                            assert(before[k0].spec_name() != before[i as int].spec_name());
                        } else {
                            assert(before[i as int].spec_name() != before[k0].spec_name());
                        }
                    }
                }
                result
            },
            None => Err(PlayerError::Consistency),
        }
    }

    /// Gives the handle of a connection back: the player is disconnected.
    pub fn disconnect(&mut self, context: PlayerContext) -> (result: Result<(), PlayerError>)
        requires
            old(self).wf(),
        ensures
            final(self).wf(),
            final(self).follows(old(self)),
            !final(self).is_connected(context.spec_name()),
            !old(self).is_connected(context.spec_name()) ==> (result matches Err(e) && e
                == PlayerError::Consistency) && final(self).unchanged_since(old(self)),
            old(self).is_connected(context.spec_name()) ==> final(self).active().len() + 1 == old(
                self,
            ).active().len() && (result matches Err(e) ==> e == PlayerError::Store) && (old(
                self,
            ).reliable() ==> result is Ok),
    {
        self.drop_disconnect(context.name.as_str())
    }

    /// One step of the periodic writeback.
    ///
    /// The periodic writeback begins when the manager is made. Whenever it
    /// has waited, the connected players are written back; a failure of the
    /// store is reported and does not end it. Then it waits again, unless
    /// shutdown was requested: then it ends.
    pub fn writeback_loop(&mut self, event: WritebackEvent) -> (step: WritebackStep)
        ensures
            final(self).reliable() == old(self).reliable(),
            final(self).active() == old(self).active(),
            step.flushed matches Err(e) ==> e == PlayerError::Store,
            if old(self).phase() != WritebackPhase::Running {
                &&& final(self).unchanged_since(old(self))
                &&& step.action == WritebackAction::Exit
                &&& step.flushed is Ok
            } else {
                &&& final(self).shutdown_requested() == (old(self).shutdown_requested() || event
                    == WritebackEvent::Cancelled)
                &&& final(self).phase() == (if final(self).shutdown_requested() {
                    WritebackPhase::Finished
                } else {
                    WritebackPhase::Running
                })
                &&& step.action == (if final(self).shutdown_requested() {
                    WritebackAction::Exit
                } else {
                    WritebackAction::Wait { seconds: PLAYER_WRITEBACK_INTERVAL }
                })
                &&& if event == WritebackEvent::Started {
                    step.flushed is Ok && final(self).stored() == old(self).stored()
                } else {
                    old(self).reliable() ==> step.flushed is Ok && final(self).stored()
                        == written_back(
                        old(self).stored(),
                        old(self).active(),
                        old(self).active().len() as int,
                    )
                }
            },
    {
        match self.writeback {
            WritebackPhase::Running => {},
            _ => {
                return WritebackStep { flushed: Ok(()), action: WritebackAction::Exit };
            },
        }
        match event {
            WritebackEvent::Cancelled => {
                self.shutdown = true;
            },
            _ => {},
        }
        let flushed = match event {
            WritebackEvent::Started => Ok(()),
            _ => self.flush(),
        };
        if self.shutdown {
            self.writeback = WritebackPhase::Finished;
            WritebackStep { flushed, action: WritebackAction::Exit }
        } else {
            WritebackStep {
                flushed,
                action: WritebackAction::Wait { seconds: PLAYER_WRITEBACK_INTERVAL },
            }
        }
    }

    /// Asks the periodic writeback to end. It ends at its next step.
    pub fn request_shutdown(&mut self)
        ensures
            final(self).shutdown_requested(),
            final(self).phase() == old(self).phase(),
            final(self).reliable() == old(self).reliable(),
            final(self).stored() == old(self).stored(),
            final(self).active() == old(self).active(),
    {
        self.shutdown = true;
    }

    /// Writes the connected players back for the last time. The periodic
    /// writeback has to have ended, so that the two never run at once;
    /// otherwise nothing is written.
    pub fn await_shutdown(&mut self) -> (result: Result<(), PlayerError>)
        ensures
            final(self).reliable() == old(self).reliable(),
            final(self).active() == old(self).active(),
            final(self).shutdown_requested() == old(self).shutdown_requested(),
            if old(self).phase() != WritebackPhase::Finished {
                &&& result matches Err(e) && e == PlayerError::Consistency
                &&& final(self).unchanged_since(old(self))
            } else {
                &&& final(self).phase() == WritebackPhase::Joined
                &&& result matches Err(e) ==> e == PlayerError::Store
                &&& old(self).reliable() ==> result is Ok && final(self).stored() == written_back(
                    old(self).stored(),
                    old(self).active(),
                    old(self).active().len() as int,
                )
            },
    {
        match self.writeback {
            WritebackPhase::Finished => {},
            _ => {
                return Err(PlayerError::Consistency);
            },
        }
        self.writeback = WritebackPhase::Joined;
        self.flush()
    }
}

} // verus!
