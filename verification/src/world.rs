//! The world store: one table for each kind of entity, the two timer
//! queues and the key generators, with the invariant that holds of them
//! between any two handler calls.

use crate::rows::{
    EjectedMass, FoodPellet, GameConfig, Identity, MassDecaySchedule, Player, PlayerCell,
    SplitMergeSchedule,
};
use crate::table::Table;
use crate::units::{mass_to_radius, WORLD_HEIGHT, WORLD_WIDTH};
use vstd::prelude::*;

verus! {

/// What a world holds, as mathematics: one map for each table, and the next
/// key that each generator will hand out.
pub struct WorldState {
    pub config: GameConfig,
    pub players: Map<Identity, Player>,
    pub cells: Map<u64, PlayerCell>,
    pub food: Map<u64, FoodPellet>,
    pub ejected: Map<u64, EjectedMass>,
    pub decay_schedules: Map<u64, MassDecaySchedule>,
    pub merge_schedules: Map<u64, SplitMergeSchedule>,
    pub next_cell_id: u64,
    pub next_food_id: u64,
    pub next_ejected_id: u64,
    pub next_decay_id: u64,
    pub next_merge_id: u64,
}

/// The configuration of every world: 200 pellets of food in a world of 3000
/// by 3000 units.
pub open spec fn standard_config() -> GameConfig {
    GameConfig { id: 0, max_food: 200, world_width: 3_000, world_height: 3_000 }
}

/// The invariant of the world's state: every table is finite, every row
/// stands under its own key and is sound, and every generated key is
/// smaller than the next one its generator will hand out.
pub open spec fn sound(s: WorldState) -> bool {
    &&& s.config == standard_config()
    &&& s.players.dom().finite()
    &&& s.cells.dom().finite()
    &&& s.food.dom().finite()
    &&& s.ejected.dom().finite()
    &&& s.decay_schedules.dom().finite()
    &&& s.merge_schedules.dom().finite()
    &&& forall|id: Identity| #[trigger]
        s.players.dom().contains(id) ==> s.players[id].identity == id && s.players[id].valid()
    &&& forall|k: u64| #[trigger]
        s.cells.dom().contains(k) ==> s.cells[k].cell_id == k && s.cells[k].valid() && k
            < s.next_cell_id
    &&& forall|k: u64| #[trigger]
        s.food.dom().contains(k) ==> s.food[k].id == k && s.food[k].valid() && k < s.next_food_id
    &&& forall|k: u64| #[trigger]
        s.ejected.dom().contains(k) ==> s.ejected[k].id == k && s.ejected[k].valid() && k
            < s.next_ejected_id
    &&& forall|k: u64| #[trigger]
        s.decay_schedules.dom().contains(k) ==> s.decay_schedules[k].scheduled_id == k && k
            < s.next_decay_id
    &&& forall|k: u64| #[trigger]
        s.merge_schedules.dom().contains(k) ==> s.merge_schedules[k].scheduled_id == k && k
            < s.next_merge_id
}

/// The authoritative state of one arena.
#[derive(Clone, PartialEq, Eq, Debug)]
pub struct World {
    pub(crate) config: GameConfig,
    pub(crate) players: Table<Player>,
    pub(crate) cells: Table<PlayerCell>,
    pub(crate) food: Table<FoodPellet>,
    pub(crate) ejected: Table<EjectedMass>,
    pub(crate) decay_schedules: Table<MassDecaySchedule>,
    pub(crate) merge_schedules: Table<SplitMergeSchedule>,
    pub(crate) next_cell_id: u64,
    pub(crate) next_food_id: u64,
    pub(crate) next_ejected_id: u64,
    pub(crate) next_decay_id: u64,
    pub(crate) next_merge_id: u64,
}

impl View for World {
    type V = WorldState;

    open(crate) spec fn view(&self) -> WorldState {
        WorldState {
            config: self.config,
            players: self.players@,
            cells: self.cells@,
            food: self.food@,
            ejected: self.ejected@,
            decay_schedules: self.decay_schedules@,
            merge_schedules: self.merge_schedules@,
            next_cell_id: self.next_cell_id,
            next_food_id: self.next_food_id,
            next_ejected_id: self.next_ejected_id,
            next_decay_id: self.next_decay_id,
            next_merge_id: self.next_merge_id,
        }
    }
}

impl World {
    /// No table holds a key twice.
    pub open(crate) spec fn tables_wf(&self) -> bool {
        &&& self.players.wf()
        &&& self.cells.wf()
        &&& self.food.wf()
        &&& self.ejected.wf()
        &&& self.decay_schedules.wf()
        &&& self.merge_schedules.wf()
    }

    /// The world's invariant. Every world that this library hands out has
    /// it, and every handler keeps it.
    pub open spec fn wf(&self) -> bool {
        self.tables_wf() && sound(self@)
    }

    /// The configuration row.
    pub fn config(&self) -> (config: &GameConfig)
        ensures
            *config == self@.config,
    {
        &self.config
    }

    /// The table of players.
    pub fn players(&self) -> (table: &Table<Player>)
        ensures
            self.wf() ==> table.wf(),
            table@ == self@.players,
    {
        &self.players
    }

    /// The table of split cells.
    pub fn cells(&self) -> (table: &Table<PlayerCell>)
        ensures
            self.wf() ==> table.wf(),
            table@ == self@.cells,
    {
        &self.cells
    }

    /// The table of food pellets.
    pub fn food(&self) -> (table: &Table<FoodPellet>)
        ensures
            self.wf() ==> table.wf(),
            table@ == self@.food,
    {
        &self.food
    }

    /// The table of ejected pellets.
    pub fn ejected(&self) -> (table: &Table<EjectedMass>)
        ensures
            self.wf() ==> table.wf(),
            table@ == self@.ejected,
    {
        &self.ejected
    }

    /// The queue of decay schedules.
    pub fn decay_schedules(&self) -> (table: &Table<MassDecaySchedule>)
        ensures
            self.wf() ==> table.wf(),
            table@ == self@.decay_schedules,
    {
        &self.decay_schedules
    }

    /// The queue of merge schedules.
    pub fn merge_schedules(&self) -> (table: &Table<SplitMergeSchedule>)
        ensures
            self.wf() ==> table.wf(),
            table@ == self@.merge_schedules,
    {
        &self.merge_schedules
    }

    /// The world with `row` as the row of its player; the world as it is
    /// where the row is not sound.
    pub open spec fn with_player(s: WorldState, row: Player) -> WorldState {
        if row.valid() {
            WorldState { players: s.players.insert(row.identity, row), ..s }
        } else {
            s
        }
    }

    /// Stores a player row under its identity, in place of any row that is
    /// there. A row that is not sound is refused, and nothing changes.
    pub fn put_player(&mut self, row: Player) -> (stored: bool)
        requires
            old(self).wf(),
        ensures
            final(self).wf(),
            stored == row.valid(),
            final(self)@ == Self::with_player(old(self)@, row),
    {
        if row.x < 0 || row.x > WORLD_WIDTH || row.y < 0 || row.y > WORLD_HEIGHT {
            return false;
        }
        if row.radius != mass_to_radius(row.mass) {
            return false;
        }
        match self.players.position(&row.identity) {
            Some(i) => {
                *self.players.row_mut(i) = row;
            },
            None => {
                self.players.push(row);
            },
        }
        true
    }
}

} // verus!
