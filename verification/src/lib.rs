//! Simulation core of a cell-growth arena: the world store, the rules that
//! change it, and the laws those rules obey.
//!
//! Every quantity of the game (positions, radii, masses, tolerances) is a
//! 32-bit fixed-point number counted in thousandths of a game unit, so the
//! rules are exact integer arithmetic. Times are microseconds.
//!
//! A world is made by `init` and changed by one handler call at a time,
//! each of which takes the world by exclusive reference: no caller sees a
//! world between two steps of a handler. What the rules leave to chance (a
//! place to spawn, a colour, a place for new food) is drawn by the caller
//! and handed in; the rules keep every draw inside the bounds they set.

pub mod cells;
pub mod consumption;
pub mod dispatch;
pub mod economy;
pub mod laws;
pub mod lifecycle;
pub mod movement;
pub mod rows;
pub mod table;
pub mod timers;
pub mod units;
pub mod world;

pub use crate::cells::delete_player_cells;
pub use crate::consumption::{eat_ejected_mass, eat_food, eat_player, would_eat_food};
pub use crate::dispatch::{dispatch, handle_request, Event, Request};
pub use crate::economy::{decay_mass, eject_mass, merge_split, split_cell};
pub use crate::lifecycle::{
    despawn_player, identity_connected, identity_disconnected, init, spawn_player,
};
pub use crate::movement::{update_cell_position, update_position};
pub use crate::rows::{
    EjectedMass, FoodPellet, GameConfig, Identity, MassDecaySchedule, Player, PlayerCell,
    ScheduleAt, SplitMergeSchedule,
};
pub use crate::table::Table;
pub use crate::timers::take_due_merge;
pub use crate::units::mass_to_radius;
pub use crate::world::World;
