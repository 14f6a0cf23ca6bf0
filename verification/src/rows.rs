//! The rows of the world: configuration, players, split cells, food,
//! ejected mass and the two timer schedules.

use crate::table::Keyed;
use crate::units::{
    clamp, clamped, mass_to_radius, radius_of, FOOD_MARGIN, FOOD_RADIUS, WORLD_HEIGHT, WORLD_WIDTH,
};
use vstd::prelude::*;

verus! {

/// Opaque token that names one caller across requests.
#[derive(Clone, Copy, PartialEq, Eq, Structural, Debug, Hash)]
pub struct Identity {
    pub hi: u128,
    pub lo: u128,
}

/// The one configuration row of a world, in whole game units.
#[derive(Clone, Copy, PartialEq, Eq, Structural, Debug)]
pub struct GameConfig {
    pub id: u32,
    pub max_food: u32,
    pub world_width: u32,
    pub world_height: u32,
}

/// Main row of a player: identity, name, position, size and colour.
#[derive(Clone, PartialEq, Eq, Debug)]
pub struct Player {
    pub identity: Identity,
    pub name: String,
    pub x: i32,
    pub y: i32,
    pub radius: u32,
    pub mass: u32,
    pub color: u32,
}

/// One split-off half of a player, which moves on its own.
#[derive(Clone, Copy, PartialEq, Eq, Structural, Debug)]
pub struct PlayerCell {
    pub cell_id: u64,
    pub player_identity: Identity,
    pub x: i32,
    pub y: i32,
    pub radius: u32,
    pub mass: u32,
}

/// A food pellet.
#[derive(Clone, Copy, PartialEq, Eq, Structural, Debug)]
pub struct FoodPellet {
    pub id: u64,
    pub x: i32,
    pub y: i32,
    pub radius: u32,
}

/// A pellet of mass that a player has thrown out.
#[derive(Clone, Copy, PartialEq, Eq, Structural, Debug)]
pub struct EjectedMass {
    pub id: u64,
    pub x: i32,
    pub y: i32,
    pub radius: u32,
    pub mass: u32,
}

/// When a schedule fires, in microseconds: again and again after each
/// interval, or once at a point in time.
#[derive(Clone, Copy, PartialEq, Eq, Structural, Debug)]
pub enum ScheduleAt {
    Interval(u64),
    Time(u64),
}

/// The repeating schedule that drives mass decay.
#[derive(Clone, Copy, PartialEq, Eq, Structural, Debug)]
pub struct MassDecaySchedule {
    pub scheduled_id: u64,
    pub scheduled_at: ScheduleAt,
}

/// A one-shot schedule that merges a player's split cells back.
#[derive(Clone, Copy, PartialEq, Eq, Structural, Debug)]
pub struct SplitMergeSchedule {
    pub scheduled_id: u64,
    pub scheduled_at: ScheduleAt,
    pub player_identity: Identity,
}

/// The point lies inside the world, edges included.
pub open spec fn in_world(x: int, y: int) -> bool {
    0 <= x <= WORLD_WIDTH && 0 <= y <= WORLD_HEIGHT
}

impl Player {
    /// The row is sound: it lies in the world and its radius is that of its
    /// mass.
    pub open spec fn valid(&self) -> bool {
        in_world(self.x as int, self.y as int) && self.radius == radius_of(self.mass as nat)
    }

    /// The row with another mass, and the radius to match.
    pub open spec fn with_mass(self, mass: u32) -> Player {
        Player { mass, radius: radius_of(mass as nat) as u32, ..self }
    }

    /// The row at another place.
    pub open spec fn at(self, x: i32, y: i32) -> Player {
        Player { x, y, ..self }
    }

    /// Gives the player another mass, and the radius to match.
    pub fn set_mass(&mut self, mass: u32)
        ensures
            *final(self) == old(self).with_mass(mass),
            final(self).radius == radius_of(mass as nat),
    {
        self.mass = mass;
        self.radius = mass_to_radius(mass);
    }

    /// Puts the player at another place.
    pub fn set_position(&mut self, x: i32, y: i32)
        ensures
            *final(self) == old(self).at(x, y),
    {
        self.x = x;
        self.y = y;
    }
}

impl PlayerCell {
    /// The row is sound: it lies in the world and its radius is that of its
    /// mass.
    pub open spec fn valid(&self) -> bool {
        in_world(self.x as int, self.y as int) && self.radius == radius_of(self.mass as nat)
    }

    /// The row with another mass, and the radius to match.
    pub open spec fn with_mass(self, mass: u32) -> PlayerCell {
        PlayerCell { mass, radius: radius_of(mass as nat) as u32, ..self }
    }

    /// The row at another place.
    pub open spec fn at(self, x: i32, y: i32) -> PlayerCell {
        PlayerCell { x, y, ..self }
    }

    /// Gives the cell another mass, and the radius to match.
    pub fn set_mass(&mut self, mass: u32)
        ensures
            *final(self) == old(self).with_mass(mass),
            final(self).radius == radius_of(mass as nat),
    {
        self.mass = mass;
        self.radius = mass_to_radius(mass);
    }

    /// Puts the cell at another place.
    pub fn set_position(&mut self, x: i32, y: i32)
        ensures
            *final(self) == old(self).at(x, y),
    {
        self.x = x;
        self.y = y;
    }
}

impl FoodPellet {
    /// The row is sound: it lies in the world and has the radius of food.
    pub open spec fn valid(&self) -> bool {
        in_world(self.x as int, self.y as int) && self.radius == FOOD_RADIUS
    }

    /// A pellet under the key `id`, as near to `(x, y)` as the margin for
    /// food allows.
    pub open spec fn near(id: u64, x: int, y: int) -> FoodPellet {
        FoodPellet {
            id,
            x: clamped(x, FOOD_MARGIN as int, WORLD_WIDTH - FOOD_MARGIN) as i32,
            y: clamped(y, FOOD_MARGIN as int, WORLD_HEIGHT - FOOD_MARGIN) as i32,
            radius: FOOD_RADIUS,
        }
    }

    /// Makes a pellet under the key `id` at the place drawn for it, moved
    /// into the margin for food where the draw lies outside.
    pub fn place(id: u64, x: i32, y: i32) -> (pellet: FoodPellet)
        ensures
            pellet == FoodPellet::near(id, x as int, y as int),
            pellet.valid(),
    {
        FoodPellet {
            id,
            x: clamp(x as i64, FOOD_MARGIN, WORLD_WIDTH - FOOD_MARGIN),
            y: clamp(y as i64, FOOD_MARGIN, WORLD_HEIGHT - FOOD_MARGIN),
            radius: FOOD_RADIUS,
        }
    }
}

impl EjectedMass {
    /// The row is sound: it lies in the world and its radius is that of its
    /// mass.
    pub open spec fn valid(&self) -> bool {
        in_world(self.x as int, self.y as int) && self.radius == radius_of(self.mass as nat)
    }
}

impl Keyed for Player {
    type Key = Identity;

    open spec fn key(&self) -> Identity {
        self.identity
    }

    fn has_key(&self, key: &Identity) -> (same: bool) {
        self.identity == *key
    }
}

impl Keyed for PlayerCell {
    type Key = u64;

    open spec fn key(&self) -> u64 {
        self.cell_id
    }

    fn has_key(&self, key: &u64) -> (same: bool) {
        self.cell_id == *key
    }
}

impl Keyed for FoodPellet {
    type Key = u64;

    open spec fn key(&self) -> u64 {
        self.id
    }

    fn has_key(&self, key: &u64) -> (same: bool) {
        self.id == *key
    }
}

impl Keyed for EjectedMass {
    type Key = u64;

    open spec fn key(&self) -> u64 {
        self.id
    }

    fn has_key(&self, key: &u64) -> (same: bool) {
        self.id == *key
    }
}

impl Keyed for MassDecaySchedule {
    type Key = u64;

    open spec fn key(&self) -> u64 {
        self.scheduled_id
    }

    fn has_key(&self, key: &u64) -> (same: bool) {
        self.scheduled_id == *key
    }
}

impl Keyed for SplitMergeSchedule {
    type Key = u64;

    open spec fn key(&self) -> u64 {
        self.scheduled_id
    }

    fn has_key(&self, key: &u64) -> (same: bool) {
        self.scheduled_id == *key
    }
}

} // verus!
