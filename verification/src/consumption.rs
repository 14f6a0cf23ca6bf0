//! Eating: food, other players, and ejected mass.

use crate::cells::{after_delete_cells, cell_mass_of, delete_player_cells, owned_mass};
use crate::rows::{FoodPellet, Identity};
use crate::units::{add_mass, capped, overlaps, within_reach, EAT_TOLERANCE, FOOD_MASS, MASS_LIMIT};
use crate::world::{World, WorldState};
use vstd::prelude::*;

verus! {

/// A request to eat food is carried out: the player and the pellet exist,
/// the pellet is within the player's reach, and a key is left for the
/// pellet that takes its place.
pub open spec fn can_eat_food(s: WorldState, identity: Identity, food_id: u64) -> bool {
    &&& s.players.dom().contains(identity)
    &&& s.food.dom().contains(food_id)
    &&& within_reach(
        s.players[identity].x as int,
        s.players[identity].y as int,
        s.players[identity].radius as int,
        s.food[food_id].x as int,
        s.food[food_id].y as int,
        s.food[food_id].radius as int,
        EAT_TOLERANCE as int,
    )
    &&& s.next_food_id < u64::MAX
}

/// The world after a request to eat food: the pellet is gone, the player
/// has gained the mass of one pellet, and a new pellet lies near
/// `(respawn_x, respawn_y)`; or nothing changes.
pub open spec fn after_eat_food(
    s: WorldState,
    identity: Identity,
    food_id: u64,
    respawn_x: int,
    respawn_y: int,
) -> WorldState {
    if can_eat_food(s, identity, food_id) {
        let player = s.players[identity];
        WorldState {
            players: s.players.insert(
                identity,
                player.with_mass(capped(player.mass + FOOD_MASS) as u32),
            ),
            food: s.food.remove(food_id).insert(
                s.next_food_id,
                FoodPellet::near(s.next_food_id, respawn_x, respawn_y),
            ),
            next_food_id: (s.next_food_id + 1) as u64,
            ..s
        }
    } else {
        s
    }
}

/// Whether a request to eat food would be carried out now. A host that
/// draws the place of the new pellet only for a meal that takes place asks
/// this first.
pub fn would_eat_food(world: &World, identity: Identity, food_id: u64) -> (yes: bool)
    requires
        world.wf(),
    ensures
        yes == can_eat_food(world@, identity, food_id),
{
    let eater = world.players.position(&identity);
    if eater.is_none() {
        return false;
    }
    let meal = world.food.position(&food_id);
    if meal.is_none() {
        return false;
    }
    let player = world.players.row(eater.unwrap());
    let food = world.food.row(meal.unwrap());
    overlaps(player.x, player.y, player.radius, food.x, food.y, food.radius, EAT_TOLERANCE)
        && world.next_food_id < u64::MAX
}

/// The caller's player eats a pellet of food, and a new pellet appears at
/// the place drawn for it. The request is declined without a trace where
/// `can_eat_food` fails.
pub fn eat_food(
    world: &mut World,
    identity: Identity,
    food_id: u64,
    respawn_x: i32,
    respawn_y: i32,
)
    requires
        old(world).wf(),
    ensures
        final(world).wf(),
        final(world)@ == after_eat_food(
            old(world)@,
            identity,
            food_id,
            respawn_x as int,
            respawn_y as int,
        ),
{
    let eater = world.players.position(&identity);
    if eater.is_none() {
        return;
    }
    let meal = world.food.position(&food_id);
    if meal.is_none() {
        return;
    }
    let i = eater.unwrap();
    let j = meal.unwrap();
    let player = world.players.row(i);
    let food = world.food.row(j);
    if !overlaps(player.x, player.y, player.radius, food.x, food.y, food.radius, EAT_TOLERANCE) {
        return;
    }
    if world.next_food_id == u64::MAX {
        return;
    }
    let new_mass = add_mass(player.mass, FOOD_MASS);
    world.food.remove(j);
    world.players.row_mut(i).set_mass(new_mass);
    world.food.push(FoodPellet::place(world.next_food_id, respawn_x, respawn_y));
    world.next_food_id = world.next_food_id + 1;
}

/// A request to eat a player is carried out: eater and target are two
/// players that exist, the eater has at least eleven tenths of the target's
/// mass, and the target's centre is within reach of the eater's own radius.
pub open spec fn can_eat_player(s: WorldState, eater: Identity, target: Identity) -> bool {
    &&& eater != target
    &&& s.players.dom().contains(eater)
    &&& s.players.dom().contains(target)
    &&& s.players[eater].mass * 10 >= s.players[target].mass * 11
    &&& within_reach(
        s.players[eater].x as int,
        s.players[eater].y as int,
        s.players[eater].radius as int,
        s.players[target].x as int,
        s.players[target].y as int,
        0,
        EAT_TOLERANCE as int,
    )
}

/// The world after a request to eat a player: the eater has the target's
/// mass and that of all the target's split cells on top of its own, and the
/// target is gone with its cells; or nothing changes.
pub open spec fn after_eat_player(s: WorldState, eater: Identity, target: Identity) -> WorldState {
    if can_eat_player(s, eater, target) {
        let gain = s.players[target].mass + owned_mass(s.cells, target);
        let fed = s.players[eater].with_mass(capped(s.players[eater].mass + gain) as u32);
        after_delete_cells(
            WorldState { players: s.players.insert(eater, fed).remove(target), ..s },
            target,
        )
    } else {
        s
    }
}

/// The caller's player eats another player whole, split cells included.
/// The request is declined without a trace where `can_eat_player` fails.
pub fn eat_player(world: &mut World, identity: Identity, target_identity: Identity)
    requires
        old(world).wf(),
    ensures
        final(world).wf(),
        final(world)@ == after_eat_player(old(world)@, identity, target_identity),
{
    if identity == target_identity {
        return;
    }
    let eater_place = world.players.position(&identity);
    if eater_place.is_none() {
        return;
    }
    let target_place = world.players.position(&target_identity);
    if target_place.is_none() {
        return;
    }
    let e = eater_place.unwrap();
    let t = target_place.unwrap();
    let eater = world.players.row(e);
    let target = world.players.row(t);
    if (eater.mass as u64) * 10 < (target.mass as u64) * 11 {
        return;
    }
    if !overlaps(eater.x, eater.y, eater.radius, target.x, target.y, 0, EAT_TOLERANCE) {
        return;
    }
    let split_mass = cell_mass_of(&world.cells, target_identity);
    let total: u128 = eater.mass as u128 + target.mass as u128 + split_mass;
    let new_mass: u32 = if total > MASS_LIMIT as u128 {
        MASS_LIMIT
    } else {
        total as u32
    };
    world.players.row_mut(e).set_mass(new_mass);
    world.players.remove(t);
    delete_player_cells(world, target_identity);
}

/// A request to eat ejected mass is carried out: the player and the pellet
/// exist, and the pellet is within the player's reach.
pub open spec fn can_eat_ejected(s: WorldState, identity: Identity, mass_id: u64) -> bool {
    &&& s.players.dom().contains(identity)
    &&& s.ejected.dom().contains(mass_id)
    &&& within_reach(
        s.players[identity].x as int,
        s.players[identity].y as int,
        s.players[identity].radius as int,
        s.ejected[mass_id].x as int,
        s.ejected[mass_id].y as int,
        s.ejected[mass_id].radius as int,
        EAT_TOLERANCE as int,
    )
}

/// The world after a request to eat ejected mass: the pellet is gone and
/// the player has its mass; or nothing changes.
pub open spec fn after_eat_ejected(s: WorldState, identity: Identity, mass_id: u64) -> WorldState {
    if can_eat_ejected(s, identity, mass_id) {
        let player = s.players[identity];
        WorldState {
            players: s.players.insert(
                identity,
                player.with_mass(capped(player.mass + s.ejected[mass_id].mass) as u32),
            ),
            ejected: s.ejected.remove(mass_id),
            ..s
        }
    } else {
        s
    }
}

/// The caller's player eats a pellet of ejected mass. The request is
/// declined without a trace where `can_eat_ejected` fails.
pub fn eat_ejected_mass(world: &mut World, identity: Identity, mass_id: u64)
    requires
        old(world).wf(),
    ensures
        final(world).wf(),
        final(world)@ == after_eat_ejected(old(world)@, identity, mass_id),
{
    let eater = world.players.position(&identity);
    if eater.is_none() {
        return;
    }
    let meal = world.ejected.position(&mass_id);
    if meal.is_none() {
        return;
    }
    let i = eater.unwrap();
    let j = meal.unwrap();
    let player = world.players.row(i);
    let pellet = world.ejected.row(j);
    if !overlaps(
        player.x,
        player.y,
        player.radius,
        pellet.x,
        pellet.y,
        pellet.radius,
        EAT_TOLERANCE,
    ) {
        return;
    }
    let new_mass = add_mass(player.mass, pellet.mass);
    world.ejected.remove(j);
    world.players.row_mut(i).set_mass(new_mass);
}

} // verus!
