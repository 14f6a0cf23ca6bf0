//! Movement: a client names a target, the world keeps the circle inside
//! its bounds.

use crate::rows::Identity;
use crate::units::{clamp, clamped, WORLD_HEIGHT, WORLD_WIDTH};
use crate::world::{World, WorldState};
use vstd::prelude::*;

verus! {

/// A circle of this radius has room in the world.
pub open spec fn fits(radius: int) -> bool {
    2 * radius <= WORLD_WIDTH && 2 * radius <= WORLD_HEIGHT
}

/// The nearest place to `x` at which a circle of this radius lies
/// within the width of the world.
pub open spec fn kept_x(x: int, radius: int) -> int {
    clamped(x, radius, WORLD_WIDTH - radius)
}

/// The nearest place to `y` at which a circle of this radius lies
/// within the height of the world.
pub open spec fn kept_y(y: int, radius: int) -> int {
    clamped(y, radius, WORLD_HEIGHT - radius)
}

/// A request to move a player is carried out: the player exists and has
/// room in the world.
pub open spec fn can_move(s: WorldState, identity: Identity) -> bool {
    s.players.dom().contains(identity) && fits(s.players[identity].radius as int)
}

/// The world after a request to move a player: the player stands as near
/// to the target as the bounds allow, and is otherwise as it was; or
/// nothing changes.
pub open spec fn after_move(s: WorldState, identity: Identity, x: int, y: int) -> WorldState {
    if can_move(s, identity) {
        let player = s.players[identity];
        WorldState {
            players: s.players.insert(
                identity,
                player.at(
                    kept_x(x, player.radius as int) as i32,
                    kept_y(y, player.radius as int) as i32,
                ),
            ),
            ..s
        }
    } else {
        s
    }
}

/// Whether a circle of this radius has room in the world.
pub fn has_room(radius: u32) -> (room: bool)
    ensures
        room == fits(radius as int),
{
    radius as i64 * 2 <= WORLD_WIDTH as i64 && radius as i64 * 2 <= WORLD_HEIGHT as i64
}

/// Moves the caller's player toward a target, as far as the bounds of the
/// world allow. The request is declined without a trace where `can_move`
/// fails.
pub fn update_position(world: &mut World, identity: Identity, x: i32, y: i32)
    requires
        old(world).wf(),
    ensures
        final(world).wf(),
        final(world)@ == after_move(old(world)@, identity, x as int, y as int),
{
    let place = world.players.position(&identity);
    if place.is_none() {
        return;
    }
    let i = place.unwrap();
    let radius = world.players.row(i).radius;
    if !has_room(radius) {
        return;
    }
    let reach = radius as i32;
    let new_x = clamp(x as i64, reach, WORLD_WIDTH - reach);
    let new_y = clamp(y as i64, reach, WORLD_HEIGHT - reach);
    world.players.row_mut(i).set_position(new_x, new_y);
}

/// A request to move a split cell is carried out: the cell exists, belongs
/// to the caller, and has room in the world.
pub open spec fn can_move_cell(s: WorldState, identity: Identity, cell_id: u64) -> bool {
    &&& s.cells.dom().contains(cell_id)
    &&& s.cells[cell_id].player_identity == identity
    &&& fits(s.cells[cell_id].radius as int)
}

/// The world after a request to move a split cell: the cell stands as near
/// to the target as the bounds allow, and is otherwise as it was; or
/// nothing changes.
pub open spec fn after_move_cell(
    s: WorldState,
    identity: Identity,
    cell_id: u64,
    x: int,
    y: int,
) -> WorldState {
    if can_move_cell(s, identity, cell_id) {
        let cell = s.cells[cell_id];
        WorldState {
            cells: s.cells.insert(
                cell_id,
                cell.at(kept_x(x, cell.radius as int) as i32, kept_y(y, cell.radius as int) as i32),
            ),
            ..s
        }
    } else {
        s
    }
}

/// Moves one of the caller's split cells toward a target, as far as the
/// bounds of the world allow. The request is declined without a trace
/// where `can_move_cell` fails: a caller moves no cell but its own.
pub fn update_cell_position(world: &mut World, identity: Identity, cell_id: u64, x: i32, y: i32)
    requires
        old(world).wf(),
    ensures
        final(world).wf(),
        final(world)@ == after_move_cell(old(world)@, identity, cell_id, x as int, y as int),
{
    let place = world.cells.position(&cell_id);
    if place.is_none() {
        return;
    }
    let i = place.unwrap();
    let cell = world.cells.row(i);
    if cell.player_identity != identity {
        return;
    }
    let radius = cell.radius;
    if !has_room(radius) {
        return;
    }
    let reach = radius as i32;
    let new_x = clamp(x as i64, reach, WORLD_WIDTH - reach);
    let new_y = clamp(y as i64, reach, WORLD_HEIGHT - reach);
    world.cells.row_mut(i).set_position(new_x, new_y);
}

} // verus!
