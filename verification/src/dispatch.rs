//! Event dispatch: every request of a caller and every timer that fires
//! is one event, and one event is one indivisible step of the world.

use crate::consumption::{
    after_eat_ejected, after_eat_food, after_eat_player, eat_ejected_mass, eat_food, eat_player,
};
use crate::economy::{
    after_decay, after_eject, after_merge, after_split, decay_mass, eject_mass, merge_split,
    split_cell,
};
use crate::lifecycle::{
    after_despawn, after_spawn, despawn_player, identity_connected, identity_disconnected,
    spawn_player,
};
use crate::movement::{after_move, after_move_cell, update_cell_position, update_position};
use crate::rows::{Identity, MassDecaySchedule, SplitMergeSchedule};
use crate::world::{World, WorldState};
use vstd::prelude::*;

verus! {

/// What a caller can ask of the world. Places and colours that the rules
/// leave to chance come with the request, drawn by whoever sends it on;
/// so does the time of a split.
pub enum Request {
    Connect,
    Disconnect,
    Spawn { name: String, x: i32, y: i32, color_draw: u32 },
    Despawn,
    Move { x: i32, y: i32 },
    MoveCell { cell_id: u64, x: i32, y: i32 },
    EatFood { food_id: u64, respawn_x: i32, respawn_y: i32 },
    EatPlayer { target: Identity },
    EatEjected { mass_id: u64 },
    Eject { dir_x: i32, dir_y: i32 },
    Split { dir_x: i32, dir_y: i32, now: u64 },
}

/// One step of the world: a caller's request, or a timer that fires.
pub enum Event {
    Call { sender: Identity, request: Request },
    DecayTick(MassDecaySchedule),
    MergeTick(SplitMergeSchedule),
}

/// The world after a caller's request.
pub open spec fn after_request(s: WorldState, sender: Identity, request: Request) -> WorldState {
    match request {
        Request::Connect => s,
        Request::Disconnect => after_despawn(s, sender),
        Request::Spawn { name, x, y, color_draw } => after_spawn(
            s,
            sender,
            name,
            x as int,
            y as int,
            color_draw as int,
        ),
        Request::Despawn => after_despawn(s, sender),
        Request::Move { x, y } => after_move(s, sender, x as int, y as int),
        Request::MoveCell { cell_id, x, y } => after_move_cell(
            s,
            sender,
            cell_id,
            x as int,
            y as int,
        ),
        Request::EatFood { food_id, respawn_x, respawn_y } => after_eat_food(
            s,
            sender,
            food_id,
            respawn_x as int,
            respawn_y as int,
        ),
        Request::EatPlayer { target } => after_eat_player(s, sender, target),
        Request::EatEjected { mass_id } => after_eat_ejected(s, sender, mass_id),
        Request::Eject { dir_x, dir_y } => after_eject(s, sender, dir_x as int, dir_y as int),
        Request::Split { dir_x, dir_y, now } => after_split(
            s,
            sender,
            dir_x as int,
            dir_y as int,
            now,
        ),
    }
}

/// The world after an event.
pub open spec fn after_event(s: WorldState, event: Event) -> WorldState {
    match event {
        Event::Call { sender, request } => after_request(s, sender, request),
        Event::DecayTick(_) => after_decay(s),
        Event::MergeTick(schedule) => after_merge(s, schedule.player_identity),
    }
}

/// Carries out one request of a caller.
pub fn handle_request(world: &mut World, sender: Identity, request: Request)
    requires
        old(world).wf(),
    ensures
        final(world).wf(),
        final(world)@ == after_request(old(world)@, sender, request),
{
    match request {
        Request::Connect => identity_connected(world, sender),
        Request::Disconnect => identity_disconnected(world, sender),
        Request::Spawn { name, x, y, color_draw } => spawn_player(
            world,
            sender,
            name,
            x,
            y,
            color_draw,
        ),
        Request::Despawn => despawn_player(world, sender),
        Request::Move { x, y } => update_position(world, sender, x, y),
        Request::MoveCell { cell_id, x, y } => update_cell_position(world, sender, cell_id, x, y),
        Request::EatFood { food_id, respawn_x, respawn_y } => eat_food(
            world,
            sender,
            food_id,
            respawn_x,
            respawn_y,
        ),
        Request::EatPlayer { target } => eat_player(world, sender, target),
        Request::EatEjected { mass_id } => eat_ejected_mass(world, sender, mass_id),
        Request::Eject { dir_x, dir_y } => eject_mass(world, sender, dir_x, dir_y),
        Request::Split { dir_x, dir_y, now } => split_cell(world, sender, dir_x, dir_y, now),
    }
}

/// Carries out one event: routes it to the rule that it names.
pub fn dispatch(world: &mut World, event: Event)
    requires
        old(world).wf(),
    ensures
        final(world).wf(),
        final(world)@ == after_event(old(world)@, event),
{
    match event {
        Event::Call { sender, request } => handle_request(world, sender, request),
        Event::DecayTick(schedule) => decay_mass(world, schedule),
        Event::MergeTick(schedule) => merge_split(world, schedule),
    }
}

} // verus!
