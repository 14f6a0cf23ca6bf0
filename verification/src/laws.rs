//! Laws of the arena: what holds of every world and of every sequence of
//! requests, proved from the rules themselves.

use crate::cells::{
    cells_of, has_cell, lemma_owned_mass_insert, lemma_owned_mass_none, owned_mass,
    without_cells_of,
};
use crate::consumption::{after_eat_food, can_eat_ejected, can_eat_food, can_eat_player};
use crate::dispatch::{after_event, Event, Request};
use crate::economy::{
    after_decay, after_merge, after_split, can_eject, can_split, decayed_cell, decayed_player,
    ejected_pellet, split_half, split_offset,
};
use crate::lifecycle::{after_spawn, initial_state, lemma_seeded_count, seed_count, spawned};
use crate::movement::{after_move, after_move_cell, can_move, can_move_cell};
use crate::rows::Identity;
use crate::units::{
    capped, distance_squared, lemma_decay_shrinks, lemma_direction_iff_nonzero,
    lemma_displacement_reaches_distance, lemma_displacement_within_distance, lemma_radius_bound,
    moved_along, offset_of, radius_of, share_of, CELL_FLOOR_MASS, EJECT_DISTANCE, EJECT_MARGIN,
    EJECT_MASS_AMOUNT, FOOD_MASS, INITIAL_MASS, MASS_DECAY_RATE, MASS_LIMIT, MAX_FOOD,
    SPLIT_MARGIN, WORLD_HEIGHT, WORLD_WIDTH,
};
use crate::world::{sound, World, WorldState};
use vstd::prelude::*;

verus! {

/// In a world at rest, the radius of every player and of every split cell
/// is the radius of its mass.
pub proof fn law_radius_follows_mass(world: World)
    requires
        world.wf(),
    ensures
        forall|id: Identity| #[trigger]
            world@.players.dom().contains(id) ==> world@.players[id].radius == radius_of(
                world@.players[id].mass as nat,
            ),
        forall|k: u64| #[trigger]
            world@.cells.dom().contains(k) ==> world@.cells[k].radius == radius_of(
                world@.cells[k].mass as nat,
            ),
{
}

/// A decay tick takes no player that has at least the initial mass below
/// it, and no split cell that has at least half the initial mass below
/// that.
pub proof fn law_decay_keeps_floor(s: WorldState)
    ensures
        forall|id: Identity| #[trigger]
            s.players.dom().contains(id) && s.players[id].mass >= INITIAL_MASS ==> after_decay(
                s,
            ).players[id].mass >= INITIAL_MASS,
        forall|k: u64| #[trigger]
            s.cells.dom().contains(k) && s.cells[k].mass >= CELL_FLOOR_MASS ==> after_decay(
                s,
            ).cells[k].mass >= CELL_FLOOR_MASS,
{
    assert forall|id: Identity| #[trigger]
        s.players.dom().contains(id) && s.players[id].mass >= INITIAL_MASS implies after_decay(
        s,
    ).players[id].mass >= INITIAL_MASS by {
        assert(after_decay(s).players[id] == decayed_player(s.players[id]));
    }
    assert forall|k: u64| #[trigger]
        s.cells.dom().contains(k) && s.cells[k].mass >= CELL_FLOOR_MASS implies after_decay(
        s,
    ).cells[k].mass >= CELL_FLOOR_MASS by {
        assert(after_decay(s).cells[k] == decayed_cell(s.cells[k]));
    }
}

/// After a move that is carried out, the player's circle lies within the
/// world on both axes.
pub proof fn law_moved_player_in_bounds(s: WorldState, identity: Identity, x: int, y: int)
    requires
        sound(s),
        can_move(s, identity),
    ensures
        ({
            let moved = after_move(s, identity, x, y).players[identity];
            &&& moved.radius <= moved.x <= WORLD_WIDTH - moved.radius
            &&& moved.radius <= moved.y <= WORLD_HEIGHT - moved.radius
        }),
{
}

/// After a move that is carried out, the split cell's circle lies within
/// the world on both axes.
pub proof fn law_moved_cell_in_bounds(
    s: WorldState,
    identity: Identity,
    cell_id: u64,
    x: int,
    y: int,
)
    requires
        sound(s),
        can_move_cell(s, identity, cell_id),
    ensures
        ({
            let moved = after_move_cell(s, identity, cell_id, x, y).cells[cell_id];
            &&& moved.radius <= moved.x <= WORLD_WIDTH - moved.radius
            &&& moved.radius <= moved.y <= WORLD_HEIGHT - moved.radius
        }),
{
}

/// To spawn twice is to spawn once: after the second spawn the caller has
/// one player, the one spawned last, and no split cell, and the world is
/// what the second spawn alone would have made of it.
pub proof fn law_spawn_twice(
    s: WorldState,
    identity: Identity,
    first_name: String,
    first_x: int,
    first_y: int,
    first_draw: int,
    name: String,
    x: int,
    y: int,
    draw: int,
)
    requires
        sound(s),
    ensures
        ({
            let once = after_spawn(s, identity, first_name, first_x, first_y, first_draw);
            let twice = after_spawn(once, identity, name, x, y, draw);
            &&& twice == after_spawn(s, identity, name, x, y, draw)
            &&& twice.players.dom().contains(identity)
            &&& twice.players[identity] == spawned(identity, name, x, y, draw)
            &&& twice.players.dom().len() == once.players.dom().len()
            &&& !has_cell(twice.cells, identity)
        }),
{
    let once = after_spawn(s, identity, first_name, first_x, first_y, first_draw);
    let twice = after_spawn(once, identity, name, x, y, draw);
    let alone = after_spawn(s, identity, name, x, y, draw);
    assert(twice.players =~= alone.players);
    assert(twice.cells =~= alone.cells);
    assert(twice.players.dom() =~= once.players.dom());
}

/// A meal of food that is carried out leaves as many pellets in the world
/// as there were: the pellet eaten is gone, and one pellet under a key that
/// the world has never held has taken its place. The eater has gained the
/// mass of one pellet, exactly so unless that passes the mass limit.
pub proof fn law_food_is_replaced(
    s: WorldState,
    identity: Identity,
    food_id: u64,
    respawn_x: int,
    respawn_y: int,
)
    requires
        sound(s),
        can_eat_food(s, identity, food_id),
    ensures
        ({
            let fed = after_eat_food(s, identity, food_id, respawn_x, respawn_y);
            &&& fed.food.dom().len() == s.food.dom().len()
            &&& !fed.food.dom().contains(food_id)
            &&& !s.food.dom().contains(s.next_food_id)
            &&& fed.food.dom() == s.food.dom().remove(food_id).insert(s.next_food_id)
            &&& fed.players[identity].mass == capped(s.players[identity].mass + FOOD_MASS)
            &&& s.players[identity].mass + FOOD_MASS <= MASS_LIMIT ==> fed.players[identity].mass
                == s.players[identity].mass + FOOD_MASS
        }),
{
    let fed = after_eat_food(s, identity, food_id, respawn_x, respawn_y);
    assert(!s.food.dom().contains(s.next_food_id));
    assert(fed.food.dom() =~= s.food.dom().remove(food_id).insert(s.next_food_id));
}

/// A pellet that is thrown out and lands clear of the margin lies in the
/// direction asked for, no farther from the player than the eject distance
/// and short of it by less than a thousandth on each axis.
pub proof fn law_pellet_lands_within_eject_distance(
    s: WorldState,
    identity: Identity,
    dir_x: int,
    dir_y: int,
)
    requires
        sound(s),
        can_eject(s, identity, dir_x, dir_y),
        EJECT_MARGIN <= moved_along(
            s.players[identity].x as int,
            dir_x,
            dir_x,
            dir_y,
            EJECT_DISTANCE as int,
        ) <= WORLD_WIDTH - EJECT_MARGIN,
        EJECT_MARGIN <= moved_along(
            s.players[identity].y as int,
            dir_y,
            dir_x,
            dir_y,
            EJECT_DISTANCE as int,
        ) <= WORLD_HEIGHT - EJECT_MARGIN,
    ensures
        ({
            let player = s.players[identity];
            let pellet = ejected_pellet(s, identity, dir_x, dir_y);
            &&& pellet.x == player.x + offset_of(dir_x, dir_x, dir_y, EJECT_DISTANCE as int)
            &&& pellet.y == player.y + offset_of(dir_y, dir_x, dir_y, EJECT_DISTANCE as int)
            &&& distance_squared(
                pellet.x as int,
                pellet.y as int,
                player.x as int,
                player.y as int,
            ) <= EJECT_DISTANCE * EJECT_DISTANCE
            &&& ({
                let sx = share_of(dir_x, dir_x, dir_y, EJECT_DISTANCE as int);
                let sy = share_of(dir_y, dir_x, dir_y, EJECT_DISTANCE as int);
                (sx + 1) * (sx + 1) + (sy + 1) * (sy + 1) > EJECT_DISTANCE * EJECT_DISTANCE
            })
        }),
{
    lemma_direction_iff_nonzero(dir_x, dir_y);
    lemma_displacement_within_distance(dir_x, dir_y, EJECT_DISTANCE as int);
    lemma_displacement_reaches_distance(dir_x, dir_y, EJECT_DISTANCE as int);
}

/// A cell that is split off and lands clear of the margin lies in the
/// direction asked for, no farther from the player than two and a half of
/// its radii and short of that by less than a thousandth on each axis.
pub proof fn law_split_cell_lands_within_offset(
    s: WorldState,
    identity: Identity,
    dir_x: int,
    dir_y: int,
)
    requires
        sound(s),
        can_split(s, identity, dir_x, dir_y),
        SPLIT_MARGIN <= moved_along(
            s.players[identity].x as int,
            dir_x,
            dir_x,
            dir_y,
            split_offset((s.players[identity].mass / 2) as u32),
        ) <= WORLD_WIDTH - SPLIT_MARGIN,
        SPLIT_MARGIN <= moved_along(
            s.players[identity].y as int,
            dir_y,
            dir_x,
            dir_y,
            split_offset((s.players[identity].mass / 2) as u32),
        ) <= WORLD_HEIGHT - SPLIT_MARGIN,
    ensures
        ({
            let player = s.players[identity];
            let reach = split_offset((player.mass / 2) as u32);
            let cell = split_half(s, identity, dir_x, dir_y);
            &&& cell.x == player.x + offset_of(dir_x, dir_x, dir_y, reach)
            &&& cell.y == player.y + offset_of(dir_y, dir_x, dir_y, reach)
            &&& distance_squared(cell.x as int, cell.y as int, player.x as int, player.y as int)
                <= reach * reach
            &&& ({
                let sx = share_of(dir_x, dir_x, dir_y, reach);
                let sy = share_of(dir_y, dir_x, dir_y, reach);
                (sx + 1) * (sx + 1) + (sy + 1) * (sy + 1) > reach * reach
            })
        }),
{
    let reach = split_offset((s.players[identity].mass / 2) as u32);
    lemma_direction_iff_nonzero(dir_x, dir_y);
    lemma_displacement_within_distance(dir_x, dir_y, reach);
    lemma_displacement_reaches_distance(dir_x, dir_y, reach);
}

/// A split followed by its merge leaves the player without a split cell
/// and with all the mass that it and its cells had between them, up to the
/// mass limit. A player that had no split cell has exactly its mass and its
/// row back, and the table of cells is as before the split.
pub proof fn law_split_then_merge(
    s: WorldState,
    identity: Identity,
    dir_x: int,
    dir_y: int,
    now: u64,
)
    requires
        sound(s),
        s.players.dom().contains(identity),
    ensures
        ({
            let split = after_split(s, identity, dir_x, dir_y, now);
            let merged = after_merge(split, identity);
            &&& split.players[identity].mass + owned_mass(split.cells, identity)
                == s.players[identity].mass + owned_mass(s.cells, identity)
            &&& merged.players[identity].mass == capped(
                s.players[identity].mass + owned_mass(s.cells, identity),
            )
            &&& !has_cell(merged.cells, identity)
            &&& !has_cell(s.cells, identity) ==> {
                &&& merged.players[identity].mass == s.players[identity].mass
                &&& merged.players == s.players
                &&& merged.cells == s.cells
            }
        }),
{
    let split = after_split(s, identity, dir_x, dir_y, now);
    let merged = after_merge(split, identity);
    if can_split(s, identity, dir_x, dir_y) {
        let half = split_half(s, identity, dir_x, dir_y);
        assert(split.cells.dom().contains(s.next_cell_id) && split.cells[s.next_cell_id] == half);
        assert(has_cell(split.cells, identity));
        lemma_owned_mass_none(s.cells, identity);
        lemma_owned_mass_insert(s.cells, identity, s.next_cell_id, half);
        assert(merged.cells =~= s.cells) by {
            assert forall|k: u64| #[trigger]
                s.cells.dom().contains(k) implies s.cells[k].player_identity != identity by {}
        }
        assert(merged.players[identity] == s.players[identity]);
        assert(merged.players =~= s.players);
    } else if has_cell(s.cells, identity) {
    } else {
        lemma_owned_mass_none(s.cells, identity);
    }
}

/// A decay tick adds mass to no player and to no split cell.
pub proof fn law_decay_adds_no_mass(s: WorldState)
    ensures
        forall|id: Identity| #[trigger]
            s.players.dom().contains(id) ==> after_decay(s).players[id].mass
                <= s.players[id].mass,
        forall|k: u64| #[trigger]
            s.cells.dom().contains(k) ==> after_decay(s).cells[k].mass <= s.cells[k].mass,
{
    assert forall|id: Identity| #[trigger] s.players.dom().contains(id) implies after_decay(
        s,
    ).players[id].mass <= s.players[id].mass by {
        assert(after_decay(s).players[id] == decayed_player(s.players[id]));
        if s.players[id].mass > INITIAL_MASS {
            lemma_decay_shrinks(
                s.players[id].mass as nat,
                MASS_DECAY_RATE as nat,
                INITIAL_MASS as nat,
            );
        }
    }
    assert forall|k: u64| #[trigger] s.cells.dom().contains(k) implies after_decay(
        s,
    ).cells[k].mass <= s.cells[k].mass by {
        assert(after_decay(s).cells[k] == decayed_cell(s.cells[k]));
        if s.cells[k].mass > CELL_FLOOR_MASS {
            lemma_decay_shrinks(
                s.cells[k].mass as nat,
                MASS_DECAY_RATE as nat,
                CELL_FLOOR_MASS as nat,
            );
        }
    }
}

/// No player is lighter than the initial mass, and no split cell lighter
/// than half of it.
pub open spec fn floors_hold(s: WorldState) -> bool {
    &&& forall|id: Identity| #[trigger]
        s.players.dom().contains(id) ==> s.players[id].mass >= INITIAL_MASS
    &&& forall|k: u64| #[trigger] s.cells.dom().contains(k) ==> s.cells[k].mass >= CELL_FLOOR_MASS
}

/// Deleting the cells of one player leaves a sound world sound.
pub proof fn lemma_delete_cells_keeps_soundness(s: WorldState, owner: Identity)
    requires
        sound(s),
    ensures
        sound(WorldState { cells: without_cells_of(s.cells, owner), ..s }),
{
    let rest = without_cells_of(s.cells, owner);
    assert(rest.dom() =~= s.cells.dom().difference(cells_of(s.cells, owner)));
}

/// Every event leaves a sound world sound: whatever is asked of the world
/// and whichever timer fires, every row stays under its key, inside the
/// world and with the radius of its mass.
pub proof fn law_events_keep_soundness(s: WorldState, event: Event)
    requires
        sound(s),
    ensures
        sound(after_event(s, event)),
{
    let next = after_event(s, event);
    match event {
        Event::Call { sender, request } => {
            match request {
                Request::Connect => {},
                Request::Disconnect => {
                    lemma_delete_cells_keeps_soundness(s, sender);
                },
                Request::Spawn { name, x, y, color_draw } => {
                    lemma_delete_cells_keeps_soundness(s, sender);
                    lemma_radius_bound(INITIAL_MASS as nat);
                },
                Request::Despawn => {
                    lemma_delete_cells_keeps_soundness(s, sender);
                },
                Request::Move { x, y } => {},
                Request::MoveCell { cell_id, x, y } => {},
                Request::EatFood { food_id, respawn_x, respawn_y } => {
                    if can_eat_food(s, sender, food_id) {
                        lemma_radius_bound(
                            capped(s.players[sender].mass + FOOD_MASS),
                        );
                    }
                },
                Request::EatPlayer { target } => {
                    if can_eat_player(s, sender, target) {
                        let gain = s.players[target].mass + owned_mass(s.cells, target);
                        lemma_radius_bound(
                            capped(s.players[sender].mass + gain),
                        );
                        let fed = s.players[sender].with_mass(
                            capped(s.players[sender].mass + gain) as u32,
                        );
                        let mid = WorldState {
                            players: s.players.insert(sender, fed).remove(target),
                            ..s
                        };
                        assert(sound(mid));
                        lemma_delete_cells_keeps_soundness(mid, target);
                    }
                },
                Request::EatEjected { mass_id } => {
                    if can_eat_ejected(s, sender, mass_id) {
                        lemma_radius_bound(
                            capped(
                                s.players[sender].mass + s.ejected[mass_id].mass,
                            ),
                        );
                    }
                },
                Request::Eject { dir_x, dir_y } => {
                    if can_eject(s, sender, dir_x as int, dir_y as int) {
                        lemma_radius_bound(
                            (s.players[sender].mass - EJECT_MASS_AMOUNT) as nat,
                        );
                        lemma_radius_bound(EJECT_MASS_AMOUNT as nat);
                    }
                },
                Request::Split { dir_x, dir_y, now } => {
                    if can_split(s, sender, dir_x as int, dir_y as int) {
                        let mass = s.players[sender].mass;
                        lemma_radius_bound((mass / 2) as nat);
                        lemma_radius_bound((mass - mass / 2) as nat);
                    }
                },
            }
        },
        Event::DecayTick(_) => {
            assert(next.players.dom() =~= s.players.dom());
            assert(next.cells.dom() =~= s.cells.dom());
            assert forall|id: Identity| #[trigger]
                next.players.dom().contains(id) implies next.players[id].identity == id
                && next.players[id].valid() by {
                assert(next.players[id] == decayed_player(s.players[id]));
                lemma_radius_bound(next.players[id].mass as nat);
            }
            assert forall|k: u64| #[trigger]
                next.cells.dom().contains(k) implies next.cells[k].cell_id == k
                && next.cells[k].valid() && k < next.next_cell_id by {
                assert(next.cells[k] == decayed_cell(s.cells[k]));
                lemma_radius_bound(next.cells[k].mass as nat);
            }
        },
        Event::MergeTick(schedule) => {
            let owner = schedule.player_identity;
            if has_cell(s.cells, owner) {
                if s.players.dom().contains(owner) {
                    let merged = capped(
                        s.players[owner].mass + owned_mass(s.cells, owner),
                    );
                    lemma_radius_bound(merged);
                    let mid = WorldState {
                        players: s.players.insert(
                            owner,
                            s.players[owner].with_mass(merged as u32),
                        ),
                        ..s
                    };
                    assert(sound(mid));
                    lemma_delete_cells_keeps_soundness(mid, owner);
                } else {
                    lemma_delete_cells_keeps_soundness(s, owner);
                }
            }
        },
    }
}

/// Every event leaves the floors of the mass economy in place: in a sound
/// world where no player is lighter than the initial mass and no split
/// cell lighter than half of it, none is after the event.
pub proof fn law_events_keep_floors(s: WorldState, event: Event)
    requires
        sound(s),
        floors_hold(s),
    ensures
        floors_hold(after_event(s, event)),
{
    let next = after_event(s, event);
    match event {
        Event::Call { sender, request } => {},
        Event::DecayTick(_) => {
            law_decay_keeps_floor(s);
        },
        Event::MergeTick(_) => {},
    }
}

/// Every split cell belongs to a player of the world, and no player has
/// more than one.
pub open spec fn tidy(s: WorldState) -> bool {
    &&& forall|k: u64| #[trigger]
        s.cells.dom().contains(k) ==> s.players.dom().contains(s.cells[k].player_identity)
    &&& forall|j: u64, k: u64|
        #![trigger s.cells.dom().contains(j), s.cells.dom().contains(k)]
        s.cells.dom().contains(j) && s.cells.dom().contains(k) && s.cells[j].player_identity
            == s.cells[k].player_identity ==> j == k
}

/// A new world is sound and tidy, and its floors hold.
pub proof fn law_new_world_is_sound(spots: Seq<(i32, i32)>)
    ensures
        sound(initial_state(spots)),
        floors_hold(initial_state(spots)),
        tidy(initial_state(spots)),
{
    lemma_seeded_count(spots, seed_count(spots));
}

/// A new world holds one pellet of food for each place drawn, up to the
/// full count: given places enough, it holds exactly as many pellets as its
/// configuration counts.
pub proof fn law_new_world_has_its_food(spots: Seq<(i32, i32)>)
    ensures
        initial_state(spots).food.dom().len() == seed_count(spots),
        spots.len() >= MAX_FOOD ==> initial_state(spots).food.dom().len() == MAX_FOOD
            && initial_state(spots).food.dom().len() == initial_state(spots).config.max_food,
{
    lemma_seeded_count(spots, seed_count(spots));
}

/// Every event leaves a tidy world tidy: no event leaves a split cell
/// without its player, and none gives a player a second split cell.
pub proof fn law_events_keep_tidiness(s: WorldState, event: Event)
    requires
        sound(s),
        tidy(s),
    ensures
        tidy(after_event(s, event)),
{
    let next = after_event(s, event);
    match event {
        Event::Call { sender, request } => {
            match request {
                Request::Split { dir_x, dir_y, now } => {
                    if can_split(s, sender, dir_x as int, dir_y as int) {
                        assert forall|k: u64| #[trigger]
                            s.cells.dom().contains(k) implies s.cells[k].player_identity
                            != sender by {}
                    }
                },
                _ => {},
            }
        },
        Event::DecayTick(_) => {
            assert(next.players.dom() =~= s.players.dom());
            assert(next.cells.dom() =~= s.cells.dom());
            assert forall|k: u64| #[trigger] next.cells.dom().contains(k) implies next.cells[k]
                == decayed_cell(s.cells[k]) by {}
        },
        Event::MergeTick(_) => {},
    }
}

/// No event takes a key generator back: a key that was handed out is never
/// handed out again.
pub proof fn law_keys_only_grow(s: WorldState, event: Event)
    ensures
        s.next_cell_id <= after_event(s, event).next_cell_id,
        s.next_food_id <= after_event(s, event).next_food_id,
        s.next_ejected_id <= after_event(s, event).next_ejected_id,
        s.next_decay_id <= after_event(s, event).next_decay_id,
        s.next_merge_id <= after_event(s, event).next_merge_id,
{
}

/// A merge that fires a second time does nothing.
pub proof fn law_merge_twice(s: WorldState, owner: Identity)
    ensures
        after_merge(after_merge(s, owner), owner) == after_merge(s, owner),
{
}

} // verus!
