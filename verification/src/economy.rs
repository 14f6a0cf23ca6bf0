//! The mass economy: ejecting mass, splitting in two, merging back, and
//! the decay that every tick takes.

use crate::cells::{
    after_delete_cells, cell_mass_of, delete_player_cells, has_cell, owned_mass, owns_cell,
};
use crate::rows::{
    EjectedMass, Identity, MassDecaySchedule, Player, PlayerCell, ScheduleAt, SplitMergeSchedule,
};
use crate::table::lemma_map_rows;
use crate::units::{
    capped, clamp, clamped, decay, decayed, displaced, has_direction, mass_to_radius, moved_along,
    radius_of, CELL_FLOOR_MASS, EJECT_DISTANCE, EJECT_MARGIN, EJECT_MASS_AMOUNT, INITIAL_MASS,
    MASS_DECAY_RATE, MASS_LIMIT, MIN_SPLIT_MASS, SPLIT_MARGIN, WORLD_HEIGHT, WORLD_WIDTH,
};
use crate::world::{World, WorldState};
use vstd::prelude::*;

verus! {

/// Microseconds between a split and the merge that undoes it.
pub const MERGE_DELAY_MICROS: u64 = 10_000_000;

/// Distance between a player and the half that it splits off: two and a
/// half radii of the half.
pub open spec fn split_offset(half: u32) -> int {
    (radius_of(half as nat) * 5) as int / 2
}

/// The moment at which a split made at `now` is merged back; the end of
/// time where the delay would pass it.
pub open spec fn merge_time(now: u64) -> u64 {
    if now + MERGE_DELAY_MICROS > u64::MAX {
        u64::MAX
    } else {
        (now + MERGE_DELAY_MICROS) as u64
    }
}

/// A split is carried out: the player exists, weighs enough, has no split
/// cell yet, the direction is one, and both key generators have a key left.
pub open spec fn can_split(s: WorldState, identity: Identity, dir_x: int, dir_y: int) -> bool {
    &&& s.players.dom().contains(identity)
    &&& s.players[identity].mass >= MIN_SPLIT_MASS
    &&& !has_cell(s.cells, identity)
    &&& has_direction(dir_x, dir_y)
    &&& s.next_cell_id < u64::MAX
    &&& s.next_merge_id < u64::MAX
}

/// The cell that a split creates: half the player's mass, rounded down, set
/// off from the player by two and a half of its radii along the normalized
/// direction, each coordinate rounded toward the player, and kept off the
/// world's edge.
pub open spec fn split_half(
    s: WorldState,
    identity: Identity,
    dir_x: int,
    dir_y: int,
) -> PlayerCell {
    let player = s.players[identity];
    let half = player.mass / 2;
    PlayerCell {
        cell_id: s.next_cell_id,
        player_identity: identity,
        x: clamped(
            moved_along(player.x as int, dir_x, dir_x, dir_y, split_offset(half)),
            SPLIT_MARGIN as int,
            WORLD_WIDTH - SPLIT_MARGIN,
        ) as i32,
        y: clamped(
            moved_along(player.y as int, dir_y, dir_x, dir_y, split_offset(half)),
            SPLIT_MARGIN as int,
            WORLD_HEIGHT - SPLIT_MARGIN,
        ) as i32,
        radius: radius_of(half as nat) as u32,
        mass: half,
    }
}

/// The world after a request to split: the player keeps what is not split
/// off, the new cell holds the other half, and a merge is scheduled; or
/// nothing changes.
pub open spec fn after_split(
    s: WorldState,
    identity: Identity,
    dir_x: int,
    dir_y: int,
    now: u64,
) -> WorldState {
    if can_split(s, identity, dir_x, dir_y) {
        let player = s.players[identity];
        let kept = (player.mass - player.mass / 2) as u32;
        WorldState {
            players: s.players.insert(identity, player.with_mass(kept)),
            cells: s.cells.insert(s.next_cell_id, split_half(s, identity, dir_x, dir_y)),
            merge_schedules: s.merge_schedules.insert(
                s.next_merge_id,
                SplitMergeSchedule {
                    scheduled_id: s.next_merge_id,
                    scheduled_at: ScheduleAt::Time(merge_time(now)),
                    player_identity: identity,
                },
            ),
            next_cell_id: (s.next_cell_id + 1) as u64,
            next_merge_id: (s.next_merge_id + 1) as u64,
            ..s
        }
    } else {
        s
    }
}

/// Splits the caller's player in two along a direction, and schedules the
/// merge. The request is declined without a trace where `can_split` fails.
pub fn split_cell(world: &mut World, identity: Identity, dir_x: i32, dir_y: i32, now: u64)
    requires
        old(world).wf(),
    ensures
        final(world).wf(),
        final(world)@ == after_split(old(world)@, identity, dir_x as int, dir_y as int, now),
{
    let place = world.players.position(&identity);
    if place.is_none() {
        return;
    }
    let i = place.unwrap();
    let player = world.players.row(i);
    let mass = player.mass;
    let px = player.x;
    let py = player.y;
    if mass < MIN_SPLIT_MASS {
        return;
    }
    if owns_cell(&world.cells, identity) {
        return;
    }
    if world.next_cell_id == u64::MAX || world.next_merge_id == u64::MAX {
        return;
    }
    let half: u32 = mass / 2;
    let half_radius = mass_to_radius(half);
    let offset: u32 = ((half_radius as u64) * 5 / 2) as u32;
    let target = displaced(px, py, dir_x, dir_y, offset);
    if target.is_none() {
        return;
    }
    let (tx, ty) = target.unwrap();
    let split_x = clamp(tx, SPLIT_MARGIN, WORLD_WIDTH - SPLIT_MARGIN);
    let split_y = clamp(ty, SPLIT_MARGIN, WORLD_HEIGHT - SPLIT_MARGIN);
    let kept: u32 = mass - half;
    world.players.row_mut(i).set_mass(kept);
    world.cells.push(
        PlayerCell {
            cell_id: world.next_cell_id,
            player_identity: identity,
            x: split_x,
            y: split_y,
            radius: half_radius,
            mass: half,
        },
    );
    world.next_cell_id = world.next_cell_id + 1;
    world.merge_schedules.push(
        SplitMergeSchedule {
            scheduled_id: world.next_merge_id,
            scheduled_at: ScheduleAt::Time(now.saturating_add(MERGE_DELAY_MICROS)),
            player_identity: identity,
        },
    );
    world.next_merge_id = world.next_merge_id + 1;
}

/// A request to eject mass is carried out: the player exists, keeps more
/// than the initial mass after the loss, the direction is one, and a key is
/// left for the pellet.
pub open spec fn can_eject(s: WorldState, identity: Identity, dir_x: int, dir_y: int) -> bool {
    &&& s.players.dom().contains(identity)
    &&& s.players[identity].mass > INITIAL_MASS + EJECT_MASS_AMOUNT
    &&& has_direction(dir_x, dir_y)
    &&& s.next_ejected_id < u64::MAX
}

/// The pellet that a player throws out: of fixed mass, at the eject
/// distance from the player along the normalized direction, each coordinate
/// rounded toward the player, and kept off the world's edge.
pub open spec fn ejected_pellet(
    s: WorldState,
    identity: Identity,
    dir_x: int,
    dir_y: int,
) -> EjectedMass {
    let player = s.players[identity];
    EjectedMass {
        id: s.next_ejected_id,
        x: clamped(
            moved_along(player.x as int, dir_x, dir_x, dir_y, EJECT_DISTANCE as int),
            EJECT_MARGIN as int,
            WORLD_WIDTH - EJECT_MARGIN,
        ) as i32,
        y: clamped(
            moved_along(player.y as int, dir_y, dir_x, dir_y, EJECT_DISTANCE as int),
            EJECT_MARGIN as int,
            WORLD_HEIGHT - EJECT_MARGIN,
        ) as i32,
        radius: radius_of(EJECT_MASS_AMOUNT as nat) as u32,
        mass: EJECT_MASS_AMOUNT,
    }
}

/// The world after a request to eject mass: the player is lighter by one
/// pellet, which lies in the world; or nothing changes.
pub open spec fn after_eject(
    s: WorldState,
    identity: Identity,
    dir_x: int,
    dir_y: int,
) -> WorldState {
    if can_eject(s, identity, dir_x, dir_y) {
        let player = s.players[identity];
        WorldState {
            players: s.players.insert(
                identity,
                player.with_mass((player.mass - EJECT_MASS_AMOUNT) as u32),
            ),
            ejected: s.ejected.insert(
                s.next_ejected_id,
                ejected_pellet(s, identity, dir_x, dir_y),
            ),
            next_ejected_id: (s.next_ejected_id + 1) as u64,
            ..s
        }
    } else {
        s
    }
}

/// The caller's player throws out a pellet of mass in a direction. The
/// request is declined without a trace where `can_eject` fails.
pub fn eject_mass(world: &mut World, identity: Identity, dir_x: i32, dir_y: i32)
    requires
        old(world).wf(),
    ensures
        final(world).wf(),
        final(world)@ == after_eject(old(world)@, identity, dir_x as int, dir_y as int),
{
    let place = world.players.position(&identity);
    if place.is_none() {
        return;
    }
    let i = place.unwrap();
    let player = world.players.row(i);
    let mass = player.mass;
    if mass <= INITIAL_MASS + EJECT_MASS_AMOUNT {
        return;
    }
    let target = displaced(player.x, player.y, dir_x, dir_y, EJECT_DISTANCE);
    if target.is_none() {
        return;
    }
    if world.next_ejected_id == u64::MAX {
        return;
    }
    let (tx, ty) = target.unwrap();
    world.players.row_mut(i).set_mass(mass - EJECT_MASS_AMOUNT);
    world.ejected.push(
        EjectedMass {
            id: world.next_ejected_id,
            x: clamp(tx, EJECT_MARGIN, WORLD_WIDTH - EJECT_MARGIN),
            y: clamp(ty, EJECT_MARGIN, WORLD_HEIGHT - EJECT_MARGIN),
            radius: mass_to_radius(EJECT_MASS_AMOUNT),
            mass: EJECT_MASS_AMOUNT,
        },
    );
    world.next_ejected_id = world.next_ejected_id + 1;
}

/// A player after one decay tick: above the initial mass it keeps the
/// decay rate's share of its mass, but no less than the initial mass.
pub open spec fn decayed_player(player: Player) -> Player {
    if player.mass > INITIAL_MASS {
        player.with_mass(
            decayed(player.mass as nat, MASS_DECAY_RATE as nat, INITIAL_MASS as nat) as u32,
        )
    } else {
        player
    }
}

/// A split cell after one decay tick: as a player, with half the initial
/// mass as the floor.
pub open spec fn decayed_cell(cell: PlayerCell) -> PlayerCell {
    if cell.mass > CELL_FLOOR_MASS {
        cell.with_mass(
            decayed(cell.mass as nat, MASS_DECAY_RATE as nat, CELL_FLOOR_MASS as nat) as u32,
        )
    } else {
        cell
    }
}

/// The world after one decay tick: every player and every split cell has
/// decayed, and nothing else has changed.
pub open spec fn after_decay(s: WorldState) -> WorldState {
    WorldState {
        players: s.players.map_values(|player: Player| decayed_player(player)),
        cells: s.cells.map_values(|cell: PlayerCell| decayed_cell(cell)),
        ..s
    }
}

/// One tick of the decay schedule: every player and every split cell
/// above its floor loses a share of its mass.
pub fn decay_mass(world: &mut World, _schedule: MassDecaySchedule)
    requires
        old(world).wf(),
    ensures
        final(world).wf(),
        final(world)@ == after_decay(old(world)@),
{
    let ghost players_before = world.players.rows();
    let ghost cells_before = world.cells.rows();
    let mut i: usize = 0;
    while i < world.players.len()
        invariant
            world.wf(),
            world@ == (WorldState { players: world.players@, ..old(world)@ }),
            players_before == old(world).players.rows(),
            world.cells == old(world).cells,
            world.players.rows().len() == players_before.len(),
            i <= players_before.len(),
            forall|j: int|
                0 <= j < i ==> #[trigger] world.players.rows()[j] == decayed_player(
                    players_before[j],
                ),
            forall|j: int|
                i <= j < players_before.len() ==> #[trigger] world.players.rows()[j]
                    == players_before[j],
        decreases players_before.len() - i,
    {
        let mass = world.players.row(i).mass;
        if mass > INITIAL_MASS {
            let left = decay(mass, MASS_DECAY_RATE, INITIAL_MASS);
            world.players.row_mut(i).set_mass(left);
        }
        i += 1;
    }
    let mut k: usize = 0;
    while k < world.cells.len()
        invariant
            world.wf(),
            world@ == (WorldState { players: world.players@, cells: world.cells@, ..old(world)@ }),
            world.players.rows() =~= players_before.map_values(
                |player: Player| decayed_player(player),
            ),
            players_before == old(world).players.rows(),
            cells_before == old(world).cells.rows(),
            world.cells.rows().len() == cells_before.len(),
            k <= cells_before.len(),
            forall|j: int|
                0 <= j < k ==> #[trigger] world.cells.rows()[j] == decayed_cell(cells_before[j]),
            forall|j: int|
                k <= j < cells_before.len() ==> #[trigger] world.cells.rows()[j]
                    == cells_before[j],
        decreases cells_before.len() - k,
    {
        let mass = world.cells.row(k).mass;
        if mass > CELL_FLOOR_MASS {
            let left = decay(mass, MASS_DECAY_RATE, CELL_FLOOR_MASS);
            world.cells.row_mut(k).set_mass(left);
        }
        k += 1;
    }
    proof {
        assert(world.cells.rows() =~= cells_before.map_values(
            |cell: PlayerCell| decayed_cell(cell),
        ));
        lemma_map_rows(players_before, |player: Player| decayed_player(player));
        lemma_map_rows(cells_before, |cell: PlayerCell| decayed_cell(cell));
        assert(world.players@ =~= old(world)@.players.map_values(
            |player: Player| decayed_player(player),
        ));
        assert(world.cells@ =~= old(world)@.cells.map_values(
            |cell: PlayerCell| decayed_cell(cell),
        ));
    }
}

/// The world after a merge fires for `owner`: where the player has split
/// cells, their mass goes back to the player, if it still exists, and
/// the cells are gone; otherwise nothing changes.
pub open spec fn after_merge(s: WorldState, owner: Identity) -> WorldState {
    if has_cell(s.cells, owner) {
        let players = if s.players.dom().contains(owner) {
            let player = s.players[owner];
            s.players.insert(
                owner,
                player.with_mass(capped(player.mass + owned_mass(s.cells, owner)) as u32),
            )
        } else {
            s.players
        };
        after_delete_cells(WorldState { players, ..s }, owner)
    } else {
        s
    }
}

/// A merge schedule fires: all split cells of its player merge back into
/// the player. Nothing happens where the player has no split cell left.
pub fn merge_split(world: &mut World, schedule: SplitMergeSchedule)
    requires
        old(world).wf(),
    ensures
        final(world).wf(),
        final(world)@ == after_merge(old(world)@, schedule.player_identity),
{
    let identity = schedule.player_identity;
    if !owns_cell(&world.cells, identity) {
        return;
    }
    let split_mass = cell_mass_of(&world.cells, identity);
    let place = world.players.position(&identity);
    if place.is_some() {
        let i = place.unwrap();
        let total: u128 = world.players.row(i).mass as u128 + split_mass;
        let merged: u32 = if total > MASS_LIMIT as u128 {
            MASS_LIMIT
        } else {
            total as u32
        };
        world.players.row_mut(i).set_mass(merged);
    }
    delete_player_cells(world, identity);
}

} // verus!
