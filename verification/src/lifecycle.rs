//! The life of a world and of its players: bootstrap, connect, spawn,
//! despawn and disconnect.

use crate::cells::{delete_player_cells, without_cells_of};
use crate::rows::{
    FoodPellet, GameConfig, Identity, MassDecaySchedule, Player, ScheduleAt,
};
use crate::table::Table;
use crate::units::{
    clamp, clamped, mass_to_radius, radius_of, INITIAL_MASS, MAX_FOOD, SPAWN_MARGIN,
    WORLD_HEIGHT, WORLD_WIDTH,
};
use crate::world::{standard_config, World, WorldState};
use vstd::prelude::*;

verus! {

/// Microseconds between two decay ticks.
pub const DECAY_INTERVAL_MICROS: u64 = 2_000_000;

/// Number of colours in the palette.
pub const PALETTE_SIZE: u32 = 8;

/// The colour at a place of the palette, as RGB.
pub open spec fn palette(index: int) -> u32 {
    if index == 0 {
        0x4a90d9
    } else if index == 1 {
        0xe74c3c
    } else if index == 2 {
        0x2ecc71
    } else if index == 3 {
        0xf39c12
    } else if index == 4 {
        0x9b59b6
    } else if index == 5 {
        0x1abc9c
    } else if index == 6 {
        0xe91e63
    } else {
        0x00bcd4
    }
}

/// The colour that a draw picks: the draw counts round the palette.
pub fn pick_color(draw: u32) -> (color: u32)
    ensures
        color == palette(draw as int % PALETTE_SIZE as int),
{
    let index = draw % PALETTE_SIZE;
    if index == 0 {
        0x4a90d9
    } else if index == 1 {
        0xe74c3c
    } else if index == 2 {
        0x2ecc71
    } else if index == 3 {
        0xf39c12
    } else if index == 4 {
        0x9b59b6
    } else if index == 5 {
        0x1abc9c
    } else if index == 6 {
        0xe91e63
    } else {
        0x00bcd4
    }
}

/// Number of pellets that a world is seeded with: one for each place
/// drawn, up to the full count of food.
pub open spec fn seed_count(spots: Seq<(i32, i32)>) -> nat {
    if spots.len() < MAX_FOOD {
        spots.len()
    } else {
        MAX_FOOD as nat
    }
}

/// The first `count` pellets of a new world: the pellet with key `k` lies
/// near the `k`-th place drawn.
pub open spec fn seeded_food(spots: Seq<(i32, i32)>, count: nat) -> Map<u64, FoodPellet> {
    Map::new(
        |k: u64| 1 <= k <= count,
        |k: u64| FoodPellet::near(k, spots[k - 1].0 as int, spots[k - 1].1 as int),
    )
}

/// The first `count` pellets are `count` pellets.
pub proof fn lemma_seeded_count(spots: Seq<(i32, i32)>, count: nat)
    requires
        count <= u64::MAX,
    ensures
        seeded_food(spots, count).dom().finite(),
        seeded_food(spots, count).dom().len() == count,
    decreases count,
{
    let keys = seeded_food(spots, count).dom();
    if count == 0 {
        assert(keys =~= Set::<u64>::empty());
    } else {
        let fewer = seeded_food(spots, (count - 1) as nat).dom();
        lemma_seeded_count(spots, (count - 1) as nat);
        assert(keys =~= fewer.insert(count as u64));
        assert(!fewer.contains(count as u64));
    }
}

/// The one decay schedule of a world.
pub open spec fn decay_schedule() -> MassDecaySchedule {
    MassDecaySchedule { scheduled_id: 1, scheduled_at: ScheduleAt::Interval(DECAY_INTERVAL_MICROS) }
}

/// A new world: the configuration, the seeded food, the decay schedule,
/// and nothing else. Every key generator starts at one.
pub open spec fn initial_state(spots: Seq<(i32, i32)>) -> WorldState {
    WorldState {
        config: standard_config(),
        players: Map::empty(),
        cells: Map::empty(),
        food: seeded_food(spots, seed_count(spots)),
        ejected: Map::empty(),
        decay_schedules: Map::empty().insert(1, decay_schedule()),
        merge_schedules: Map::empty(),
        next_cell_id: 1,
        next_food_id: (seed_count(spots) + 1) as u64,
        next_ejected_id: 1,
        next_decay_id: 2,
        next_merge_id: 1,
    }
}

/// Makes a world: writes the configuration, seeds one pellet of food near
/// each of the places drawn, up to the full count, and starts the decay
/// schedule. Given as many places as the configuration counts food, the
/// world starts with exactly that many pellets.
pub fn init(food_spots: &Vec<(i32, i32)>) -> (world: World)
    ensures
        world.wf(),
        world@ == initial_state(food_spots@),
        world@.food.dom().len() == seed_count(food_spots@),
        food_spots@.len() >= MAX_FOOD ==> world@.food.dom().len() == world@.config.max_food,
{
    proof {
        lemma_seeded_count(food_spots@, seed_count(food_spots@));
    }
    let mut world = World {
        config: GameConfig { id: 0, max_food: MAX_FOOD, world_width: 3_000, world_height: 3_000 },
        players: Table::new(),
        cells: Table::new(),
        food: Table::new(),
        ejected: Table::new(),
        decay_schedules: Table::new(),
        merge_schedules: Table::new(),
        next_cell_id: 1,
        next_food_id: 1,
        next_ejected_id: 1,
        next_decay_id: 1,
        next_merge_id: 1,
    };
    let mut i: usize = 0;
    proof {
        assert(world.food@ =~= seeded_food(food_spots@, 0));
    }
    while i < food_spots.len() && i < MAX_FOOD as usize
        invariant
            world.wf(),
            i <= seed_count(food_spots@),
            world.food@ == seeded_food(food_spots@, i as nat),
            world@ == (WorldState {
                config: standard_config(),
                players: Map::empty(),
                cells: Map::empty(),
                food: world.food@,
                ejected: Map::empty(),
                decay_schedules: Map::empty(),
                merge_schedules: Map::empty(),
                next_cell_id: 1,
                next_food_id: (i + 1) as u64,
                next_ejected_id: 1,
                next_decay_id: 1,
                next_merge_id: 1,
            }),
        decreases food_spots.len() - i,
    {
        let spot = food_spots[i];
        let ghost before = world.food@;
        world.food.push(FoodPellet::place(world.next_food_id, spot.0, spot.1));
        world.next_food_id = world.next_food_id + 1;
        i += 1;
        proof {
            assert(world.food@ =~= seeded_food(food_spots@, i as nat));
        }
    }
    world.decay_schedules.push(
        MassDecaySchedule {
            scheduled_id: world.next_decay_id,
            scheduled_at: ScheduleAt::Interval(DECAY_INTERVAL_MICROS),
        },
    );
    world.next_decay_id = world.next_decay_id + 1;
    world
}

/// A caller has connected. Nothing changes: to spawn is a request of its
/// own.
pub fn identity_connected(world: &mut World, identity: Identity)
    ensures
        *final(world) == *old(world),
{
}

/// The world without a player and without its split cells.
pub open spec fn after_despawn(s: WorldState, identity: Identity) -> WorldState {
    WorldState {
        players: s.players.remove(identity),
        cells: without_cells_of(s.cells, identity),
        ..s
    }
}

/// Removes the caller's player and all its split cells, where there are
/// any.
pub fn despawn_player(world: &mut World, identity: Identity)
    requires
        old(world).wf(),
    ensures
        final(world).wf(),
        final(world)@ == after_despawn(old(world)@, identity),
{
    let place = world.players.position(&identity);
    if place.is_some() {
        world.players.remove(place.unwrap());
    }
    proof {
        assert(world.players@ =~= old(world)@.players.remove(identity));
    }
    delete_player_cells(world, identity);
}

/// A caller has disconnected: its player and all its split cells leave the
/// world, where there are any.
pub fn identity_disconnected(world: &mut World, identity: Identity)
    requires
        old(world).wf(),
    ensures
        final(world).wf(),
        final(world)@ == after_despawn(old(world)@, identity),
{
    despawn_player(world, identity);
}

/// The row of a player that has just spawned: at the initial mass, as near
/// to the place drawn as the margin for spawning allows, in the colour that
/// the draw picks.
pub open spec fn spawned(identity: Identity, name: String, x: int, y: int, draw: int) -> Player {
    Player {
        identity,
        name,
        x: clamped(x, SPAWN_MARGIN as int, WORLD_WIDTH - SPAWN_MARGIN) as i32,
        y: clamped(y, SPAWN_MARGIN as int, WORLD_HEIGHT - SPAWN_MARGIN) as i32,
        radius: radius_of(INITIAL_MASS as nat) as u32,
        mass: INITIAL_MASS,
        color: palette(draw % PALETTE_SIZE as int),
    }
}

/// The world after a spawn: whatever the caller had in the world is gone,
/// and its new player stands in the world.
pub open spec fn after_spawn(
    s: WorldState,
    identity: Identity,
    name: String,
    x: int,
    y: int,
    draw: int,
) -> WorldState {
    WorldState {
        players: s.players.insert(identity, spawned(identity, name, x, y, draw)),
        cells: without_cells_of(s.cells, identity),
        ..s
    }
}

/// Spawns the caller's player at the place and in the colour drawn for
/// it, in place of whatever the caller had in the world before.
pub fn spawn_player(
    world: &mut World,
    identity: Identity,
    name: String,
    x: i32,
    y: i32,
    color_draw: u32,
)
    requires
        old(world).wf(),
    ensures
        final(world).wf(),
        final(world)@ == after_spawn(
            old(world)@,
            identity,
            name,
            x as int,
            y as int,
            color_draw as int,
        ),
{
    despawn_player(world, identity);
    world.players.push(
        Player {
            identity,
            name,
            x: clamp(x as i64, SPAWN_MARGIN, WORLD_WIDTH - SPAWN_MARGIN),
            y: clamp(y as i64, SPAWN_MARGIN, WORLD_HEIGHT - SPAWN_MARGIN),
            radius: mass_to_radius(INITIAL_MASS),
            mass: INITIAL_MASS,
            color: pick_color(color_draw),
        },
    );
    proof {
        assert(world.players@ =~= old(world)@.players.insert(
            identity,
            spawned(identity, name, x as int, y as int, color_draw as int),
        ));
    }
}

} // verus!
