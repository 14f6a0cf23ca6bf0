use cell_arena::rows::{
    EjectedMass, Identity, MassDecaySchedule, Player, PlayerCell, ScheduleAt, SplitMergeSchedule,
};
use cell_arena::{
    decay_mass, delete_player_cells, eject_mass, init, mass_to_radius, merge_split, split_cell,
    World,
};

fn id(n: u128) -> Identity {
    Identity { hi: 0, lo: n }
}

fn put(world: &mut World, n: u128, x: i32, y: i32, mass: u32) {
    assert!(world.put_player(Player {
        identity: id(n),
        name: format!("player {}", n),
        x,
        y,
        radius: mass_to_radius(mass),
        mass,
        color: 0,
    }));
}

fn mass_of(world: &World, n: u128) -> u32 {
    world.players().find(&id(n)).unwrap().mass
}

fn tick() -> MassDecaySchedule {
    MassDecaySchedule { scheduled_id: 1, scheduled_at: ScheduleAt::Interval(2_000_000) }
}

fn merge_for(n: u128) -> SplitMergeSchedule {
    SplitMergeSchedule {
        scheduled_id: 1,
        scheduled_at: ScheduleAt::Time(0),
        player_identity: id(n),
    }
}

#[test]
fn ejecting_costs_the_mass_of_one_pellet() {
    let mut world = init(&vec![]);
    put(&mut world, 1, 1_000_000, 1_000_000, 120_000);
    let before = world.players().find(&id(1)).unwrap().clone();
    eject_mass(&mut world, id(1), 3_000, 4_000);
    assert_eq!(
        world.players().find(&id(1)),
        Some(&Player { mass: 110_000, radius: 20_976, ..before })
    );
    assert_eq!(
        world.ejected().find(&1),
        Some(&EjectedMass { id: 1, x: 1_180_000, y: 1_240_000, radius: 6_324, mass: 10_000 })
    );
    assert_eq!(world.ejected().len(), 1);
}

#[test]
fn ejected_pellets_get_new_keys() {
    let mut world = init(&vec![]);
    put(&mut world, 1, 1_000_000, 1_000_000, 150_000);
    eject_mass(&mut world, id(1), -1, 0);
    eject_mass(&mut world, id(1), 0, -1);
    assert_eq!(mass_of(&world, 1), 130_000);
    assert_eq!(
        world.ejected().find(&1),
        Some(&EjectedMass { id: 1, x: 700_000, y: 1_000_000, radius: 6_324, mass: 10_000 })
    );
    assert_eq!(
        world.ejected().find(&2),
        Some(&EjectedMass { id: 2, x: 1_000_000, y: 700_000, radius: 6_324, mass: 10_000 })
    );
}

#[test]
fn a_pellet_lands_at_the_eject_distance_along_a_diagonal() {
    let mut world = init(&vec![]);
    put(&mut world, 1, 1_500_000, 1_500_000, 150_000);
    eject_mass(&mut world, id(1), 1, 1);
    let first = world.ejected().find(&1).unwrap();
    assert_eq!((first.x, first.y), (1_712_132, 1_712_132));
    eject_mass(&mut world, id(1), 1_000, 1_000);
    let second = world.ejected().find(&2).unwrap();
    assert_eq!((second.x, second.y), (1_712_132, 1_712_132));
    eject_mass(&mut world, id(1), -1, 1);
    let third = world.ejected().find(&3).unwrap();
    assert_eq!((third.x, third.y), (1_287_868, 1_712_132));
}

#[test]
fn a_pellet_lands_at_the_eject_distance_along_any_direction() {
    let mut world = init(&vec![]);
    put(&mut world, 1, 1_500_000, 1_500_000, 150_000);
    eject_mass(&mut world, id(1), 1, 2);
    let first = world.ejected().find(&1).unwrap();
    assert_eq!((first.x, first.y), (1_634_164, 1_768_328));
    eject_mass(&mut world, id(1), -24_000, 7_000);
    let second = world.ejected().find(&2).unwrap();
    assert_eq!((second.x, second.y), (1_212_000, 1_584_000));
    eject_mass(&mut world, id(1), 1, -1_000);
    let third = world.ejected().find(&3).unwrap();
    assert_eq!((third.x, third.y), (1_500_299, 1_200_001));
}

#[test]
fn ejecting_needs_more_than_the_initial_mass_and_a_pellet() {
    let mut world = init(&vec![]);
    put(&mut world, 1, 1_000_000, 1_000_000, 110_000);
    let before = world.clone();
    eject_mass(&mut world, id(1), 1_000, 0);
    assert_eq!(world, before);
    put(&mut world, 1, 1_000_000, 1_000_000, 110_001);
    eject_mass(&mut world, id(1), 1_000, 0);
    assert_eq!(mass_of(&world, 1), 100_001);
    assert_eq!(world.ejected().len(), 1);
}

#[test]
fn ejecting_needs_a_direction() {
    let mut world = init(&vec![]);
    put(&mut world, 1, 1_000_000, 1_000_000, 150_000);
    let before = world.clone();
    eject_mass(&mut world, id(1), 0, 0);
    assert_eq!(world, before);
}

#[test]
fn a_stranger_ejects_nothing() {
    let mut world = init(&vec![]);
    put(&mut world, 1, 1_000_000, 1_000_000, 150_000);
    let before = world.clone();
    eject_mass(&mut world, id(2), 1_000, 0);
    assert_eq!(world, before);
}

#[test]
fn ejected_pellets_stay_off_the_edge() {
    let mut world = init(&vec![]);
    put(&mut world, 1, 2_900_000, 100_000, 150_000);
    eject_mass(&mut world, id(1), 1_000, -1_000);
    let pellet = world.ejected().find(&1).unwrap();
    assert_eq!((pellet.x, pellet.y), (2_980_000, 20_000));
}

#[test]
fn splitting_halves_the_player() {
    let mut world = init(&vec![]);
    put(&mut world, 1, 1_000_000, 1_000_000, 200_000);
    let before = world.players().find(&id(1)).unwrap().clone();
    split_cell(&mut world, id(1), 3_000, 4_000, 1_000);
    assert_eq!(
        world.players().find(&id(1)),
        Some(&Player { mass: 100_000, radius: 20_000, ..before })
    );
    assert_eq!(world.cells().len(), 1);
    assert_eq!(
        world.cells().find(&1),
        Some(&PlayerCell {
            cell_id: 1,
            player_identity: id(1),
            x: 1_030_000,
            y: 1_040_000,
            radius: 20_000,
            mass: 100_000,
        })
    );
}

#[test]
fn a_split_cell_lands_two_and_a_half_radii_off_along_a_diagonal() {
    let mut world = init(&vec![]);
    put(&mut world, 1, 1_500_000, 1_500_000, 800_000);
    split_cell(&mut world, id(1), 1, 1, 0);
    assert_eq!(
        world.cells().find(&1),
        Some(&PlayerCell {
            cell_id: 1,
            player_identity: id(1),
            x: 1_570_710,
            y: 1_570_710,
            radius: 40_000,
            mass: 400_000,
        })
    );
    put(&mut world, 2, 1_500_000, 1_500_000, 800_000);
    split_cell(&mut world, id(2), 1_000, -1_000, 0);
    let cell = world.cells().find(&2).unwrap();
    assert_eq!((cell.x, cell.y), (1_570_710, 1_429_290));
}

#[test]
fn a_split_cell_lands_two_and_a_half_radii_off_along_any_direction() {
    let mut world = init(&vec![]);
    put(&mut world, 1, 1_500_000, 1_500_000, 800_000);
    // 100 / sqrt(5) = 44.7213..., twice that is 89.4427...
    split_cell(&mut world, id(1), -2, 1, 0);
    let cell = world.cells().find(&1).unwrap();
    assert_eq!((cell.x, cell.y), (1_410_558, 1_544_721));
}

#[test]
fn splitting_schedules_the_merge_ten_seconds_on() {
    let mut world = init(&vec![]);
    put(&mut world, 1, 1_000_000, 1_000_000, 200_000);
    split_cell(&mut world, id(1), 3_000, 4_000, 1_000);
    assert_eq!(world.merge_schedules().len(), 1);
    assert_eq!(
        world.merge_schedules().find(&1),
        Some(&SplitMergeSchedule {
            scheduled_id: 1,
            scheduled_at: ScheduleAt::Time(10_001_000),
            player_identity: id(1),
        })
    );
}

#[test]
fn the_merge_is_scheduled_no_later_than_the_end_of_time() {
    let mut world = init(&vec![]);
    put(&mut world, 1, 1_000_000, 1_000_000, 200_000);
    split_cell(&mut world, id(1), 3_000, 4_000, u64::MAX - 5);
    assert_eq!(
        world.merge_schedules().find(&1).unwrap().scheduled_at,
        ScheduleAt::Time(u64::MAX)
    );
}

#[test]
fn an_odd_thousandth_stays_with_the_player() {
    let mut world = init(&vec![]);
    put(&mut world, 1, 1_000_000, 1_000_000, 200_001);
    split_cell(&mut world, id(1), 0, -7, 0);
    assert_eq!(mass_of(&world, 1), 100_001);
    let cell = world.cells().find(&1).unwrap();
    assert_eq!(cell.mass, 100_000);
    assert_eq!((cell.x, cell.y), (1_000_000, 950_000));
}

#[test]
fn split_cells_stay_off_the_edge() {
    let mut world = init(&vec![]);
    put(&mut world, 1, 30_000, 2_990_000, 200_000);
    split_cell(&mut world, id(1), -1, 1, 0);
    let cell = world.cells().find(&1).unwrap();
    assert_eq!((cell.x, cell.y), (50_000, 2_950_000));
}

#[test]
fn splitting_needs_the_least_split_mass() {
    let mut world = init(&vec![]);
    put(&mut world, 1, 1_000_000, 1_000_000, 199_999);
    let before = world.clone();
    split_cell(&mut world, id(1), 1_000, 0, 0);
    assert_eq!(world, before);
}

#[test]
fn a_split_player_does_not_split_again() {
    let mut world = init(&vec![]);
    put(&mut world, 1, 1_000_000, 1_000_000, 800_000);
    split_cell(&mut world, id(1), 1_000, 0, 0);
    assert_eq!(mass_of(&world, 1), 400_000);
    let before = world.clone();
    split_cell(&mut world, id(1), 1_000, 0, 0);
    assert_eq!(world, before);
}

#[test]
fn splitting_needs_a_direction() {
    let mut world = init(&vec![]);
    put(&mut world, 1, 1_000_000, 1_000_000, 200_000);
    let before = world.clone();
    split_cell(&mut world, id(1), 0, 0, 0);
    assert_eq!(world, before);
}

#[test]
fn a_stranger_does_not_split() {
    let mut world = init(&vec![]);
    put(&mut world, 1, 1_000_000, 1_000_000, 200_000);
    let before = world.clone();
    split_cell(&mut world, id(2), 1_000, 0, 0);
    assert_eq!(world, before);
}

#[test]
fn decay_takes_two_thousandths() {
    let mut world = init(&vec![(1_000_000, 1_000_000); 3]);
    put(&mut world, 1, 1_000_000, 1_000_000, 400_000);
    put(&mut world, 2, 2_000_000, 1_000_000, 100_000);
    put(&mut world, 3, 2_000_000, 2_000_000, 100_100);
    split_cell(&mut world, id(1), 1_000, 0, 0);
    let before = world.clone();
    decay_mass(&mut world, tick());
    let one = world.players().find(&id(1)).unwrap();
    assert_eq!((one.mass, one.radius), (199_600, 28_255));
    let two = world.players().find(&id(2)).unwrap();
    assert_eq!(two, before.players().find(&id(2)).unwrap());
    let three = world.players().find(&id(3)).unwrap();
    assert_eq!((three.mass, three.radius), (100_000, 20_000));
    let cell = world.cells().find(&1).unwrap();
    assert_eq!((cell.mass, cell.radius), (199_600, 28_255));
    assert_eq!(world.food(), before.food());
    assert_eq!(world.merge_schedules(), before.merge_schedules());
    assert_eq!(world.decay_schedules(), before.decay_schedules());
}

#[test]
fn decay_moves_nobody() {
    let mut world = init(&vec![]);
    put(&mut world, 1, 1_234_000, 1_000_000, 400_000);
    split_cell(&mut world, id(1), 1_000, 0, 0);
    let player = world.players().find(&id(1)).unwrap().clone();
    let cell = *world.cells().find(&1).unwrap();
    decay_mass(&mut world, tick());
    assert_eq!(
        world.players().find(&id(1)),
        Some(&Player { mass: 199_600, radius: 28_255, ..player })
    );
    assert_eq!(world.cells().find(&1), Some(&PlayerCell { mass: 199_600, radius: 28_255, ..cell }));
}

#[test]
fn decay_stops_at_the_floors() {
    let mut world = init(&vec![]);
    put(&mut world, 1, 1_000_000, 1_000_000, 200_000);
    split_cell(&mut world, id(1), 1_000, 0, 0);
    decay_mass(&mut world, tick());
    assert_eq!(mass_of(&world, 1), 100_000);
    assert_eq!(world.cells().find(&1).unwrap().mass, 99_800);
    for _ in 0..500 {
        decay_mass(&mut world, tick());
    }
    assert_eq!(mass_of(&world, 1), 100_000);
    let cell = world.cells().find(&1).unwrap();
    assert_eq!((cell.mass, cell.radius), (50_000, 14_142));
}

#[test]
fn decay_leaves_a_player_below_the_floor_alone() {
    let mut world = init(&vec![]);
    put(&mut world, 1, 1_000_000, 1_000_000, 50_000);
    let before = world.clone();
    decay_mass(&mut world, tick());
    assert_eq!(world, before);
}

#[test]
fn merging_gives_the_split_mass_back() {
    let mut world = init(&vec![]);
    put(&mut world, 1, 1_000_000, 1_000_000, 200_001);
    put(&mut world, 2, 2_000_000, 1_000_000, 300_000);
    split_cell(&mut world, id(1), 1_000, 0, 0);
    split_cell(&mut world, id(2), 1_000, 0, 0);
    let before = world.players().find(&id(1)).unwrap().clone();
    merge_split(&mut world, merge_for(1));
    assert_eq!(
        world.players().find(&id(1)),
        Some(&Player { mass: 200_001, radius: 28_284, ..before })
    );
    assert_eq!(world.cells().len(), 1);
    assert_eq!(world.cells().row(0).player_identity, id(2));
    assert_eq!(mass_of(&world, 2), 150_000);
}

#[test]
fn merging_without_a_split_cell_changes_nothing() {
    let mut world = init(&vec![]);
    put(&mut world, 1, 1_000_000, 1_000_000, 200_000);
    put(&mut world, 2, 2_000_000, 1_000_000, 300_000);
    split_cell(&mut world, id(2), 1_000, 0, 0);
    let before = world.clone();
    merge_split(&mut world, merge_for(1));
    merge_split(&mut world, merge_for(3));
    assert_eq!(world, before);
}

#[test]
fn merging_after_the_player_was_eaten_changes_nothing() {
    let mut world = init(&vec![]);
    put(&mut world, 1, 1_000_000, 1_000_000, 200_000);
    split_cell(&mut world, id(1), 1_000, 0, 0);
    let schedule = *world.merge_schedules().find(&1).unwrap();
    cell_arena::despawn_player(&mut world, id(1));
    let before = world.clone();
    merge_split(&mut world, schedule);
    assert_eq!(world, before);
}

#[test]
fn merged_mass_stops_at_the_limit() {
    let mut world = init(&vec![]);
    put(&mut world, 1, 1_000_000, 1_000_000, 400_000);
    split_cell(&mut world, id(1), 1_000, 0, 0);
    put(&mut world, 1, 1_000_000, 1_000_000, u32::MAX - 7);
    merge_split(&mut world, merge_for(1));
    assert_eq!(mass_of(&world, 1), u32::MAX);
    assert_eq!(world.cells().len(), 0);
}

#[test]
fn deleting_the_cells_of_a_player_spares_the_others() {
    let mut world = init(&vec![]);
    put(&mut world, 1, 1_000_000, 1_000_000, 200_000);
    put(&mut world, 2, 2_000_000, 1_000_000, 300_000);
    put(&mut world, 3, 2_000_000, 2_000_000, 300_000);
    split_cell(&mut world, id(1), 1_000, 0, 0);
    split_cell(&mut world, id(2), 1_000, 0, 0);
    split_cell(&mut world, id(3), 1_000, 0, 0);
    let players = world.players().clone();
    delete_player_cells(&mut world, id(2));
    assert_eq!(world.cells().len(), 2);
    assert!(world.cells().find(&1).is_some());
    assert!(world.cells().find(&2).is_none());
    assert!(world.cells().find(&3).is_some());
    assert_eq!(*world.players(), players);
    let before = world.clone();
    delete_player_cells(&mut world, id(2));
    assert_eq!(world, before);
}
