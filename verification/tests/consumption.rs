use cell_arena::cells::{cell_mass_of, owns_cell};
use cell_arena::rows::{FoodPellet, Identity, Player};
use cell_arena::{
    eat_ejected_mass, eat_food, eat_player, eject_mass, init, mass_to_radius, split_cell,
    would_eat_food, World,
};

fn id(n: u128) -> Identity {
    Identity { hi: 0, lo: n }
}

fn put(world: &mut World, n: u128, x: i32, y: i32, mass: u32) {
    assert!(world.put_player(Player {
        identity: id(n),
        name: format!("player {}", n),
        x,
        y,
        radius: mass_to_radius(mass),
        mass,
        color: 0,
    }));
}

fn mass_of(world: &World, n: u128) -> u32 {
    world.players().find(&id(n)).unwrap().mass
}

#[test]
fn eating_food_adds_the_mass_of_one_pellet() {
    let mut world = init(&vec![(500_000, 500_000); 200]);
    put(&mut world, 1, 500_000, 500_000, 100_000);
    let before = world.players().find(&id(1)).unwrap().clone();
    eat_food(&mut world, id(1), 1, 700_000, 800_000);
    assert_eq!(
        world.players().find(&id(1)),
        Some(&Player { mass: 101_000, radius: 20_099, ..before })
    );
}

#[test]
fn eaten_food_is_replaced_at_the_place_drawn() {
    let mut world = init(&vec![(500_000, 500_000); 200]);
    put(&mut world, 1, 500_000, 500_000, 100_000);
    eat_food(&mut world, id(1), 17, 700_000, 800_000);
    assert_eq!(world.food().len(), 200);
    assert!(world.food().find(&17).is_none());
    assert_eq!(
        world.food().find(&201),
        Some(&FoodPellet { id: 201, x: 700_000, y: 800_000, radius: 6_000 })
    );
    eat_food(&mut world, id(1), 3, -1, 3_000_000);
    assert_eq!(world.food().len(), 200);
    assert_eq!(
        world.food().find(&202),
        Some(&FoodPellet { id: 202, x: 20_000, y: 2_980_000, radius: 6_000 })
    );
}

#[test]
fn food_is_eaten_within_twice_the_sum_of_the_radii() {
    let mut world = init(&vec![(500_000, 500_000); 2]);
    put(&mut world, 1, 552_001, 500_000, 100_000);
    let before = world.clone();
    eat_food(&mut world, id(1), 1, 700_000, 800_000);
    assert_eq!(world, before);
    put(&mut world, 1, 552_000, 500_000, 100_000);
    eat_food(&mut world, id(1), 1, 700_000, 800_000);
    assert_eq!(mass_of(&world, 1), 101_000);
}

#[test]
fn a_meal_is_foretold() {
    let mut world = init(&vec![(500_000, 500_000); 2]);
    put(&mut world, 1, 552_001, 500_000, 100_000);
    assert!(!would_eat_food(&world, id(1), 1));
    put(&mut world, 1, 552_000, 500_000, 100_000);
    assert!(would_eat_food(&world, id(1), 1));
    assert!(would_eat_food(&world, id(1), 2));
    assert!(!would_eat_food(&world, id(1), 3));
    assert!(!would_eat_food(&world, id(2), 1));
    let before = world.clone();
    assert!(would_eat_food(&world, id(1), 1));
    assert_eq!(world, before);
    eat_food(&mut world, id(1), 1, 0, 0);
    assert!(!would_eat_food(&world, id(1), 1));
}

#[test]
fn a_stranger_eats_no_food() {
    let mut world = init(&vec![(500_000, 500_000); 2]);
    put(&mut world, 1, 500_000, 500_000, 100_000);
    let before = world.clone();
    eat_food(&mut world, id(2), 1, 700_000, 800_000);
    assert_eq!(world, before);
}

#[test]
fn food_that_is_not_there_is_not_eaten() {
    let mut world = init(&vec![(500_000, 500_000); 2]);
    put(&mut world, 1, 500_000, 500_000, 100_000);
    let before = world.clone();
    eat_food(&mut world, id(1), 3, 700_000, 800_000);
    eat_food(&mut world, id(1), 0, 700_000, 800_000);
    assert_eq!(world, before);
}

#[test]
fn mass_stops_at_the_limit() {
    let mut world = init(&vec![(500_000, 500_000); 2]);
    put(&mut world, 1, 500_000, 500_000, u32::MAX - 400);
    eat_food(&mut world, id(1), 1, 700_000, 800_000);
    assert_eq!(mass_of(&world, 1), u32::MAX);
    assert_eq!(world.food().len(), 2);
    eat_food(&mut world, id(1), 2, 700_000, 800_000);
    assert_eq!(mass_of(&world, 1), u32::MAX);
    assert_eq!(world.players().find(&id(1)).unwrap().radius, 4_144_860);
    assert_eq!(world.food().len(), 2);
}

#[test]
fn eating_a_player_takes_its_mass() {
    let mut world = init(&vec![]);
    put(&mut world, 1, 1_000_000, 1_000_000, 220_000);
    put(&mut world, 2, 1_010_000, 1_000_000, 100_000);
    let before = world.players().find(&id(1)).unwrap().clone();
    eat_player(&mut world, id(1), id(2));
    assert_eq!(world.players().len(), 1);
    assert_eq!(
        world.players().find(&id(1)),
        Some(&Player { mass: 320_000, radius: 35_777, ..before })
    );
    assert!(world.players().find(&id(2)).is_none());
}

#[test]
fn eating_a_player_takes_its_split_cells_too() {
    let mut world = init(&vec![]);
    put(&mut world, 1, 1_000_000, 1_000_000, 220_000);
    put(&mut world, 2, 1_010_000, 1_000_000, 200_000);
    put(&mut world, 3, 2_000_000, 2_000_000, 300_000);
    split_cell(&mut world, id(2), 0, 1_000, 0);
    split_cell(&mut world, id(3), 0, 1_000, 0);
    assert_eq!(mass_of(&world, 2), 100_000);
    assert_eq!(cell_mass_of(world.cells(), id(2)), 100_000);
    eat_player(&mut world, id(1), id(2));
    assert_eq!(mass_of(&world, 1), 420_000);
    assert_eq!(world.players().find(&id(1)).unwrap().radius, 40_987);
    assert!(world.players().find(&id(2)).is_none());
    assert!(!owns_cell(world.cells(), id(2)));
    assert_eq!(world.cells().len(), 1);
    assert_eq!(cell_mass_of(world.cells(), id(3)), 150_000);
    assert_eq!(mass_of(&world, 3), 150_000);
}

#[test]
fn the_eater_needs_a_tenth_more_mass() {
    let mut world = init(&vec![]);
    put(&mut world, 1, 1_000_000, 1_000_000, 109_999);
    put(&mut world, 2, 1_010_000, 1_000_000, 100_000);
    let before = world.clone();
    eat_player(&mut world, id(1), id(2));
    assert_eq!(world, before);
    put(&mut world, 1, 1_000_000, 1_000_000, 110_000);
    eat_player(&mut world, id(1), id(2));
    assert_eq!(mass_of(&world, 1), 210_000);
    assert_eq!(world.players().len(), 1);
}

#[test]
fn the_eater_reaches_twice_its_own_radius() {
    let mut world = init(&vec![]);
    put(&mut world, 1, 1_000_000, 1_000_000, 220_000);
    put(&mut world, 2, 1_059_329, 1_000_000, 100_000);
    let before = world.clone();
    eat_player(&mut world, id(1), id(2));
    assert_eq!(world, before);
    put(&mut world, 2, 1_059_328, 1_000_000, 100_000);
    eat_player(&mut world, id(1), id(2));
    assert_eq!(mass_of(&world, 1), 320_000);
}

#[test]
fn nobody_eats_itself() {
    let mut world = init(&vec![]);
    put(&mut world, 1, 1_000_000, 1_000_000, 220_000);
    let before = world.clone();
    eat_player(&mut world, id(1), id(1));
    assert_eq!(world, before);
}

#[test]
fn eating_needs_both_players() {
    let mut world = init(&vec![]);
    put(&mut world, 1, 1_000_000, 1_000_000, 220_000);
    let before = world.clone();
    eat_player(&mut world, id(1), id(2));
    assert_eq!(world, before);
    eat_player(&mut world, id(2), id(1));
    assert_eq!(world, before);
}

#[test]
fn eating_ejected_mass_adds_its_mass() {
    let mut world = init(&vec![]);
    put(&mut world, 1, 1_000_000, 1_000_000, 120_000);
    put(&mut world, 2, 1_300_000, 1_000_000, 100_000);
    eject_mass(&mut world, id(1), 1_000, 0);
    assert_eq!(world.ejected().len(), 1);
    let before = world.players().find(&id(2)).unwrap().clone();
    eat_ejected_mass(&mut world, id(2), 1);
    assert_eq!(
        world.players().find(&id(2)),
        Some(&Player { mass: 110_000, radius: 20_976, ..before })
    );
    assert_eq!(world.ejected().len(), 0);
    assert_eq!(mass_of(&world, 1), 110_000);
}

#[test]
fn ejected_mass_is_eaten_within_twice_the_sum_of_the_radii() {
    let mut world = init(&vec![]);
    put(&mut world, 1, 1_000_000, 1_000_000, 120_000);
    eject_mass(&mut world, id(1), 1_000, 0);
    put(&mut world, 2, 1_352_649, 1_000_000, 100_000);
    let before = world.clone();
    eat_ejected_mass(&mut world, id(2), 1);
    assert_eq!(world, before);
    put(&mut world, 2, 1_352_648, 1_000_000, 100_000);
    eat_ejected_mass(&mut world, id(2), 1);
    assert_eq!(mass_of(&world, 2), 110_000);
    assert_eq!(world.ejected().len(), 0);
}

#[test]
fn ejected_mass_is_eaten_once() {
    let mut world = init(&vec![]);
    put(&mut world, 1, 1_000_000, 1_000_000, 120_000);
    eject_mass(&mut world, id(1), 1_000, 0);
    put(&mut world, 2, 1_300_000, 1_000_000, 100_000);
    eat_ejected_mass(&mut world, id(2), 1);
    let before = world.clone();
    eat_ejected_mass(&mut world, id(2), 1);
    eat_ejected_mass(&mut world, id(3), 1);
    assert_eq!(world, before);
}

#[test]
fn split_mass_is_the_sum_over_the_cells_of_one_player() {
    let mut world = init(&vec![]);
    assert_eq!(cell_mass_of(world.cells(), id(1)), 0);
    assert!(!owns_cell(world.cells(), id(1)));
    put(&mut world, 1, 1_000_000, 1_000_000, 300_001);
    put(&mut world, 2, 2_000_000, 1_000_000, 200_000);
    split_cell(&mut world, id(1), 1_000, 0, 0);
    split_cell(&mut world, id(2), 1_000, 0, 0);
    assert_eq!(cell_mass_of(world.cells(), id(1)), 150_000);
    assert_eq!(cell_mass_of(world.cells(), id(2)), 100_000);
    assert_eq!(cell_mass_of(world.cells(), id(3)), 0);
    assert!(owns_cell(world.cells(), id(1)));
    assert!(!owns_cell(world.cells(), id(3)));
}
