use cell_arena::rows::{Identity, MassDecaySchedule, Player, ScheduleAt, SplitMergeSchedule};
use cell_arena::{
    decay_mass, despawn_player, dispatch, eat_ejected_mass, eat_food, eat_player, eject_mass,
    handle_request, identity_disconnected, init, mass_to_radius, merge_split, spawn_player,
    split_cell, update_cell_position, update_position, Event, Request, World,
};

fn id(n: u128) -> Identity {
    Identity { hi: 0, lo: n }
}

fn put(world: &mut World, n: u128, x: i32, y: i32, mass: u32) {
    assert!(world.put_player(Player {
        identity: id(n),
        name: format!("player {}", n),
        x,
        y,
        radius: mass_to_radius(mass),
        mass,
        color: 0,
    }));
}

fn arena() -> World {
    let mut world = init(&vec![(1_000_000, 1_000_000); 200]);
    put(&mut world, 1, 1_000_000, 1_000_000, 450_000);
    put(&mut world, 2, 1_020_000, 1_000_000, 120_000);
    world
}

fn call(world: &mut World, n: u128, request: Request) {
    dispatch(world, Event::Call { sender: id(n), request });
}

#[test]
fn a_connect_changes_nothing() {
    let mut world = arena();
    let before = world.clone();
    call(&mut world, 1, Request::Connect);
    call(&mut world, 9, Request::Connect);
    assert_eq!(world, before);
}

#[test]
fn requests_go_to_their_handlers() {
    let mut by_event = arena();
    let mut by_hand = arena();

    call(
        &mut by_event,
        3,
        Request::Spawn { name: String::from("cy"), x: 500_000, y: 600_000, color_draw: 5 },
    );
    spawn_player(&mut by_hand, id(3), String::from("cy"), 500_000, 600_000, 5);
    assert_eq!(by_event, by_hand);

    call(&mut by_event, 3, Request::Move { x: 900_000, y: 5 });
    update_position(&mut by_hand, id(3), 900_000, 5);
    assert_eq!(by_event, by_hand);

    call(&mut by_event, 1, Request::EatFood { food_id: 4, respawn_x: 77_000, respawn_y: 88_000 });
    eat_food(&mut by_hand, id(1), 4, 77_000, 88_000);
    assert_eq!(by_event, by_hand);

    call(&mut by_event, 1, Request::Split { dir_x: 0, dir_y: 9, now: 123 });
    split_cell(&mut by_hand, id(1), 0, 9, 123);
    assert_eq!(by_event, by_hand);

    call(&mut by_event, 1, Request::MoveCell { cell_id: 1, x: 1_500_000, y: 1_500_000 });
    update_cell_position(&mut by_hand, id(1), 1, 1_500_000, 1_500_000);
    assert_eq!(by_event, by_hand);

    call(&mut by_event, 2, Request::Eject { dir_x: -4, dir_y: 3 });
    eject_mass(&mut by_hand, id(2), -4, 3);
    assert_eq!(by_event, by_hand);

    call(&mut by_event, 1, Request::EatEjected { mass_id: 1 });
    eat_ejected_mass(&mut by_hand, id(1), 1);
    assert_eq!(by_event, by_hand);

    call(&mut by_event, 1, Request::EatPlayer { target: id(2) });
    eat_player(&mut by_hand, id(1), id(2));
    assert_eq!(by_event, by_hand);
    assert!(by_event.players().find(&id(2)).is_none());

    call(&mut by_event, 3, Request::Despawn);
    despawn_player(&mut by_hand, id(3));
    assert_eq!(by_event, by_hand);

    call(&mut by_event, 1, Request::Disconnect);
    identity_disconnected(&mut by_hand, id(1));
    assert_eq!(by_event, by_hand);
    assert_eq!(by_event.players().len(), 0);
    assert_eq!(by_event.cells().len(), 0);
}

#[test]
fn timers_go_to_their_handlers() {
    let mut by_event = arena();
    let mut by_hand = arena();
    split_cell(&mut by_event, id(1), 1, 1, 0);
    split_cell(&mut by_hand, id(1), 1, 1, 0);

    let tick = MassDecaySchedule { scheduled_id: 1, scheduled_at: ScheduleAt::Interval(2_000_000) };
    dispatch(&mut by_event, Event::DecayTick(tick));
    decay_mass(&mut by_hand, tick);
    assert_eq!(by_event, by_hand);
    assert_eq!(by_event.players().find(&id(1)).unwrap().mass, 224_550);

    let merge = SplitMergeSchedule {
        scheduled_id: 1,
        scheduled_at: ScheduleAt::Time(10_000_000),
        player_identity: id(1),
    };
    dispatch(&mut by_event, Event::MergeTick(merge));
    merge_split(&mut by_hand, merge);
    assert_eq!(by_event, by_hand);
    assert_eq!(by_event.players().find(&id(1)).unwrap().mass, 449_100);
}

#[test]
fn a_request_is_handled_for_its_sender() {
    let mut world = arena();
    handle_request(&mut world, id(2), Request::Move { x: 5, y: 5 });
    let one = world.players().find(&id(1)).unwrap();
    assert_eq!((one.x, one.y), (1_000_000, 1_000_000));
    let two = world.players().find(&id(2)).unwrap();
    assert_eq!((two.x, two.y), (21_908, 21_908));
}
