use umpteenth_anion::mybot;
use umpteenth_anion::ua::map::{Site, SiteMap};
use umpteenth_anion::ua::space::{modulo, shortest_diff, Dir, Pos, Space};
use umpteenth_anion::ua::world;

#[test]
fn test_space_sweep() {
    let space = Space::with_dims(3, 5);
    let mut n: usize = 0;
    let mut sweep = space.sweep();
    while let Some(_) = sweep.next() {
        n += 1;
    }
    assert_eq!(n, 15);
}

#[test]
fn modulo_wraps_negative_values() {
    assert_eq!(modulo(-3, 2), 1);
    assert_eq!(modulo(-4, 2), 0);
    assert_eq!(modulo(-1, 5), 4);
    assert_eq!(modulo(7, 5), 2);
    assert_eq!(modulo(4, 5), 4);
}

#[test]
fn wraparound_round_trip() {
    // Normalizing, indexing and decomposing gives back the normalized
    // coordinates, including for negative and oversized inputs.
    let space = Space::with_dims(3, 5);
    for x in -7i16..10 {
        for y in -11i16..12 {
            let p = Pos { x, y };
            let n = space.normalize(&p);
            assert!(0 <= n.x && n.x < 3 && 0 <= n.y && n.y < 5);
            assert_eq!(space.ix(&p), space.ix(&n));
            assert_eq!(space.ix(&n), (n.x + n.y * 3) as usize);
            assert_eq!(space.normalize(&n), n);
        }
    }
}

#[test]
fn shortest_diff_takes_the_shorter_way() {
    assert_eq!(shortest_diff(0, 4, 5), -1);
    assert_eq!(shortest_diff(4, 0, 5), 1);
    assert_eq!(shortest_diff(0, 2, 5), 2);
}

#[test]
fn direction_prefers_vertical_on_ties() {
    let space = Space::with_dims(9, 9);
    let origin = Pos { x: 0, y: 0 };
    // Equal displacement: the vertical axis wins.
    assert_eq!(space.direction(&origin, &Pos { x: 1, y: 1 }), Dir::South);
    assert_eq!(space.direction(&origin, &Pos { x: 1, y: -1 }), Dir::North);
    // A strictly larger horizontal displacement wins.
    assert_eq!(space.direction(&origin, &Pos { x: 2, y: 1 }), Dir::East);
    assert_eq!(space.direction(&origin, &Pos { x: -2, y: 1 }), Dir::West);
}

#[test]
fn dir_codes_match_the_protocol() {
    assert_eq!(Dir::North.to_code(), 1);
    assert_eq!(Dir::East.to_code(), 2);
    assert_eq!(Dir::South.to_code(), 3);
    assert_eq!(Dir::West.to_code(), 4);
}

fn small_world() -> (world::Environment, world::State) {
    let mut environment = world::Environment::create(1, 3, 3);
    for _ in 0..9 {
        environment.production_map.push(2);
    }
    let mut state = world::State::for_environment(&environment);
    state.occupation_map[4] = world::Occupation { tag: 1, strength: 10 };
    state.occupation_map[1] = world::Occupation { tag: 2, strength: 3 };
    (environment, state)
}

#[test]
fn site_map_mirrors_the_world() {
    let (environment, state) = small_world();
    let map = SiteMap::from_world(&environment, &state);
    assert_eq!(map.space.w, 3);
    assert_eq!(map.space.h, 3);
    assert_eq!(*map.site(&Pos { x: 1, y: 1 }), Site { owner: 1, strength: 10, production: 2 });
    assert_eq!(*map.site(&Pos { x: 1, y: 0 }), Site { owner: 2, strength: 3, production: 2 });
    assert_eq!(*map.site(&Pos { x: 4, y: -3 }), Site { owner: 2, strength: 3, production: 2 });
}

#[test]
fn bridge_converts_directions_and_positions() {
    assert_eq!(Dir::North.to_world(), world::Dir::North);
    assert_eq!(Dir::West.to_world(), world::Dir::West);
    assert_eq!(Pos { x: 4, y: -1 }.to_world(), (4, -1));
}

#[test]
fn early_bot_attacks_the_weaker_neighbor() {
    let (environment, state) = small_world();
    let map = SiteMap::from_world(&environment, &state);
    // The owned cell at (1, 1) sees the weaker foe at (1, 0) to its north.
    let moves = mybot::tick(&map, 1);
    assert_eq!(moves, vec![(Pos { x: 1, y: 1 }, Dir::North)]);
    // The foe's own move list attacks the neutral cell north of it.
    let foe_moves = mybot::tick(&map, 2);
    assert_eq!(foe_moves.len(), 1);
}

#[test]
fn early_bot_reinforces_weak_friends() {
    let mut environment = world::Environment::create(1, 3, 1);
    for _ in 0..3 {
        environment.production_map.push(0);
    }
    let mut state = world::State::for_environment(&environment);
    // A strong cell beside a weak friend, with everything else too strong
    // to capture.
    state.occupation_map[0] = world::Occupation { tag: 1, strength: 100 };
    state.occupation_map[1] = world::Occupation { tag: 1, strength: 10 };
    state.occupation_map[2] = world::Occupation { tag: 2, strength: 200 };
    let map = SiteMap::from_world(&environment, &state);
    let moves = mybot::tick(&map, 1);
    // The strong cell moves onto its weak friend; the weak friend stays.
    assert_eq!(moves, vec![(Pos { x: 0, y: 0 }, Dir::East)]);
}

#[test]
fn calc_occupations_lists_owned_cells() {
    let (environment, state) = small_world();
    let map = SiteMap::from_world(&environment, &state);
    assert_eq!(mybot::calc_occupations(&map, 1), vec![Pos { x: 1, y: 1 }]);
    assert_eq!(mybot::calc_occupations(&map, 2), vec![Pos { x: 1, y: 0 }]);
    assert_eq!(mybot::calc_occupations(&map, 9).len(), 0);
}
