use umpteenth_anion::dir::Dir;
use umpteenth_anion::space::point::Point;
use umpteenth_anion::space::mask::Mask;
use umpteenth_anion::space::wave::Wave;
use umpteenth_anion::space::{Frame, Space};

fn wave_image(space: &Space, map: &[u32], expected: &[u32]) {
    let map_vec: Vec<u32> = map.to_vec();
    let seed = Mask::create(space, |f: &Point| *f.ref_on(&map_vec) == 1);
    let mut wave = Wave::new(space);
    wave.ripple(&seed, None);
    for z in 0..expected.len() {
        assert_eq!(wave.at(z), expected[z], "cell {}", z);
    }
}

#[test]
fn space_test_wave_1() {
    let space = Space::with_dims(6, 5);
    let map = [
        0, 0, 0, 0, 0, 0, //
        0, 0, 1, 0, 0, 0, //
        0, 0, 0, 1, 0, 0, //
        0, 1, 1, 1, 0, 0, //
        0, 0, 0, 0, 0, 0,
    ];
    let expected = [
        4, 3, 2, 3, 4, 5, //
        3, 2, 1, 2, 3, 4, //
        3, 2, 2, 1, 2, 3, //
        2, 1, 1, 1, 2, 3, //
        3, 2, 2, 2, 3, 4,
    ];
    wave_image(&space, &map, &expected);
}

#[test]
fn space_test_wave_2() {
    let space = Space::with_dims(6, 5);
    let map = [
        1, 0, 0, 0, 1, 1, //
        0, 0, 0, 0, 0, 0, //
        0, 0, 0, 0, 0, 0, //
        0, 0, 0, 0, 0, 1, //
        1, 0, 0, 0, 0, 0,
    ];
    let expected = [
        1, 2, 3, 2, 1, 1, //
        2, 3, 4, 3, 2, 2, //
        3, 4, 5, 4, 3, 2, //
        2, 3, 4, 3, 2, 1, //
        1, 2, 3, 3, 2, 2,
    ];
    wave_image(&space, &map, &expected);
}

#[test]
fn wave_test_wave_1() {
    let space = Space::with_dims(6, 5);
    let map = [
        0, 0, 0, 0, 0, 0, //
        0, 0, 1, 0, 0, 0, //
        0, 0, 0, 1, 0, 0, //
        0, 1, 1, 1, 0, 0, //
        0, 0, 0, 0, 0, 0,
    ];
    let expected = [
        4, 3, 2, 3, 4, 5, //
        3, 2, 1, 2, 3, 4, //
        3, 2, 2, 1, 2, 3, //
        2, 1, 1, 1, 2, 3, //
        3, 2, 2, 2, 3, 4,
    ];
    wave_image(&space, &map, &expected);
}

#[test]
fn wave_test_wave_2() {
    let space = Space::with_dims(6, 5);
    let map = [
        1, 0, 0, 0, 1, 1, //
        0, 0, 0, 0, 0, 0, //
        0, 0, 0, 0, 0, 0, //
        0, 0, 0, 0, 0, 1, //
        1, 0, 0, 0, 0, 0,
    ];
    let expected = [
        1, 2, 3, 2, 1, 1, //
        2, 3, 4, 3, 2, 2, //
        3, 4, 5, 4, 3, 2, //
        2, 3, 4, 3, 2, 1, //
        1, 2, 3, 3, 2, 2,
    ];
    wave_image(&space, &map, &expected);
}

#[test]
fn single_seed_fronts_on_small_torus() {
    // A 3-by-5 toroidal space with a single seed cell at (1, 1).
    let space = Space::with_dims(3, 5);
    let seed = Mask::singleton(&Point { space, ix: 4 });
    let wave = Wave::from(&seed);
    let mut front1 = wave.front(1).unwrap();
    front1.sort();
    // The four wrapped and unwrapped neighbours of (1, 1).
    assert_eq!(front1, vec![1, 3, 5, 7]);
    let mut front2 = wave.front(2).unwrap();
    front2.sort();
    // The second ring, wrapped on the small grid.
    assert_eq!(front2, vec![0, 2, 6, 8, 10, 13]);
}

#[test]
fn fresh_wave_is_blank() {
    // Before any ripple the image is all zeros and no front exists.
    let space = Space::with_dims(4, 3);
    let wave = Wave::new(&space);
    for z in 0..12 {
        assert_eq!(wave.at(z), 0);
    }
    assert!(wave.front(0).is_none());
    assert!(wave.front(1).is_none());
}

#[test]
fn fronts_partition_the_reachable_cells() {
    let space = Space::with_dims(4, 4);
    let seed = Mask::singleton(&Point { space, ix: 0 });
    let sink = Mask::create(&space, |f: &Point| f.ix() == 5 || f.ix() == 10);
    let mut wave = Wave::new(&space);
    wave.ripple(&seed, Some(&sink));
    let mut seen = vec![0u32; 16];
    let mut f: usize = 0;
    while let Some(front) = wave.front(f) {
        for z in front {
            seen[z as usize] += 1;
        }
        f += 1;
    }
    for z in 0..16 {
        let v = wave.at(z);
        if v == u32::MAX {
            // A barrier cell lies on no front.
            assert_eq!(seen[z], 0);
        } else {
            // Every reached cell lies on exactly one front.
            assert!(v >= 1);
            assert_eq!(seen[z], 1);
        }
    }
}

#[test]
fn l1_norm_is_symmetric() {
    let space = Space::with_dims(6, 5);
    for a in 0..30u16 {
        for b in 0..30u16 {
            assert_eq!(space.l1_norm(a, b), space.l1_norm(b, a));
        }
    }
    // Wraparound distances.
    assert_eq!(space.l1_norm(0, 5), 1);
    assert_eq!(space.l1_norm(0, 24), 1);
}

#[test]
fn adjacent_steps_are_involutions() {
    let space = Space::with_dims(6, 5);
    for z in 0..30usize {
        let f = Frame::new(&space, z);
        assert_eq!(f.adjacent_in(&Dir::North).adjacent_in(&Dir::South), f);
        assert_eq!(f.adjacent_in(&Dir::South).adjacent_in(&Dir::North), f);
        assert_eq!(f.adjacent_in(&Dir::East).adjacent_in(&Dir::West), f);
        assert_eq!(f.adjacent_in(&Dir::West).adjacent_in(&Dir::East), f);
    }
}

#[test]
fn adjacent_wraps_at_all_edges() {
    let space = Space::with_dims(6, 5);
    let top_left = Frame::new(&space, 0);
    assert_eq!(top_left.adjacent_in(&Dir::North).origin, 24);
    assert_eq!(top_left.adjacent_in(&Dir::West).origin, 5);
    let bottom_right = Frame::new(&space, 29);
    assert_eq!(bottom_right.adjacent_in(&Dir::South).origin, 5);
    assert_eq!(bottom_right.adjacent_in(&Dir::East).origin, 24);
}

#[test]
fn dijkstra_scan_is_monotone_and_visits_once() {
    let space = Space::with_dims(5, 4);
    let origin = Point { space, ix: 7 };
    let mut scan = origin.dijkstra_scan(|_p: &Point| Some(3i16));
    let mut last = 0i64;
    let mut seen = vec![false; 20];
    let mut count: usize = 0;
    while let Some((cost, p)) = scan.next() {
        assert!(cost >= last);
        last = cost;
        assert!(!seen[p.ix as usize]);
        seen[p.ix as usize] = true;
        count += 1;
    }
    assert_eq!(count, 20);
}

#[test]
fn dijkstra_scan_stays_exhausted() {
    let space = Space::with_dims(2, 2);
    let origin = Point { space, ix: 0 };
    let mut scan = origin.dijkstra_scan(|_p: &Point| Some(1i16));
    let mut count = 0;
    while scan.next().is_some() {
        count += 1;
    }
    assert_eq!(count, 4);
    // Once the queue is empty, every further call answers None.
    assert!(scan.next().is_none());
    assert!(scan.next().is_none());
}

#[test]
fn dijkstra_scan_first_yield_is_the_accepted_origin() {
    let space = Space::with_dims(3, 3);
    let origin = Point { space, ix: 4 };
    let mut scan = origin.dijkstra_scan(|p: &Point| Some(p.ix as i16));
    let (c, p) = scan.next().unwrap();
    assert_eq!(p.ix, 4);
    assert_eq!(c, 4);
    // A rejected origin yields nothing at all.
    let mut empty = origin.dijkstra_scan(|p: &Point| if p.ix == 4 { None } else { Some(1i16) });
    assert!(empty.next().is_none());
}

#[test]
fn dijkstra_scan_skips_impassable_cells() {
    let space = Space::with_dims(4, 1);
    let origin = Point { space, ix: 0 };
    let mut scan = origin.dijkstra_scan(|p: &Point| if p.ix == 2 { None } else { Some(1i16) });
    let mut yielded = Vec::new();
    while let Some((_c, p)) = scan.next() {
        yielded.push(p.ix);
    }
    yielded.sort();
    assert_eq!(yielded, vec![0, 1, 3]);
}
