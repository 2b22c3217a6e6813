use umpteenth_anion::coord::Coord;
use umpteenth_anion::dir::Dir;
use umpteenth_anion::space::point::Point;
use umpteenth_anion::space::mask::Mask;
use umpteenth_anion::space::wave::Wave;
use umpteenth_anion::space::{Frame, Space};

#[test]
fn frames_cover_the_space_in_order() {
    let space = Space::with_dims(4, 3);
    let mut frames = space.frames();
    let mut expected: u16 = 0;
    while let Some(f) = frames.next() {
        assert_eq!(f.origin, expected);
        expected += 1;
    }
    assert_eq!(expected, 12);
}

#[test]
fn points_cover_the_space_in_order() {
    let space = Space::with_dims(4, 3);
    let mut points = space.points();
    let mut expected: u16 = 0;
    while let Some(p) = points.next() {
        assert_eq!(p.ix, expected);
        assert_eq!(p, space.point(expected as usize));
        expected += 1;
    }
    assert_eq!(expected, 12);
}

#[test]
fn block_neighbors_wrap_around() {
    let space = Space::with_dims(5, 5);
    // Radius 2 around the corner: a wrapped 3-by-3 block.
    let f = Frame::new(&space, 0);
    let mut cells = Vec::new();
    let mut it = f.l0_neighbors(2);
    while let Some(n) = it.next() {
        cells.push(n.origin);
    }
    cells.sort();
    assert_eq!(cells, vec![0, 1, 4, 5, 6, 9, 20, 21, 24]);
    // Radius 0 yields nothing.
    let mut empty = f.l0_neighbors(0);
    assert!(empty.next().is_none());
}

#[test]
fn coord_neighbors_in_fixed_order() {
    let c = Coord { x: 3, y: 4 };
    let mut ns = c.neighbors();
    let mut got = Vec::new();
    while let Some(n) = ns.next() {
        got.push((n.x, n.y));
    }
    assert_eq!(got, vec![(3, 3), (4, 4), (3, 5), (2, 4)]);
    assert_eq!(c.neighbor(Dir::West), Coord { x: 2, y: 4 });
}

#[test]
fn grid_access_through_frames_and_points() {
    let space = Space::with_dims(3, 2);
    let mut values: Vec<i16> = vec![10, 11, 12, 13, 14, 15];
    let f = Frame::new(&space, 4);
    assert_eq!(f.on(&values), 14);
    assert_eq!(*f.ref_on(&values), 14);
    *f.mut_on(&mut values) = 40;
    assert_eq!(values[4], 40);
    let p = Point::new(&space, 2);
    assert_eq!(*p.ref_on(&values), 12);
    assert_eq!(p.coord(), Coord { x: 2, y: 0 });
    assert_eq!(p.l1_norm(&Point::new(&space, 0)), 1);
}

#[test]
fn fronts_are_repeatable() {
    let space = Space::with_dims(4, 4);
    let seed = Mask::singleton(&Point { space, ix: 3 });
    let wave = Wave::from(&seed);
    // Asking for the same front twice yields the same sequence.
    assert_eq!(wave.front(1), wave.front(1));
    assert_eq!(wave.front(0).unwrap(), vec![3]);
    // A front beyond the computed ones does not exist.
    assert!(wave.front(9).is_none());
}

#[test]
fn masks_from_predicates() {
    let space = Space::with_dims(4, 2);
    let mask = Mask::create(&space, |p: &Point| p.ix() % 2 == 0);
    for z in 0..8 {
        assert_eq!(mask.mask[z], z % 2 == 0);
    }
    let empty = Mask::new(&space);
    assert!(empty.mask.iter().all(|b| !b));
}
