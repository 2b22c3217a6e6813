use umpteenth_anion::onion::Onion;
use umpteenth_anion::space::Space;
use umpteenth_anion::space::mask::Mask;
use umpteenth_anion::space::point::Point;

#[test]
fn onion_starts_as_its_seed() {
    let space = Space::with_dims(3, 3);
    let seed = Mask::singleton(&Point { space, ix: 4 });
    let onion = Onion::from_set(&space, &seed);
    assert_eq!(onion.generation, 0);
    assert_eq!(onion.body.len(), 9);
    for z in 0..9 {
        assert_eq!(onion.body[z], z == 4);
    }
    assert_eq!(onion.edge.len(), 1);
    assert_eq!(onion.edge[0].0, 4);
    assert_eq!(onion.edge[0].1.len(), 0);
}

#[test]
fn expanding_grows_one_ring() {
    let space = Space::with_dims(3, 3);
    let seed = Mask::singleton(&Point { space, ix: 4 });
    let onion = Onion::from_set(&space, &seed);
    let next = onion.expand();
    assert_eq!(next.generation, 1);
    // The body becomes the plus shape around the centre.
    let expected_body = [false, true, false, true, true, true, false, true, false];
    for z in 0..9 {
        assert_eq!(next.body[z], expected_body[z], "cell {}", z);
    }
    // The new edge is the ring, each cell grown from the centre.
    let cells: Vec<u16> = next.edge.iter().map(|e| e.0).collect();
    assert_eq!(cells, vec![1, 3, 5, 7]);
    for e in &next.edge {
        assert_eq!(e.1, vec![4]);
    }
}

#[test]
fn expanding_again_fills_the_small_grid() {
    let space = Space::with_dims(3, 3);
    let seed = Mask::singleton(&Point { space, ix: 4 });
    let second = Onion::from_set(&space, &seed).expand().expand();
    assert_eq!(second.generation, 2);
    for z in 0..9 {
        assert!(second.body[z]);
    }
    // Each corner touches two cells of the previous edge.
    let cells: Vec<u16> = second.edge.iter().map(|e| e.0).collect();
    assert_eq!(cells, vec![0, 2, 6, 8]);
    for e in &second.edge {
        assert_eq!(e.1.len(), 2);
    }
}
