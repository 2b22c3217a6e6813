use umpteenth_anion::action::Choice;
use umpteenth_anion::dir::Dir;

#[test]
fn test_lt_helper() {
    assert!(Choice::<Option<f32>>::gt(&Some(1.0_f32), &None));
    assert!(Choice::<Option<f32>>::gt(&Some(1.0_f32), &Some(0.0)));
    assert!(!Choice::<Option<f32>>::gt(&Some(1.0_f32), &Some(1.0)));
    assert!(!Choice::<Option<f32>>::gt(&None, &Some(1.0_f32)));
    assert!(!Choice::<Option<f32>>::gt(&None, &None));
}

#[test]
fn find_max_prefers_still_on_ties() {
    let c: Choice<i64> = Choice { still: 5, north: 5, east: 5, south: 5, west: 5 };
    assert_eq!(c.find_max_action(), None);
}

#[test]
fn find_max_takes_strictly_larger() {
    let c: Choice<i64> = Choice { still: 1, north: 2, east: 2, south: 3, west: 3 };
    assert_eq!(c.find_max_action(), Some(Dir::South));
    let c2: Choice<Option<i64>> =
        Choice { still: Some(0), north: None, east: Some(7), south: Some(7), west: None };
    assert_eq!(c2.find_max_action(), Some(Dir::East));
}

#[test]
fn choice_get_and_set() {
    let mut c: Choice<u32> = Choice::with_init(0);
    *c.get_mut(&Some(Dir::West)) = 9;
    assert_eq!(*c.get(&Some(Dir::West)), 9);
    assert_eq!(*c.get(&None), 0);
    c.reset(3);
    assert_eq!(*c.get(&Some(Dir::West)), 3);
}
