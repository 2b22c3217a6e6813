use umpteenth_anion::lone::{
    LoneBrain, DEFAULT_AGGRESSION_WEIGHT, DEFAULT_DENSITY_WEIGHT, DEFAULT_EXPANSION_WEIGHT,
    DEFAULT_MINIMUM_MOVABLE_STRENGTH, INFEASIBLE,
};
use umpteenth_anion::math::ONE;
use umpteenth_anion::dir::Dir;
use umpteenth_anion::simple::SimpleBrain;
use umpteenth_anion::space::Space;
use umpteenth_anion::space::mask::Mask;
use umpteenth_anion::space::point::Point;
use umpteenth_anion::teddy::{compute_rim_utility, par_default, TeddyBrain};
use umpteenth_anion::world::{Environment, Occupation, State};

fn environment(w: i16, h: i16, production: i16) -> Environment {
    let mut env = Environment::create(1, w, h);
    for _ in 0..(w as usize * h as usize) {
        env.production_map.push(production);
    }
    env
}

fn lone_brain(env: Environment) -> LoneBrain {
    LoneBrain {
        environment: env,
        aggression_weight: DEFAULT_AGGRESSION_WEIGHT,
        density_weight: DEFAULT_DENSITY_WEIGHT,
        discount_factor: ONE / 2,
        expansion_weight: DEFAULT_EXPANSION_WEIGHT,
        minimum_movable_strength: DEFAULT_MINIMUM_MOVABLE_STRENGTH,
    }
}

#[test]
fn weak_cells_cannot_move_onto_friends() {
    // A strength of 5 is below the movable minimum of 40: every move onto a
    // friendly cell is infeasible.
    let brain = lone_brain(environment(3, 3, 1));
    let src = Occupation { tag: 1, strength: 5 };
    let friend = Occupation { tag: 1, strength: 100 };
    let u = brain.move_utility(1, &src, &friend, 1, 0, 0, 0, 0, 0, 0);
    assert_eq!(u, INFEASIBLE);
    assert_eq!(u, i64::MIN);
}

#[test]
fn weak_cell_among_friends_stays() {
    let brain = lone_brain(environment(3, 3, 1));
    let mut state = State::for_environment(&brain.environment);
    for z in 0..9 {
        state.occupation_map[z] = Occupation { tag: 1, strength: 10 };
    }
    state.occupation_map[4] = Occupation { tag: 1, strength: 5 };
    let densities = brain.calc_density_map(1, &state.occupation_map);
    let ownerships = brain.calc_ownership_map(1, brain.discount_factor, &state.occupation_map);
    let blood = brain.calc_blood_map(1, brain.discount_factor, &state.occupation_map);
    let space = brain.environment.space;
    let action = brain.select_cell_action(
        1,
        Point { space, ix: 4 },
        &state,
        &densities,
        &ownerships,
        &blood,
    );
    // All four moves are onto friends and infeasible: the cell stays.
    assert_eq!(action.1, None);
}

#[test]
fn ownership_field_discounts_by_distance() {
    // A 7-by-1 ring, a single enemy cell with production 10, decay one half:
    // at distance three the field is 10 * (1/2)^3 * perpetuity(1/2), with
    // this model's perpetuity form 1 / (1 - g) = 2; the cell's own term
    // is excluded, so the field vanishes at the enemy's own cell.
    let mut env = environment(7, 1, 0);
    env.production_map[0] = 10;
    let brain = lone_brain(env);
    let mut state = State::for_environment(&brain.environment);
    for z in 0..7 {
        state.occupation_map[z] = Occupation { tag: 1, strength: 0 };
    }
    state.occupation_map[0] = Occupation { tag: 2, strength: 1 };
    let ownerships = brain.calc_ownership_map(1, brain.discount_factor, &state.occupation_map);
    // 10 * 0.125 * 2 == 2.5, exactly representable in fixed point.
    assert_eq!(ownerships[3], 5 * ONE / 2);
    assert_eq!(ownerships[4], 5 * ONE / 2);
    // The self-term is excluded at the enemy's own cell.
    assert_eq!(ownerships[0], 0);
}

#[test]
fn blood_field_counts_enemies_only() {
    let brain = lone_brain(environment(3, 1, 0));
    let mut state = State::for_environment(&brain.environment);
    state.occupation_map[0] = Occupation { tag: 2, strength: 1 };
    state.occupation_map[1] = Occupation { tag: 1, strength: 1 };
    state.occupation_map[2] = Occupation { tag: 0, strength: 0 };
    let blood = brain.calc_blood_map(1, brain.discount_factor, &state.occupation_map);
    // Only the enemy at distance one contributes, discounted by one half.
    assert_eq!(blood[1], ONE / 2);
    // The enemy's own cell carries its full undiscounted pressure.
    assert_eq!(blood[0], ONE);
}

#[test]
fn blood_field_vanishes_without_enemies() {
    // Neutral and own cells alone leave the aggression field at zero
    // everywhere.
    let brain = lone_brain(environment(4, 3, 1));
    let mut state = State::for_environment(&brain.environment);
    state.occupation_map[5] = Occupation { tag: 1, strength: 9 };
    let blood = brain.calc_blood_map(1, brain.discount_factor, &state.occupation_map);
    for z in 0..12 {
        assert_eq!(blood[z], 0);
    }
}

#[test]
fn lone_tick_emits_one_action_per_owned_cell() {
    let brain = lone_brain(environment(3, 3, 2));
    let mut brain = brain;
    let mut state = State::for_environment(&brain.environment);
    state.occupation_map[4] = Occupation { tag: 1, strength: 50 };
    state.occupation_map[1] = Occupation { tag: 1, strength: 5 };
    let actions = brain.tick(&state);
    assert_eq!(actions.len(), 2);
    assert_eq!(actions[0].0.x, 1);
    assert_eq!(actions[0].0.y, 0);
    assert_eq!(actions[1].0.x, 1);
    assert_eq!(actions[1].0.y, 1);
}

#[test]
fn simple_brain_attacks_weaker_foes_first() {
    let env = environment(3, 3, 1);
    let mut state = State::for_environment(&env);
    state.occupation_map[4] = Occupation { tag: 1, strength: 10 };
    state.occupation_map[1] = Occupation { tag: 2, strength: 3 };
    let mut brain = SimpleBrain { environment: env };
    let actions = brain.tick(&state);
    assert_eq!(actions.len(), 1);
    assert_eq!((actions[0].0.x, actions[0].0.y), (1, 1));
    assert_eq!(actions[0].1, Some(Dir::North));
}

#[test]
fn simple_brain_lets_saturated_cells_stay() {
    let env = environment(3, 3, 1);
    let mut state = State::for_environment(&env);
    // Every neighbour is a foe too strong to capture and no friend is weak.
    for z in 0..9 {
        state.occupation_map[z] = Occupation { tag: 2, strength: 200 };
    }
    state.occupation_map[4] = Occupation { tag: 1, strength: 100 };
    let mut brain = SimpleBrain { environment: env };
    let actions = brain.tick(&state);
    assert_eq!(actions.len(), 0);
}

#[test]
fn rim_of_a_single_cell_is_its_neighbors() {
    let space = Space::with_dims(4, 4);
    let body = Mask::singleton(&Point { space, ix: 5 });
    let env = environment(4, 4, 1);
    let mut occ = Vec::new();
    for _ in 0..16 {
        occ.push(Occupation { tag: 0, strength: 0 });
    }
    let rim = compute_rim_utility(1, &body, &env.production_map, &occ, par_default(), 100);
    let mut cells: Vec<u16> = rim.iter().map(|t| t.0.ix).collect();
    cells.sort();
    assert_eq!(cells, vec![1, 4, 6, 9]);
}

#[test]
fn teddy_tick_covers_every_owned_cell() {
    let env = environment(4, 4, 1);
    let mut state = State::for_environment(&env);
    state.occupation_map[5] = Occupation { tag: 1, strength: 30 };
    state.occupation_map[6] = Occupation { tag: 1, strength: 10 };
    let mut brain = TeddyBrain { environment: env };
    let actions = brain.tick(&state, 50);
    assert_eq!(actions.len(), 2);
}

#[test]
fn compute_turn_acts_for_every_owned_cell() {
    let env = environment(3, 3, 2);
    let mut state = State::for_environment(&env);
    state.occupation_map[4] = Occupation { tag: 1, strength: 200 };
    state.occupation_map[1] = Occupation { tag: 2, strength: 3 };
    let actions = umpteenth_anion::lone::compute_turn(env, &state);
    // One action for the single owned cell.
    assert_eq!(actions.len(), 1);
    assert_eq!((actions[0].0.x, actions[0].0.y), (1, 1));
}
