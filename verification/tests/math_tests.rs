use umpteenth_anion::math::{annuity, discount, discount_of, fx_div, fx_mul, perpetuity, ONE};
use umpteenth_anion::modular;

#[test]
fn math_test_sub() {
    for m in 1..100u16 {
        for a in 0..m {
            for b in 0..m {
                let c = modular::sub(a, b, m);
                if c >= m {
                    panic!("failed for a={}, b={}, m={}", a, b, m);
                }
                assert_eq!((c + b) % m, a);
            }
        }
    }
}

#[test]
fn space_test_sub() {
    for m in 1..100u16 {
        for a in 0..m {
            for b in 0..m {
                let c = modular::sub(a, b, m);
                if c >= m {
                    panic!("failed for a={}, b={}, m={}", a, b, m);
                }
                assert_eq!((c + b) % m, a);
            }
        }
    }
}

#[test]
fn modular_dist_is_symmetric() {
    for m in 1..40u16 {
        for a in 0..m {
            for b in 0..m {
                assert_eq!(modular::dist(a, b, m), modular::dist(b, a, m));
            }
        }
    }
    assert_eq!(modular::dist(0, 4, 5), 1);
    assert_eq!(modular::dist(1, 3, 5), 2);
}

#[test]
fn discount_of_zero_periods_is_one() {
    let half = ONE / 2;
    assert_eq!(discount(half, 0), ONE);
    assert_eq!(discount(0, 0), ONE);
    assert_eq!(discount(ONE - 1, 0), ONE);
}

#[test]
fn annuity_of_zero_periods_is_zero() {
    let half = ONE / 2;
    assert_eq!(annuity(half, 0), 0);
    assert_eq!(annuity(0, 0), 0);
}

#[test]
fn annuity_converges_to_perpetuity() {
    let half = ONE / 2;
    // The discount factor halves each period and is exactly zero after
    // seventeen, so the annuity equals the perpetuity from there on.
    assert_eq!(discount(half, 20), 0);
    assert_eq!(annuity(half, 20), perpetuity(half));
    assert_eq!(annuity(half, 1000), perpetuity(half));
    assert_eq!(perpetuity(half), ONE);
}

#[test]
fn fixed_point_arithmetic_is_exact_on_halves() {
    let half = ONE / 2;
    assert_eq!(fx_mul(half, half), ONE / 4);
    assert_eq!(fx_div(ONE, half), 2 * ONE);
    assert_eq!(fx_mul(-half, half), -(ONE / 4));
    assert_eq!(discount_of(ONE), half);
}

#[test]
fn discount_backwards_grows() {
    let half = ONE / 2;
    assert_eq!(discount(half, -1), 2 * ONE);
    assert_eq!(discount(half, -3), 8 * ONE);
}
