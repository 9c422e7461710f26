//! The fixed-point primitives: exact quotients, rounding toward
//! zero, and the integer square root at its edges.

use foragers::fixed::isqrt;
use foragers::fixed::mul_div_s;
use foragers::fixed::mul_div_u;
use foragers::agent::dist_sq_between;
use foragers::config::Config;
use foragers::motion::free_roam_step;
use foragers::agent::Agent;
use foragers::agent::Phase;

#[test]
fn quotients_are_exact() {
    assert_eq!(mul_div_u(150_000_000, 1_000_000, 1_000_000), 150_000_000);
    assert_eq!(mul_div_u(u64::MAX, 1, u64::MAX), 1);
    assert_eq!(mul_div_u(7, 3, 2), 10);
}

#[test]
fn signed_quotients_round_toward_zero() {
    assert_eq!(mul_div_s(-5, 3, 2), -7);
    assert_eq!(mul_div_s(5, -3, 2), -7);
    assert_eq!(mul_div_s(-5, -3, 2), 7);
    assert_eq!(mul_div_s(5, 3, 2), 7);
}

#[test]
fn square_roots_round_down() {
    assert_eq!(isqrt(0), 0);
    assert_eq!(isqrt(1), 1);
    assert_eq!(isqrt(24), 4);
    assert_eq!(isqrt(25), 5);
    assert_eq!(isqrt(u64::MAX), 4_294_967_295);
}

#[test]
fn the_farthest_corners_still_measure() {
    let m: i64 = 1_000_000_000;
    assert_eq!(dist_sq_between(-m, -m, m, m), 8_000_000_000_000_000_000);
}

#[test]
fn wandering_pays_no_sensing_upkeep() {
    // Without a tracked target the heading jitters randomly, but the
    // tick's energy cost is the move cost alone and is exact.
    let cfg = Config::default();
    let w: i64 = 500_000_000;
    let mut a = Agent {
        x: 0,
        y: 0,
        dir_x: 1_000_000,
        dir_y: 0,
        speed: 1_000_000,
        sense: 100_000_000,
        energy: 1_000_000,
        phase: Phase::Roaming,
        hungry: true,
        fertile: false,
        target: None,
    };
    free_roam_step(&mut a, &cfg, 1_000_000, w, w);
    assert_eq!(a.energy, 1_000_000 - 83_400);
    assert!(-w <= a.x && a.x <= w);
    assert!(-w <= a.y && a.y <= w);
}
