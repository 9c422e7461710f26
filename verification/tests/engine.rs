//! Movement, wrapping, the homebound tie-break and the clock.

use foragers::agent::Agent;
use foragers::agent::Phase;
use foragers::agent::Target;
use foragers::agent::dist_sq_between;
use foragers::clock::Clock;
use foragers::config::Config;
use foragers::geom::normalize_dir;
use foragers::geom::wrap_coord;
use foragers::motion::free_roam_step;
use foragers::motion::home_step;

fn roamer(x: i64, y: i64) -> Agent {
    Agent {
        x,
        y,
        dir_x: 1_000_000,
        dir_y: 0,
        speed: 1_000_000,
        sense: 100_000_000,
        energy: 1_000_000,
        phase: Phase::Roaming,
        hungry: true,
        fertile: false,
        target: None,
    }
}

#[test]
fn wrap_is_toroidal() {
    let w: i64 = 500_000_000;
    assert_eq!(wrap_coord(500_000_001, w), -500_000_000);
    assert_eq!(wrap_coord(-500_000_001, w), 500_000_000);
    assert_eq!(wrap_coord(500_000_000, w), 500_000_000);
    assert_eq!(wrap_coord(-500_000_000, w), -500_000_000);
    assert_eq!(wrap_coord(42, w), 42);
}

#[test]
fn distances_are_exact() {
    assert_eq!(dist_sq_between(0, 0, 3, 4), 25);
    assert_eq!(dist_sq_between(-3, 0, 0, -4), 25);
    assert_eq!(dist_sq_between(7, 7, 7, 7), 0);
}

#[test]
fn normalization_is_exact() {
    assert_eq!(normalize_dir(3_000_000, 4_000_000), (600_000, 800_000));
    assert_eq!(normalize_dir(-3_000_000, 4_000_000), (-600_000, 800_000));
    assert_eq!(normalize_dir(0, 0), (1_000_000, 0));
    assert_eq!(normalize_dir(0, -5), (0, -1_000_000));
}

#[test]
fn rightward_move_at_half_width_reappears_left() {
    // An agent standing exactly on the +x edge, pursuing a target at
    // its own position, is steered due east and must reappear at the
    // -x edge the same tick.
    let cfg = Config::default();
    let w: i64 = 500_000_000;
    let mut a = roamer(w, 0);
    a.target = Some(Target { x: w, y: 0, dist_sq: 0 });
    free_roam_step(&mut a, &cfg, 1_000_000, w, w);
    assert_eq!(a.x, -w);
    assert_eq!(a.y, 0);
    // One second of pursuit costs the move plus the sensing upkeep.
    assert_eq!(a.energy, 1_000_000 - 83_400 - 83_333);
}

#[test]
fn homebound_tie_prefers_left_over_top() {
    let cfg = Config::default();
    let w: i64 = 100_000_000;
    let mut a = roamer(-60_000_000, 60_000_000);
    a.phase = Phase::Returning;
    a.hungry = false;
    // left == top == 40 units; left is evaluated first and wins.
    home_step(&mut a, &cfg, 1_000_000, w, w);
    assert_eq!(a.x, -100_000_000);
    assert_eq!(a.y, 60_000_000);
    assert_eq!(a.dir_x, -1_000_000);
    assert_eq!(a.dir_y, 0);
    assert_eq!(a.energy, 1_000_000 - 22_240);
    assert_eq!(a.phase, Phase::Returning);
    // At the edge the distance is zero: the next step parks the agent.
    home_step(&mut a, &cfg, 1_000_000, w, w);
    assert_eq!(a.phase, Phase::Home);
    assert_eq!(a.x, -100_000_000);
    assert_eq!(a.energy, 1_000_000 - 22_240);
}

#[test]
fn homebound_tie_prefers_right_over_bottom() {
    let cfg = Config::default();
    let w: i64 = 100_000_000;
    let mut a = roamer(60_000_000, -60_000_000);
    a.phase = Phase::Returning;
    home_step(&mut a, &cfg, 1_000_000, w, w);
    assert_eq!(a.x, 100_000_000);
    assert_eq!(a.y, -60_000_000);
    assert_eq!(a.dir_x, 1_000_000);
}

#[test]
fn day_timer_fires_dusk_and_cycle_timer_fires_dawn() {
    let cfg = Config::default();
    let mut c = Clock::start();
    for _ in 0..9 {
        let (dusk, dawn) = c.advance(&cfg, 1_000_000);
        assert!(!dusk && !dawn);
        assert!(!c.sunset);
    }
    let (dusk, dawn) = c.advance(&cfg, 1_000_000);
    assert!(dusk && !dawn);
    assert!(c.sunset);
    assert_eq!(c.day_acc, 0);
    let (dusk, dawn) = c.advance(&cfg, 1_000_000);
    assert!(!dusk && !dawn);
    assert!(c.sunset);
    let (dusk, dawn) = c.advance(&cfg, 1_000_000);
    assert!(!dusk && dawn);
    assert!(!c.sunset);
    assert_eq!(c.cycle_acc, 0);
    assert_eq!(c.elapsed, 12_000_000);
}

#[test]
fn day_timer_only_ticks_by_day() {
    let cfg = Config::default();
    let mut c = Clock::start();
    let _ = c.advance(&cfg, 10_000_000);
    assert!(c.sunset);
    assert_eq!(c.day_acc, 0);
    // A night advance must leave the day timer untouched.
    let _ = c.advance(&cfg, 1_000_000);
    assert_eq!(c.day_acc, 0);
    assert_eq!(c.cycle_acc, 11_000_000);
}
