//! Mutation bounds, configuration validation, statistics, and the
//! dawn transition.

use foragers::agent::Agent;
use foragers::agent::Food;
use foragers::agent::Phase;
use foragers::clock::Clock;
use foragers::config::Config;
use foragers::config::ConfigError;
use foragers::lifecycle::mutate_trait;
use foragers::sim::Simulation;
use foragers::stats::Sample;
use foragers::stats::take_sample;

fn resident(x: i64, y: i64, phase: Phase, fertile: bool) -> Agent {
    Agent {
        x,
        y,
        dir_x: 1_000_000,
        dir_y: 0,
        speed: 1_000_000,
        sense: 100_000_000,
        energy: 500_000,
        phase,
        hungry: false,
        fertile,
        target: None,
    }
}

#[test]
fn mutation_stays_inside_the_envelope() {
    // A tenth of relative change around speed 1.0 allows exactly
    // [0.9, 1.1], and the result is never zero or negative.
    for _ in 0..50 {
        let r = mutate_trait(1_000_000, 100_000);
        assert!(900_000 <= r && r <= 1_100_000);
        assert!(r > 0);
    }
}

#[test]
fn mutation_never_reaches_zero() {
    // Full intensity on the smallest trait may halve or double it,
    // but the floor of one step keeps it positive.
    for _ in 0..50 {
        let r = mutate_trait(1, 1_000_000);
        assert!(1 <= r && r <= 2);
    }
}

#[test]
fn nonpositive_configuration_is_fatal() {
    let r = Config::new(1_000_000, 150_000_000, 0, 2_000_000, 1_000_000, 556, 83_333, 100_000,
        10, 100);
    assert_eq!(r.unwrap_err(), ConfigError::NonPositive);
    let r = Config::new(1_000_000, 150_000_000, 10_000_000, 2_000_000, 1_000_000, 556, 83_333,
        100_000, 0, 100);
    assert_eq!(r.unwrap_err(), ConfigError::NonPositive);
}

#[test]
fn oversized_configuration_is_fatal() {
    let r = Config::new(200_000_000, 150_000_000, 10_000_000, 2_000_000, 1_000_000, 556, 83_333,
        100_000, 10, 100);
    assert_eq!(r.unwrap_err(), ConfigError::TooLarge);
}

#[test]
fn accepted_configuration_keeps_its_values() {
    let c = Config::new(1_000_000, 150_000_000, 10_000_000, 2_000_000, 1_000_000, 556, 83_333,
        100_000, 10, 100).unwrap();
    assert_eq!(c.sim_speed, 1_000_000);
    assert_eq!(c.movement_speed, 150_000_000);
    assert_eq!(c.day_length, 10_000_000);
    assert_eq!(c.night_length, 2_000_000);
    assert_eq!(c.person_count, 10);
    assert_eq!(c.food_count, 100);
}

#[test]
fn samples_hold_exact_averages() {
    let mut a = resident(0, 0, Phase::Roaming, false);
    a.speed = 1_000_000;
    a.sense = 100_000_000;
    let mut b = resident(0, 0, Phase::Roaming, false);
    b.speed = 2_000_000;
    b.sense = 200_000_000;
    let agents = vec![a, b];
    let foods = vec![
        Food { x: 0, y: 0, consumed: false },
        Food { x: 1, y: 1, consumed: false },
        Food { x: 2, y: 2, consumed: false },
    ];
    let mut series: Vec<Sample> = Vec::new();
    take_sample(&agents, &foods, 42, &mut series);
    assert_eq!(series.len(), 1);
    assert_eq!(series[0].time, 42);
    assert_eq!(series[0].population, 2);
    assert_eq!(series[0].food, 3);
    assert_eq!(series[0].avg_speed, 1_500_000);
    assert_eq!(series[0].avg_sense, 150_000_000);
}

#[test]
fn dawn_culls_the_absent_and_breeds_the_fertile_home() {
    // Agent A is home and fertile, agent B is still walking when the
    // night timer fires: dawn must despawn B, renew A with full
    // energy, and spawn exactly one offspring at A's position with
    // traits inside the mutation envelope.
    let cfg = Config::default();
    let w: i64 = 100_000_000;
    let a = resident(-100_000_000, 0, Phase::Home, true);
    let b = resident(0, 0, Phase::Returning, false);
    let mut sim = Simulation {
        cfg,
        clock: Clock { elapsed: 11_000_000, sunset: true, day_acc: 0, cycle_acc: 11_000_000 },
        agents: vec![a, b],
        foods: vec![],
        series: vec![],
    };
    sim.tick(1_000_000, w, w);
    assert!(!sim.is_terminated());
    assert_eq!(sim.agents.len(), 2);
    let parent = sim.agents[0];
    assert_eq!(parent.x, -100_000_000);
    assert!(parent.hungry && !parent.fertile);
    assert_eq!(parent.energy, 1_000_000);
    assert_eq!(parent.phase, Phase::Roaming);
    assert_eq!(parent.speed, 1_000_000);
    let child = sim.agents[1];
    assert_eq!(child.x, -100_000_000);
    assert_eq!(child.y, 0);
    assert!(900_000 <= child.speed && child.speed <= 1_100_000);
    assert!(90_000_000 <= child.sense && child.sense <= 110_000_000);
    assert!(child.hungry && !child.fertile);
    assert_eq!(child.energy, 1_000_000);
    assert_eq!(child.phase, Phase::Roaming);
    assert!(child.speed != 1_000_000 || child.sense != 100_000_000);
    // The dawn respawned one food batch and sampled the new day.
    assert_eq!(sim.foods.len(), 100);
    assert_eq!(sim.series.len(), 1);
    assert_eq!(sim.series[0].population, 2);
    assert_eq!(sim.series[0].food, 100);
    assert_eq!(sim.series[0].time, 12_000_000);
    assert_eq!(sim.series[0].avg_speed, (1_000_000 + child.speed) / 2);
}
