//! Whole-run scenarios: a fresh simulation, a full day with no food
//! in reach ending in extinction, termination being final, and a
//! forager that eats and makes it home.

use foragers::agent::Agent;
use foragers::agent::Food;
use foragers::agent::Phase;
use foragers::clock::Clock;
use foragers::config::Config;
use foragers::sim::Simulation;

fn settler(x: i64, y: i64) -> Agent {
    Agent {
        x,
        y,
        dir_x: 1_000_000,
        dir_y: 0,
        speed: 1_000_000,
        sense: 100_000_000,
        energy: 1_000_000,
        phase: Phase::Roaming,
        hungry: true,
        fertile: false,
        target: None,
    }
}

#[test]
fn fresh_simulation_seeds_population_food_and_first_sample() {
    let cfg = Config::default();
    let w: i64 = 300_000_000;
    let sim = Simulation::new(cfg, w, w);
    assert_eq!(sim.agents.len(), 10);
    for a in &sim.agents {
        assert!(-w <= a.x && a.x <= w);
        assert!(-w <= a.y && a.y <= w);
        assert!(a.hungry && !a.fertile);
        assert_eq!(a.energy, 1_000_000);
        assert_eq!(a.speed, 1_000_000);
        assert_eq!(a.sense, 100_000_000);
        assert_eq!(a.phase, Phase::Roaming);
    }
    assert_eq!(sim.foods.len(), 100);
    for f in &sim.foods {
        assert!(-w <= f.x && f.x <= w);
        assert!(-w <= f.y && f.y <= w);
        assert!(!f.consumed);
    }
    assert!(!sim.clock.sunset);
    assert_eq!(sim.series.len(), 1);
    assert_eq!(sim.series[0].time, 0);
    assert_eq!(sim.series[0].population, 10);
    assert_eq!(sim.series[0].food, 100);
    assert_eq!(sim.series[0].avg_speed, 1_000_000);
    assert_eq!(sim.series[0].avg_sense, 100_000_000);
}

#[test]
fn a_day_without_food_in_reach_ends_the_run() {
    // Ten agents, a hundred food items, a 10-second day and a
    // 2-second night at unit simulation speed: nothing is within
    // sensing range and the crawl speed keeps it that way, so nobody
    // stops being hungry, nobody turns home, and the dawn culls the
    // whole population.
    let cfg = Config::new(1_000_000, 1, 10_000_000, 2_000_000, 1_000_000, 1, 1, 100_000, 10, 100)
        .unwrap();
    let w: i64 = 1_000_000_000;
    let mut agents: Vec<Agent> = Vec::new();
    for i in 0..10 {
        agents.push(settler(-900_000_000 + i * 1_000_000, -900_000_000));
    }
    let mut foods: Vec<Food> = Vec::new();
    for i in 0..100 {
        foods.push(Food { x: 900_000_000, y: 900_000_000 - i * 1_000_000, consumed: false });
    }
    let mut sim = Simulation { cfg, clock: Clock::start(), agents, foods, series: vec![] };
    for _ in 0..12 {
        assert!(!sim.is_terminated());
        sim.tick(1_000_000, w, w);
    }
    assert!(sim.is_terminated());
    assert_eq!(sim.agents.len(), 0);
    assert_eq!(sim.series.len(), 0);
}

#[test]
fn termination_is_final() {
    let cfg = Config::new(1_000_000, 1, 10_000_000, 2_000_000, 1_000_000, 1, 1, 100_000, 1, 1)
        .unwrap();
    let w: i64 = 1_000_000_000;
    let mut sim = Simulation {
        cfg,
        clock: Clock::start(),
        agents: vec![settler(-900_000_000, -900_000_000)],
        foods: vec![Food { x: 900_000_000, y: 900_000_000, consumed: false }],
        series: vec![],
    };
    for _ in 0..12 {
        sim.tick(1_000_000, w, w);
    }
    assert!(sim.is_terminated());
    let foods_before = sim.foods.len();
    let elapsed_before = sim.clock.elapsed;
    let series_before = sim.series.len();
    for _ in 0..5 {
        sim.tick(1_000_000, w, w);
    }
    assert_eq!(sim.agents.len(), 0);
    assert_eq!(sim.foods.len(), foods_before);
    assert_eq!(sim.clock.elapsed, elapsed_before);
    assert_eq!(sim.series.len(), series_before);
}

#[test]
fn a_fed_forager_survives_the_night() {
    // One agent next to one food item in a small world: it eats on
    // the first tick, turns home at dusk, parks at the boundary, and
    // dawn renews it instead of culling it.
    let cfg = Config::new(1_000_000, 150_000_000, 10_000_000, 2_000_000, 1_000_000, 556, 83_333,
        100_000, 1, 1).unwrap();
    let w: i64 = 50_000_000;
    let mut sim = Simulation {
        cfg,
        clock: Clock::start(),
        agents: vec![settler(0, 0)],
        foods: vec![Food { x: 20_000_000, y: 0, consumed: false }],
        series: vec![],
    };
    sim.tick(1_000_000, w, w);
    assert_eq!(sim.agents.len(), 1);
    assert!(!sim.agents[0].hungry);
    assert_eq!(sim.foods.len(), 0);
    for _ in 0..11 {
        sim.tick(1_000_000, w, w);
    }
    assert!(!sim.is_terminated());
    assert_eq!(sim.agents.len(), 1);
    let survivor = sim.agents[0];
    assert!(survivor.hungry && !survivor.fertile);
    assert_eq!(survivor.energy, 1_000_000);
    assert_eq!(survivor.phase, Phase::Roaming);
    assert_eq!(sim.foods.len(), 1);
    assert!(!sim.foods[0].consumed);
    assert_eq!(sim.series.len(), 1);
    assert_eq!(sim.series[0].population, 1);
}
