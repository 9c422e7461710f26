//! The radar: consumption, the lifecycle transitions it feeds, and
//! the target adoption, replacement and clearing rules.

use foragers::agent::Agent;
use foragers::agent::Food;
use foragers::agent::Phase;
use foragers::agent::Target;
use foragers::sense::prune_targets;
use foragers::sense::purge_eaten;
use foragers::sense::sense_pass;

fn forager(x: i64, y: i64, hungry: bool) -> Agent {
    Agent {
        x,
        y,
        dir_x: 1_000_000,
        dir_y: 0,
        speed: 1_000_000,
        sense: 100_000_000,
        energy: 1_000_000,
        phase: Phase::Roaming,
        hungry,
        fertile: false,
        target: None,
    }
}

fn food_at(x: i64, y: i64) -> Food {
    Food { x, y, consumed: false }
}

#[test]
fn one_food_feeds_exactly_one_of_two_agents_in_reach() {
    // Both agents stand within the 45-unit contact radius of the one
    // food item; only the first in store order eats, and the item is
    // removed exactly once.
    let mut agents = vec![forager(0, 0, true), forager(10_000_000, 0, true)];
    let mut foods = vec![food_at(20_000_000, 0)];
    sense_pass(&mut agents, &mut foods);
    assert!(foods[0].consumed);
    assert!(!agents[0].hungry);
    assert!(agents[1].hungry);
    assert!(!agents[0].fertile && !agents[1].fertile);
    purge_eaten(&mut foods);
    assert_eq!(foods.len(), 0);
}

#[test]
fn first_food_clears_hunger_second_grants_fertility() {
    let mut agents = vec![forager(0, 0, true)];
    let mut foods = vec![food_at(10_000_000, 0), food_at(20_000_000, 0)];
    sense_pass(&mut agents, &mut foods);
    assert!(!agents[0].hungry);
    assert!(agents[0].fertile);
    assert!(foods[0].consumed && foods[1].consumed);
}

#[test]
fn fertile_agents_do_not_sense() {
    let mut agents = vec![forager(0, 0, false)];
    agents[0].fertile = true;
    let mut foods = vec![food_at(10_000_000, 0)];
    sense_pass(&mut agents, &mut foods);
    assert!(!foods[0].consumed);
    assert!(agents[0].target.is_none());
}

#[test]
fn perceptible_food_is_adopted_with_its_distance() {
    let mut agents = vec![forager(0, 0, false)];
    let mut foods = vec![food_at(60_000_000, 0)];
    sense_pass(&mut agents, &mut foods);
    let t = agents[0].target.unwrap();
    assert_eq!(t.x, 60_000_000);
    assert_eq!(t.y, 0);
    assert_eq!(t.dist_sq, 3_600_000_000_000_000);
}

#[test]
fn nearer_candidate_does_not_replace_the_target() {
    // The deliberate peculiarity of the radar: a tracked target is
    // replaced only by a candidate at a distance NOT LESS than the
    // tracked one's; a strictly nearer candidate is ignored.
    let mut agents = vec![forager(0, 0, false)];
    agents[0].target = Some(Target { x: 80_000_000, y: 0, dist_sq: 6_400_000_000_000_000 });
    let mut foods = vec![food_at(60_000_000, 0)];
    sense_pass(&mut agents, &mut foods);
    let t = agents[0].target.unwrap();
    assert_eq!(t.x, 80_000_000);
    assert_eq!(t.dist_sq, 6_400_000_000_000_000);
}

#[test]
fn farther_candidate_replaces_the_target() {
    let mut agents = vec![forager(0, 0, false)];
    agents[0].target = Some(Target { x: 80_000_000, y: 0, dist_sq: 6_400_000_000_000_000 });
    let mut foods = vec![food_at(90_000_000, 0)];
    sense_pass(&mut agents, &mut foods);
    let t = agents[0].target.unwrap();
    assert_eq!(t.x, 90_000_000);
    assert_eq!(t.dist_sq, 8_100_000_000_000_000);
}

#[test]
fn equally_distant_candidate_replaces_the_target() {
    let mut agents = vec![forager(0, 0, false)];
    agents[0].target = Some(Target { x: 80_000_000, y: 0, dist_sq: 6_400_000_000_000_000 });
    let mut foods = vec![food_at(0, 80_000_000)];
    sense_pass(&mut agents, &mut foods);
    let t = agents[0].target.unwrap();
    assert_eq!(t.x, 0);
    assert_eq!(t.y, 80_000_000);
}

#[test]
fn tracked_item_leaving_range_is_dropped() {
    let mut agents = vec![forager(0, 0, false)];
    agents[0].target = Some(Target { x: 150_000_000, y: 0, dist_sq: 4_000_000_000_000_000 });
    let mut foods = vec![food_at(150_000_000, 0)];
    sense_pass(&mut agents, &mut foods);
    assert!(agents[0].target.is_none());
}

#[test]
fn out_of_range_stranger_does_not_touch_the_target() {
    let mut agents = vec![forager(0, 0, false)];
    agents[0].target = Some(Target { x: 80_000_000, y: 0, dist_sq: 6_400_000_000_000_000 });
    let mut foods = vec![food_at(0, 150_000_000)];
    sense_pass(&mut agents, &mut foods);
    assert_eq!(agents[0].target.unwrap().x, 80_000_000);
}

#[test]
fn consumed_target_is_pruned_for_everyone() {
    // Agent 1 tracks the item that agent 0 eats within the same pass;
    // the stale target must not survive the pass.
    let mut agents = vec![forager(0, 0, true), forager(0, 60_000_000, false)];
    agents[1].target = Some(Target { x: 20_000_000, y: 0, dist_sq: 4_000_000_000_000_000 });
    let mut foods = vec![food_at(20_000_000, 0)];
    sense_pass(&mut agents, &mut foods);
    assert!(foods[0].consumed);
    prune_targets(&mut agents, &foods);
    assert!(agents[1].target.is_none());
}
