//! The data model: agents, their lifecycle phase and heritable
//! traits, and food items.

use vstd::prelude::*;
use vstd::arithmetic::mul::lemma_mul_upper_bound;
use crate::fixed::SCALE;
use crate::fixed::iabs;

verus! {

/// Half-extent cap of the world rectangle (1000 units each way).
pub const MAX_DIM: i64 = 1_000_000_000;

/// Cap on a heritable trait value (1000 units).
pub const MAX_TRAIT: i64 = 1_000_000_000;

/// Cap on an agent's energy, met by every accepted base energy.
pub const MAX_ENERGY: i64 = 1_000_000_000;

/// Floor below which a tick's energy spending saturates; an agent is
/// dead long before its energy reaches this.
pub const ENERGY_FLOOR: i64 = -1_000_000_000_000_000_000;

/// Speed trait of the founding population (1 unit).
pub const DEFAULT_SPEED: i64 = 1_000_000;

/// Sensing-range trait of the founding population (100 units).
pub const DEFAULT_SENSE: i64 = 100_000_000;

/// Largest squared distance between two in-bounds points.
pub const MAX_DIST_SQ: u64 = 8_000_000_000_000_000_000;

/// Where an agent stands in the daily cycle: roaming the world,
/// walking home, or parked at the boundary.
#[derive(Clone, Copy, PartialEq, Eq, Structural, Debug)]
pub enum Phase {
    /// Free roam: jittered wandering or straight-line food pursuit.
    Roaming,
    /// Axis-aligned walk toward the nearest world edge.
    Returning,
    /// Arrived at the boundary; waiting for dawn.
    Home,
}

/// The food item an agent currently pursues: the item's position and
/// the squared distance at which it was adopted.
#[derive(Clone, Copy)]
pub struct Target {
    pub x: i64,
    pub y: i64,
    pub dist_sq: u64,
}

/// A food item. A consumed item never survives the sensing pass that
/// consumed it: the flag exists so that at most one agent can benefit
/// from the item within that pass.
#[derive(Clone, Copy)]
pub struct Food {
    pub x: i64,
    pub y: i64,
    pub consumed: bool,
}

/// One live agent.
#[derive(Clone, Copy)]
pub struct Agent {
    /// Position, wrapped toroidally at the world bounds while roaming.
    pub x: i64,
    pub y: i64,
    /// Heading as a fixed-point unit vector; each component lies in
    /// `[-SCALE, SCALE]`.
    pub dir_x: i64,
    pub dir_y: i64,
    /// Heritable movement-speed trait, a multiplier on the configured
    /// movement speed.
    pub speed: i64,
    /// Heritable sensing-range trait: the distance at which food is
    /// perceived.
    pub sense: i64,
    /// Remaining energy; the agent dies when it is no longer positive.
    pub energy: i64,
    pub phase: Phase,
    /// Set from birth and from every dawn renewal until the first food
    /// of the day is eaten.
    pub hungry: bool,
    /// Set by eating while not hungry; grants reproduction if the
    /// agent reaches home.
    pub fertile: bool,
    /// Nearest perceptible food adopted during sensing, if any.
    pub target: Option<Target>,
}

pub open spec fn target_wf(t: Target) -> bool {
    &&& -MAX_DIM <= t.x <= MAX_DIM
    &&& -MAX_DIM <= t.y <= MAX_DIM
    &&& t.dist_sq <= MAX_DIST_SQ
}

pub open spec fn food_wf(f: Food) -> bool {
    &&& -MAX_DIM <= f.x <= MAX_DIM
    &&& -MAX_DIM <= f.y <= MAX_DIM
}

pub open spec fn trait_ok(t: i64) -> bool {
    1 <= t <= MAX_TRAIT
}

pub open spec fn agent_wf(a: Agent) -> bool {
    &&& -MAX_DIM <= a.x <= MAX_DIM
    &&& -MAX_DIM <= a.y <= MAX_DIM
    &&& -SCALE <= a.dir_x <= SCALE
    &&& -SCALE <= a.dir_y <= SCALE
    &&& trait_ok(a.speed)
    &&& trait_ok(a.sense)
    &&& ENERGY_FLOOR <= a.energy <= MAX_ENERGY
    &&& a.fertile ==> !a.hungry
    &&& a.target matches Some(t) ==> target_wf(t)
}

/// Squared Euclidean distance between two points.
pub open spec fn dist_sq(ax: int, ay: int, bx: int, by: int) -> int {
    (ax - bx) * (ax - bx) + (ay - by) * (ay - by)
}

/// Squared distance between two in-bounds points, exactly.
pub fn dist_sq_between(ax: i64, ay: i64, bx: i64, by: i64) -> (r: u64)
    requires
        -MAX_DIM <= ax <= MAX_DIM,
        -MAX_DIM <= ay <= MAX_DIM,
        -MAX_DIM <= bx <= MAX_DIM,
        -MAX_DIM <= by <= MAX_DIM,
    ensures
        r == dist_sq(ax as int, ay as int, bx as int, by as int),
        r <= MAX_DIST_SQ,
{
    let dx: i64 = ax - bx;
    let dy: i64 = ay - by;
    let mx: u64 = if dx >= 0 {
        dx as u64
    } else {
        (-dx) as u64
    };
    let my: u64 = if dy >= 0 {
        dy as u64
    } else {
        (-dy) as u64
    };
    proof {
        assert(mx as int * mx as int == (dx as int) * (dx as int)) by (nonlinear_arith)
            requires
                mx == iabs(dx as int),
        ;
        assert(my as int * my as int == (dy as int) * (dy as int)) by (nonlinear_arith)
            requires
                my == iabs(dy as int),
        ;
        lemma_mul_upper_bound(mx as int, 2 * MAX_DIM as int, mx as int, 2 * MAX_DIM as int);
        lemma_mul_upper_bound(my as int, 2 * MAX_DIM as int, my as int, 2 * MAX_DIM as int);
    }
    mx * mx + my * my
}

} // verus!
