//! The movement engine: free-roam wandering and pursuit by day, and
//! the axis-aligned homebound walk, with the energy cost of each.

use vstd::prelude::*;
use vstd::arithmetic::div_mod::lemma_div_by_multiple;
use crate::fixed::SCALE;
use crate::fixed::iabs;
use crate::fixed::muldiv;
use crate::fixed::mul_div_u;
use crate::fixed::mul_div_s;
use crate::fixed::lemma_muldiv_bound;
use crate::agent::Agent;
use crate::agent::Phase;
use crate::agent::MAX_DIM;
use crate::agent::MAX_ENERGY;
use crate::agent::ENERGY_FLOOR;
use crate::agent::agent_wf;
use crate::agent::trait_ok;
use crate::config::Config;
use crate::config::MAX_MOVE_SPEED;
use crate::config::MAX_SIM_SPEED;
use crate::config::MAX_RATE;
use crate::clock::MAX_DT;
use crate::geom::wrap_spec;
use crate::geom::wrap_coord;
use crate::geom::norm_spec;
use crate::geom::rot_spec;
use crate::geom::normalize_dir;
use crate::geom::rotate_dir;

verus! {

/// Largest distance one tick can move an agent.
pub const MAX_STEP: u64 = 10_000_000_000_000_000;

/// Half-width of the angular-rate envelope of free-roam jitter, as a
/// sine per second (6 radians per second in the small-angle reading).
pub const JITTER_RATE: i64 = 6_000_000;

/// The smaller of two values.
pub open spec fn imin(a: int, b: int) -> int {
    if a <= b {
        a
    } else {
        b
    }
}

/// Distance one tick moves an agent: configured movement speed scaled
/// by the frame delta, the simulation speed, and the agent's speed
/// trait.
pub open spec fn step_dist(cfg: Config, speed: int, dt: int) -> int {
    muldiv(
        muldiv(muldiv(cfg.movement_speed as int, dt, SCALE as int), cfg.sim_speed as int,
            SCALE as int),
        speed,
        SCALE as int,
    )
}

/// Energy spent on moving a distance `d`: the distance scaled by the
/// speed trait once more and by the configured cost per distance.
pub open spec fn move_cost(cfg: Config, speed: int, d: int) -> int {
    muldiv(muldiv(d, speed, SCALE as int), cfg.base_energy_cost as int, SCALE as int)
}

/// Energy spent per tick on carrying a sensed target: the configured
/// per-second sensing cost over the simulated time the tick covers.
pub open spec fn sense_upkeep(cfg: Config, dt: int) -> int {
    muldiv(muldiv(cfg.sense_cost as int, dt, SCALE as int), cfg.sim_speed as int, SCALE as int)
}

/// Energy left after spending `cost`, saturating at `ENERGY_FLOOR`.
pub open spec fn drained(e: int, cost: int) -> int {
    if e - cost < ENERGY_FLOOR {
        ENERGY_FLOOR as int
    } else {
        e - cost
    }
}

/// Subtracts an energy cost, saturating at `ENERGY_FLOOR`.
fn drain(e: i64, cost: u64) -> (r: i64)
    requires
        ENERGY_FLOOR <= e <= MAX_ENERGY,
    ensures
        r == drained(e as int, cost as int),
        ENERGY_FLOOR <= r <= e,
{
    if cost > (e - ENERGY_FLOOR) as u64 {
        ENERGY_FLOOR
    } else {
        e - (cost as i64)
    }
}

/// One tick's distance is non-negative and bounded by `MAX_STEP`.
pub proof fn lemma_step_dist_bounds(cfg: Config, speed: int, dt: int)
    requires
        cfg.wf(),
        1 <= speed <= crate::agent::MAX_TRAIT,
        1 <= dt <= MAX_DT,
    ensures
        0 <= step_dist(cfg, speed, dt) <= MAX_STEP,
{
    lemma_muldiv_bound(cfg.movement_speed as int, dt, SCALE as int, MAX_MOVE_SPEED as int,
        MAX_DT as int);
    assert(MAX_MOVE_SPEED * MAX_DT == 100_000_000_000_000_000) by (nonlinear_arith);
    assert(100_000_000_000 * 1_000_000 == 100_000_000_000_000_000) by (nonlinear_arith);
    lemma_div_by_multiple(100_000_000_000, 1_000_000);
    let q1 = muldiv(cfg.movement_speed as int, dt, SCALE as int);
    lemma_muldiv_bound(q1, cfg.sim_speed as int, SCALE as int, 100_000_000_000,
        MAX_SIM_SPEED as int);
    assert(100_000_000_000 * MAX_SIM_SPEED == 10_000_000_000_000_000_000) by (nonlinear_arith);
    assert(10_000_000_000_000 * 1_000_000 == 10_000_000_000_000_000_000) by (nonlinear_arith);
    lemma_div_by_multiple(10_000_000_000_000, 1_000_000);
    let q2 = muldiv(q1, cfg.sim_speed as int, SCALE as int);
    lemma_muldiv_bound(q2, speed, SCALE as int, 10_000_000_000_000, crate::agent::MAX_TRAIT as int);
    assert(10_000_000_000_000 * crate::agent::MAX_TRAIT == 10_000_000_000_000_000_000_000)
        by (nonlinear_arith);
    assert(10_000_000_000_000_000 * 1_000_000 == 10_000_000_000_000_000_000_000)
        by (nonlinear_arith);
    lemma_div_by_multiple(10_000_000_000_000_000, 1_000_000);
}

/// `step_dist` as executable code, with its overflow envelope.
pub fn step_distance(cfg: &Config, speed: i64, dt: i64) -> (d: u64)
    requires
        cfg.wf(),
        trait_ok(speed),
        1 <= dt <= MAX_DT,
    ensures
        d == step_dist(*cfg, speed as int, dt as int),
        d <= MAX_STEP,
{
    proof {
        lemma_muldiv_bound(cfg.movement_speed as int, dt as int, SCALE as int,
            MAX_MOVE_SPEED as int, MAX_DT as int);
        assert(MAX_MOVE_SPEED * MAX_DT == 100_000_000_000_000_000) by (nonlinear_arith);
        assert(100_000_000_000 * 1_000_000 == 100_000_000_000_000_000) by (nonlinear_arith);
        lemma_div_by_multiple(100_000_000_000, 1_000_000);
    }
    let q1: u64 = mul_div_u(cfg.movement_speed as u64, dt as u64, SCALE as u64);
    proof {
        assert(q1 <= 100_000_000_000);
        lemma_muldiv_bound(q1 as int, cfg.sim_speed as int, SCALE as int, 100_000_000_000,
            MAX_SIM_SPEED as int);
        assert(100_000_000_000 * MAX_SIM_SPEED == 10_000_000_000_000_000_000) by (nonlinear_arith);
        assert(10_000_000_000_000 * 1_000_000 == 10_000_000_000_000_000_000) by (nonlinear_arith);
        lemma_div_by_multiple(10_000_000_000_000, 1_000_000);
    }
    let q2: u64 = mul_div_u(q1, cfg.sim_speed as u64, SCALE as u64);
    proof {
        assert(q2 <= 10_000_000_000_000);
        lemma_muldiv_bound(q2 as int, speed as int, SCALE as int, 10_000_000_000_000,
            crate::agent::MAX_TRAIT as int);
        assert(10_000_000_000_000 * crate::agent::MAX_TRAIT == 10_000_000_000_000_000_000_000)
            by (nonlinear_arith);
        assert(10_000_000_000_000_000 * 1_000_000 == 10_000_000_000_000_000_000_000)
            by (nonlinear_arith);
        lemma_div_by_multiple(10_000_000_000_000_000, 1_000_000);
    }
    let d: u64 = mul_div_u(q2, speed as u64, SCALE as u64);
    d
}

/// Total energy cost of a day-phase move over distance `d`, including
/// the sensing upkeep when a target is carried.
fn roam_cost(cfg: &Config, speed: i64, dt: i64, d: u64, carrying: bool) -> (c: u64)
    requires
        cfg.wf(),
        trait_ok(speed),
        1 <= dt <= MAX_DT,
        d <= MAX_STEP,
    ensures
        c == move_cost(*cfg, speed as int, d as int) + (if carrying {
            sense_upkeep(*cfg, dt as int)
        } else {
            0int
        }),
{
    proof {
        lemma_muldiv_bound(d as int, speed as int, SCALE as int, MAX_STEP as int,
            crate::agent::MAX_TRAIT as int);
        assert(MAX_STEP * crate::agent::MAX_TRAIT == 10_000_000_000_000_000_000_000_000)
            by (nonlinear_arith);
        assert(10_000_000_000_000_000_000 * 1_000_000 == 10_000_000_000_000_000_000_000_000)
            by (nonlinear_arith);
        lemma_div_by_multiple(10_000_000_000_000_000_000, 1_000_000);
    }
    let t1: u64 = mul_div_u(d, speed as u64, SCALE as u64);
    proof {
        assert(t1 <= 10_000_000_000_000_000_000);
        lemma_muldiv_bound(t1 as int, cfg.base_energy_cost as int, SCALE as int,
            10_000_000_000_000_000_000, MAX_RATE as int);
        assert(10_000_000_000_000_000_000 * MAX_RATE == 10_000_000_000_000_000_000_000_000)
            by (nonlinear_arith);
    }
    let t2: u64 = mul_div_u(t1, cfg.base_energy_cost as u64, SCALE as u64);
    proof {
        assert(t2 <= 10_000_000_000_000_000_000);
    }
    if carrying {
        proof {
            lemma_muldiv_bound(cfg.sense_cost as int, dt as int, SCALE as int, MAX_RATE as int,
                MAX_DT as int);
            assert(MAX_RATE * MAX_DT == 100_000_000_000_000) by (nonlinear_arith);
            assert(100_000_000 * 1_000_000 == 100_000_000_000_000) by (nonlinear_arith);
            lemma_div_by_multiple(100_000_000, 1_000_000);
        }
        let u1: u64 = mul_div_u(cfg.sense_cost as u64, dt as u64, SCALE as u64);
        proof {
            assert(u1 <= 100_000_000);
            lemma_muldiv_bound(u1 as int, cfg.sim_speed as int, SCALE as int, 100_000_000,
                MAX_SIM_SPEED as int);
            assert(100_000_000 * MAX_SIM_SPEED == 10_000_000_000_000_000) by (nonlinear_arith);
            assert(10_000_000_000 * 1_000_000 == 10_000_000_000_000_000) by (nonlinear_arith);
            lemma_div_by_multiple(10_000_000_000, 1_000_000);
        }
        let u2: u64 = mul_div_u(u1, cfg.sim_speed as u64, SCALE as u64);
        proof {
            assert(u2 <= 10_000_000_000);
        }
        t2 + u2
    } else {
        t2
    }
}

/// An agent after one free-roam move: it advances `step_dist` along
/// its heading, wraps toroidally at the bounds, and pays the move
/// cost plus, when pursuing, the sensing upkeep.
pub open spec fn roam_moved(a: Agent, cfg: Config, dt: int, w: int, h: int) -> Agent {
    let d = step_dist(cfg, a.speed as int, dt);
    let dx = muldiv(d, a.dir_x as int, SCALE as int);
    let dy = muldiv(d, a.dir_y as int, SCALE as int);
    let cost = move_cost(cfg, a.speed as int, d) + (if a.target is Some {
        sense_upkeep(cfg, dt)
    } else {
        0int
    });
    Agent {
        x: wrap_spec(a.x + dx, w) as i64,
        y: wrap_spec(a.y + dy, h) as i64,
        energy: drained(a.energy as int, cost) as i64,
        ..a
    }
}

/// An agent turned straight toward its tracked target; identity when
/// no target is tracked.
pub open spec fn steered(a: Agent) -> Agent {
    match a.target {
        Some(t) => {
            let u = norm_spec(t.x - a.x, t.y - a.y);
            Agent { dir_x: u.0 as i64, dir_y: u.1 as i64, ..a }
        },
        None => a,
    }
}

/// An agent with its heading rotated by the jitter sine `s`.
pub open spec fn jittered(a: Agent, s: int) -> Agent {
    let u = rot_spec(a.dir_x as int, a.dir_y as int, s);
    Agent { dir_x: u.0 as i64, dir_y: u.1 as i64, ..a }
}

/// Half-width of this tick's jitter envelope: the angular rate scaled
/// by the frame delta and the simulation speed, capped at a whole
/// unit of sine.
pub open spec fn jitter_env(cfg: Config, dt: int) -> int {
    let e = muldiv(muldiv(JITTER_RATE as int, dt, SCALE as int), cfg.sim_speed as int,
        SCALE as int);
    if e > SCALE {
        SCALE as int
    } else {
        e
    }
}

/// One free-roam step: heading turns straight toward the tracked
/// target, or receives a bounded random jitter when none is tracked;
/// then the agent advances and pays its energy cost.
pub fn free_roam_step(a: &mut Agent, cfg: &Config, dt: i64, w: i64, h: i64)
    requires
        agent_wf(*old(a)),
        cfg.wf(),
        1 <= dt <= MAX_DT,
        1 <= w <= MAX_DIM,
        1 <= h <= MAX_DIM,
    ensures
        agent_wf(*final(a)),
        old(a).target is Some ==> *final(a) == roam_moved(steered(*old(a)), *cfg, dt as int,
            w as int, h as int),
        old(a).target is None ==> exists|s: int|
            -jitter_env(*cfg, dt as int) <= s <= jitter_env(*cfg, dt as int) && *final(a)
                == roam_moved(jittered(*old(a), s), *cfg, dt as int, w as int, h as int),
        -w <= final(a).x <= w,
        -h <= final(a).y <= h,
{
    let ghost a0 = *a;
    let carrying: bool;
    match a.target {
        Some(t) => {
            carrying = true;
            let u: (i64, i64) = normalize_dir(t.x - a.x, t.y - a.y);
            a.dir_x = u.0;
            a.dir_y = u.1;
            proof {
                assert(*a == steered(a0));
            }
        },
        None => {
            carrying = false;
            proof {
                lemma_muldiv_bound(JITTER_RATE as int, dt as int, SCALE as int, JITTER_RATE as int,
                    MAX_DT as int);
                assert(JITTER_RATE * MAX_DT == 600_000_000_000_000) by (nonlinear_arith);
                assert(600_000_000 * 1_000_000 == 600_000_000_000_000) by (nonlinear_arith);
                lemma_div_by_multiple(600_000_000, 1_000_000);
            }
            let e1: u64 = mul_div_u(JITTER_RATE as u64, dt as u64, SCALE as u64);
            proof {
                assert(e1 <= 600_000_000);
                lemma_muldiv_bound(e1 as int, cfg.sim_speed as int, SCALE as int, 600_000_000,
                    MAX_SIM_SPEED as int);
                assert(600_000_000 * MAX_SIM_SPEED == 60_000_000_000_000_000) by (nonlinear_arith);
                assert(60_000_000_000 * 1_000_000 == 60_000_000_000_000_000) by (nonlinear_arith);
                lemma_div_by_multiple(60_000_000_000, 1_000_000);
            }
            let e2: u64 = mul_div_u(e1, cfg.sim_speed as u64, SCALE as u64);
            let env: i64 = if e2 > SCALE as u64 {
                SCALE
            } else {
                e2 as i64
            };
            proof {
                assert(env == jitter_env(*cfg, dt as int));
            }
            let s: i64 = crate::rng::rand_in(-env, env);
            let u: (i64, i64) = rotate_dir(a.dir_x, a.dir_y, s);
            a.dir_x = u.0;
            a.dir_y = u.1;
            proof {
                assert(*a == jittered(a0, s as int));
            }
        },
    }
    let d: u64 = step_distance(cfg, a.speed, dt);
    proof {
        lemma_muldiv_bound(d as int, iabs(a.dir_x as int), SCALE as int, MAX_STEP as int,
            SCALE as int);
        assert(MAX_STEP * SCALE == 10_000_000_000_000_000_000_000) by (nonlinear_arith);
        assert(10_000_000_000_000_000 * 1_000_000 == 10_000_000_000_000_000_000_000)
            by (nonlinear_arith);
        lemma_div_by_multiple(10_000_000_000_000_000, 1_000_000);
        lemma_muldiv_bound(d as int, iabs(a.dir_y as int), SCALE as int, MAX_STEP as int,
            SCALE as int);
        assert(iabs(d as int) == d as int);
        assert(iabs(d as int) * iabs(a.dir_x as int) == d as int * iabs(a.dir_x as int));
        assert(iabs(d as int) * iabs(a.dir_y as int) == d as int * iabs(a.dir_y as int));
    }
    let dx: i64 = mul_div_s(d as i64, a.dir_x, SCALE);
    let dy: i64 = mul_div_s(d as i64, a.dir_y, SCALE);
    proof {
        assert(iabs(dx as int) <= MAX_STEP);
        assert(iabs(dy as int) <= MAX_STEP);
    }
    a.x = wrap_coord(a.x + dx, w);
    a.y = wrap_coord(a.y + dy, h);
    let cost: u64 = roam_cost(cfg, a.speed, dt, d, carrying);
    a.energy = drain(a.energy, cost);
}

/// An agent after one homebound step. The four signed edge distances
/// are taken in the order left, right, bottom, top and the first
/// minimum wins; at or past an edge the agent parks at home, else it
/// walks `step_dist` toward that edge, stopping exactly at it, and
/// pays the cost of the distance actually walked.
pub open spec fn home_stepped(a: Agent, cfg: Config, dt: int, w: int, h: int) -> Agent {
    let left = a.x + w;
    let right = w - a.x;
    let bottom = a.y + h;
    let top = h - a.y;
    let m = imin(imin(left, right), imin(bottom, top));
    if m <= 0 {
        Agent { phase: Phase::Home, ..a }
    } else {
        let d0 = step_dist(cfg, a.speed as int, dt);
        let d = imin(d0, m);
        let e = drained(a.energy as int, move_cost(cfg, a.speed as int, d)) as i64;
        if m == left {
            Agent { x: (a.x - d) as i64, dir_x: (-SCALE) as i64, dir_y: 0, energy: e, ..a }
        } else if m == right {
            Agent { x: (a.x + d) as i64, dir_x: SCALE, dir_y: 0, energy: e, ..a }
        } else if m == bottom {
            Agent { y: (a.y - d) as i64, dir_x: 0, dir_y: (-SCALE) as i64, energy: e, ..a }
        } else {
            Agent { y: (a.y + d) as i64, dir_x: 0, dir_y: SCALE, energy: e, ..a }
        }
    }
}

/// One homebound step, exactly `home_stepped`.
pub fn home_step(a: &mut Agent, cfg: &Config, dt: i64, w: i64, h: i64)
    requires
        agent_wf(*old(a)),
        cfg.wf(),
        1 <= dt <= MAX_DT,
        1 <= w <= MAX_DIM,
        1 <= h <= MAX_DIM,
    ensures
        *final(a) == home_stepped(*old(a), *cfg, dt as int, w as int, h as int),
        agent_wf(*final(a)),
{
    let left: i64 = a.x + w;
    let right: i64 = w - a.x;
    let bottom: i64 = a.y + h;
    let top: i64 = h - a.y;
    let lr: i64 = if left <= right {
        left
    } else {
        right
    };
    let bt: i64 = if bottom <= top {
        bottom
    } else {
        top
    };
    let m: i64 = if lr <= bt {
        lr
    } else {
        bt
    };
    if m <= 0 {
        a.phase = Phase::Home;
    } else {
        let d0: u64 = step_distance(cfg, a.speed, dt);
        let d: i64 = if d0 > m as u64 {
            m
        } else {
            d0 as i64
        };
        let cost: u64 = roam_cost(cfg, a.speed, dt, d as u64, false);
        let e: i64 = drain(a.energy, cost);
        if m == left {
            a.x = a.x - d;
            a.dir_x = -SCALE;
            a.dir_y = 0;
            a.energy = e;
        } else if m == right {
            a.x = a.x + d;
            a.dir_x = SCALE;
            a.dir_y = 0;
            a.energy = e;
        } else if m == bottom {
            a.y = a.y - d;
            a.dir_x = 0;
            a.dir_y = -SCALE;
            a.energy = e;
        } else {
            a.y = a.y + d;
            a.dir_x = 0;
            a.dir_y = SCALE;
            a.energy = e;
        }
    }
}

/// Toroidal wrap at the boundary: an agent standing exactly on the
/// +x edge whose move still points right reappears at the -x edge
/// within the same tick, with no intermediate step outside.
pub proof fn lemma_wrap_at_right_edge(a: Agent, cfg: Config, dt: int, w: int, h: int)
    requires
        1 <= w <= MAX_DIM,
        a.x == w,
        muldiv(step_dist(cfg, a.speed as int, dt), a.dir_x as int, SCALE as int) > 0,
    ensures
        roam_moved(a, cfg, dt, w, h).x == -w,
{
}

/// The homebound tie-break is deterministic: when the left edge ties
/// with any other nearest edge, the agent still walks left.
pub proof fn lemma_homebound_tiebreak(a: Agent, cfg: Config, dt: int, w: int, h: int)
    requires
        agent_wf(a),
        cfg.wf(),
        1 <= dt <= MAX_DT,
        1 <= w <= MAX_DIM,
        1 <= h <= MAX_DIM,
        a.x + w == a.y + h || a.x + w == w - a.x || a.x + w == h - a.y,
        a.x + w <= w - a.x,
        a.x + w <= a.y + h,
        a.x + w <= h - a.y,
        a.x + w > 0,
    ensures
        home_stepped(a, cfg, dt, w, h).y == a.y,
        home_stepped(a, cfg, dt, w, h).x == a.x - imin(step_dist(cfg, a.speed as int, dt),
            a.x + w),
        home_stepped(a, cfg, dt, w, h).dir_x == -SCALE,
        home_stepped(a, cfg, dt, w, h).dir_y == 0,
{
    lemma_step_dist_bounds(cfg, a.speed as int, dt);
}

} // verus!
