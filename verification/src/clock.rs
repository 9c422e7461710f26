//! The world clock: two cooperating interval timers drive the
//! day/night cycle. The day timer ticks only while it is day and
//! fires dusk; the cycle timer ticks unconditionally, has period
//! `day_length + night_length`, and fires dawn.

use vstd::prelude::*;
use vstd::arithmetic::div_mod::lemma_mod_bound;
use vstd::arithmetic::div_mod::lemma_div_is_ordered;
use crate::fixed::SCALE;
use crate::fixed::muldiv;
use crate::config::Config;
use crate::config::MAX_SIM_SPEED;

verus! {

/// Largest accepted frame delta (100 seconds of real time).
pub const MAX_DT: i64 = 100_000_000;

/// Cap at which the elapsed-time counter saturates.
pub const ELAPSED_CAP: i64 = 1_000_000_000_000_000_000;

/// Elapsed simulated time and the state of the two timers.
#[derive(Clone, Copy)]
pub struct Clock {
    /// Simulated seconds since the run started, saturating at
    /// `ELAPSED_CAP`.
    pub elapsed: i64,
    /// True between dusk and the following dawn.
    pub sunset: bool,
    /// Progress of the day timer within `[0, day_length)`.
    pub day_acc: i64,
    /// Progress of the cycle timer within
    /// `[0, day_length + night_length)`.
    pub cycle_acc: i64,
}

/// The simulated time that a frame delta advances: the delta scaled
/// by the simulation-speed multiplier.
pub open spec fn eff_delta(cfg: Config, dt: int) -> int {
    muldiv(dt, cfg.sim_speed as int, SCALE as int)
}

/// Dusk fires when the day timer, enabled only by day, completes.
pub open spec fn fires_dusk(c: Clock, cfg: Config, dt: int) -> bool {
    !c.sunset && c.day_acc + eff_delta(cfg, dt) >= cfg.day_length
}

/// Dawn fires when the cycle timer completes.
pub open spec fn fires_dawn(c: Clock, cfg: Config, dt: int) -> bool {
    c.cycle_acc + eff_delta(cfg, dt) >= cfg.day_length + cfg.night_length
}

/// The clock after one advance: both timers tick (the day timer only
/// by day), a completed cycle timer restarts keeping its overshoot,
/// dusk raises the sunset flag, and dawn clears it and restarts the
/// day timer for the fresh day.
pub open spec fn advanced(c: Clock, cfg: Config, dt: int) -> Clock {
    let eff = eff_delta(cfg, dt);
    let day_acc = if fires_dawn(c, cfg, dt) {
        0int
    } else if c.sunset {
        c.day_acc as int
    } else if c.day_acc + eff >= cfg.day_length {
        (c.day_acc + eff) % (cfg.day_length as int)
    } else {
        c.day_acc + eff
    };
    let cycle: int = cfg.day_length + cfg.night_length;
    let cycle_acc = if c.cycle_acc + eff >= cycle {
        (c.cycle_acc + eff) % cycle
    } else {
        c.cycle_acc + eff
    };
    let sunset = if fires_dawn(c, cfg, dt) {
        false
    } else if fires_dusk(c, cfg, dt) {
        true
    } else {
        c.sunset
    };
    Clock {
        elapsed: if c.elapsed + eff > ELAPSED_CAP {
            ELAPSED_CAP
        } else {
            (c.elapsed + eff) as i64
        },
        sunset,
        day_acc: day_acc as i64,
        cycle_acc: cycle_acc as i64,
    }
}

impl Clock {
    /// Timer progress stays inside the periods given by `cfg`.
    pub open spec fn wf(self, cfg: Config) -> bool {
        &&& 0 <= self.elapsed <= ELAPSED_CAP
        &&& 0 <= self.day_acc < cfg.day_length
        &&& 0 <= self.cycle_acc < cfg.day_length + cfg.night_length
    }

    /// A clock at the break of a fresh day.
    pub fn start() -> (r: Clock)
        ensures
            r.elapsed == 0,
            !r.sunset,
            r.day_acc == 0,
            r.cycle_acc == 0,
    {
        Clock { elapsed: 0, sunset: false, day_acc: 0, cycle_acc: 0 }
    }

    /// Ticks both timers by the frame delta `dt` and reports
    /// `(dusk, dawn)`.
    pub fn advance(&mut self, cfg: &Config, dt: i64) -> (r: (bool, bool))
        requires
            old(self).wf(*cfg),
            cfg.wf(),
            1 <= dt <= MAX_DT,
        ensures
            *final(self) == advanced(*old(self), *cfg, dt as int),
            final(self).wf(*cfg),
            r.0 == fires_dusk(*old(self), *cfg, dt as int),
            r.1 == fires_dawn(*old(self), *cfg, dt as int),
    {
        proof {
            assert(dt as int * cfg.sim_speed as int <= MAX_DT * MAX_SIM_SPEED
                && dt as int * cfg.sim_speed as int >= 0) by (nonlinear_arith)
                requires
                    1 <= dt <= MAX_DT && 1 <= cfg.sim_speed <= MAX_SIM_SPEED,
            ;
            assert(MAX_DT * MAX_SIM_SPEED == 10_000_000_000_000_000) by (nonlinear_arith);
            lemma_div_is_ordered(
                dt as int * cfg.sim_speed as int,
                10_000_000_000_000_000,
                SCALE as int,
            );
            lemma_div_is_ordered(0, dt as int * cfg.sim_speed as int, SCALE as int);
        }
        let eff64: u64 = crate::fixed::mul_div_u(dt as u64, cfg.sim_speed as u64, SCALE as u64);
        let eff: i64 = eff64 as i64;
        proof {
            assert(eff == eff_delta(*cfg, dt as int));
            assert(eff <= 10_000_000_000);
        }
        let mut dusk: bool = false;
        let mut dawn: bool = false;
        if !self.sunset {
            let nd: i64 = self.day_acc + eff;
            if nd >= cfg.day_length {
                dusk = true;
                self.sunset = true;
                self.day_acc = ((nd as u64) % (cfg.day_length as u64)) as i64;
                proof {
                    lemma_mod_bound(nd as int, cfg.day_length as int);
                }
            } else {
                self.day_acc = nd;
            }
        }
        let cycle: i64 = cfg.day_length + cfg.night_length;
        let nc: i64 = self.cycle_acc + eff;
        if nc >= cycle {
            dawn = true;
            self.sunset = false;
            self.day_acc = 0;
            self.cycle_acc = ((nc as u64) % (cycle as u64)) as i64;
            proof {
                lemma_mod_bound(nc as int, cycle as int);
            }
        } else {
            self.cycle_acc = nc;
        }
        if self.elapsed > ELAPSED_CAP - eff {
            self.elapsed = ELAPSED_CAP;
        } else {
            self.elapsed = self.elapsed + eff;
        }
        (dusk, dawn)
    }
}

} // verus!
