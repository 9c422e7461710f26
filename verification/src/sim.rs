//! The simulation: owns the stores and the clock and runs one tick as
//! one fixed ordered pass — clock advance, then (by day) sensing,
//! then movement, then the dawn lifecycle transition at the night
//! boundary, then statistics sampling. A run whose population has
//! reached zero is over: further ticks change nothing.

use vstd::prelude::*;
use crate::agent::Agent;
use crate::agent::Food;
use crate::agent::Phase;
use crate::agent::DEFAULT_SPEED;
use crate::agent::DEFAULT_SENSE;
use crate::agent::MAX_DIM;
use crate::agent::agent_wf;
use crate::agent::food_wf;
use crate::clock::Clock;
use crate::clock::MAX_DT;
use crate::clock::advanced;
use crate::clock::fires_dawn;
use crate::config::Config;
use crate::fixed::SCALE;
use crate::lifecycle::dawn_fresh;
use crate::lifecycle::dawn_rebirth;
use crate::lifecycle::fertile_home;
use crate::lifecycle::home_kept;
use crate::lifecycle::alive_kept;
use crate::lifecycle::lemma_alive_kept_props;
use crate::lifecycle::lemma_home_kept_fresh;
use crate::lifecycle::offspring_of;
use crate::lifecycle::purge_dead;
use crate::lifecycle::redirected;
use crate::lifecycle::respawn_food;
use crate::lifecycle::scatter_headings;
use crate::motion::free_roam_step;
use crate::motion::home_step;
use crate::motion::home_stepped;
use crate::rng::rand_in;
use crate::sense::lemma_uneaten_kept_props;
use crate::sense::scan_all;
use crate::sense::uneaten_kept;
use crate::sense::prune_targets;
use crate::sense::purge_eaten;
use crate::sense::sense_pass;
use crate::stats::Sample;
use crate::stats::sum_sense;
use crate::stats::sum_speed;
use crate::stats::take_sample;

verus! {

/// A whole run: the immutable configuration, the world clock, the
/// agent and food stores, and the statistics time series.
pub struct Simulation {
    pub cfg: Config,
    pub clock: Clock,
    pub agents: Vec<Agent>,
    pub foods: Vec<Food>,
    pub series: Vec<Sample>,
}

/// The return triggers: a fertile roamer turns homebound at once, and
/// by sunset so does any roamer that is no longer hungry.
pub open spec fn return_triggered(a: Agent, sunset: bool) -> Agent {
    if (a.fertile || (sunset && !a.hungry)) && a.phase == Phase::Roaming {
        Agent { phase: Phase::Returning, ..a }
    } else {
        a
    }
}

/// One agent's deterministic share of the movement phase: the return
/// triggers, then — outside the random free roam — the homebound
/// step; home agents stand still, and roamers are frozen by night.
pub open spec fn night_settled(a: Agent, cfg: Config, dt: int, w: int, h: int, sunset: bool)
    -> Agent {
    let b = return_triggered(a, sunset);
    if b.phase == Phase::Returning {
        home_stepped(b, cfg, dt, w, h)
    } else {
        b
    }
}

/// The population as a dawn lifecycle finds it: the tick's
/// deterministic movement phase applied to everyone (a dawn tick has
/// no day phase and its sunset flag is already down), then the
/// energy-dead purged.
pub open spec fn pre_dawn(s: Seq<Agent>, cfg: Config, dt: int, w: int, h: int) -> Seq<Agent> {
    alive_kept(s.map_values(|a: Agent| night_settled(a, cfg, dt, w, h, false)))
}

/// Return triggers and movement for one agent: a fertile roamer, or
/// by sunset any roamer that is no longer hungry, turns homebound;
/// roamers move only by day, homebound agents move every tick, home
/// agents stand still.
fn move_agents(agents: &mut Vec<Agent>, cfg: &Config, dt: i64, w: i64, h: i64, day: bool,
    sunset: bool)
    requires
        cfg.wf(),
        1 <= dt <= MAX_DT,
        1 <= w <= MAX_DIM,
        1 <= h <= MAX_DIM,
        forall|i: int| 0 <= i < old(agents)@.len() ==> agent_wf(#[trigger] old(agents)@[i]),
    ensures
        final(agents)@.len() == old(agents)@.len(),
        forall|i: int| 0 <= i < final(agents)@.len() ==> agent_wf(#[trigger] final(agents)@[i]),
        forall|i: int| 0 <= i < final(agents)@.len() && return_triggered(old(agents)@[i],
            sunset).phase != Phase::Roaming ==> #[trigger] final(agents)@[i] == night_settled(
            old(agents)@[i], *cfg, dt as int, w as int, h as int, sunset),
        !day ==> forall|i: int| 0 <= i < final(agents)@.len() ==> #[trigger] final(agents)@[i]
            == night_settled(old(agents)@[i], *cfg, dt as int, w as int, h as int, sunset),
{
    let n: usize = agents.len();
    let mut i: usize = 0;
    while i < n
        invariant
            0 <= i <= n,
            n == agents@.len(),
            agents@.len() == old(agents)@.len(),
            cfg.wf(),
            1 <= dt <= MAX_DT,
            1 <= w <= MAX_DIM,
            1 <= h <= MAX_DIM,
            forall|k: int| i <= k < n ==> agents@[k] == old(agents)@[k],
            forall|k: int| 0 <= k < old(agents)@.len() ==> agent_wf(#[trigger] old(agents)@[k]),
            forall|k: int| 0 <= k < i ==> agent_wf(#[trigger] agents@[k]),
            forall|k: int| 0 <= k < i && return_triggered(old(agents)@[k], sunset).phase
                != Phase::Roaming ==> #[trigger] agents@[k] == night_settled(old(agents)@[k],
                *cfg, dt as int, w as int, h as int, sunset),
            !day ==> forall|k: int| 0 <= k < i ==> #[trigger] agents@[k] == night_settled(
                old(agents)@[k], *cfg, dt as int, w as int, h as int, sunset),
        decreases n - i,
    {
        let mut a: Agent = agents[i];
        if a.fertile && matches!(a.phase, Phase::Roaming) {
            a.phase = Phase::Returning;
        }
        if sunset && !a.hungry && matches!(a.phase, Phase::Roaming) {
            a.phase = Phase::Returning;
        }
        proof {
            assert(a == return_triggered(old(agents)@[i as int], sunset));
        }
        match a.phase {
            Phase::Roaming => {
                if day {
                    free_roam_step(&mut a, cfg, dt, w, h);
                }
            },
            Phase::Returning => {
                home_step(&mut a, cfg, dt, w, h);
            },
            Phase::Home => {},
        }
        agents[i] = a;
        i = i + 1;
    }
}

impl Simulation {
    /// The stores and the clock respect the world and configuration
    /// bounds.
    pub open spec fn wf(self) -> bool {
        &&& self.cfg.wf()
        &&& self.clock.wf(self.cfg)
        &&& forall|i: int| 0 <= i < self.agents@.len() ==> agent_wf(#[trigger] self.agents@[i])
        &&& forall|i: int| 0 <= i < self.foods@.len() ==> food_wf(#[trigger] self.foods@[i])
    }

    /// The run is over once the population has reached zero.
    pub open spec fn terminated(self) -> bool {
        self.agents@.len() == 0
    }

    /// True once the population has reached zero; no further tick
    /// will change anything.
    pub fn is_terminated(&self) -> (r: bool)
        ensures
            r == self.terminated(),
    {
        self.agents.len() == 0
    }

    /// A fresh run: the seed population at random positions with
    /// random headings and the founding traits, one food batch, a
    /// clock at daybreak, and the first statistics sample.
    pub fn new(cfg: Config, w: i64, h: i64) -> (r: Simulation)
        requires
            cfg.wf(),
            1 <= w <= MAX_DIM,
            1 <= h <= MAX_DIM,
        ensures
            r.wf(),
            r.cfg == cfg,
            r.agents@.len() == cfg.person_count,
            forall|i: int| 0 <= i < r.agents@.len() ==> dawn_fresh(#[trigger] r.agents@[i], cfg)
                && r.agents@[i].speed == DEFAULT_SPEED && r.agents@[i].sense == DEFAULT_SENSE
                && -w <= r.agents@[i].x <= w && -h <= r.agents@[i].y <= h
                && r.agents@[i].target is None,
            r.foods@.len() == cfg.food_count,
            forall|i: int| 0 <= i < r.foods@.len() ==> !(#[trigger] r.foods@[i]).consumed
                && -w <= r.foods@[i].x <= w && -h <= r.foods@[i].y <= h,
            r.clock.elapsed == 0 && !r.clock.sunset && r.clock.day_acc == 0 && r.clock.cycle_acc
                == 0,
            r.series@.len() == 1,
            r.series@[0].time == 0,
            r.series@[0].population == cfg.person_count,
            r.series@[0].food == cfg.food_count,
    {
        let mut agents: Vec<Agent> = Vec::new();
        let n: usize = cfg.person_count;
        let mut i: usize = 0;
        while i < n
            invariant
                0 <= i <= n,
                cfg.wf(),
                1 <= w <= MAX_DIM,
                1 <= h <= MAX_DIM,
                agents@.len() == i,
                forall|k: int| 0 <= k < i ==> agent_wf(#[trigger] agents@[k]),
                forall|k: int| 0 <= k < i ==> dawn_fresh(#[trigger] agents@[k], cfg)
                    && agents@[k].speed == DEFAULT_SPEED && agents@[k].sense == DEFAULT_SENSE
                    && -w <= agents@[k].x <= w && -h <= agents@[k].y <= h
                    && agents@[k].target is None,
            decreases n - i,
        {
            let x: i64 = rand_in(-w, w);
            let y: i64 = rand_in(-h, h);
            agents.push(Agent {
                x,
                y,
                dir_x: SCALE,
                dir_y: 0,
                speed: DEFAULT_SPEED,
                sense: DEFAULT_SENSE,
                energy: cfg.base_energy,
                phase: Phase::Roaming,
                hungry: true,
                fertile: false,
                target: None,
            });
            i = i + 1;
        }
        scatter_headings(&mut agents);
        let mut foods: Vec<Food> = Vec::new();
        respawn_food(&mut foods, &cfg, w, h);
        let clock = Clock::start();
        let mut series: Vec<Sample> = Vec::new();
        take_sample(&agents, &foods, 0, &mut series);
        Simulation { cfg, clock, agents, foods, series }
    }

    /// One tick. The world bounds are re-read on every call. Once the
    /// population is zero the tick changes nothing, so termination is
    /// final. Until dawn the population and the food store only
    /// shrink and the series is untouched; a dawn leaves every agent
    /// dawn-fresh and, if anyone survived, appends exactly one sample
    /// of the final state.
    pub fn tick(&mut self, dt: i64, w: i64, h: i64)
        requires
            old(self).wf(),
            1 <= dt <= MAX_DT,
            1 <= w <= MAX_DIM,
            1 <= h <= MAX_DIM,
        ensures
            final(self).wf(),
            final(self).cfg == old(self).cfg,
            old(self).terminated() ==> *final(self) == *old(self),
            !old(self).terminated() ==> final(self).clock == advanced(old(self).clock,
                old(self).cfg, dt as int),
            final(self).series@.len() >= old(self).series@.len(),
            forall|i: int| 0 <= i < old(self).series@.len() ==> final(self).series@[i] == old(
                self).series@[i],
            !old(self).terminated() && !fires_dawn(old(self).clock, old(self).cfg, dt as int)
                ==> final(self).agents@.len() <= old(self).agents@.len() && final(
                self).foods@.len() <= old(self).foods@.len() && final(self).series@ == old(
                self).series@,
            !old(self).terminated() && !fires_dawn(old(self).clock, old(self).cfg, dt as int)
                && advanced(old(self).clock, old(self).cfg, dt as int).sunset ==> final(
                self).foods@ == old(self).foods@ && final(self).agents@ == alive_kept(
                old(self).agents@.map_values(
                    |a: Agent|
                        night_settled(a, old(self).cfg, dt as int, w as int, h as int, true),
                )),
            !old(self).terminated() && !fires_dawn(old(self).clock, old(self).cfg, dt as int)
                && !advanced(old(self).clock, old(self).cfg, dt as int).sunset ==> final(
                self).foods@ == uneaten_kept(scan_all(old(self).agents@, old(self).foods@, 0).1),
            !old(self).terminated() && fires_dawn(old(self).clock, old(self).cfg, dt as int)
                ==> forall|i: int| 0 <= i < final(self).agents@.len() ==> dawn_fresh(
                #[trigger] final(self).agents@[i], old(self).cfg),
            !old(self).terminated() && fires_dawn(old(self).clock, old(self).cfg, dt as int)
                ==> ({
                let mid = pre_dawn(old(self).agents@, old(self).cfg, dt as int, w as int,
                    h as int);
                &&& final(self).agents@.len() == home_kept(mid, old(self).cfg).len()
                    + fertile_home(mid).len()
                &&& forall|i: int| 0 <= i < home_kept(mid, old(self).cfg).len() ==> redirected(
                    home_kept(mid, old(self).cfg)[i], #[trigger] final(self).agents@[i])
                &&& forall|j: int| 0 <= j < fertile_home(mid).len() ==> offspring_of(
                    #[trigger] final(self).agents@[home_kept(mid, old(self).cfg).len() + j],
                    fertile_home(mid)[j], old(self).cfg)
            }),
            !old(self).terminated() && fires_dawn(old(self).clock, old(self).cfg, dt as int)
                && !final(self).terminated() ==> final(self).series@.len() == old(
                self).series@.len() + 1 && final(self).series@.last() == (Sample {
                time: final(self).clock.elapsed,
                population: final(self).agents.len(),
                food: final(self).foods.len(),
                avg_speed: #[verifier::truncate] ((sum_speed(final(self).agents@) / final(
                    self).agents@.len() as int) as i64),
                avg_sense: #[verifier::truncate] ((sum_sense(final(self).agents@) / final(
                    self).agents@.len() as int) as i64),
            }),
            !old(self).terminated() && fires_dawn(old(self).clock, old(self).cfg, dt as int)
                && final(self).terminated() ==> final(self).series@ == old(self).series@,
    {
        if self.agents.len() == 0 {
            return ;
        }
        let cfg: Config = self.cfg;
        let boundary: (bool, bool) = self.clock.advance(&cfg, dt);
        let dawn: bool = boundary.1;
        let day: bool = !self.clock.sunset && !dawn;
        if day {
            sense_pass(&mut self.agents, &mut self.foods);
            prune_targets(&mut self.agents, &self.foods);
            proof {
                lemma_uneaten_kept_props(self.foods@);
            }
            purge_eaten(&mut self.foods);
        }
        let sunset_now: bool = self.clock.sunset;
        let ghost pre_move = self.agents@;
        move_agents(&mut self.agents, &cfg, dt, w, h, day, sunset_now);
        proof {
            if !day && sunset_now {
                assert(self.agents@ =~= pre_move.map_values(
                    |a: Agent| night_settled(a, cfg, dt as int, w as int, h as int, true),
                ));
            }
            if dawn {
                assert(self.agents@ =~= pre_move.map_values(
                    |a: Agent| night_settled(a, cfg, dt as int, w as int, h as int, false),
                ));
            }
            lemma_alive_kept_props(self.agents@);
        }
        purge_dead(&mut self.agents);
        if dawn {
            proof {
                lemma_home_kept_fresh(self.agents@, cfg);
                assert(self.agents@ == pre_dawn(old(self).agents@, cfg, dt as int, w as int,
                h as int));
            }
            let ghost before = self.agents@;
            dawn_rebirth(&mut self.agents, &cfg);
            proof {
                assert forall|i: int| 0 <= i < self.agents@.len() implies dawn_fresh(
                    #[trigger] self.agents@[i], cfg) by {
                    let hk = home_kept(before, cfg);
                    if i >= hk.len() {
                        let j = i - hk.len();
                        assert(self.agents@[hk.len() + j] == self.agents@[i]);
                        assert(offspring_of(self.agents@[hk.len() + j], fertile_home(before)[j],
                        cfg));
                    }
                }
            }
            let ghost reborn = self.agents@;
            respawn_food(&mut self.foods, &cfg, w, h);
            scatter_headings(&mut self.agents);
            proof {
                let hk = home_kept(before, cfg);
                let fh = fertile_home(before);
                assert forall|i: int| 0 <= i < hk.len() implies redirected(hk[i],
                    #[trigger] self.agents@[i]) by {
                    assert(redirected(reborn[i], self.agents@[i]));
                    assert(reborn[i] == hk[i]);
                }
                assert forall|j: int| 0 <= j < fh.len() implies offspring_of(
                    #[trigger] self.agents@[hk.len() + j], fh[j], cfg) by {
                    let k = hk.len() + j;
                    assert(redirected(reborn[k], self.agents@[k]));
                    assert(offspring_of(reborn[k], fh[j], cfg));
                }
            }
            if self.agents.len() > 0 {
                let now: i64 = self.clock.elapsed;
                take_sample(&self.agents, &self.foods, now, &mut self.series);
            }
        }
    }
}

} // verus!
