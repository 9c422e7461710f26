//! The lifecycle engine: trait mutation, the dawn transition that
//! culls, renews and reproduces, the dawn food respawn, heading
//! randomization, and the purge of agents that ran out of energy.

use vstd::prelude::*;
use vstd::arithmetic::div_mod::lemma_div_by_multiple;
use crate::fixed::SCALE;
use crate::fixed::iabs;
use crate::fixed::muldiv;
use crate::fixed::mul_div_s;
use crate::fixed::lemma_muldiv_bound;
use crate::fixed::lemma_muldiv_ordered;
use crate::agent::Agent;
use crate::agent::Food;
use crate::agent::Phase;
use crate::agent::MAX_DIM;
use crate::agent::MAX_TRAIT;
use crate::agent::agent_wf;
use crate::agent::food_wf;
use crate::agent::trait_ok;
use crate::config::Config;
use crate::geom::normalize_dir;
use crate::rng::rand_in;

verus! {

/// A trait value pushed back into the accepted band.
pub open spec fn clamp_trait(t: int) -> int {
    if t < 1 {
        1
    } else if t > MAX_TRAIT {
        MAX_TRAIT as int
    } else {
        t
    }
}

/// Lowest trait a mutation of `parent` can produce.
pub open spec fn mut_lo(parent: int, intensity: int) -> int {
    clamp_trait(muldiv(parent, SCALE - intensity, SCALE as int))
}

/// Highest trait a mutation of `parent` can produce.
pub open spec fn mut_hi(parent: int, intensity: int) -> int {
    clamp_trait(muldiv(parent, SCALE + intensity, SCALE as int))
}

/// One mutated copy of a parent trait: the parent scaled by a random
/// relative perturbation of at most `intensity`, and never pushed to
/// zero or below. Every outcome lies in `[mut_lo, mut_hi]`.
pub fn mutate_trait(parent: i64, intensity: i64) -> (r: i64)
    requires
        trait_ok(parent),
        1 <= intensity <= SCALE,
    ensures
        trait_ok(r),
        mut_lo(parent as int, intensity as int) <= r <= mut_hi(parent as int, intensity as int),
{
    let u: i64 = rand_in(-SCALE, SCALE);
    proof {
        lemma_muldiv_bound(iabs(u as int), intensity as int, SCALE as int, SCALE as int,
            SCALE as int);
        assert(SCALE * SCALE == 1_000_000_000_000) by (nonlinear_arith);
        assert(1_000_000 * 1_000_000 == 1_000_000_000_000) by (nonlinear_arith);
        lemma_div_by_multiple(1_000_000, 1_000_000);
        assert(iabs(u as int) * (intensity as int) <= SCALE * intensity) by (nonlinear_arith)
            requires
                0 <= iabs(u as int) <= SCALE && 0 <= intensity,
        ;
        assert(SCALE * intensity == intensity * SCALE) by (nonlinear_arith);
        lemma_div_by_multiple(intensity as int, SCALE as int);
        vstd::arithmetic::div_mod::lemma_div_is_ordered(iabs(u as int) * (intensity as int),
            (intensity as int) * SCALE, SCALE as int);
    }
    let delta: i64 = mul_div_s(u, intensity, SCALE);
    proof {
        assert(iabs(delta as int) <= intensity);
    }
    let factor: i64 = SCALE + delta;
    proof {
        lemma_muldiv_bound(parent as int, factor as int, SCALE as int, MAX_TRAIT as int,
            2 * SCALE as int);
        assert(MAX_TRAIT * (2 * SCALE) == 2_000_000_000_000_000) by (nonlinear_arith);
        assert(2_000_000_000 * 1_000_000 == 2_000_000_000_000_000) by (nonlinear_arith);
        lemma_div_by_multiple(2_000_000_000, 1_000_000);
        assert(iabs(parent as int) == parent as int);
        assert(iabs(factor as int) == factor as int);
        assert(iabs(parent as int) * iabs(factor as int) == parent as int * factor as int);
        lemma_muldiv_ordered(parent as int, SCALE - intensity, factor as int, SCALE as int);
        lemma_muldiv_ordered(parent as int, factor as int, SCALE + intensity, SCALE as int);
    }
    let raw: i64 = mul_div_s(parent, factor, SCALE);
    if raw < 1 {
        1
    } else if raw > MAX_TRAIT {
        MAX_TRAIT
    } else {
        raw
    }
}

/// A home agent as dawn renews it: energy restored to base, hungry
/// again, fertility spent, back to free roam.
pub open spec fn renewed(a: Agent, cfg: Config) -> Agent {
    Agent {
        energy: cfg.base_energy,
        hungry: true,
        fertile: false,
        phase: Phase::Roaming,
        ..a
    }
}

/// The agents that reached home, renewed, in their original order:
/// everyone else is culled at dawn.
pub open spec fn home_kept(s: Seq<Agent>, cfg: Config) -> Seq<Agent>
    decreases s.len(),
{
    if s.len() == 0 {
        Seq::empty()
    } else {
        let r = home_kept(s.drop_last(), cfg);
        if s.last().phase == Phase::Home {
            r.push(renewed(s.last(), cfg))
        } else {
            r
        }
    }
}

/// The agents that reached home fertile, in their original order:
/// each one leaves one offspring at dawn.
pub open spec fn fertile_home(s: Seq<Agent>) -> Seq<Agent>
    decreases s.len(),
{
    if s.len() == 0 {
        Seq::empty()
    } else {
        let r = fertile_home(s.drop_last());
        if s.last().phase == Phase::Home && s.last().fertile {
            r.push(s.last())
        } else {
            r
        }
    }
}

/// What dawn leaves behind: every agent, renewed or newborn, starts
/// the day hungry, infertile, roaming, with base energy.
pub open spec fn dawn_fresh(a: Agent, cfg: Config) -> bool {
    &&& a.hungry
    &&& !a.fertile
    &&& a.phase == Phase::Roaming
    &&& a.energy == cfg.base_energy
}

/// Every renewed survivor is dawn-fresh, and no more agents survive
/// or reproduce than there were.
pub proof fn lemma_home_kept_fresh(s: Seq<Agent>, cfg: Config)
    ensures
        home_kept(s, cfg).len() <= s.len(),
        fertile_home(s).len() <= s.len(),
        forall|i: int| 0 <= i < home_kept(s, cfg).len() ==> dawn_fresh(
            #[trigger] home_kept(s, cfg)[i], cfg),
    decreases s.len(),
{
    if s.len() == 0 {
    } else {
        lemma_home_kept_fresh(s.drop_last(), cfg);
    }
}

/// The energy purge never adds an agent, keeps only agents with
/// energy left, and keeps them as they were.
pub proof fn lemma_alive_kept_props(s: Seq<Agent>)
    requires
        forall|i: int| 0 <= i < s.len() ==> agent_wf(#[trigger] s[i]),
    ensures
        alive_kept(s).len() <= s.len(),
        forall|i: int| 0 <= i < alive_kept(s).len() ==> (#[trigger] alive_kept(s)[i]).energy > 0,
        forall|i: int| 0 <= i < alive_kept(s).len() ==> agent_wf(#[trigger] alive_kept(s)[i]),
    decreases s.len(),
{
    if s.len() == 0 {
    } else {
        lemma_alive_kept_props(s.drop_last());
    }
}

/// What an offspring owes its parent: the parent's position, traits
/// inside the mutation envelope, and a fresh hungry start.
pub open spec fn offspring_of(c: Agent, p: Agent, cfg: Config) -> bool {
    &&& c.x == p.x
    &&& c.y == p.y
    &&& mut_lo(p.speed as int, cfg.trait_change_intensity as int) <= c.speed <= mut_hi(
        p.speed as int, cfg.trait_change_intensity as int)
    &&& mut_lo(p.sense as int, cfg.trait_change_intensity as int) <= c.sense <= mut_hi(
        p.sense as int, cfg.trait_change_intensity as int)
    &&& c.energy == cfg.base_energy
    &&& c.hungry
    &&& !c.fertile
    &&& c.phase == Phase::Roaming
    &&& c.target is None
}

/// The dawn transition over the agent store: agents away from home
/// are culled; home agents are renewed in place; each fertile home
/// agent additionally leaves one offspring, appended after the
/// survivors in the parents' order.
pub fn dawn_rebirth(agents: &mut Vec<Agent>, cfg: &Config)
    requires
        cfg.wf(),
        forall|i: int| 0 <= i < old(agents)@.len() ==> agent_wf(#[trigger] old(agents)@[i]),
    ensures
        final(agents)@.len() == home_kept(old(agents)@, *cfg).len() + fertile_home(
            old(agents)@).len(),
        forall|i: int| 0 <= i < home_kept(old(agents)@, *cfg).len() ==> final(agents)@[i]
            == home_kept(old(agents)@, *cfg)[i],
        forall|j: int| 0 <= j < fertile_home(old(agents)@).len() ==> offspring_of(
            #[trigger] final(agents)@[home_kept(old(agents)@, *cfg).len() + j],
            fertile_home(old(agents)@)[j], *cfg),
        forall|i: int| 0 <= i < final(agents)@.len() ==> agent_wf(#[trigger] final(agents)@[i]),
{
    let ghost s = agents@;
    let mut out: Vec<Agent> = Vec::new();
    let mut kids: Vec<Agent> = Vec::new();
    let n: usize = agents.len();
    let mut i: usize = 0;
    while i < n
        invariant
            n == s.len(),
            agents@ == s,
            0 <= i <= n,
            cfg.wf(),
            forall|k: int| 0 <= k < s.len() ==> agent_wf(#[trigger] s[k]),
            out@ == home_kept(s.take(i as int), *cfg),
            kids@.len() == fertile_home(s.take(i as int)).len(),
            forall|j: int| 0 <= j < kids@.len() ==> offspring_of(#[trigger] kids@[j],
                fertile_home(s.take(i as int))[j], *cfg),
            forall|k: int| 0 <= k < out@.len() ==> agent_wf(#[trigger] out@[k]),
            forall|k: int| 0 <= k < kids@.len() ==> agent_wf(#[trigger] kids@[k]),
        decreases n - i,
    {
        let a: Agent = agents[i];
        proof {
            assert(s.take(i + 1).drop_last() =~= s.take(i as int));
            assert(s.take(i + 1).last() == s[i as int]);
        }
        if matches!(a.phase, Phase::Home) {
            if a.fertile {
                let child = Agent {
                    x: a.x,
                    y: a.y,
                    dir_x: a.dir_x,
                    dir_y: a.dir_y,
                    speed: mutate_trait(a.speed, cfg.trait_change_intensity),
                    sense: mutate_trait(a.sense, cfg.trait_change_intensity),
                    energy: cfg.base_energy,
                    phase: Phase::Roaming,
                    hungry: true,
                    fertile: false,
                    target: None,
                };
                kids.push(child);
            }
            let re = Agent {
                energy: cfg.base_energy,
                hungry: true,
                fertile: false,
                phase: Phase::Roaming,
                ..a
            };
            out.push(re);
        }
        i = i + 1;
    }
    proof {
        assert(s.take(n as int) =~= s);
    }
    out.append(&mut kids);
    *agents = out;
}

/// Adds one dawn batch of food at random in-bounds positions; the
/// items already in the store are untouched.
pub fn respawn_food(foods: &mut Vec<Food>, cfg: &Config, w: i64, h: i64)
    requires
        cfg.wf(),
        1 <= w <= MAX_DIM,
        1 <= h <= MAX_DIM,
    ensures
        final(foods)@.len() == old(foods)@.len() + cfg.food_count,
        forall|i: int| 0 <= i < old(foods)@.len() ==> final(foods)@[i] == old(foods)@[i],
        forall|i: int| old(foods)@.len() <= i < final(foods)@.len() ==> food_wf(
            #[trigger] final(foods)@[i]) && !final(foods)@[i].consumed && -w <= final(
            foods)@[i].x <= w && -h <= final(foods)@[i].y <= h,
{
    let n: usize = cfg.food_count;
    let mut i: usize = 0;
    while i < n
        invariant
            0 <= i <= n,
            1 <= w <= MAX_DIM,
            1 <= h <= MAX_DIM,
            foods@.len() == old(foods)@.len() + i,
            forall|k: int| 0 <= k < old(foods)@.len() ==> foods@[k] == old(foods)@[k],
            forall|k: int| old(foods)@.len() <= k < foods@.len() ==> food_wf(#[trigger] foods@[k])
                && !foods@[k].consumed && -w <= foods@[k].x <= w && -h <= foods@[k].y <= h,
        decreases n - i,
    {
        let fx: i64 = rand_in(-w, w);
        let fy: i64 = rand_in(-h, h);
        foods.push(Food { x: fx, y: fy, consumed: false });
        i = i + 1;
    }
}

/// `b` is `a` with only its heading replaced, the new heading again
/// bounded by a fixed-point unit.
pub open spec fn redirected(a: Agent, b: Agent) -> bool {
    &&& b == (Agent { dir_x: b.dir_x, dir_y: b.dir_y, ..a })
    &&& -SCALE <= b.dir_x <= SCALE
    &&& -SCALE <= b.dir_y <= SCALE
}

/// Gives every agent a fresh random heading; nothing else changes.
pub fn scatter_headings(agents: &mut Vec<Agent>)
    requires
        forall|i: int| 0 <= i < old(agents)@.len() ==> agent_wf(#[trigger] old(agents)@[i]),
    ensures
        final(agents)@.len() == old(agents)@.len(),
        forall|i: int| 0 <= i < final(agents)@.len() ==> redirected(old(agents)@[i],
            #[trigger] final(agents)@[i]),
        forall|i: int| 0 <= i < final(agents)@.len() ==> agent_wf(#[trigger] final(agents)@[i]),
{
    let n: usize = agents.len();
    let mut i: usize = 0;
    while i < n
        invariant
            0 <= i <= n,
            n == agents@.len(),
            agents@.len() == old(agents)@.len(),
            forall|k: int| i <= k < n ==> agents@[k] == old(agents)@[k],
            forall|k: int| 0 <= k < n ==> agent_wf(#[trigger] old(agents)@[k]),
            forall|k: int| 0 <= k < i ==> redirected(old(agents)@[k], #[trigger] agents@[k]),
            forall|k: int| 0 <= k < i ==> agent_wf(#[trigger] agents@[k]),
        decreases n - i,
    {
        let u: i64 = rand_in(-SCALE, SCALE);
        let v: i64 = rand_in(-SCALE, SCALE);
        let d: (i64, i64) = normalize_dir(u, v);
        let a = &mut agents[i];
        a.dir_x = d.0;
        a.dir_y = d.1;
        i = i + 1;
    }
}

/// The agents that still have energy, in their original order: the
/// rest died this tick and are purged before the next tick begins.
pub open spec fn alive_kept(s: Seq<Agent>) -> Seq<Agent>
    decreases s.len(),
{
    if s.len() == 0 {
        Seq::empty()
    } else {
        let r = alive_kept(s.drop_last());
        if s.last().energy > 0 {
            r.push(s.last())
        } else {
            r
        }
    }
}

/// Removes every agent whose energy is no longer positive.
pub fn purge_dead(agents: &mut Vec<Agent>)
    ensures
        final(agents)@ == alive_kept(old(agents)@),
{
    let ghost s = agents@;
    let mut out: Vec<Agent> = Vec::new();
    let n: usize = agents.len();
    let mut i: usize = 0;
    while i < n
        invariant
            n == s.len(),
            agents@ == s,
            0 <= i <= n,
            out@ == alive_kept(s.take(i as int)),
        decreases n - i,
    {
        let a: Agent = agents[i];
        proof {
            assert(s.take(i + 1).drop_last() =~= s.take(i as int));
            assert(s.take(i + 1).last() == s[i as int]);
        }
        if a.energy > 0 {
            out.push(a);
        }
        i = i + 1;
    }
    proof {
        assert(s.take(n as int) =~= s);
    }
    *agents = out;
}

} // verus!
