//! The statistics collector: one sample per simulation start and per
//! dawn, appended to an ordered time series that a charting
//! collaborator may read but never write.

use vstd::prelude::*;
use vstd::arithmetic::div_mod::lemma_div_is_ordered;
use vstd::arithmetic::div_mod::lemma_div_by_multiple;
use crate::agent::Agent;
use crate::agent::Food;
use crate::agent::MAX_TRAIT;
use crate::agent::agent_wf;

verus! {

/// One aggregate snapshot of the population.
#[derive(Clone, Copy)]
pub struct Sample {
    /// Simulated time at which the sample was taken.
    pub time: i64,
    /// Number of live agents.
    pub population: usize,
    /// Number of live food items.
    pub food: usize,
    /// Population average of the speed trait, rounded down.
    pub avg_speed: i64,
    /// Population average of the sensing trait, rounded down.
    pub avg_sense: i64,
}

/// Sum of the speed traits.
pub open spec fn sum_speed(s: Seq<Agent>) -> int
    decreases s.len(),
{
    if s.len() == 0 {
        0
    } else {
        sum_speed(s.drop_last()) + s.last().speed
    }
}

/// Sum of the sensing traits.
pub open spec fn sum_sense(s: Seq<Agent>) -> int
    decreases s.len(),
{
    if s.len() == 0 {
        0
    } else {
        sum_sense(s.drop_last()) + s.last().sense
    }
}

/// Trait sums of a well-formed population lie between zero and the
/// population times the trait cap.
pub proof fn lemma_trait_sums_bounded(s: Seq<Agent>)
    requires
        forall|i: int| 0 <= i < s.len() ==> agent_wf(#[trigger] s[i]),
    ensures
        0 <= sum_speed(s) <= s.len() * MAX_TRAIT,
        0 <= sum_sense(s) <= s.len() * MAX_TRAIT,
    decreases s.len(),
{
    if s.len() == 0 {
    } else {
        lemma_trait_sums_bounded(s.drop_last());
        assert((s.len() - 1) * MAX_TRAIT + MAX_TRAIT == s.len() * MAX_TRAIT) by (nonlinear_arith);
    }
}

/// Appends one sample: the live counts, the timestamp, and the exact
/// rounded-down trait averages. The population must be counted
/// before calling: an empty population signals termination instead
/// of a division by zero.
pub fn take_sample(
    agents: &Vec<Agent>,
    foods: &Vec<Food>,
    now: i64,
    series: &mut Vec<Sample>,
)
    requires
        agents@.len() >= 1,
        forall|i: int| 0 <= i < agents@.len() ==> agent_wf(#[trigger] agents@[i]),
    ensures
        final(series)@.len() == old(series)@.len() + 1,
        forall|i: int| 0 <= i < old(series)@.len() ==> final(series)@[i] == old(series)@[i],
        final(series)@.last() == (Sample {
            time: now,
            population: agents.len(),
            food: foods.len(),
            avg_speed: (sum_speed(agents@) / agents@.len() as int) as i64,
            avg_sense: (sum_sense(agents@) / agents@.len() as int) as i64,
        }),
{
    let ghost s = agents@;
    let n: usize = agents.len();
    let mut acc_speed: u128 = 0;
    let mut acc_sense: u128 = 0;
    let mut i: usize = 0;
    while i < n
        invariant
            0 <= i <= n,
            n == s.len(),
            agents@ == s,
            forall|k: int| 0 <= k < s.len() ==> agent_wf(#[trigger] s[k]),
            acc_speed == sum_speed(s.take(i as int)),
            acc_sense == sum_sense(s.take(i as int)),
            acc_speed <= i as int * MAX_TRAIT,
            acc_sense <= i as int * MAX_TRAIT,
        decreases n - i,
    {
        let a: Agent = agents[i];
        proof {
            assert(s.take(i + 1).drop_last() =~= s.take(i as int));
            assert(s.take(i + 1).last() == s[i as int]);
            assert(i as int * MAX_TRAIT + MAX_TRAIT == (i + 1) as int * MAX_TRAIT)
                by (nonlinear_arith);
            assert(n as int * MAX_TRAIT <= 0xffff_ffff_ffff_ffff * 1_000_000_000)
                by (nonlinear_arith)
                requires
                    0 <= n <= 0xffff_ffff_ffff_ffff && MAX_TRAIT == 1_000_000_000,
            ;
        }
        acc_speed = acc_speed + (a.speed as u128);
        acc_sense = acc_sense + (a.sense as u128);
        i = i + 1;
    }
    proof {
        assert(s.take(n as int) =~= s);
        lemma_trait_sums_bounded(s);
        lemma_div_is_ordered(sum_speed(s), s.len() as int * MAX_TRAIT, s.len() as int);
        lemma_div_is_ordered(sum_sense(s), s.len() as int * MAX_TRAIT, s.len() as int);
        lemma_div_is_ordered(0, sum_speed(s), s.len() as int);
        lemma_div_is_ordered(0, sum_sense(s), s.len() as int);
        assert(s.len() as int * MAX_TRAIT == MAX_TRAIT * s.len() as int) by (nonlinear_arith);
        lemma_div_by_multiple(MAX_TRAIT as int, s.len() as int);
    }
    let avg_speed: i64 = (acc_speed / (n as u128)) as i64;
    let avg_sense: i64 = (acc_sense / (n as u128)) as i64;
    series.push(Sample { time: now, population: n, food: foods.len(), avg_speed, avg_sense });
}

} // verus!
