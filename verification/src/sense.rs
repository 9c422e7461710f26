//! The sensing engine: each live, non-fertile agent scans the live,
//! unconsumed food in store order. Food within the contact radius is
//! consumed — at most once per item, whoever scans it first — and
//! feeds the agent's lifecycle; food within the sensing range becomes
//! the tracked target under the replace-on-not-less-than rule; a
//! tracked item found out of range is dropped. Targets whose item is
//! gone are pruned, and consumed items leave the store at the end of
//! the pass.

use vstd::prelude::*;
use vstd::arithmetic::mul::lemma_mul_upper_bound;
use crate::agent::Agent;
use crate::agent::Food;
use crate::agent::Target;
use crate::agent::MAX_TRAIT;
use crate::agent::agent_wf;
use crate::agent::food_wf;
use crate::agent::dist_sq;
use crate::agent::dist_sq_between;

verus! {

/// Contact radius: the distance at or under which food is eaten
/// rather than pursued (45 units).
pub const CONTACT_RADIUS: u64 = 45_000_000;

/// The contact radius squared, for comparison with squared distances.
pub const CONTACT_SQ: u64 = CONTACT_RADIUS * CONTACT_RADIUS;

/// Eating feeds the lifecycle: the first food of the day clears
/// hunger only; any further food makes the agent fertile.
pub open spec fn fed(a: Agent) -> Agent {
    if a.hungry {
        Agent { hungry: false, ..a }
    } else {
        Agent { fertile: true, ..a }
    }
}

/// Target adoption: a perceptible food item becomes the tracked
/// target when none is tracked, or when its distance is not less
/// than the tracked one's adoption distance.
pub open spec fn retargeted(a: Agent, f: Food, d2: int) -> Agent {
    match a.target {
        None => Agent { target: Some(Target { x: f.x, y: f.y, dist_sq: d2 as u64 }), ..a },
        Some(t) => if d2 >= t.dist_sq {
            Agent { target: Some(Target { x: f.x, y: f.y, dist_sq: d2 as u64 }), ..a }
        } else {
            a
        },
    }
}

/// One agent scanning the food store from index `j` on: consumed
/// items are invisible, contact eats, perceptible items contend for
/// the target, and an out-of-range item that is the tracked target
/// clears it. A fertile agent does not sense.
pub open spec fn scan_agent(a: Agent, fs: Seq<Food>, j: int) -> (Agent, Seq<Food>)
    decreases fs.len() - j,
{
    if j < 0 || j >= fs.len() || a.fertile {
        (a, fs)
    } else {
        let f = fs[j];
        if f.consumed {
            scan_agent(a, fs, j + 1)
        } else {
            let d2 = dist_sq(a.x as int, a.y as int, f.x as int, f.y as int);
            if d2 <= CONTACT_SQ {
                scan_agent(fed(a), fs.update(j, Food { consumed: true, ..f }), j + 1)
            } else if d2 <= a.sense * a.sense {
                scan_agent(retargeted(a, f, d2), fs, j + 1)
            } else if a.target matches Some(t) && t.x == f.x && t.y == f.y {
                scan_agent(Agent { target: None, ..a }, fs, j + 1)
            } else {
                scan_agent(a, fs, j + 1)
            }
        }
    }
}

/// The whole sensing pass from agent index `i` on: agents scan in
/// store order, each seeing the food store as the previous one left
/// it.
pub open spec fn scan_all(s: Seq<Agent>, fs: Seq<Food>, i: int) -> (Seq<Agent>, Seq<Food>)
    decreases s.len() - i,
{
    if i < 0 || i >= s.len() {
        (s, fs)
    } else {
        let r = scan_agent(s[i], fs, 0);
        scan_all(s.update(i, r.0), r.1, i + 1)
    }
}

/// The sensing pass over the stores, exactly `scan_all`.
pub fn sense_pass(agents: &mut Vec<Agent>, foods: &mut Vec<Food>)
    requires
        forall|k: int| 0 <= k < old(agents)@.len() ==> agent_wf(#[trigger] old(agents)@[k]),
        forall|k: int| 0 <= k < old(foods)@.len() ==> food_wf(#[trigger] old(foods)@[k]),
    ensures
        final(agents)@ == scan_all(old(agents)@, old(foods)@, 0).0,
        final(foods)@ == scan_all(old(agents)@, old(foods)@, 0).1,
        final(agents)@.len() == old(agents)@.len(),
        final(foods)@.len() == old(foods)@.len(),
        forall|k: int| 0 <= k < final(agents)@.len() ==> agent_wf(#[trigger] final(agents)@[k]),
        forall|k: int| 0 <= k < final(foods)@.len() ==> food_wf(#[trigger] final(foods)@[k]),
{
    let ghost s0 = agents@;
    let ghost fs0 = foods@;
    let n: usize = agents.len();
    let mut i: usize = 0;
    while i < n
        invariant
            0 <= i <= n,
            n == agents@.len(),
            foods@.len() == fs0.len(),
            scan_all(s0, fs0, 0) == scan_all(agents@, foods@, i as int),
            forall|k: int| 0 <= k < agents@.len() ==> agent_wf(#[trigger] agents@[k]),
            forall|k: int| 0 <= k < foods@.len() ==> food_wf(#[trigger] foods@[k]),
        decreases n - i,
    {
        let ghost s_it = agents@;
        let ghost fs_it = foods@;
        let mut a: Agent = agents[i];
        let m: usize = foods.len();
        let mut j: usize = 0;
        while j < m && !a.fertile
            invariant
                0 <= j <= m,
                m == foods@.len(),
                agent_wf(a),
                forall|k: int| 0 <= k < foods@.len() ==> food_wf(#[trigger] foods@[k]),
                scan_agent(s_it[i as int], fs_it, 0) == scan_agent(a, foods@, j as int),
                agents@ == s_it,
                0 <= i < s_it.len(),
                agent_wf(s_it[i as int]),
            decreases m - j,
        {
            let f: Food = foods[j];
            if !f.consumed {
                let d2: u64 = dist_sq_between(a.x, a.y, f.x, f.y);
                proof {
                    assert(a.sense as int * a.sense as int <= MAX_TRAIT * MAX_TRAIT)
                        by (nonlinear_arith)
                        requires
                            1 <= a.sense <= MAX_TRAIT,
                    ;
                    assert(MAX_TRAIT * MAX_TRAIT == 1_000_000_000_000_000_000)
                        by (nonlinear_arith);
                }
                let sense_sq: u64 = (a.sense as u64) * (a.sense as u64);
                if d2 <= CONTACT_SQ {
                    foods[j] = Food { consumed: true, ..f };
                    if a.hungry {
                        a.hungry = false;
                    } else {
                        a.fertile = true;
                    }
                } else if d2 <= sense_sq {
                    let replace: bool = match a.target {
                        None => true,
                        Some(t) => d2 >= t.dist_sq,
                    };
                    if replace {
                        a.target = Some(Target { x: f.x, y: f.y, dist_sq: d2 });
                    }
                } else {
                    let is_tracked: bool = match a.target {
                        None => false,
                        Some(t) => t.x == f.x && t.y == f.y,
                    };
                    if is_tracked {
                        a.target = None;
                    }
                }
            }
            j = j + 1;
        }
        proof {
            assert(scan_agent(a, foods@, j as int) == (a, foods@));
        }
        agents[i] = a;
        i = i + 1;
    }
}

/// Some live, unconsumed food item still stands at the target's
/// position.
pub open spec fn target_alive(t: Target, fs: Seq<Food>) -> bool {
    exists|j: int| 0 <= j < fs.len() && !fs[j].consumed && fs[j].x == t.x && fs[j].y == t.y
}

/// An agent keeps its target only while the item is alive: a target
/// whose item was consumed is cleared.
pub open spec fn pruned(a: Agent, fs: Seq<Food>) -> Agent {
    match a.target {
        Some(t) => if target_alive(t, fs) {
            a
        } else {
            Agent { target: None, ..a }
        },
        None => a,
    }
}

/// Clears every tracked target whose food item is gone.
pub fn prune_targets(agents: &mut Vec<Agent>, foods: &Vec<Food>)
    requires
        forall|i: int| 0 <= i < old(agents)@.len() ==> agent_wf(#[trigger] old(agents)@[i]),
    ensures
        final(agents)@.len() == old(agents)@.len(),
        forall|i: int| 0 <= i < final(agents)@.len() ==> final(agents)@[i] == pruned(
            #[trigger] old(agents)@[i], foods@),
        forall|i: int| 0 <= i < final(agents)@.len() ==> agent_wf(#[trigger] final(agents)@[i]),
{
    let n: usize = agents.len();
    let m: usize = foods.len();
    let mut i: usize = 0;
    while i < n
        invariant
            0 <= i <= n,
            n == agents@.len(),
            m == foods@.len(),
            agents@.len() == old(agents)@.len(),
            forall|k: int| i <= k < n ==> agents@[k] == old(agents)@[k],
            forall|k: int| 0 <= k < old(agents)@.len() ==> agent_wf(#[trigger] old(agents)@[k]),
            forall|k: int| 0 <= k < i ==> agents@[k] == pruned(#[trigger] old(agents)@[k],
                foods@),
            forall|k: int| 0 <= k < i ==> agent_wf(#[trigger] agents@[k]),
        decreases n - i,
    {
        let a: Agent = agents[i];
        match a.target {
            Some(t) => {
                let mut alive: bool = false;
                let mut j: usize = 0;
                while j < m && !alive
                    invariant
                        0 <= j <= m,
                        m == foods@.len(),
                        alive ==> target_alive(t, foods@),
                        !alive ==> forall|k: int|
                            0 <= k < j ==> !(!foods@[k].consumed && foods@[k].x == t.x
                                && foods@[k].y == t.y),
                    decreases m - j,
                {
                    let f: Food = foods[j];
                    if !f.consumed && f.x == t.x && f.y == t.y {
                        alive = true;
                    }
                    j = j + 1;
                }
                if !alive {
                    let b = &mut agents[i];
                    b.target = None;
                }
            },
            None => {},
        }
        i = i + 1;
    }
}

/// The food items not yet consumed, in their original order: a
/// consumed item leaves the store within the pass that consumed it.
pub open spec fn uneaten_kept(s: Seq<Food>) -> Seq<Food>
    decreases s.len(),
{
    if s.len() == 0 {
        Seq::empty()
    } else {
        let r = uneaten_kept(s.drop_last());
        if !s.last().consumed {
            r.push(s.last())
        } else {
            r
        }
    }
}

/// Removes every consumed food item from the store.
pub fn purge_eaten(foods: &mut Vec<Food>)
    ensures
        final(foods)@ == uneaten_kept(old(foods)@),
{
    let ghost s = foods@;
    let mut out: Vec<Food> = Vec::new();
    let n: usize = foods.len();
    let mut i: usize = 0;
    while i < n
        invariant
            n == s.len(),
            foods@ == s,
            0 <= i <= n,
            out@ == uneaten_kept(s.take(i as int)),
        decreases n - i,
    {
        let f: Food = foods[i];
        proof {
            assert(s.take(i + 1).drop_last() =~= s.take(i as int));
            assert(s.take(i + 1).last() == s[i as int]);
        }
        if !f.consumed {
            out.push(f);
        }
        i = i + 1;
    }
    proof {
        assert(s.take(n as int) =~= s);
    }
    *foods = out;
}

/// The purge never adds food, and what it keeps it keeps unchanged
/// and well-formed.
pub proof fn lemma_uneaten_kept_props(s: Seq<Food>)
    requires
        forall|i: int| 0 <= i < s.len() ==> food_wf(#[trigger] s[i]),
    ensures
        uneaten_kept(s).len() <= s.len(),
        forall|i: int| 0 <= i < uneaten_kept(s).len() ==> food_wf(#[trigger] uneaten_kept(s)[i])
            && !uneaten_kept(s)[i].consumed,
    decreases s.len(),
{
    if s.len() == 0 {
    } else {
        lemma_uneaten_kept_props(s.drop_last());
    }
}

/// An agent came out of the pass with its fed state advanced: its
/// hunger was cleared or its fertility granted.
pub open spec fn fed_marked(a: Agent, b: Agent) -> bool {
    a.hungry != b.hungry || a.fertile != b.fertile
}

/// How many agents from index `i` on came out of the pass with their
/// fed state advanced.
pub open spec fn count_marked(s: Seq<Agent>, t: Seq<Agent>, i: int) -> int
    decreases s.len() - i,
{
    if i < 0 || i >= s.len() || i >= t.len() {
        0
    } else {
        (if fed_marked(s[i], t[i]) {
            1int
        } else {
            0int
        }) + count_marked(s, t, i + 1)
    }
}

/// The food item is within eating reach of the agent.
pub open spec fn in_contact(a: Agent, f: Food) -> bool {
    dist_sq(a.x as int, a.y as int, f.x as int, f.y as int) <= CONTACT_SQ
}

proof fn lemma_scan_agent_len(a: Agent, fs: Seq<Food>, j: int)
    ensures
        scan_agent(a, fs, j).1.len() == fs.len(),
    decreases fs.len() - j,
{
    if j < 0 || j >= fs.len() || a.fertile {
    } else {
        let f = fs[j];
        if f.consumed {
            lemma_scan_agent_len(a, fs, j + 1);
        } else {
            let d2 = dist_sq(a.x as int, a.y as int, f.x as int, f.y as int);
            if d2 <= CONTACT_SQ {
                lemma_scan_agent_len(fed(a), fs.update(j, Food { consumed: true, ..f }), j + 1);
            } else if d2 <= a.sense * a.sense {
                lemma_scan_agent_len(retargeted(a, f, d2), fs, j + 1);
            } else if a.target matches Some(t) && t.x == f.x && t.y == f.y {
                lemma_scan_agent_len(Agent { target: None, ..a }, fs, j + 1);
            } else {
                lemma_scan_agent_len(a, fs, j + 1);
            }
        }
    }
}

proof fn lemma_scan_all_len(s: Seq<Agent>, fs: Seq<Food>, i: int)
    ensures
        scan_all(s, fs, i).0.len() == s.len(),
        scan_all(s, fs, i).1.len() == fs.len(),
    decreases s.len() - i,
{
    if i < 0 || i >= s.len() {
    } else {
        let r = scan_agent(s[i], fs, 0);
        lemma_scan_agent_len(s[i], fs, 0);
        lemma_scan_all_len(s.update(i, r.0), r.1, i + 1);
    }
}

proof fn lemma_scan_all_prefix(s: Seq<Agent>, fs: Seq<Food>, i: int, k: int)
    requires
        0 <= k < i,
        k < s.len(),
    ensures
        scan_all(s, fs, i).0[k] == s[k],
    decreases s.len() - i,
{
    if i < 0 || i >= s.len() {
    } else {
        let r = scan_agent(s[i], fs, 0);
        lemma_scan_all_prefix(s.update(i, r.0), r.1, i + 1, k);
    }
}

proof fn lemma_scan_consumed(s: Seq<Agent>, fs: Seq<Food>, i: int)
    requires
        fs.len() == 1,
        fs[0].consumed,
    ensures
        scan_all(s, fs, i) == (s, fs),
    decreases s.len() - i,
{
    if i < 0 || i >= s.len() {
    } else {
        assert(scan_agent(s[i], fs, 1) == (s[i], fs));
        assert(scan_agent(s[i], fs, 0) == (s[i], fs));
        assert(s.update(i, s[i]) =~= s);
        lemma_scan_consumed(s, fs, i + 1);
    }
}

proof fn lemma_scan_agent_flags(a: Agent, fs: Seq<Food>)
    requires
        fs.len() == 1,
        !fs[0].consumed,
        a.fertile || !in_contact(a, fs[0]),
    ensures
        scan_agent(a, fs, 0).1 == fs,
        scan_agent(a, fs, 0).0.hungry == a.hungry,
        scan_agent(a, fs, 0).0.fertile == a.fertile,
{
    if a.fertile {
    } else {
        let f = fs[0];
        let d2 = dist_sq(a.x as int, a.y as int, f.x as int, f.y as int);
        if d2 <= a.sense * a.sense {
            assert(scan_agent(retargeted(a, f, d2), fs, 1) == (retargeted(a, f, d2), fs));
        } else if a.target matches Some(t) && t.x == f.x && t.y == f.y {
            assert(scan_agent(Agent { target: None, ..a }, fs, 1) == (Agent { target: None, ..a },
            fs));
        } else {
            assert(scan_agent(a, fs, 1) == (a, fs));
        }
    }
}

proof fn lemma_count_zero(s: Seq<Agent>, t: Seq<Agent>, i: int)
    requires
        forall|k: int| i <= k < s.len() && k < t.len() ==> (#[trigger] s[k]).hungry == t[k].hungry
            && s[k].fertile == t[k].fertile,
    ensures
        count_marked(s, t, i) == 0,
    decreases s.len() - i,
{
    if i < 0 || i >= s.len() || i >= t.len() {
    } else {
        lemma_count_zero(s, t, i + 1);
    }
}

proof fn lemma_count_suffix_agree(s1: Seq<Agent>, s2: Seq<Agent>, t: Seq<Agent>, i: int)
    requires
        s1.len() == s2.len(),
        forall|k: int| i <= k < s1.len() ==> s1[k] == s2[k],
    ensures
        count_marked(s1, t, i) == count_marked(s2, t, i),
    decreases s1.len() - i,
{
    if i < 0 || i >= s1.len() || i >= t.len() {
    } else {
        lemma_count_suffix_agree(s1, s2, t, i + 1);
    }
}

/// At-most-one consumption: one live food item within eating reach
/// of at least one sensing-eligible agent comes out of the pass
/// consumed, and exactly one agent receives the fed or fertile
/// transition for it — whoever scans first — however many agents
/// stand within reach.
pub proof fn lemma_single_food_consumed(s: Seq<Agent>, fs: Seq<Food>, i: int)
    requires
        0 <= i,
        fs.len() == 1,
        !fs[0].consumed,
        exists|k: int| i <= k < s.len() && !(#[trigger] s[k]).fertile && in_contact(s[k], fs[0]),
    ensures
        scan_all(s, fs, i).0.len() == s.len(),
        scan_all(s, fs, i).1.len() == 1,
        scan_all(s, fs, i).1[0].consumed,
        count_marked(s, scan_all(s, fs, i).0, i) == 1,
    decreases s.len() - i,
{
    lemma_scan_all_len(s, fs, i);
    let k0 = choose|k: int| i <= k < s.len() && !(#[trigger] s[k]).fertile && in_contact(s[k],
        fs[0]);
    assert(i < s.len());
    let r = scan_agent(s[i], fs, 0);
    if !s[i].fertile && in_contact(s[i], fs[0]) {
        let fs1 = fs.update(0, Food { consumed: true, ..fs[0] });
        assert(scan_agent(fed(s[i]), fs1, 1) == (fed(s[i]), fs1));
        assert(r == (fed(s[i]), fs1));
        let s1 = s.update(i, fed(s[i]));
        lemma_scan_consumed(s1, fs1, i + 1);
        assert(scan_all(s, fs, i) == (s1, fs1));
        assert(fed_marked(s[i], s1[i]));
        lemma_count_zero(s, s1, i + 1);
    } else {
        lemma_scan_agent_flags(s[i], fs);
        let s1 = s.update(i, r.0);
        assert(k0 != i);
        assert(i + 1 <= k0 < s1.len() && !s1[k0].fertile && in_contact(s1[k0], fs[0]));
        lemma_single_food_consumed(s1, fs, i + 1);
        let t = scan_all(s1, fs, i + 1).0;
        assert(scan_all(s, fs, i).0 == t);
        lemma_scan_all_prefix(s1, fs, i + 1, i);
        assert(t[i] == r.0);
        assert(!fed_marked(s[i], t[i]));
        lemma_count_suffix_agree(s, s1, t, i + 1);
        assert(count_marked(s, t, i) == count_marked(s1, t, i + 1));
    }
}

} // verus!
