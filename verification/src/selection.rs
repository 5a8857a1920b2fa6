//! Choosing among individuals by fitness: the best one, the ranking of all,
//! and the parent that a draw on the roulette wheel falls on.

use vstd::prelude::*;
use crate::random::random_below;

verus! {

/// The weight on the roulette wheel of an individual without fitness, so that
/// it can still be selected.
pub const WEIGHT_FLOOR: u64 = 1;

/// Individual `i` ranks before individual `j`: it is fitter, or as fit and
/// earlier in the population.
pub open spec fn leads(fitness: Seq<u64>, i: int, j: int) -> bool {
    fitness[i] > fitness[j] || (fitness[i] == fitness[j] && i < j)
}

/// The best of the first `n` individuals among those that are eligible: the
/// one that leads every other eligible one, if any is eligible.
pub open spec fn best_upto(fitness: Seq<u64>, eligible: Seq<bool>, n: nat) -> Option<int>
    decreases n,
{
    if n == 0 {
        None
    } else {
        let k = n - 1;
        match best_upto(fitness, eligible, k as nat) {
            Some(b) => if eligible[k] && fitness[k] > fitness[b] {
                Some(k)
            } else {
                Some(b)
            },
            None => if eligible[k] {
                Some(k)
            } else {
                None
            },
        }
    }
}

/// The best eligible individual of all.
pub open spec fn best_among(fitness: Seq<u64>, eligible: Seq<bool>) -> Option<int> {
    best_upto(fitness, eligible, fitness.len())
}

/// `order` lists every individual once, each before all those it leads.
pub open spec fn is_ranking(order: Seq<usize>, fitness: Seq<u64>) -> bool {
    &&& order.len() == fitness.len()
    &&& forall|p: int| 0 <= p < order.len() ==> 0 <= #[trigger] order[p] < fitness.len()
    &&& forall|p: int, q: int|
        0 <= p < q < order.len() ==> leads(
            fitness,
            #[trigger] order[p] as int,
            #[trigger] order[q] as int,
        )
    &&& forall|k: usize| k < fitness.len() ==> #[trigger] order.contains(k)
}

/// The weight of an individual on the roulette wheel.
pub open spec fn weight(fitness: u64) -> nat {
    if fitness < WEIGHT_FLOOR {
        WEIGHT_FLOOR as nat
    } else {
        fitness as nat
    }
}

/// The weights of the first `n` individuals together.
pub open spec fn weight_upto(fitness: Seq<u64>, n: nat) -> nat
    decreases n,
{
    if n == 0 {
        0
    } else {
        weight_upto(fitness, (n - 1) as nat) + weight(fitness[n - 1])
    }
}

/// The weights of all individuals together.
pub open spec fn total_weight(fitness: Seq<u64>) -> nat {
    weight_upto(fitness, fitness.len())
}

/// The draw falls on individual `i`: the weights before it do not reach the
/// draw, and with its own they pass it.
pub open spec fn falls_on(fitness: Seq<u64>, draw: nat, i: int) -> bool {
    &&& 0 <= i < fitness.len()
    &&& weight_upto(fitness, i as nat) <= draw < weight_upto(fitness, (i + 1) as nat)
}

/// The best individual is eligible and leads every other eligible one; there
/// is none exactly when nobody is eligible.
pub proof fn lemma_best_upto(fitness: Seq<u64>, eligible: Seq<bool>, n: nat)
    requires
        n <= fitness.len(),
        eligible.len() == fitness.len(),
    ensures
        match best_upto(fitness, eligible, n) {
            Some(b) => {
                &&& 0 <= b < n
                &&& eligible[b]
                &&& forall|j: int|
                    0 <= j < n && eligible[j] && j != b ==> leads(fitness, b, j)
            },
            None => forall|j: int| 0 <= j < n ==> !eligible[j],
        },
    decreases n,
{
    if n > 0 {
        lemma_best_upto(fitness, eligible, (n - 1) as nat);
    }
}

/// The weights grow with every individual, by at least the floor and at most
/// the largest fitness.
pub proof fn lemma_weight_upto_bounds(fitness: Seq<u64>, n: nat)
    ensures
        n * WEIGHT_FLOOR <= weight_upto(fitness, n) <= n * u64::MAX,
    decreases n,
{
    if n > 0 {
        lemma_weight_upto_bounds(fitness, (n - 1) as nat);
        assert((n - 1) * u64::MAX + u64::MAX == n * u64::MAX) by (nonlinear_arith);
        assert((n - 1) * WEIGHT_FLOOR + WEIGHT_FLOOR == n * WEIGHT_FLOOR) by (nonlinear_arith);
    }
}

/// The weights of a shorter prefix are no more than those of a longer one.
pub proof fn lemma_weight_upto_monotone(fitness: Seq<u64>, m: nat, n: nat)
    requires
        m <= n,
    ensures
        weight_upto(fitness, m) <= weight_upto(fitness, n),
    decreases n,
{
    if m < n {
        lemma_weight_upto_monotone(fitness, m, (n - 1) as nat);
    }
}

/// A draw falls on one individual only.
pub proof fn lemma_falls_on_one(fitness: Seq<u64>, draw: nat, i: int, j: int)
    requires
        falls_on(fitness, draw, i),
        falls_on(fitness, draw, j),
    ensures
        i == j,
{
    if i < j {
        lemma_weight_upto_monotone(fitness, (i + 1) as nat, j as nat);
    }
    if j < i {
        lemma_weight_upto_monotone(fitness, (j + 1) as nat, i as nat);
    }
}

/// The first of a ranking is the best of all individuals.
pub proof fn lemma_ranking_starts_with_best(order: Seq<usize>, fitness: Seq<u64>)
    requires
        is_ranking(order, fitness),
        0 < fitness.len() <= usize::MAX,
    ensures
        best_among(fitness, Seq::new(fitness.len(), |i: int| true)) == Some(order[0] as int),
{
    let everyone = Seq::new(fitness.len(), |i: int| true);
    lemma_best_upto(fitness, everyone, fitness.len());
    let b = best_among(fitness, everyone).unwrap();
    let first = order[0] as int;
    assert(0 <= first < fitness.len());
    assert(everyone[first]);
    if b != first {
        assert(leads(fitness, b, first));
        assert(order.contains(b as usize));
        let p = choose|p: int| 0 <= p < order.len() && order[p] == b as usize;
        assert(leads(fitness, order[0] as int, order[p] as int));
    }
}

/// The best eligible individual: the fittest, and among equally fit ones the
/// earliest.
pub fn best(fitness: &Vec<u64>, eligible: &Vec<bool>) -> (found: Option<usize>)
    requires
        eligible@.len() == fitness@.len(),
    ensures
        match found {
            Some(b) => best_among(fitness@, eligible@) == Some(b as int),
            None => best_among(fitness@, eligible@).is_none(),
        },
{
    let mut found: Option<usize> = None;
    let mut i: usize = 0;
    while i < fitness.len()
        invariant
            i <= fitness@.len(),
            eligible@.len() == fitness@.len(),
            match found {
                Some(b) => best_upto(fitness@, eligible@, i as nat) == Some(b as int) && b < i,
                None => best_upto(fitness@, eligible@, i as nat).is_none(),
            },
        decreases fitness@.len() - i,
    {
        if eligible[i] {
            match found {
                Some(b) => {
                    if fitness[i] > fitness[b] {
                        found = Some(i);
                    }
                },
                None => {
                    found = Some(i);
                },
            }
        }
        i += 1;
    }
    found
}

/// The ranking of all individuals: fittest first, equally fit ones in the
/// order of the population.
pub fn rank(fitness: &Vec<u64>) -> (order: Vec<usize>)
    ensures
        is_ranking(order@, fitness@),
{
    let mut order: Vec<usize> = Vec::new();
    let mut i: usize = 0;
    while i < fitness.len()
        invariant
            i <= fitness@.len(),
            order@.len() == i,
            forall|p: int| 0 <= p < order@.len() ==> 0 <= #[trigger] order@[p] < i,
            forall|p: int, q: int|
                0 <= p < q < order@.len() ==> leads(
                    fitness@,
                    #[trigger] order@[p] as int,
                    #[trigger] order@[q] as int,
                ),
            forall|k: usize| k < i ==> #[trigger] order@.contains(k),
        decreases fitness@.len() - i,
    {
        let mut at: usize = 0;
        while at < order.len() && fitness[order[at]] >= fitness[i]
            invariant
                at <= order@.len(),
                i < fitness@.len(),
                forall|p: int| 0 <= p < order@.len() ==> 0 <= #[trigger] order@[p] < i,
                forall|p: int|
                    0 <= p < at ==> fitness@[#[trigger] order@[p] as int] >= fitness@[i as int],
            decreases order@.len() - at,
        {
            at += 1;
        }
        let ghost earlier = order@;
        order.insert(at, i);
        proof {
            assert forall|p: int, q: int| 0 <= p < q < order@.len() implies leads(
                fitness@,
                #[trigger] order@[p] as int,
                #[trigger] order@[q] as int,
            ) by {
                if q < at {
                    assert(order@[p] == earlier[p] && order@[q] == earlier[q]);
                } else if q == at {
                    assert(order@[p] == earlier[p]);
                } else if p < at {
                    assert(order@[p] == earlier[p] && order@[q] == earlier[q - 1]);
                } else if p == at {
                    assert(order@[q] == earlier[q - 1]);
                    if at < q - 1 {
                        assert(leads(fitness@, earlier[at as int] as int, earlier[q - 1] as int));
                    }
                } else {
                    assert(order@[p] == earlier[p - 1] && order@[q] == earlier[q - 1]);
                }
            }
            assert forall|k: usize| k < i + 1 implies #[trigger] order@.contains(k) by {
                if k == i {
                    assert(order@[at as int] == k);
                } else {
                    assert(earlier.contains(k));
                    let w = choose|p: int| 0 <= p < earlier.len() && earlier[p] == k;
                    if w < at {
                        assert(order@[w] == k);
                    } else {
                        assert(order@[w + 1] == k);
                    }
                }
            }
            assert forall|p: int| 0 <= p < order@.len() implies 0 <= #[trigger] order@[p] < i
                + 1 by {
                if p < at {
                    assert(order@[p] == earlier[p]);
                } else if p > at {
                    assert(order@[p] == earlier[p - 1]);
                }
            }
        }
        i += 1;
    }
    order
}

/// The weights of all individuals together, as a number to draw below.
pub fn wheel(fitness: &Vec<u64>) -> (total: u128)
    ensures
        total == total_weight(fitness@),
{
    let mut total: u128 = 0;
    let mut i: usize = 0;
    while i < fitness.len()
        invariant
            i <= fitness@.len(),
            total == weight_upto(fitness@, i as nat),
        decreases fitness@.len() - i,
    {
        proof {
            lemma_weight_upto_bounds(fitness@, i as nat);
            assert(i * u64::MAX + u64::MAX <= u128::MAX) by (nonlinear_arith)
                requires
                    i <= usize::MAX,
            ;
        }
        let w: u64 = if fitness[i] < WEIGHT_FLOOR {
            WEIGHT_FLOOR
        } else {
            fitness[i]
        };
        total = total + w as u128;
        i += 1;
    }
    total
}

/// The individual that a draw on the roulette wheel falls on, each
/// individual holding a stretch of the wheel as long as its weight.
pub fn pick(fitness: &Vec<u64>, draw: u128) -> (parent: usize)
    requires
        draw < total_weight(fitness@),
    ensures
        falls_on(fitness@, draw as nat, parent as int),
{
    let count: usize = fitness.len();
    let mut passed: u128 = 0;
    let mut i: usize = 0;
    loop
        invariant
            count == fitness@.len(),
            i < count,
            passed == weight_upto(fitness@, i as nat),
            passed <= draw,
            draw < total_weight(fitness@),
        decreases count - i,
    {
        proof {
            lemma_weight_upto_monotone(fitness@, (i + 1) as nat, fitness@.len());
        }
        let w: u64 = if fitness[i] < WEIGHT_FLOOR {
            WEIGHT_FLOOR
        } else {
            fitness[i]
        };
        if draw - passed < w as u128 {
            return i;
        }
        passed = passed + w as u128;
        i += 1;
    }
}

/// A parent chosen with a probability in proportion to its weight.
pub fn select(fitness: &Vec<u64>) -> (parent: usize)
    requires
        fitness@.len() > 0,
    ensures
        parent < fitness@.len(),
{
    let total = wheel(fitness);
    proof {
        lemma_weight_upto_bounds(fitness@, fitness@.len());
    }
    let draw = random_below(total);
    pick(fitness, draw)
}

/// The first of the smallest keys, if there is any key.
pub fn nearest(keys: &Vec<u64>) -> (found: Option<usize>)
    ensures
        found is None <==> keys@.len() == 0,
        found matches Some(n) ==> {
            &&& n < keys@.len()
            &&& forall|j: int| 0 <= j < keys@.len() ==> keys@[n as int] <= keys@[j]
            &&& forall|j: int| 0 <= j < n ==> keys@[n as int] < keys@[j]
        },
{
    if keys.len() == 0 {
        return None;
    }
    let mut n: usize = 0;
    let mut i: usize = 1;
    while i < keys.len()
        invariant
            1 <= i <= keys@.len(),
            n < i,
            forall|j: int| 0 <= j < i ==> keys@[n as int] <= keys@[j],
            forall|j: int| 0 <= j < n ==> keys@[n as int] < keys@[j],
        decreases keys@.len() - i,
    {
        if keys[i] < keys[n] {
            n = i;
        }
        i += 1;
    }
    Some(n)
}

} // verus!
