use crate::math::{pro_rata, pro_rata_spec};
use crate::types::{AgentStake, VaultError};
use vstd::arithmetic::div_mod::lemma_div_is_ordered;
use vstd::arithmetic::mul::lemma_mul_inequality;
use vstd::prelude::*;

verus! {

/// Sum of a sequence of amounts.
pub open spec fn sum_of(s: Seq<u128>) -> int
    decreases s.len(),
{
    if s.len() == 0 {
        0
    } else {
        sum_of(s.drop_last()) + s.last() as int
    }
}

/// Sum of the agents' weights.
pub open spec fn weight_sum(a: Seq<AgentStake>) -> int
    decreases a.len(),
{
    if a.len() == 0 {
        0
    } else {
        weight_sum(a.drop_last()) + a.last().weight as int
    }
}

/// An agent's target allocation: its weight's share of the pool, rounded down.
pub open spec fn target_spec(weight: int, total_pooled: int, total_weight: int) -> int {
    pro_rata_spec(weight, total_pooled, total_weight)
}

/// How much an agent lacks of its target (zero when at or over target).
pub open spec fn deficit_spec(a: AgentStake, total_pooled: int, total_weight: int) -> int {
    let t = target_spec(a.weight as int, total_pooled, total_weight);
    if t > a.staked { t - a.staked } else { 0 }
}

/// How much an agent holds above its target (zero when at or under target).
pub open spec fn excess_spec(a: AgentStake, total_pooled: int, total_weight: int) -> int {
    let t = target_spec(a.weight as int, total_pooled, total_weight);
    if a.staked > t { a.staked - t } else { 0 }
}

/// `j` holds the largest value of `s`, and no earlier index holds as much.
pub open spec fn is_first_max(s: Seq<u128>, j: int) -> bool {
    &&& 0 <= j < s.len()
    &&& forall|i: int| 0 <= i < s.len() ==> s[i] <= s[j]
    &&& forall|i: int| 0 <= i < j ==> s[i] < s[j]
}

pub proof fn lemma_sum_update(s: Seq<u128>, i: int, x: u128)
    requires
        0 <= i < s.len(),
    ensures
        sum_of(s.update(i, x)) == sum_of(s) - s[i] + x,
    decreases s.len(),
{
    if i < s.len() - 1 {
        assert(s.update(i, x).drop_last() =~= s.drop_last().update(i, x));
        lemma_sum_update(s.drop_last(), i, x);
    } else {
        assert(s.update(i, x).drop_last() =~= s.drop_last());
    }
}

pub proof fn lemma_sum_push(s: Seq<u128>, x: u128)
    ensures
        sum_of(s.push(x)) == sum_of(s) + x,
{
    assert(s.push(x).drop_last() =~= s);
}

pub proof fn lemma_sum_nonneg(s: Seq<u128>)
    ensures
        sum_of(s) >= 0,
    decreases s.len(),
{
    if s.len() > 0 {
        lemma_sum_nonneg(s.drop_last());
    }
}

pub proof fn lemma_sum_elem_le(s: Seq<u128>, i: int)
    requires
        0 <= i < s.len(),
    ensures
        s[i] <= sum_of(s),
    decreases s.len(),
{
    lemma_sum_nonneg(s.drop_last());
    if i < s.len() - 1 {
        lemma_sum_elem_le(s.drop_last(), i);
    }
}

pub proof fn lemma_sum_zero(s: Seq<u128>)
    requires
        forall|i: int| 0 <= i < s.len() ==> s[i] == 0,
    ensures
        sum_of(s) == 0,
    decreases s.len(),
{
    if s.len() > 0 {
        lemma_sum_zero(s.drop_last());
    }
}

/// Adding two amount lists entry by entry adds their sums.
pub proof fn lemma_sum_add(a: Seq<u128>, b: Seq<u128>, c: Seq<u128>)
    requires
        a.len() == b.len() == c.len(),
        forall|i: int| 0 <= i < a.len() ==> c[i] == a[i] + b[i],
    ensures
        sum_of(c) == sum_of(a) + sum_of(b),
    decreases a.len(),
{
    if a.len() > 0 {
        lemma_sum_add(a.drop_last(), b.drop_last(), c.drop_last());
    }
}

/// Subtracting one amount list from another entry by entry subtracts their sums.
pub proof fn lemma_sum_sub(a: Seq<u128>, b: Seq<u128>, c: Seq<u128>)
    requires
        a.len() == b.len() == c.len(),
        forall|i: int| 0 <= i < a.len() ==> c[i] == a[i] - b[i],
    ensures
        sum_of(c) == sum_of(a) - sum_of(b),
{
    lemma_sum_add(c, b, a);
}

proof fn lemma_sum_le(a: Seq<u128>, b: Seq<u128>)
    requires
        a.len() == b.len(),
        forall|i: int| 0 <= i < a.len() ==> a[i] <= b[i],
    ensures
        sum_of(a) <= sum_of(b),
    decreases a.len(),
{
    if a.len() > 0 {
        lemma_sum_le(a.drop_last(), b.drop_last());
    }
}

proof fn lemma_weight_push(a: Seq<AgentStake>, x: AgentStake)
    ensures
        weight_sum(a.push(x)) == weight_sum(a) + x.weight,
{
    assert(a.push(x).drop_last() =~= a);
}

proof fn lemma_weight_elem_le(a: Seq<AgentStake>, i: int)
    requires
        0 <= i < a.len(),
    ensures
        a[i].weight <= weight_sum(a),
    decreases a.len(),
{
    lemma_weight_nonneg(a.drop_last());
    if i < a.len() - 1 {
        lemma_weight_elem_le(a.drop_last(), i);
    }
}

proof fn lemma_weight_nonneg(a: Seq<AgentStake>)
    ensures
        weight_sum(a) >= 0,
    decreases a.len(),
{
    if a.len() > 0 {
        lemma_weight_nonneg(a.drop_last());
    }
}

proof fn lemma_target_le_pool(w: int, tp: int, tw: int)
    requires
        0 <= w <= tw,
        0 < tw,
        0 <= tp,
    ensures
        0 <= target_spec(w, tp, tw) <= tp,
{
    lemma_mul_inequality(w, tw, tp);
    lemma_div_is_ordered(w * tp, tw * tp, tw);
    assert(tw * tp / tw == tp) by (nonlinear_arith)
        requires tw > 0;
    assert(w * tp / tw >= 0) by (nonlinear_arith)
        requires w >= 0, tp >= 0, tw > 0;
}

/// An agent's target allocation.
fn target_of(weight: u64, total_pooled: u128, total_weight: u64) -> (r: u128)
    requires
        weight <= total_weight,
        total_weight > 0,
    ensures
        r == target_spec(weight as int, total_pooled as int, total_weight as int),
        r <= total_pooled,
{
    proof {
        lemma_target_le_pool(weight as int, total_pooled as int, total_weight as int);
    }
    match pro_rata(weight as u128, total_pooled, total_weight as u128) {
        Some(t) => t,
        None => 0,
    }
}

/// Index of the first largest entry.
pub fn first_max(s: &Vec<u128>) -> (j: usize)
    requires
        s@.len() > 0,
    ensures
        is_first_max(s@, j as int),
{
    let mut j: usize = 0;
    let mut i: usize = 1;
    while i < s.len()
        invariant
            1 <= i <= s@.len(),
            is_first_max(s@.take(i as int), j as int),
        decreases s@.len() - i,
    {
        if s[i] > s[j] {
            j = i;
        }
        i = i + 1;
    }
    assert(s@.take(s@.len() as int) =~= s@);
    j
}

/// Entry `j` comes before entry `i` in the order of filling: more
/// capacity, or as much and an earlier position.
pub open spec fn ranks_before(caps: Seq<u128>, j: int, i: int) -> bool {
    caps[j] > caps[i] || (caps[j] == caps[i] && j < i)
}

/// No entry received anything while an entry ranked before it had room left.
pub open spec fn filled_in_order(given: Seq<u128>, caps: Seq<u128>) -> bool {
    forall|i: int, j: int|
        #![trigger given[i], given[j]]
        0 <= i < given.len() && 0 <= j < given.len() && given[i] > 0 && ranks_before(caps, j, i) ==> given[j] == caps[j]
}

/// Hands out `amount` against the capacities `caps`, always to the entry with
/// the most room left (the first such entry on ties), each entry up to its
/// capacity. Returns the amounts handed out and what no capacity could take.
pub fn fill_largest_first(caps: &Vec<u128>, amount: u128) -> (r: (Vec<u128>, u128))
    ensures
        r.0@.len() == caps@.len(),
        forall|i: int| 0 <= i < caps@.len() ==> r.0@[i] <= caps@[i],
        sum_of(r.0@) + r.1 == amount,
        r.1 > 0 ==> r.0@ == caps@,
        forall|j: int| is_first_max(caps@, j) && amount <= caps@[j] ==> r.0@[j] == amount,
        filled_in_order(r.0@, caps@),
{
    let n = caps.len();
    let mut given: Vec<u128> = Vec::new();
    let mut i: usize = 0;
    while i < n
        invariant
            n == caps@.len(),
            i <= n,
            given@.len() == i,
            forall|k: int| 0 <= k < i ==> given@[k] == 0,
        decreases n - i,
    {
        given.push(0);
        i = i + 1;
    }
    let mut room: Vec<u128> = caps.clone();
    assert(room@ =~= caps@);
    proof {
        lemma_sum_zero(given@);
    }
    if n == 0 {
        assert(given@ =~= caps@);
        return (given, amount);
    }
    let mut left: u128 = amount;
    let mut first = true;
    while left > 0
        invariant
            n == caps@.len() > 0,
            given@.len() == n,
            room@.len() == n,
            forall|k: int| 0 <= k < n ==> given@[k] + room@[k] == caps@[k],
            sum_of(given@) + left == amount,
            first ==> room@ == caps@ && left == amount && forall|k: int| 0 <= k < n ==> given@[k] == 0,
            !first ==> forall|j: int| is_first_max(caps@, j) && amount <= caps@[j] ==> given@[j] == amount && left == 0,
            forall|k: int| 0 <= k < n && given@[k] > 0 && left > 0 ==> room@[k] == 0,
            filled_in_order(given@, caps@),
        decreases left,
    {
        let j = first_max(&room);
        if room[j] == 0 {
            assert forall|k: int| 0 <= k < n implies given@[k] == caps@[k] by {
                assert(room@[k] <= room@[j as int]);
            }
            assert(given@ =~= caps@);
            return (given, left);
        }
        let t: u128 = if room[j] < left { room[j] } else { left };
        let g = given[j] + t;
        let rm = room[j] - t;
        proof {
            assert(given@[j as int] == 0);
            assert forall|k: int| 0 <= k < n && ranks_before(caps@, k, j as int) implies given@[k] == caps@[k] by {
                if given@[k] == 0 {
                    assert(room@[k] == caps@[k]);
                    assert(room@[k] <= room@[j as int]);
                }
            }
            let gv = given@.update(j as int, g);
            assert forall|i: int, k: int|
                0 <= i < n && 0 <= k < n && gv[i] > 0 && ranks_before(caps@, k, i) implies gv[k] == caps@[k] by {
                if i != j && k == j {
                    assert(given@[i] > 0);
                    assert(given@[k] == caps@[k]);
                } else if i != j {
                    assert(given@[i] > 0);
                }
            }
            assert(filled_in_order(gv, caps@));
            lemma_sum_update(given@, j as int, g);
            if first {
                assert forall|jj: int| is_first_max(caps@, jj) && amount <= caps@[jj] implies jj == j by {
                    if jj < j {
                        assert(caps@[jj] < caps@[j as int]);
                        assert(caps@[j as int] <= caps@[jj]);
                    } else if jj > j {
                        assert(caps@[j as int] < caps@[jj]);
                        assert(caps@[jj] <= caps@[j as int]);
                    }
                }
            }
        }
        given.set(j, g);
        room.set(j, rm);
        left = left - t;
        first = false;
    }
    (given, left)
}

/// Per-agent targets and signed imbalances (target minus staked) for a pool
/// of `total_pooled`; empty when no weight is registered.
pub fn weight_imbalances(agents: &Vec<AgentStake>, total_weight: u64, total_pooled: u128) -> (r: (
    u128,
    u128,
    Vec<u128>,
    Vec<i128>,
))
    requires
        forall|i: int| 0 <= i < agents@.len() ==> agents@[i].weight <= total_weight,
        total_weight > 0 ==> forall|i: int| 0 <= i < agents@.len() ==> agents@[i].staked <= i128::MAX,
        total_weight > 0 ==> total_pooled <= i128::MAX,
    ensures
        r.0 == total_weight,
        r.1 == total_pooled,
        total_weight == 0 ==> r.2@.len() == 0 && r.3@.len() == 0,
        total_weight > 0 ==> r.2@.len() == agents@.len() && r.3@.len() == agents@.len(),
        total_weight > 0 ==> forall|i: int| 0 <= i < agents@.len() ==> {
            &&& r.2@[i] == target_spec(agents@[i].weight as int, total_pooled as int, total_weight as int)
            &&& r.3@[i] == r.2@[i] - agents@[i].staked
        },
        weight_sum(agents@) == total_weight ==> sum_of(r.2@) <= total_pooled,
{
    let mut targets: Vec<u128> = Vec::new();
    let mut imbalances: Vec<i128> = Vec::new();
    if total_weight == 0 {
        return (total_weight as u128, total_pooled, targets, imbalances);
    }
    let mut i: usize = 0;
    while i < agents.len()
        invariant
            total_weight > 0,
            total_pooled <= i128::MAX,
            forall|k: int| 0 <= k < agents@.len() ==> agents@[k].weight <= total_weight,
            forall|k: int| 0 <= k < agents@.len() ==> agents@[k].staked <= i128::MAX,
            i <= agents@.len(),
            targets@.len() == i,
            imbalances@.len() == i,
            forall|k: int| 0 <= k < i ==> {
                &&& targets@[k] == target_spec(agents@[k].weight as int, total_pooled as int, total_weight as int)
                &&& imbalances@[k] == targets@[k] - agents@[k].staked
            },
            sum_of(targets@) * total_weight <= total_pooled as int * weight_sum(agents@.take(i as int)),
        decreases agents@.len() - i,
    {
        let a = agents[i];
        let t = target_of(a.weight, total_pooled, total_weight);
        proof {
            assert(agents@.take(i + 1) =~= agents@.take(i as int).push(agents@[i as int]));
            lemma_weight_push(agents@.take(i as int), agents@[i as int]);
            lemma_sum_push(targets@, t);
            let ws = weight_sum(agents@.take(i as int));
            assert(t as int * total_weight as int <= total_pooled as int * a.weight as int) by (nonlinear_arith)
                requires t as int == a.weight as int * total_pooled as int / total_weight as int, total_weight > 0;
            assert((sum_of(targets@) + t) * total_weight <= total_pooled as int * (ws + a.weight)) by (nonlinear_arith)
                requires
                    sum_of(targets@) * total_weight <= total_pooled as int * ws,
                    t as int * total_weight as int <= total_pooled as int * a.weight as int;
        }
        targets.push(t);
        imbalances.push(t as i128 - a.staked as i128);
        i = i + 1;
    }
    proof {
        assert(agents@.take(agents@.len() as int) =~= agents@);
        if weight_sum(agents@) == total_weight {
            assert(sum_of(targets@) <= total_pooled) by (nonlinear_arith)
                requires
                    sum_of(targets@) * total_weight <= total_pooled as int * total_weight,
                    total_weight > 0;
        }
    }
    (total_weight as u128, total_pooled, targets, imbalances)
}

/// The agents' deficits toward their targets in a pool of `total_pooled`.
pub open spec fn deficits_spec(agents: Seq<AgentStake>, total_pooled: int, total_weight: int) -> Seq<u128> {
    Seq::new(agents.len(), |i: int| deficit_spec(agents[i], total_pooled, total_weight) as u128)
}

/// The agents' excess over their targets in a pool of `total_pooled`.
pub open spec fn excesses_spec(agents: Seq<AgentStake>, total_pooled: int, total_weight: int) -> Seq<u128> {
    Seq::new(agents.len(), |i: int| excess_spec(agents[i], total_pooled, total_weight) as u128)
}

/// The amounts the agents hold staked.
pub open spec fn stakes_of(agents: Seq<AgentStake>) -> Seq<u128> {
    Seq::new(agents.len(), |i: int| agents[i].staked)
}

/// Each agent's deficit (`excess == false`) or excess (`excess == true`).
fn gaps(agents: &Vec<AgentStake>, total_weight: u64, total_pooled: u128, excess: bool) -> (r: Vec<u128>)
    requires
        forall|i: int| 0 <= i < agents@.len() ==> agents@[i].weight <= total_weight,
        total_weight > 0,
    ensures
        !excess ==> r@ == deficits_spec(agents@, total_pooled as int, total_weight as int),
        excess ==> r@ == excesses_spec(agents@, total_pooled as int, total_weight as int),
{
    let mut r: Vec<u128> = Vec::new();
    let mut i: usize = 0;
    while i < agents.len()
        invariant
            total_weight > 0,
            forall|k: int| 0 <= k < agents@.len() ==> agents@[k].weight <= total_weight,
            i <= agents@.len(),
            r@.len() == i,
            forall|k: int| 0 <= k < i ==> r@[k] == (if excess {
                excess_spec(agents@[k], total_pooled as int, total_weight as int)
            } else {
                deficit_spec(agents@[k], total_pooled as int, total_weight as int)
            }),
        decreases agents@.len() - i,
    {
        let a = agents[i];
        let t = target_of(a.weight, total_pooled, total_weight);
        if excess {
            r.push(if a.staked > t { a.staked - t } else { 0 });
        } else {
            r.push(if t > a.staked { t - a.staked } else { 0 });
        }
        i = i + 1;
    }
    if excess {
        assert(r@ =~= excesses_spec(agents@, total_pooled as int, total_weight as int));
    } else {
        assert(r@ =~= deficits_spec(agents@, total_pooled as int, total_weight as int));
    }
    r
}

/// The agents' weights.
pub open spec fn weights_of(agents: Seq<AgentStake>) -> Seq<u128> {
    Seq::new(agents.len(), |i: int| agents[i].weight as u128)
}

/// Each agent's share of `amount` in proportion to its weight, rounded down.
pub open spec fn floor_shares(agents: Seq<AgentStake>, amount: int, total_weight: int) -> Seq<u128> {
    Seq::new(agents.len(), |i: int| pro_rata_spec(amount, agents[i].weight as int, total_weight) as u128)
}

/// `amount` split in proportion to weight, with the rounding dust added to
/// agent `j`.
pub open spec fn weight_split(agents: Seq<AgentStake>, amount: int, total_weight: int, j: int) -> Seq<u128> {
    let f = floor_shares(agents, amount, total_weight);
    Seq::new(agents.len(), |i: int| (f[i] + if i == j { amount - sum_of(f) } else { 0 }) as u128)
}

/// `f` is the first phase of a largest-first fill of `caps` with `amount`:
/// within capacity, in order, and as much as the capacities take.
pub open spec fn fill_of(f: Seq<u128>, caps: Seq<u128>, amount: int) -> bool {
    &&& f.len() == caps.len()
    &&& forall|i: int| 0 <= i < f.len() ==> f[i] <= caps[i]
    &&& sum_of(f) == if amount <= sum_of(caps) { amount } else { sum_of(caps) }
    &&& filled_in_order(f, caps)
}

proof fn lemma_first_max_unique(s: Seq<u128>, a: int, b: int)
    requires
        is_first_max(s, a),
        is_first_max(s, b),
    ensures
        a == b,
{
    if a < b {
        assert(s[a] < s[b]);
    } else if b < a {
        assert(s[b] < s[a]);
    }
}

/// Splits `amount` over the agents in proportion to their weights, rounding
/// each share down; the rounding dust goes to the first agent of largest
/// weight.
pub fn spread_by_weight(agents: &Vec<AgentStake>, total_weight: u64, amount: u128) -> (r: Vec<u128>)
    requires
        weight_sum(agents@) == total_weight,
        total_weight > 0,
    ensures
        r@.len() == agents@.len(),
        sum_of(r@) == amount,
        forall|i: int| 0 <= i < agents@.len() && agents@[i].weight == 0 ==> r@[i] == 0,
        forall|j: int| is_first_max(weights_of(agents@), j) ==> r@ == weight_split(agents@, amount as int, total_weight as int, j),
{
    let n = agents.len();
    let mut shares: Vec<u128> = Vec::new();
    let mut weights: Vec<u128> = Vec::new();
    let mut acc: u128 = 0;
    let mut i: usize = 0;
    while i < n
        invariant
            n == agents@.len(),
            weight_sum(agents@) == total_weight,
            total_weight > 0,
            i <= n,
            shares@.len() == i,
            weights@.len() == i,
            sum_of(shares@) == acc,
            acc as int * total_weight as int <= amount as int * weight_sum(agents@.take(i as int)),
            forall|k: int| 0 <= k < i ==> weights@[k] == agents@[k].weight,
            forall|k: int| 0 <= k < i && agents@[k].weight == 0 ==> shares@[k] == 0,
            forall|k: int| 0 <= k < i ==> shares@[k] == pro_rata_spec(amount as int, agents@[k].weight as int, total_weight as int),
            weight_sum(agents@.take(i as int)) <= total_weight,
        decreases n - i,
    {
        let w = agents[i].weight;
        proof {
            assert(agents@.take(i + 1) =~= agents@.take(i as int).push(agents@[i as int]));
            lemma_weight_push(agents@.take(i as int), agents@[i as int]);
            lemma_weight_elem_le(agents@, i as int);
            assert(agents@.take(n as int) =~= agents@);
            lemma_weight_prefix_le(agents@, i + 1);
        }
        let d: u128 = match pro_rata(amount, w as u128, total_weight as u128) {
            Some(d) => d,
            None => {
                proof {
                    lemma_target_le_pool(w as int, amount as int, total_weight as int);
                    assert(pro_rata_spec(w as int, amount as int, total_weight as int) == pro_rata_spec(
                        amount as int,
                        w as int,
                        total_weight as int,
                    )) by (nonlinear_arith);
                }
                0
            },
        };
        proof {
            let ws = weight_sum(agents@.take(i as int));
            assert(d as int * total_weight as int <= amount as int * w as int) by (nonlinear_arith)
                requires d as int == amount as int * w as int / total_weight as int, total_weight > 0;
            assert((acc as int + d as int) * total_weight as int <= amount as int * (ws + w as int)) by (nonlinear_arith)
                requires
                    acc as int * total_weight as int <= amount as int * ws,
                    d as int * total_weight as int <= amount as int * w as int;
            assert((acc as int + d as int) <= amount as int) by (nonlinear_arith)
                requires
                    (acc as int + d as int) * total_weight as int <= amount as int * (ws + w as int),
                    ws + w <= total_weight,
                    total_weight > 0,
                    amount >= 0;
            if w == 0 {
                assert(d == 0) by (nonlinear_arith)
                    requires d as int == amount as int * w as int / total_weight as int, w == 0, total_weight > 0;
            }
            lemma_sum_push(shares@, d);
        }
        shares.push(d);
        weights.push(w as u128);
        acc = acc + d;
        i = i + 1;
    }
    proof {
        assert(agents@.take(n as int) =~= agents@);
        assert(acc as int <= amount as int) by (nonlinear_arith)
            requires
                acc as int * total_weight as int <= amount as int * total_weight as int,
                total_weight > 0;
    }
    if n == 0 {
        proof {
            assert(agents@ =~= Seq::<AgentStake>::empty());
        }
        return shares;
    }
    let j = first_max(&weights);
    proof {
        if weights@[j as int] == 0 {
            assert forall|k: int| 0 <= k < agents@.len() implies agents@[k].weight == 0 by {
                assert(weights@[k] <= weights@[j as int]);
            }
            lemma_weights_zero(agents@);
        }
        lemma_sum_elem_le(shares@, j as int);
    }
    let dust = amount - acc;
    let top = shares[j] + dust;
    proof {
        lemma_sum_update(shares@, j as int, top);
        assert(weights@ =~= weights_of(agents@));
        assert(shares@ =~= floor_shares(agents@, amount as int, total_weight as int));
    }
    let ghost before = shares@;
    shares.set(j, top);
    proof {
        assert forall|jj: int| is_first_max(weights_of(agents@), jj) implies shares@ == weight_split(
            agents@,
            amount as int,
            total_weight as int,
            jj,
        ) by {
            lemma_first_max_unique(weights_of(agents@), j as int, jj);
            assert(shares@ =~= weight_split(agents@, amount as int, total_weight as int, jj));
        }
    }
    shares
}

proof fn lemma_weight_prefix_le(a: Seq<AgentStake>, i: int)
    requires
        0 <= i <= a.len(),
    ensures
        weight_sum(a.take(i)) <= weight_sum(a),
    decreases a.len() - i,
{
    if i < a.len() {
        lemma_weight_prefix_le(a, i + 1);
        assert(a.take(i + 1) =~= a.take(i).push(a[i]));
        lemma_weight_push(a.take(i), a[i]);
    } else {
        assert(a.take(i) =~= a);
    }
}

proof fn lemma_weights_zero(a: Seq<AgentStake>)
    requires
        forall|i: int| 0 <= i < a.len() ==> a[i].weight == 0,
    ensures
        weight_sum(a) == 0,
    decreases a.len(),
{
    if a.len() > 0 {
        lemma_weights_zero(a.drop_last());
    }
}

/// Routes a deposit of `amount` to the agents of a pool that, with the
/// deposit, holds `total_pooled`: first to the agent furthest under its
/// target, up to that target, then to the next, and what remains once every
/// deficit is covered in proportion to weight.
pub fn plan_bonding(agents: &Vec<AgentStake>, total_weight: u64, total_pooled: u128, amount: u128) -> (r:
    Result<Vec<u128>, VaultError>)
    requires
        weight_sum(agents@) == total_weight,
    ensures
        total_weight == 0 <==> r == Err::<Vec<u128>, VaultError>(VaultError::NoAgents),
        total_weight > 0 <==> r is Ok,
        r is Ok ==> {
            let d = r->Ok_0@;
            let gaps = deficits_spec(agents@, total_pooled as int, total_weight as int);
            &&& d.len() == agents@.len()
            &&& sum_of(d) == amount
            &&& forall|i: int| 0 <= i < d.len() && agents@[i].weight == 0 ==> d[i] == 0
            &&& forall|j: int| is_first_max(gaps, j) && amount <= gaps[j] ==> d[j] == amount
            &&& amount <= sum_of(gaps) ==> forall|i: int| 0 <= i < d.len() ==> d[i] <= gaps[i]
            &&& amount > sum_of(gaps) ==> forall|i: int| 0 <= i < d.len() ==> d[i] >= gaps[i]
            &&& exists|f: Seq<u128>| #[trigger] fill_of(f, gaps, amount as int) && forall|j: int| is_first_max(weights_of(agents@), j)
                ==> forall|i: int| 0 <= i < d.len() ==> d[i] == f[i] + weight_split(agents@, amount - sum_of(f), total_weight as int, j)[i]
        },
{
    if total_weight == 0 {
        return Err(VaultError::NoAgents);
    }
    proof {
        assert forall|i: int| 0 <= i < agents@.len() implies agents@[i].weight <= total_weight by {
            lemma_weight_elem_le(agents@, i);
        }
    }
    let caps = gaps(agents, total_weight, total_pooled, false);
    let (first, left) = fill_largest_first(&caps, amount);
    let spread = spread_by_weight(agents, total_weight, left);
    let mut out: Vec<u128> = Vec::new();
    let mut i: usize = 0;
    proof {
        lemma_sum_nonneg(first@);
        lemma_sum_nonneg(spread@);
    }
    while i < agents.len()
        invariant
            i <= agents@.len(),
            first@.len() == agents@.len(),
            spread@.len() == agents@.len(),
            out@.len() == i,
            sum_of(first@) + sum_of(spread@) == amount,
            forall|k: int| 0 <= k < i ==> out@[k] == first@[k] + spread@[k],
        decreases agents@.len() - i,
    {
        proof {
            lemma_sum_elem_le(first@, i as int);
            lemma_sum_elem_le(spread@, i as int);
        }
        out.push(first[i] + spread[i]);
        i = i + 1;
    }
    proof {
        lemma_sum_add(first@, spread@, out@);
        assert forall|k: int| 0 <= k < agents@.len() && agents@[k].weight == 0 implies out@[k] == 0 by {
            assert(0 * (total_pooled as int) == 0);
            assert(target_spec(agents@[k].weight as int, total_pooled as int, total_weight as int) == 0);
            assert(caps@[k] == 0);
        }
        assert forall|j: int| is_first_max(caps@, j) && amount <= caps@[j] implies out@[j] == amount by {
            lemma_sum_elem_le(first@, j);
            lemma_sum_elem_le(spread@, j);
            if left > 0 {
                assert(first@ == caps@);
            }
        }
        if amount <= sum_of(caps@) {
            if left > 0 {
                assert(first@ == caps@);
            }
            assert forall|i: int| 0 <= i < out@.len() implies out@[i] <= caps@[i] by {
                lemma_sum_elem_le(spread@, i);
            }
        } else {
            if left == 0 {
                lemma_sum_le(first@, caps@);
            }
            assert(first@ == caps@);
        }
        if left > 0 {
            assert(first@ == caps@);
        } else {
            lemma_sum_le(first@, caps@);
        }
        assert(fill_of(first@, caps@, amount as int));
        assert forall|j: int| is_first_max(weights_of(agents@), j) implies forall|i: int| 0 <= i < out@.len()
            ==> out@[i] == first@[i] + weight_split(agents@, amount - sum_of(first@), total_weight as int, j)[i] by {
            assert(spread@ == weight_split(agents@, left as int, total_weight as int, j));
        }
    }
    Ok(out)
}

/// What unbonding draws on first: each agent's excess over its target, or
/// its whole stake when no weight is registered.
pub open spec fn unbond_caps(agents: Seq<AgentStake>, total_pooled: int, total_weight: int) -> Seq<u128> {
    if total_weight > 0 {
        excesses_spec(agents, total_pooled, total_weight)
    } else {
        stakes_of(agents)
    }
}

/// Each agent's stake less `taken`.
pub open spec fn stake_left(agents: Seq<AgentStake>, taken: Seq<u128>) -> Seq<u128> {
    Seq::new(agents.len(), |i: int| (agents[i].staked - taken[i]) as u128)
}

/// Sources `amount` for withdrawal from the agents: first from the agent
/// furthest over its target, up to that excess, then the next, and what
/// remains from the largest remaining stakes. No agent is asked for more than
/// it holds staked; refused when all stakes together fall short.
pub fn plan_unbonding(agents: &Vec<AgentStake>, total_weight: u64, total_pooled: u128, amount: u128) -> (r:
    Result<Vec<u128>, VaultError>)
    requires
        weight_sum(agents@) == total_weight,
    ensures
        amount > sum_of(stakes_of(agents@)) <==> r == Err::<Vec<u128>, VaultError>(VaultError::InsufficientStake),
        amount <= sum_of(stakes_of(agents@)) <==> r is Ok,
        r is Ok ==> {
            let u = r->Ok_0@;
            let gaps = excesses_spec(agents@, total_pooled as int, total_weight as int);
            &&& u.len() == agents@.len()
            &&& sum_of(u) == amount
            &&& forall|i: int| 0 <= i < u.len() ==> u[i] <= agents@[i].staked
            &&& total_weight > 0 ==> forall|j: int| is_first_max(gaps, j) && amount <= gaps[j] ==> u[j] == amount
            &&& total_weight > 0 && amount <= sum_of(gaps) ==> forall|i: int| 0 <= i < u.len() ==> u[i] <= gaps[i]
            &&& total_weight > 0 && amount > sum_of(gaps) ==> forall|i: int| 0 <= i < u.len() ==> u[i] >= gaps[i]
            &&& exists|f: Seq<u128>, g: Seq<u128>|
                #![trigger fill_of(f, unbond_caps(agents@, total_pooled as int, total_weight as int), amount as int), fill_of(g, stake_left(agents@, f), amount - sum_of(f))]
                fill_of(f, unbond_caps(agents@, total_pooled as int, total_weight as int), amount as int)
                && fill_of(g, stake_left(agents@, f), amount - sum_of(f))
                && forall|i: int| 0 <= i < u.len() ==> u[i] == f[i] + g[i]
        },
{
    proof {
        assert forall|i: int| 0 <= i < agents@.len() implies agents@[i].weight <= total_weight by {
            lemma_weight_elem_le(agents@, i);
        }
    }
    let caps: Vec<u128> = if total_weight > 0 {
        gaps(agents, total_weight, total_pooled, true)
    } else {
        let mut st: Vec<u128> = Vec::new();
        let mut i: usize = 0;
        while i < agents.len()
            invariant
                i <= agents@.len(),
                st@.len() == i,
                forall|k: int| 0 <= k < i ==> st@[k] == agents@[k].staked,
            decreases agents@.len() - i,
        {
            st.push(agents[i].staked);
            i = i + 1;
        }
        st
    };
    assert(forall|i: int| 0 <= i < agents@.len() ==> caps@[i] <= agents@[i].staked);
    let (first, left) = fill_largest_first(&caps, amount);
    let mut rest: Vec<u128> = Vec::new();
    let mut i: usize = 0;
    while i < agents.len()
        invariant
            i <= agents@.len(),
            first@.len() == agents@.len(),
            caps@.len() == agents@.len(),
            forall|k: int| 0 <= k < agents@.len() ==> first@[k] <= #[trigger] caps@[k],
            forall|k: int| 0 <= k < agents@.len() ==> caps@[k] <= #[trigger] agents@[k].staked,
            rest@.len() == i,
            forall|k: int| 0 <= k < i ==> rest@[k] == agents@[k].staked - first@[k],
        decreases agents@.len() - i,
    {
        rest.push(agents[i].staked - first[i]);
        i = i + 1;
    }
    let (second, short) = fill_largest_first(&rest, left);
    proof {
        assert(stakes_of(agents@).len() == agents@.len());
        lemma_sum_sub(stakes_of(agents@), first@, rest@);
        lemma_sum_le(second@, rest@);
    }
    if short > 0 {
        return Err(VaultError::InsufficientStake);
    }
    let mut out: Vec<u128> = Vec::new();
    let mut i: usize = 0;
    while i < agents.len()
        invariant
            i <= agents@.len(),
            first@.len() == agents@.len(),
            second@.len() == agents@.len(),
            rest@.len() == agents@.len(),
            forall|k: int| 0 <= k < agents@.len() ==> second@[k] <= rest@[k],
            forall|k: int| 0 <= k < agents@.len() ==> rest@[k] == agents@[k].staked - first@[k],
            out@.len() == i,
            forall|k: int| 0 <= k < i ==> out@[k] == first@[k] + second@[k],
        decreases agents@.len() - i,
    {
        out.push(first[i] + second[i]);
        i = i + 1;
    }
    proof {
        lemma_sum_add(first@, second@, out@);
        assert forall|j: int|
            total_weight > 0 && is_first_max(excesses_spec(agents@, total_pooled as int, total_weight as int), j)
                && amount <= excesses_spec(agents@, total_pooled as int, total_weight as int)[j] implies out@[j]
            == amount by {
            lemma_sum_elem_le(first@, j);
            lemma_sum_nonneg(second@);
            if left > 0 {
                assert(first@ == caps@);
            }
            lemma_sum_elem_le(second@, j);
        }
        assert(caps@ == unbond_caps(agents@, total_pooled as int, total_weight as int)) by {
            if total_weight == 0 {
                assert(caps@ =~= stakes_of(agents@));
            }
        }
        assert(rest@ =~= stake_left(agents@, first@));
        if left > 0 {
            assert(first@ == caps@);
        } else {
            lemma_sum_le(first@, caps@);
        }
        assert(fill_of(first@, caps@, amount as int));
        assert(fill_of(second@, rest@, left as int));
        assert(left as int == amount - sum_of(first@));
        assert(fill_of(second@, stake_left(agents@, first@), amount - sum_of(first@)));
        assert(fill_of(first@, unbond_caps(agents@, total_pooled as int, total_weight as int), amount as int));
        assert(forall|i: int| 0 <= i < out@.len() ==> out@[i] == first@[i] + second@[i]);
        if amount <= sum_of(caps@) {
            if left > 0 {
                assert(first@ == caps@);
            }
            assert forall|i: int| 0 <= i < out@.len() implies out@[i] <= caps@[i] by {
                lemma_sum_elem_le(second@, i);
            }
        } else {
            if left == 0 {
                lemma_sum_le(first@, caps@);
            }
            assert(first@ == caps@);
        }
    }
    Ok(out)
}

} // verus!
