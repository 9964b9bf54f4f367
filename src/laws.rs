//! Properties that relate several operations, proved over the contracts.
use crate::rebalance::{lemma_sum_add, lemma_sum_sub, sum_of};
use crate::types::{AccountId, AgentStake, VaultError};
use crate::vault::{cooled_down, ids_error, lemma_stamped, lemma_virtual_grows, stamped, Vault};
use vstd::prelude::*;

verus! {

/// The pool equals what the agents hold, staked or unbonding.
pub open spec fn conserved(v: Vault, staked: Seq<u128>, unbonding: Seq<u128>) -> bool {
    sum_of(staked) + sum_of(unbonding) == v.total_pooled
}

/// Conservation across a stake: once each agent has taken in its planned
/// deposit, the agents again hold the pool.
pub proof fn lemma_stake_conserves_pool(
    before: Vault,
    after: Vault,
    azero: u128,
    deposits: Seq<u128>,
    staked: Seq<u128>,
    unbonding: Seq<u128>,
    staked_after: Seq<u128>,
)
    requires
        conserved(before, staked, unbonding),
        after.total_pooled == before.total_pooled + azero,
        sum_of(deposits) == azero,
        staked.len() == deposits.len() == staked_after.len(),
        forall|i: int| 0 <= i < staked.len() ==> staked_after[i] == staked[i] + deposits[i],
    ensures
        conserved(after, staked_after, unbonding),
{
    lemma_sum_add(staked, deposits, staked_after);
}

/// Conservation across a compounding: the compounded amounts join both the
/// agents' stakes and the pool.
pub proof fn lemma_compound_conserves_pool(
    before: Vault,
    after: Vault,
    compounded: Seq<u128>,
    staked: Seq<u128>,
    unbonding: Seq<u128>,
    staked_after: Seq<u128>,
)
    requires
        conserved(before, staked, unbonding),
        after.total_pooled == before.total_pooled + sum_of(compounded),
        staked.len() == compounded.len() == staked_after.len(),
        forall|i: int| 0 <= i < staked.len() ==> staked_after[i] == staked[i] + compounded[i],
    ensures
        conserved(after, staked_after, unbonding),
{
    lemma_sum_add(staked, compounded, staked_after);
}

/// Conservation across a finalization: the pool is unchanged while the
/// agents move the planned amounts from staked to unbonding.
pub proof fn lemma_finalization_conserves_pool(
    before: Vault,
    after: Vault,
    unbonds: Seq<u128>,
    staked: Seq<u128>,
    unbonding: Seq<u128>,
    staked_after: Seq<u128>,
    unbonding_after: Seq<u128>,
)
    requires
        conserved(before, staked, unbonding),
        after.total_pooled == before.total_pooled,
        staked.len() == unbonds.len() == staked_after.len() == unbonding.len() == unbonding_after.len(),
        forall|i: int| 0 <= i < staked.len() ==> staked_after[i] == staked[i] - unbonds[i],
        forall|i: int| 0 <= i < staked.len() ==> unbonding_after[i] == unbonding[i] + unbonds[i],
    ensures
        conserved(after, staked_after, unbonding_after),
{
    lemma_sum_sub(staked, unbonds, staked_after);
    lemma_sum_add(unbonding, unbonds, unbonding_after);
}

/// Conservation across a withdrawal: what the agents hand back leaves both
/// their unbonding amounts and the pool.
pub proof fn lemma_withdrawal_conserves_pool(
    before: Vault,
    after: Vault,
    withdrawn: Seq<u128>,
    staked: Seq<u128>,
    unbonding: Seq<u128>,
    unbonding_after: Seq<u128>,
)
    requires
        conserved(before, staked, unbonding),
        after.total_pooled == before.total_pooled - sum_of(withdrawn),
        unbonding.len() == withdrawn.len() == unbonding_after.len(),
        forall|i: int| 0 <= i < unbonding.len() ==> unbonding_after[i] == unbonding[i] - withdrawn[i],
    ensures
        conserved(after, staked, unbonding_after),
{
    lemma_sum_sub(unbonding, withdrawn, unbonding_after);
}

/// Converting base asset to receipt units and back never yields more than
/// was put in: rounding always favours the pool.
pub proof fn lemma_round_trip_never_gains(v: Vault, x: int, now: u64)
    requires
        v.rate_ok(now),
        x >= 0,
    ensures
        v.base_from_shares_spec(v.shares_from_base_spec(x, now), now) <= x,
{
    lemma_virtual_grows(v, now);
    let ts = v.total_shares_at(now);
    let tp = v.total_pooled as int;
    if tp == 0 {
        if ts != 0 {
            assert(x * 0 / ts == 0) by (nonlinear_arith)
                requires ts > 0;
        }
    } else if ts != 0 {
        let s = x * ts / tp;
        assert(s * tp / ts <= x) by (nonlinear_arith)
            requires s == x * ts / tp, tp > 0, ts > 0, x >= 0;
    }
}

/// A request can be cancelled only in the window it was made in: success
/// means the request's batch is the current one, in the next window the
/// cancellation is refused, and in its own window it succeeds while its
/// batch is open and holds its shares.
pub proof fn lemma_cancel_only_in_window(v: Vault, caller: AccountId, id: int, t: u64)
    requires
        v.wf(),
        0 <= id < v.requests_of(caller).len(),
        v.requests_of(caller)[id].batch_id == v.batch_id_spec(t),
        t >= v.creation_time,
        t + v.era <= u64::MAX,
    ensures
        forall|now: u64| v.cancel_error(caller, id, now) is None ==> v.requests_of(caller)[id].batch_id == v.batch_id_spec(now),
        v.cancel_error(caller, id, (t + v.era) as u64) == Some(VaultError::InvalidBatchUnlockRequest),
        ({
            let req = v.requests_of(caller)[id];
            let batch = v.batches()[req.batch_id];
            v.batches().contains_key(req.batch_id) && !batch.is_finalized() && batch.total_shares >= req.share_amount
                ==> v.cancel_error(caller, id, t) is None
        }),
{
    let c = v.creation_time as int;
    let e = v.era as int;
    let later = (t + v.era) as u64;
    assert(later > v.creation_time);
    assert((t - c + e) / e == (t - c) / e + 1) by (nonlinear_arith)
        requires e > 0, t - c >= 0;
    if t == v.creation_time {
        assert((t - c) / e == 0) by (nonlinear_arith)
            requires e > 0, t - c == 0;
    }
    assert(v.batch_id_spec(later) == v.batch_id_spec(t) + 1);
}

/// Once a set of batches is finalized, finalizing them again is refused.
pub proof fn lemma_second_finalization_refused(
    before: Vault,
    after: Vault,
    ids: Seq<u64>,
    values: Seq<u128>,
    now: u64,
    later: u64,
    agents: Seq<AgentStake>,
)
    requires
        ids.len() > 0,
        after.batches() == stamped(before.batches(), ids, values, now, ids.len() as int),
    ensures
        after.send_batch_error(ids, later, agents) is Some,
{
    lemma_stamped(before.batches(), ids, values, now, ids.len() as int);
    if ids_error(ids, after.batch_id_spec(later)) is None {
        assert(!after.all_open(ids));
    }
}

/// A finalized request pays out exactly when the cooldown has passed:
/// before that the redemption is refused for the cooldown, from then on it
/// succeeds whenever the payout fits.
pub proof fn lemma_cooldown_enforced(v: Vault, user: AccountId, id: int, now: u64)
    requires
        0 <= id < v.requests_of(user).len(),
        v.ready_spec(v.requests_of(user)[id]),
    ensures
        ({
            let ts = v.batches()[v.requests_of(user)[id].batch_id].redemption_timestamp.unwrap();
            &&& now < ts + v.cooldown_period ==> v.redeem_error(user, id, now) == Some(VaultError::CooldownPeriod)
            &&& now >= ts + v.cooldown_period && v.payout_spec(v.requests_of(user)[id]) <= u128::MAX
                ==> v.redeem_error(user, id, now) is None
        }),
{
}

} // verus!
