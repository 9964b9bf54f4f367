use crate::math::{pro_rata, pro_rata_spec};
use crate::rebalance::{
    deficits_spec, excesses_spec, is_first_max, plan_bonding, plan_unbonding, stakes_of, sum_of,
    target_spec, weight_imbalances, weight_sum, fill_of, weights_of, weight_split, unbond_caps, stake_left,
};
use crate::table::{last_with_key, lemma_table_absent, lemma_table_lookup, lemma_table_push, lemma_table_update, table_map};
use crate::types::{AccountId, AgentStake, UnlockRequest, UnlockRequestBatch, VaultError};
use vstd::prelude::*;

verus! {

/// Basis points in one whole.
pub const BIPS: u16 = 10000;

/// One day in milliseconds: the default length of an unlock window.
pub const DAY: u64 = 86400000;

/// The time unit over which the fee claims `fee_percentage` basis points.
pub const YEAR: u64 = 365 * DAY;

/// Default wait between the finalization of a batch and its payouts.
pub const COOLDOWN_PERIOD: u64 = 14 * DAY;

/// The pool's state: totals, fee parameters, roles, unlock batches and the
/// users' unlock requests.
pub struct Vault {
    pub role_owner: AccountId,
    pub role_adjust_fee: AccountId,
    pub role_adjust_fee_admin: AccountId,
    pub shares_contract: AccountId,
    pub registry_contract: AccountId,
    pub total_pooled: u128,
    pub total_shares_minted: u128,
    pub total_shares_virtual: u128,
    pub minimum_stake: u128,
    pub fee_percentage: u16,
    pub incentive_percentage: u16,
    pub creation_time: u64,
    pub era: u64,
    pub cooldown_period: u64,
    pub last_fee_update: u64,
    /// Batch records keyed by batch id.
    pub batch_unlock_requests: Vec<(u64, UnlockRequestBatch)>,
    /// Each user's unlock requests, in the order they were made.
    pub user_unlock_requests: Vec<(AccountId, Vec<UnlockRequest>)>,
}

/// Finalization of a set of batches: each batch's value, the shares burned,
/// and the amount each agent is asked to unbond.
pub struct BatchUnlock {
    pub values: Vec<u128>,
    pub burned_shares: u128,
    pub unbonds: Vec<u128>,
}

/// At `now`, at least `cooldown` has passed since `redeemed_at`.
pub open spec fn cooled_down(redeemed_at: u64, now: u64, cooldown: u64) -> bool {
    now >= redeemed_at && now - redeemed_at >= cooldown
}

impl Vault {
    /// The vault's invariant: windows have a length and both rates are
    /// below one whole.
    pub open spec fn wf(&self) -> bool {
        &&& self.era > 0
        &&& self.fee_percentage < BIPS
        &&& self.incentive_percentage < BIPS
    }

    /// Batch records as a map from batch id.
    pub open spec fn batches(&self) -> Map<u64, UnlockRequestBatch> {
        table_map(self.batch_unlock_requests@)
    }

    /// The users' request lists as values.
    pub open spec fn user_table(&self) -> Seq<(AccountId, Seq<UnlockRequest>)> {
        self.user_unlock_requests@.map_values(|e: (AccountId, Vec<UnlockRequest>)| (e.0, e.1@))
    }

    /// Unlock requests as a map from user.
    pub open spec fn requests(&self) -> Map<AccountId, Seq<UnlockRequest>> {
        table_map(self.user_table())
    }

    /// A user's unlock requests; empty for a user who never made one.
    pub open spec fn requests_of(&self, user: AccountId) -> Seq<UnlockRequest> {
        if self.requests().contains_key(user) {
            self.requests()[user]
        } else {
            Seq::empty()
        }
    }

    /// Everything but the batches and the requests is the same in `self` and `o`.
    pub open spec fn same_pool(&self, o: &Vault) -> bool {
        &&& self.role_owner == o.role_owner
        &&& self.role_adjust_fee == o.role_adjust_fee
        &&& self.role_adjust_fee_admin == o.role_adjust_fee_admin
        &&& self.shares_contract == o.shares_contract
        &&& self.registry_contract == o.registry_contract
        &&& self.total_pooled == o.total_pooled
        &&& self.total_shares_minted == o.total_shares_minted
        &&& self.total_shares_virtual == o.total_shares_virtual
        &&& self.minimum_stake == o.minimum_stake
        &&& self.fee_percentage == o.fee_percentage
        &&& self.incentive_percentage == o.incentive_percentage
        &&& self.creation_time == o.creation_time
        &&& self.era == o.era
        &&& self.cooldown_period == o.cooldown_period
        &&& self.last_fee_update == o.last_fee_update
    }

    /// Id of the batch whose window holds `now`; times before creation fall in the first.
    pub open spec fn batch_id_spec(&self, now: u64) -> int {
        if now <= self.creation_time {
            0
        } else {
            (now - self.creation_time) / (self.era as int)
        }
    }

    /// Fee shares accrued since the last update, at a linear rate of
    /// `fee_percentage` basis points of all shares per `YEAR`.
    pub open spec fn accrued_spec(&self, now: u64) -> int {
        if now <= self.last_fee_update {
            0
        } else {
            pro_rata_spec(
                self.total_shares_minted + self.total_shares_virtual,
                self.fee_percentage * (now - self.last_fee_update),
                BIPS * YEAR,
            )
        }
    }

    /// Virtual shares once fees are accrued up to `now`.
    pub open spec fn virtual_at(&self, now: u64) -> int {
        self.total_shares_virtual + self.accrued_spec(now)
    }

    /// Minted plus virtual shares at `now`.
    pub open spec fn total_shares_at(&self, now: u64) -> int {
        self.total_shares_minted + self.virtual_at(now)
    }

    /// The fee accrual up to `now` fits the share counter.
    pub open spec fn rate_ok(&self, now: u64) -> bool {
        &&& self.total_shares_minted + self.total_shares_virtual <= u128::MAX
        &&& self.total_shares_at(now) <= u128::MAX
    }

    /// The state once fees are accrued up to `now`.
    pub open spec fn fees_updated(&self, now: u64) -> Vault {
        Vault {
            total_shares_virtual: self.virtual_at(now) as u128,
            last_fee_update: if now > self.last_fee_update {
                now
            } else {
                self.last_fee_update
            },
            ..*self
        }
    }

    /// Receipt units for `amount` of base asset: one for one while the pool
    /// is empty, else pro rata, rounded down.
    pub open spec fn shares_from_base_spec(&self, amount: int, now: u64) -> int {
        if self.total_pooled == 0 {
            amount
        } else {
            pro_rata_spec(amount, self.total_shares_at(now), self.total_pooled as int)
        }
    }

    /// Base asset for `shares` receipt units, pro rata, rounded down; zero
    /// while no share exists.
    pub open spec fn base_from_shares_spec(&self, shares: int, now: u64) -> int {
        if self.total_shares_at(now) == 0 {
            0
        } else {
            pro_rata_spec(shares, self.total_pooled as int, self.total_shares_at(now))
        }
    }

    /// A vault just created at `now` by `owner`, who holds all three roles,
    /// with unlock windows of `era` milliseconds and nothing staked.
    pub open spec fn is_fresh(&self, owner: AccountId, share_token: AccountId, registry: AccountId, now: u64, era: u64) -> bool {
        &&& self.wf()
        &&& self.role_owner == owner && self.role_adjust_fee == owner && self.role_adjust_fee_admin == owner
        &&& self.shares_contract == share_token && self.registry_contract == registry
        &&& self.total_pooled == 0 && self.total_shares_minted == 0 && self.total_shares_virtual == 0
        &&& self.minimum_stake == 0 && self.fee_percentage == 0 && self.incentive_percentage == 0
        &&& self.creation_time == now && self.last_fee_update == now
        &&& self.era == era && self.cooldown_period == COOLDOWN_PERIOD
        &&& self.batches() == Map::<u64, UnlockRequestBatch>::empty()
        &&& self.requests() == Map::<AccountId, Seq<UnlockRequest>>::empty()
    }

    /// A vault with unlock windows of `era` milliseconds.
    pub fn custom_era(owner: AccountId, share_token: AccountId, registry: AccountId, now: u64, era: u64) -> (r: Vault)
        requires
            era > 0,
        ensures
            r.is_fresh(owner, share_token, registry, now, era),
    {
        let r = Vault {
            role_owner: owner,
            role_adjust_fee: owner,
            role_adjust_fee_admin: owner,
            shares_contract: share_token,
            registry_contract: registry,
            total_pooled: 0,
            total_shares_minted: 0,
            total_shares_virtual: 0,
            minimum_stake: 0,
            fee_percentage: 0,
            incentive_percentage: 0,
            creation_time: now,
            era,
            cooldown_period: COOLDOWN_PERIOD,
            last_fee_update: now,
            batch_unlock_requests: Vec::new(),
            user_unlock_requests: Vec::new(),
        };
        assert(r.user_table() =~= Seq::empty());
        r
    }

    /// A vault whose unlock windows last one `DAY`.
    pub fn new(owner: AccountId, share_token: AccountId, registry: AccountId, now: u64) -> (r: Vault)
        ensures
            r.is_fresh(owner, share_token, registry, now, DAY),
    {
        Self::custom_era(owner, share_token, registry, now, DAY)
    }
}

impl Vault {
    /// The id of the batch whose window holds `now`.
    pub fn get_batch_unlock_id(&self, now: u64) -> (r: u64)
        requires
            self.wf(),
        ensures
            r == self.batch_id_spec(now),
    {
        if now <= self.creation_time {
            0
        } else {
            (now - self.creation_time) / self.era
        }
    }

    /// Virtual (accrued, unminted) fee shares at `now`; `None` when the share
    /// count would overflow.
    pub fn get_virtual_shares_at_time(&self, now: u64) -> (r: Option<u128>)
        ensures
            r.is_some() <==> self.rate_ok(now),
            r.is_some() ==> r.unwrap() == self.virtual_at(now),
    {
        let base = match self.total_shares_minted.checked_add(self.total_shares_virtual) {
            Some(b) => b,
            None => {
                return None;
            },
        };
        let delta: u128 = if now <= self.last_fee_update {
            0
        } else {
            let elapsed = (now - self.last_fee_update) as u128;
            assert(self.fee_percentage as int * elapsed as int <= u16::MAX as int * u64::MAX as int) by (nonlinear_arith)
                requires self.fee_percentage <= u16::MAX, elapsed <= u64::MAX;
            let rate = self.fee_percentage as u128 * elapsed;
            match pro_rata(base, rate, BIPS as u128 * YEAR as u128) {
                Some(d) => d,
                None => {
                    proof {
                        crate::math::lemma_pro_rata_nonneg(self.total_shares_minted + self.total_shares_virtual, rate as int, BIPS * YEAR);
                    }
                    return None;
                },
            }
        };
        proof {
            if now > self.last_fee_update {
                crate::math::lemma_pro_rata_nonneg(self.total_shares_minted + self.total_shares_virtual,
                    self.fee_percentage * (now - self.last_fee_update), BIPS * YEAR);
            }
        }
        match self.total_shares_virtual.checked_add(delta) {
            Some(v) => match v.checked_add(self.total_shares_minted) {
                Some(_) => Some(v),
                None => None,
            },
            None => None,
        }
    }

    /// Minted plus virtual shares at `now`; `None` on overflow.
    pub fn get_total_shares(&self, now: u64) -> (r: Option<u128>)
        ensures
            r.is_some() <==> self.rate_ok(now),
            r.is_some() ==> r.unwrap() == self.total_shares_at(now),
    {
        match self.get_virtual_shares_at_time(now) {
            Some(v) => Some(self.total_shares_minted + v),
            None => None,
        }
    }

    /// Virtual fee shares at `now`.
    pub fn get_current_virtual_shares(&self, now: u64) -> (r: Option<u128>)
        ensures
            r.is_some() <==> self.rate_ok(now),
            r.is_some() ==> r.unwrap() == self.virtual_at(now),
    {
        self.get_virtual_shares_at_time(now)
    }

    /// Receipt units worth `azero` of base asset at `now`; `None` on overflow.
    pub fn get_shares_from_azero(&self, azero: u128, now: u64) -> (r: Option<u128>)
        ensures
            r.is_some() <==> (self.total_pooled == 0 || (self.rate_ok(now) && self.shares_from_base_spec(
                azero as int,
                now,
            ) <= u128::MAX)),
            r.is_some() ==> r.unwrap() == self.shares_from_base_spec(azero as int, now),
    {
        if self.total_pooled == 0 {
            return Some(azero);
        }
        match self.get_total_shares(now) {
            Some(ts) => pro_rata(azero, ts, self.total_pooled),
            None => None,
        }
    }

    /// Base asset worth `shares` receipt units at `now`; `None` on overflow.
    pub fn get_azero_from_shares(&self, shares: u128, now: u64) -> (r: Option<u128>)
        ensures
            r.is_some() <==> (self.rate_ok(now) && self.base_from_shares_spec(shares as int, now) <= u128::MAX),
            r.is_some() ==> r.unwrap() == self.base_from_shares_spec(shares as int, now),
    {
        match self.get_total_shares(now) {
            Some(ts) => {
                if ts == 0 {
                    Some(0)
                } else {
                    pro_rata(shares, self.total_pooled, ts)
                }
            },
            None => None,
        }
    }

    /// Accrues fee shares up to `now`; refused, with nothing changed, when
    /// the share count would overflow.
    pub fn update_fees(&mut self, now: u64) -> (r: Result<(), VaultError>)
        ensures
            r is Ok <==> old(self).rate_ok(now),
            r is Ok ==> *final(self) == old(self).fees_updated(now),
            r is Err ==> r == Err::<(), VaultError>(VaultError::ArithmeticOverflow) && *final(self) == *old(self),
    {
        match self.get_virtual_shares_at_time(now) {
            Some(v) => {
                self.total_shares_virtual = v;
                if now > self.last_fee_update {
                    self.last_fee_update = now;
                }
                Ok(())
            },
            None => Err(VaultError::ArithmeticOverflow),
        }
    }
}

/// Accrual never shrinks the virtual shares.
pub proof fn lemma_virtual_grows(v: Vault, now: u64)
    ensures
        v.virtual_at(now) >= v.total_shares_virtual,
        v.total_shares_at(now) >= 0,
{
    if now > v.last_fee_update {
        crate::math::lemma_pro_rata_nonneg(v.total_shares_minted + v.total_shares_virtual,
            v.fee_percentage * (now - v.last_fee_update), BIPS * YEAR);
    }
}

fn copy_requests(v: &Vec<UnlockRequest>) -> (r: Vec<UnlockRequest>)
    ensures
        r@ == v@,
{
    let mut r: Vec<UnlockRequest> = Vec::new();
    let mut i: usize = 0;
    while i < v.len()
        invariant
            i <= v@.len(),
            r@ == v@.take(i as int),
        decreases v@.len() - i,
    {
        r.push(v[i]);
        i = i + 1;
        assert(r@ =~= v@.take(i as int));
    }
    assert(v@.take(v@.len() as int) =~= v@);
    r
}

impl Vault {
    /// Position of the record of batch `id`.
    fn find_batch(&self, id: u64) -> (r: Option<usize>)
        ensures
            r.is_some() ==> last_with_key(self.batch_unlock_requests@, r.unwrap() as int, id),
            r.is_some() ==> self.batches().contains_key(id) && self.batches()[id] == self.batch_unlock_requests@[r.unwrap() as int].1,
            r.is_none() ==> !self.batches().contains_key(id),
    {
        let mut i: usize = self.batch_unlock_requests.len();
        while i > 0
            invariant
                i <= self.batch_unlock_requests@.len(),
                forall|j: int| i <= j < self.batch_unlock_requests@.len() ==> self.batch_unlock_requests@[j].0 != id,
            decreases i,
        {
            i = i - 1;
            if self.batch_unlock_requests[i].0 == id {
                proof {
                    lemma_table_lookup(self.batch_unlock_requests@, i as int, id);
                }
                return Some(i);
            }
        }
        proof {
            lemma_table_absent(self.batch_unlock_requests@, id);
        }
        None
    }

    /// Position of the request list of `user`.
    fn find_user(&self, user: &AccountId) -> (r: Option<usize>)
        ensures
            r.is_some() ==> last_with_key(self.user_table(), r.unwrap() as int, *user),
            r.is_some() ==> self.requests_of(*user) == self.user_unlock_requests@[r.unwrap() as int].1@,
            r.is_none() ==> !self.requests().contains_key(*user) && self.requests_of(*user) == Seq::<UnlockRequest>::empty(),
    {
        let mut i: usize = self.user_unlock_requests.len();
        while i > 0
            invariant
                i <= self.user_unlock_requests@.len(),
                forall|j: int| i <= j < self.user_unlock_requests@.len() ==> self.user_table()[j].0 != *user,
            decreases i,
        {
            i = i - 1;
            if self.user_unlock_requests[i].0.same(user) {
                proof {
                    lemma_table_lookup(self.user_table(), i as int, *user);
                }
                return Some(i);
            }
        }
        proof {
            lemma_table_absent(self.user_table(), *user);
        }
        None
    }

    /// Replaces the request list of `user`, found at position `i`.
    fn set_user_requests(&mut self, i: usize, user: AccountId, list: Vec<UnlockRequest>)
        requires
            last_with_key(old(self).user_table(), i as int, user),
        ensures
            final(self).requests() == old(self).requests().insert(user, list@),
            final(self).batches() == old(self).batches(),
            final(self).same_pool(old(self)),
            final(self).batch_unlock_requests == old(self).batch_unlock_requests,
    {
        proof {
            lemma_table_update(old(self).user_table(), i as int, list@);
        }
        self.user_unlock_requests.set(i, (user, list));
        assert(self.user_table() =~= old(self).user_table().update(i as int, (user, list@)));
    }

    /// Replaces the record of batch `id`, found at position `i`.
    fn set_batch(&mut self, i: usize, id: u64, batch: UnlockRequestBatch)
        requires
            last_with_key(old(self).batch_unlock_requests@, i as int, id),
        ensures
            final(self).batches() == old(self).batches().insert(id, batch),
            final(self).requests() == old(self).requests(),
            final(self).same_pool(old(self)),
            final(self).user_unlock_requests == old(self).user_unlock_requests,
            final(self).batch_unlock_requests@.len() == old(self).batch_unlock_requests@.len(),
            forall|j: int| 0 <= j < old(self).batch_unlock_requests@.len() ==>
                #[trigger] final(self).batch_unlock_requests@[j].0 == old(self).batch_unlock_requests@[j].0,
    {
        proof {
            lemma_table_update(old(self).batch_unlock_requests@, i as int, batch);
        }
        self.batch_unlock_requests.set(i, (id, batch));
    }

    /// Queues `shares` receipt units of `caller` for withdrawal in the batch
    /// of the current window. Returns the request's position in the caller's
    /// list and the batch id. The units are expected to be in the vault's
    /// custody already.
    pub fn request_unlock(&mut self, caller: AccountId, shares: u128, now: u64) -> (r: Result<(u128, u64), VaultError>)
        requires
            old(self).wf(),
        ensures
            final(self).wf(),
            ({
                let b = old(self).batch_id_spec(now);
                let bs = old(self).batches();
                let prev = if bs.contains_key(b as u64) { bs[b as u64].total_shares as int } else { 0 };
                &&& (r == Err::<(u128, u64), VaultError>(VaultError::InvalidBatchUnlockRequest)
                    <==> bs.contains_key(b as u64) && bs[b as u64].is_finalized())
                &&& (r == Err::<(u128, u64), VaultError>(VaultError::ArithmeticOverflow)
                    <==> !(bs.contains_key(b as u64) && bs[b as u64].is_finalized()) && prev + shares > u128::MAX)
                &&& (r is Ok <==> !(bs.contains_key(b as u64) && bs[b as u64].is_finalized()) && prev + shares <= u128::MAX)
                &&& r is Ok ==> {
                    &&& r->Ok_0 == (old(self).requests_of(caller).len() as u128, b as u64)
                    &&& final(self).batches() == bs.insert(b as u64, UnlockRequestBatch {
                        total_shares: (prev + shares) as u128,
                        value_at_redemption: None,
                        redemption_timestamp: None,
                    })
                    &&& final(self).requests() == old(self).requests().insert(
                        caller,
                        old(self).requests_of(caller).push(UnlockRequest { creation_time: now, share_amount: shares, batch_id: b as u64 }),
                    )
                }
            }),
            r is Err ==> *final(self) == *old(self),
            final(self).same_pool(old(self)),
    {
        let b = self.get_batch_unlock_id(now);
        let found = self.find_batch(b);
        let prev: u128 = match found {
            Some(i) => {
                let batch = self.batch_unlock_requests[i].1;
                if batch.redemption_timestamp.is_some() {
                    return Err(VaultError::InvalidBatchUnlockRequest);
                }
                batch.total_shares
            },
            None => 0,
        };
        let total = match prev.checked_add(shares) {
            Some(t) => t,
            None => {
                return Err(VaultError::ArithmeticOverflow);
            },
        };
        let batch = UnlockRequestBatch { total_shares: total, value_at_redemption: None, redemption_timestamp: None };
        match found {
            Some(i) => {
                self.set_batch(i, b, batch);
            },
            None => {
                proof {
                    lemma_table_push(self.batch_unlock_requests@, (b, batch));
                }
                self.batch_unlock_requests.push((b, batch));
            },
        }
        let req = UnlockRequest { creation_time: now, share_amount: shares, batch_id: b };
        let ghost mid = *self;
        match self.find_user(&caller) {
            Some(i) => {
                let mut list = copy_requests(&self.user_unlock_requests[i].1);
                let id = list.len() as u128;
                list.push(req);
                self.set_user_requests(i, caller, list);
                Ok((id, b))
            },
            None => {
                let mut list: Vec<UnlockRequest> = Vec::new();
                list.push(req);
                proof {
                    lemma_table_push(self.user_table(), (caller, list@));
                    assert(list@ =~= Seq::<UnlockRequest>::empty().push(req));
                }
                self.user_unlock_requests.push((caller, list));
                assert(self.user_table() =~= mid.user_table().push((caller, list@)));
                Ok((0, b))
            },
        }
    }
}

impl Vault {
    /// The error that cancelling `caller`'s request at position `id` at
    /// `now` meets, if any.
    pub open spec fn cancel_error(&self, caller: AccountId, id: int, now: u64) -> Option<VaultError> {
        let list = self.requests_of(caller);
        let req = list[id];
        let bs = self.batches();
        if id >= list.len() {
            Some(VaultError::InvalidUserUnlockRequest)
        } else if req.batch_id != self.batch_id_spec(now) || !bs.contains_key(req.batch_id) || bs[req.batch_id].is_finalized()
            || bs[req.batch_id].total_shares < req.share_amount {
            Some(VaultError::InvalidBatchUnlockRequest)
        } else {
            None
        }
    }

    /// The batch of `req` is finalized with a value and holds shares.
    pub open spec fn ready_spec(&self, req: UnlockRequest) -> bool {
        let batch = self.batches()[req.batch_id];
        &&& self.batches().contains_key(req.batch_id)
        &&& batch.is_finalized()
        &&& batch.value_at_redemption.is_some()
        &&& batch.total_shares > 0
    }

    /// What `req` pays out: its share of its batch's value, rounded down.
    pub open spec fn payout_spec(&self, req: UnlockRequest) -> int {
        let batch = self.batches()[req.batch_id];
        pro_rata_spec(req.share_amount as int, batch.value_at_redemption.unwrap() as int, batch.total_shares as int)
    }

    /// The error that redeeming `user`'s request at position `id` at `now`
    /// meets, if any.
    pub open spec fn redeem_error(&self, user: AccountId, id: int, now: u64) -> Option<VaultError> {
        let list = self.requests_of(user);
        let req = list[id];
        if id >= list.len() {
            Some(VaultError::InvalidUserUnlockRequest)
        } else if !self.ready_spec(req) {
            Some(VaultError::InvalidBatchUnlockRequest)
        } else if !cooled_down(self.batches()[req.batch_id].redemption_timestamp.unwrap(), now, self.cooldown_period) {
            Some(VaultError::CooldownPeriod)
        } else if self.payout_spec(req) > u128::MAX {
            Some(VaultError::ArithmeticOverflow)
        } else {
            None
        }
    }

    /// Withdraws the caller's request at position `user_unlock_id` while its
    /// window is still open: the request leaves the caller's list (later
    /// requests move down by one) and its shares leave the batch. Returns the
    /// shares to hand back to the caller.
    pub fn cancel_unlock_request(&mut self, caller: AccountId, user_unlock_id: u128, now: u64) -> (r: Result<u128, VaultError>)
        requires
            old(self).wf(),
        ensures
            final(self).wf(),
            ({
                let err = old(self).cancel_error(caller, user_unlock_id as int, now);
                &&& r is Err <==> err is Some
                &&& r is Err ==> r == Err::<u128, VaultError>(err->Some_0)
            }),
            r is Ok ==> ({
                let list = old(self).requests_of(caller);
                let req = list[user_unlock_id as int];
                let batch = old(self).batches()[req.batch_id];
                &&& r->Ok_0 == req.share_amount
                &&& final(self).requests() == old(self).requests().insert(caller, list.remove(user_unlock_id as int))
                &&& final(self).batches() == old(self).batches().insert(req.batch_id, UnlockRequestBatch {
                    total_shares: (batch.total_shares - req.share_amount) as u128,
                    ..batch
                })
            }),
            r is Err ==> *final(self) == *old(self),
            final(self).same_pool(old(self)),
    {
        let b = self.get_batch_unlock_id(now);
        let ui = match self.find_user(&caller) {
            Some(i) => i,
            None => {
                return Err(VaultError::InvalidUserUnlockRequest);
            },
        };
        if user_unlock_id >= self.user_unlock_requests[ui].1.len() as u128 {
            return Err(VaultError::InvalidUserUnlockRequest);
        }
        let idx = user_unlock_id as usize;
        let req = self.user_unlock_requests[ui].1[idx];
        if req.batch_id != b {
            return Err(VaultError::InvalidBatchUnlockRequest);
        }
        let bi = match self.find_batch(b) {
            Some(i) => i,
            None => {
                return Err(VaultError::InvalidBatchUnlockRequest);
            },
        };
        let batch = self.batch_unlock_requests[bi].1;
        if batch.redemption_timestamp.is_some() || batch.total_shares < req.share_amount {
            return Err(VaultError::InvalidBatchUnlockRequest);
        }
        let mut list = copy_requests(&self.user_unlock_requests[ui].1);
        list.remove(idx);
        self.set_user_requests(ui, caller, list);
        self.set_batch(bi, b, UnlockRequestBatch { total_shares: batch.total_shares - req.share_amount, ..batch });
        Ok(req.share_amount)
    }

    /// Pays out `user`'s request at position `unlock_id` once its batch is
    /// finalized and the cooldown has passed: the request's share of the
    /// batch's value, rounded down. The request leaves the user's list.
    /// Returns the base asset to send to the user.
    pub fn redeem(&mut self, user: AccountId, unlock_id: u64, now: u64) -> (r: Result<u128, VaultError>)
        requires
            old(self).wf(),
        ensures
            final(self).wf(),
            ({
                let err = old(self).redeem_error(user, unlock_id as int, now);
                &&& r is Err <==> err is Some
                &&& r is Err ==> r == Err::<u128, VaultError>(err->Some_0)
            }),
            r is Ok ==> ({
                let list = old(self).requests_of(user);
                &&& r->Ok_0 == old(self).payout_spec(list[unlock_id as int])
                &&& final(self).requests() == old(self).requests().insert(user, list.remove(unlock_id as int))
                &&& final(self).batches() == old(self).batches()
            }),
            r is Err ==> *final(self) == *old(self),
            final(self).same_pool(old(self)),
    {
        let ui = match self.find_user(&user) {
            Some(i) => i,
            None => {
                return Err(VaultError::InvalidUserUnlockRequest);
            },
        };
        if unlock_id as u128 >= self.user_unlock_requests[ui].1.len() as u128 {
            return Err(VaultError::InvalidUserUnlockRequest);
        }
        let idx = unlock_id as usize;
        let req = self.user_unlock_requests[ui].1[idx];
        let batch = match self.find_batch(req.batch_id) {
            Some(i) => self.batch_unlock_requests[i].1,
            None => {
                return Err(VaultError::InvalidBatchUnlockRequest);
            },
        };
        let (value, redeemed_at) = match (batch.value_at_redemption, batch.redemption_timestamp) {
            (Some(v), Some(t)) => (v, t),
            _ => {
                return Err(VaultError::InvalidBatchUnlockRequest);
            },
        };
        if batch.total_shares == 0 {
            return Err(VaultError::InvalidBatchUnlockRequest);
        }
        if now < redeemed_at || now - redeemed_at < self.cooldown_period {
            return Err(VaultError::CooldownPeriod);
        }
        let azero = match pro_rata(req.share_amount, value, batch.total_shares) {
            Some(a) => a,
            None => {
                return Err(VaultError::ArithmeticOverflow);
            },
        };
        let mut list = copy_requests(&self.user_unlock_requests[ui].1);
        list.remove(idx);
        self.set_user_requests(ui, user, list);
        Ok(azero)
    }
}

/// The first components of a list of pairs.
pub open spec fn firsts(s: Seq<(u128, u128)>) -> Seq<u128> {
    Seq::new(s.len(), |i: int| s[i].0)
}

/// The second components of a list of pairs.
pub open spec fn seconds(s: Seq<(u128, u128)>) -> Seq<u128> {
    Seq::new(s.len(), |i: int| s[i].1)
}

fn sum_pairs(s: &Vec<(u128, u128)>) -> (r: Option<(u128, u128)>)
    ensures
        r.is_some() <==> sum_of(firsts(s@)) <= u128::MAX && sum_of(seconds(s@)) <= u128::MAX,
        r.is_some() ==> r.unwrap().0 == sum_of(firsts(s@)) && r.unwrap().1 == sum_of(seconds(s@)),
{
    let mut a: u128 = 0;
    let mut b: u128 = 0;
    let mut fail = false;
    let mut i: usize = 0;
    proof {
        crate::rebalance::lemma_sum_nonneg(firsts(s@));
        crate::rebalance::lemma_sum_nonneg(seconds(s@));
    }
    while i < s.len()
        invariant
            i <= s@.len(),
            !fail ==> a == sum_of(firsts(s@.take(i as int))) && b == sum_of(seconds(s@.take(i as int))),
            fail ==> sum_of(firsts(s@)) > u128::MAX || sum_of(seconds(s@)) > u128::MAX,
        decreases s@.len() - i,
    {
        proof {
            assert(firsts(s@.take(i + 1)) =~= firsts(s@.take(i as int)).push(s@[i as int].0));
            assert(seconds(s@.take(i + 1)) =~= seconds(s@.take(i as int)).push(s@[i as int].1));
            crate::rebalance::lemma_sum_push(firsts(s@.take(i as int)), s@[i as int].0);
            crate::rebalance::lemma_sum_push(seconds(s@.take(i as int)), s@[i as int].1);
            lemma_prefix_sum_le(firsts(s@), i + 1);
            lemma_prefix_sum_le(seconds(s@), i + 1);
            assert(firsts(s@.take(i + 1)) =~= firsts(s@).take(i + 1));
            assert(seconds(s@.take(i + 1)) =~= seconds(s@).take(i + 1));
        }
        if !fail {
            match (a.checked_add(s[i].0), b.checked_add(s[i].1)) {
                (Some(x), Some(y)) => {
                    a = x;
                    b = y;
                },
                _ => {
                    fail = true;
                },
            }
        }
        i = i + 1;
    }
    assert(s@.take(s@.len() as int) =~= s@);
    if fail {
        None
    } else {
        Some((a, b))
    }
}

proof fn lemma_prefix_sum_le(s: Seq<u128>, i: int)
    requires
        0 <= i <= s.len(),
    ensures
        sum_of(s.take(i)) <= sum_of(s),
    decreases s.len() - i,
{
    if i < s.len() {
        lemma_prefix_sum_le(s, i + 1);
        assert(s.take(i + 1) =~= s.take(i).push(s[i]));
        crate::rebalance::lemma_sum_push(s.take(i), s[i]);
    } else {
        assert(s.take(i) =~= s);
    }
}

impl Vault {
    /// The arithmetic of a stake of `azero` at `now` fits.
    pub open spec fn stake_fits(&self, azero: u128, now: u64) -> bool {
        &&& self.rate_ok(now)
        &&& self.total_shares_minted + self.shares_from_base_spec(azero as int, now) <= u128::MAX
        &&& self.total_pooled + azero <= u128::MAX
    }

    /// Takes in a deposit of `azero` base units at `now`: fees are accrued,
    /// the depositor's receipt units are minted at the current rate, and the
    /// deposit joins the pool. Returns the new receipt units and the amount
    /// to deposit with each agent (see `plan_bonding`).
    pub fn stake(&mut self, caller: AccountId, azero: u128, now: u64, agents: &Vec<AgentStake>, total_weight: u64) -> (r: Result<(u128, Vec<u128>), VaultError>)
        requires
            old(self).wf(),
            weight_sum(agents@) == total_weight,
        ensures
            final(self).wf(),
            r == Err::<(u128, Vec<u128>), VaultError>(VaultError::MinimumStake) <==> azero < old(self).minimum_stake,
            r == Err::<(u128, Vec<u128>), VaultError>(VaultError::NoAgents) <==> azero >= old(self).minimum_stake && total_weight == 0,
            r == Err::<(u128, Vec<u128>), VaultError>(VaultError::ArithmeticOverflow) <==> azero >= old(self).minimum_stake
                && total_weight > 0 && !old(self).stake_fits(azero, now),
            r is Ok <==> azero >= old(self).minimum_stake && total_weight > 0 && old(self).stake_fits(azero, now),
            r is Err ==> *final(self) == *old(self),
            r is Ok ==> ({
                let new_shares = r->Ok_0.0;
                let d = r->Ok_0.1@;
                let f = old(self).fees_updated(now);
                let pooled = old(self).total_pooled + azero;
                let gaps = deficits_spec(agents@, pooled, total_weight as int);
                &&& new_shares == old(self).shares_from_base_spec(azero as int, now)
                &&& *final(self) == (Vault {
                    total_shares_minted: (old(self).total_shares_minted + new_shares) as u128,
                    total_pooled: pooled as u128,
                    ..f
                })
                &&& d.len() == agents@.len()
                &&& sum_of(d) == azero
                &&& forall|i: int| 0 <= i < d.len() && agents@[i].weight == 0 ==> d[i] == 0
                &&& forall|j: int| is_first_max(gaps, j) && azero <= gaps[j] ==> d[j] == azero
                &&& azero <= sum_of(gaps) ==> forall|i: int| 0 <= i < d.len() ==> d[i] <= gaps[i]
                &&& azero > sum_of(gaps) ==> forall|i: int| 0 <= i < d.len() ==> d[i] >= gaps[i]
                &&& exists|f: Seq<u128>| #[trigger] fill_of(f, gaps, azero as int) && forall|j: int| is_first_max(weights_of(agents@), j)
                    ==> forall|i: int| 0 <= i < d.len() ==> d[i] == f[i] + weight_split(agents@, azero - sum_of(f), total_weight as int, j)[i]
            }),
    {
        if azero < self.minimum_stake {
            return Err(VaultError::MinimumStake);
        }
        if total_weight == 0 {
            return Err(VaultError::NoAgents);
        }
        proof {
            lemma_virtual_grows(*old(self), now);
            if old(self).rate_ok(now) && old(self).total_pooled > 0 {
                crate::math::lemma_pro_rata_nonneg(azero as int, old(self).total_shares_at(now), old(self).total_pooled as int);
            }
        }
        let virtual_shares = match self.get_virtual_shares_at_time(now) {
            Some(v) => v,
            None => {
                return Err(VaultError::ArithmeticOverflow);
            },
        };
        let new_shares = match self.get_shares_from_azero(azero, now) {
            Some(s) => s,
            None => {
                return Err(VaultError::ArithmeticOverflow);
            },
        };
        let minted = match self.total_shares_minted.checked_add(new_shares) {
            Some(m) => m,
            None => {
                return Err(VaultError::ArithmeticOverflow);
            },
        };
        let pooled = match self.total_pooled.checked_add(azero) {
            Some(p) => p,
            None => {
                return Err(VaultError::ArithmeticOverflow);
            },
        };
        let deposits = match plan_bonding(agents, total_weight, pooled, azero) {
            Ok(d) => d,
            Err(e) => {
                return Err(e);
            },
        };
        self.total_shares_virtual = virtual_shares;
        if now > self.last_fee_update {
            self.last_fee_update = now;
        }
        self.total_shares_minted = minted;
        self.total_pooled = pooled;
        Ok((new_shares, deposits))
    }

    /// Records the agents' compounding results, `(compounded, incentive)`
    /// per agent: the compounded amounts join the pool. Returns the totals;
    /// the incentive goes to the caller.
    pub fn compound(&mut self, results: &Vec<(u128, u128)>) -> (r: Result<(u128, u128), VaultError>)
        requires
            old(self).wf(),
        ensures
            final(self).wf(),
            r is Ok <==> sum_of(seconds(results@)) <= u128::MAX
                && old(self).total_pooled + sum_of(firsts(results@)) <= u128::MAX,
            r is Err ==> r == Err::<(u128, u128), VaultError>(VaultError::ArithmeticOverflow) && *final(self) == *old(self),
            r is Ok ==> {
                &&& r->Ok_0 == (sum_of(firsts(results@)) as u128, sum_of(seconds(results@)) as u128)
                &&& *final(self) == (Vault { total_pooled: (old(self).total_pooled + sum_of(firsts(results@))) as u128, ..*old(self) })
            },
    {
        proof {
            crate::rebalance::lemma_sum_nonneg(firsts(results@));
        }
        let (compounded, incentive) = match sum_pairs(results) {
            Some(p) => p,
            None => {
                return Err(VaultError::ArithmeticOverflow);
            },
        };
        let pooled = match self.total_pooled.checked_add(compounded) {
            Some(p) => p,
            None => {
                return Err(VaultError::ArithmeticOverflow);
            },
        };
        self.total_pooled = pooled;
        Ok((compounded, incentive))
    }

    /// Books the unbonded funds the agents returned, `amounts` per agent:
    /// they leave the pool. Refused when they exceed it.
    pub fn book_withdrawn(&mut self, amounts: &Vec<u128>) -> (r: Result<u128, VaultError>)
        requires
            old(self).wf(),
        ensures
            final(self).wf(),
            r is Ok <==> sum_of(amounts@) <= old(self).total_pooled,
            r is Err ==> r == Err::<u128, VaultError>(VaultError::ArithmeticOverflow) && *final(self) == *old(self),
            r is Ok ==> r->Ok_0 == sum_of(amounts@)
                && *final(self) == (Vault { total_pooled: (old(self).total_pooled - sum_of(amounts@)) as u128, ..*old(self) }),
    {
        let mut total: u128 = 0;
        let mut i: usize = 0;
        proof {
            crate::rebalance::lemma_sum_nonneg(amounts@);
        }
        while i < amounts.len()
            invariant
                i <= amounts@.len(),
                total == sum_of(amounts@.take(i as int)),
                total <= self.total_pooled,
                *self == *old(self),
                self.wf(),
            decreases amounts@.len() - i,
        {
            proof {
                assert(amounts@.take(i + 1) =~= amounts@.take(i as int).push(amounts@[i as int]));
                crate::rebalance::lemma_sum_push(amounts@.take(i as int), amounts@[i as int]);
                lemma_prefix_sum_le(amounts@, i + 1);
            }
            if amounts[i] > self.total_pooled - total {
                return Err(VaultError::ArithmeticOverflow);
            }
            total = total + amounts[i];
            i = i + 1;
        }
        assert(amounts@.take(amounts@.len() as int) =~= amounts@);
        self.total_pooled = self.total_pooled - total;
        Ok(total)
    }

    /// Mints the accrued fee shares to the owner: fees are accrued up to
    /// `now`, the virtual shares become minted ones, and the virtual count
    /// drops to zero. Returns the shares to mint to the owner.
    pub fn withdraw_fees(&mut self, caller: AccountId, now: u64) -> (r: Result<u128, VaultError>)
        requires
            old(self).wf(),
        ensures
            final(self).wf(),
            r == Err::<u128, VaultError>(VaultError::InvalidPermissions) <==> caller != old(self).role_owner,
            r == Err::<u128, VaultError>(VaultError::ArithmeticOverflow) <==> caller == old(self).role_owner && !old(self).rate_ok(now),
            r is Ok <==> caller == old(self).role_owner && old(self).rate_ok(now),
            r is Err ==> *final(self) == *old(self),
            r is Ok ==> {
                let f = old(self).fees_updated(now);
                &&& r->Ok_0 == old(self).virtual_at(now)
                &&& *final(self) == (Vault {
                    total_shares_minted: (old(self).total_shares_at(now)) as u128,
                    total_shares_virtual: 0,
                    ..f
                })
            },
    {
        if !caller.same(&self.role_owner) {
            return Err(VaultError::InvalidPermissions);
        }
        let shares = match self.get_virtual_shares_at_time(now) {
            Some(v) => v,
            None => {
                return Err(VaultError::ArithmeticOverflow);
            },
        };
        self.total_shares_minted = self.total_shares_minted + shares;
        self.total_shares_virtual = 0;
        if now > self.last_fee_update {
            self.last_fee_update = now;
        }
        Ok(shares)
    }

    /// Sets the smallest deposit `stake` takes in (owner only).
    pub fn adjust_minimum_stake(&mut self, caller: AccountId, new_minimum_stake: u128) -> (r: Result<(), VaultError>)
        requires
            old(self).wf(),
        ensures
            final(self).wf(),
            r == Err::<(), VaultError>(VaultError::InvalidPermissions) <==> caller != old(self).role_owner,
            r == Err::<(), VaultError>(VaultError::NoChange) <==> caller == old(self).role_owner && old(self).minimum_stake == new_minimum_stake,
            r is Ok <==> caller == old(self).role_owner && old(self).minimum_stake != new_minimum_stake,
            r is Err ==> *final(self) == *old(self),
            r is Ok ==> *final(self) == (Vault { minimum_stake: new_minimum_stake, ..*old(self) }),
    {
        if !caller.same(&self.role_owner) {
            return Err(VaultError::InvalidPermissions);
        }
        if self.minimum_stake == new_minimum_stake {
            return Err(VaultError::NoChange);
        }
        self.minimum_stake = new_minimum_stake;
        Ok(())
    }

    /// Whether `caller` holds the owner role.
    pub fn check_owner(&self, caller: AccountId) -> (r: Result<(), VaultError>)
        ensures
            r is Ok <==> caller == self.role_owner,
            r is Err ==> r == Err::<(), VaultError>(VaultError::InvalidPermissions),
    {
        if caller.same(&self.role_owner) {
            Ok(())
        } else {
            Err(VaultError::InvalidPermissions)
        }
    }

    /// Hands the owner role to `new_account` (owner only).
    pub fn transfer_role_owner(&mut self, caller: AccountId, new_account: AccountId) -> (r: Result<(), VaultError>)
        requires
            old(self).wf(),
        ensures
            final(self).wf(),
            r == Err::<(), VaultError>(VaultError::InvalidPermissions) <==> caller != old(self).role_owner,
            r == Err::<(), VaultError>(VaultError::NoChange) <==> caller == old(self).role_owner && old(self).role_owner == new_account,
            r is Ok <==> caller == old(self).role_owner && old(self).role_owner != new_account,
            r is Err ==> *final(self) == *old(self),
            r is Ok ==> *final(self) == (Vault { role_owner: new_account, ..*old(self) }),
    {
        if !caller.same(&self.role_owner) {
            return Err(VaultError::InvalidPermissions);
        }
        if self.role_owner.same(&new_account) {
            return Err(VaultError::NoChange);
        }
        self.role_owner = new_account;
        Ok(())
    }

    /// Sets the protocol fee in basis points (fee role only); fees are first
    /// accrued up to `now` at the old rate.
    pub fn adjust_fee(&mut self, caller: AccountId, new_fee: u16, now: u64) -> (r: Result<(), VaultError>)
        requires
            old(self).wf(),
        ensures
            final(self).wf(),
            r == Err::<(), VaultError>(VaultError::InvalidPermissions) <==> caller != old(self).role_adjust_fee,
            r == Err::<(), VaultError>(VaultError::NoChange) <==> caller == old(self).role_adjust_fee && old(self).fee_percentage == new_fee,
            r == Err::<(), VaultError>(VaultError::InvalidPercent) <==> caller == old(self).role_adjust_fee
                && old(self).fee_percentage != new_fee && new_fee >= BIPS,
            r == Err::<(), VaultError>(VaultError::ArithmeticOverflow) <==> caller == old(self).role_adjust_fee
                && old(self).fee_percentage != new_fee && new_fee < BIPS && !old(self).rate_ok(now),
            r is Ok <==> caller == old(self).role_adjust_fee && old(self).fee_percentage != new_fee && new_fee < BIPS
                && old(self).rate_ok(now),
            r is Err ==> *final(self) == *old(self),
            r is Ok ==> *final(self) == (Vault { fee_percentage: new_fee, ..old(self).fees_updated(now) }),
    {
        if !caller.same(&self.role_adjust_fee) {
            return Err(VaultError::InvalidPermissions);
        }
        if self.fee_percentage == new_fee {
            return Err(VaultError::NoChange);
        }
        if new_fee >= BIPS {
            return Err(VaultError::InvalidPercent);
        }
        match self.update_fees(now) {
            Ok(()) => {},
            Err(e) => {
                return Err(e);
            },
        }
        self.fee_percentage = new_fee;
        Ok(())
    }

    /// Sets the compounding incentive in basis points (fee role only).
    pub fn adjust_incentive(&mut self, caller: AccountId, new_incentive: u16) -> (r: Result<(), VaultError>)
        requires
            old(self).wf(),
        ensures
            final(self).wf(),
            r == Err::<(), VaultError>(VaultError::InvalidPermissions) <==> caller != old(self).role_adjust_fee,
            r == Err::<(), VaultError>(VaultError::NoChange) <==> caller == old(self).role_adjust_fee
                && old(self).incentive_percentage == new_incentive,
            r == Err::<(), VaultError>(VaultError::InvalidPercent) <==> caller == old(self).role_adjust_fee
                && old(self).incentive_percentage != new_incentive && new_incentive >= BIPS,
            r is Ok <==> caller == old(self).role_adjust_fee && old(self).incentive_percentage != new_incentive
                && new_incentive < BIPS,
            r is Err ==> *final(self) == *old(self),
            r is Ok ==> *final(self) == (Vault { incentive_percentage: new_incentive, ..*old(self) }),
    {
        if !caller.same(&self.role_adjust_fee) {
            return Err(VaultError::InvalidPermissions);
        }
        if self.incentive_percentage == new_incentive {
            return Err(VaultError::NoChange);
        }
        if new_incentive >= BIPS {
            return Err(VaultError::InvalidPercent);
        }
        self.incentive_percentage = new_incentive;
        Ok(())
    }

    /// Hands the fee role to `new_account` (fee-role admin only).
    pub fn transfer_role_adjust_fee(&mut self, caller: AccountId, new_account: AccountId) -> (r: Result<(), VaultError>)
        requires
            old(self).wf(),
        ensures
            final(self).wf(),
            r == Err::<(), VaultError>(VaultError::InvalidPermissions) <==> caller != old(self).role_adjust_fee_admin,
            r == Err::<(), VaultError>(VaultError::NoChange) <==> caller == old(self).role_adjust_fee_admin
                && old(self).role_adjust_fee == new_account,
            r is Ok <==> caller == old(self).role_adjust_fee_admin && old(self).role_adjust_fee != new_account,
            r is Err ==> *final(self) == *old(self),
            r is Ok ==> *final(self) == (Vault { role_adjust_fee: new_account, ..*old(self) }),
    {
        if !caller.same(&self.role_adjust_fee_admin) {
            return Err(VaultError::InvalidPermissions);
        }
        if self.role_adjust_fee.same(&new_account) {
            return Err(VaultError::NoChange);
        }
        self.role_adjust_fee = new_account;
        Ok(())
    }

    /// Hands the fee-role admin role to `new_account` (fee-role admin only).
    pub fn transfer_role_adjust_fee_admin(&mut self, caller: AccountId, new_account: AccountId) -> (r: Result<(), VaultError>)
        requires
            old(self).wf(),
        ensures
            final(self).wf(),
            r == Err::<(), VaultError>(VaultError::InvalidPermissions) <==> caller != old(self).role_adjust_fee_admin,
            r == Err::<(), VaultError>(VaultError::NoChange) <==> caller == old(self).role_adjust_fee_admin
                && old(self).role_adjust_fee_admin == new_account,
            r is Ok <==> caller == old(self).role_adjust_fee_admin && old(self).role_adjust_fee_admin != new_account,
            r is Err ==> *final(self) == *old(self),
            r is Ok ==> *final(self) == (Vault { role_adjust_fee_admin: new_account, ..*old(self) }),
    {
        if !caller.same(&self.role_adjust_fee_admin) {
            return Err(VaultError::InvalidPermissions);
        }
        if self.role_adjust_fee_admin.same(&new_account) {
            return Err(VaultError::NoChange);
        }
        self.role_adjust_fee_admin = new_account;
        Ok(())
    }
}

/// The first `n` ids are each before window `cur` and strictly ascending.
pub open spec fn ids_valid_upto(ids: Seq<u64>, cur: int, n: int) -> bool {
    forall|k: int| 0 <= k < n ==> #[trigger] ids[k] < cur && (k > 0 ==> ids[k - 1] < ids[k])
}

/// The error for a list of batch ids at window `cur`, if any: at the first
/// position that breaks the rules, an id not before `cur`, or one not above
/// the id before it.
pub open spec fn ids_error(ids: Seq<u64>, cur: int) -> Option<VaultError> {
    if exists|i: int| 0 <= i < ids.len() && ids_valid_upto(ids, cur, i) && #[trigger] ids[i] >= cur {
        Some(VaultError::InvalidBatchUnlockRequest)
    } else if exists|i: int| 0 < i < ids.len() && ids_valid_upto(ids, cur, i) && #[trigger] ids[i] <= ids[i - 1] {
        Some(VaultError::Duplication)
    } else {
        None
    }
}

/// `batches` with the first `n` of `ids` finalized at `now`, batch `ids[k]`
/// valued at `values[k]`.
pub open spec fn stamped(
    batches: Map<u64, UnlockRequestBatch>,
    ids: Seq<u64>,
    values: Seq<u128>,
    now: u64,
    n: int,
) -> Map<u64, UnlockRequestBatch>
    decreases n,
{
    if n <= 0 {
        batches
    } else {
        stamped(batches, ids, values, now, n - 1).insert(ids[n - 1], UnlockRequestBatch {
            total_shares: batches[ids[n - 1]].total_shares,
            value_at_redemption: Some(values[n - 1]),
            redemption_timestamp: Some(now),
        })
    }
}

/// Every stamped batch is finalized.
pub proof fn lemma_stamped(batches: Map<u64, UnlockRequestBatch>, ids: Seq<u64>, values: Seq<u128>, now: u64, n: int)
    requires
        0 <= n <= ids.len(),
    ensures
        forall|k: int| 0 <= k < n ==> stamped(batches, ids, values, now, n).contains_key(ids[k])
            && stamped(batches, ids, values, now, n)[ids[k]].is_finalized(),
    decreases n,
{
    if n > 0 {
        lemma_stamped(batches, ids, values, now, n - 1);
    }
}

impl Vault {
    /// The error that finalizing `ids` at `now` meets, if any, in the order
    /// the checks are made.
    pub open spec fn send_batch_error(&self, ids: Seq<u64>, now: u64, agents: Seq<AgentStake>) -> Option<VaultError> {
        let cur = self.batch_id_spec(now);
        if ids_error(ids, cur) is Some {
            ids_error(ids, cur)
        } else if !self.all_open(ids) {
            Some(VaultError::InvalidBatchUnlockRequest)
        } else if !self.pricing_fits(ids, now) {
            Some(VaultError::ArithmeticOverflow)
        } else if sum_of(self.batch_values(ids, now)) > sum_of(stakes_of(agents)) {
            Some(VaultError::InsufficientStake)
        } else {
            None
        }
    }

    /// Every listed batch has a record and is not yet finalized.
    pub open spec fn all_open(&self, ids: Seq<u64>) -> bool {
        forall|k: int| 0 <= k < ids.len() ==> self.batches().contains_key(ids[k]) && !self.batches()[ids[k]].is_finalized()
    }

    /// The shares of each listed batch.
    pub open spec fn batch_shares(&self, ids: Seq<u64>) -> Seq<u128> {
        Seq::new(ids.len(), |k: int| self.batches()[ids[k]].total_shares)
    }

    /// The value of each listed batch at the rate of `now`.
    pub open spec fn batch_values(&self, ids: Seq<u64>, now: u64) -> Seq<u128> {
        Seq::new(ids.len(), |k: int| self.base_from_shares_spec(self.batches()[ids[k]].total_shares as int, now) as u128)
    }

    /// Pricing the listed batches at `now` fits the pool's counters.
    pub open spec fn pricing_fits(&self, ids: Seq<u64>, now: u64) -> bool {
        &&& self.rate_ok(now)
        &&& forall|k: int| 0 <= k < ids.len() ==> self.base_from_shares_spec(self.batches()[ids[k]].total_shares as int, now) <= u128::MAX
        &&& sum_of(self.batch_values(ids, now)) <= self.total_pooled
        &&& sum_of(self.batch_shares(ids)) <= self.total_shares_minted
    }

    /// Finalizes the batches `batch_ids` of past windows at one rate, that
    /// of `now` after fees are accrued: each batch is valued, stamped with
    /// its value and `now`, and its shares burned. The pool total is left as
    /// it is: the value stays in the pool while the agents unbond it, and
    /// leaves it when the funds come back (`book_withdrawn`). Ids must be of
    /// past windows, in strictly ascending order, of batches not finalized
    /// before. Returns the values, the shares to burn, and the amount each
    /// agent is asked to unbond (see `plan_unbonding`; the targets are those
    /// of the stake that remains once the value is withdrawn).
    pub fn send_batch_unlock_requests(&mut self, batch_ids: &Vec<u64>, now: u64, agents: &Vec<AgentStake>, total_weight: u64) -> (r: Result<BatchUnlock, VaultError>)
        requires
            old(self).wf(),
            weight_sum(agents@) == total_weight,
        ensures
            final(self).wf(),
            ({
                let err = old(self).send_batch_error(batch_ids@, now, agents@);
                &&& r is Err <==> err is Some
                &&& r is Err ==> r == Err::<BatchUnlock, VaultError>(err->Some_0)
            }),
            r is Ok ==> ({
                let ids = batch_ids@;
                let value = sum_of(old(self).batch_values(ids, now));
                let out = r->Ok_0;
                let f = old(self).fees_updated(now);
                let pooled = old(self).total_pooled - value;
                let u = out.unbonds@;
                let gaps = excesses_spec(agents@, pooled, total_weight as int);
                &&& out.values@ == old(self).batch_values(ids, now)
                &&& out.burned_shares == sum_of(old(self).batch_shares(ids))
                &&& final(self).batches() == stamped(old(self).batches(), ids, out.values@, now, ids.len() as int)
                &&& final(self).requests() == old(self).requests()
                &&& final(self).same_pool(&(Vault {
                    total_shares_minted: (old(self).total_shares_minted - out.burned_shares) as u128,
                    ..f
                }))
                &&& u.len() == agents@.len()
                &&& sum_of(u) == value
                &&& forall|i: int| 0 <= i < u.len() ==> u[i] <= agents@[i].staked
                &&& total_weight > 0 ==> forall|j: int| is_first_max(gaps, j) && value <= gaps[j] ==> u[j] == value
                &&& total_weight > 0 && value <= sum_of(gaps) ==> forall|i: int| 0 <= i < u.len() ==> u[i] <= gaps[i]
                &&& total_weight > 0 && value > sum_of(gaps) ==> forall|i: int| 0 <= i < u.len() ==> u[i] >= gaps[i]
                &&& exists|f: Seq<u128>, g: Seq<u128>|
                    #![trigger fill_of(f, unbond_caps(agents@, pooled, total_weight as int), value), fill_of(g, stake_left(agents@, f), value - sum_of(f))]
                    fill_of(f, unbond_caps(agents@, pooled, total_weight as int), value)
                    && fill_of(g, stake_left(agents@, f), value - sum_of(f))
                    && forall|i: int| 0 <= i < u.len() ==> u[i] == f[i] + g[i]
            }),
            r is Err ==> *final(self) == *old(self),
    {
        let cur = self.get_batch_unlock_id(now);
        match validate_batch_ids(batch_ids, cur) {
            Ok(()) => {},
            Err(e) => {
                return Err(e);
            },
        }
        let (pos, shares) = match self.open_batches(batch_ids) {
            Ok(p) => p,
            Err(e) => {
                return Err(e);
            },
        };
        let (values, total_value, total_shares) = match self.price_batches(batch_ids, &shares, now) {
            Ok(p) => p,
            Err(e) => {
                return Err(e);
            },
        };
        let pooled = self.total_pooled - total_value;
        let unbonds = match plan_unbonding(agents, total_weight, pooled, total_value) {
            Ok(u) => u,
            Err(e) => {
                return Err(e);
            },
        };
        let ghost before = *self;
        match self.update_fees(now) {
            Ok(()) => {},
            Err(e) => {
                return Err(e);
            },
        }
        self.stamp_batches(batch_ids, &pos, &shares, &values, now, Ghost(before));
        self.total_shares_minted = self.total_shares_minted - total_shares;
        Ok(BatchUnlock { values, burned_shares: total_shares, unbonds })
    }

    /// Positions and shares of the listed batches, refused unless each has a
    /// record and is not finalized.
    fn open_batches(&self, batch_ids: &Vec<u64>) -> (r: Result<(Vec<usize>, Vec<u128>), VaultError>)
        ensures
            r is Ok <==> self.all_open(batch_ids@),
            r is Err ==> r == Err::<(Vec<usize>, Vec<u128>), VaultError>(VaultError::InvalidBatchUnlockRequest),
            r is Ok ==> {
                let (pos, shares) = r->Ok_0;
                &&& pos@.len() == batch_ids@.len()
                &&& shares@ == self.batch_shares(batch_ids@)
                &&& forall|k: int| 0 <= k < batch_ids@.len() ==> last_with_key(self.batch_unlock_requests@, #[trigger] pos@[k] as int, batch_ids@[k])
            },
    {
        let n = batch_ids.len();
        let mut pos: Vec<usize> = Vec::new();
        let mut shares: Vec<u128> = Vec::new();
        let mut i: usize = 0;
        while i < n
            invariant
                n == batch_ids@.len(),
                i <= n,
                pos@.len() == i,
                shares@.len() == i,
                forall|k: int| 0 <= k < i ==> last_with_key(self.batch_unlock_requests@, #[trigger] pos@[k] as int, batch_ids@[k]),
                forall|k: int| 0 <= k < i ==> self.batches().contains_key(#[trigger] batch_ids@[k]),
                forall|k: int| 0 <= k < i ==> !self.batches()[#[trigger] batch_ids@[k]].is_finalized(),
                forall|k: int| 0 <= k < i ==> shares@[k] == self.batches()[#[trigger] batch_ids@[k]].total_shares,
            decreases n - i,
        {
            let id = batch_ids[i];
            let p = match self.find_batch(id) {
                Some(p) => p,
                None => {
                    assert(!self.batches().contains_key(batch_ids@[i as int]));
                    return Err(VaultError::InvalidBatchUnlockRequest);
                },
            };
            let batch = self.batch_unlock_requests[p].1;
            if batch.redemption_timestamp.is_some() {
                assert(self.batches()[batch_ids@[i as int]].is_finalized());
                return Err(VaultError::InvalidBatchUnlockRequest);
            }
            pos.push(p);
            shares.push(batch.total_shares);
            i = i + 1;
        }
        assert(shares@ =~= self.batch_shares(batch_ids@));
        assert(self.all_open(batch_ids@));
        Ok((pos, shares))
    }

    /// Values the listed batches at the rate of `now`; returns the values,
    /// their sum and the sum of the shares. Refused unless it all fits.
    fn price_batches(&self, batch_ids: &Vec<u64>, shares: &Vec<u128>, now: u64) -> (r: Result<(Vec<u128>, u128, u128), VaultError>)
        requires
            shares@ == self.batch_shares(batch_ids@),
        ensures
            r is Ok <==> self.pricing_fits(batch_ids@, now),
            r is Err ==> r == Err::<(Vec<u128>, u128, u128), VaultError>(VaultError::ArithmeticOverflow),
            r is Ok ==> {
                let (values, tv, tsh) = r->Ok_0;
                &&& values@ == self.batch_values(batch_ids@, now)
                &&& tv == sum_of(values@)
                &&& tsh == sum_of(shares@)
                &&& tv <= self.total_pooled
                &&& tsh <= self.total_shares_minted
            },
    {
        let n = batch_ids.len();
        let ts = match self.get_total_shares(now) {
            Some(t) => t,
            None => {
                return Err(VaultError::ArithmeticOverflow);
            },
        };
        let ghost vals = self.batch_values(batch_ids@, now);
        proof {
            crate::rebalance::lemma_sum_nonneg(shares@);
            lemma_virtual_grows(*self, now);
        }
        let mut values: Vec<u128> = Vec::new();
        let mut total_value: u128 = 0;
        let mut total_shares: u128 = 0;
        let mut i: usize = 0;
        while i < n
            invariant
                n == batch_ids@.len(),
                shares@.len() == n,
                shares@ == self.batch_shares(batch_ids@),
                vals == self.batch_values(batch_ids@, now),
                self.rate_ok(now),
                self.total_shares_at(now) >= 0,
                ts == self.total_shares_at(now),
                i <= n,
                values@ == vals.take(i as int),
                forall|k: int| 0 <= k < i ==> self.base_from_shares_spec(self.batches()[batch_ids@[k]].total_shares as int, now) <= u128::MAX,
                total_value == sum_of(values@),
                total_shares == sum_of(shares@.take(i as int)),
            decreases n - i,
        {
            let v = if ts == 0 {
                0
            } else {
                match pro_rata(shares[i], self.total_pooled, ts) {
                    Some(v) => v,
                    None => {
                        return Err(VaultError::ArithmeticOverflow);
                    },
                }
            };
            proof {
                if ts > 0 {
                    crate::math::lemma_pro_rata_nonneg(shares@[i as int] as int, self.total_pooled as int, ts as int);
                }
                assert(vals.take(i + 1) =~= vals.take(i as int).push(v));
                assert(shares@.take(i + 1) =~= shares@.take(i as int).push(shares@[i as int]));
                crate::rebalance::lemma_sum_push(vals.take(i as int), v);
                crate::rebalance::lemma_sum_push(shares@.take(i as int), shares@[i as int]);
                lemma_prefix_sum_le(shares@, i + 1);
                lemma_prefix_sum_le(vals, i + 1);
            }
            let tv = match total_value.checked_add(v) {
                Some(t) => t,
                None => {
                    return Err(VaultError::ArithmeticOverflow);
                },
            };
            let tsh = match total_shares.checked_add(shares[i]) {
                Some(t) => t,
                None => {
                    return Err(VaultError::ArithmeticOverflow);
                },
            };
            values.push(v);
            total_value = tv;
            total_shares = tsh;
            i = i + 1;
        }
        assert(vals.take(n as int) =~= vals);
        assert(shares@.take(n as int) =~= shares@);
        if total_value > self.total_pooled || total_shares > self.total_shares_minted {
            return Err(VaultError::ArithmeticOverflow);
        }
        Ok((values, total_value, total_shares))
    }

    /// Stamps the listed batches, found at `pos`, as finalized at `now`.
    fn stamp_batches(&mut self, batch_ids: &Vec<u64>, pos: &Vec<usize>, shares: &Vec<u128>, values: &Vec<u128>, now: u64, before: Ghost<Vault>)
        requires
            pos@.len() == batch_ids@.len(),
            values@.len() == batch_ids@.len(),
            shares@ == before@.batch_shares(batch_ids@),
            old(self).batch_unlock_requests == before@.batch_unlock_requests,
            forall|k: int| 0 <= k < batch_ids@.len() ==> last_with_key(before@.batch_unlock_requests@, #[trigger] pos@[k] as int, batch_ids@[k]),
        ensures
            final(self).batches() == stamped(before@.batches(), batch_ids@, values@, now, batch_ids@.len() as int),
            final(self).requests() == old(self).requests(),
            final(self).same_pool(old(self)),
    {
        let n = batch_ids.len();
        let mut i: usize = 0;
        while i < n
            invariant
                n == batch_ids@.len(),
                i <= n,
                pos@.len() == n,
                values@.len() == n,
                shares@ == before@.batch_shares(batch_ids@),
                self.batch_unlock_requests@.len() == before@.batch_unlock_requests@.len(),
                forall|j: int| 0 <= j < before@.batch_unlock_requests@.len() ==>
                    #[trigger] self.batch_unlock_requests@[j].0 == before@.batch_unlock_requests@[j].0,
                forall|k: int| 0 <= k < n ==> last_with_key(before@.batch_unlock_requests@, #[trigger] pos@[k] as int, batch_ids@[k]),
                self.batches() == stamped(before@.batches(), batch_ids@, values@, now, i as int),
                self.requests() == old(self).requests(),
                self.same_pool(old(self)),
            decreases n - i,
        {
            let batch = UnlockRequestBatch {
                total_shares: shares[i],
                value_at_redemption: Some(values[i]),
                redemption_timestamp: Some(now),
            };
            proof {
                let k = pos@[i as int] as int;
                assert(last_with_key(before@.batch_unlock_requests@, k, batch_ids@[i as int]));
                assert(last_with_key(self.batch_unlock_requests@, k, batch_ids@[i as int]));
            }
            self.set_batch(pos[i], batch_ids[i], batch);
            i = i + 1;
        }
    }
}

/// Checks that the ids are each before window `cur` and strictly
/// ascending, reporting the first offending position.
fn validate_batch_ids(batch_ids: &Vec<u64>, cur: u64) -> (r: Result<(), VaultError>)
    ensures
        r is Ok <==> ids_error(batch_ids@, cur as int) is None,
        r is Err ==> r == Err::<(), VaultError>(ids_error(batch_ids@, cur as int)->Some_0),
        r is Ok ==> ids_valid_upto(batch_ids@, cur as int, batch_ids@.len() as int),
{
    let n = batch_ids.len();
    let mut i: usize = 0;
    while i < n
        invariant
            n == batch_ids@.len(),
            i <= n,
            ids_valid_upto(batch_ids@, cur as int, i as int),
        decreases n - i,
    {
        if batch_ids[i] >= cur {
            proof {
                lemma_first_bad_unique(batch_ids@, cur as int, i as int);
            }
            return Err(VaultError::InvalidBatchUnlockRequest);
        }
        if i > 0 && batch_ids[i] <= batch_ids[i - 1] {
            proof {
                lemma_first_bad_unique(batch_ids@, cur as int, i as int);
            }
            return Err(VaultError::Duplication);
        }
        i = i + 1;
    }
    proof {
        assert forall|j: int| 0 <= j < batch_ids@.len() && ids_valid_upto(batch_ids@, cur as int, j)
            implies !(#[trigger] batch_ids@[j] >= cur) && !(j > 0 && batch_ids@[j] <= batch_ids@[j - 1]) by {
            assert(ids_valid_upto(batch_ids@, cur as int, n as int));
        }
    }
    Ok(())
}

/// Only the first position that breaks the rule has a valid prefix before it.
proof fn lemma_first_bad_unique(ids: Seq<u64>, cur: int, i: int)
    requires
        0 <= i < ids.len(),
        ids_valid_upto(ids, cur, i),
        !(ids[i] < cur && (i > 0 ==> ids[i - 1] < ids[i])),
    ensures
        forall|j: int| 0 <= j < ids.len() && ids_valid_upto(ids, cur, j) ==> j <= i,
{
    assert forall|j: int| 0 <= j < ids.len() && ids_valid_upto(ids, cur, j) implies j <= i by {
        if j > i {
            assert(ids[i] < cur && (i > 0 ==> ids[i - 1] < ids[i]));
        }
    }
}

impl Vault {
    /// Id of the batch whose window holds `now`.
    pub fn get_batch_id(&self, now: u64) -> (r: u64)
        requires
            self.wf(),
        ensures
            r == self.batch_id_spec(now),
    {
        self.get_batch_unlock_id(now)
    }

    pub fn get_creation_time(&self) -> (r: u64)
        ensures
            r == self.creation_time,
    {
        self.creation_time
    }

    pub fn get_role_owner(&self) -> (r: AccountId)
        ensures
            r == self.role_owner,
    {
        self.role_owner
    }

    pub fn get_role_adjust_fee(&self) -> (r: AccountId)
        ensures
            r == self.role_adjust_fee,
    {
        self.role_adjust_fee
    }

    pub fn get_role_adjust_fee_admin(&self) -> (r: AccountId)
        ensures
            r == self.role_adjust_fee_admin,
    {
        self.role_adjust_fee_admin
    }

    /// The base asset held by the pool.
    pub fn get_total_pooled(&self) -> (r: u128)
        ensures
            r == self.total_pooled,
    {
        self.total_pooled
    }

    pub fn get_minimum_stake(&self) -> (r: u128)
        ensures
            r == self.minimum_stake,
    {
        self.minimum_stake
    }

    pub fn get_fee_percentage(&self) -> (r: u16)
        ensures
            r == self.fee_percentage,
    {
        self.fee_percentage
    }

    pub fn get_incentive_percentage(&self) -> (r: u16)
        ensures
            r == self.incentive_percentage,
    {
        self.incentive_percentage
    }

    pub fn get_share_token_contract(&self) -> (r: AccountId)
        ensures
            r == self.shares_contract,
    {
        self.shares_contract
    }

    pub fn get_registry_contract(&self) -> (r: AccountId)
        ensures
            r == self.registry_contract,
    {
        self.registry_contract
    }

    /// The unlock requests of `user`, oldest first.
    pub fn get_unlock_requests(&self, user: AccountId) -> (r: Vec<UnlockRequest>)
        ensures
            r@ == self.requests_of(user),
    {
        match self.find_user(&user) {
            Some(i) => copy_requests(&self.user_unlock_requests[i].1),
            None => Vec::new(),
        }
    }

    /// How many unlock requests `user` has.
    pub fn get_unlock_request_count(&self, user: AccountId) -> (r: u128)
        ensures
            r == self.requests_of(user).len(),
    {
        match self.find_user(&user) {
            Some(i) => self.user_unlock_requests[i].1.len() as u128,
            None => 0,
        }
    }

    /// The record of batch `batch_id`: its shares, value and redemption time.
    pub fn get_batch_unlock_requests(&self, batch_id: u64) -> (r: Option<(u128, Option<u128>, Option<u64>)>)
        ensures
            r.is_some() <==> self.batches().contains_key(batch_id),
            r.is_some() ==> ({
                let b = self.batches()[batch_id];
                r.unwrap() == (b.total_shares, b.value_at_redemption, b.redemption_timestamp)
            }),
    {
        match self.find_batch(batch_id) {
            Some(i) => {
                let b = self.batch_unlock_requests[i].1;
                Some((b.total_shares, b.value_at_redemption, b.redemption_timestamp))
            },
            None => None,
        }
    }

    /// Targets and signed imbalances of the agents for a pool of
    /// `total_pooled` (see `weight_imbalances`).
    pub fn get_weight_imbalances(&self, agents: &Vec<AgentStake>, total_weight: u64, total_pooled: u128) -> (r: (
        u128,
        u128,
        Vec<u128>,
        Vec<i128>,
    ))
        requires
            forall|i: int| 0 <= i < agents@.len() ==> agents@[i].weight <= total_weight,
            total_weight > 0 ==> forall|i: int| 0 <= i < agents@.len() ==> agents@[i].staked <= i128::MAX,
            total_weight > 0 ==> total_pooled <= i128::MAX,
        ensures
            r.0 == total_weight,
            r.1 == total_pooled,
            total_weight == 0 ==> r.2@.len() == 0 && r.3@.len() == 0,
            total_weight > 0 ==> r.2@.len() == agents@.len() && r.3@.len() == agents@.len(),
            total_weight > 0 ==> forall|i: int| 0 <= i < agents@.len() ==> {
                &&& r.2@[i] == target_spec(agents@[i].weight as int, total_pooled as int, total_weight as int)
                &&& r.3@[i] == r.2@[i] - agents@[i].staked
            },
            weight_sum(agents@) == total_weight ==> sum_of(r.2@) <= total_pooled,
    {
        weight_imbalances(agents, total_weight, total_pooled)
    }
}

} // verus!
