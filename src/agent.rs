use crate::math::{pro_rata, pro_rata_spec};
use crate::types::AccountId;
use crate::vault::BIPS;
use vstd::prelude::*;

verus! {

/// Lifecycle of the nomination pool an agent runs.
#[derive(Clone, Copy, Debug, PartialEq, Eq, Structural)]
pub enum PoolState {
    Open,
    Blocked,
    Destroying,
}

/// Reasons an agent refuses an operation; nothing is changed when one is
/// returned.
#[derive(Clone, Copy, Debug, PartialEq, Eq, Structural)]
pub enum RuntimeError {
    Unauthorized,
    Initialized,
    NotInitialized,
    Active,
    InvalidPoolState,
    CallRuntimeFailed,
}

/// A staking agent: one stake position with one validator, driven by the
/// vault. `staked` and `unbonding` are its own counters of the vault's funds.
pub struct NominationAgent {
    pub vault: AccountId,
    pub registry: AccountId,
    pub admin: AccountId,
    pub validator: AccountId,
    pub pool_id: Option<u32>,
    pub pool_state: PoolState,
    pub staked: u128,
    pub unbonding: u128,
    pub creation_bond: u128,
}

impl NominationAgent {
    /// A placeholder agent whose every role is `account_id`.
    pub fn deploy_hash(account_id: AccountId) -> (r: NominationAgent)
        ensures
            r.vault == account_id && r.registry == account_id && r.admin == account_id && r.validator == account_id,
            r.pool_id.is_none() && r.pool_state == PoolState::Open,
            r.staked == 0 && r.unbonding == 0 && r.creation_bond == 0,
    {
        NominationAgent {
            vault: account_id,
            registry: account_id,
            admin: account_id,
            validator: account_id,
            pool_id: None,
            pool_state: PoolState::Open,
            staked: 0,
            unbonding: 0,
            creation_bond: 0,
        }
    }

    /// An agent created by `registry`, which was paid exactly the creation
    /// bond plus the existential deposit.
    pub fn new(
        vault: AccountId,
        registry: AccountId,
        admin: AccountId,
        validator: AccountId,
        creation_bond: u128,
        existential_deposit: u128,
        transferred: u128,
    ) -> (r: NominationAgent)
        requires
            transferred == creation_bond + existential_deposit,
        ensures
            r.vault == vault && r.registry == registry && r.admin == admin && r.validator == validator,
            r.pool_id.is_none() && r.pool_state == PoolState::Open,
            r.staked == 0 && r.unbonding == 0 && r.creation_bond == creation_bond,
    {
        NominationAgent {
            vault,
            registry,
            admin,
            validator,
            pool_id: None,
            pool_state: PoolState::Open,
            staked: 0,
            unbonding: 0,
            creation_bond,
        }
    }

    /// Records the pool the agent runs and closes it to others (registry only, once).
    pub fn initialize(&mut self, caller: AccountId, pool_id: u32) -> (r: Result<(), RuntimeError>)
        ensures
            r == Err::<(), RuntimeError>(RuntimeError::Unauthorized) <==> caller != old(self).registry,
            r == Err::<(), RuntimeError>(RuntimeError::Initialized) <==> caller == old(self).registry && old(self).pool_id.is_some(),
            r is Ok <==> caller == old(self).registry && old(self).pool_id.is_none(),
            r is Err ==> *final(self) == *old(self),
            r is Ok ==> *final(self) == (NominationAgent { pool_id: Some(pool_id), pool_state: PoolState::Blocked, ..*old(self) }),
    {
        if !caller.same(&self.registry) {
            return Err(RuntimeError::Unauthorized);
        }
        if self.pool_id.is_some() {
            return Err(RuntimeError::Initialized);
        }
        self.pool_state = PoolState::Blocked;
        self.pool_id = Some(pool_id);
        Ok(())
    }

    /// Books a deposit of `amount` from the vault as staked.
    pub fn deposit(&mut self, caller: AccountId, amount: u128) -> (r: Result<(), RuntimeError>)
        requires
            old(self).staked + amount <= u128::MAX,
        ensures
            r is Err <==> caller != old(self).vault,
            r is Err ==> r == Err::<(), RuntimeError>(RuntimeError::Unauthorized) && *final(self) == *old(self),
            r is Ok ==> *final(self) == (NominationAgent { staked: (old(self).staked + amount) as u128, ..*old(self) }),
    {
        if !caller.same(&self.vault) {
            return Err(RuntimeError::Unauthorized);
        }
        self.staked = self.staked + amount;
        Ok(())
    }

    /// Moves `amount` from staked to unbonding at the vault's request.
    pub fn start_unbond(&mut self, caller: AccountId, amount: u128) -> (r: Result<(), RuntimeError>)
        requires
            amount <= old(self).staked,
            old(self).unbonding + amount <= u128::MAX,
        ensures
            r is Err <==> caller != old(self).vault,
            r is Err ==> r == Err::<(), RuntimeError>(RuntimeError::Unauthorized) && *final(self) == *old(self),
            r is Ok ==> *final(self) == (NominationAgent {
                staked: (old(self).staked - amount) as u128,
                unbonding: (old(self).unbonding + amount) as u128,
                ..*old(self)
            }),
    {
        if !caller.same(&self.vault) {
            return Err(RuntimeError::Unauthorized);
        }
        self.staked = self.staked - amount;
        self.unbonding = self.unbonding + amount;
        Ok(())
    }

    /// Books `withdrawn`, the balance the pool released, as no longer
    /// unbonding. Returns what to transfer to the vault.
    pub fn withdraw_unbonded(&mut self, caller: AccountId, withdrawn: u128) -> (r: Result<u128, RuntimeError>)
        requires
            withdrawn <= old(self).unbonding,
        ensures
            r is Err <==> caller != old(self).vault,
            r is Err ==> r == Err::<u128, RuntimeError>(RuntimeError::Unauthorized) && *final(self) == *old(self),
            r is Ok ==> r->Ok_0 == withdrawn
                && *final(self) == (NominationAgent { unbonding: (old(self).unbonding - withdrawn) as u128, ..*old(self) }),
    {
        if !caller.same(&self.vault) {
            return Err(RuntimeError::Unauthorized);
        }
        self.unbonding = self.unbonding - withdrawn;
        Ok(withdrawn)
    }

    /// Splits claimed `rewards` into the caller's incentive
    /// (`incentive_percentage` basis points, rounded down) and the rest,
    /// which is bonded again. Returns `(compounded, incentive)`.
    pub fn compound(&mut self, caller: AccountId, rewards: u128, incentive_percentage: u16) -> (r: Result<(u128, u128), RuntimeError>)
        requires
            incentive_percentage <= BIPS,
            old(self).staked + rewards <= u128::MAX,
        ensures
            r is Err <==> caller != old(self).vault,
            r is Err ==> r == Err::<(u128, u128), RuntimeError>(RuntimeError::Unauthorized) && *final(self) == *old(self),
            r is Ok ==> ({
                let incentive = pro_rata_spec(rewards as int, incentive_percentage as int, BIPS as int);
                &&& r->Ok_0 == ((rewards - incentive) as u128, incentive as u128)
                &&& *final(self) == (NominationAgent { staked: (old(self).staked + rewards - incentive) as u128, ..*old(self) })
            }),
    {
        if !caller.same(&self.vault) {
            return Err(RuntimeError::Unauthorized);
        }
        proof {
            assert(0 <= rewards as int * incentive_percentage as int / BIPS as int <= rewards) by (nonlinear_arith)
                requires incentive_percentage <= BIPS, rewards >= 0;
        }
        let incentive = match pro_rata(rewards, incentive_percentage as u128, BIPS as u128) {
            Some(i) => i,
            None => 0,
        };
        let compounded = rewards - incentive;
        self.staked = self.staked + compounded;
        Ok((compounded, incentive))
    }

    /// Starts tearing down the pool (registry only): no funds of the vault
    /// may remain. Returns the pool id.
    pub fn destroy(&mut self, caller: AccountId) -> (r: Result<u32, RuntimeError>)
        ensures
            r == Err::<u32, RuntimeError>(RuntimeError::Unauthorized) <==> caller != old(self).registry,
            r == Err::<u32, RuntimeError>(RuntimeError::Active) <==> caller == old(self).registry
                && (old(self).staked > 0 || old(self).unbonding > 0),
            r == Err::<u32, RuntimeError>(RuntimeError::NotInitialized) <==> caller == old(self).registry
                && old(self).staked == 0 && old(self).unbonding == 0 && old(self).pool_id.is_none(),
            r is Ok <==> caller == old(self).registry && old(self).staked == 0 && old(self).unbonding == 0
                && old(self).pool_id.is_some(),
            r is Err ==> *final(self) == *old(self),
            r is Ok ==> old(self).pool_id == Some(r->Ok_0)
                && *final(self) == (NominationAgent { pool_state: PoolState::Destroying, ..*old(self) }),
    {
        if !caller.same(&self.registry) {
            return Err(RuntimeError::Unauthorized);
        }
        if self.staked > 0 || self.unbonding > 0 {
            return Err(RuntimeError::Active);
        }
        match self.pool_id {
            Some(id) => {
                self.pool_state = PoolState::Destroying;
                Ok(id)
            },
            None => Err(RuntimeError::NotInitialized),
        }
    }

    /// Releases the creation bond of a pool being torn down (admin only).
    /// Returns the bond to unbond.
    pub fn admin_unbond(&mut self, caller: AccountId) -> (r: Result<u128, RuntimeError>)
        ensures
            r == Err::<u128, RuntimeError>(RuntimeError::Unauthorized) <==> caller != old(self).admin,
            r == Err::<u128, RuntimeError>(RuntimeError::InvalidPoolState) <==> caller == old(self).admin
                && old(self).pool_state != PoolState::Destroying,
            r is Ok <==> caller == old(self).admin && old(self).pool_state == PoolState::Destroying,
            r is Err ==> *final(self) == *old(self),
            r is Ok ==> r->Ok_0 == old(self).creation_bond && *final(self) == (NominationAgent { creation_bond: 0, ..*old(self) }),
    {
        if !caller.same(&self.admin) {
            return Err(RuntimeError::Unauthorized);
        }
        if self.pool_state != PoolState::Destroying {
            return Err(RuntimeError::InvalidPoolState);
        }
        let bond = self.creation_bond;
        self.creation_bond = 0;
        Ok(bond)
    }

    /// Whether the admin may withdraw the released bond now.
    pub fn admin_withdraw_bond(&self, caller: AccountId) -> (r: Result<(), RuntimeError>)
        ensures
            r == Err::<(), RuntimeError>(RuntimeError::Unauthorized) <==> caller != self.admin,
            r == Err::<(), RuntimeError>(RuntimeError::InvalidPoolState) <==> caller == self.admin
                && self.pool_state != PoolState::Destroying,
            r is Ok <==> caller == self.admin && self.pool_state == PoolState::Destroying,
    {
        if !caller.same(&self.admin) {
            return Err(RuntimeError::Unauthorized);
        }
        if self.pool_state != PoolState::Destroying {
            return Err(RuntimeError::InvalidPoolState);
        }
        Ok(())
    }

    pub fn get_staked_value(&self) -> (r: u128)
        ensures
            r == self.staked,
    {
        self.staked
    }

    pub fn get_unbonding_value(&self) -> (r: u128)
        ensures
            r == self.unbonding,
    {
        self.unbonding
    }

    pub fn get_vault(&self) -> (r: AccountId)
        ensures
            r == self.vault,
    {
        self.vault
    }

    pub fn get_admin(&self) -> (r: AccountId)
        ensures
            r == self.admin,
    {
        self.admin
    }

    pub fn get_validator(&self) -> (r: AccountId)
        ensures
            r == self.validator,
    {
        self.validator
    }

    pub fn get_pool_id(&self) -> (r: Option<u32>)
        ensures
            r == self.pool_id,
    {
        self.pool_id
    }

    pub fn get_pool_state(&self) -> (r: PoolState)
        ensures
            r == self.pool_state,
    {
        self.pool_state
    }
}

} // verus!
