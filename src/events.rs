//! Records of what the vault's operations did, for observers.
use crate::types::AccountId;
use vstd::prelude::*;

verus! {

#[derive(Clone, Copy, Debug)]
pub struct Staked {
    pub staker: AccountId,
    pub azero: u128,
    pub new_shares: u128,
    pub virtual_shares: u128,
}

#[derive(Clone, Copy, Debug)]
pub struct Compounded {
    pub caller: AccountId,
    pub azero: u128,
    pub incentive: u128,
    pub virtual_shares: u128,
}

#[derive(Clone, Copy, Debug)]
pub struct UnlockRequested {
    pub staker: AccountId,
    pub shares: u128,
    pub unlock_id: u128,
    pub batch_id: u64,
}

#[derive(Clone, Copy, Debug)]
pub struct UnlockCanceled {
    pub staker: AccountId,
    pub shares: u128,
    pub batch_id: u64,
    pub unlock_id: u128,
}

#[derive(Clone, Copy, Debug)]
pub struct BatchUnlockSent {
    pub batch_id: u64,
    pub shares: u128,
    pub virtual_shares: u128,
    pub spot_value: u128,
}

#[derive(Clone, Copy, Debug)]
pub struct UnlockRedeemed {
    pub staker: AccountId,
    pub azero: u128,
    pub batch_id: u64,
    pub unlock_id: u64,
}

#[derive(Clone, Copy, Debug)]
pub struct FeesWithdrawn {
    pub shares: u128,
}

#[derive(Clone, Copy, Debug)]
pub struct FeesAdjusted {
    pub new_fee: u16,
    pub virtual_shares: u128,
}

#[derive(Clone, Copy, Debug)]
pub struct IncentiveAdjusted {
    pub new_incentive: u16,
}

#[derive(Clone, Copy, Debug)]
pub struct MinimumStakeAdjusted {
    pub new_minimum_stake: u128,
}

#[derive(Clone, Copy, Debug)]
pub struct OwnershipTransferred {
    pub new_account: AccountId,
}

#[derive(Clone, Copy, Debug)]
pub struct RoleSetFeesTransferred {
    pub new_account: AccountId,
}

#[derive(Clone, Copy, Debug)]
pub struct RoleSetFeesAdminTransferred {
    pub new_account: AccountId,
}

} // verus!
