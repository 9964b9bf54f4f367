use vault::agent::{NominationAgent, PoolState, RuntimeError};
use vault::types::AccountId;

fn vault_id() -> AccountId {
    AccountId([1u8; 32])
}

fn registry() -> AccountId {
    AccountId([2u8; 32])
}

fn admin() -> AccountId {
    AccountId([3u8; 32])
}

fn agent() -> NominationAgent {
    NominationAgent::new(vault_id(), registry(), admin(), AccountId([4u8; 32]), 100, 1, 101)
}

#[test]
fn creation_starts_empty() {
    let a = agent();
    assert_eq!(a.get_staked_value(), 0);
    assert_eq!(a.get_unbonding_value(), 0);
    assert_eq!(a.get_pool_state(), PoolState::Open);
    assert_eq!(a.get_pool_id(), None);
    let d = NominationAgent::deploy_hash(admin());
    assert_eq!(d.get_vault(), admin());
}

#[test]
fn initialize_once_by_registry() {
    let mut a = agent();
    assert_eq!(a.initialize(vault_id(), 7), Err(RuntimeError::Unauthorized));
    a.initialize(registry(), 7).unwrap();
    assert_eq!(a.get_pool_id(), Some(7));
    assert_eq!(a.get_pool_state(), PoolState::Blocked);
    assert_eq!(a.initialize(registry(), 8), Err(RuntimeError::Initialized));
}

#[test]
fn stake_moves_through_counters() {
    let mut a = agent();
    a.deposit(vault_id(), 500).unwrap();
    assert_eq!(a.deposit(admin(), 5), Err(RuntimeError::Unauthorized));
    a.start_unbond(vault_id(), 200).unwrap();
    assert_eq!((a.get_staked_value(), a.get_unbonding_value()), (300, 200));
    assert_eq!(a.withdraw_unbonded(vault_id(), 150), Ok(150));
    assert_eq!(a.get_unbonding_value(), 50);
}

#[test]
fn compound_pays_incentive() {
    let mut a = agent();
    assert_eq!(a.compound(vault_id(), 1000, 250), Ok((975, 25)));
    assert_eq!(a.get_staked_value(), 975);
    assert_eq!(a.compound(vault_id(), 0, 250), Ok((0, 0)));
    assert_eq!(a.compound(admin(), 10, 250), Err(RuntimeError::Unauthorized));
}

#[test]
fn teardown_sequence() {
    let mut a = agent();
    assert_eq!(a.destroy(registry()), Err(RuntimeError::NotInitialized));
    a.initialize(registry(), 7).unwrap();
    a.deposit(vault_id(), 5).unwrap();
    assert_eq!(a.destroy(registry()), Err(RuntimeError::Active));
    a.start_unbond(vault_id(), 5).unwrap();
    a.withdraw_unbonded(vault_id(), 5).unwrap();
    assert_eq!(a.admin_unbond(admin()), Err(RuntimeError::InvalidPoolState));
    assert_eq!(a.destroy(registry()), Ok(7));
    assert_eq!(a.admin_unbond(registry()), Err(RuntimeError::Unauthorized));
    assert_eq!(a.admin_unbond(admin()), Ok(100));
    assert_eq!(a.admin_withdraw_bond(admin()), Ok(()));
}
