use vault::math::pro_rata;
use vault::types::{AccountId, AgentStake, UnlockRequest, VaultError};
use vault::vault::{Vault, COOLDOWN_PERIOD, DAY, YEAR};

const T0: u64 = 1_000_000;

fn owner() -> AccountId {
    AccountId([1u8; 32])
}

fn alice() -> AccountId {
    AccountId([2u8; 32])
}

fn bob() -> AccountId {
    AccountId([3u8; 32])
}

fn fresh() -> Vault {
    Vault::new(owner(), AccountId([8u8; 32]), AccountId([9u8; 32]), T0)
}

fn one_agent(staked: u128) -> Vec<AgentStake> {
    vec![AgentStake { weight: 1, staked }]
}

#[test]
fn pro_rata_rounds_down() {
    assert_eq!(pro_rata(7, 3, 2), Some(10));
    assert_eq!(pro_rata(1, 1, 3), Some(0));
    assert_eq!(pro_rata(400, 1000, 1000), Some(400));
}

#[test]
fn pro_rata_uses_a_wide_product() {
    assert_eq!(pro_rata(u128::MAX, u128::MAX, u128::MAX), Some(u128::MAX));
    assert_eq!(pro_rata(u128::MAX, 3, 4), Some(u128::MAX / 4 * 3 + 2));
    assert_eq!(pro_rata(1u128 << 127, 4, 2), None);
}

#[test]
fn first_deposit_is_one_to_one() {
    let v = fresh();
    assert_eq!(v.get_total_pooled(), 0);
    assert_eq!(v.get_shares_from_azero(1000, T0), Some(1000));
}

#[test]
fn round_trip_never_gains() {
    let mut v = fresh();
    v.stake(alice(), 1000, T0, &one_agent(0), 1).unwrap();
    v.compound(&vec![(7, 0)]).unwrap();
    for x in [1u128, 3, 10, 999, 1000, 12345] {
        let s = v.get_shares_from_azero(x, T0).unwrap();
        let back = v.get_azero_from_shares(s, T0).unwrap();
        assert!(back <= x);
    }
    assert_eq!(v.get_shares_from_azero(10, T0), Some(9));
    assert_eq!(v.get_azero_from_shares(9, T0), Some(9));
}

#[test]
fn stake_mints_and_routes() {
    let mut v = fresh();
    let (shares, deposits) = v.stake(alice(), 1000, T0, &one_agent(0), 1).unwrap();
    assert_eq!(shares, 1000);
    assert_eq!(deposits, vec![1000]);
    assert_eq!(v.get_total_pooled(), 1000);
    assert_eq!(v.get_total_shares(T0), Some(1000));
}

#[test]
fn stake_below_minimum_is_refused() {
    let mut v = fresh();
    v.adjust_minimum_stake(owner(), 500).unwrap();
    assert_eq!(v.stake(alice(), 499, T0, &one_agent(0), 1), Err(VaultError::MinimumStake));
    assert_eq!(v.get_total_pooled(), 0);
}

#[test]
fn stake_without_agents_is_refused() {
    let mut v = fresh();
    assert_eq!(v.stake(alice(), 10, T0, &vec![], 0), Err(VaultError::NoAgents));
}

#[test]
fn fee_accrues_linearly() {
    let mut v = fresh();
    v.stake(alice(), 1000, T0, &one_agent(0), 1).unwrap();
    v.adjust_fee(owner(), 1000, T0).unwrap();
    assert_eq!(v.get_current_virtual_shares(T0 + YEAR), Some(100));
    assert_eq!(v.get_current_virtual_shares(T0 + YEAR / 2), Some(50));
    assert_eq!(v.get_total_shares(T0 + YEAR), Some(1100));
    v.withdraw_fees(owner(), T0 + YEAR).unwrap();
    assert_eq!(v.get_current_virtual_shares(T0 + YEAR), Some(0));
    assert_eq!(v.get_total_shares(T0 + YEAR), Some(1100));
}

#[test]
fn fee_withdrawal_needs_owner() {
    let mut v = fresh();
    assert_eq!(v.withdraw_fees(alice(), T0), Err(VaultError::InvalidPermissions));
}

#[test]
fn fee_adjustment_rules() {
    let mut v = fresh();
    assert_eq!(v.adjust_fee(alice(), 10, T0), Err(VaultError::InvalidPermissions));
    assert_eq!(v.adjust_fee(owner(), 0, T0), Err(VaultError::NoChange));
    assert_eq!(v.adjust_fee(owner(), 10000, T0), Err(VaultError::InvalidPercent));
    assert_eq!(v.adjust_incentive(owner(), 10000), Err(VaultError::InvalidPercent));
    v.adjust_incentive(owner(), 250).unwrap();
    assert_eq!(v.get_incentive_percentage(), 250);
}

#[test]
fn role_transfers() {
    let mut v = fresh();
    assert_eq!(v.transfer_role_owner(owner(), owner()), Err(VaultError::NoChange));
    v.transfer_role_owner(owner(), alice()).unwrap();
    assert_eq!(v.get_role_owner(), alice());
    assert_eq!(v.transfer_role_owner(owner(), bob()), Err(VaultError::InvalidPermissions));
    v.transfer_role_adjust_fee(owner(), bob()).unwrap();
    assert_eq!(v.get_role_adjust_fee(), bob());
    v.transfer_role_adjust_fee_admin(owner(), alice()).unwrap();
    assert_eq!(v.get_role_adjust_fee_admin(), alice());
    assert_eq!(v.transfer_role_adjust_fee(owner(), owner()), Err(VaultError::InvalidPermissions));
}

#[test]
fn cancel_in_same_window_succeeds() {
    let mut v = fresh();
    v.stake(alice(), 1000, T0, &one_agent(0), 1).unwrap();
    v.request_unlock(alice(), 100, T0 + 5).unwrap();
    v.request_unlock(alice(), 200, T0 + 6).unwrap();
    assert_eq!(v.cancel_unlock_request(alice(), 0, T0 + 7), Ok(100));
    assert_eq!(v.get_unlock_request_count(alice()), 1);
    assert_eq!(v.get_unlock_requests(alice())[0].share_amount, 200);
    assert_eq!(v.get_batch_unlock_requests(0), Some((200, None, None)));
}

#[test]
fn cancel_in_next_window_fails() {
    let mut v = fresh();
    v.stake(alice(), 1000, T0, &one_agent(0), 1).unwrap();
    let t = T0 + 10;
    assert_eq!(v.request_unlock(alice(), 100, t), Ok((0, 0)));
    assert_eq!(v.cancel_unlock_request(alice(), 0, t + DAY), Err(VaultError::InvalidBatchUnlockRequest));
    assert_eq!(v.cancel_unlock_request(alice(), 1, t), Err(VaultError::InvalidUserUnlockRequest));
    assert_eq!(v.cancel_unlock_request(bob(), 0, t), Err(VaultError::InvalidUserUnlockRequest));
}

#[test]
fn finalizing_twice_fails() {
    let mut v = fresh();
    v.stake(alice(), 1000, T0, &one_agent(0), 1).unwrap();
    v.request_unlock(alice(), 400, T0).unwrap();
    let now = T0 + DAY;
    v.send_batch_unlock_requests(&vec![0], now, &one_agent(1000), 1).unwrap();
    let again = v.send_batch_unlock_requests(&vec![0], now + 1, &one_agent(600), 1);
    assert_eq!(again.err(), Some(VaultError::InvalidBatchUnlockRequest));
}

#[test]
fn batch_ids_are_checked() {
    let mut v = fresh();
    v.stake(alice(), 1000, T0, &one_agent(0), 1).unwrap();
    v.request_unlock(alice(), 100, T0).unwrap();
    v.request_unlock(alice(), 100, T0 + DAY).unwrap();
    let now = T0 + 3 * DAY;
    let current = v.send_batch_unlock_requests(&vec![3], now, &one_agent(1000), 1);
    assert_eq!(current.err(), Some(VaultError::InvalidBatchUnlockRequest));
    let unsorted = v.send_batch_unlock_requests(&vec![1, 0], now, &one_agent(1000), 1);
    assert_eq!(unsorted.err(), Some(VaultError::Duplication));
    let repeated = v.send_batch_unlock_requests(&vec![0, 0], now, &one_agent(1000), 1);
    assert_eq!(repeated.err(), Some(VaultError::Duplication));
    let missing = v.send_batch_unlock_requests(&vec![2], now, &one_agent(1000), 1);
    assert_eq!(missing.err(), Some(VaultError::InvalidBatchUnlockRequest));
    let short = v.send_batch_unlock_requests(&vec![0, 1], now, &one_agent(150), 1);
    assert_eq!(short.err(), Some(VaultError::InsufficientStake));
    let both = v.send_batch_unlock_requests(&vec![0, 1], now, &one_agent(1000), 1).unwrap();
    assert_eq!(both.values, vec![100, 100]);
    assert_eq!(both.burned_shares, 200);
    assert_eq!(both.unbonds, vec![200]);
    assert_eq!(v.get_total_pooled(), 1000);
    assert_eq!(v.book_withdrawn(&vec![200]), Ok(200));
    assert_eq!(v.get_total_pooled(), 800);
    assert_eq!(v.book_withdrawn(&vec![500, 301]), Err(VaultError::ArithmeticOverflow));
    assert_eq!(v.get_total_pooled(), 800);
}

#[test]
fn redeem_waits_for_cooldown() {
    let mut v = fresh();
    v.stake(alice(), 1000, T0, &one_agent(0), 1).unwrap();
    v.request_unlock(alice(), 400, T0).unwrap();
    assert_eq!(v.redeem(alice(), 0, T0 + 1), Err(VaultError::InvalidBatchUnlockRequest));
    let sent_at = T0 + DAY;
    v.send_batch_unlock_requests(&vec![0], sent_at, &one_agent(1000), 1).unwrap();
    assert_eq!(v.redeem(alice(), 0, sent_at + COOLDOWN_PERIOD - 1), Err(VaultError::CooldownPeriod));
    assert_eq!(v.redeem(alice(), 0, sent_at + COOLDOWN_PERIOD), Ok(400));
    assert_eq!(v.redeem(alice(), 0, sent_at + COOLDOWN_PERIOD), Err(VaultError::InvalidUserUnlockRequest));
}

#[test]
fn weights_set_targets_and_deposit_goes_to_largest_gap() {
    let v = fresh();
    let agents = vec![
        AgentStake { weight: 1, staked: 100 },
        AgentStake { weight: 1, staked: 110 },
        AgentStake { weight: 2, staked: 140 },
    ];
    let (tw, tp, targets, imbalances) = v.get_weight_imbalances(&agents, 4, 400);
    assert_eq!((tw, tp), (4, 400));
    assert_eq!(targets, vec![100, 100, 200]);
    assert_eq!(imbalances, vec![0, -10, 60]);
    let plan = vault::rebalance::plan_bonding(&agents, 4, 400, 50).unwrap();
    assert_eq!(plan, vec![0, 0, 50]);
}

#[test]
fn imbalances_empty_without_weight() {
    let (tw, tp, targets, imbalances) = vault::rebalance::weight_imbalances(&vec![], 0, 400);
    assert_eq!((tw, tp), (0, 400));
    assert!(targets.is_empty() && imbalances.is_empty());
}

#[test]
fn deposit_beyond_deficits_is_spread_by_weight() {
    let agents = vec![
        AgentStake { weight: 1, staked: 0 },
        AgentStake { weight: 0, staked: 0 },
        AgentStake { weight: 2, staked: 0 },
    ];
    let plan = vault::rebalance::plan_bonding(&agents, 3, 0, 10).unwrap();
    assert_eq!(plan, vec![3, 0, 7]);
}

#[test]
fn unbonding_takes_from_overweight_first() {
    let agents = vec![
        AgentStake { weight: 1, staked: 100 },
        AgentStake { weight: 1, staked: 300 },
    ];
    let plan = vault::rebalance::plan_unbonding(&agents, 2, 300, 100).unwrap();
    assert_eq!(plan, vec![0, 100]);
    let plan = vault::rebalance::plan_unbonding(&agents, 2, 300, 350).unwrap();
    assert_eq!(plan.iter().sum::<u128>(), 350);
    assert!(plan[0] <= 100 && plan[1] <= 300);
    assert_eq!(vault::rebalance::plan_unbonding(&agents, 2, 300, 401), Err(VaultError::InsufficientStake));
}

#[test]
fn fill_goes_to_largest_room_first() {
    let (given, left) = vault::rebalance::fill_largest_first(&vec![5, 9, 9, 2], 12);
    assert_eq!(given, vec![0, 9, 3, 0]);
    assert_eq!(left, 0);
    let (given, left) = vault::rebalance::fill_largest_first(&vec![1, 2], 5);
    assert_eq!(given, vec![1, 2]);
    assert_eq!(left, 2);
}

#[test]
fn compound_grows_the_pool() {
    let mut v = fresh();
    v.stake(alice(), 1000, T0, &one_agent(0), 1).unwrap();
    assert_eq!(v.compound(&vec![(30, 3), (20, 2)]), Ok((50, 5)));
    assert_eq!(v.get_total_pooled(), 1050);
    assert_eq!(v.compound(&vec![(u128::MAX, 0)]), Err(VaultError::ArithmeticOverflow));
}

#[test]
fn deposit_unlock_finalize_redeem() {
    let mut v = fresh();
    let (shares, _) = v.stake(alice(), 1000, T0, &one_agent(0), 1).unwrap();
    assert_eq!(shares, 1000);
    assert_eq!(v.request_unlock(alice(), 400, T0 + 1), Ok((0, 0)));
    let now = T0 + DAY;
    assert_eq!(v.get_batch_id(now), 1);
    let out = v.send_batch_unlock_requests(&vec![0], now, &one_agent(1000), 1).unwrap();
    assert_eq!(out.values, vec![400]);
    assert_eq!(v.get_batch_unlock_requests(0), Some((400, Some(400), Some(now))));
    assert_eq!(v.get_total_pooled(), 1000);
    let paid = v.redeem(alice(), 0, now + COOLDOWN_PERIOD + 1).unwrap();
    assert_eq!(paid, 400);
    assert_eq!(v.get_unlock_requests(alice()), Vec::<UnlockRequest>::new());
}

#[test]
fn stake_overflow_is_refused() {
    let mut v = fresh();
    v.stake(alice(), u128::MAX, T0, &one_agent(0), 1).unwrap();
    assert_eq!(v.stake(bob(), 1, T0, &one_agent(u128::MAX), 1), Err(VaultError::ArithmeticOverflow));
    assert_eq!(v.get_total_pooled(), u128::MAX);
}

#[test]
fn custom_windows_set_batch_ids() {
    let v = Vault::custom_era(owner(), AccountId([8u8; 32]), AccountId([9u8; 32]), T0, 100);
    assert_eq!(v.get_creation_time(), T0);
    assert_eq!(v.get_batch_id(T0 + 99), 0);
    assert_eq!(v.get_batch_id(T0 + 100), 1);
    assert_eq!(v.get_batch_id(T0 + 250), 2);
    assert_eq!(v.get_batch_id(T0 - 5), 0);
    assert_eq!(v.get_share_token_contract(), AccountId([8u8; 32]));
    assert_eq!(v.get_registry_contract(), AccountId([9u8; 32]));
    assert_eq!(v.get_minimum_stake(), 0);
    assert_eq!(v.get_fee_percentage(), 0);
}

#[test]
fn owner_check() {
    let v = fresh();
    assert_eq!(v.check_owner(owner()), Ok(()));
    assert_eq!(v.check_owner(alice()), Err(VaultError::InvalidPermissions));
}

#[test]
fn imbalances_need_no_bound_without_weight() {
    let v = fresh();
    let (_, _, targets, _) = v.get_weight_imbalances(&vec![AgentStake { weight: 0, staked: u128::MAX }], 0, u128::MAX);
    assert!(targets.is_empty());
}

#[test]
fn deposit_fills_deficits_in_order_then_spreads() {
    let agents = vec![
        AgentStake { weight: 1, staked: 100 },
        AgentStake { weight: 1, staked: 80 },
        AgentStake { weight: 2, staked: 170 },
    ];
    assert_eq!(vault::rebalance::plan_bonding(&agents, 4, 400, 40).unwrap(), vec![0, 10, 30]);
    assert_eq!(vault::rebalance::plan_bonding(&agents, 4, 400, 50).unwrap(), vec![0, 20, 30]);
    assert_eq!(vault::rebalance::plan_bonding(&agents, 4, 400, 60).unwrap(), vec![2, 22, 36]);
}

#[test]
fn unbonding_drains_excess_in_order_then_stakes() {
    let agents = vec![
        AgentStake { weight: 1, staked: 100 },
        AgentStake { weight: 1, staked: 300 },
        AgentStake { weight: 1, staked: 250 },
    ];
    assert_eq!(vault::rebalance::plan_unbonding(&agents, 3, 600, 120).unwrap(), vec![0, 100, 20]);
    assert_eq!(vault::rebalance::plan_unbonding(&agents, 3, 600, 200).unwrap(), vec![0, 150, 50]);
}
