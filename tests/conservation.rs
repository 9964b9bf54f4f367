use vault::agent::NominationAgent;
use vault::types::{AccountId, AgentStake};
use vault::vault::{Vault, DAY};

const T0: u64 = 50_000;

fn vault_account() -> AccountId {
    AccountId([7u8; 32])
}

fn agents() -> Vec<NominationAgent> {
    let mut out = Vec::new();
    for k in 0..3u8 {
        let mut a = NominationAgent::deploy_hash(AccountId([100 + k; 32]));
        a.vault = vault_account();
        out.push(a);
    }
    out
}

fn view(agents: &[NominationAgent], weights: &[u64]) -> Vec<AgentStake> {
    agents.iter().zip(weights).map(|(a, w)| AgentStake { weight: *w, staked: a.get_staked_value() }).collect()
}

fn held(agents: &[NominationAgent]) -> u128 {
    agents.iter().map(|a| a.get_staked_value() + a.get_unbonding_value()).sum()
}

#[test]
fn pool_matches_agent_stakes() {
    let owner = AccountId([1u8; 32]);
    let user = AccountId([2u8; 32]);
    let weights = [1u64, 1, 2];
    let mut v = Vault::new(owner, AccountId([8u8; 32]), AccountId([9u8; 32]), T0);
    let mut ags = agents();

    for (k, amount) in [1000u128, 333, 70].into_iter().enumerate() {
        let (_, deposits) = v.stake(user, amount, T0 + k as u64, &view(&ags, &weights), 4).unwrap();
        for (a, d) in ags.iter_mut().zip(deposits) {
            a.deposit(vault_account(), d).unwrap();
        }
        assert_eq!(held(&ags), v.get_total_pooled());
    }

    let mut results = Vec::new();
    for a in ags.iter_mut() {
        results.push(a.compound(vault_account(), 10, 0).unwrap());
    }
    v.compound(&results).unwrap();
    assert_eq!(held(&ags), v.get_total_pooled());
    assert_eq!(v.get_total_pooled(), 1433);

    v.request_unlock(user, 500, T0 + 10).unwrap();
    let out = v.send_batch_unlock_requests(&vec![0], T0 + DAY, &view(&ags, &weights), 4).unwrap();
    for (a, u) in ags.iter_mut().zip(out.unbonds.iter()) {
        a.start_unbond(vault_account(), *u).unwrap();
    }
    assert_eq!(held(&ags), v.get_total_pooled());
    let unbonding: u128 = ags.iter().map(|a| a.get_unbonding_value()).sum();
    assert_eq!(unbonding, out.values[0]);
    assert_eq!(v.get_total_pooled(), 1433);

    let mut withdrawn = Vec::new();
    for a in ags.iter_mut() {
        let w = a.get_unbonding_value();
        withdrawn.push(a.withdraw_unbonded(vault_account(), w).unwrap());
    }
    v.book_withdrawn(&withdrawn).unwrap();
    assert_eq!(held(&ags), v.get_total_pooled());
    assert_eq!(v.get_total_pooled(), 1433 - out.values[0]);
}
