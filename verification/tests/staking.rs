use nft_staking::errors::StakeError;
use nft_staking::ledger::StakeLedger;
use nft_staking::protocol::StakingProtocol;
use nft_staking::registry::AssetRef;
use nft_staking::registry::AssetRegistry;
use nft_staking::registry::Holding;
use nft_staking::registry::RewardAccount;
use nft_staking::reward::compute_reward;

const HOLDER: u64 = 1;
const TOKEN_ACCOUNT: u64 = 2;
const ASSET: u64 = 3;
const MASTER: u64 = 4;
const REWARD_ACCOUNT: u64 = 5;
const CUSTODY: u64 = 6;

/// One holder controlling one unlocked token account holding one unique
/// token, with a reward account at balance zero and nothing staked.
fn world() -> StakingProtocol {
    let registry = AssetRegistry {
        holdings: vec![Holding {
            id: TOKEN_ACCOUNT,
            owner: HOLDER,
            asset: ASSET,
            balance: 1,
            delegate: None,
            locked: false,
        }],
        assets: vec![AssetRef { asset: ASSET, master_record: MASTER }],
        reward_accounts: vec![RewardAccount { id: REWARD_ACCOUNT, balance: 0 }],
    };
    StakingProtocol { registry, ledger: StakeLedger { records: Vec::new() }, custody_authority: CUSTODY }
}

#[test]
fn stake_creates_record_and_locks() {
    let mut p = world();
    assert_eq!(p.stake(HOLDER, TOKEN_ACCOUNT, MASTER, ASSET, 1000), Ok(()));
    assert!(p.is_staked(HOLDER, TOKEN_ACCOUNT));
    assert_eq!(p.staked_at(HOLDER, TOKEN_ACCOUNT), Some(1000));
    assert_eq!(p.ledger.records.len(), 1);
    let h = p.registry.holding_state(TOKEN_ACCOUNT).unwrap();
    assert_eq!(h.delegate, Some(CUSTODY));
    assert!(h.locked);
    assert_eq!(h.owner, HOLDER);
    assert_eq!(h.balance, 1);
}

#[test]
fn scenario_stake_then_unstake_pays_elapsed_reward() {
    let mut p = world();
    assert_eq!(p.stake(HOLDER, TOKEN_ACCOUNT, MASTER, ASSET, 1000), Ok(()));
    let receipt = p
        .unstake(HOLDER, TOKEN_ACCOUNT, MASTER, ASSET, REWARD_ACCOUNT, 1500)
        .unwrap();
    assert_eq!(receipt.reward, 500);
    assert!(receipt.reward_issued);
    assert!(!p.is_staked(HOLDER, TOKEN_ACCOUNT));
    assert_eq!(p.ledger.records.len(), 0);
    let h = p.registry.holding_state(TOKEN_ACCOUNT).unwrap();
    assert_eq!(h.delegate, None);
    assert!(!h.locked);
    assert_eq!(p.registry.reward_balance_of(REWARD_ACCOUNT), Some(500));
}

#[test]
fn scenario_second_stake_already_staked() {
    let mut p = world();
    assert_eq!(p.stake(HOLDER, TOKEN_ACCOUNT, MASTER, ASSET, 1000), Ok(()));
    assert_eq!(
        p.stake(HOLDER, TOKEN_ACCOUNT, MASTER, ASSET, 1200),
        Err(StakeError::AlreadyStaked)
    );
    assert_eq!(p.staked_at(HOLDER, TOKEN_ACCOUNT), Some(1000));
    let h = p.registry.holding_state(TOKEN_ACCOUNT).unwrap();
    assert_eq!(h.delegate, Some(CUSTODY));
    assert!(h.locked);
}

#[test]
fn scenario_unstake_without_record_not_staked() {
    let mut p = world();
    assert_eq!(
        p.unstake(HOLDER, TOKEN_ACCOUNT, MASTER, ASSET, REWARD_ACCOUNT, 1500),
        Err(StakeError::NotStaked)
    );
    let h = p.registry.holding_state(TOKEN_ACCOUNT).unwrap();
    assert_eq!(h.delegate, None);
    assert!(!h.locked);
    assert_eq!(p.registry.reward_balance_of(REWARD_ACCOUNT), Some(0));
}

#[test]
fn scenario_reward_failure_still_releases() {
    let mut p = world();
    p.registry.reward_accounts = Vec::new();
    assert_eq!(p.stake(HOLDER, TOKEN_ACCOUNT, MASTER, ASSET, 1000), Ok(()));
    let receipt = p
        .unstake(HOLDER, TOKEN_ACCOUNT, MASTER, ASSET, REWARD_ACCOUNT, 1500)
        .unwrap();
    assert_eq!(receipt.reward, 500);
    assert!(!receipt.reward_issued);
    assert!(!p.is_staked(HOLDER, TOKEN_ACCOUNT));
    assert_eq!(p.ledger.records.len(), 0);
    let h = p.registry.holding_state(TOKEN_ACCOUNT).unwrap();
    assert_eq!(h.delegate, None);
    assert!(!h.locked);
}

#[test]
fn reward_overflow_is_a_recorded_failure() {
    let mut p = world();
    p.registry.reward_accounts = vec![RewardAccount { id: REWARD_ACCOUNT, balance: u64::MAX - 10 }];
    assert_eq!(p.stake(HOLDER, TOKEN_ACCOUNT, MASTER, ASSET, 1000), Ok(()));
    let receipt = p
        .unstake(HOLDER, TOKEN_ACCOUNT, MASTER, ASSET, REWARD_ACCOUNT, 1500)
        .unwrap();
    assert_eq!(receipt.reward, 500);
    assert!(!receipt.reward_issued);
    assert_eq!(p.registry.reward_balance_of(REWARD_ACCOUNT), Some(u64::MAX - 10));
    assert!(!p.is_staked(HOLDER, TOKEN_ACCOUNT));
}

#[test]
fn stake_by_non_owner_is_denied() {
    let mut p = world();
    let stranger: u64 = 99;
    assert_eq!(
        p.stake(stranger, TOKEN_ACCOUNT, MASTER, ASSET, 1000),
        Err(StakeError::DelegationDenied)
    );
    assert!(!p.is_staked(stranger, TOKEN_ACCOUNT));
    let h = p.registry.holding_state(TOKEN_ACCOUNT).unwrap();
    assert_eq!(h.delegate, None);
}

#[test]
fn stake_with_wrong_master_record_is_invalid() {
    let mut p = world();
    let wrong_master: u64 = 77;
    assert_eq!(
        p.stake(HOLDER, TOKEN_ACCOUNT, wrong_master, ASSET, 1000),
        Err(StakeError::InvalidAssetReference)
    );
    assert!(!p.is_staked(HOLDER, TOKEN_ACCOUNT));
}

#[test]
fn unstake_with_wrong_master_record_is_invalid() {
    let mut p = world();
    assert_eq!(p.stake(HOLDER, TOKEN_ACCOUNT, MASTER, ASSET, 1000), Ok(()));
    let wrong_master: u64 = 77;
    assert_eq!(
        p.unstake(HOLDER, TOKEN_ACCOUNT, wrong_master, ASSET, REWARD_ACCOUNT, 1500),
        Err(StakeError::InvalidAssetReference)
    );
    assert!(p.is_staked(HOLDER, TOKEN_ACCOUNT));
    let h = p.registry.holding_state(TOKEN_ACCOUNT).unwrap();
    assert!(h.locked);
}

#[test]
fn backwards_clock_aborts_unstake() {
    let mut p = world();
    assert_eq!(p.stake(HOLDER, TOKEN_ACCOUNT, MASTER, ASSET, 1000), Ok(()));
    assert_eq!(
        p.unstake(HOLDER, TOKEN_ACCOUNT, MASTER, ASSET, REWARD_ACCOUNT, 999),
        Err(StakeError::ClockInvariantViolation)
    );
    assert!(p.is_staked(HOLDER, TOKEN_ACCOUNT));
    assert_eq!(p.staked_at(HOLDER, TOKEN_ACCOUNT), Some(1000));
    assert_eq!(p.registry.reward_balance_of(REWARD_ACCOUNT), Some(0));
}

#[test]
fn zero_elapsed_time_pays_zero() {
    let mut p = world();
    assert_eq!(p.stake(HOLDER, TOKEN_ACCOUNT, MASTER, ASSET, 1000), Ok(()));
    let receipt = p
        .unstake(HOLDER, TOKEN_ACCOUNT, MASTER, ASSET, REWARD_ACCOUNT, 1000)
        .unwrap();
    assert_eq!(receipt.reward, 0);
    assert!(receipt.reward_issued);
    assert_eq!(p.registry.reward_balance_of(REWARD_ACCOUNT), Some(0));
}

#[test]
fn restaking_after_unstake_works() {
    let mut p = world();
    assert_eq!(p.stake(HOLDER, TOKEN_ACCOUNT, MASTER, ASSET, 1000), Ok(()));
    p.unstake(HOLDER, TOKEN_ACCOUNT, MASTER, ASSET, REWARD_ACCOUNT, 1500)
        .unwrap();
    assert_eq!(p.stake(HOLDER, TOKEN_ACCOUNT, MASTER, ASSET, 2000), Ok(()));
    assert_eq!(p.staked_at(HOLDER, TOKEN_ACCOUNT), Some(2000));
    let receipt = p
        .unstake(HOLDER, TOKEN_ACCOUNT, MASTER, ASSET, REWARD_ACCOUNT, 2300)
        .unwrap();
    assert_eq!(receipt.reward, 300);
    assert_eq!(p.registry.reward_balance_of(REWARD_ACCOUNT), Some(800));
}

#[test]
fn other_pairs_are_untouched() {
    let other_account: u64 = 12;
    let other_holder: u64 = 11;
    let mut p = world();
    p.registry.holdings.push(Holding {
        id: other_account,
        owner: other_holder,
        asset: ASSET,
        balance: 1,
        delegate: None,
        locked: false,
    });
    assert_eq!(p.stake(HOLDER, TOKEN_ACCOUNT, MASTER, ASSET, 1000), Ok(()));
    let other = p.registry.holding_state(other_account).unwrap();
    assert_eq!(other.delegate, None);
    assert!(!other.locked);
    assert!(!p.is_staked(other_holder, other_account));
    assert_eq!(p.stake(other_holder, other_account, MASTER, ASSET, 1100), Ok(()));
    p.unstake(HOLDER, TOKEN_ACCOUNT, MASTER, ASSET, REWARD_ACCOUNT, 1500)
        .unwrap();
    assert!(p.is_staked(other_holder, other_account));
    assert_eq!(p.staked_at(other_holder, other_account), Some(1100));
    let other_after = p.registry.holding_state(other_account).unwrap();
    assert_eq!(other_after.delegate, Some(CUSTODY));
    assert!(other_after.locked);
}

#[test]
fn compute_reward_exact_values() {
    assert_eq!(compute_reward(1000, 1500), Ok(500));
    assert_eq!(compute_reward(0, 0), Ok(0));
    assert_eq!(compute_reward(0, u64::MAX), Ok(u64::MAX));
    assert_eq!(compute_reward(6, 5), Err(StakeError::ClockInvariantViolation));
}

#[test]
fn issue_to_missing_account_fails() {
    let mut p = world();
    let missing: u64 = 404;
    assert_eq!(
        p.registry.issue(missing, 10),
        Err(StakeError::RewardIssuanceFailed)
    );
    assert_eq!(p.registry.issue(REWARD_ACCOUNT, 10), Ok(()));
    assert_eq!(p.registry.reward_balance_of(REWARD_ACCOUNT), Some(10));
}

#[test]
fn gate_refuses_wrong_callers() {
    let mut p = world();
    let stranger: u64 = 99;
    assert_eq!(
        p.registry.grant(stranger, TOKEN_ACCOUNT, CUSTODY, 1),
        Err(StakeError::DelegationDenied)
    );
    assert_eq!(
        p.registry.lock(CUSTODY, TOKEN_ACCOUNT, MASTER, ASSET),
        Err(StakeError::DelegationDenied)
    );
    assert_eq!(
        p.registry.unlock(CUSTODY, TOKEN_ACCOUNT, MASTER, ASSET),
        Err(StakeError::DelegationDenied)
    );
    assert_eq!(
        p.registry.revoke(HOLDER, TOKEN_ACCOUNT),
        Err(StakeError::DelegationDenied)
    );
}

#[test]
fn gate_full_cycle() {
    let mut p = world();
    assert_eq!(p.registry.grant(HOLDER, TOKEN_ACCOUNT, CUSTODY, 1), Ok(()));
    let h = p.registry.holding_state(TOKEN_ACCOUNT).unwrap();
    assert_eq!(h.delegate, Some(CUSTODY));
    assert!(!h.locked);
    assert_eq!(p.registry.lock(CUSTODY, TOKEN_ACCOUNT, MASTER, ASSET), Ok(()));
    assert!(p.registry.holding_state(TOKEN_ACCOUNT).unwrap().locked);
    // A second lock under the same delegate is refused.
    assert_eq!(
        p.registry.lock(CUSTODY, TOKEN_ACCOUNT, MASTER, ASSET),
        Err(StakeError::DelegationDenied)
    );
    // Revocation is refused while the account is still locked.
    assert_eq!(
        p.registry.revoke(HOLDER, TOKEN_ACCOUNT),
        Err(StakeError::DelegationDenied)
    );
    assert_eq!(p.registry.unlock(CUSTODY, TOKEN_ACCOUNT, MASTER, ASSET), Ok(()));
    assert_eq!(p.registry.revoke(HOLDER, TOKEN_ACCOUNT), Ok(()));
    let done = p.registry.holding_state(TOKEN_ACCOUNT).unwrap();
    assert_eq!(done.delegate, None);
    assert!(!done.locked);
}

#[test]
fn lock_with_wrong_master_record_is_invalid() {
    let mut p = world();
    assert_eq!(p.registry.grant(HOLDER, TOKEN_ACCOUNT, CUSTODY, 1), Ok(()));
    let wrong_master: u64 = 77;
    assert_eq!(
        p.registry.lock(CUSTODY, TOKEN_ACCOUNT, wrong_master, ASSET),
        Err(StakeError::InvalidAssetReference)
    );
    assert!(!p.registry.holding_state(TOKEN_ACCOUNT).unwrap().locked);
}

#[test]
fn grant_exceeding_balance_is_denied() {
    let mut p = world();
    assert_eq!(
        p.registry.grant(HOLDER, TOKEN_ACCOUNT, CUSTODY, 2),
        Err(StakeError::DelegationDenied)
    );
    assert_eq!(p.registry.grant(HOLDER, TOKEN_ACCOUNT, CUSTODY, 1), Ok(()));
}

#[test]
fn registry_builders_enforce_uniqueness() {
    let mut r = AssetRegistry::new();
    let base = Holding {
        id: TOKEN_ACCOUNT,
        owner: HOLDER,
        asset: ASSET,
        balance: 1,
        delegate: None,
        locked: false,
    };
    assert!(r.add_holding(base));
    assert!(!r.add_holding(Holding { owner: 99, ..base }));
    assert!(!r.add_holding(Holding { id: 8, locked: true, ..base }));
    r.add_asset(AssetRef { asset: ASSET, master_record: MASTER });
    assert!(r.add_reward_account(RewardAccount { id: REWARD_ACCOUNT, balance: 0 }));
    assert!(!r.add_reward_account(RewardAccount { id: REWARD_ACCOUNT, balance: 7 }));
    let mut p = StakingProtocol::new(r, CUSTODY);
    assert!(!p.is_staked(HOLDER, TOKEN_ACCOUNT));
    assert_eq!(p.stake(HOLDER, TOKEN_ACCOUNT, MASTER, ASSET, 10), Ok(()));
    assert!(p.is_staked(HOLDER, TOKEN_ACCOUNT));
}

#[test]
fn ledger_open_close_lifecycle() {
    let mut ledger = StakeLedger::new();
    assert_eq!(ledger.open(HOLDER, TOKEN_ACCOUNT, 42), Ok(()));
    assert_eq!(ledger.open(HOLDER, TOKEN_ACCOUNT, 43), Err(StakeError::AlreadyStaked));
    assert_eq!(ledger.close(HOLDER, TOKEN_ACCOUNT), Ok(42));
    assert_eq!(ledger.close(HOLDER, TOKEN_ACCOUNT), Err(StakeError::NotStaked));
}
