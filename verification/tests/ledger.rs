use lp_staking::merkle::{compute_leaf, hash_pair};
use lp_staking::storage;
use lp_staking::{
    Address, Bytes32, ContractError, DataKey, LpStakingContract, PoolState, Record, StakerInfo,
    Store, PRECISION,
};

const RATE: i128 = 462_962_963;

fn admin() -> Address {
    Address::account([0xA0; 32])
}

fn token() -> Address {
    Address::contract([0xEE; 32])
}

fn user(n: u8) -> Address {
    Address::contract([n; 32])
}

// A ledger with one pool registered at time 1000.
fn ledger() -> Store {
    let mut store = Store::new();
    LpStakingContract::initialize(&mut store, &admin(), &token(), RATE).unwrap();
    assert_eq!(LpStakingContract::add_pool(&mut store, 1000, &admin(), &[1; 32]), Ok(0));
    store
}

// Posts a root over the given positions and returns one path for each.
fn post_root(store: &mut Store, now: u64, epoch: u64, positions: &[(Address, i128)]) -> Vec<Vec<Bytes32>> {
    assert!(positions.len() == 1 || positions.len() == 2);
    let leaves: Vec<Bytes32> = positions
        .iter()
        .map(|(who, balance)| compute_leaf(0, who, *balance, epoch))
        .collect();
    let (root, paths) = if leaves.len() == 1 {
        (leaves[0], vec![vec![]])
    } else {
        (hash_pair(&leaves[0], &leaves[1]), vec![vec![leaves[1]], vec![leaves[0]]])
    };
    LpStakingContract::set_merkle_root(store, now, &admin(), 0, &root, 1).unwrap();
    paths
}

fn pool(acc: i128, total: i128, time: u64, prev: i128) -> PoolState {
    PoolState {
        acc_reward_per_share: acc,
        total_staked: total,
        last_reward_time: time,
        prev_acc_reward_per_share: prev,
    }
}

#[test]
fn initialize_records_what_it_was_given() {
    let mut store = Store::new();
    assert_eq!(LpStakingContract::initialize(&mut store, &admin(), &token(), 5), Ok(()));
    assert_eq!(storage::get_admin(&store), admin());
    assert_eq!(storage::get_lmnr_token(&store), token());
    assert_eq!(storage::get_reward_rate(&store), 5);
    assert_eq!(storage::get_pool_count(&store), 0);
    let before = store.entries();
    assert_eq!(
        LpStakingContract::initialize(&mut store, &user(1), &user(2), 6),
        Err(ContractError::AlreadyInitialized)
    );
    assert_eq!(store.entries(), before);
}

#[test]
fn nothing_is_administered_before_initialization() {
    let mut store = Store::new();
    assert_eq!(
        LpStakingContract::require_admin(&store, &admin()),
        Err(ContractError::NotInitialized)
    );
    assert_eq!(
        LpStakingContract::add_pool(&mut store, 0, &admin(), &[1; 32]),
        Err(ContractError::NotInitialized)
    );
    assert_eq!(
        LpStakingContract::set_admin(&mut store, &admin(), &user(1)),
        Err(ContractError::NotInitialized)
    );
    assert_eq!(
        LpStakingContract::withdraw(&store, &admin(), 1, 10),
        Err(ContractError::NotInitialized)
    );
    assert_eq!(
        LpStakingContract::fund(&store, &admin(), 1),
        Err(ContractError::NotInitialized)
    );
    assert_eq!(store.len(), 0);
}

#[test]
fn only_the_administrator_administers() {
    let mut store = ledger();
    let before = store.entries();
    let other = user(9);
    assert_eq!(LpStakingContract::require_admin(&store, &admin()), Ok(()));
    assert_eq!(
        LpStakingContract::require_admin(&store, &Address::contract([0xA0; 32])),
        Err(ContractError::Unauthorized)
    );
    assert_eq!(
        LpStakingContract::add_pool(&mut store, 1, &other, &[2; 32]),
        Err(ContractError::Unauthorized)
    );
    assert_eq!(
        LpStakingContract::remove_pool(&mut store, 1, &other, 0),
        Err(ContractError::Unauthorized)
    );
    assert_eq!(
        LpStakingContract::set_merkle_root(&mut store, 1, &other, 0, &[3; 32], 1),
        Err(ContractError::Unauthorized)
    );
    assert_eq!(
        LpStakingContract::set_reward_rate(&mut store, 1, &other, 1),
        Err(ContractError::Unauthorized)
    );
    assert_eq!(
        LpStakingContract::update_stake(&mut store, 1, &other, &other, 0, 1),
        Err(ContractError::Unauthorized)
    );
    assert_eq!(store.entries(), before);
}

#[test]
fn operations_on_a_missing_pool_are_refused() {
    let mut store = ledger();
    let before = store.entries();
    assert_eq!(LpStakingContract::require_valid_pool(&store, 0), Ok(()));
    assert_eq!(
        LpStakingContract::require_valid_pool(&store, 1),
        Err(ContractError::PoolNotFound)
    );
    assert_eq!(
        LpStakingContract::remove_pool(&mut store, 1, &admin(), 1),
        Err(ContractError::PoolNotFound)
    );
    assert_eq!(
        LpStakingContract::set_merkle_root(&mut store, 1, &admin(), 1, &[3; 32], 1),
        Err(ContractError::PoolNotFound)
    );
    assert_eq!(
        LpStakingContract::update_stake(&mut store, 1, &admin(), &user(1), 1, 1),
        Err(ContractError::PoolNotFound)
    );
    assert_eq!(
        LpStakingContract::claim(&mut store, 1, &user(1), 1, 0),
        Err(ContractError::PoolNotFound)
    );
    assert_eq!(
        LpStakingContract::unstake(&mut store, 1, &user(1), 1),
        Err(ContractError::PoolNotFound)
    );
    assert_eq!(
        LpStakingContract::enroll(&mut store, 1, &user(1), 1, 5, true),
        Err(ContractError::PoolNotFound)
    );
    assert_eq!(store.entries(), before);
}

#[test]
fn a_new_pool_starts_empty_at_its_registration_time() {
    let mut store = ledger();
    assert_eq!(LpStakingContract::get_pool_state(&store, 0), pool(0, 0, 1000, 0));
    assert_eq!(LpStakingContract::add_pool(&mut store, 1234, &admin(), &[2; 32]), Ok(1));
    assert_eq!(LpStakingContract::get_pool_state(&store, 1), pool(0, 0, 1234, 0));
    assert_eq!(LpStakingContract::get_pool_id(&store, 1), [2; 32]);
    assert_eq!(storage::get_pool_id_index(&store, &[2; 32]), 1);
    assert_eq!(LpStakingContract::get_pool_count(&store), 2);
}

#[test]
fn the_last_pool_index_cannot_be_passed() {
    let mut store = ledger();
    storage::set_pool_count(&mut store, u32::MAX);
    let before = store.entries();
    assert_eq!(
        LpStakingContract::checked_add_pool(&mut store, 1, &admin(), &[2; 32]),
        None
    );
    assert_eq!(store.entries(), before);
    storage::set_pool_count(&mut store, u32::MAX - 1);
    assert_eq!(
        LpStakingContract::checked_add_pool(&mut store, 1, &admin(), &[2; 32]),
        Some(Ok(u32::MAX - 1))
    );
    assert_eq!(LpStakingContract::get_pool_count(&store), u32::MAX);
}

#[test]
fn epochs_count_up_from_one() {
    let mut store = ledger();
    for epoch in 1..=4u64 {
        LpStakingContract::set_merkle_root(&mut store, 1000 + epoch, &admin(), 0, &[epoch as u8; 32], 7)
            .unwrap();
        let data = LpStakingContract::get_merkle_root(&store, 0);
        assert_eq!(data.epoch_id, epoch);
        assert_eq!(data.root, [epoch as u8; 32]);
        assert_eq!(data.snapshot_ledger, 7);
        assert_eq!(data.posted_at, 1000 + epoch);
    }
}

#[test]
fn the_last_epoch_cannot_be_passed() {
    let mut store = ledger();
    LpStakingContract::set_merkle_root(&mut store, 1000, &admin(), 0, &[1; 32], 7).unwrap();
    let mut data = LpStakingContract::get_merkle_root(&store, 0);
    data.epoch_id = u64::MAX;
    storage::set_merkle_root(&mut store, 0, &data);
    let before = store.entries();
    assert_eq!(
        LpStakingContract::checked_set_merkle_root(&mut store, 2000, &admin(), 0, &[2; 32], 8),
        None
    );
    assert_eq!(store.entries(), before);
}

#[test]
fn a_rotation_freezes_the_accumulator_and_counts_no_stake() {
    let mut store = ledger();
    let who = user(1);
    let stake: i128 = 10_000_0000000;
    let paths = post_root(&mut store, 1000, 1, &[(who, stake)]);
    LpStakingContract::stake(&mut store, 1000, &who, 0, stake, &paths[0]).unwrap();
    assert_eq!(LpStakingContract::get_pool_state(&store, 0).total_staked, stake);

    LpStakingContract::set_merkle_root(&mut store, 2000, &admin(), 0, &[9; 32], 2).unwrap();
    let state = LpStakingContract::get_pool_state(&store, 0);
    let acc = 1000 * RATE * PRECISION / stake;
    assert_eq!(state, pool(acc, 0, 2000, acc));
    // The entry itself is left as it was.
    let entry = LpStakingContract::get_staker_info(&store, &who, 0);
    assert_eq!(entry.staked_amount, stake);
    assert_eq!(entry.epoch_id, 1);
}

#[test]
fn a_stale_entry_earns_nothing_however_long_it_waits() {
    let mut store = ledger();
    let stale = user(1);
    let fresh = user(2);
    let stake: i128 = 10_000_0000000;
    let paths = post_root(&mut store, 1000, 1, &[(stale, stake)]);
    LpStakingContract::stake(&mut store, 1000, &stale, 0, stake, &paths[0]).unwrap();

    let paths = post_root(&mut store, 2000, 2, &[(fresh, stake)]);
    let at_rotation = LpStakingContract::pending_reward(&store, 2000, &stale, 0);
    assert_eq!(at_rotation, 462_962_963_000);
    LpStakingContract::stake(&mut store, 2000, &fresh, 0, stake, &paths[0]).unwrap();

    for now in [2000u64, 2001, 5000, 1_000_000, u32::MAX as u64] {
        assert_eq!(LpStakingContract::pending_reward(&store, now, &stale, 0), at_rotation);
    }
    // Others act, time passes, the rate changes: the stale entry is owed the same.
    LpStakingContract::set_reward_rate(&mut store, 3000, &admin(), 2 * RATE).unwrap();
    LpStakingContract::claim(&mut store, 4000, &fresh, 0, i128::MAX).unwrap();
    assert_eq!(LpStakingContract::pending_reward(&store, 9000, &stale, 0), at_rotation);
    assert!(LpStakingContract::pending_reward(&store, 9000, &fresh, 0) > 0);
}

#[test]
fn a_refused_second_stake_leaves_everything_as_it_was() {
    let mut store = ledger();
    let who = user(1);
    let stake: i128 = 1_000_0000000;
    let paths = post_root(&mut store, 1000, 1, &[(who, stake)]);
    LpStakingContract::stake(&mut store, 1000, &who, 0, stake, &paths[0]).unwrap();
    let before = store.entries();
    // Later, so that an advance of the pool would show.
    assert_eq!(
        LpStakingContract::stake(&mut store, 5000, &who, 0, stake, &paths[0]),
        Err(ContractError::AlreadyStakedThisEpoch)
    );
    assert_eq!(store.entries(), before);
    assert_eq!(
        LpStakingContract::enroll(&mut store, 5000, &who, 0, stake + 1, true),
        Err(ContractError::AlreadyStakedThisEpoch)
    );
    assert_eq!(
        LpStakingContract::enroll(&mut store, 5000, &who, 0, stake, false),
        Err(ContractError::InvalidProof)
    );
    assert_eq!(store.entries(), before);
}

#[test]
fn stake_checks_in_order() {
    let mut store = ledger();
    let who = user(1);
    // No root yet: the amount is judged before the root.
    assert_eq!(
        LpStakingContract::enroll(&mut store, 1000, &who, 0, 0, true),
        Err(ContractError::InvalidAmount)
    );
    assert_eq!(
        LpStakingContract::enroll(&mut store, 1000, &who, 0, -1, true),
        Err(ContractError::InvalidAmount)
    );
    assert_eq!(
        LpStakingContract::enroll(&mut store, 1000, &who, 0, 1, true),
        Err(ContractError::NoMerkleRoot)
    );
    assert_eq!(
        LpStakingContract::enroll(&mut store, 1000, &who, 7, 0, true),
        Err(ContractError::PoolNotFound)
    );
    let paths = post_root(&mut store, 1000, 1, &[(who, 5)]);
    assert_eq!(
        LpStakingContract::stake(&mut store, 1000, &who, 0, 0, &paths[0]),
        Err(ContractError::InvalidAmount)
    );
    assert_eq!(
        LpStakingContract::stake(&mut store, 1000, &who, 0, 6, &paths[0]),
        Err(ContractError::InvalidProof)
    );
    assert_eq!(
        LpStakingContract::stake(&mut store, 1000, &user(2), 0, 5, &paths[0]),
        Err(ContractError::InvalidProof)
    );
    assert!(!LpStakingContract::proof_accepted(&store, &who, 0, 6, &paths[0]));
    assert!(LpStakingContract::proof_accepted(&store, &who, 0, 5, &paths[0]));
    assert_eq!(LpStakingContract::stake(&mut store, 1000, &who, 0, 5, &paths[0]), Ok(()));
}

#[test]
fn a_proof_for_an_old_epoch_is_refused() {
    let mut store = ledger();
    let who = user(1);
    let old = post_root(&mut store, 1000, 1, &[(who, 5), (user(2), 6)]);
    post_root(&mut store, 1100, 2, &[(who, 5), (user(2), 6)]);
    assert_eq!(
        LpStakingContract::stake(&mut store, 1200, &who, 0, 5, &old[0]),
        Err(ContractError::InvalidProof)
    );
}

#[test]
fn a_first_stake_sets_debt_at_the_current_accumulator() {
    let mut store = ledger();
    let first = user(1);
    let second = user(2);
    let paths = post_root(&mut store, 1000, 1, &[(first, 400), (second, 600)]);
    LpStakingContract::stake(&mut store, 1000, &first, 0, 400, &paths[0]).unwrap();
    LpStakingContract::stake(&mut store, 1010, &second, 0, 600, &paths[1]).unwrap();
    let acc = 10 * RATE * PRECISION / 400;
    assert_eq!(LpStakingContract::get_pool_state(&store, 0), pool(acc, 1000, 1010, 0));
    assert_eq!(
        LpStakingContract::get_staker_info(&store, &second, 0),
        StakerInfo {
            staked_amount: 600,
            reward_debt: 600 * acc / PRECISION,
            pending_rewards: 0,
            epoch_id: 1
        }
    );
    // The late comer is owed nothing for the time before it came.
    assert_eq!(LpStakingContract::pending_reward(&store, 1010, &second, 0), 0);
    assert_eq!(LpStakingContract::pending_reward(&store, 1010, &first, 0), 10 * RATE);
}

#[test]
fn restaking_after_an_exit_banks_what_was_owed() {
    let mut store = ledger();
    let who = user(1);
    let stake: i128 = 10_000_0000000;
    let paths = post_root(&mut store, 1000, 1, &[(who, stake)]);
    LpStakingContract::stake(&mut store, 1000, &who, 0, stake, &paths[0]).unwrap();
    LpStakingContract::unstake(&mut store, 2000, &who, 0).unwrap();
    // Same epoch, no stake counted: the position may come back.
    LpStakingContract::stake(&mut store, 2500, &who, 0, stake, &paths[0]).unwrap();
    let entry = LpStakingContract::get_staker_info(&store, &who, 0);
    assert_eq!(entry.staked_amount, stake);
    assert_eq!(entry.pending_rewards, 462_962_963_000);
    assert_eq!(LpStakingContract::get_pool_state(&store, 0).total_staked, stake);
    // Nothing accrued while no stake was counted.
    assert_eq!(LpStakingContract::pending_reward(&store, 2500, &who, 0), 462_962_963_000);
    assert_eq!(
        LpStakingContract::pending_reward(&store, 3500, &who, 0),
        2 * 462_962_963_000
    );
}

#[test]
fn claim_is_refused_when_nothing_is_owed() {
    let mut store = ledger();
    let who = user(1);
    let paths = post_root(&mut store, 1000, 1, &[(who, 100)]);
    LpStakingContract::stake(&mut store, 1000, &who, 0, 100, &paths[0]).unwrap();
    let before = store.entries();
    assert_eq!(
        LpStakingContract::claim(&mut store, 1000, &who, 0, 1_000_000),
        Err(ContractError::NoRewardsToClaim)
    );
    assert_eq!(store.entries(), before);
}

#[test]
fn claim_is_refused_when_the_holding_is_short() {
    let mut store = ledger();
    let who = user(1);
    let stake: i128 = 10_000_0000000;
    let paths = post_root(&mut store, 1000, 1, &[(who, stake)]);
    LpStakingContract::stake(&mut store, 1000, &who, 0, stake, &paths[0]).unwrap();
    let before = store.entries();
    assert_eq!(
        LpStakingContract::claim(&mut store, 2000, &who, 0, 462_962_962_999),
        Err(ContractError::InsufficientRewardBalance)
    );
    // Nothing was paid in part, nothing was written.
    assert_eq!(store.entries(), before);
    assert_eq!(
        LpStakingContract::claim(&mut store, 2000, &who, 0, 462_962_963_000),
        Ok(462_962_963_000)
    );
    let entry = LpStakingContract::get_staker_info(&store, &who, 0);
    assert_eq!(entry.pending_rewards, 0);
    assert_eq!(entry.reward_debt, 462_962_963_000);
    assert_eq!(entry.staked_amount, stake);
}

#[test]
fn claim_without_a_reward_token_is_refused() {
    let mut store = Store::new();
    storage::set_admin(&mut store, &admin());
    storage::set_pool_count(&mut store, 1);
    let who = user(1);
    let entry = StakerInfo { staked_amount: 0, reward_debt: 0, pending_rewards: 9, epoch_id: 1 };
    storage::set_staker(&mut store, &who, 0, &entry);
    assert_eq!(
        LpStakingContract::claim(&mut store, 5, &who, 0, 100),
        Err(ContractError::NotInitialized)
    );
}

#[test]
fn a_stale_claim_leaves_stake_and_epoch() {
    let mut store = ledger();
    let who = user(1);
    let stake: i128 = 10_000_0000000;
    let paths = post_root(&mut store, 1000, 1, &[(who, stake)]);
    LpStakingContract::stake(&mut store, 1000, &who, 0, stake, &paths[0]).unwrap();
    LpStakingContract::unstake(&mut store, 1500, &who, 0).unwrap();
    post_root(&mut store, 2000, 2, &[(user(2), 1)]);
    let before = LpStakingContract::get_staker_info(&store, &who, 0);
    assert_eq!(before.pending_rewards, 231_481_481_500);
    assert_eq!(
        LpStakingContract::claim(&mut store, 3000, &who, 0, i128::MAX),
        Ok(231_481_481_500)
    );
    let after = LpStakingContract::get_staker_info(&store, &who, 0);
    assert_eq!(
        after,
        StakerInfo { pending_rewards: 0, ..before }
    );
    assert_eq!(
        LpStakingContract::claim(&mut store, 3000, &who, 0, i128::MAX),
        Err(ContractError::NoRewardsToClaim)
    );
}

#[test]
fn unstake_without_reward_deletes_the_entry() {
    let mut store = ledger();
    let who = user(1);
    let paths = post_root(&mut store, 1000, 1, &[(who, 100)]);
    LpStakingContract::stake(&mut store, 1000, &who, 0, 100, &paths[0]).unwrap();
    assert_eq!(LpStakingContract::unstake(&mut store, 1000, &who, 0), Ok(()));
    assert!(!storage::has_staker(&store, &who, 0));
    assert_eq!(LpStakingContract::get_pool_state(&store, 0).total_staked, 0);
    assert_eq!(
        LpStakingContract::unstake(&mut store, 1000, &who, 0),
        Err(ContractError::NoStakeFound)
    );
    assert_eq!(
        LpStakingContract::claim(&mut store, 1000, &who, 0, 5),
        Err(ContractError::NoStakeFound)
    );
    assert_eq!(LpStakingContract::pending_reward(&store, 9999, &who, 0), 0);
}

#[test]
fn unstake_of_a_stale_entry_does_not_touch_the_pool_total() {
    let mut store = ledger();
    let stale = user(1);
    let fresh = user(2);
    let paths = post_root(&mut store, 1000, 1, &[(stale, 100)]);
    LpStakingContract::stake(&mut store, 1000, &stale, 0, 100, &paths[0]).unwrap();
    let paths = post_root(&mut store, 2000, 2, &[(fresh, 40)]);
    LpStakingContract::stake(&mut store, 2000, &fresh, 0, 40, &paths[0]).unwrap();
    LpStakingContract::unstake(&mut store, 3000, &stale, 0).unwrap();
    assert_eq!(LpStakingContract::get_pool_state(&store, 0).total_staked, 40);
    let kept = LpStakingContract::get_staker_info(&store, &stale, 0);
    assert_eq!(
        kept,
        StakerInfo { staked_amount: 0, reward_debt: 0, pending_rewards: 1000 * RATE, epoch_id: 1 }
    );
}

#[test]
fn a_removed_pool_accrues_nothing_more() {
    let mut store = ledger();
    let who = user(1);
    let stake: i128 = 10_000_0000000;
    let paths = post_root(&mut store, 1000, 1, &[(who, stake)]);
    LpStakingContract::stake(&mut store, 1000, &who, 0, stake, &paths[0]).unwrap();
    LpStakingContract::remove_pool(&mut store, 2000, &admin(), 0).unwrap();
    let state = LpStakingContract::get_pool_state(&store, 0);
    assert_eq!(state.total_staked, 0);
    assert_eq!(state.last_reward_time, 2000);
    assert_eq!(LpStakingContract::pending_reward(&store, 2000, &who, 0), 462_962_963_000);
    assert_eq!(LpStakingContract::pending_reward(&store, 9000, &who, 0), 462_962_963_000);
    assert_eq!(
        LpStakingContract::claim(&mut store, 9000, &who, 0, i128::MAX),
        Ok(462_962_963_000)
    );
}

#[test]
fn a_rate_change_applies_to_later_time_only() {
    let mut store = ledger();
    LpStakingContract::add_pool(&mut store, 1000, &admin(), &[2; 32]).unwrap();
    let who = user(1);
    let paths = post_root(&mut store, 1000, 1, &[(who, 50)]);
    LpStakingContract::stake(&mut store, 1000, &who, 0, 50, &paths[0]).unwrap();
    LpStakingContract::set_reward_rate(&mut store, 1100, &admin(), 7).unwrap();
    assert_eq!(storage::get_reward_rate(&store), 7);
    // Both pools were advanced to the instant of the change.
    assert_eq!(LpStakingContract::get_pool_state(&store, 0).last_reward_time, 1100);
    assert_eq!(LpStakingContract::get_pool_state(&store, 1).last_reward_time, 1100);
    assert_eq!(
        LpStakingContract::get_pool_state(&store, 0).acc_reward_per_share,
        100 * RATE * PRECISION / 50
    );
    assert_eq!(
        LpStakingContract::pending_reward(&store, 1200, &who, 0),
        100 * RATE + 100 * 7
    );
}

#[test]
fn an_overflowing_rate_change_leaves_the_store_as_it_was() {
    let mut store = ledger();
    LpStakingContract::add_pool(&mut store, 1000, &admin(), &[2; 32]).unwrap();
    LpStakingContract::set_reward_rate(&mut store, 1000, &admin(), i128::MAX).unwrap();
    // The second pool counts stake, so that its accrual overflows.
    storage::set_pool_state(&mut store, 1, &pool(0, 1, 1000, 0));
    let before = store.entries();
    assert_eq!(
        LpStakingContract::checked_set_reward_rate(&mut store, 2000, &admin(), 1),
        None
    );
    assert_eq!(store.entries(), before);
    assert_eq!(LpStakingContract::checked_pending_reward(&store, 2000, &user(1), 1), Some(0));
    assert_eq!(
        LpStakingContract::checked_enroll(&mut store, 2000, &user(1), 1, 5, true),
        Some(Err(ContractError::NoMerkleRoot))
    );
}

#[test]
fn overflow_leaves_the_store_as_it_was() {
    let mut store = ledger();
    let who = user(1);
    let paths = post_root(&mut store, 1000, 1, &[(who, 1)]);
    LpStakingContract::stake(&mut store, 1000, &who, 0, 1, &paths[0]).unwrap();
    storage::set_reward_rate(&mut store, i128::MAX / 2);
    let before = store.entries();
    assert_eq!(LpStakingContract::checked_claim(&mut store, 2000, &who, 0, 5), None);
    assert_eq!(LpStakingContract::checked_unstake(&mut store, 2000, &who, 0), None);
    assert_eq!(
        LpStakingContract::checked_stake(&mut store, 2000, &user(2), 0, 1, &paths[0]),
        Some(Err(ContractError::InvalidProof))
    );
    assert_eq!(
        LpStakingContract::checked_enroll(&mut store, 2000, &user(2), 0, 1, true),
        None
    );
    assert_eq!(
        LpStakingContract::checked_update_stake(&mut store, 2000, &admin(), &who, 0, 1),
        None
    );
    assert_eq!(LpStakingContract::checked_remove_pool(&mut store, 2000, &admin(), 0), None);
    assert_eq!(
        LpStakingContract::checked_set_merkle_root(&mut store, 2000, &admin(), 0, &[1; 32], 1),
        None
    );
    assert_eq!(LpStakingContract::checked_pending_reward(&store, 2000, &who, 0), None);
    assert_eq!(store.entries(), before);
    // At the instant of the last advance nothing accrues, and all is well.
    assert_eq!(LpStakingContract::checked_pending_reward(&store, 1000, &who, 0), Some(0));
}

#[test]
fn update_stake_needs_an_active_root() {
    let mut store = ledger();
    let before = store.entries();
    assert_eq!(
        LpStakingContract::update_stake(&mut store, 1000, &admin(), &user(1), 0, 10),
        Err(ContractError::NoMerkleRoot)
    );
    assert_eq!(store.entries(), before);
}

#[test]
fn update_stake_replaces_the_counted_contribution() {
    let mut store = ledger();
    let first = user(1);
    let second = user(2);
    let paths = post_root(&mut store, 1000, 1, &[(first, 400), (second, 600)]);
    LpStakingContract::stake(&mut store, 1000, &first, 0, 400, &paths[0]).unwrap();
    LpStakingContract::stake(&mut store, 1000, &second, 0, 600, &paths[1]).unwrap();
    LpStakingContract::update_stake(&mut store, 1000, &admin(), &first, 0, 150).unwrap();
    assert_eq!(LpStakingContract::get_pool_state(&store, 0).total_staked, 750);
    LpStakingContract::update_stake(&mut store, 1000, &admin(), &first, 0, 0).unwrap();
    assert_eq!(LpStakingContract::get_pool_state(&store, 0).total_staked, 600);
    LpStakingContract::update_stake(&mut store, 1000, &admin(), &first, 0, 25).unwrap();
    assert_eq!(LpStakingContract::get_pool_state(&store, 0).total_staked, 625);
}

#[test]
fn update_stake_of_a_stale_entry_adds_without_subtracting() {
    let mut store = ledger();
    let stale = user(1);
    let fresh = user(2);
    let paths = post_root(&mut store, 1000, 1, &[(stale, 100)]);
    LpStakingContract::stake(&mut store, 1000, &stale, 0, 100, &paths[0]).unwrap();
    let paths = post_root(&mut store, 2000, 2, &[(fresh, 40)]);
    LpStakingContract::stake(&mut store, 2000, &fresh, 0, 40, &paths[0]).unwrap();
    LpStakingContract::update_stake(&mut store, 2000, &admin(), &stale, 0, 60).unwrap();
    assert_eq!(LpStakingContract::get_pool_state(&store, 0).total_staked, 100);
    let entry = LpStakingContract::get_staker_info(&store, &stale, 0);
    assert_eq!(entry.staked_amount, 60);
    assert_eq!(entry.epoch_id, 2);
    assert_eq!(entry.pending_rewards, 1000 * RATE);
    assert_eq!(
        entry.reward_debt,
        60 * LpStakingContract::get_pool_state(&store, 0).acc_reward_per_share / PRECISION
    );
}

#[test]
fn fund_and_withdraw_are_guarded_and_write_nothing() {
    let mut store = ledger();
    let before = store.entries();
    assert_eq!(LpStakingContract::fund(&store, &user(1), 1), Ok(()));
    assert_eq!(LpStakingContract::fund(&store, &user(1), 0), Err(ContractError::InvalidAmount));
    assert_eq!(LpStakingContract::fund(&store, &user(1), -1), Err(ContractError::InvalidAmount));
    assert_eq!(LpStakingContract::withdraw(&store, &admin(), 10, 10), Ok(()));
    assert_eq!(
        LpStakingContract::withdraw(&store, &admin(), 11, 10),
        Err(ContractError::InsufficientRewardBalance)
    );
    assert_eq!(
        LpStakingContract::withdraw(&store, &admin(), 0, 10),
        Err(ContractError::InvalidAmount)
    );
    assert_eq!(
        LpStakingContract::withdraw(&store, &user(1), 0, 10),
        Err(ContractError::Unauthorized)
    );
    // The ledger's own records play no part.
    store.set(DataKey::RewardRatePerSec, Record::Amount(1));
    LpStakingContract::set_reward_rate(&mut store, 1000, &admin(), RATE).unwrap();
    assert_eq!(store.entries().len(), before.len());
}

#[test]
fn two_stakers_one_to_three_split_the_reward() {
    let mut store = ledger();
    let small = user(1);
    let large = user(2);
    let paths = post_root(&mut store, 1000, 1, &[(small, 1_000_0000000), (large, 3_000_0000000)]);
    LpStakingContract::stake(&mut store, 1000, &small, 0, 1_000_0000000, &paths[0]).unwrap();
    LpStakingContract::stake(&mut store, 1000, &large, 0, 3_000_0000000, &paths[1]).unwrap();
    let total: i128 = 1000 * RATE;
    let p1 = LpStakingContract::pending_reward(&store, 2000, &small, 0);
    let p2 = LpStakingContract::pending_reward(&store, 2000, &large, 0);
    assert_eq!(p1, total / 4);
    assert_eq!(p2, total * 3 / 4);
    assert!(p1 + p2 <= total);
    assert!(total - (p1 + p2) <= 2);
}

#[test]
fn pending_of_the_current_epoch_grows_with_time() {
    let mut store = ledger();
    let who = user(1);
    let paths = post_root(&mut store, 1000, 1, &[(who, 1000)]);
    LpStakingContract::stake(&mut store, 1000, &who, 0, 1000, &paths[0]).unwrap();
    let before = store.entries();
    let mut last: i128 = 0;
    for now in [1000u64, 1001, 1500, 2000] {
        let owed = LpStakingContract::pending_reward(&store, now, &who, 0);
        assert_eq!(owed, (now as i128 - 1000) * RATE);
        assert!(owed >= last);
        last = owed;
    }
    // The query stores nothing.
    assert_eq!(store.entries(), before);
}
