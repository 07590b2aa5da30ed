use crate::address::{Address, Bytes32};
use crate::errors::ContractError;
use crate::merkle::{compute_leaf, spec_leaf, spec_verify_proof, verify_proof};
use crate::rewards::{
    checked_accrue, checked_advance, checked_pending, checked_reward_debt, fits_i128,
    pending_fits, reward_debt_fits, spec_accrued, spec_pending, spec_reward_debt,
    spec_updated_pool, update_pool_fits,
};
use crate::storage::{
    get_admin, get_merkle_root, get_pool_count, get_pool_id, get_pool_state, get_reward_rate,
    get_staker, has_admin, has_lmnr_token, has_merkle_root, has_staker, remove_staker,
    set_pool_state, set_staker, spec_admin, spec_lmnr_token, spec_merkle_root, spec_pool_count,
    spec_pool_id, spec_pool_state, spec_reward_rate, spec_staker, DataKey, MerkleRootData,
    PoolState, Record, StakerInfo, Store, StoreView,
};
use vstd::prelude::*;

verus! {

/// What an operation comes to on a given store: its result and the store
/// it leaves, or nothing where its arithmetic leaves the working width.
pub type Outcome<T> = Option<(Result<T, ContractError>, StoreView)>;

/// The outcome of an operation that is refused: the store stays as it was.
pub open spec fn refused<T>(e: ContractError, m: StoreView) -> Outcome<T> {
    Some((Err(e), m))
}

/// Whether a checked operation did what `outcome` says: it returned the
/// result and left the store of the outcome, or it returned nothing and
/// left the store as it was.
pub open spec fn carried_out<T>(
    outcome: Outcome<T>,
    r: Option<Result<T, ContractError>>,
    before: StoreView,
    after: StoreView,
) -> bool {
    match outcome {
        Some((result, m)) => r == Some(result) && after == m,
        None => r is None && after == before,
    }
}

/// Why `caller` may not act as administrator, if so: none is recorded, or
/// it is another address.
pub open spec fn spec_admin_denied(m: StoreView, caller: Address) -> Option<ContractError> {
    match spec_admin(m) {
        None => Some(ContractError::NotInitialized),
        Some(admin) => if admin == caller {
            None
        } else {
            Some(ContractError::Unauthorized)
        },
    }
}

/// Whether a pool is registered under `pool_index`.
pub open spec fn spec_valid_pool(m: StoreView, pool_index: u32) -> bool {
    pool_index < spec_pool_count(m)
}

/// Whether `staker` belongs to the epoch that is active for the pool.
pub open spec fn spec_is_current(m: StoreView, pool_index: u32, staker: StakerInfo) -> bool {
    match spec_merkle_root(m, pool_index) {
        Some(root) => staker.epoch_id == root.epoch_id,
        None => false,
    }
}

/// The accumulator at which an entry is priced: the live one for an entry
/// of the current epoch, the one frozen at the last rotation for a stale one.
pub open spec fn spec_price(pool: PoolState, current: bool) -> i128 {
    if current {
        pool.acc_reward_per_share
    } else {
        pool.prev_acc_reward_per_share
    }
}

/// The accumulator at which an entry is priced.
pub fn price(pool: &PoolState, current: bool) -> (acc: i128)
    ensures
        acc == spec_price(*pool, current),
{
    if current {
        pool.acc_reward_per_share
    } else {
        pool.prev_acc_reward_per_share
    }
}

/// `pool` with its counted stake replaced by `total`.
pub open spec fn with_total(pool: PoolState, total: i128) -> PoolState {
    PoolState {
        acc_reward_per_share: pool.acc_reward_per_share,
        total_staked: total,
        last_reward_time: pool.last_reward_time,
        prev_acc_reward_per_share: pool.prev_acc_reward_per_share,
    }
}

/// What enrolling a position comes to, `proof_ok` telling whether its
/// proof was accepted against the active root.
///
/// The position is refused unless the pool exists, the balance is
/// positive, a root is posted and the proof was accepted, and when the
/// account is already counted in the active epoch. Otherwise the pool is
/// advanced to `now`, what the account had earned is banked at the price
/// of its prior entry, the entry is replaced, and the balance is added to
/// the pool's counted stake.
pub open spec fn spec_enroll(
    m: StoreView,
    now: u64,
    user: Address,
    pool_index: u32,
    lp_balance: i128,
    proof_ok: bool,
) -> Outcome<()> {
    if !spec_valid_pool(m, pool_index) {
        refused(ContractError::PoolNotFound, m)
    } else if lp_balance <= 0 {
        refused(ContractError::InvalidAmount, m)
    } else if spec_merkle_root(m, pool_index) is None {
        refused(ContractError::NoMerkleRoot, m)
    } else if !proof_ok {
        refused(ContractError::InvalidProof, m)
    } else if !update_pool_fits(m, now, pool_index) {
        None
    } else {
        let epoch = spec_merkle_root(m, pool_index).unwrap().epoch_id;
        let pool = spec_updated_pool(m, now, pool_index);
        let acc = pool.acc_reward_per_share;
        match spec_staker(m, user, pool_index) {
            Some(prior) => {
                let at = spec_price(pool, prior.epoch_id == epoch);
                if prior.epoch_id == epoch && prior.staked_amount > 0 {
                    refused(ContractError::AlreadyStakedThisEpoch, m)
                } else if !pending_fits(at as int, prior) {
                    None
                } else {
                    spec_enrolled(m, user, pool_index, lp_balance, epoch, pool, spec_pending(at as int, prior))
                }
            },
            None => spec_enrolled(m, user, pool_index, lp_balance, epoch, pool, 0),
        }
    }
}

/// What counting a balance in an advanced pool comes to, once the checks
/// have passed: the new entry carries `banked`, and the pool's counted
/// stake grows by the balance.
pub open spec fn spec_enrolled(
    m: StoreView,
    user: Address,
    pool_index: u32,
    lp_balance: i128,
    epoch: u64,
    pool: PoolState,
    banked: int,
) -> Outcome<()> {
    if !reward_debt_fits(lp_balance as int, pool.acc_reward_per_share as int) {
        None
    } else if !fits_i128(pool.total_staked + lp_balance) {
        None
    } else {
        let entry = StakerInfo {
            staked_amount: lp_balance,
            reward_debt: spec_reward_debt(lp_balance as int, pool.acc_reward_per_share as int) as i128,
            pending_rewards: banked as i128,
            epoch_id: epoch,
        };
        Some(
            (
                Ok(()),
                m.insert(DataKey::Staker(user, pool_index), Record::Staker(entry)).insert(
                    DataKey::PoolState(pool_index),
                    Record::Pool(with_total(pool, (pool.total_staked + lp_balance) as i128)),
                ),
            ),
        )
    }
}

/// Whether `path` proves the position against the root that is active for
/// the pool. Without an active root nothing is proved.
pub open spec fn spec_proof_accepted(
    m: StoreView,
    user: Address,
    pool_index: u32,
    lp_balance: i128,
    path: Seq<Bytes32>,
) -> bool {
    match spec_merkle_root(m, pool_index) {
        Some(data) => spec_verify_proof(
            spec_leaf(pool_index, user, lp_balance, data.epoch_id),
            path,
            data.root,
        ),
        None => false,
    }
}

/// The staking ledger's operations. Each takes the store it works on and,
/// where it needs them, the current time and what the reward token reports.
pub struct LpStakingContract;

impl LpStakingContract {
    /// Checks that `caller` is the recorded administrator.
    pub fn require_admin(store: &Store, caller: &Address) -> (r: Result<(), ContractError>)
        ensures
            match spec_admin_denied(store@, *caller) {
                Some(e) => r == Err::<(), ContractError>(e),
                None => r is Ok,
            },
    {
        if !has_admin(store) {
            return Err(ContractError::NotInitialized);
        }
        let admin = get_admin(store);
        if !admin.same(caller) {
            return Err(ContractError::Unauthorized);
        }
        Ok(())
    }

    /// Checks that a pool is registered under `pool_index`.
    pub fn require_valid_pool(store: &Store, pool_index: u32) -> (r: Result<(), ContractError>)
        ensures
            r is Ok == spec_valid_pool(store@, pool_index),
            r is Err ==> r == Err::<(), ContractError>(ContractError::PoolNotFound),
    {
        let count: u32 = get_pool_count(store);
        if pool_index >= count {
            return Err(ContractError::PoolNotFound);
        }
        Ok(())
    }

    /// Whether `staker` belongs to the epoch that is active for the pool.
    pub fn is_current_epoch(store: &Store, pool_index: u32, staker: &StakerInfo) -> (r: bool)
        ensures
            r == spec_is_current(store@, pool_index, *staker),
    {
        if has_merkle_root(store, pool_index) {
            let data = get_merkle_root(store, pool_index);
            staker.epoch_id == data.epoch_id
        } else {
            false
        }
    }

    /// Enrolls a position whose proof has been judged: `proof_ok` tells
    /// whether it was accepted. Returns `None`, and leaves the store as it
    /// is, where the arithmetic leaves the working width.
    pub fn checked_enroll(
        store: &mut Store,
        now: u64,
        user: &Address,
        pool_index: u32,
        lp_balance: i128,
        proof_ok: bool,
    ) -> (r: Option<Result<(), ContractError>>)
        ensures
            carried_out(
                spec_enroll(old(store)@, now, *user, pool_index, lp_balance, proof_ok),
                r,
                old(store)@,
                final(store)@,
            ),
    {
        if pool_index >= get_pool_count(store) {
            return Some(Err(ContractError::PoolNotFound));
        }
        if lp_balance <= 0 {
            return Some(Err(ContractError::InvalidAmount));
        }
        if !has_merkle_root(store, pool_index) {
            return Some(Err(ContractError::NoMerkleRoot));
        }
        if !proof_ok {
            return Some(Err(ContractError::InvalidProof));
        }
        let epoch: u64 = get_merkle_root(store, pool_index).epoch_id;
        let stored = get_pool_state(store, pool_index);
        let rate: i128 = get_reward_rate(store);
        let pool = match checked_advance(&stored, rate, now) {
            Some(p) => p,
            None => {
                return None;
            },
        };
        let banked: i128 = if has_staker(store, user, pool_index) {
            let prior = get_staker(store, user, pool_index);
            if prior.epoch_id == epoch && prior.staked_amount > 0 {
                return Some(Err(ContractError::AlreadyStakedThisEpoch));
            }
            match checked_pending(price(&pool, prior.epoch_id == epoch), &prior) {
                Some(p) => p,
                None => {
                    return None;
                },
            }
        } else {
            0
        };
        let debt: i128 = match checked_reward_debt(lp_balance, pool.acc_reward_per_share) {
            Some(d) => d,
            None => {
                return None;
            },
        };
        let total: i128 = match pool.total_staked.checked_add(lp_balance) {
            Some(t) => t,
            None => {
                return None;
            },
        };
        let entry = StakerInfo {
            staked_amount: lp_balance,
            reward_debt: debt,
            pending_rewards: banked,
            epoch_id: epoch,
        };
        set_staker(store, user, pool_index, &entry);
        let counted = PoolState {
            acc_reward_per_share: pool.acc_reward_per_share,
            total_staked: total,
            last_reward_time: pool.last_reward_time,
            prev_acc_reward_per_share: pool.prev_acc_reward_per_share,
        };
        set_pool_state(store, pool_index, &counted);
        Some(Ok(()))
    }

    /// Enrolls a position whose proof has been judged: `proof_ok` tells
    /// whether it was accepted. A refusal leaves the store as it was.
    pub fn enroll(
        store: &mut Store,
        now: u64,
        user: &Address,
        pool_index: u32,
        lp_balance: i128,
        proof_ok: bool,
    ) -> (r: Result<(), ContractError>)
        requires
            spec_enroll(old(store)@, now, *user, pool_index, lp_balance, proof_ok) is Some,
        ensures
            spec_enroll(old(store)@, now, *user, pool_index, lp_balance, proof_ok) == Some(
                (r, final(store)@),
            ),
            r is Err ==> final(store)@ == old(store)@,
    {
        match Self::checked_enroll(store, now, user, pool_index, lp_balance, proof_ok) {
            Some(r) => r,
            None => vstd::pervasive::unreached(),
        }
    }

    /// Whether `proof` proves the position against the root that is active
    /// for the pool.
    pub fn proof_accepted(
        store: &Store,
        user: &Address,
        pool_index: u32,
        lp_balance: i128,
        proof: &Vec<Bytes32>,
    ) -> (ok: bool)
        ensures
            ok == spec_proof_accepted(store@, *user, pool_index, lp_balance, proof@),
    {
        if has_merkle_root(store, pool_index) {
            let data = get_merkle_root(store, pool_index);
            let leaf = compute_leaf(pool_index, user, lp_balance, data.epoch_id);
            verify_proof(&leaf, proof, &data.root)
        } else {
            false
        }
    }

    /// Proves a position by its Merkle path and starts earning on it.
    /// Returns `None`, and leaves the store as it is, where the arithmetic
    /// leaves the working width.
    pub fn checked_stake(
        store: &mut Store,
        now: u64,
        user: &Address,
        pool_index: u32,
        lp_balance: i128,
        proof: &Vec<Bytes32>,
    ) -> (r: Option<Result<(), ContractError>>)
        ensures
            carried_out(
                spec_enroll(
                    old(store)@,
                    now,
                    *user,
                    pool_index,
                    lp_balance,
                    spec_proof_accepted(old(store)@, *user, pool_index, lp_balance, proof@),
                ),
                r,
                old(store)@,
                final(store)@,
            ),
    {
        let judged: bool = pool_index < get_pool_count(store) && lp_balance > 0;
        let proof_ok: bool = judged && Self::proof_accepted(
            store,
            user,
            pool_index,
            lp_balance,
            proof,
        );
        Self::checked_enroll(store, now, user, pool_index, lp_balance, proof_ok)
    }

    /// Proves a position by its Merkle path and starts earning on it: the
    /// proof is judged against the root that is active for the pool, and
    /// the position is enrolled as [`LpStakingContract::enroll`] does. The
    /// arithmetic must fit should the proof be accepted.
    pub fn stake(
        store: &mut Store,
        now: u64,
        user: &Address,
        pool_index: u32,
        lp_balance: i128,
        proof: &Vec<Bytes32>,
    ) -> (r: Result<(), ContractError>)
        requires
            spec_enroll(old(store)@, now, *user, pool_index, lp_balance, true) is Some,
        ensures
            spec_enroll(
                old(store)@,
                now,
                *user,
                pool_index,
                lp_balance,
                spec_proof_accepted(old(store)@, *user, pool_index, lp_balance, proof@),
            ) == Some((r, final(store)@)),
            r is Err ==> final(store)@ == old(store)@,
    {
        match Self::checked_stake(store, now, user, pool_index, lp_balance, proof) {
            Some(r) => r,
            None => vstd::pervasive::unreached(),
        }
    }
}

/// The entry that a claim leaves: nothing is banked any more, and the debt
/// of an entry of the current epoch is set anew at the pool's accumulator.
pub open spec fn spec_settled(entry: StakerInfo, pool: PoolState, current: bool) -> StakerInfo {
    StakerInfo {
        staked_amount: entry.staked_amount,
        reward_debt: if current {
            spec_reward_debt(entry.staked_amount as int, pool.acc_reward_per_share as int) as i128
        } else {
            entry.reward_debt
        },
        pending_rewards: 0,
        epoch_id: entry.epoch_id,
    }
}

/// What claiming comes to, the reward token holding `balance` for the
/// ledger.
///
/// The claim is refused unless the pool exists, the account has an entry,
/// what it is owed is positive, a reward token is recorded and the
/// holding covers what is owed. Otherwise the pool is advanced to `now`,
/// all that is owed is paid out, and the entry is settled.
pub open spec fn spec_claim(
    m: StoreView,
    now: u64,
    user: Address,
    pool_index: u32,
    balance: i128,
) -> Outcome<i128> {
    if !spec_valid_pool(m, pool_index) {
        refused(ContractError::PoolNotFound, m)
    } else {
        match spec_staker(m, user, pool_index) {
            None => refused(ContractError::NoStakeFound, m),
            Some(entry) => {
                let pool = spec_updated_pool(m, now, pool_index);
                let current = spec_is_current(m, pool_index, entry);
                let at = spec_price(pool, current) as int;
                if !update_pool_fits(m, now, pool_index) {
                    None
                } else if !pending_fits(at, entry) {
                    None
                } else if spec_pending(at, entry) <= 0 {
                    refused(ContractError::NoRewardsToClaim, m)
                } else if spec_lmnr_token(m) is None {
                    refused(ContractError::NotInitialized, m)
                } else if balance < spec_pending(at, entry) {
                    refused(ContractError::InsufficientRewardBalance, m)
                } else {
                    Some(
                        (
                            Ok(spec_pending(at, entry) as i128),
                            m.insert(DataKey::PoolState(pool_index), Record::Pool(pool)).insert(
                                DataKey::Staker(user, pool_index),
                                Record::Staker(spec_settled(entry, pool, current)),
                            ),
                        ),
                    )
                }
            },
        }
    }
}

/// What exiting comes to.
///
/// The exit is refused unless the pool exists and the account has an
/// entry. Otherwise the pool is advanced to `now`; the stake of an entry
/// of the current epoch leaves the pool's counted stake; and the entry is
/// kept without stake while reward is owed to it, and deleted when none is.
pub open spec fn spec_unstake(m: StoreView, now: u64, user: Address, pool_index: u32) -> Outcome<()> {
    if !spec_valid_pool(m, pool_index) {
        refused(ContractError::PoolNotFound, m)
    } else {
        match spec_staker(m, user, pool_index) {
            None => refused(ContractError::NoStakeFound, m),
            Some(entry) => {
                let pool = spec_updated_pool(m, now, pool_index);
                let current = spec_is_current(m, pool_index, entry);
                let at = spec_price(pool, current) as int;
                let counted = current && entry.staked_amount > 0;
                let left = if counted {
                    pool.total_staked - entry.staked_amount
                } else {
                    pool.total_staked as int
                };
                if !update_pool_fits(m, now, pool_index) {
                    None
                } else if !pending_fits(at, entry) {
                    None
                } else if !fits_i128(left) {
                    None
                } else {
                    let m1 = m.insert(
                        DataKey::PoolState(pool_index),
                        Record::Pool(with_total(pool, left as i128)),
                    );
                    if spec_pending(at, entry) > 0 {
                        Some(
                            (
                                Ok(()),
                                m1.insert(
                                    DataKey::Staker(user, pool_index),
                                    Record::Staker(
                                        StakerInfo {
                                            staked_amount: 0,
                                            reward_debt: 0,
                                            pending_rewards: spec_pending(at, entry) as i128,
                                            epoch_id: entry.epoch_id,
                                        },
                                    ),
                                ),
                            ),
                        )
                    } else {
                        Some((Ok(()), m1.remove(DataKey::Staker(user, pool_index))))
                    }
                }
            },
        }
    }
}

/// The reward that is owed to the account at `now`, or nothing where its
/// computation leaves the working width: 0 without an entry; for a stale
/// entry what it was owed at the last rotation; for an entry of the
/// current epoch what it is owed at the accumulator that the pool would
/// have at `now`.
pub open spec fn spec_pending_reward(m: StoreView, now: u64, user: Address, pool_index: u32) -> Option<
    int,
> {
    match spec_staker(m, user, pool_index) {
        None => Some(0),
        Some(entry) => {
            let stored = spec_pool_state(m, pool_index);
            if !spec_is_current(m, pool_index, entry) {
                if pending_fits(stored.prev_acc_reward_per_share as int, entry) {
                    Some(spec_pending(stored.prev_acc_reward_per_share as int, entry))
                } else {
                    None
                }
            } else if !update_pool_fits(m, now, pool_index) {
                None
            } else {
                let acc = spec_accrued(stored, spec_reward_rate(m), now);
                if pending_fits(acc, entry) {
                    Some(spec_pending(acc, entry))
                } else {
                    None
                }
            }
        },
    }
}

/// What funding comes to: it is refused unless the amount is positive and
/// a reward token is recorded. The ledger's records do not change.
pub open spec fn spec_fund(m: StoreView, amount: i128) -> Result<(), ContractError> {
    if amount <= 0 {
        Err(ContractError::InvalidAmount)
    } else if spec_lmnr_token(m) is None {
        Err(ContractError::NotInitialized)
    } else {
        Ok(())
    }
}

impl LpStakingContract {
    /// Judges a deposit of `amount` reward tokens by `funder`. On `Ok` the
    /// caller moves the tokens to the ledger.
    pub fn fund(store: &Store, funder: &Address, amount: i128) -> (r: Result<(), ContractError>)
        ensures
            r == spec_fund(store@, amount),
    {
        if amount <= 0 {
            return Err(ContractError::InvalidAmount);
        }
        if !has_lmnr_token(store) {
            return Err(ContractError::NotInitialized);
        }
        Ok(())
    }

    /// Claims all reward owed to `user` in the pool, `contract_balance`
    /// being what the reward token holds for the ledger. On `Ok` the caller
    /// pays the amount returned. Returns `None`, and leaves the store as it
    /// is, where the arithmetic leaves the working width.
    pub fn checked_claim(
        store: &mut Store,
        now: u64,
        user: &Address,
        pool_index: u32,
        contract_balance: i128,
    ) -> (r: Option<Result<i128, ContractError>>)
        ensures
            carried_out(
                spec_claim(old(store)@, now, *user, pool_index, contract_balance),
                r,
                old(store)@,
                final(store)@,
            ),
    {
        if pool_index >= get_pool_count(store) {
            return Some(Err(ContractError::PoolNotFound));
        }
        if !has_staker(store, user, pool_index) {
            return Some(Err(ContractError::NoStakeFound));
        }
        let stored = get_pool_state(store, pool_index);
        let rate: i128 = get_reward_rate(store);
        let pool = match checked_advance(&stored, rate, now) {
            Some(p) => p,
            None => {
                return None;
            },
        };
        let entry = get_staker(store, user, pool_index);
        let current: bool = Self::is_current_epoch(store, pool_index, &entry);
        let pending: i128 = match checked_pending(price(&pool, current), &entry) {
            Some(p) => p,
            None => {
                return None;
            },
        };
        if pending <= 0 {
            return Some(Err(ContractError::NoRewardsToClaim));
        }
        if !has_lmnr_token(store) {
            return Some(Err(ContractError::NotInitialized));
        }
        if contract_balance < pending {
            return Some(Err(ContractError::InsufficientRewardBalance));
        }
        let debt: i128 = if current {
            assert(reward_debt_fits(
                entry.staked_amount as int,
                pool.acc_reward_per_share as int,
            )) by {
                if entry.staked_amount == 0 {
                    assert(entry.staked_amount * pool.acc_reward_per_share == 0) by (nonlinear_arith)
                        requires
                            entry.staked_amount == 0,
                    ;
                }
            }
            match checked_reward_debt(entry.staked_amount, pool.acc_reward_per_share) {
                Some(d) => d,
                None => vstd::pervasive::unreached(),
            }
        } else {
            entry.reward_debt
        };
        let settled = StakerInfo {
            staked_amount: entry.staked_amount,
            reward_debt: debt,
            pending_rewards: 0,
            epoch_id: entry.epoch_id,
        };
        set_pool_state(store, pool_index, &pool);
        set_staker(store, user, pool_index, &settled);
        Some(Ok(pending))
    }

    /// Claims all reward owed to `user` in the pool, `contract_balance`
    /// being what the reward token holds for the ledger. On `Ok` the caller
    /// pays the amount returned. A refusal leaves the store as it was.
    pub fn claim(
        store: &mut Store,
        now: u64,
        user: &Address,
        pool_index: u32,
        contract_balance: i128,
    ) -> (r: Result<i128, ContractError>)
        requires
            spec_claim(old(store)@, now, *user, pool_index, contract_balance) is Some,
        ensures
            spec_claim(old(store)@, now, *user, pool_index, contract_balance) == Some(
                (r, final(store)@),
            ),
            r is Err ==> final(store)@ == old(store)@,
    {
        match Self::checked_claim(store, now, user, pool_index, contract_balance) {
            Some(r) => r,
            None => vstd::pervasive::unreached(),
        }
    }

    /// Stops `user` from earning in the pool; what is owed stays claimable.
    /// Returns `None`, and leaves the store as it is, where the arithmetic
    /// leaves the working width.
    pub fn checked_unstake(store: &mut Store, now: u64, user: &Address, pool_index: u32) -> (r: Option<
        Result<(), ContractError>,
    >)
        ensures
            carried_out(
                spec_unstake(old(store)@, now, *user, pool_index),
                r,
                old(store)@,
                final(store)@,
            ),
    {
        if pool_index >= get_pool_count(store) {
            return Some(Err(ContractError::PoolNotFound));
        }
        if !has_staker(store, user, pool_index) {
            return Some(Err(ContractError::NoStakeFound));
        }
        let stored = get_pool_state(store, pool_index);
        let rate: i128 = get_reward_rate(store);
        let pool = match checked_advance(&stored, rate, now) {
            Some(p) => p,
            None => {
                return None;
            },
        };
        let entry = get_staker(store, user, pool_index);
        let current: bool = Self::is_current_epoch(store, pool_index, &entry);
        let pending: i128 = match checked_pending(price(&pool, current), &entry) {
            Some(p) => p,
            None => {
                return None;
            },
        };
        let left: i128 = if current && entry.staked_amount > 0 {
            match pool.total_staked.checked_sub(entry.staked_amount) {
                Some(t) => t,
                None => {
                    return None;
                },
            }
        } else {
            pool.total_staked
        };
        let remaining = PoolState {
            acc_reward_per_share: pool.acc_reward_per_share,
            total_staked: left,
            last_reward_time: pool.last_reward_time,
            prev_acc_reward_per_share: pool.prev_acc_reward_per_share,
        };
        set_pool_state(store, pool_index, &remaining);
        if pending > 0 {
            let kept = StakerInfo {
                staked_amount: 0,
                reward_debt: 0,
                pending_rewards: pending,
                epoch_id: entry.epoch_id,
            };
            set_staker(store, user, pool_index, &kept);
        } else {
            remove_staker(store, user, pool_index);
        }
        Some(Ok(()))
    }

    /// Stops `user` from earning in the pool; what is owed stays claimable.
    /// A refusal leaves the store as it was.
    pub fn unstake(store: &mut Store, now: u64, user: &Address, pool_index: u32) -> (r: Result<
        (),
        ContractError,
    >)
        requires
            spec_unstake(old(store)@, now, *user, pool_index) is Some,
        ensures
            spec_unstake(old(store)@, now, *user, pool_index) == Some((r, final(store)@)),
            r is Err ==> final(store)@ == old(store)@,
    {
        match Self::checked_unstake(store, now, user, pool_index) {
            Some(r) => r,
            None => vstd::pervasive::unreached(),
        }
    }

    /// The reward owed to `user` in the pool at `now`, or `None` where its
    /// computation leaves the working width. Nothing is stored.
    pub fn checked_pending_reward(store: &Store, now: u64, user: &Address, pool_index: u32) -> (r:
        Option<i128>)
        ensures
            r is Some == spec_pending_reward(store@, now, *user, pool_index) is Some,
            r is Some ==> r.unwrap() == spec_pending_reward(store@, now, *user, pool_index).unwrap(),
    {
        if !has_staker(store, user, pool_index) {
            return Some(0);
        }
        let entry = get_staker(store, user, pool_index);
        let stored = get_pool_state(store, pool_index);
        if !Self::is_current_epoch(store, pool_index, &entry) {
            return checked_pending(stored.prev_acc_reward_per_share, &entry);
        }
        let rate: i128 = get_reward_rate(store);
        match checked_accrue(&stored, rate, now) {
            Some(acc) => checked_pending(acc, &entry),
            None => None,
        }
    }

    /// The reward owed to `user` in the pool at `now`. Nothing is stored.
    pub fn pending_reward(store: &Store, now: u64, user: &Address, pool_index: u32) -> (r: i128)
        requires
            spec_pending_reward(store@, now, *user, pool_index) is Some,
        ensures
            Some(r as int) == spec_pending_reward(store@, now, *user, pool_index),
    {
        match Self::checked_pending_reward(store, now, user, pool_index) {
            Some(r) => r,
            None => vstd::pervasive::unreached(),
        }
    }

    /// The ledger entry of `user` in the pool.
    pub fn get_staker_info(store: &Store, user: &Address, pool_index: u32) -> (info: StakerInfo)
        requires
            spec_staker(store@, *user, pool_index) is Some,
        ensures
            Some(info) == spec_staker(store@, *user, pool_index),
    {
        get_staker(store, user, pool_index)
    }

    /// The stored state of the pool; all zeros while none is stored.
    pub fn get_pool_state(store: &Store, pool_index: u32) -> (state: PoolState)
        ensures
            state == spec_pool_state(store@, pool_index),
    {
        get_pool_state(store, pool_index)
    }

    /// The snapshot root that is active for the pool.
    pub fn get_merkle_root(store: &Store, pool_index: u32) -> (data: MerkleRootData)
        requires
            spec_merkle_root(store@, pool_index) is Some,
        ensures
            Some(data) == spec_merkle_root(store@, pool_index),
    {
        get_merkle_root(store, pool_index)
    }

    /// The number of registered pools.
    pub fn get_pool_count(store: &Store) -> (count: u32)
        ensures
            count == spec_pool_count(store@),
    {
        get_pool_count(store)
    }

    /// The identifier of the pool registered under `pool_index`.
    pub fn get_pool_id(store: &Store, pool_index: u32) -> (id: Bytes32)
        requires
            spec_pool_id(store@, pool_index) is Some,
        ensures
            Some(id) == spec_pool_id(store@, pool_index),
    {
        get_pool_id(store, pool_index)
    }
}


/// No position is counted twice in an epoch.
///
/// Once a position has been enrolled, every further attempt for the same
/// account and pool under the same root is refused and leaves the store
/// as it was; with a positive balance and an accepted proof the refusal is
/// `AlreadyStakedThisEpoch`.
pub proof fn lemma_no_double_enrollment(
    m: StoreView,
    now: u64,
    user: Address,
    pool_index: u32,
    lp_balance: i128,
    enrolled: StoreView,
    later: u64,
    again: i128,
    proof_ok: bool,
)
    requires
        spec_enroll(m, now, user, pool_index, lp_balance, true) == Some(
            (Ok::<(), ContractError>(()), enrolled),
        ),
        spec_enroll(enrolled, later, user, pool_index, again, proof_ok) is Some,
    ensures
        spec_enroll(enrolled, later, user, pool_index, again, proof_ok).unwrap().0 is Err,
        spec_enroll(enrolled, later, user, pool_index, again, proof_ok).unwrap().1 == enrolled,
        again > 0 && proof_ok ==> spec_enroll(
            enrolled,
            later,
            user,
            pool_index,
            again,
            proof_ok,
        ).unwrap().0 == Err::<(), ContractError>(ContractError::AlreadyStakedThisEpoch),
{
}

/// A refused enrollment, claim or exit leaves the store as it was.
pub proof fn lemma_refusal_changes_nothing(
    m: StoreView,
    now: u64,
    user: Address,
    pool_index: u32,
    amount: i128,
    proof_ok: bool,
)
    ensures
        spec_enroll(m, now, user, pool_index, amount, proof_ok) is Some && spec_enroll(
            m,
            now,
            user,
            pool_index,
            amount,
            proof_ok,
        ).unwrap().0 is Err ==> spec_enroll(m, now, user, pool_index, amount, proof_ok).unwrap().1
            == m,
        spec_claim(m, now, user, pool_index, amount) is Some && spec_claim(
            m,
            now,
            user,
            pool_index,
            amount,
        ).unwrap().0 is Err ==> spec_claim(m, now, user, pool_index, amount).unwrap().1 == m,
        spec_unstake(m, now, user, pool_index) is Some && spec_unstake(
            m,
            now,
            user,
            pool_index,
        ).unwrap().0 is Err ==> spec_unstake(m, now, user, pool_index).unwrap().1 == m,
{
}

/// What a stale entry is owed does not depend on the time of the query.
pub proof fn lemma_stale_pending_ignores_time(
    m: StoreView,
    user: Address,
    pool_index: u32,
    now: u64,
    later: u64,
)
    requires
        spec_staker(m, user, pool_index) is Some,
        !spec_is_current(m, pool_index, spec_staker(m, user, pool_index).unwrap()),
    ensures
        spec_pending_reward(m, later, user, pool_index) == spec_pending_reward(
            m,
            now,
            user,
            pool_index,
        ),
{
}

/// A successful claim by an account of the current epoch pays all that is
/// owed: right after it, nothing is owed to the account at the same
/// instant.
pub proof fn lemma_claim_settles(
    m: StoreView,
    now: u64,
    user: Address,
    pool_index: u32,
    balance: i128,
    paid: i128,
    settled: StoreView,
)
    requires
        spec_claim(m, now, user, pool_index, balance) == Some(
            (Ok::<i128, ContractError>(paid), settled),
        ),
        spec_is_current(m, pool_index, spec_staker(m, user, pool_index).unwrap()),
    ensures
        paid > 0,
        paid <= balance,
        spec_pending_reward(settled, now, user, pool_index) == Some(0int),
{
    let entry = spec_staker(m, user, pool_index).unwrap();
    let pool = spec_updated_pool(m, now, pool_index);
    let current = spec_is_current(m, pool_index, entry);
    let after = spec_settled(entry, pool, current);
    assert(spec_staker(settled, user, pool_index) == Some(after));
    assert(spec_pool_state(settled, pool_index) == pool);
    assert(spec_merkle_root(settled, pool_index) == spec_merkle_root(m, pool_index));
    assert(spec_reward_rate(settled) == spec_reward_rate(m));
    assert(spec_is_current(settled, pool_index, after) == current);
    assert(!crate::rewards::accrues(pool, spec_reward_rate(m), now));
    assert(spec_accrued(pool, spec_reward_rate(m), now) == pool.acc_reward_per_share);
    if entry.staked_amount != 0 {
        crate::rewards::lemma_reward_debt_in_range(
            entry.staked_amount as int,
            pool.acc_reward_per_share as int,
        );
    }
}


} // verus!
