use crate::address::{Address, Bytes32};
use crate::contract::{
    carried_out, price, refused, spec_admin_denied, spec_is_current, spec_pending_reward,
    spec_price, spec_valid_pool, with_total, LpStakingContract, Outcome,
};
use crate::errors::ContractError;
use crate::rewards::{
    checked_accrue, checked_advance, checked_pending, checked_reward_debt, fits_i128,
    pending_fits, reward_debt_fits, spec_pending, spec_reward_debt, spec_update_pool,
    spec_updated_pool, update_pool, update_pool_fits,
};
use crate::storage::{
    get_merkle_root, get_pool_count, get_pool_state, get_reward_rate, get_staker, has_admin,
    has_lmnr_token, has_merkle_root, has_pool_id_index, has_staker, set_admin, set_lmnr_token,
    set_merkle_root, set_pool_count, set_pool_id, set_pool_id_index, set_pool_state,
    set_reward_rate, set_staker, spec_admin, spec_lmnr_token, spec_merkle_root, spec_pool_count,
    spec_pool_id_index, spec_pool_state, spec_reward_rate, spec_staker, DataKey, MerkleRootData,
    PoolState, Record, StakerInfo, Store, StoreView,
};
use vstd::prelude::*;

verus! {

/// What initializing comes to: it is refused once an administrator is
/// recorded; otherwise the administrator, the reward token and the rate
/// are recorded, and no pool is registered.
pub open spec fn spec_initialize(
    m: StoreView,
    admin: Address,
    lmnr_token: Address,
    reward_rate_per_sec: i128,
) -> (Result<(), ContractError>, StoreView) {
    if spec_admin(m) is Some {
        (Err(ContractError::AlreadyInitialized), m)
    } else {
        (
            Ok(()),
            m.insert(DataKey::Admin, Record::Address(admin)).insert(
                DataKey::LmnrToken,
                Record::Address(lmnr_token),
            ).insert(DataKey::RewardRatePerSec, Record::Amount(reward_rate_per_sec)).insert(
                DataKey::PoolCount,
                Record::Count(0),
            ),
        )
    }
}

/// The state of a pool that is registered at `now`.
pub open spec fn spec_fresh_pool(now: u64) -> PoolState {
    PoolState {
        acc_reward_per_share: 0,
        total_staked: 0,
        last_reward_time: now,
        prev_acc_reward_per_share: 0,
    }
}

/// What registering a pool comes to: it is refused unless the caller is
/// the administrator and the identifier is new; otherwise the pool gets
/// the next index, which is returned.
pub open spec fn spec_add_pool(m: StoreView, now: u64, admin: Address, pool_id: Bytes32) -> Outcome<
    u32,
> {
    let index = spec_pool_count(m);
    if spec_admin_denied(m, admin) is Some {
        refused(spec_admin_denied(m, admin).unwrap(), m)
    } else if spec_pool_id_index(m, pool_id) is Some {
        refused(ContractError::PoolAlreadyExists, m)
    } else if index == u32::MAX {
        None
    } else {
        Some(
            (
                Ok(index),
                m.insert(DataKey::PoolId(index), Record::Hash(pool_id)).insert(
                    DataKey::PoolIdIndex(pool_id),
                    Record::Count(index),
                ).insert(DataKey::PoolState(index), Record::Pool(spec_fresh_pool(now))).insert(
                    DataKey::PoolCount,
                    Record::Count((index + 1) as u32),
                ),
            ),
        )
    }
}

/// What removing a pool comes to: it is refused unless the caller is the
/// administrator and the pool exists; otherwise the pool is advanced to
/// `now` and its counted stake is set to 0.
pub open spec fn spec_remove_pool(m: StoreView, now: u64, admin: Address, pool_index: u32) -> Outcome<
    (),
> {
    if spec_admin_denied(m, admin) is Some {
        refused(spec_admin_denied(m, admin).unwrap(), m)
    } else if !spec_valid_pool(m, pool_index) {
        refused(ContractError::PoolNotFound, m)
    } else if !update_pool_fits(m, now, pool_index) {
        None
    } else {
        Some(
            (
                Ok(()),
                m.insert(
                    DataKey::PoolState(pool_index),
                    Record::Pool(with_total(spec_updated_pool(m, now, pool_index), 0)),
                ),
            ),
        )
    }
}

/// A pool at the start of a new epoch: the accumulator is frozen into the
/// previous slot, and no stake is counted.
pub open spec fn spec_rotated(pool: PoolState) -> PoolState {
    PoolState {
        acc_reward_per_share: pool.acc_reward_per_share,
        total_staked: 0,
        last_reward_time: pool.last_reward_time,
        prev_acc_reward_per_share: pool.acc_reward_per_share,
    }
}

/// The epoch that follows what is active for the pool: 1 for the first
/// root, else one more than the active epoch.
pub open spec fn spec_next_epoch(m: StoreView, pool_index: u32) -> int {
    match spec_merkle_root(m, pool_index) {
        Some(data) => data.epoch_id + 1,
        None => 1,
    }
}

/// What posting a root comes to: it is refused unless the caller is the
/// administrator and the pool exists; otherwise the pool is advanced to
/// `now` and rotated, and the root becomes active under the next epoch.
pub open spec fn spec_set_merkle_root(
    m: StoreView,
    now: u64,
    admin: Address,
    pool_index: u32,
    root: Bytes32,
    snapshot_ledger: u32,
) -> Outcome<()> {
    if spec_admin_denied(m, admin) is Some {
        refused(spec_admin_denied(m, admin).unwrap(), m)
    } else if !spec_valid_pool(m, pool_index) {
        refused(ContractError::PoolNotFound, m)
    } else if !update_pool_fits(m, now, pool_index) {
        None
    } else if spec_next_epoch(m, pool_index) > u64::MAX {
        None
    } else {
        Some(
            (
                Ok(()),
                m.insert(
                    DataKey::PoolState(pool_index),
                    Record::Pool(spec_rotated(spec_updated_pool(m, now, pool_index))),
                ).insert(
                    DataKey::MerkleRoot(pool_index),
                    Record::Root(
                        MerkleRootData {
                            root,
                            epoch_id: spec_next_epoch(m, pool_index) as u64,
                            snapshot_ledger,
                            posted_at: now,
                        },
                    ),
                ),
            ),
        )
    }
}

/// The store after the pools under the first `n` indices have been
/// advanced to `now`, in turn.
pub open spec fn spec_advance_pools(m: StoreView, now: u64, n: u32) -> StoreView
    decreases n,
{
    if n == 0 {
        m
    } else {
        spec_update_pool(spec_advance_pools(m, now, (n - 1) as u32), now, (n - 1) as u32)
    }
}

/// Whether each pool under the first `n` indices can be advanced to `now`
/// within the working width.
pub open spec fn advance_pools_fits(m: StoreView, now: u64, n: u32) -> bool {
    forall|i: u32| i < n ==> update_pool_fits(m, now, i)
}

/// What changing the rate comes to: it is refused unless the caller is the
/// administrator; otherwise every registered pool is advanced to `now` at
/// the old rate, and then the new rate is recorded.
pub open spec fn spec_set_reward_rate(m: StoreView, now: u64, admin: Address, new_rate: i128) -> Outcome<
    (),
> {
    if spec_admin_denied(m, admin) is Some {
        refused(spec_admin_denied(m, admin).unwrap(), m)
    } else if !advance_pools_fits(m, now, spec_pool_count(m)) {
        None
    } else {
        Some(
            (
                Ok(()),
                spec_advance_pools(m, now, spec_pool_count(m)).insert(
                    DataKey::RewardRatePerSec,
                    Record::Amount(new_rate),
                ),
            ),
        )
    }
}

/// What handing over the administrator's role comes to.
pub open spec fn spec_set_admin(m: StoreView, admin: Address, new_admin: Address) -> (
    Result<(), ContractError>,
    StoreView,
) {
    if spec_admin_denied(m, admin) is Some {
        (Err(spec_admin_denied(m, admin).unwrap()), m)
    } else {
        (Ok(()), m.insert(DataKey::Admin, Record::Address(new_admin)))
    }
}

/// What a withdrawal comes to, the reward token holding `balance` for the
/// ledger: it is refused unless the caller is the administrator, the
/// amount is positive, a reward token is recorded and the holding covers
/// the amount. The ledger's records do not change.
pub open spec fn spec_withdraw(m: StoreView, admin: Address, amount: i128, balance: i128) -> Result<
    (),
    ContractError,
> {
    if spec_admin_denied(m, admin) is Some {
        Err(spec_admin_denied(m, admin).unwrap())
    } else if amount <= 0 {
        Err(ContractError::InvalidAmount)
    } else if spec_lmnr_token(m) is None {
        Err(ContractError::NotInitialized)
    } else if amount > balance {
        Err(ContractError::InsufficientRewardBalance)
    } else {
        Ok(())
    }
}

/// The stake of the account that the pool counts: that of its entry, if
/// the entry belongs to epoch `epoch` and holds stake.
pub open spec fn spec_counted_stake(prior: Option<StakerInfo>, epoch: u64) -> i128 {
    match prior {
        Some(entry) => if entry.epoch_id == epoch && entry.staked_amount > 0 {
            entry.staked_amount
        } else {
            0
        },
        None => 0,
    }
}

/// What setting a stake by authority comes to.
///
/// It is refused unless the caller is the administrator, the pool exists
/// and a root is posted. Otherwise the pool is advanced to `now`; what
/// the account had earned is banked at the price of its prior entry; the
/// stake that the pool counted for the account leaves the pool's counted
/// stake and the new amount enters it; and the entry is replaced.
pub open spec fn spec_update_stake(
    m: StoreView,
    now: u64,
    admin: Address,
    user: Address,
    pool_index: u32,
    new_amount: i128,
) -> Outcome<()> {
    if spec_admin_denied(m, admin) is Some {
        refused(spec_admin_denied(m, admin).unwrap(), m)
    } else if !spec_valid_pool(m, pool_index) {
        refused(ContractError::PoolNotFound, m)
    } else if spec_merkle_root(m, pool_index) is None {
        refused(ContractError::NoMerkleRoot, m)
    } else {
        let epoch = spec_merkle_root(m, pool_index).unwrap().epoch_id;
        let pool = spec_updated_pool(m, now, pool_index);
        let prior = spec_staker(m, user, pool_index);
        let banked = match prior {
            Some(entry) => spec_pending(spec_price(pool, entry.epoch_id == epoch) as int, entry),
            None => 0,
        };
        let removed = pool.total_staked - spec_counted_stake(prior, epoch);
        if !update_pool_fits(m, now, pool_index) {
            None
        } else if prior is Some && !pending_fits(
            spec_price(pool, prior.unwrap().epoch_id == epoch) as int,
            prior.unwrap(),
        ) {
            None
        } else if !fits_i128(removed) || !fits_i128(removed + new_amount) {
            None
        } else if !reward_debt_fits(new_amount as int, pool.acc_reward_per_share as int) {
            None
        } else {
            Some(
                (
                    Ok(()),
                    m.insert(
                        DataKey::Staker(user, pool_index),
                        Record::Staker(
                            StakerInfo {
                                staked_amount: new_amount,
                                reward_debt: spec_reward_debt(
                                    new_amount as int,
                                    pool.acc_reward_per_share as int,
                                ) as i128,
                                pending_rewards: banked as i128,
                                epoch_id: epoch,
                            },
                        ),
                    ).insert(
                        DataKey::PoolState(pool_index),
                        Record::Pool(with_total(pool, (removed + new_amount) as i128)),
                    ),
                ),
            )
        }
    }
}

/// Advancing the pools under the first indices leaves the rate, the pool
/// count and every pool under a later index as they were.
pub proof fn lemma_advance_pools_frame(m: StoreView, now: u64, n: u32)
    ensures
        spec_reward_rate(spec_advance_pools(m, now, n)) == spec_reward_rate(m),
        spec_pool_count(spec_advance_pools(m, now, n)) == spec_pool_count(m),
        spec_admin(spec_advance_pools(m, now, n)) == spec_admin(m),
        forall|j: u32| j >= n ==> spec_pool_state(spec_advance_pools(m, now, n), j) == spec_pool_state(m, j),
    decreases n,
{
    if n > 0 {
        lemma_advance_pools_frame(m, now, (n - 1) as u32);
    }
}

impl LpStakingContract {
    /// Records the administrator, the reward token and the reward rate.
    /// It can be done once.
    pub fn initialize(
        store: &mut Store,
        admin: &Address,
        lmnr_token: &Address,
        reward_rate_per_sec: i128,
    ) -> (r: Result<(), ContractError>)
        ensures
            (r, final(store)@) == spec_initialize(
                old(store)@,
                *admin,
                *lmnr_token,
                reward_rate_per_sec,
            ),
            r is Err ==> final(store)@ == old(store)@,
    {
        if has_admin(store) {
            return Err(ContractError::AlreadyInitialized);
        }
        set_admin(store, admin);
        set_lmnr_token(store, lmnr_token);
        set_reward_rate(store, reward_rate_per_sec);
        set_pool_count(store, 0);
        Ok(())
    }

    /// Registers a pool at `now` and returns its index. Returns `None`,
    /// and leaves the store as it is, where no index is left.
    pub fn checked_add_pool(store: &mut Store, now: u64, admin: &Address, pool_id: &Bytes32) -> (r:
        Option<Result<u32, ContractError>>)
        ensures
            carried_out(
                spec_add_pool(old(store)@, now, *admin, *pool_id),
                r,
                old(store)@,
                final(store)@,
            ),
    {
        match Self::require_admin(store, admin) {
            Err(e) => {
                return Some(Err(e));
            },
            Ok(_) => {},
        }
        if has_pool_id_index(store, pool_id) {
            return Some(Err(ContractError::PoolAlreadyExists));
        }
        let index: u32 = get_pool_count(store);
        if index == u32::MAX {
            return None;
        }
        set_pool_id(store, index, pool_id);
        set_pool_id_index(store, pool_id, index);
        let fresh = PoolState {
            acc_reward_per_share: 0,
            total_staked: 0,
            last_reward_time: now,
            prev_acc_reward_per_share: 0,
        };
        set_pool_state(store, index, &fresh);
        set_pool_count(store, index + 1);
        Some(Ok(index))
    }

    /// Registers a pool at `now` and returns its index. A refusal leaves
    /// the store as it was.
    pub fn add_pool(store: &mut Store, now: u64, admin: &Address, pool_id: &Bytes32) -> (r: Result<
        u32,
        ContractError,
    >)
        requires
            spec_add_pool(old(store)@, now, *admin, *pool_id) is Some,
        ensures
            spec_add_pool(old(store)@, now, *admin, *pool_id) == Some((r, final(store)@)),
            r is Err ==> final(store)@ == old(store)@,
    {
        match Self::checked_add_pool(store, now, admin, pool_id) {
            Some(r) => r,
            None => vstd::pervasive::unreached(),
        }
    }

    /// Takes a pool out of service: its counted stake is set to 0, so that
    /// nothing accrues any more; what is owed stays claimable. Returns
    /// `None`, and leaves the store as it is, where the arithmetic leaves
    /// the working width.
    pub fn checked_remove_pool(store: &mut Store, now: u64, admin: &Address, pool_index: u32) -> (r:
        Option<Result<(), ContractError>>)
        ensures
            carried_out(
                spec_remove_pool(old(store)@, now, *admin, pool_index),
                r,
                old(store)@,
                final(store)@,
            ),
    {
        match Self::require_admin(store, admin) {
            Err(e) => {
                return Some(Err(e));
            },
            Ok(_) => {},
        }
        if pool_index >= get_pool_count(store) {
            return Some(Err(ContractError::PoolNotFound));
        }
        let stored = get_pool_state(store, pool_index);
        let rate: i128 = get_reward_rate(store);
        let pool = match checked_advance(&stored, rate, now) {
            Some(p) => p,
            None => {
                return None;
            },
        };
        let emptied = PoolState {
            acc_reward_per_share: pool.acc_reward_per_share,
            total_staked: 0,
            last_reward_time: pool.last_reward_time,
            prev_acc_reward_per_share: pool.prev_acc_reward_per_share,
        };
        set_pool_state(store, pool_index, &emptied);
        Some(Ok(()))
    }

    /// Takes a pool out of service. A refusal leaves the store as it was.
    pub fn remove_pool(store: &mut Store, now: u64, admin: &Address, pool_index: u32) -> (r: Result<
        (),
        ContractError,
    >)
        requires
            spec_remove_pool(old(store)@, now, *admin, pool_index) is Some,
        ensures
            spec_remove_pool(old(store)@, now, *admin, pool_index) == Some((r, final(store)@)),
            r is Err ==> final(store)@ == old(store)@,
    {
        match Self::checked_remove_pool(store, now, admin, pool_index) {
            Some(r) => r,
            None => vstd::pervasive::unreached(),
        }
    }

    /// Posts a new snapshot root for a pool, which starts a new epoch:
    /// every account must prove its position anew to go on earning.
    /// Returns `None`, and leaves the store as it is, where the arithmetic
    /// leaves the working width.
    pub fn checked_set_merkle_root(
        store: &mut Store,
        now: u64,
        admin: &Address,
        pool_index: u32,
        root: &Bytes32,
        snapshot_ledger: u32,
    ) -> (r: Option<Result<(), ContractError>>)
        ensures
            carried_out(
                spec_set_merkle_root(old(store)@, now, *admin, pool_index, *root, snapshot_ledger),
                r,
                old(store)@,
                final(store)@,
            ),
    {
        match Self::require_admin(store, admin) {
            Err(e) => {
                return Some(Err(e));
            },
            Ok(_) => {},
        }
        if pool_index >= get_pool_count(store) {
            return Some(Err(ContractError::PoolNotFound));
        }
        let stored = get_pool_state(store, pool_index);
        let rate: i128 = get_reward_rate(store);
        let pool = match checked_advance(&stored, rate, now) {
            Some(p) => p,
            None => {
                return None;
            },
        };
        let epoch_id: u64 = if has_merkle_root(store, pool_index) {
            match get_merkle_root(store, pool_index).epoch_id.checked_add(1) {
                Some(e) => e,
                None => {
                    return None;
                },
            }
        } else {
            1
        };
        let rotated = PoolState {
            acc_reward_per_share: pool.acc_reward_per_share,
            total_staked: 0,
            last_reward_time: pool.last_reward_time,
            prev_acc_reward_per_share: pool.acc_reward_per_share,
        };
        set_pool_state(store, pool_index, &rotated);
        let data = MerkleRootData { root: *root, epoch_id, snapshot_ledger, posted_at: now };
        set_merkle_root(store, pool_index, &data);
        Some(Ok(()))
    }

    /// Posts a new snapshot root for a pool, which starts a new epoch. A
    /// refusal leaves the store as it was.
    pub fn set_merkle_root(
        store: &mut Store,
        now: u64,
        admin: &Address,
        pool_index: u32,
        root: &Bytes32,
        snapshot_ledger: u32,
    ) -> (r: Result<(), ContractError>)
        requires
            spec_set_merkle_root(old(store)@, now, *admin, pool_index, *root, snapshot_ledger)
                is Some,
        ensures
            spec_set_merkle_root(old(store)@, now, *admin, pool_index, *root, snapshot_ledger)
                == Some((r, final(store)@)),
            r is Err ==> final(store)@ == old(store)@,
    {
        match Self::checked_set_merkle_root(store, now, admin, pool_index, root, snapshot_ledger) {
            Some(r) => r,
            None => vstd::pervasive::unreached(),
        }
    }

    /// Whether each pool under the first `n` indices can be advanced to
    /// `now` within the working width.
    fn pools_fit(store: &Store, now: u64, n: u32) -> (r: bool)
        ensures
            r == advance_pools_fits(store@, now, n),
    {
        let rate: i128 = get_reward_rate(store);
        let mut i: u32 = 0;
        while i < n
            invariant
                i <= n,
                rate == spec_reward_rate(store@),
                forall|j: u32| j < i ==> update_pool_fits(store@, now, j),
            decreases n - i,
        {
            let stored = get_pool_state(store, i);
            if checked_accrue(&stored, rate, now).is_none() {
                assert(!update_pool_fits(store@, now, i));
                return false;
            }
            i += 1;
        }
        true
    }

    /// Changes the global reward rate, after advancing every registered
    /// pool to `now` at the old rate. Returns `None`, and leaves the store
    /// as it is, where the arithmetic leaves the working width.
    pub fn checked_set_reward_rate(store: &mut Store, now: u64, admin: &Address, new_rate: i128) -> (r:
        Option<Result<(), ContractError>>)
        ensures
            carried_out(
                spec_set_reward_rate(old(store)@, now, *admin, new_rate),
                r,
                old(store)@,
                final(store)@,
            ),
    {
        match Self::require_admin(store, admin) {
            Err(e) => {
                return Some(Err(e));
            },
            Ok(_) => {},
        }
        let count: u32 = get_pool_count(store);
        if !Self::pools_fit(store, now, count) {
            return None;
        }
        let mut i: u32 = 0;
        while i < count
            invariant
                i <= count,
                advance_pools_fits(old(store)@, now, count),
                store@ == spec_advance_pools(old(store)@, now, i),
            decreases count - i,
        {
            proof {
                lemma_advance_pools_frame(old(store)@, now, i);
                assert(update_pool_fits(old(store)@, now, i));
                assert(spec_pool_state(store@, i) == spec_pool_state(old(store)@, i));
            }
            update_pool(store, now, i);
            i += 1;
        }
        set_reward_rate(store, new_rate);
        Some(Ok(()))
    }

    /// Changes the global reward rate, after advancing every registered
    /// pool to `now` at the old rate. A refusal leaves the store as it was.
    pub fn set_reward_rate(store: &mut Store, now: u64, admin: &Address, new_rate: i128) -> (r: Result<
        (),
        ContractError,
    >)
        requires
            spec_set_reward_rate(old(store)@, now, *admin, new_rate) is Some,
        ensures
            spec_set_reward_rate(old(store)@, now, *admin, new_rate) == Some((r, final(store)@)),
            r is Err ==> final(store)@ == old(store)@,
    {
        match Self::checked_set_reward_rate(store, now, admin, new_rate) {
            Some(r) => r,
            None => vstd::pervasive::unreached(),
        }
    }

    /// Hands the administrator's role to `new_admin`.
    pub fn set_admin(store: &mut Store, admin: &Address, new_admin: &Address) -> (r: Result<
        (),
        ContractError,
    >)
        ensures
            (r, final(store)@) == spec_set_admin(old(store)@, *admin, *new_admin),
            r is Err ==> final(store)@ == old(store)@,
    {
        match Self::require_admin(store, admin) {
            Err(e) => {
                return Err(e);
            },
            Ok(_) => {},
        }
        set_admin(store, new_admin);
        Ok(())
    }

    /// Judges a withdrawal of `amount` reward tokens by the administrator,
    /// `contract_balance` being what the reward token holds for the
    /// ledger. On `Ok` the caller moves the tokens to the administrator.
    pub fn withdraw(store: &Store, admin: &Address, amount: i128, contract_balance: i128) -> (r:
        Result<(), ContractError>)
        ensures
            r == spec_withdraw(store@, *admin, amount, contract_balance),
    {
        match Self::require_admin(store, admin) {
            Err(e) => {
                return Err(e);
            },
            Ok(_) => {},
        }
        if amount <= 0 {
            return Err(ContractError::InvalidAmount);
        }
        if !has_lmnr_token(store) {
            return Err(ContractError::NotInitialized);
        }
        if amount > contract_balance {
            return Err(ContractError::InsufficientRewardBalance);
        }
        Ok(())
    }

    /// Sets the stake of `user` in the pool by authority, without a proof.
    /// An amount of 0 takes the account out of the pool's counted stake.
    /// Returns `None`, and leaves the store as it is, where the arithmetic
    /// leaves the working width.
    pub fn checked_update_stake(
        store: &mut Store,
        now: u64,
        admin: &Address,
        user: &Address,
        pool_index: u32,
        new_amount: i128,
    ) -> (r: Option<Result<(), ContractError>>)
        ensures
            carried_out(
                spec_update_stake(old(store)@, now, *admin, *user, pool_index, new_amount),
                r,
                old(store)@,
                final(store)@,
            ),
    {
        match Self::require_admin(store, admin) {
            Err(e) => {
                return Some(Err(e));
            },
            Ok(_) => {},
        }
        if pool_index >= get_pool_count(store) {
            return Some(Err(ContractError::PoolNotFound));
        }
        if !has_merkle_root(store, pool_index) {
            return Some(Err(ContractError::NoMerkleRoot));
        }
        let epoch: u64 = get_merkle_root(store, pool_index).epoch_id;
        let stored = get_pool_state(store, pool_index);
        let rate: i128 = get_reward_rate(store);
        let pool = match checked_advance(&stored, rate, now) {
            Some(p) => p,
            None => {
                return None;
            },
        };
        let mut banked: i128 = 0;
        let mut counted: i128 = 0;
        if has_staker(store, user, pool_index) {
            let prior = get_staker(store, user, pool_index);
            let current: bool = prior.epoch_id == epoch;
            banked =
            match checked_pending(price(&pool, current), &prior) {
                Some(p) => p,
                None => {
                    return None;
                },
            };
            if current && prior.staked_amount > 0 {
                counted = prior.staked_amount;
            }
        }
        let removed: i128 = match pool.total_staked.checked_sub(counted) {
            Some(t) => t,
            None => {
                return None;
            },
        };
        let total: i128 = match removed.checked_add(new_amount) {
            Some(t) => t,
            None => {
                return None;
            },
        };
        let debt: i128 = match checked_reward_debt(new_amount, pool.acc_reward_per_share) {
            Some(d) => d,
            None => {
                return None;
            },
        };
        let entry = StakerInfo {
            staked_amount: new_amount,
            reward_debt: debt,
            pending_rewards: banked,
            epoch_id: epoch,
        };
        set_staker(store, user, pool_index, &entry);
        let recounted = PoolState {
            acc_reward_per_share: pool.acc_reward_per_share,
            total_staked: total,
            last_reward_time: pool.last_reward_time,
            prev_acc_reward_per_share: pool.prev_acc_reward_per_share,
        };
        set_pool_state(store, pool_index, &recounted);
        Some(Ok(()))
    }

    /// Sets the stake of `user` in the pool by authority, without a proof.
    /// A refusal leaves the store as it was.
    pub fn update_stake(
        store: &mut Store,
        now: u64,
        admin: &Address,
        user: &Address,
        pool_index: u32,
        new_amount: i128,
    ) -> (r: Result<(), ContractError>)
        requires
            spec_update_stake(old(store)@, now, *admin, *user, pool_index, new_amount) is Some,
        ensures
            spec_update_stake(old(store)@, now, *admin, *user, pool_index, new_amount) == Some(
                (r, final(store)@),
            ),
            r is Err ==> final(store)@ == old(store)@,
    {
        match Self::checked_update_stake(store, now, admin, user, pool_index, new_amount) {
            Some(r) => r,
            None => vstd::pervasive::unreached(),
        }
    }
}

/// A rotation freezes what the accounts of the old epoch have earned.
///
/// When a root is posted at `posted`, an entry of the epoch that was
/// active until then is owed, at every later query, exactly what it was
/// owed at the instant of the rotation, however much time has passed.
pub proof fn lemma_rotation_freezes_reward(
    m: StoreView,
    posted: u64,
    admin: Address,
    pool_index: u32,
    root: Bytes32,
    snapshot_ledger: u32,
    rotated: StoreView,
    user: Address,
    now: u64,
)
    requires
        spec_set_merkle_root(m, posted, admin, pool_index, root, snapshot_ledger) == Some(
            (Ok::<(), ContractError>(()), rotated),
        ),
        spec_staker(m, user, pool_index) is Some,
        spec_is_current(m, pool_index, spec_staker(m, user, pool_index).unwrap()),
    ensures
        spec_staker(rotated, user, pool_index) == spec_staker(m, user, pool_index),
        !spec_is_current(rotated, pool_index, spec_staker(m, user, pool_index).unwrap()),
        spec_pending_reward(rotated, now, user, pool_index) == spec_pending_reward(
            m,
            posted,
            user,
            pool_index,
        ),
{
    let pool = spec_rotated(spec_updated_pool(m, posted, pool_index));
    assert(spec_pool_state(rotated, pool_index) == pool);
    assert(spec_merkle_root(rotated, pool_index) is Some);
}

/// A rotation counts no stake: after a root is posted the pool's counted
/// stake is 0, its epoch is one more than before (1 for the first root),
/// and the accumulator frozen for stale entries is the live one.
pub proof fn lemma_rotation_resets_pool(
    m: StoreView,
    posted: u64,
    admin: Address,
    pool_index: u32,
    root: Bytes32,
    snapshot_ledger: u32,
    rotated: StoreView,
)
    requires
        spec_set_merkle_root(m, posted, admin, pool_index, root, snapshot_ledger) == Some(
            (Ok::<(), ContractError>(()), rotated),
        ),
    ensures
        spec_pool_state(rotated, pool_index).total_staked == 0,
        spec_pool_state(rotated, pool_index).prev_acc_reward_per_share == spec_pool_state(
            rotated,
            pool_index,
        ).acc_reward_per_share,
        spec_merkle_root(rotated, pool_index) is Some,
        spec_merkle_root(rotated, pool_index).unwrap().epoch_id == spec_next_epoch(m, pool_index),
        spec_merkle_root(rotated, pool_index).unwrap().root == root,
{
    let pool = spec_rotated(spec_updated_pool(m, posted, pool_index));
    assert(spec_pool_state(rotated, pool_index) == pool);
}


} // verus!
