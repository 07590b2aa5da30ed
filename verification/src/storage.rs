use crate::address::{bytes32_eq, Address, Bytes32};
use vstd::prelude::*;

verus! {

/// The key under which a record is kept: its kind and, where the kind has
/// many records, the pool index or the account that tells them apart.
#[derive(Clone, Copy, Debug, PartialEq, Eq)]
pub enum DataKey {
    Admin,
    LmnrToken,
    RewardRatePerSec,
    PoolCount,
    PoolId(u32),
    PoolIdIndex(Bytes32),
    PoolState(u32),
    MerkleRoot(u32),
    Staker(Address, u32),
}

/// The accounting state of one pool.
#[derive(Clone, Copy, Debug, PartialEq, Eq, Structural)]
pub struct PoolState {
    /// Reward earned per unit of stake since genesis, scaled by the precision.
    pub acc_reward_per_share: i128,
    /// Sum of the stakes admitted in the pool's current epoch.
    pub total_staked: i128,
    /// Time through which the accumulator has been advanced.
    pub last_reward_time: u64,
    /// The accumulator as it stood at the most recent epoch rotation.
    pub prev_acc_reward_per_share: i128,
}

/// The snapshot root that is active for a pool.
#[derive(Clone, Copy, Debug, PartialEq, Eq)]
pub struct MerkleRootData {
    pub root: Bytes32,
    pub epoch_id: u64,
    pub snapshot_ledger: u32,
    pub posted_at: u64,
}

/// The ledger entry of one account in one pool.
#[derive(Clone, Copy, Debug, PartialEq, Eq, Structural)]
pub struct StakerInfo {
    /// Balance counted toward the pool total, or 0 after an exit.
    pub staked_amount: i128,
    /// Accumulator-scaled value priced in when the stake was last set.
    pub reward_debt: i128,
    /// Reward already computed and owed, not yet paid.
    pub pending_rewards: i128,
    /// Epoch under which the stake and the debt are valid.
    pub epoch_id: u64,
}

/// A stored value, tagged with its kind.
#[derive(Clone, Copy, Debug, PartialEq, Eq)]
pub enum Record {
    Address(Address),
    Amount(i128),
    Count(u32),
    Hash(Bytes32),
    Pool(PoolState),
    Root(MerkleRootData),
    Staker(StakerInfo),
}

/// The contents of a store: a finite map from keys to records.
pub type StoreView = Map<DataKey, Record>;

/// The state of a pool that has never been written.
pub open spec fn spec_empty_pool() -> PoolState {
    PoolState {
        acc_reward_per_share: 0,
        total_staked: 0,
        last_reward_time: 0,
        prev_acc_reward_per_share: 0,
    }
}

/// The record kept under `k`, if there is one.
pub open spec fn spec_get(m: StoreView, k: DataKey) -> Option<Record> {
    if m.dom().contains(k) {
        Some(m[k])
    } else {
        None
    }
}

pub open spec fn spec_address_at(m: StoreView, k: DataKey) -> Option<Address> {
    match spec_get(m, k) {
        Some(Record::Address(a)) => Some(a),
        _ => None,
    }
}

pub open spec fn spec_admin(m: StoreView) -> Option<Address> {
    spec_address_at(m, DataKey::Admin)
}

pub open spec fn spec_lmnr_token(m: StoreView) -> Option<Address> {
    spec_address_at(m, DataKey::LmnrToken)
}

/// The global reward rate; 0 while none has been set.
pub open spec fn spec_reward_rate(m: StoreView) -> i128 {
    match spec_get(m, DataKey::RewardRatePerSec) {
        Some(Record::Amount(r)) => r,
        _ => 0,
    }
}

/// The number of registered pools; 0 while none has been set.
pub open spec fn spec_pool_count(m: StoreView) -> u32 {
    match spec_get(m, DataKey::PoolCount) {
        Some(Record::Count(c)) => c,
        _ => 0,
    }
}

pub open spec fn spec_pool_id(m: StoreView, index: u32) -> Option<Bytes32> {
    match spec_get(m, DataKey::PoolId(index)) {
        Some(Record::Hash(h)) => Some(h),
        _ => None,
    }
}

pub open spec fn spec_pool_id_index(m: StoreView, pool_id: Bytes32) -> Option<u32> {
    match spec_get(m, DataKey::PoolIdIndex(pool_id)) {
        Some(Record::Count(c)) => Some(c),
        _ => None,
    }
}

/// The state of a pool; that of an unwritten pool while none is stored.
pub open spec fn spec_pool_state(m: StoreView, index: u32) -> PoolState {
    match spec_get(m, DataKey::PoolState(index)) {
        Some(Record::Pool(p)) => p,
        _ => spec_empty_pool(),
    }
}

pub open spec fn spec_merkle_root(m: StoreView, pool_index: u32) -> Option<MerkleRootData> {
    match spec_get(m, DataKey::MerkleRoot(pool_index)) {
        Some(Record::Root(r)) => Some(r),
        _ => None,
    }
}

pub open spec fn spec_staker(m: StoreView, user: Address, pool_index: u32) -> Option<StakerInfo> {
    match spec_get(m, DataKey::Staker(user, pool_index)) {
        Some(Record::Staker(s)) => Some(s),
        _ => None,
    }
}

/// Whether two keys are the same key.
pub fn key_eq(a: &DataKey, b: &DataKey) -> (r: bool)
    ensures
        r == (*a == *b),
{
    match (a, b) {
        (DataKey::Admin, DataKey::Admin) => true,
        (DataKey::LmnrToken, DataKey::LmnrToken) => true,
        (DataKey::RewardRatePerSec, DataKey::RewardRatePerSec) => true,
        (DataKey::PoolCount, DataKey::PoolCount) => true,
        (DataKey::PoolId(i), DataKey::PoolId(j)) => *i == *j,
        (DataKey::PoolIdIndex(x), DataKey::PoolIdIndex(y)) => bytes32_eq(x, y),
        (DataKey::PoolState(i), DataKey::PoolState(j)) => *i == *j,
        (DataKey::MerkleRoot(i), DataKey::MerkleRoot(j)) => *i == *j,
        (DataKey::Staker(u, i), DataKey::Staker(v, j)) => *i == *j && u.same(v),
        _ => false,
    }
}

/// No key occurs twice among the entries.
pub open spec fn keys_distinct(s: Seq<(DataKey, Record)>) -> bool {
    forall|i: int, j: int|
        0 <= i < s.len() && 0 <= j < s.len() && i != j ==> (#[trigger] s[i]).0 != (#[trigger] s[j]).0
}

/// Whether `k` is the key of some entry.
pub open spec fn has_key(s: Seq<(DataKey, Record)>, k: DataKey) -> bool {
    exists|i: int| 0 <= i < s.len() && (#[trigger] s[i]).0 == k
}

/// The map that a list of entries stands for.
pub open spec fn entries_map(s: Seq<(DataKey, Record)>) -> StoreView {
    Map::new(
        |k: DataKey| has_key(s, k),
        |k: DataKey| s[choose|i: int| 0 <= i < s.len() && (#[trigger] s[i]).0 == k].1,
    )
}

/// In a list without repeated keys, each entry's key maps to that entry's record.
pub proof fn lemma_entry_value(s: Seq<(DataKey, Record)>, i: int)
    requires
        keys_distinct(s),
        0 <= i < s.len(),
    ensures
        entries_map(s).dom().contains(s[i].0),
        entries_map(s)[s[i].0] == s[i].1,
{
    let k = s[i].0;
    assert(has_key(s, k));
    let j = choose|j: int| 0 <= j < s.len() && (#[trigger] s[j]).0 == k;
    assert(j == i);
}

/// A keyed store of records: the persistent state of the staking ledger,
/// held in memory. No key is held twice.
pub struct Store {
    entries: Vec<(DataKey, Record)>,
}

impl View for Store {
    type V = StoreView;

    open spec fn view(&self) -> StoreView {
        entries_map(self.spec_entries())
    }
}

impl Store {
    #[verifier::type_invariant]
    spec fn inv(self) -> bool {
        keys_distinct(self.entries@)
    }

    /// The records held, each with its key, in the order in which
    /// [`Store::entry`] hands them out.
    pub closed spec fn spec_entries(&self) -> Seq<(DataKey, Record)> {
        self.entries@
    }

    /// A store that holds nothing.
    pub fn new() -> (s: Store)
        ensures
            s@ == Map::<DataKey, Record>::empty(),
    {
        let s = Store { entries: Vec::new() };
        assert(s@ =~= Map::<DataKey, Record>::empty());
        s
    }

    /// The position of the entry with key `key`, if there is one.
    fn find(&self, key: &DataKey) -> (r: Option<usize>)
        ensures
            match r {
                Some(i) => i < self.entries@.len() && self.entries@[i as int].0 == *key,
                None => !has_key(self.entries@, *key),
            },
    {
        let n: usize = self.entries.len();
        let mut i: usize = 0;
        while i < n
            invariant
                n == self.entries@.len(),
                i <= n,
                forall|j: int| 0 <= j < i ==> (#[trigger] self.entries@[j]).0 != *key,
            decreases n - i,
        {
            if key_eq(&self.entries[i].0, key) {
                return Some(i);
            }
            i += 1;
        }
        None
    }

    /// Whether a record is kept under `key`.
    pub fn has(&self, key: &DataKey) -> (r: bool)
        ensures
            r == self@.dom().contains(*key),
    {
        self.find(key).is_some()
    }

    /// The record kept under `key`, if there is one.
    pub fn get(&self, key: &DataKey) -> (r: Option<Record>)
        ensures
            r == spec_get(self@, *key),
    {
        proof {
            use_type_invariant(self);
        }
        match self.find(key) {
            Some(i) => {
                proof {
                    lemma_entry_value(self.entries@, i as int);
                }
                Some(self.entries[i].1)
            },
            None => None,
        }
    }

    /// Keeps `record` under `key`, in place of any record kept there before.
    pub fn set(&mut self, key: DataKey, record: Record)
        ensures
            final(self)@ == old(self)@.insert(key, record),
    {
        proof {
            use_type_invariant(&*self);
        }
        let ghost before = self.entries@;
        match self.find(&key) {
            Some(i) => {
                let mut taken: Vec<(DataKey, Record)> = Vec::new();
                core::mem::swap(&mut self.entries, &mut taken);
                taken[i] = (key, record);
                self.entries = taken;
                proof {
                    let after = self.entries@;
                    assert(keys_distinct(after)) by {
                        assert forall|a: int, b: int|
                            0 <= a < after.len() && 0 <= b < after.len() && a != b implies (
                        #[trigger] after[a]).0 != (#[trigger] after[b]).0 by {
                            assert(after[a].0 == before[a].0);
                            assert(after[b].0 == before[b].0);
                        }
                    }
                    assert forall|k: DataKey| has_key(after, k) == (has_key(before, k) || k == key) by {
                        if has_key(after, k) {
                            let a = choose|a: int| 0 <= a < after.len() && (#[trigger] after[a]).0 == k;
                            assert(before[a].0 == k);
                        }
                        if has_key(before, k) {
                            let a = choose|a: int|
                                0 <= a < before.len() && (#[trigger] before[a]).0 == k;
                            assert(after[a].0 == k);
                        }
                        if k == key {
                            assert(after[i as int].0 == k);
                        }
                    }
                    assert forall|k: DataKey| has_key(after, k) implies entries_map(after)[k]
                        == entries_map(before).insert(key, record)[k] by {
                        let a = choose|a: int| 0 <= a < after.len() && (#[trigger] after[a]).0 == k;
                        lemma_entry_value(after, a);
                        if k != key {
                            assert(a != i);
                            lemma_entry_value(before, a);
                        }
                    }
                    assert(entries_map(after) =~= entries_map(before).insert(key, record));
                }
            },
            None => {
                let mut taken: Vec<(DataKey, Record)> = Vec::new();
                core::mem::swap(&mut self.entries, &mut taken);
                taken.push((key, record));
                self.entries = taken;
                proof {
                    let after = self.entries@;
                    let last = before.len() as int;
                    assert(keys_distinct(after)) by {
                        assert forall|a: int, b: int|
                            0 <= a < after.len() && 0 <= b < after.len() && a != b implies (
                        #[trigger] after[a]).0 != (#[trigger] after[b]).0 by {
                            if a < last {
                                assert(after[a] == before[a]);
                            }
                            if b < last {
                                assert(after[b] == before[b]);
                            }
                        }
                    }
                    assert forall|k: DataKey| has_key(after, k) == (has_key(before, k) || k == key) by {
                        if has_key(after, k) {
                            let a = choose|a: int| 0 <= a < after.len() && (#[trigger] after[a]).0 == k;
                            if a < last {
                                assert(before[a].0 == k);
                            }
                        }
                        if has_key(before, k) {
                            let a = choose|a: int|
                                0 <= a < before.len() && (#[trigger] before[a]).0 == k;
                            assert(after[a].0 == k);
                        }
                        if k == key {
                            assert(after[last].0 == k);
                        }
                    }
                    assert forall|k: DataKey| has_key(after, k) implies entries_map(after)[k]
                        == entries_map(before).insert(key, record)[k] by {
                        let a = choose|a: int| 0 <= a < after.len() && (#[trigger] after[a]).0 == k;
                        lemma_entry_value(after, a);
                        if k != key {
                            assert(a != last);
                            assert(after[a] == before[a]);
                            lemma_entry_value(before, a);
                        }
                    }
                    assert(entries_map(after) =~= entries_map(before).insert(key, record));
                }
            },
        }
    }

    /// Drops the record kept under `key`, if there is one.
    pub fn remove(&mut self, key: &DataKey)
        ensures
            final(self)@ == old(self)@.remove(*key),
    {
        proof {
            use_type_invariant(&*self);
        }
        let ghost before = self.entries@;
        match self.find(key) {
            Some(i) => {
                let mut taken: Vec<(DataKey, Record)> = Vec::new();
                core::mem::swap(&mut self.entries, &mut taken);
                taken.remove(i);
                self.entries = taken;
                proof {
                    let after = self.entries@;
                    let at = i as int;
                    assert forall|a: int| 0 <= a < after.len() implies #[trigger] after[a] == before[if a
                        < at {
                        a
                    } else {
                        a + 1
                    }] by {}
                    assert(keys_distinct(after)) by {
                        assert forall|a: int, b: int|
                            0 <= a < after.len() && 0 <= b < after.len() && a != b implies (
                        #[trigger] after[a]).0 != (#[trigger] after[b]).0 by {
                            let a0 = if a < at { a } else { a + 1 };
                            let b0 = if b < at { b } else { b + 1 };
                            assert(after[a] == before[a0]);
                            assert(after[b] == before[b0]);
                        }
                    }
                    assert forall|k: DataKey| has_key(after, k) == (has_key(before, k) && k != *key) by {
                        if has_key(after, k) {
                            let a = choose|a: int| 0 <= a < after.len() && (#[trigger] after[a]).0 == k;
                            let a0 = if a < at { a } else { a + 1 };
                            assert(after[a] == before[a0]);
                            assert(before[a0].0 == k);
                            assert(a0 != at);
                        }
                        if has_key(before, k) && k != *key {
                            let a0 = choose|a: int|
                                0 <= a < before.len() && (#[trigger] before[a]).0 == k;
                            let a = if a0 < at { a0 } else { a0 - 1 };
                            assert(after[a] == before[a0]);
                            assert(after[a].0 == k);
                        }
                    }
                    assert forall|k: DataKey| has_key(after, k) implies entries_map(after)[k]
                        == entries_map(before).remove(*key)[k] by {
                        let a = choose|a: int| 0 <= a < after.len() && (#[trigger] after[a]).0 == k;
                        let a0 = if a < at { a } else { a + 1 };
                        assert(after[a] == before[a0]);
                        lemma_entry_value(after, a);
                        lemma_entry_value(before, a0);
                    }
                    assert(entries_map(after) =~= entries_map(before).remove(*key));
                }
            },
            None => {
                assert(self@ =~= old(self)@.remove(*key));
            },
        }
    }

    /// The number of records held.
    pub fn len(&self) -> (n: usize)
        ensures
            n == self.spec_entries().len(),
            n == self@.dom().len(),
            keys_distinct(self.spec_entries()),
    {
        proof {
            use_type_invariant(self);
            lemma_entries_count(self.entries@);
        }
        self.entries.len()
    }

    /// The `i`-th record held and its key. No two positions hold the same
    /// key. Positions change when records are set or removed.
    pub fn entry(&self, i: usize) -> (e: (DataKey, Record))
        requires
            i < self.spec_entries().len(),
        ensures
            e == self.spec_entries()[i as int],
            keys_distinct(self.spec_entries()),
            self@.dom().contains(e.0),
            self@[e.0] == e.1,
    {
        proof {
            use_type_invariant(self);
            lemma_entry_value(self.entries@, i as int);
        }
        self.entries[i]
    }

    /// All records held, each with its key.
    pub fn entries(&self) -> (all: Vec<(DataKey, Record)>)
        ensures
            all@ == self.spec_entries(),
            keys_distinct(all@),
            self@ == entries_map(all@),
    {
        proof {
            use_type_invariant(self);
        }
        let n: usize = self.entries.len();
        let mut all: Vec<(DataKey, Record)> = Vec::new();
        let mut i: usize = 0;
        while i < n
            invariant
                n == self.entries@.len(),
                i <= n,
                all@ == self.entries@.subrange(0, i as int),
            decreases n - i,
        {
            all.push(self.entries[i]);
            assert(all@ =~= self.entries@.subrange(0, i + 1));
            i += 1;
        }
        assert(self.entries@.subrange(0, n as int) =~= self.entries@);
        all
    }
}

/// A list without repeated keys stands for a map with as many keys as the
/// list has entries.
pub proof fn lemma_entries_count(s: Seq<(DataKey, Record)>)
    requires
        keys_distinct(s),
    ensures
        entries_map(s).dom().finite(),
        entries_map(s).dom().len() == s.len(),
    decreases s.len(),
{
    if s.len() == 0 {
        assert(entries_map(s).dom() =~= Set::<DataKey>::empty());
    } else {
        let init = s.drop_last();
        let last = s.last();
        assert forall|i: int, j: int|
            0 <= i < init.len() && 0 <= j < init.len() && i != j implies (#[trigger] init[i]).0 != (
        #[trigger] init[j]).0 by {
            assert(init[i] == s[i]);
            assert(init[j] == s[j]);
        }
        lemma_entries_count(init);
        assert(!has_key(init, last.0)) by {
            if has_key(init, last.0) {
                let a = choose|a: int| 0 <= a < init.len() && (#[trigger] init[a]).0 == last.0;
                assert(init[a] == s[a]);
                assert(s[s.len() - 1] == last);
            }
        }
        assert forall|k: DataKey| has_key(s, k) == (has_key(init, k) || k == last.0) by {
            if has_key(s, k) {
                let a = choose|a: int| 0 <= a < s.len() && (#[trigger] s[a]).0 == k;
                if a < init.len() {
                    assert(init[a] == s[a]);
                }
            }
            if has_key(init, k) {
                let a = choose|a: int| 0 <= a < init.len() && (#[trigger] init[a]).0 == k;
                assert(init[a] == s[a]);
            }
            if k == last.0 {
                assert(s[s.len() - 1].0 == k);
            }
        }
        assert(entries_map(s).dom() =~= entries_map(init).dom().insert(last.0));
    }
}

/// Whether an administrator has been recorded.
pub fn has_admin(store: &Store) -> (r: bool)
    ensures
        r == (spec_admin(store@) is Some),
{
    match store.get(&DataKey::Admin) {
        Some(Record::Address(_)) => true,
        _ => false,
    }
}

/// The recorded administrator.
pub fn get_admin(store: &Store) -> (a: Address)
    requires
        spec_admin(store@) is Some,
    ensures
        Some(a) == spec_admin(store@),
{
    match store.get(&DataKey::Admin) {
        Some(Record::Address(a)) => a,
        _ => vstd::pervasive::unreached(),
    }
}

/// Records `admin` as the administrator.
pub fn set_admin(store: &mut Store, admin: &Address)
    ensures
        final(store)@ == old(store)@.insert(DataKey::Admin, Record::Address(*admin)),
{
    store.set(DataKey::Admin, Record::Address(*admin));
}

/// Whether a reward token has been recorded.
pub fn has_lmnr_token(store: &Store) -> (r: bool)
    ensures
        r == (spec_lmnr_token(store@) is Some),
{
    match store.get(&DataKey::LmnrToken) {
        Some(Record::Address(_)) => true,
        _ => false,
    }
}

/// The recorded reward token.
pub fn get_lmnr_token(store: &Store) -> (a: Address)
    requires
        spec_lmnr_token(store@) is Some,
    ensures
        Some(a) == spec_lmnr_token(store@),
{
    match store.get(&DataKey::LmnrToken) {
        Some(Record::Address(a)) => a,
        _ => vstd::pervasive::unreached(),
    }
}

/// Records `token` as the reward token.
pub fn set_lmnr_token(store: &mut Store, token: &Address)
    ensures
        final(store)@ == old(store)@.insert(DataKey::LmnrToken, Record::Address(*token)),
{
    store.set(DataKey::LmnrToken, Record::Address(*token));
}

/// The global reward rate per second; 0 while none has been set.
pub fn get_reward_rate(store: &Store) -> (rate: i128)
    ensures
        rate == spec_reward_rate(store@),
{
    match store.get(&DataKey::RewardRatePerSec) {
        Some(Record::Amount(r)) => r,
        _ => 0,
    }
}

/// Records `rate` as the global reward rate per second.
pub fn set_reward_rate(store: &mut Store, rate: i128)
    ensures
        final(store)@ == old(store)@.insert(DataKey::RewardRatePerSec, Record::Amount(rate)),
{
    store.set(DataKey::RewardRatePerSec, Record::Amount(rate));
}

/// The number of registered pools; 0 while none has been set.
pub fn get_pool_count(store: &Store) -> (count: u32)
    ensures
        count == spec_pool_count(store@),
{
    match store.get(&DataKey::PoolCount) {
        Some(Record::Count(c)) => c,
        _ => 0,
    }
}

/// Records `count` as the number of registered pools.
pub fn set_pool_count(store: &mut Store, count: u32)
    ensures
        final(store)@ == old(store)@.insert(DataKey::PoolCount, Record::Count(count)),
{
    store.set(DataKey::PoolCount, Record::Count(count));
}

/// The identifier of the pool registered under `index`.
pub fn get_pool_id(store: &Store, index: u32) -> (id: Bytes32)
    requires
        spec_pool_id(store@, index) is Some,
    ensures
        Some(id) == spec_pool_id(store@, index),
{
    match store.get(&DataKey::PoolId(index)) {
        Some(Record::Hash(h)) => h,
        _ => vstd::pervasive::unreached(),
    }
}

/// Records `pool_id` as the identifier of the pool under `index`.
pub fn set_pool_id(store: &mut Store, index: u32, pool_id: &Bytes32)
    ensures
        final(store)@ == old(store)@.insert(DataKey::PoolId(index), Record::Hash(*pool_id)),
{
    store.set(DataKey::PoolId(index), Record::Hash(*pool_id));
}

/// Whether a pool with identifier `pool_id` has been registered.
pub fn has_pool_id_index(store: &Store, pool_id: &Bytes32) -> (r: bool)
    ensures
        r == (spec_pool_id_index(store@, *pool_id) is Some),
{
    match store.get(&DataKey::PoolIdIndex(*pool_id)) {
        Some(Record::Count(_)) => true,
        _ => false,
    }
}

/// The index under which the pool with identifier `pool_id` is registered.
pub fn get_pool_id_index(store: &Store, pool_id: &Bytes32) -> (index: u32)
    requires
        spec_pool_id_index(store@, *pool_id) is Some,
    ensures
        Some(index) == spec_pool_id_index(store@, *pool_id),
{
    match store.get(&DataKey::PoolIdIndex(*pool_id)) {
        Some(Record::Count(c)) => c,
        _ => vstd::pervasive::unreached(),
    }
}

/// Records `index` as the index of the pool with identifier `pool_id`.
pub fn set_pool_id_index(store: &mut Store, pool_id: &Bytes32, index: u32)
    ensures
        final(store)@ == old(store)@.insert(DataKey::PoolIdIndex(*pool_id), Record::Count(index)),
{
    store.set(DataKey::PoolIdIndex(*pool_id), Record::Count(index));
}

/// The state of the pool under `index`; all zeros while none is stored.
pub fn get_pool_state(store: &Store, index: u32) -> (state: PoolState)
    ensures
        state == spec_pool_state(store@, index),
{
    match store.get(&DataKey::PoolState(index)) {
        Some(Record::Pool(p)) => p,
        _ => PoolState {
            acc_reward_per_share: 0,
            total_staked: 0,
            last_reward_time: 0,
            prev_acc_reward_per_share: 0,
        },
    }
}

/// Records `state` as the state of the pool under `index`.
pub fn set_pool_state(store: &mut Store, index: u32, state: &PoolState)
    ensures
        final(store)@ == old(store)@.insert(DataKey::PoolState(index), Record::Pool(*state)),
{
    store.set(DataKey::PoolState(index), Record::Pool(*state));
}

/// Whether a snapshot root is active for the pool.
pub fn has_merkle_root(store: &Store, pool_index: u32) -> (r: bool)
    ensures
        r == (spec_merkle_root(store@, pool_index) is Some),
{
    match store.get(&DataKey::MerkleRoot(pool_index)) {
        Some(Record::Root(_)) => true,
        _ => false,
    }
}

/// The snapshot root that is active for the pool.
pub fn get_merkle_root(store: &Store, pool_index: u32) -> (data: MerkleRootData)
    requires
        spec_merkle_root(store@, pool_index) is Some,
    ensures
        Some(data) == spec_merkle_root(store@, pool_index),
{
    match store.get(&DataKey::MerkleRoot(pool_index)) {
        Some(Record::Root(r)) => r,
        _ => vstd::pervasive::unreached(),
    }
}

/// Makes `data` the active snapshot root of the pool.
pub fn set_merkle_root(store: &mut Store, pool_index: u32, data: &MerkleRootData)
    ensures
        final(store)@ == old(store)@.insert(DataKey::MerkleRoot(pool_index), Record::Root(*data)),
{
    store.set(DataKey::MerkleRoot(pool_index), Record::Root(*data));
}

/// Whether the account has a ledger entry in the pool.
pub fn has_staker(store: &Store, user: &Address, pool_index: u32) -> (r: bool)
    ensures
        r == (spec_staker(store@, *user, pool_index) is Some),
{
    match store.get(&DataKey::Staker(*user, pool_index)) {
        Some(Record::Staker(_)) => true,
        _ => false,
    }
}

/// The ledger entry of the account in the pool.
pub fn get_staker(store: &Store, user: &Address, pool_index: u32) -> (info: StakerInfo)
    requires
        spec_staker(store@, *user, pool_index) is Some,
    ensures
        Some(info) == spec_staker(store@, *user, pool_index),
{
    match store.get(&DataKey::Staker(*user, pool_index)) {
        Some(Record::Staker(s)) => s,
        _ => vstd::pervasive::unreached(),
    }
}

/// Records `info` as the ledger entry of the account in the pool.
pub fn set_staker(store: &mut Store, user: &Address, pool_index: u32, info: &StakerInfo)
    ensures
        final(store)@ == old(store)@.insert(
            DataKey::Staker(*user, pool_index),
            Record::Staker(*info),
        ),
{
    store.set(DataKey::Staker(*user, pool_index), Record::Staker(*info));
}

/// Deletes the ledger entry of the account in the pool.
pub fn remove_staker(store: &mut Store, user: &Address, pool_index: u32)
    ensures
        final(store)@ == old(store)@.remove(DataKey::Staker(*user, pool_index)),
{
    store.remove(&DataKey::Staker(*user, pool_index));
}


} // verus!
