use crate::storage::{
    get_pool_state, get_reward_rate, set_pool_state, spec_pool_state, spec_reward_rate, DataKey,
    PoolState, Record, StakerInfo, Store, StoreView,
};
use vstd::arithmetic::div_mod::{
    lemma_div_is_ordered, lemma_fundamental_div_mod, lemma_mod_pos_bound,
};
use vstd::prelude::*;

verus! {

/// Fixed-point scale of the reward accumulator: ten to the eighteenth.
pub const PRECISION: i128 = 1_000_000_000_000_000_000;

/// Whether an integer can be held in the working width of the ledger.
pub open spec fn fits_i128(x: int) -> bool {
    i128::MIN <= x <= i128::MAX
}

/// Division that rounds toward zero, for a positive divisor.
pub open spec fn trunc_div(a: int, b: int) -> int
    recommends
        b > 0,
{
    if a >= 0 {
        a / b
    } else {
        -((-a) / b)
    }
}

/// The accumulator-scaled value of `amount` at accumulator `acc`.
pub open spec fn spec_reward_debt(amount: int, acc: int) -> int {
    trunc_div(amount * acc, PRECISION as int)
}

/// Whether the reward debt of `amount` at `acc` can be computed in the
/// working width.
pub open spec fn reward_debt_fits(amount: int, acc: int) -> bool {
    fits_i128(amount * acc)
}

/// A reward debt whose product fits the working width fits it too.
pub proof fn lemma_reward_debt_in_range(amount: int, acc: int)
    requires
        reward_debt_fits(amount, acc),
    ensures
        fits_i128(spec_reward_debt(amount, acc)),
{
    let x = amount * acc;
    let p = PRECISION as int;
    if x >= 0 {
        lemma_fundamental_div_mod(x, p);
        lemma_mod_pos_bound(x, p);
        lemma_div_is_ordered(0, x, p);
        assert(x / p <= x) by (nonlinear_arith)
            requires
                x == p * (x / p) + (x % p),
                0 <= x % p,
                0 <= x / p,
                p >= 1,
        ;
    } else {
        let y = -x;
        lemma_fundamental_div_mod(y, p);
        lemma_mod_pos_bound(y, p);
        lemma_div_is_ordered(0, y, p);
        assert(y / p <= y) by (nonlinear_arith)
            requires
                y == p * (y / p) + (y % p),
                0 <= y % p,
                0 <= y / p,
                p >= 1,
        ;
    }
}

/// The reward debt of `staked_amount` at `acc_reward_per_share`, or `None`
/// where the product leaves the working width.
pub fn checked_reward_debt(staked_amount: i128, acc_reward_per_share: i128) -> (r: Option<i128>)
    ensures
        r is Some == reward_debt_fits(staked_amount as int, acc_reward_per_share as int),
        r is Some ==> r.unwrap() == spec_reward_debt(
            staked_amount as int,
            acc_reward_per_share as int,
        ),
{
    match staked_amount.checked_mul(acc_reward_per_share) {
        Some(product) => Some(product / PRECISION),
        None => None,
    }
}

/// The reward debt of a stake: `staked_amount × acc_reward_per_share /
/// PRECISION`, rounded toward zero.
pub fn compute_reward_debt(staked_amount: i128, acc_reward_per_share: i128) -> (r: i128)
    requires
        reward_debt_fits(staked_amount as int, acc_reward_per_share as int),
    ensures
        r == spec_reward_debt(staked_amount as int, acc_reward_per_share as int),
{
    (staked_amount * acc_reward_per_share) / PRECISION
}

/// The reward owed to an entry when its stake is priced at accumulator
/// `acc`: what was banked, plus what the stake earned since its debt was
/// set. An entry without stake is owed exactly what was banked.
pub open spec fn spec_pending(acc: int, staker: StakerInfo) -> int {
    if staker.staked_amount == 0 {
        staker.pending_rewards as int
    } else {
        staker.pending_rewards + (spec_reward_debt(staker.staked_amount as int, acc)
            - staker.reward_debt)
    }
}

/// Whether the reward owed to an entry at `acc` can be computed in the
/// working width, step by step.
pub open spec fn pending_fits(acc: int, staker: StakerInfo) -> bool {
    staker.staked_amount != 0 ==> {
        &&& reward_debt_fits(staker.staked_amount as int, acc)
        &&& fits_i128(spec_reward_debt(staker.staked_amount as int, acc) - staker.reward_debt)
        &&& fits_i128(spec_pending(acc, staker))
    }
}

/// The reward owed to an entry at accumulator `acc`, or `None` where a
/// step of the computation leaves the working width.
pub fn checked_pending(acc: i128, staker: &StakerInfo) -> (r: Option<i128>)
    ensures
        r is Some == pending_fits(acc as int, *staker),
        r is Some ==> r.unwrap() == spec_pending(acc as int, *staker),
{
    if staker.staked_amount == 0 {
        return Some(staker.pending_rewards);
    }
    match checked_reward_debt(staker.staked_amount, acc) {
        Some(accumulated) => match accumulated.checked_sub(staker.reward_debt) {
            Some(earned) => staker.pending_rewards.checked_add(earned),
            None => None,
        },
        None => None,
    }
}

/// The reward owed to an entry of the pool's current epoch, priced at the
/// pool's live accumulator. The accumulator is taken as it stands.
pub fn calculate_pending(pool_state: &PoolState, staker: &StakerInfo) -> (r: i128)
    requires
        pending_fits(pool_state.acc_reward_per_share as int, *staker),
    ensures
        r == spec_pending(pool_state.acc_reward_per_share as int, *staker),
{
    match checked_pending(pool_state.acc_reward_per_share, staker) {
        Some(p) => p,
        None => vstd::pervasive::unreached(),
    }
}

/// The reward owed to an entry of an earlier epoch, priced at the
/// accumulator as it stood at the most recent rotation.
pub fn calculate_pending_stale(pool_state: &PoolState, staker: &StakerInfo) -> (r: i128)
    requires
        pending_fits(pool_state.prev_acc_reward_per_share as int, *staker),
    ensures
        r == spec_pending(pool_state.prev_acc_reward_per_share as int, *staker),
{
    match checked_pending(pool_state.prev_acc_reward_per_share, staker) {
        Some(p) => p,
        None => vstd::pervasive::unreached(),
    }
}

/// Whether the accumulator moves when the pool is advanced to `now`: time
/// has passed, stake is counted, and the rate is positive.
pub open spec fn accrues(state: PoolState, rate: i128, now: u64) -> bool {
    now > state.last_reward_time && state.total_staked > 0 && rate > 0
}

/// The reward minted between the pool's last advance and `now`.
pub open spec fn spec_minted(state: PoolState, rate: i128, now: u64) -> int {
    (now - state.last_reward_time) * rate
}

/// The accumulator of the pool once advanced to `now` at `rate`.
pub open spec fn spec_accrued(state: PoolState, rate: i128, now: u64) -> int {
    if accrues(state, rate, now) {
        state.acc_reward_per_share + (spec_minted(state, rate, now) * PRECISION)
            / (state.total_staked as int)
    } else {
        state.acc_reward_per_share as int
    }
}

/// Whether the pool can be advanced to `now` within the working width.
pub open spec fn accrual_fits(state: PoolState, rate: i128, now: u64) -> bool {
    accrues(state, rate, now) ==> {
        &&& fits_i128(spec_minted(state, rate, now))
        &&& fits_i128(spec_minted(state, rate, now) * PRECISION)
        &&& fits_i128(spec_accrued(state, rate, now))
    }
}

/// The pool advanced to `now` at `rate`: the accumulator has accrued, and
/// the pool's clock stands at `now` whether or not the accumulator moved.
pub open spec fn spec_advance(state: PoolState, rate: i128, now: u64) -> PoolState {
    PoolState {
        acc_reward_per_share: spec_accrued(state, rate, now) as i128,
        total_staked: state.total_staked,
        last_reward_time: now,
        prev_acc_reward_per_share: state.prev_acc_reward_per_share,
    }
}

/// The accumulator never falls: advancing a pool leaves it where it was or
/// raises it.
pub proof fn lemma_accumulator_never_falls(state: PoolState, rate: i128, now: u64)
    ensures
        spec_accrued(state, rate, now) >= state.acc_reward_per_share,
{
    if accrues(state, rate, now) {
        let minted = spec_minted(state, rate, now);
        assert(minted * PRECISION >= 0) by (nonlinear_arith)
            requires
                minted == (now - state.last_reward_time) * rate,
                now - state.last_reward_time > 0,
                rate > 0,
        ;
        lemma_div_is_ordered(0, minted * PRECISION, state.total_staked as int);
    }
}

/// The accumulator of `state` advanced to `now` at `rate`, or `None` where
/// a step of the computation leaves the working width.
pub fn checked_accrue(state: &PoolState, rate: i128, now: u64) -> (r: Option<i128>)
    ensures
        r is Some == accrual_fits(*state, rate, now),
        r is Some ==> r.unwrap() == spec_accrued(*state, rate, now),
        r is Some ==> r.unwrap() >= state.acc_reward_per_share,
{
    proof {
        lemma_accumulator_never_falls(*state, rate, now);
    }
    if now > state.last_reward_time && state.total_staked > 0 && rate > 0 {
        let elapsed: i128 = (now - state.last_reward_time) as i128;
        match elapsed.checked_mul(rate) {
            Some(minted) => match minted.checked_mul(PRECISION) {
                Some(scaled) => {
                    let increment: i128 = scaled / state.total_staked;
                    state.acc_reward_per_share.checked_add(increment)
                },
                None => None,
            },
            None => None,
        }
    } else {
        Some(state.acc_reward_per_share)
    }
}

/// The pool `state` advanced to `now` at `rate`, or `None` where the
/// accrual leaves the working width.
pub fn checked_advance(state: &PoolState, rate: i128, now: u64) -> (r: Option<PoolState>)
    ensures
        r is Some == accrual_fits(*state, rate, now),
        r is Some ==> r.unwrap() == spec_advance(*state, rate, now),
{
    match checked_accrue(state, rate, now) {
        Some(acc) => Some(
            PoolState {
                acc_reward_per_share: acc,
                total_staked: state.total_staked,
                last_reward_time: now,
                prev_acc_reward_per_share: state.prev_acc_reward_per_share,
            },
        ),
        None => None,
    }
}

/// Whether the stored pool under `pool_index` can be advanced to `now` at
/// the stored rate within the working width.
pub open spec fn update_pool_fits(m: StoreView, now: u64, pool_index: u32) -> bool {
    accrual_fits(spec_pool_state(m, pool_index), spec_reward_rate(m), now)
}

/// The stored pool under `pool_index`, advanced to `now` at the stored rate.
pub open spec fn spec_updated_pool(m: StoreView, now: u64, pool_index: u32) -> PoolState {
    spec_advance(spec_pool_state(m, pool_index), spec_reward_rate(m), now)
}

/// The store after the pool under `pool_index` has been advanced to `now`.
pub open spec fn spec_update_pool(m: StoreView, now: u64, pool_index: u32) -> StoreView {
    m.insert(DataKey::PoolState(pool_index), Record::Pool(spec_updated_pool(m, now, pool_index)))
}

/// Advances the stored pool to `now` and stores it, or leaves the store as
/// it is and returns `None` where the accrual leaves the working width.
pub fn checked_update_pool(store: &mut Store, now: u64, pool_index: u32) -> (r: Option<PoolState>)
    ensures
        r is Some == update_pool_fits(old(store)@, now, pool_index),
        r is Some ==> r.unwrap() == spec_updated_pool(old(store)@, now, pool_index)
            && final(store)@ == spec_update_pool(old(store)@, now, pool_index),
        r is None ==> final(store)@ == old(store)@,
{
    let state = get_pool_state(store, pool_index);
    let rate: i128 = get_reward_rate(store);
    match checked_advance(&state, rate, now) {
        Some(advanced) => {
            set_pool_state(store, pool_index, &advanced);
            Some(advanced)
        },
        None => None,
    }
}

/// Advances the stored pool's accumulator to `now` at the stored rate,
/// stores the pool and returns it. The pool's clock is set to `now` whether
/// or not the accumulator moved.
pub fn update_pool(store: &mut Store, now: u64, pool_index: u32) -> (state: PoolState)
    requires
        update_pool_fits(old(store)@, now, pool_index),
    ensures
        state == spec_updated_pool(old(store)@, now, pool_index),
        final(store)@ == spec_update_pool(old(store)@, now, pool_index),
{
    match checked_update_pool(store, now, pool_index) {
        Some(state) => state,
        None => vstd::pervasive::unreached(),
    }
}

/// The accumulator that the stored pool would have at `now`, or `None`
/// where the accrual leaves the working width. Nothing is stored.
pub fn checked_simulate_acc_reward(store: &Store, now: u64, pool_index: u32) -> (r: Option<i128>)
    ensures
        r is Some == update_pool_fits(store@, now, pool_index),
        r is Some ==> r.unwrap() == spec_accrued(
            spec_pool_state(store@, pool_index),
            spec_reward_rate(store@),
            now,
        ),
{
    let state = get_pool_state(store, pool_index);
    let rate: i128 = get_reward_rate(store);
    checked_accrue(&state, rate, now)
}

/// The accumulator that the stored pool would have at `now`. Nothing is
/// stored.
pub fn simulate_acc_reward(store: &Store, now: u64, pool_index: u32) -> (acc: i128)
    requires
        update_pool_fits(store@, now, pool_index),
    ensures
        acc == spec_accrued(spec_pool_state(store@, pool_index), spec_reward_rate(store@), now),
{
    match checked_simulate_acc_reward(store, now, pool_index) {
        Some(acc) => acc,
        None => vstd::pervasive::unreached(),
    }
}


/// The sum of the stakes of a family of entries.
pub open spec fn total_stake(entries: Seq<StakerInfo>) -> int
    decreases entries.len(),
{
    if entries.len() == 0 {
        0
    } else {
        total_stake(entries.drop_last()) + entries.last().staked_amount
    }
}

/// The sum of what is owed to a family of entries, each priced at `acc`.
pub open spec fn total_pending(acc: int, entries: Seq<StakerInfo>) -> int
    decreases entries.len(),
{
    if entries.len() == 0 {
        0
    } else {
        total_pending(acc, entries.drop_last()) + spec_pending(acc, entries.last())
    }
}

/// Between two non-negative dividends, the quotients by `p` differ by the
/// difference of the dividends over `p`, up to less than one unit.
proof fn lemma_quotient_gap(a: int, b: int, p: int)
    requires
        0 <= a <= b,
        p > 0,
    ensures
        a / p <= b / p,
        p * (b / p - a / p) <= (b - a) + (p - 1),
        p * (b / p - a / p) >= (b - a) - (p - 1),
{
    lemma_fundamental_div_mod(a, p);
    lemma_fundamental_div_mod(b, p);
    lemma_mod_pos_bound(a, p);
    lemma_mod_pos_bound(b, p);
    lemma_div_is_ordered(a, b, p);
    assert(p * (b / p - a / p) == p * (b / p) - p * (a / p)) by (nonlinear_arith);
}

/// What one entry gains when the accumulator rises by `delta`: never a
/// loss, and its stake's share of the rise up to less than one unit.
pub proof fn lemma_entry_gain(entry: StakerInfo, acc: int, delta: int)
    requires
        entry.staked_amount >= 0,
        acc >= 0,
        delta >= 0,
    ensures
        spec_pending(acc + delta, entry) >= spec_pending(acc, entry),
        PRECISION * (spec_pending(acc + delta, entry) - spec_pending(acc, entry))
            <= entry.staked_amount * delta + (PRECISION - 1),
        PRECISION * (spec_pending(acc + delta, entry) - spec_pending(acc, entry))
            >= entry.staked_amount * delta - (PRECISION - 1),
{
    let s = entry.staked_amount as int;
    if s == 0 {
        assert(s * delta == 0) by (nonlinear_arith)
            requires
                s == 0,
        ;
    } else {
        let a = s * acc;
        let b = s * (acc + delta);
        assert(b == a + s * delta) by (nonlinear_arith)
            requires
                a == s * acc,
                b == s * (acc + delta),
        ;
        assert(0 <= a) by (nonlinear_arith)
            requires
                a == s * acc,
                s >= 0,
                acc >= 0,
        ;
        assert(0 <= s * delta) by (nonlinear_arith)
            requires
                s >= 0,
                delta >= 0,
        ;
        lemma_quotient_gap(a, b, PRECISION as int);
    }
}

/// What a family of entries gains when the accumulator rises by `delta`:
/// the rise times their stakes, over the precision, up to less than one
/// unit for each entry.
pub proof fn lemma_total_gain(entries: Seq<StakerInfo>, acc: int, delta: int)
    requires
        forall|i: int| 0 <= i < entries.len() ==> (#[trigger] entries[i]).staked_amount >= 0,
        acc >= 0,
        delta >= 0,
    ensures
        total_pending(acc + delta, entries) >= total_pending(acc, entries),
        PRECISION * (total_pending(acc + delta, entries) - total_pending(acc, entries))
            <= total_stake(entries) * delta + entries.len() * (PRECISION - 1),
        PRECISION * (total_pending(acc + delta, entries) - total_pending(acc, entries))
            >= total_stake(entries) * delta - entries.len() * (PRECISION - 1),
    decreases entries.len(),
{
    if entries.len() > 0 {
        let init = entries.drop_last();
        let last = entries.last();
        assert forall|i: int| 0 <= i < init.len() implies (#[trigger] init[i]).staked_amount >= 0 by {
            assert(init[i] == entries[i]);
        }
        lemma_total_gain(init, acc, delta);
        lemma_entry_gain(last, acc, delta);
        let g0 = total_pending(acc + delta, init) - total_pending(acc, init);
        let g1 = spec_pending(acc + delta, last) - spec_pending(acc, last);
        let t0 = total_stake(init);
        let s = last.staked_amount as int;
        let n0 = init.len() as int;
        let p = PRECISION as int;
        assert(p * (g0 + g1) == p * g0 + p * g1) by (nonlinear_arith);
        assert((t0 + s) * delta == t0 * delta + s * delta) by (nonlinear_arith);
        assert((n0 + 1) * (p - 1) == n0 * (p - 1) + (p - 1)) by (nonlinear_arith);
    }
}

/// Advancing a pool mints reward for its stakers and for nobody else.
///
/// For a family of entries of the pool's current epoch whose non-negative
/// stakes add up to the pool's counted stake: what they are owed together
/// never falls when the pool is advanced, and when the accumulator moves it
/// grows by what was minted, `elapsed × rate`, up to the rounding loss of
/// one unit for each entry and of the division by the counted stake.
pub proof fn lemma_accrual_conserves(state: PoolState, rate: i128, now: u64, entries: Seq<StakerInfo>)
    requires
        state.acc_reward_per_share >= 0,
        forall|i: int| 0 <= i < entries.len() ==> (#[trigger] entries[i]).staked_amount >= 0,
        total_stake(entries) == state.total_staked,
    ensures
        total_pending(spec_accrued(state, rate, now), entries) >= total_pending(
            state.acc_reward_per_share as int,
            entries,
        ),
        accrues(state, rate, now) ==> {
            let gain = total_pending(spec_accrued(state, rate, now), entries) - total_pending(
                state.acc_reward_per_share as int,
                entries,
            );
            &&& gain < spec_minted(state, rate, now) + entries.len()
            &&& PRECISION * (gain + entries.len()) + state.total_staked > PRECISION * spec_minted(
                state,
                rate,
                now,
            )
        },
{
    if accrues(state, rate, now) {
        let acc = state.acc_reward_per_share as int;
        let minted = spec_minted(state, rate, now);
        let total = state.total_staked as int;
        let p = PRECISION as int;
        let n = entries.len() as int;
        assert(minted > 0) by (nonlinear_arith)
            requires
                minted == (now - state.last_reward_time) * rate,
                now - state.last_reward_time > 0,
                rate > 0,
        ;
        let scaled = minted * p;
        assert(scaled >= 0) by (nonlinear_arith)
            requires
                scaled == minted * p,
                minted > 0,
                p > 0,
        ;
        let delta = scaled / total;
        lemma_fundamental_div_mod(scaled, total);
        lemma_mod_pos_bound(scaled, total);
        lemma_div_is_ordered(0, scaled, total);
        assert(delta >= 0);
        assert(spec_accrued(state, rate, now) == acc + delta);
        lemma_total_gain(entries, acc, delta);
        let gain = total_pending(acc + delta, entries) - total_pending(acc, entries);
        assert(n >= 1) by {
            if n == 0 {
                assert(total_stake(entries) == 0);
            }
        }
        assert(total * delta <= scaled);
        assert(total * delta > scaled - total);
        assert(p * gain < p * (minted + n)) by (nonlinear_arith)
            requires
                p * gain <= total * delta + n * (p - 1),
                total * delta <= scaled,
                scaled == minted * p,
                n >= 1,
                p > 0,
        ;
        assert(gain < minted + n) by (nonlinear_arith)
            requires
                p * gain < p * (minted + n),
                p > 0,
        ;
        assert(p * (gain + n) + total > p * minted) by (nonlinear_arith)
            requires
                p * gain >= total * delta - n * (p - 1),
                total * delta > scaled - total,
                scaled == minted * p,
                n >= 1,
                p > 0,
        ;
    }
}

/// Stakes earn in proportion.
///
/// For two entries with stakes `b1` and `b2`, what they gain while the
/// accumulator rises from `acc` to `later` is in the ratio `b1 : b2` up to
/// rounding: the cross products of gains and stakes differ by less than
/// `b1 + b2`.
pub proof fn lemma_rewards_proportional(
    first: StakerInfo,
    second: StakerInfo,
    acc: int,
    later: int,
)
    requires
        first.staked_amount > 0,
        second.staked_amount > 0,
        0 <= acc <= later,
    ensures
        ({
            let g1 = spec_pending(later, first) - spec_pending(acc, first);
            let g2 = spec_pending(later, second) - spec_pending(acc, second);
            let b1 = first.staked_amount as int;
            let b2 = second.staked_amount as int;
            &&& g1 * b2 - g2 * b1 < b1 + b2
            &&& g2 * b1 - g1 * b2 < b1 + b2
        }),
{
    let delta = later - acc;
    lemma_entry_gain(first, acc, delta);
    lemma_entry_gain(second, acc, delta);
    let g1 = spec_pending(later, first) - spec_pending(acc, first);
    let g2 = spec_pending(later, second) - spec_pending(acc, second);
    let b1 = first.staked_amount as int;
    let b2 = second.staked_amount as int;
    let p = PRECISION as int;
    let x1 = p * g1;
    let x2 = p * g2;
    let c1 = b1 * delta;
    let c2 = b2 * delta;
    assert(b2 * c1 == b1 * c2) by (nonlinear_arith)
        requires
            c1 == b1 * delta,
            c2 == b2 * delta,
    ;
    assert(b2 * x1 <= b2 * (c1 + (p - 1))) by (nonlinear_arith)
        requires
            x1 <= c1 + (p - 1),
            b2 > 0,
    ;
    assert(b2 * x1 >= b2 * (c1 - (p - 1))) by (nonlinear_arith)
        requires
            x1 >= c1 - (p - 1),
            b2 > 0,
    ;
    assert(b1 * x2 <= b1 * (c2 + (p - 1))) by (nonlinear_arith)
        requires
            x2 <= c2 + (p - 1),
            b1 > 0,
    ;
    assert(b1 * x2 >= b1 * (c2 - (p - 1))) by (nonlinear_arith)
        requires
            x2 >= c2 - (p - 1),
            b1 > 0,
    ;
    assert(b2 * (c1 + (p - 1)) == b2 * c1 + b2 * (p - 1)) by (nonlinear_arith);
    assert(b2 * (c1 - (p - 1)) == b2 * c1 - b2 * (p - 1)) by (nonlinear_arith);
    assert(b1 * (c2 + (p - 1)) == b1 * c2 + b1 * (p - 1)) by (nonlinear_arith);
    assert(b1 * (c2 - (p - 1)) == b1 * c2 - b1 * (p - 1)) by (nonlinear_arith);
    assert(b2 * (p - 1) + b1 * (p - 1) < p * (b1 + b2)) by (nonlinear_arith)
        requires
            b1 > 0,
            b2 > 0,
            p > 0,
    ;
    assert(b2 * x1 == p * (g1 * b2)) by (nonlinear_arith)
        requires
            x1 == p * g1,
    ;
    assert(b1 * x2 == p * (g2 * b1)) by (nonlinear_arith)
        requires
            x2 == p * g2,
    ;
    assert(p * (g1 * b2 - g2 * b1) == p * (g1 * b2) - p * (g2 * b1)) by (nonlinear_arith);
    assert(p * (g2 * b1 - g1 * b2) == p * (g2 * b1) - p * (g1 * b2)) by (nonlinear_arith);
    assert(g1 * b2 - g2 * b1 < b1 + b2) by (nonlinear_arith)
        requires
            p * (g1 * b2 - g2 * b1) < p * (b1 + b2),
            p > 0,
    ;
    assert(g2 * b1 - g1 * b2 < b1 + b2) by (nonlinear_arith)
        requires
            p * (g2 * b1 - g1 * b2) < p * (b1 + b2),
            p > 0,
    ;
}

/// A stale entry earns nothing as time passes: advancing the pool leaves
/// the accumulator frozen at the last rotation, and with it what a stale
/// entry is owed, whatever the time and the rate.
pub proof fn lemma_stale_reward_frozen(state: PoolState, rate: i128, now: u64, staker: StakerInfo)
    ensures
        spec_advance(state, rate, now).prev_acc_reward_per_share
            == state.prev_acc_reward_per_share,
        spec_pending(spec_advance(state, rate, now).prev_acc_reward_per_share as int, staker)
            == spec_pending(state.prev_acc_reward_per_share as int, staker),
{
}


} // verus!
