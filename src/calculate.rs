//! The reward calculator: a pure function of the pool's and the staker's timing
//! and amount parameters.

use vstd::prelude::*;
use vstd::arithmetic::div_mod::{
    lemma_div_denominator, lemma_div_is_ordered, lemma_div_is_ordered_by_denominator,
    lemma_div_multiples_vanish, lemma_fundamental_div_mod, lemma_hoist_over_denominator,
    lemma_mod_pos_bound,
};
use vstd::arithmetic::mul::lemma_mul_inequality;

verus! {

/// Denominator of `apy_max`: 10000 stands for a yield of 100.00%.
pub const APY_SCALE: u64 = 10000;

/// Time that counts towards a reward: the time since the stake began, capped
/// by the length of the funding window. Both differences are zero where they
/// would be negative.
pub open spec fn elapsed_of(window_start: u64, window_end: u64, stake_start_time: u64, now: u64) -> int {
    let since_stake: int = if now >= stake_start_time { now - stake_start_time } else { 0 };
    let frame: int = if window_end >= window_start { window_end - window_start } else { 0 };
    if since_stake <= frame { since_stake } else { frame }
}

/// The most a stake of `staked` may earn: a yield of exactly `apy_max`
/// (in hundredths of a percent) on `staked`, rounded down. The yield is
/// measured over the elapsed period itself and is not annualized: a reward of
/// 100_000 on a stake of 1_000_000 is a yield of 10.00%, which `apy_max = 1000`
/// admits whatever the length of the window.
pub open spec fn reward_cap(apy_max: int, staked: int) -> int {
    (staked * apy_max) / (APY_SCALE as int)
}

/// The pro-rata reward before the cap: the share `staked / pool_staked` of
/// `pool_reward`, for `elapsed` seconds of a window of `frame` seconds,
/// computed exactly and rounded down once.
pub open spec fn base_reward(pool_staked: int, pool_reward: int, frame: int, staked: int, elapsed: int) -> int {
    (pool_reward * staked * elapsed) / (pool_staked * frame)
}

/// The reward for `elapsed` seconds of stake within a window of `frame` seconds:
/// zero where nothing is staked, where nothing or nobody is in the pool, or where
/// the time is shorter than the minimum stake period; else the pro-rata reward,
/// clamped to the cap.
pub open spec fn reward_for_elapsed(
    apy_max: int,
    pool_staked: int,
    pool_reward: int,
    frame: int,
    staked: int,
    elapsed: int,
    min_stake_period: int,
) -> int {
    if staked == 0 || pool_staked == 0 || elapsed == 0 || frame == 0 || elapsed < min_stake_period {
        0
    } else {
        let base = base_reward(pool_staked, pool_reward, frame, staked, elapsed);
        let cap = reward_cap(apy_max, staked);
        if base <= cap { base } else { cap }
    }
}

/// The reward that `calculate_reward` returns: zero for a stake that began at
/// or after the window's end, else the reward for the elapsed time.
pub open spec fn reward_of(
    apy_max: u64,
    pool_staked: u64,
    pool_reward: u64,
    window_start: u64,
    window_end: u64,
    staked: u64,
    stake_start_time: u64,
    min_stake_period: u64,
    now: u64,
) -> int {
    if staked == 0 || stake_start_time >= window_end || window_end < window_start {
        0
    } else {
        reward_for_elapsed(
            apy_max as int,
            pool_staked as int,
            pool_reward as int,
            window_end - window_start,
            staked as int,
            elapsed_of(window_start, window_end, stake_start_time, now),
            min_stake_period as int,
        )
    }
}

/// Dividing `x * e` by `frame * pool_staked` in steps that stay within
/// `x`: first by `frame`, through the quotient and remainder of `x`, then by
/// `pool_staked`.
proof fn lemma_split_division(x: int, e: int, frame: int, pool_staked: int)
    requires
        0 <= x,
        0 <= e <= frame,
        0 < frame,
        0 < pool_staked,
    ensures
        0 <= (x / frame) * e <= x,
        0 <= (x % frame) * e < frame * frame,
        0 <= (x / frame) * e + ((x % frame) * e) / frame <= x,
        ((x / frame) * e + ((x % frame) * e) / frame) / pool_staked == (x * e) / (pool_staked * frame),
{
    let q = x / frame;
    let r = x % frame;
    lemma_fundamental_div_mod(x, frame);
    lemma_mod_pos_bound(x, frame);
    lemma_div_is_ordered(0, x, frame);
    assert(0 <= q * e <= q * frame) by (nonlinear_arith) requires 0 <= q, 0 <= e <= frame;
    assert(q * frame == frame * q) by (nonlinear_arith);
    assert(0 <= r * e <= r * frame) by (nonlinear_arith) requires 0 <= r, 0 <= e <= frame;
    assert(r * frame < frame * frame) by (nonlinear_arith) requires 0 <= r < frame;
    lemma_div_is_ordered(r * e, r * frame, frame);
    lemma_div_is_ordered(0, r * e, frame);
    lemma_div_multiples_vanish(r, frame);
    assert(frame * r == r * frame) by (nonlinear_arith);
    lemma_hoist_over_denominator(r * e, q * e, frame as nat);
    assert(x * e == r * e + (q * e) * frame) by (nonlinear_arith)
        requires x == frame * q + r;
    lemma_div_denominator(x * e, frame, pool_staked);
    assert(frame * pool_staked == pool_staked * frame) by (nonlinear_arith);
    assert(0 <= x * e) by (nonlinear_arith) requires 0 <= x, 0 <= e;
}

proof fn lemma_cap_within_stake(apy_max: int, staked: int)
    requires
        0 <= apy_max <= APY_SCALE,
        0 <= staked,
    ensures
        0 <= reward_cap(apy_max, staked) <= staked,
{
    lemma_mul_inequality(apy_max, APY_SCALE as int, staked);
    lemma_mul_inequality(0, apy_max, staked);
    assert(staked * apy_max <= staked * APY_SCALE) by (nonlinear_arith)
        requires apy_max * staked <= APY_SCALE * staked;
    assert(0 <= staked * apy_max) by (nonlinear_arith)
        requires 0 <= apy_max, 0 <= staked;
    lemma_div_is_ordered(staked * apy_max, staked * APY_SCALE, APY_SCALE as int);
    lemma_div_is_ordered(0, staked * apy_max, APY_SCALE as int);
    lemma_div_multiples_vanish(staked, APY_SCALE as int);
    assert((APY_SCALE as int) * staked == staked * APY_SCALE) by (nonlinear_arith);
}

/// The reward accrued by a stake of `staked` out of `pool_staked`, of a window
/// `[time_frame_start, time_frame_end)` that distributes `pool_reward`, at time
/// `now` for a stake that began at `stake_start_time`. Zero for a stake shorter
/// than `min_stake_period`; never more than a yield of `apy_max` on `staked`.
pub fn calculate_reward(
    apy_max: u64,
    pool_staked: u64,
    pool_reward: u64,
    time_frame_start: u64,
    time_frame_end: u64,
    staked: u64,
    stake_start_time: u64,
    min_stake_period: u64,
    now_ts: u64,
) -> (r: u64)
    requires
        apy_max <= APY_SCALE,
    ensures
        r == reward_of(
            apy_max,
            pool_staked,
            pool_reward,
            time_frame_start,
            time_frame_end,
            staked,
            stake_start_time,
            min_stake_period,
            now_ts,
        ),
{
    if staked == 0 || stake_start_time >= time_frame_end || time_frame_end < time_frame_start {
        return 0;
    }
    let frame_seconds: u64 = time_frame_end - time_frame_start;
    let mut staked_in_seconds: u64 = if now_ts >= stake_start_time {
        now_ts - stake_start_time
    } else {
        0
    };
    if staked_in_seconds > frame_seconds {
        staked_in_seconds = frame_seconds;
    }
    if pool_staked == 0 || staked_in_seconds == 0 || frame_seconds == 0
        || staked_in_seconds < min_stake_period {
        return 0;
    }
    proof {
        lemma_cap_within_stake(apy_max as int, staked as int);
        assert((pool_reward as int) * (staked as int) <= u64::MAX * u64::MAX) by (nonlinear_arith)
            requires pool_reward <= u64::MAX, staked <= u64::MAX, 0 <= pool_reward, 0 <= staked;
        assert((staked as int) * (apy_max as int) <= u64::MAX * u64::MAX) by (nonlinear_arith)
            requires apy_max <= u64::MAX, staked <= u64::MAX, 0 <= apy_max, 0 <= staked;
        assert((frame_seconds as int) * (frame_seconds as int) <= u64::MAX * u64::MAX) by (nonlinear_arith)
            requires frame_seconds <= u64::MAX, 0 <= frame_seconds;
    }
    // The exact share, pool_reward * staked * elapsed / (pool_staked * frame),
    // whose numerator may not fit in 128 bits: divide by the frame through the
    // quotient and remainder of pool_reward * staked, then by pool_staked.
    let numerator: u128 = (pool_reward as u128) * (staked as u128);
    let quotient: u128 = numerator / (frame_seconds as u128);
    let remainder: u128 = numerator % (frame_seconds as u128);
    proof {
        lemma_split_division(numerator as int, staked_in_seconds as int, frame_seconds as int, pool_staked as int);
    }
    let released: u128 = quotient * (staked_in_seconds as u128)
        + remainder * (staked_in_seconds as u128) / (frame_seconds as u128);
    let base: u128 = released / (pool_staked as u128);
    proof {
        assert((numerator as int) * (staked_in_seconds as int)
            == (pool_reward as int) * (staked as int) * (staked_in_seconds as int));
    }
    let cap: u128 = (staked as u128) * (apy_max as u128) / (APY_SCALE as u128);
    if base <= cap {
        base as u64
    } else {
        cap as u64
    }
}

proof fn lemma_base_monotone(
    pool_staked: int,
    pool_reward: int,
    frame: int,
    staked1: int,
    staked2: int,
    elapsed1: int,
    elapsed2: int,
)
    requires
        0 < pool_staked,
        0 <= pool_reward,
        0 < frame,
        0 <= staked1 <= staked2,
        0 <= elapsed1 <= elapsed2,
    ensures
        0 <= base_reward(pool_staked, pool_reward, frame, staked1, elapsed1)
            <= base_reward(pool_staked, pool_reward, frame, staked2, elapsed2),
{
    let n1 = pool_reward * staked1 * elapsed1;
    let n2 = pool_reward * staked2 * elapsed2;
    assert(0 <= n1 <= n2) by (nonlinear_arith)
        requires 0 <= pool_reward, 0 <= staked1 <= staked2, 0 <= elapsed1 <= elapsed2,
            n1 == pool_reward * staked1 * elapsed1, n2 == pool_reward * staked2 * elapsed2;
    assert(0 < pool_staked * frame) by (nonlinear_arith) requires 0 < pool_staked, 0 < frame;
    lemma_div_is_ordered(n1, n2, pool_staked * frame);
    lemma_div_is_ordered(0, n1, pool_staked * frame);
}

proof fn lemma_cap_monotone(apy_max: int, staked1: int, staked2: int)
    requires
        0 <= apy_max,
        0 <= staked1 <= staked2,
    ensures
        reward_cap(apy_max, staked1) <= reward_cap(apy_max, staked2),
{
    assert(staked1 * apy_max <= staked2 * apy_max) by (nonlinear_arith)
        requires 0 <= apy_max, 0 <= staked1 <= staked2;
    lemma_div_is_ordered(staked1 * apy_max, staked2 * apy_max, APY_SCALE as int);
}

/// A reward only grows with time: for a later `now`, all else equal,
/// `calculate_reward` returns at least as much.
pub proof fn lemma_reward_monotone_in_time(
    apy_max: u64,
    pool_staked: u64,
    pool_reward: u64,
    window_start: u64,
    window_end: u64,
    staked: u64,
    stake_start_time: u64,
    min_stake_period: u64,
    now1: u64,
    now2: u64,
)
    requires
        now1 <= now2,
    ensures
        reward_of(apy_max, pool_staked, pool_reward, window_start, window_end, staked, stake_start_time, min_stake_period, now1)
            <= reward_of(apy_max, pool_staked, pool_reward, window_start, window_end, staked, stake_start_time, min_stake_period, now2),
{
    let e1 = elapsed_of(window_start, window_end, stake_start_time, now1);
    let e2 = elapsed_of(window_start, window_end, stake_start_time, now2);
    assert(0 <= e1 <= e2);
    if !(staked == 0 || stake_start_time >= window_end || window_end < window_start) {
        let frame: int = window_end - window_start;
        if !(pool_staked == 0 || e1 == 0 || frame == 0 || e1 < min_stake_period) {
            lemma_base_monotone(pool_staked as int, pool_reward as int, frame, staked as int, staked as int, e1, e2);
        }
        if pool_staked > 0 && frame > 0 {
            lemma_base_monotone(pool_staked as int, pool_reward as int, frame, 0, staked as int, 0, e2);
        }
        lemma_cap_monotone(apy_max as int, 0, staked as int);
    }
}

/// A reward only grows with the stake: for a larger `staked`, all else equal
/// (the same `pool_staked`), `calculate_reward` returns at least as much.
pub proof fn lemma_reward_monotone_in_stake(
    apy_max: u64,
    pool_staked: u64,
    pool_reward: u64,
    window_start: u64,
    window_end: u64,
    staked1: u64,
    staked2: u64,
    stake_start_time: u64,
    min_stake_period: u64,
    now: u64,
)
    requires
        staked1 <= staked2,
    ensures
        reward_of(apy_max, pool_staked, pool_reward, window_start, window_end, staked1, stake_start_time, min_stake_period, now)
            <= reward_of(apy_max, pool_staked, pool_reward, window_start, window_end, staked2, stake_start_time, min_stake_period, now),
{
    let e = elapsed_of(window_start, window_end, stake_start_time, now);
    let frame: int = window_end - window_start;
    if !(staked1 == 0 || stake_start_time >= window_end || window_end < window_start
        || pool_staked == 0 || e == 0 || frame == 0 || e < min_stake_period) {
        lemma_base_monotone(pool_staked as int, pool_reward as int, frame, staked1 as int, staked2 as int, e, e);
        lemma_cap_monotone(apy_max as int, staked1 as int, staked2 as int);
    }
    if !(staked2 == 0 || stake_start_time >= window_end || window_end < window_start
        || pool_staked == 0 || e == 0 || frame == 0 || e < min_stake_period) {
        lemma_base_monotone(pool_staked as int, pool_reward as int, frame, 0, staked2 as int, 0, e);
        lemma_cap_monotone(apy_max as int, 0, staked2 as int);
    }
}

/// A reward only grows as the pool shrinks: for a smaller nonzero
/// `pool_staked`, all else equal, the staker's share and so `calculate_reward`
/// is at least as large.
pub proof fn lemma_reward_monotone_in_share(
    apy_max: u64,
    pool_staked1: u64,
    pool_staked2: u64,
    pool_reward: u64,
    window_start: u64,
    window_end: u64,
    staked: u64,
    stake_start_time: u64,
    min_stake_period: u64,
    now: u64,
)
    requires
        0 < pool_staked2 <= pool_staked1,
    ensures
        reward_of(apy_max, pool_staked1, pool_reward, window_start, window_end, staked, stake_start_time, min_stake_period, now)
            <= reward_of(apy_max, pool_staked2, pool_reward, window_start, window_end, staked, stake_start_time, min_stake_period, now),
{
    let e = elapsed_of(window_start, window_end, stake_start_time, now);
    let frame: int = window_end - window_start;
    if !(staked == 0 || stake_start_time >= window_end || window_end < window_start
        || e == 0 || frame == 0 || e < min_stake_period) {
        let n = pool_reward * staked * e;
        assert(0 <= n) by (nonlinear_arith)
            requires 0 <= pool_reward, 0 <= staked, 0 <= e, n == pool_reward * staked * e;
        assert(1 <= pool_staked2 * frame <= pool_staked1 * frame) by (nonlinear_arith)
            requires 0 < pool_staked2 <= pool_staked1, 0 < frame;
        lemma_div_is_ordered_by_denominator(n, pool_staked2 * frame, pool_staked1 * frame);
    }
}

/// The cap holds: the yield of any reward, `reward / staked` in hundredths of
/// a percent, never exceeds `apy_max`.
pub proof fn lemma_reward_within_cap(
    apy_max: u64,
    pool_staked: u64,
    pool_reward: u64,
    window_start: u64,
    window_end: u64,
    staked: u64,
    stake_start_time: u64,
    min_stake_period: u64,
    now: u64,
)
    ensures
        0 <= reward_of(apy_max, pool_staked, pool_reward, window_start, window_end, staked, stake_start_time, min_stake_period, now),
        reward_of(apy_max, pool_staked, pool_reward, window_start, window_end, staked, stake_start_time, min_stake_period, now)
            * (APY_SCALE as int) <= (staked as int) * (apy_max as int),
{
    let r = reward_of(apy_max, pool_staked, pool_reward, window_start, window_end, staked, stake_start_time, min_stake_period, now);
    let prod: int = (staked as int) * (apy_max as int);
    assert(0 <= prod) by (nonlinear_arith) requires 0 <= staked, 0 <= apy_max, prod == staked * apy_max;
    lemma_fundamental_div_mod(prod, APY_SCALE as int);
    let cap = reward_cap(apy_max as int, staked as int);
    assert(cap * (APY_SCALE as int) <= prod);
    let e = elapsed_of(window_start, window_end, stake_start_time, now);
    let frame: int = window_end - window_start;
    if !(staked == 0 || stake_start_time >= window_end || window_end < window_start
        || pool_staked == 0 || e == 0 || frame == 0 || e < min_stake_period) {
        lemma_base_monotone(pool_staked as int, pool_reward as int, frame, staked as int, staked as int, e, e);
        assert(0 <= r <= cap);
        assert(r * (APY_SCALE as int) <= cap * (APY_SCALE as int)) by (nonlinear_arith)
            requires r <= cap;
    }
}

/// A reward accrues only with positive elapsed time: where no time has passed
/// since the stake began, or the window has no length, the reward is zero.
pub proof fn lemma_reward_needs_elapsed_time(
    apy_max: u64,
    pool_staked: u64,
    pool_reward: u64,
    window_start: u64,
    window_end: u64,
    staked: u64,
    stake_start_time: u64,
    min_stake_period: u64,
    now: u64,
)
    requires
        now <= stake_start_time || window_end <= window_start,
    ensures
        reward_of(apy_max, pool_staked, pool_reward, window_start, window_end, staked, stake_start_time, min_stake_period, now) == 0,
{
}

} // verus!
