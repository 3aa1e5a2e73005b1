//! The operations on a pool: each is an all-or-nothing transition of the pool
//! ledger (and of the caller's account) that either fails with a typed error
//! and changes nothing, or commits and returns the transfers that the asset
//! transfer mechanism must then perform.

use vstd::prelude::*;
use crate::account::{linked, valid_policy, StakingData, StakingState, MAX_APY, MIN_APY};
use crate::checksum::{checksum_ieee, crc32_ieee};
use crate::address::Address;
use crate::calculate::{base_reward, calculate_reward, reward_of};
use vstd::arithmetic::div_mod::lemma_fundamental_div_mod;
use crate::error::StakingErrors;
use crate::history::{recorded, HistoryAction, StakerHistoryEntry};
use crate::registry::{
    contains_staker, keys_distinct, lemma_entry_within_sum, lemma_position_unique,
    lemma_sum_gained_bound, lemma_sum_gained_push, lemma_sum_staked_pointwise, lemma_sum_staked_push,
    lemma_sum_staked_remove, lemma_sum_staked_update, sum_gained, sum_staked, position_of, StakerState, MAX_STAKERS,
};

verus! {

/// An external token account that a transfer moves value between.
#[derive(Clone, Copy, Debug, PartialEq, Eq, Structural)]
pub enum Vault {
    /// The participant's own account; the participant signs transfers out of it.
    StakerWallet,
    /// The pool's escrow of principal; the pool's authority signs transfers out of it.
    Escrow,
    /// The pool's reward account; the pool's authority signs transfers out of it.
    Rewarder,
    /// The funder's own account; the funder signs transfers out of it.
    FunderWallet,
}

/// A transfer of `amount` of the pool's asset, for the transfer mechanism to perform.
#[derive(Clone, Copy, Debug, PartialEq, Eq, Structural)]
pub struct Transfer {
    pub from: Vault,
    pub to: Vault,
    pub amount: u64,
}

/// The pool's identities and policy agree.
pub open spec fn same_config(a: StakingData, b: StakingData) -> bool {
    &&& a.initializer == b.initializer
    &&& a.funder_authority == b.funder_authority
    &&& a.mint_address == b.mint_address
    &&& a.escrow_account == b.escrow_account
    &&& a.rewarder_account == b.rewarder_account
    &&& a.min_timeframe_in_second == b.min_timeframe_in_second
    &&& a.apy_max == b.apy_max
    &&& a.min_stake_period == b.min_stake_period
}

/// The pools' funding windows and funding counters agree.
pub open spec fn same_window(a: StakingData, b: StakingData) -> bool {
    &&& a.timeframe_in_second == b.timeframe_in_second
    &&& a.timeframe_started == b.timeframe_started
    &&& a.pool_reward == b.pool_reward
    &&& a.total_funded == b.total_funded
}

/// The accounts' identities and links agree.
pub open spec fn same_identity(a: StakingState, b: StakingState) -> bool {
    &&& a.staking_account == b.staking_account
    &&& a.my_crc == b.my_crc
    &&& a.mint_address == b.mint_address
    &&& a.owner_address == b.owner_address
}

/// The account check of every staker's operation: the account belongs to the
/// pool `pool_key`, and the caller owns it.
pub open spec fn account_error(pool_key: Address, state: StakingState, signer: Address) -> Option<StakingErrors> {
    if state.staking_account.bytes@ != pool_key.bytes@ {
        Some(StakingErrors::InvalidStakingAccount)
    } else if state.owner_address.bytes@ != signer.bytes@ {
        Some(StakingErrors::Unauthorized)
    } else {
        None
    }
}

/// Why `staking` refuses, if it does.
pub open spec fn staking_error(
    pool: StakingData,
    pool_key: Address,
    state: StakingState,
    signer: Address,
    staker_balance: u64,
    amount: u64,
) -> Option<StakingErrors> {
    if account_error(pool_key, state, signer) is Some {
        account_error(pool_key, state, signer)
    } else if amount == 0 {
        Some(StakingErrors::AmountMustBePositive)
    } else if amount > staker_balance {
        Some(StakingErrors::InsufficientBalance)
    } else if !contains_staker(pool.stakers@, state.my_crc) && pool.stakers@.len() >= MAX_STAKERS {
        Some(StakingErrors::RegistryFull)
    } else if pool.total_staked + amount > u64::MAX {
        Some(StakingErrors::InvariantViolation)
    } else {
        None
    }
}

/// The registry after `amount` more is staked under `crc` at `now`: the
/// entry's principal grows and its accrual clock restarts, or a new entry
/// is appended.
pub open spec fn staked_registry(s: Seq<StakerState>, crc: u32, amount: u64, now: u64) -> Seq<StakerState> {
    if contains_staker(s, crc) {
        let i = position_of(s, crc);
        s.update(i, StakerState {
            staked_time: now,
            staked_amount: (s[i].staked_amount + amount) as u64,
            ..s[i]
        })
    } else {
        s.push(StakerState { staker_crc: crc, staked_time: now, staked_amount: amount, gained_reward: 0 })
    }
}

/// Stakes `amount` from the owner's wallet, which holds `staker_balance`, at
/// time `now`: the pool's principal grows by `amount`, the staker's entry is
/// created or topped up with its accrual clock restarted, and the account
/// records the event.
pub fn staking(
    pool: &mut StakingData,
    pool_key: Address,
    state: &mut StakingState,
    signer: Address,
    staker_balance: u64,
    amount: u64,
    now: u64,
) -> (r: Result<Vec<Transfer>, StakingErrors>)
    requires
        old(pool).wf(),
        old(state).wf(),
    ensures
        final(pool).wf(),
        final(state).wf(),
        match r {
            Err(e) => {
                &&& staking_error(*old(pool), pool_key, *old(state), signer, staker_balance, amount) == Some(e)
                &&& *final(pool) == *old(pool)
                &&& *final(state) == *old(state)
            },
            Ok(transfers) => {
                &&& staking_error(*old(pool), pool_key, *old(state), signer, staker_balance, amount) is None
                &&& transfers@ == seq![Transfer { from: Vault::StakerWallet, to: Vault::Escrow, amount }]
                &&& same_config(*final(pool), *old(pool))
                &&& same_window(*final(pool), *old(pool))
                &&& final(pool).total_reward_paid == old(pool).total_reward_paid
                &&& final(pool).total_staked == old(pool).total_staked + amount
                &&& final(pool).stakers@ == staked_registry(old(pool).stakers@, old(state).my_crc, amount, now)
                &&& same_identity(*final(state), *old(state))
                &&& linked(*final(pool), *final(state))
                &&& linked(*old(pool), *old(state)) ==> final(state).total_staked == old(state).total_staked + amount
                &&& final(state).total_rewarded == old(state).total_rewarded
                &&& final(state).last_staked == now
                &&& final(state).last_rewarded == old(state).last_rewarded
                &&& final(state).history@ == recorded(
                    old(state).history@,
                    StakerHistoryEntry { time: now, action: HistoryAction::Stake, amount },
                )
            },
        },
{
    if !(state.staking_account == pool_key) {
        return Err(StakingErrors::InvalidStakingAccount);
    }
    if !(state.owner_address == signer) {
        return Err(StakingErrors::Unauthorized);
    }
    if amount == 0 {
        return Err(StakingErrors::AmountMustBePositive);
    }
    if amount > staker_balance {
        return Err(StakingErrors::InsufficientBalance);
    }
    let crc = state.my_crc;
    let index = pool.index_of_staker(crc);
    if index < 0 && pool.stakers.len() >= MAX_STAKERS {
        return Err(StakingErrors::RegistryFull);
    }
    let total = match pool.total_staked.checked_add(amount) {
        Some(t) => t,
        None => return Err(StakingErrors::InvariantViolation),
    };
    let ghost s0 = pool.stakers@;
    let new_amount: u64;
    if index < 0 {
        let entry = StakerState { staker_crc: crc, staked_time: now, staked_amount: amount, gained_reward: 0 };
        pool.stakers.push(entry);
        new_amount = amount;
        proof {
            lemma_sum_staked_push(s0, entry);
            let s1 = pool.stakers@;
            assert(s1 == s0.push(entry));
            assert(s1[s1.len() - 1] == entry);
            lemma_position_unique(s1, crc, s1.len() - 1);
        }
    } else {
        let i = index as usize;
        let old_entry = pool.stakers[i];
        proof {
            lemma_entry_within_sum(s0, i as int);
        }
        new_amount = old_entry.staked_amount + amount;
        let entry = StakerState { staked_time: now, staked_amount: new_amount, ..old_entry };
        pool.stakers.set(i, entry);
        proof {
            lemma_sum_staked_update(s0, i as int, entry);
            let s1 = pool.stakers@;
            assert(keys_distinct(s1));
            lemma_position_unique(s1, crc, i as int);
        }
    }
    pool.total_staked = total;
    state.total_staked = new_amount;
    state.last_staked = now;
    state.add_history(now, HistoryAction::Stake, amount);
    let mut transfers: Vec<Transfer> = Vec::new();
    transfers.push(Transfer { from: Vault::StakerWallet, to: Vault::Escrow, amount });
    proof {
        assert(transfers@ =~= seq![Transfer { from: Vault::StakerWallet, to: Vault::Escrow, amount }]);
    }
    Ok(transfers)
}

/// The entry of the account's key in the pool's registry.
pub open spec fn entry_of(pool: StakingData, state: StakingState) -> StakerState {
    pool.stakers@[position_of(pool.stakers@, state.my_crc)]
}

/// The reward that unstaking `amount` at `now` accrues: the calculator's
/// result for that portion, over the pool's current window and the entry's
/// accrual clock.
pub open spec fn unstake_reward(pool: StakingData, entry: StakerState, amount: u64, now: u64) -> int {
    reward_of(
        pool.apy_max as u64,
        pool.total_staked,
        pool.pool_reward,
        pool.timeframe_started,
        (pool.timeframe_started + pool.timeframe_in_second) as u64,
        amount,
        entry.staked_time,
        pool.min_stake_period,
        now,
    )
}

/// What a full exit pays in reward: all the reward gained so far and the
/// reward just accrued.
pub open spec fn exit_payout(pool: StakingData, entry: StakerState, amount: u64, now: u64) -> int {
    entry.gained_reward + unstake_reward(pool, entry, amount, now)
}

/// Why `unstaking` refuses, if it does.
pub open spec fn unstaking_error(
    pool: StakingData,
    pool_key: Address,
    state: StakingState,
    signer: Address,
    amount: u64,
    now: u64,
) -> Option<StakingErrors> {
    let entry = entry_of(pool, state);
    let reward = unstake_reward(pool, entry, amount, now);
    if account_error(pool_key, state, signer) is Some {
        account_error(pool_key, state, signer)
    } else if amount == 0 {
        Some(StakingErrors::AmountMustBePositive)
    } else if !contains_staker(pool.stakers@, state.my_crc) {
        Some(StakingErrors::StakerNotFound)
    } else if amount > entry.staked_amount {
        Some(StakingErrors::InsufficientStakedBalance)
    } else if amount > pool.total_staked {
        Some(StakingErrors::InsufficientEscrowBalance)
    } else if entry.gained_reward + reward > u64::MAX {
        Some(StakingErrors::InvariantViolation)
    } else if amount == entry.staked_amount && (
        pool.total_reward_paid + exit_payout(pool, entry, amount, now) > u64::MAX
        || state.total_rewarded + exit_payout(pool, entry, amount, now) > u64::MAX) {
        Some(StakingErrors::InvariantViolation)
    } else {
        None
    }
}

/// Withdraws `amount` of the owner's principal at time `now`. The reward for
/// the withdrawn portion accrues. On a full exit the entry leaves the registry
/// and all its reward is paid with the principal; otherwise the reward is
/// credited to the entry and its principal shrinks.
pub fn unstaking(
    pool: &mut StakingData,
    pool_key: Address,
    state: &mut StakingState,
    signer: Address,
    amount: u64,
    now: u64,
) -> (r: Result<Vec<Transfer>, StakingErrors>)
    requires
        old(pool).wf(),
        old(state).wf(),
    ensures
        final(pool).wf(),
        final(state).wf(),
        match r {
            Err(e) => {
                &&& unstaking_error(*old(pool), pool_key, *old(state), signer, amount, now) == Some(e)
                &&& *final(pool) == *old(pool)
                &&& *final(state) == *old(state)
            },
            Ok(transfers) => {
                let i = position_of(old(pool).stakers@, old(state).my_crc);
                let entry = entry_of(*old(pool), *old(state));
                let reward = unstake_reward(*old(pool), entry, amount, now);
                let payout = exit_payout(*old(pool), entry, amount, now);
                &&& unstaking_error(*old(pool), pool_key, *old(state), signer, amount, now) is None
                &&& same_config(*final(pool), *old(pool))
                &&& same_window(*final(pool), *old(pool))
                &&& final(pool).total_staked == old(pool).total_staked - amount
                &&& same_identity(*final(state), *old(state))
                &&& linked(*final(pool), *final(state))
                &&& linked(*old(pool), *old(state)) ==> final(state).total_staked == old(state).total_staked - amount
                &&& final(state).last_staked == old(state).last_staked
                &&& final(state).history@ == recorded(
                    old(state).history@,
                    StakerHistoryEntry { time: now, action: HistoryAction::Unstake, amount },
                )
                &&& if amount == entry.staked_amount {
                    &&& final(pool).stakers@ == old(pool).stakers@.remove(i)
                    &&& final(pool).total_reward_paid == old(pool).total_reward_paid + payout
                    &&& final(state).total_rewarded == old(state).total_rewarded + payout
                    &&& final(state).last_rewarded == if payout > 0 { now } else { old(state).last_rewarded }
                    &&& transfers@ == if payout > 0 {
                        seq![
                            Transfer { from: Vault::Escrow, to: Vault::StakerWallet, amount },
                            Transfer { from: Vault::Rewarder, to: Vault::StakerWallet, amount: payout as u64 },
                        ]
                    } else {
                        seq![Transfer { from: Vault::Escrow, to: Vault::StakerWallet, amount }]
                    }
                } else {
                    &&& final(pool).stakers@ == old(pool).stakers@.update(i, StakerState {
                        staked_amount: (entry.staked_amount - amount) as u64,
                        gained_reward: (entry.gained_reward + reward) as u64,
                        ..entry
                    })
                    &&& final(pool).total_reward_paid == old(pool).total_reward_paid
                    &&& final(state).total_rewarded == old(state).total_rewarded
                    &&& final(state).last_rewarded == old(state).last_rewarded
                    &&& transfers@ == seq![Transfer { from: Vault::Escrow, to: Vault::StakerWallet, amount }]
                }
            },
        },
{
    if !(state.staking_account == pool_key) {
        return Err(StakingErrors::InvalidStakingAccount);
    }
    if !(state.owner_address == signer) {
        return Err(StakingErrors::Unauthorized);
    }
    if amount == 0 {
        return Err(StakingErrors::AmountMustBePositive);
    }
    let crc = state.my_crc;
    let index = pool.index_of_staker(crc);
    if index < 0 {
        return Err(StakingErrors::StakerNotFound);
    }
    let i = index as usize;
    let entry = pool.stakers[i];
    if amount > entry.staked_amount {
        return Err(StakingErrors::InsufficientStakedBalance);
    }
    if amount > pool.total_staked {
        return Err(StakingErrors::InsufficientEscrowBalance);
    }
    let reward = calculate_reward(
        pool.apy_max as u64,
        pool.total_staked,
        pool.pool_reward,
        pool.timeframe_started,
        pool.timeframe_started + pool.timeframe_in_second,
        amount,
        entry.staked_time,
        pool.min_stake_period,
        now,
    );
    let gained = match entry.gained_reward.checked_add(reward) {
        Some(g) => g,
        None => return Err(StakingErrors::InvariantViolation),
    };
    let ghost s0 = pool.stakers@;
    let mut transfers: Vec<Transfer> = Vec::new();
    transfers.push(Transfer { from: Vault::Escrow, to: Vault::StakerWallet, amount });
    if amount == entry.staked_amount {
        let paid = match pool.total_reward_paid.checked_add(gained) {
            Some(p) => p,
            None => return Err(StakingErrors::InvariantViolation),
        };
        let rewarded = match state.total_rewarded.checked_add(gained) {
            Some(p) => p,
            None => return Err(StakingErrors::InvariantViolation),
        };
        pool.stakers.remove(i);
        proof {
            lemma_sum_staked_remove(s0, i as int);
            let s1 = pool.stakers@;
            assert(s1 == s0.remove(i as int));
            assert forall|j: int| 0 <= j < s1.len() implies #[trigger] s1[j].staked_amount > 0 by {
                if j < i { assert(s1[j] == s0[j]); } else { assert(s1[j] == s0[j + 1]); }
            }
            assert forall|j: int, k: int| 0 <= j < s1.len() && 0 <= k < s1.len() && j != k
                implies s1[j].staker_crc != s1[k].staker_crc by {
                let jj = if j < i { j } else { j + 1 };
                let kk = if k < i { k } else { k + 1 };
                assert(s1[j] == s0[jj]);
                assert(s1[k] == s0[kk]);
            }
            assert forall|j: int| 0 <= j < s1.len() implies #[trigger] s1[j].staker_crc != crc by {
                let jj = if j < i { j } else { j + 1 };
                assert(s1[j] == s0[jj]);
            }
        }
        pool.total_reward_paid = paid;
        state.total_rewarded = rewarded;
        state.total_staked = 0;
        if gained > 0 {
            state.last_rewarded = now;
            transfers.push(Transfer { from: Vault::Rewarder, to: Vault::StakerWallet, amount: gained });
        }
    } else {
        let updated = StakerState {
            staked_amount: entry.staked_amount - amount,
            gained_reward: gained,
            ..entry
        };
        pool.stakers.set(i, updated);
        proof {
            lemma_sum_staked_update(s0, i as int, updated);
            let s1 = pool.stakers@;
            assert(keys_distinct(s1));
            lemma_position_unique(s1, crc, i as int);
        }
        state.total_staked = updated.staked_amount;
    }
    pool.total_staked = pool.total_staked - amount;
    state.add_history(now, HistoryAction::Unstake, amount);
    proof {
        if amount == entry.staked_amount && gained > 0 {
            assert(transfers@ =~= seq![
                Transfer { from: Vault::Escrow, to: Vault::StakerWallet, amount },
                Transfer { from: Vault::Rewarder, to: Vault::StakerWallet, amount: gained },
            ]);
        } else {
            assert(transfers@ =~= seq![Transfer { from: Vault::Escrow, to: Vault::StakerWallet, amount }]);
        }
    }
    Ok(transfers)
}

/// Why `claim_reward` refuses, if it does.
pub open spec fn claim_error(
    pool: StakingData,
    pool_key: Address,
    state: StakingState,
    signer: Address,
    amount: u64,
) -> Option<StakingErrors> {
    if account_error(pool_key, state, signer) is Some {
        account_error(pool_key, state, signer)
    } else if amount == 0 {
        Some(StakingErrors::AmountMustBePositive)
    } else if !contains_staker(pool.stakers@, state.my_crc) {
        Some(StakingErrors::StakerNotFound)
    } else if amount > entry_of(pool, state).gained_reward {
        Some(StakingErrors::InsufficientGainedReward)
    } else if pool.total_reward_paid + amount > u64::MAX || state.total_rewarded + amount > u64::MAX {
        Some(StakingErrors::InvariantViolation)
    } else {
        None
    }
}

/// Pays `amount` of the owner's gained reward at time `now`.
pub fn claim_reward(
    pool: &mut StakingData,
    pool_key: Address,
    state: &mut StakingState,
    signer: Address,
    amount: u64,
    now: u64,
) -> (r: Result<Vec<Transfer>, StakingErrors>)
    requires
        old(pool).wf(),
        old(state).wf(),
    ensures
        final(pool).wf(),
        final(state).wf(),
        match r {
            Err(e) => {
                &&& claim_error(*old(pool), pool_key, *old(state), signer, amount) == Some(e)
                &&& *final(pool) == *old(pool)
                &&& *final(state) == *old(state)
            },
            Ok(transfers) => {
                let i = position_of(old(pool).stakers@, old(state).my_crc);
                let entry = entry_of(*old(pool), *old(state));
                &&& claim_error(*old(pool), pool_key, *old(state), signer, amount) is None
                &&& transfers@ == seq![Transfer { from: Vault::Rewarder, to: Vault::StakerWallet, amount }]
                &&& same_config(*final(pool), *old(pool))
                &&& same_window(*final(pool), *old(pool))
                &&& final(pool).total_staked == old(pool).total_staked
                &&& final(pool).total_reward_paid == old(pool).total_reward_paid + amount
                &&& final(pool).stakers@ == old(pool).stakers@.update(i, StakerState {
                    gained_reward: (entry.gained_reward - amount) as u64,
                    ..entry
                })
                &&& same_identity(*final(state), *old(state))
                &&& final(state).total_staked == old(state).total_staked
                &&& linked(*old(pool), *old(state)) ==> linked(*final(pool), *final(state))
                &&& final(state).total_rewarded == old(state).total_rewarded + amount
                &&& final(state).last_staked == old(state).last_staked
                &&& final(state).last_rewarded == now
                &&& final(state).history@ == recorded(
                    old(state).history@,
                    StakerHistoryEntry { time: now, action: HistoryAction::Claim, amount },
                )
            },
        },
{
    if !(state.staking_account == pool_key) {
        return Err(StakingErrors::InvalidStakingAccount);
    }
    if !(state.owner_address == signer) {
        return Err(StakingErrors::Unauthorized);
    }
    if amount == 0 {
        return Err(StakingErrors::AmountMustBePositive);
    }
    let crc = state.my_crc;
    let index = pool.index_of_staker(crc);
    if index < 0 {
        return Err(StakingErrors::StakerNotFound);
    }
    let i = index as usize;
    let entry = pool.stakers[i];
    if amount > entry.gained_reward {
        return Err(StakingErrors::InsufficientGainedReward);
    }
    let paid = match pool.total_reward_paid.checked_add(amount) {
        Some(p) => p,
        None => return Err(StakingErrors::InvariantViolation),
    };
    let rewarded = match state.total_rewarded.checked_add(amount) {
        Some(p) => p,
        None => return Err(StakingErrors::InvariantViolation),
    };
    let ghost s0 = pool.stakers@;
    let updated = StakerState { gained_reward: entry.gained_reward - amount, ..entry };
    pool.stakers.set(i, updated);
    proof {
        lemma_sum_staked_update(s0, i as int, updated);
        assert(keys_distinct(pool.stakers@));
        lemma_position_unique(s0, crc, i as int);
        lemma_position_unique(pool.stakers@, crc, i as int);
    }
    pool.total_reward_paid = paid;
    state.total_rewarded = rewarded;
    state.last_rewarded = now;
    state.add_history(now, HistoryAction::Claim, amount);
    let mut transfers: Vec<Transfer> = Vec::new();
    transfers.push(Transfer { from: Vault::Rewarder, to: Vault::StakerWallet, amount });
    proof {
        assert(transfers@ =~= seq![Transfer { from: Vault::Rewarder, to: Vault::StakerWallet, amount }]);
    }
    Ok(transfers)
}

/// When closing the pool's window at `now` stops accruing: `now`, or the
/// window's end where that came first.
pub open spec fn accrual_end(pool: StakingData, now: u64) -> u64 {
    let window_end = (pool.timeframe_started + pool.timeframe_in_second) as u64;
    if now < window_end { now } else { window_end }
}

/// The reward that closing the pool's window at `now` accrues to `entry`:
/// the calculator's result over the window, up to the accrual end; zero where
/// no window is open.
pub open spec fn closing_reward(pool: StakingData, entry: StakerState, now: u64) -> int {
    if pool.timeframe_in_second > 0 {
        reward_of(
            pool.apy_max as u64,
            pool.total_staked,
            pool.pool_reward,
            pool.timeframe_started,
            (pool.timeframe_started + pool.timeframe_in_second) as u64,
            entry.staked_amount,
            entry.staked_time,
            pool.min_stake_period,
            accrual_end(pool, now),
        )
    } else {
        0
    }
}

/// The entry once its closing reward is credited; its accrual clock restarts
/// at `now` where that reward is not zero.
pub open spec fn accrued_entry(pool: StakingData, entry: StakerState, now: u64) -> StakerState {
    let reward = closing_reward(pool, entry, now);
    StakerState {
        gained_reward: (entry.gained_reward + reward) as u64,
        staked_time: if reward > 0 { now } else { entry.staked_time },
        ..entry
    }
}

/// The registry once the window is closed at `now`.
pub open spec fn closed_registry(pool: StakingData, now: u64) -> Seq<StakerState> {
    pool.stakers@.map_values(|e: StakerState| accrued_entry(pool, e, now))
}

/// Some entry's gained reward would pass `u64::MAX` on closing.
pub open spec fn accrual_overflows(pool: StakingData, now: u64) -> bool {
    exists|i: int|
        0 <= i < pool.stakers@.len()
            && pool.stakers@[i].gained_reward + #[trigger] closing_reward(pool, pool.stakers@[i], now) > u64::MAX
}

/// Why `funding` refuses, if it does.
pub open spec fn funding_error(
    pool: StakingData,
    signer: Address,
    funder_balance: u64,
    rewarder_balance: u64,
    amount: u64,
    timeframe_in_second: u64,
    now: u64,
) -> Option<StakingErrors> {
    let pending = sum_gained(closed_registry(pool, now));
    if signer.bytes@ != pool.funder_authority.bytes@ {
        Some(StakingErrors::Unauthorized)
    } else if amount == 0 {
        Some(StakingErrors::AmountMustBePositive)
    } else if timeframe_in_second < pool.min_timeframe_in_second {
        Some(StakingErrors::WindowBelowMinimum)
    } else if timeframe_in_second < pool.min_stake_period {
        Some(StakingErrors::WindowBelowStakePeriod)
    } else if now + timeframe_in_second > u64::MAX || accrual_overflows(pool, now) {
        Some(StakingErrors::InvariantViolation)
    } else if amount > funder_balance {
        Some(StakingErrors::InsufficientBalance)
    } else if pending > rewarder_balance || rewarder_balance - pending + amount > u64::MAX
        || pool.total_funded + amount > u64::MAX {
        Some(StakingErrors::InvariantViolation)
    } else {
        None
    }
}

/// Funds the pool with `amount` from the funder's wallet, which holds
/// `funder_balance`, while the reward account holds `rewarder_balance`, and
/// opens a window of `timeframe_in_second` at `now`. An open window is closed
/// first: every entry accrues its reward over it, up to `now` or the window's
/// end, whichever comes first. The new window distributes
/// the reward account's balance beyond all gained rewards, plus `amount`.
pub fn funding(
    pool: &mut StakingData,
    signer: Address,
    funder_balance: u64,
    rewarder_balance: u64,
    amount: u64,
    timeframe_in_second: u64,
    now: u64,
) -> (r: Result<Vec<Transfer>, StakingErrors>)
    requires
        old(pool).wf(),
    ensures
        final(pool).wf(),
        match r {
            Err(e) => {
                &&& funding_error(*old(pool), signer, funder_balance, rewarder_balance, amount,
                    timeframe_in_second, now) == Some(e)
                &&& *final(pool) == *old(pool)
            },
            Ok(transfers) => {
                let pending = sum_gained(closed_registry(*old(pool), now));
                &&& funding_error(*old(pool), signer, funder_balance, rewarder_balance, amount,
                    timeframe_in_second, now) is None
                &&& transfers@ == seq![Transfer { from: Vault::FunderWallet, to: Vault::Rewarder, amount }]
                &&& same_config(*final(pool), *old(pool))
                &&& final(pool).stakers@ == closed_registry(*old(pool), now)
                &&& final(pool).total_staked == old(pool).total_staked
                &&& final(pool).total_reward_paid == old(pool).total_reward_paid
                &&& final(pool).pool_reward == rewarder_balance - pending + amount
                &&& final(pool).total_funded == old(pool).total_funded + amount
                &&& final(pool).timeframe_started == now
                &&& final(pool).timeframe_in_second == timeframe_in_second
            },
        },
{
    if !(signer == pool.funder_authority) {
        return Err(StakingErrors::Unauthorized);
    }
    if amount == 0 {
        return Err(StakingErrors::AmountMustBePositive);
    }
    if timeframe_in_second < pool.min_timeframe_in_second {
        return Err(StakingErrors::WindowBelowMinimum);
    }
    if timeframe_in_second < pool.min_stake_period {
        return Err(StakingErrors::WindowBelowStakePeriod);
    }
    if now.checked_add(timeframe_in_second).is_none() {
        return Err(StakingErrors::InvariantViolation);
    }
    let ghost prior = *pool;
    let ghost closed = closed_registry(prior, now);
    let window_open = pool.timeframe_in_second > 0;
    let window_end = pool.timeframe_started + pool.timeframe_in_second;
    let accrue_until: u64 = if now < window_end { now } else { window_end };
    let mut accrued: Vec<StakerState> = Vec::new();
    let mut pending: u128 = 0;
    let len = pool.stakers.len();
    let mut k: usize = 0;
    while k < len
        invariant
            *pool == prior,
            prior.wf(),
            signer.bytes@ == prior.funder_authority.bytes@,
            amount > 0,
            timeframe_in_second >= prior.min_timeframe_in_second,
            timeframe_in_second >= prior.min_stake_period,
            now + timeframe_in_second <= u64::MAX,
            len == prior.stakers@.len(),
            closed.len() == len,
            closed == closed_registry(prior, now),
            window_open == (prior.timeframe_in_second > 0),
            window_end == prior.timeframe_started + prior.timeframe_in_second,
            accrue_until == accrual_end(prior, now),
            0 <= k <= len,
            accrued@ =~= closed.subrange(0, k as int),
            pending == sum_gained(accrued@),
            forall|j: int| 0 <= j < k ==> prior.stakers@[j].gained_reward
                + #[trigger] closing_reward(prior, prior.stakers@[j], now) <= u64::MAX,
        decreases len - k,
    {
        let entry = pool.stakers[k];
        let reward: u64 = if window_open {
            calculate_reward(
                pool.apy_max as u64,
                pool.total_staked,
                pool.pool_reward,
                pool.timeframe_started,
                window_end,
                entry.staked_amount,
                entry.staked_time,
                pool.min_stake_period,
                accrue_until,
            )
        } else {
            0
        };
        let gained = match entry.gained_reward.checked_add(reward) {
            Some(g) => g,
            None => {
                proof {
                    assert(reward == closing_reward(prior, prior.stakers@[k as int], now));
                    assert(accrual_overflows(prior, now));
                }
                return Err(StakingErrors::InvariantViolation);
            },
        };
        let updated = StakerState {
            gained_reward: gained,
            staked_time: if reward > 0 { now } else { entry.staked_time },
            ..entry
        };
        proof {
            lemma_sum_gained_push(accrued@, updated);
            lemma_sum_gained_bound(accrued@);
            assert(updated == closed[k as int]);
            assert(accrued@.len() * (u64::MAX as int) <= 385 * (u64::MAX as int)) by (nonlinear_arith)
                requires accrued@.len() <= 385;
        }
        accrued.push(updated);
        pending = pending + gained as u128;
        k = k + 1;
    }
    proof {
        assert(accrued@ =~= closed);
        assert(!accrual_overflows(prior, now));
    }
    if amount > funder_balance {
        return Err(StakingErrors::InsufficientBalance);
    }
    if pending > rewarder_balance as u128 {
        return Err(StakingErrors::InvariantViolation);
    }
    let free = rewarder_balance - pending as u64;
    let pool_reward = match free.checked_add(amount) {
        Some(v) => v,
        None => return Err(StakingErrors::InvariantViolation),
    };
    let total_funded = match pool.total_funded.checked_add(amount) {
        Some(v) => v,
        None => return Err(StakingErrors::InvariantViolation),
    };
    pool.stakers = accrued;
    proof {
        let s1 = pool.stakers@;
        assert forall|i: int| 0 <= i < s1.len() implies #[trigger] s1[i].staked_amount == prior.stakers@[i].staked_amount
            && s1[i].staker_crc == prior.stakers@[i].staker_crc by {
            assert(s1[i] == accrued_entry(prior, prior.stakers@[i], now));
        }
        lemma_sum_staked_pointwise(s1, prior.stakers@);
        assert forall|i: int| 0 <= i < s1.len() implies #[trigger] s1[i].staked_amount > 0 by {
            assert(prior.stakers@[i].staked_amount > 0);
        }
        assert(keys_distinct(s1));
    }
    pool.pool_reward = pool_reward;
    pool.total_funded = total_funded;
    pool.timeframe_started = now;
    pool.timeframe_in_second = timeframe_in_second;
    let mut transfers: Vec<Transfer> = Vec::new();
    transfers.push(Transfer { from: Vault::FunderWallet, to: Vault::Rewarder, amount });
    proof {
        assert(transfers@ =~= seq![Transfer { from: Vault::FunderWallet, to: Vault::Rewarder, amount }]);
    }
    Ok(transfers)
}

/// Sets up a pool with the policy `apy_max`, `min_timeframe_in_second` and
/// `min_stake_period`: counters at zero, no window open, nobody staked.
pub fn initialize(
    initializer: Address,
    funder_authority: Address,
    mint_address: Address,
    escrow_account: Address,
    rewarder_account: Address,
    apy_max: u32,
    min_timeframe_in_second: u64,
    min_stake_period: u64,
) -> (r: Result<StakingData, StakingErrors>)
    ensures
        match r {
            Err(e) => e == StakingErrors::InvalidPolicy
                && !valid_policy(apy_max, min_timeframe_in_second, min_stake_period),
            Ok(pool) => {
                &&& valid_policy(apy_max, min_timeframe_in_second, min_stake_period)
                &&& pool.wf()
                &&& pool.initializer == initializer
                &&& pool.funder_authority == funder_authority
                &&& pool.mint_address == mint_address
                &&& pool.escrow_account == escrow_account
                &&& pool.rewarder_account == rewarder_account
                &&& pool.apy_max == apy_max
                &&& pool.min_timeframe_in_second == min_timeframe_in_second
                &&& pool.min_stake_period == min_stake_period
                &&& pool.total_funded == 0
                &&& pool.total_reward_paid == 0
                &&& pool.total_staked == 0
                &&& pool.pool_reward == 0
                &&& pool.timeframe_in_second == 0
                &&& pool.timeframe_started == 0
                &&& pool.stakers@.len() == 0
            },
        },
{
    if apy_max < MIN_APY || apy_max >= MAX_APY || min_timeframe_in_second == 0 || min_stake_period == 0 {
        return Err(StakingErrors::InvalidPolicy);
    }
    let pool = StakingData {
        initializer,
        funder_authority,
        mint_address,
        escrow_account,
        rewarder_account,
        total_funded: 0,
        total_reward_paid: 0,
        total_staked: 0,
        min_timeframe_in_second,
        timeframe_in_second: 0,
        timeframe_started: 0,
        pool_reward: 0,
        apy_max,
        min_stake_period,
        stakers: Vec::new(),
    };
    proof {
        assert(pool.stakers@ =~= Seq::<StakerState>::empty());
    }
    Ok(pool)
}

/// Why `set_max_apy` refuses, if it does.
pub open spec fn setting_error(pool: StakingData, signer: Address, apy_max: u32, min_stake_period: u64) -> Option<StakingErrors> {
    if signer.bytes@ != pool.initializer.bytes@ {
        Some(StakingErrors::Unauthorized)
    } else if !valid_policy(apy_max, pool.min_timeframe_in_second, min_stake_period)
        || (pool.timeframe_in_second > 0 && min_stake_period > pool.timeframe_in_second) {
        Some(StakingErrors::InvalidPolicy)
    } else {
        None
    }
}

/// The owner changes the yield cap and the minimum stake period. The period
/// may not exceed the length of an open window.
pub fn set_max_apy(pool: &mut StakingData, signer: Address, apy_max: u32, min_stake_period: u64) -> (r: Result<(), StakingErrors>)
    requires
        old(pool).wf(),
    ensures
        final(pool).wf(),
        match r {
            Err(e) => {
                &&& setting_error(*old(pool), signer, apy_max, min_stake_period) == Some(e)
                &&& *final(pool) == *old(pool)
            },
            Ok(()) => {
                &&& setting_error(*old(pool), signer, apy_max, min_stake_period) is None
                &&& *final(pool) == StakingData { apy_max, min_stake_period, ..*old(pool) }
            },
        },
{
    if !(signer == pool.initializer) {
        return Err(StakingErrors::Unauthorized);
    }
    if apy_max < MIN_APY || apy_max >= MAX_APY || min_stake_period == 0 {
        return Err(StakingErrors::InvalidPolicy);
    }
    if pool.timeframe_in_second > 0 && min_stake_period > pool.timeframe_in_second {
        return Err(StakingErrors::InvalidPolicy);
    }
    pool.apy_max = apy_max;
    pool.min_stake_period = min_stake_period;
    Ok(())
}

/// Registers the account `state_key` of `owner` with the pool `pool_key`: a
/// fresh account whose registry key is the checksum of its identity.
pub fn initialize_stake_state(pool: &StakingData, pool_key: Address, state_key: Address, owner: Address) -> (r: StakingState)
    ensures
        r.wf(),
        r.staking_account == pool_key,
        r.my_crc == crc32_ieee(state_key.bytes@),
        r.mint_address == pool.mint_address,
        r.owner_address == owner,
        r.total_staked == 0,
        r.total_rewarded == 0,
        r.last_staked == 0,
        r.last_rewarded == 0,
        r.history@.len() == 0,
{
    let crc = checksum_ieee(state_key.bytes.as_slice());
    StakingState::new(pool_key, crc, pool.mint_address, owner)
}

/// Funding again with no time elapsed since the window opened distributes
/// nothing, where no stake's accrual clock is older than the window: every
/// entry keeps its reward and its clock.
pub proof fn lemma_fund_without_elapsed_time_accrues_nothing(pool: StakingData, now: u64)
    requires
        pool.wf(),
        now == pool.timeframe_started,
        forall|i: int| 0 <= i < pool.stakers@.len() ==> #[trigger] pool.stakers@[i].staked_time >= pool.timeframe_started,
    ensures
        closed_registry(pool, now) == pool.stakers@,
        forall|i: int| 0 <= i < pool.stakers@.len() ==> #[trigger] closing_reward(pool, pool.stakers@[i], now) == 0,
{
    assert forall|i: int| 0 <= i < pool.stakers@.len() implies #[trigger] closing_reward(pool, pool.stakers@[i], now) == 0 by {
        let e = pool.stakers@[i];
        assert(e.staked_time >= now);
        assert(crate::calculate::elapsed_of(
            pool.timeframe_started,
            (pool.timeframe_started + pool.timeframe_in_second) as u64,
            e.staked_time,
            now,
        ) == 0);
    }
    let closed = closed_registry(pool, now);
    assert forall|i: int| 0 <= i < pool.stakers@.len() implies closed[i] == pool.stakers@[i] by {
        assert(closing_reward(pool, pool.stakers@[i], now) == 0);
    }
    assert(closed =~= pool.stakers@);
}

/// The registry never holds more than its capacity, and once it is full a
/// staker that has no entry yet is refused for that reason, whenever the
/// account, the amount and the balance are in order.
pub proof fn lemma_registry_bound(
    pool: StakingData,
    pool_key: Address,
    state: StakingState,
    signer: Address,
    staker_balance: u64,
    amount: u64,
)
    requires
        pool.wf(),
    ensures
        pool.stakers@.len() <= MAX_STAKERS,
        pool.stakers@.len() == MAX_STAKERS && !contains_staker(pool.stakers@, state.my_crc)
            && account_error(pool_key, state, signer) is None && 0 < amount <= staker_balance
            ==> staking_error(pool, pool_key, state, signer, staker_balance, amount)
                == Some(StakingErrors::RegistryFull),
{
}

/// The rewards that closing the pool's window at `now` accrues to the entries `s`.
pub open spec fn sum_closing(pool: StakingData, s: Seq<StakerState>, now: u64) -> int
    decreases s.len(),
{
    if s.len() == 0 {
        0
    } else {
        sum_closing(pool, s.drop_last(), now) + closing_reward(pool, s.last(), now)
    }
}

proof fn lemma_closing_share(pool: StakingData, entry: StakerState, now: u64)
    ensures
        0 <= closing_reward(pool, entry, now),
        closing_reward(pool, entry, now) * pool.total_staked <= pool.pool_reward * entry.staked_amount,
        pool.total_staked == 0 ==> closing_reward(pool, entry, now) == 0,
{
    let ws = pool.timeframe_started;
    let we = (pool.timeframe_started + pool.timeframe_in_second) as u64;
    let e = crate::calculate::elapsed_of(ws, we, entry.staked_time, accrual_end(pool, now));
    let frame: int = we - ws;
    let r = closing_reward(pool, entry, now);
    if pool.timeframe_in_second > 0 && !(entry.staked_amount == 0 || entry.staked_time >= we || we < ws
        || pool.total_staked == 0 || e == 0 || frame == 0 || e < pool.min_stake_period) {
        let p: int = pool.total_staked as int;
        let rw: int = pool.pool_reward as int;
        let st: int = entry.staked_amount as int;
        let n = rw * st * e;
        let d = p * frame;
        assert(0 < d) by (nonlinear_arith) requires 0 < p, 0 < frame, d == p * frame;
        assert(0 <= n <= rw * st * frame) by (nonlinear_arith)
            requires 0 <= rw, 0 <= st, 0 <= e <= frame, n == rw * st * e;
        let base = base_reward(p, rw, frame, st, e);
        assert(base == n / d);
        lemma_fundamental_div_mod(n, d);
        crate::calculate::lemma_reward_within_cap(pool.apy_max as u64, pool.total_staked, pool.pool_reward,
            ws, we, entry.staked_amount, entry.staked_time, pool.min_stake_period, accrual_end(pool, now));
        assert(0 <= n % d) by {
            vstd::arithmetic::div_mod::lemma_mod_pos_bound(n, d);
        }
        assert(0 <= base) by {
            vstd::arithmetic::div_mod::lemma_div_is_ordered(0, n, d);
        }
        assert(base * p <= rw * st) by (nonlinear_arith)
            requires n == d * base + n % d, 0 <= n % d, n <= rw * st * frame, d == p * frame, 0 < frame, 0 <= base;
        assert(0 <= r <= base);
        assert(r * p <= base * p) by (nonlinear_arith) requires 0 <= r <= base, 0 < p;
    } else {
        assert(r == 0);
    }
}

proof fn lemma_sum_closing_share(pool: StakingData, s: Seq<StakerState>, now: u64)
    ensures
        0 <= sum_closing(pool, s, now),
        sum_closing(pool, s, now) * pool.total_staked <= pool.pool_reward * sum_staked(s),
        pool.total_staked == 0 ==> sum_closing(pool, s, now) == 0,
    decreases s.len(),
{
    if s.len() > 0 {
        lemma_sum_closing_share(pool, s.drop_last(), now);
        lemma_closing_share(pool, s.last(), now);
        let a = sum_closing(pool, s.drop_last(), now);
        let b = closing_reward(pool, s.last(), now);
        let sa = sum_staked(s.drop_last());
        let sb: int = s.last().staked_amount as int;
        let p: int = pool.total_staked as int;
        let rw: int = pool.pool_reward as int;
        assert((a + b) * p <= rw * (sa + sb)) by (nonlinear_arith)
            requires a * p <= rw * sa, b * p <= rw * sb;
    }
}

proof fn lemma_sum_gained_closed(pool: StakingData, s: Seq<StakerState>, now: u64)
    requires
        forall|i: int| 0 <= i < s.len() ==> s[i].gained_reward + #[trigger] closing_reward(pool, s[i], now) <= u64::MAX,
    ensures
        sum_gained(s.map_values(|e: StakerState| accrued_entry(pool, e, now)))
            == sum_gained(s) + sum_closing(pool, s, now),
    decreases s.len(),
{
    if s.len() > 0 {
        let t = s.drop_last();
        assert(s.map_values(|e: StakerState| accrued_entry(pool, e, now)).drop_last()
            =~= t.map_values(|e: StakerState| accrued_entry(pool, e, now)));
        assert(forall|i: int| 0 <= i < t.len() ==> t[i] == s[i]);
        lemma_sum_gained_closed(pool, t, now);
        lemma_closing_share(pool, s.last(), now);
        assert(closing_reward(pool, s[s.len() - 1], now) + s[s.len() - 1].gained_reward <= u64::MAX);
    }
}

/// Closing a window never credits more than the window's reward: the rewards
/// accrued to all entries add up to at most `pool_reward`, and so, where
/// `funding` succeeds, the entries' gained rewards grow by at most that much.
pub proof fn lemma_closing_within_pool_reward(pool: StakingData, now: u64)
    requires
        pool.wf(),
    ensures
        sum_closing(pool, pool.stakers@, now) <= pool.pool_reward,
        !accrual_overflows(pool, now) ==> sum_gained(closed_registry(pool, now))
            <= sum_gained(pool.stakers@) + pool.pool_reward,
{
    lemma_sum_closing_share(pool, pool.stakers@, now);
    let c = sum_closing(pool, pool.stakers@, now);
    let p: int = pool.total_staked as int;
    let rw: int = pool.pool_reward as int;
    if p > 0 {
        assert(c <= rw) by (nonlinear_arith) requires c * p <= rw * p, 0 < p;
    }
    if !accrual_overflows(pool, now) {
        let s = pool.stakers@;
        assert forall|i: int| 0 <= i < s.len() implies s[i].gained_reward + #[trigger] closing_reward(pool, s[i], now) <= u64::MAX by {
            if s[i].gained_reward + closing_reward(pool, s[i], now) > u64::MAX {
                assert(accrual_overflows(pool, now));
            }
        }
        lemma_sum_gained_closed(pool, s, now);
    }
}

/// Withdrawing more than the entry holds is refused for that reason, and so
/// (by `unstaking`'s contract) changes nothing, whenever the account is in
/// order and the amount is positive.
pub proof fn lemma_unstake_beyond_stake_refused(
    pool: StakingData,
    pool_key: Address,
    state: StakingState,
    signer: Address,
    amount: u64,
    now: u64,
)
    requires
        pool.wf(),
        account_error(pool_key, state, signer) is None,
        contains_staker(pool.stakers@, state.my_crc),
        amount > entry_of(pool, state).staked_amount,
    ensures
        unstaking_error(pool, pool_key, state, signer, amount, now)
            == Some(StakingErrors::InsufficientStakedBalance),
{
}

} // verus!
