//! The pool ledger and the staker's account.

use vstd::prelude::*;
use crate::address::Address;
use crate::history::{recorded, History, HistoryAction, StakerHistoryEntry, MAX_HISTORY};
use crate::registry::{
    contains_staker, keys_distinct, position_of, sum_staked, StakerState,
    MAX_STAKERS,
};

verus! {

/// The least `apy_max` a pool accepts (1.00%).
pub const MIN_APY: u32 = 100;

/// The bound that `apy_max` stays below (100.00%).
pub const MAX_APY: u32 = 10000;

/// The pool ledger: identities, balances, the funding window, the policy and
/// the registry of active stakers.
pub struct StakingData {
    /// The owner, who may change the policy.
    pub initializer: Address,
    /// The identity that may fund rewards.
    pub funder_authority: Address,
    /// The asset that the pool holds.
    pub mint_address: Address,
    /// The external account that holds the staked principal.
    pub escrow_account: Address,
    /// The external account that holds the reward funds.
    pub rewarder_account: Address,
    /// Lifetime sum of the funded amounts.
    pub total_funded: u64,
    /// Lifetime sum of the rewards paid out.
    pub total_reward_paid: u64,
    /// The principal of all active stakers.
    pub total_staked: u64,
    /// The least length of a funding window.
    pub min_timeframe_in_second: u64,
    /// The length of the current funding window; 0 where none is open.
    pub timeframe_in_second: u64,
    /// When the current funding window opened.
    pub timeframe_started: u64,
    /// The reward that the current window distributes.
    pub pool_reward: u64,
    /// The bound on a reward's yield, in hundredths of a percent.
    pub apy_max: u32,
    /// The least time a stake must be held to earn a reward.
    pub min_stake_period: u64,
    /// The active stakers, in order of arrival.
    pub stakers: Vec<StakerState>,
}

/// A policy that a pool accepts.
pub open spec fn valid_policy(apy_max: u32, min_timeframe: u64, min_stake_period: u64) -> bool {
    &&& MIN_APY <= apy_max < MAX_APY
    &&& min_timeframe > 0
    &&& min_stake_period > 0
}

impl StakingData {
    /// The ledger's invariant: a valid policy, a window whose end is a time,
    /// and a bounded registry of distinct keys and positive stakes whose
    /// principal adds up to `total_staked`.
    pub open spec fn wf(&self) -> bool {
        &&& valid_policy(self.apy_max, self.min_timeframe_in_second, self.min_stake_period)
        &&& self.timeframe_started + self.timeframe_in_second <= u64::MAX
        &&& self.stakers@.len() <= MAX_STAKERS
        &&& keys_distinct(self.stakers@)
        &&& forall|i: int| 0 <= i < self.stakers@.len() ==> #[trigger] self.stakers@[i].staked_amount > 0
        &&& self.total_staked == sum_staked(self.stakers@)
    }

    /// Whether a funding window is open.
    pub open spec fn window_open(&self) -> bool {
        self.timeframe_in_second > 0
    }

    /// The end of the current funding window.
    pub open spec fn window_end(&self) -> int {
        self.timeframe_started + self.timeframe_in_second
    }

    /// Whether the ledger is well formed; a ledger read back from storage is
    /// checked with this before any operation runs on it.
    pub fn is_well_formed(&self) -> (r: bool)
        ensures
            r == self.wf(),
    {
        if self.apy_max < MIN_APY || self.apy_max >= MAX_APY || self.min_timeframe_in_second == 0
            || self.min_stake_period == 0 {
            return false;
        }
        if self.timeframe_started.checked_add(self.timeframe_in_second).is_none() {
            return false;
        }
        let len = self.stakers.len();
        if len > MAX_STAKERS {
            return false;
        }
        let ghost s = self.stakers@;
        let mut sum: u128 = 0;
        let mut i: usize = 0;
        while i < len
            invariant
                s == self.stakers@,
                len == s.len(),
                len <= MAX_STAKERS,
                0 <= i <= len,
                forall|a: int, b: int| 0 <= a < i && 0 <= b < len && a != b ==> s[a].staker_crc != s[b].staker_crc,
                forall|a: int| 0 <= a < i ==> #[trigger] s[a].staked_amount > 0,
                sum == sum_staked(s.subrange(0, i as int)),
                sum <= i * (u64::MAX as int),
            decreases len - i,
        {
            let entry = self.stakers[i];
            if entry.staked_amount == 0 {
                return false;
            }
            let mut j: usize = 0;
            while j < len
                invariant
                    s == self.stakers@,
                    len == s.len(),
                    0 <= i < len,
                    0 <= j <= len,
                    entry == s[i as int],
                    forall|b: int| 0 <= b < j && b != i ==> s[i as int].staker_crc != #[trigger] s[b].staker_crc,
                decreases len - j,
            {
                if j != i && self.stakers[j].staker_crc == entry.staker_crc {
                    proof {
                        assert(!keys_distinct(s));
                    }
                    return false;
                }
                j = j + 1;
            }
            proof {
                assert(s.subrange(0, i + 1).drop_last() =~= s.subrange(0, i as int));
                assert(i * (u64::MAX as int) + (u64::MAX as int) == (i + 1) * (u64::MAX as int)) by (nonlinear_arith);
                assert((i + 1) * (u64::MAX as int) <= 385 * (u64::MAX as int)) by (nonlinear_arith)
                    requires i + 1 <= 385;
            }
            sum = sum + entry.staked_amount as u128;
            i = i + 1;
        }
        proof {
            assert(s.subrange(0, len as int) =~= s);
        }
        sum == self.total_staked as u128
    }

    /// The index of the entry with key `crc`, or -1 where there is none.
    pub fn index_of_staker(&self, crc: u32) -> (r: i32)
        requires
            self.stakers@.len() <= MAX_STAKERS,
        ensures
            r == -1 <==> !contains_staker(self.stakers@, crc),
            r != -1 ==> 0 <= r < self.stakers@.len() && self.stakers@[r as int].staker_crc == crc,
            r != -1 ==> forall|j: int| 0 <= j < r ==> self.stakers@[j].staker_crc != crc,
            keys_distinct(self.stakers@) ==> r == position_of(self.stakers@, crc),
    {
        let mut i: usize = 0;
        while i < self.stakers.len()
            invariant
                0 <= i <= self.stakers@.len() <= MAX_STAKERS,
                forall|j: int| 0 <= j < i ==> self.stakers@[j].staker_crc != crc,
            decreases self.stakers@.len() - i,
        {
            if self.stakers[i].staker_crc == crc {
                return i as i32;
            }
            i = i + 1;
        }
        -1
    }
}

/// A staker's account: its identity, its link to the pool, mirrors of its
/// totals and its history.
pub struct StakingState {
    /// The pool that the account belongs to.
    pub staking_account: Address,
    /// The registry key: the checksum of this account's identity.
    pub my_crc: u32,
    /// The asset of the pool.
    pub mint_address: Address,
    /// The participant who owns the account.
    pub owner_address: Address,
    /// The principal staked, as the registry holds it.
    pub total_staked: u64,
    /// Lifetime sum of the rewards paid to the staker.
    pub total_rewarded: u64,
    /// When the staker last staked.
    pub last_staked: u64,
    /// When the staker was last paid a reward.
    pub last_rewarded: u64,
    /// The staker's events, oldest first.
    pub history: History,
}

impl StakingState {
    pub open spec fn wf(&self) -> bool {
        self.history.wf()
    }

    /// A fresh account of `owner` in the pool `staking_account`, with the key
    /// `my_crc`: totals at zero and an empty history.
    pub fn new(staking_account: Address, my_crc: u32, mint_address: Address, owner_address: Address) -> (r: StakingState)
        ensures
            r.wf(),
            r.staking_account == staking_account,
            r.my_crc == my_crc,
            r.mint_address == mint_address,
            r.owner_address == owner_address,
            r.total_staked == 0,
            r.total_rewarded == 0,
            r.last_staked == 0,
            r.last_rewarded == 0,
            r.history@.len() == 0,
    {
        StakingState {
            staking_account,
            my_crc,
            mint_address,
            owner_address,
            total_staked: 0,
            total_rewarded: 0,
            last_staked: 0,
            last_rewarded: 0,
            history: History::new(),
        }
    }
}

impl StakingState {
    /// Records an event in the account's history; where the history is full,
    /// its oldest event is dropped.
    pub fn add_history(&mut self, time: u64, action: HistoryAction, amount: u64)
        requires
            old(self).wf(),
        ensures
            final(self).wf(),
            final(self).history@ == recorded(old(self).history@, StakerHistoryEntry { time, action, amount }),
            final(self).staking_account == old(self).staking_account,
            final(self).my_crc == old(self).my_crc,
            final(self).mint_address == old(self).mint_address,
            final(self).owner_address == old(self).owner_address,
            final(self).total_staked == old(self).total_staked,
            final(self).total_rewarded == old(self).total_rewarded,
            final(self).last_staked == old(self).last_staked,
            final(self).last_rewarded == old(self).last_rewarded,
    {
        self.history.add(time, action, amount);
    }
}

/// The account's mirror of its principal agrees with the pool's registry:
/// the entry's principal where it has one, else zero.
pub open spec fn linked(pool: StakingData, state: StakingState) -> bool {
    if contains_staker(pool.stakers@, state.my_crc) {
        state.total_staked == pool.stakers@[position_of(pool.stakers@, state.my_crc)].staked_amount
    } else {
        state.total_staked == 0
    }
}

/// Every staker's history stays within its capacity.
pub proof fn lemma_account_history_bounded(state: StakingState)
    requires
        state.wf(),
    ensures
        state.history@.len() <= MAX_HISTORY,
{
    crate::history::lemma_history_bounded(state.history);
}

/// Conservation: in a well-formed ledger, which every operation keeps well
/// formed, the pool's principal is the sum of its entries' principal, and
/// every entry holds a positive stake.
pub proof fn lemma_conservation(pool: StakingData)
    requires
        pool.wf(),
    ensures
        pool.total_staked == sum_staked(pool.stakers@),
        forall|i: int| 0 <= i < pool.stakers@.len() ==> #[trigger] pool.stakers@[i].staked_amount > 0,
{
}

} // verus!
