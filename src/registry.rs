//! The staker registry: the bounded sequence of active stakers' entries kept in
//! the pool, keyed by each staker's checksum, and the sums over it.

use vstd::prelude::*;

verus! {

/// The most stakers that a pool's registry holds at once.
pub const MAX_STAKERS: usize = 385;

/// One active staker's entry in the pool's registry.
#[derive(Clone, Copy, Debug, PartialEq, Eq, Structural)]
pub struct StakerState {
    /// The key: the checksum of the staker's account identity.
    pub staker_crc: u32,
    /// When the current accrual period of this stake began.
    pub staked_time: u64,
    /// The principal staked.
    pub staked_amount: u64,
    /// Reward accrued and not yet paid.
    pub gained_reward: u64,
}

/// The sum of the principal over a sequence of entries.
pub open spec fn sum_staked(s: Seq<StakerState>) -> int
    decreases s.len(),
{
    if s.len() == 0 {
        0
    } else {
        sum_staked(s.drop_last()) + s.last().staked_amount
    }
}

/// The sum of the unpaid reward over a sequence of entries.
pub open spec fn sum_gained(s: Seq<StakerState>) -> int
    decreases s.len(),
{
    if s.len() == 0 {
        0
    } else {
        sum_gained(s.drop_last()) + s.last().gained_reward
    }
}

/// No two entries share a key.
pub open spec fn keys_distinct(s: Seq<StakerState>) -> bool {
    forall|i: int, j: int|
        0 <= i < s.len() && 0 <= j < s.len() && i != j ==> s[i].staker_crc != s[j].staker_crc
}

/// Some entry has the key `crc`.
pub open spec fn contains_staker(s: Seq<StakerState>, crc: u32) -> bool {
    exists|i: int| 0 <= i < s.len() && s[i].staker_crc == crc
}

/// The index of the entry with key `crc`, or -1 where there is none.
pub open spec fn position_of(s: Seq<StakerState>, crc: u32) -> int {
    if contains_staker(s, crc) {
        choose|i: int| 0 <= i < s.len() && s[i].staker_crc == crc
    } else {
        -1
    }
}

/// With distinct keys, an entry with key `crc` stands at `position_of`.
pub proof fn lemma_position_unique(s: Seq<StakerState>, crc: u32, i: int)
    requires
        keys_distinct(s),
        0 <= i < s.len(),
        s[i].staker_crc == crc,
    ensures
        position_of(s, crc) == i,
{
}

pub proof fn lemma_sum_staked_nonneg(s: Seq<StakerState>)
    ensures
        sum_staked(s) >= 0,
    decreases s.len(),
{
    if s.len() > 0 {
        lemma_sum_staked_nonneg(s.drop_last());
    }
}

pub proof fn lemma_sum_staked_push(s: Seq<StakerState>, e: StakerState)
    ensures
        sum_staked(s.push(e)) == sum_staked(s) + e.staked_amount,
{
    assert(s.push(e).drop_last() =~= s);
}

pub proof fn lemma_sum_staked_update(s: Seq<StakerState>, i: int, e: StakerState)
    requires
        0 <= i < s.len(),
    ensures
        sum_staked(s.update(i, e)) == sum_staked(s) - s[i].staked_amount + e.staked_amount,
    decreases s.len(),
{
    if i == s.len() - 1 {
        assert(s.update(i, e).drop_last() =~= s.drop_last());
    } else {
        assert(s.update(i, e).drop_last() =~= s.drop_last().update(i, e));
        lemma_sum_staked_update(s.drop_last(), i, e);
    }
}

pub proof fn lemma_sum_staked_remove(s: Seq<StakerState>, i: int)
    requires
        0 <= i < s.len(),
    ensures
        sum_staked(s.remove(i)) == sum_staked(s) - s[i].staked_amount,
    decreases s.len(),
{
    if i == s.len() - 1 {
        assert(s.remove(i) =~= s.drop_last());
    } else {
        assert(s.remove(i).drop_last() =~= s.drop_last().remove(i));
        lemma_sum_staked_remove(s.drop_last(), i);
    }
}

pub proof fn lemma_entry_within_sum(s: Seq<StakerState>, i: int)
    requires
        0 <= i < s.len(),
    ensures
        s[i].staked_amount <= sum_staked(s),
    decreases s.len(),
{
    lemma_sum_staked_nonneg(s.drop_last());
    if i < s.len() - 1 {
        lemma_entry_within_sum(s.drop_last(), i);
    }
}

pub proof fn lemma_sum_gained_push(s: Seq<StakerState>, e: StakerState)
    ensures
        sum_gained(s.push(e)) == sum_gained(s) + e.gained_reward,
{
    assert(s.push(e).drop_last() =~= s);
}

/// Sequences whose entries hold the same principal, key by key, hold the same
/// total principal and the same keys.
pub proof fn lemma_sum_staked_pointwise(s1: Seq<StakerState>, s2: Seq<StakerState>)
    requires
        s1.len() == s2.len(),
        forall|i: int| 0 <= i < s1.len() ==> #[trigger] s1[i].staked_amount == s2[i].staked_amount,
    ensures
        sum_staked(s1) == sum_staked(s2),
    decreases s1.len(),
{
    if s1.len() > 0 {
        let (t1, t2) = (s1.drop_last(), s2.drop_last());
        assert forall|i: int| 0 <= i < t1.len() implies #[trigger] t1[i].staked_amount == t2[i].staked_amount by {
            assert(t1[i] == s1[i]);
            assert(t2[i] == s2[i]);
        }
        lemma_sum_staked_pointwise(t1, t2);
    }
}

pub proof fn lemma_sum_gained_bound(s: Seq<StakerState>)
    ensures
        0 <= sum_gained(s) <= s.len() * (u64::MAX as int),
    decreases s.len(),
{
    if s.len() > 0 {
        lemma_sum_gained_bound(s.drop_last());
        assert((s.len() - 1) * (u64::MAX as int) + (u64::MAX as int) == s.len() * (u64::MAX as int)) by (nonlinear_arith);
    }
}

} // verus!
