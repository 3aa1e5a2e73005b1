use staking::account::{StakingData, StakingState};
use staking::address::Address;
use staking::error::StakingErrors;
use staking::history::HistoryAction;
use staking::program::{
    claim_reward, funding, initialize, initialize_stake_state, set_max_apy, staking, unstaking,
    Transfer, Vault,
};

const DAY: u64 = 86_400;
const WINDOW: u64 = 2_592_000;

fn addr(n: u8) -> Address {
    Address::new([n; 32])
}

fn owner() -> Address {
    addr(1)
}

fn funder() -> Address {
    addr(2)
}

fn pool_key() -> Address {
    addr(10)
}

fn participant() -> Address {
    addr(30)
}

fn new_pool() -> StakingData {
    initialize(owner(), funder(), addr(3), addr(4), addr(5), 1000, 1, DAY).unwrap()
}

fn new_staker(pool: &StakingData, n: u8) -> StakingState {
    initialize_stake_state(pool, pool_key(), addr(n), participant())
}

fn keyed_staker(pool: &StakingData, i: u32) -> StakingState {
    let mut bytes = [0u8; 32];
    bytes[0..4].copy_from_slice(&i.to_le_bytes());
    initialize_stake_state(pool, pool_key(), Address::new(bytes), participant())
}

#[test]
fn initialize_sets_policy_and_zeroes_counters() {
    let pool = new_pool();
    assert_eq!(pool.apy_max, 1000);
    assert_eq!(pool.min_stake_period, DAY);
    assert_eq!(pool.min_timeframe_in_second, 1);
    assert_eq!(pool.total_staked, 0);
    assert_eq!(pool.total_funded, 0);
    assert_eq!(pool.total_reward_paid, 0);
    assert_eq!(pool.pool_reward, 0);
    assert_eq!(pool.timeframe_in_second, 0);
    assert_eq!(pool.stakers.len(), 0);
    assert_eq!(pool.initializer, owner());
    assert_eq!(pool.funder_authority, funder());
}

#[test]
fn initialize_rejects_policy_out_of_bounds() {
    let bad = [(99u32, 1u64, 1u64), (10_000, 1, 1), (100, 0, 1), (100, 1, 0)];
    for &(apy, window, period) in bad.iter() {
        let r = initialize(owner(), funder(), addr(3), addr(4), addr(5), apy, window, period);
        assert_eq!(r.err(), Some(StakingErrors::InvalidPolicy));
    }
    assert!(initialize(owner(), funder(), addr(3), addr(4), addr(5), 100, 1, 1).is_ok());
    assert!(initialize(owner(), funder(), addr(3), addr(4), addr(5), 9999, 1, 1).is_ok());
}

#[test]
fn registered_account_is_keyed_by_checksum() {
    let pool = new_pool();
    let mut bytes = [0u8; 32];
    for i in 0..32 {
        bytes[i] = (i + 1) as u8;
    }
    let state = initialize_stake_state(&pool, pool_key(), Address::new(bytes), participant());
    assert_eq!(state.my_crc, 2_280_057_893);
    assert_eq!(new_staker(&pool, 7).my_crc, 2_748_851_403);
    assert_eq!(state.staking_account, pool_key());
    assert_eq!(state.owner_address, participant());
    assert_eq!(state.mint_address, addr(3));
    assert_eq!(state.total_staked, 0);
    assert_eq!(state.history.len(), 0);
}

#[test]
fn literal_scenario_full_exit_pays_principal_and_reward() {
    let mut pool = new_pool();
    let mut state = new_staker(&pool, 20);
    let t = staking(&mut pool, pool_key(), &mut state, participant(), 1_000_000, 1_000_000, 0).unwrap();
    assert_eq!(t, vec![Transfer { from: Vault::StakerWallet, to: Vault::Escrow, amount: 1_000_000 }]);
    let t = funding(&mut pool, funder(), 100_000, 0, 100_000, WINDOW, 0).unwrap();
    assert_eq!(t, vec![Transfer { from: Vault::FunderWallet, to: Vault::Rewarder, amount: 100_000 }]);
    assert_eq!(pool.pool_reward, 100_000);
    assert_eq!(pool.total_funded, 100_000);
    let t = unstaking(&mut pool, pool_key(), &mut state, participant(), 1_000_000, WINDOW).unwrap();
    assert_eq!(
        t,
        vec![
            Transfer { from: Vault::Escrow, to: Vault::StakerWallet, amount: 1_000_000 },
            Transfer { from: Vault::Rewarder, to: Vault::StakerWallet, amount: 100_000 },
        ]
    );
    assert_eq!(pool.stakers.len(), 0);
    assert_eq!(pool.total_staked, 0);
    assert_eq!(pool.total_reward_paid, 100_000);
    assert_eq!(state.total_staked, 0);
    assert_eq!(state.total_rewarded, 100_000);
    assert_eq!(state.last_rewarded, WINDOW);
}

#[test]
fn unstake_zero_fails_without_change() {
    let mut pool = new_pool();
    let mut state = new_staker(&pool, 20);
    staking(&mut pool, pool_key(), &mut state, participant(), 500, 500, 0).unwrap();
    let r = unstaking(&mut pool, pool_key(), &mut state, participant(), 0, 10);
    assert_eq!(r, Err(StakingErrors::AmountMustBePositive));
    assert_eq!(pool.total_staked, 500);
    assert_eq!(pool.stakers.len(), 1);
    assert_eq!(pool.stakers[0].staked_amount, 500);
    assert_eq!(state.total_staked, 500);
    assert_eq!(state.history.len(), 1);
}

#[test]
fn unstake_more_than_staked_fails_without_change() {
    let mut pool = new_pool();
    let mut state = new_staker(&pool, 20);
    staking(&mut pool, pool_key(), &mut state, participant(), 500, 500, 0).unwrap();
    let r = unstaking(&mut pool, pool_key(), &mut state, participant(), 501, 10);
    assert_eq!(r, Err(StakingErrors::InsufficientStakedBalance));
    assert_eq!(pool.total_staked, 500);
    assert_eq!(pool.stakers.len(), 1);
    assert_eq!(pool.stakers[0].staked_amount, 500);
    assert_eq!(pool.stakers[0].gained_reward, 0);
    assert_eq!(state.total_staked, 500);
    assert_eq!(state.history.len(), 1);
}

#[test]
fn stake_creates_then_tops_up_entry() {
    let mut pool = new_pool();
    let mut state = new_staker(&pool, 20);
    staking(&mut pool, pool_key(), &mut state, participant(), 1000, 300, 5).unwrap();
    staking(&mut pool, pool_key(), &mut state, participant(), 1000, 200, 9).unwrap();
    assert_eq!(pool.stakers.len(), 1);
    assert_eq!(pool.stakers[0].staker_crc, state.my_crc);
    assert_eq!(pool.stakers[0].staked_amount, 500);
    assert_eq!(pool.stakers[0].staked_time, 9);
    assert_eq!(pool.total_staked, 500);
    assert_eq!(state.total_staked, 500);
    assert_eq!(state.last_staked, 9);
    let h = state.history.to_vec();
    assert_eq!(h.len(), 2);
    assert_eq!(h[0].action, HistoryAction::Stake);
    assert_eq!(h[0].amount, 300);
    assert_eq!(h[1].time, 9);
}

#[test]
fn conservation_over_several_stakers() {
    let mut pool = new_pool();
    let mut a = new_staker(&pool, 20);
    let mut b = new_staker(&pool, 21);
    staking(&mut pool, pool_key(), &mut a, participant(), 10_000, 700, 0).unwrap();
    staking(&mut pool, pool_key(), &mut b, participant(), 10_000, 300, 0).unwrap();
    unstaking(&mut pool, pool_key(), &mut a, participant(), 200, 5).unwrap();
    unstaking(&mut pool, pool_key(), &mut b, participant(), 300, 6).unwrap();
    let sum: u64 = pool.stakers.iter().map(|e| e.staked_amount).sum();
    assert_eq!(pool.total_staked, sum);
    assert_eq!(pool.total_staked, 500);
    assert_eq!(pool.stakers.len(), 1);
    assert_eq!(b.total_staked, 0);
    assert_eq!(a.total_staked, 500);
}

#[test]
fn stake_errors() {
    let mut pool = new_pool();
    let mut state = new_staker(&pool, 20);
    assert_eq!(
        staking(&mut pool, addr(11), &mut state, participant(), 10, 5, 0),
        Err(StakingErrors::InvalidStakingAccount)
    );
    assert_eq!(
        staking(&mut pool, pool_key(), &mut state, addr(31), 10, 5, 0),
        Err(StakingErrors::Unauthorized)
    );
    assert_eq!(
        staking(&mut pool, pool_key(), &mut state, participant(), 10, 0, 0),
        Err(StakingErrors::AmountMustBePositive)
    );
    assert_eq!(
        staking(&mut pool, pool_key(), &mut state, participant(), 10, 11, 0),
        Err(StakingErrors::InsufficientBalance)
    );
    assert_eq!(pool.total_staked, 0);
    assert_eq!(state.history.len(), 0);
}

#[test]
fn stake_that_would_overflow_total_is_refused() {
    let mut pool = new_pool();
    let mut a = new_staker(&pool, 20);
    let mut b = new_staker(&pool, 21);
    staking(&mut pool, pool_key(), &mut a, participant(), u64::MAX, u64::MAX, 0).unwrap();
    assert_eq!(
        staking(&mut pool, pool_key(), &mut b, participant(), 1, 1, 0),
        Err(StakingErrors::InvariantViolation)
    );
    assert_eq!(pool.stakers.len(), 1);
}

#[test]
fn registry_holds_at_most_385_stakers() {
    let mut pool = new_pool();
    let mut first = keyed_staker(&pool, 0);
    staking(&mut pool, pool_key(), &mut first, participant(), 1, 1, 0).unwrap();
    for i in 1..385u32 {
        let mut s = keyed_staker(&pool, i);
        staking(&mut pool, pool_key(), &mut s, participant(), 1, 1, 0).unwrap();
    }
    assert_eq!(pool.stakers.len(), 385);
    let mut newcomer = keyed_staker(&pool, 385);
    assert_eq!(
        staking(&mut pool, pool_key(), &mut newcomer, participant(), 1, 1, 0),
        Err(StakingErrors::RegistryFull)
    );
    assert_eq!(pool.stakers.len(), 385);
    assert_eq!(pool.total_staked, 385);
    staking(&mut pool, pool_key(), &mut first, participant(), 1, 1, 0).unwrap();
    assert_eq!(pool.stakers.len(), 385);
    assert_eq!(pool.total_staked, 386);
}

#[test]
fn history_keeps_the_newest_588_events() {
    let mut pool = new_pool();
    let mut state = new_staker(&pool, 20);
    for t in 0..600u64 {
        staking(&mut pool, pool_key(), &mut state, participant(), 1, 1, t).unwrap();
    }
    assert_eq!(state.history.len(), 588);
    let h = state.history.to_vec();
    assert_eq!(h.len(), 588);
    for (k, e) in h.iter().enumerate() {
        assert_eq!(e.time, 12 + k as u64);
    }
    unstaking(&mut pool, pool_key(), &mut state, participant(), 600, 600).unwrap();
    let h = state.history.to_vec();
    assert_eq!(h[0].time, 13);
    assert_eq!(h[587].action, HistoryAction::Unstake);
    assert_eq!(h[587].amount, 600);
}

#[test]
fn unstake_errors() {
    let mut pool = new_pool();
    let mut state = new_staker(&pool, 20);
    assert_eq!(
        unstaking(&mut pool, pool_key(), &mut state, participant(), 5, 0),
        Err(StakingErrors::StakerNotFound)
    );
    staking(&mut pool, pool_key(), &mut state, participant(), 500, 500, 0).unwrap();
    assert_eq!(
        unstaking(&mut pool, addr(11), &mut state, participant(), 5, 0),
        Err(StakingErrors::InvalidStakingAccount)
    );
    assert_eq!(
        unstaking(&mut pool, pool_key(), &mut state, addr(31), 5, 0),
        Err(StakingErrors::Unauthorized)
    );
    pool.total_staked = 100;
    assert_eq!(
        unstaking(&mut pool, pool_key(), &mut state, participant(), 200, 0),
        Err(StakingErrors::InsufficientEscrowBalance)
    );
}

#[test]
fn partial_unstake_credits_reward_and_fund_checks_pending() {
    let mut pool = new_pool();
    let mut state = new_staker(&pool, 20);
    staking(&mut pool, pool_key(), &mut state, participant(), 1_000_000, 1_000_000, 0).unwrap();
    funding(&mut pool, funder(), 100_000, 0, 100_000, WINDOW, 0).unwrap();
    let t = unstaking(&mut pool, pool_key(), &mut state, participant(), 400_000, WINDOW).unwrap();
    assert_eq!(t, vec![Transfer { from: Vault::Escrow, to: Vault::StakerWallet, amount: 400_000 }]);
    assert_eq!(pool.stakers[0].staked_amount, 600_000);
    assert_eq!(pool.stakers[0].gained_reward, 40_000);
    assert_eq!(pool.stakers[0].staked_time, 0);
    assert_eq!(pool.total_staked, 600_000);
    assert_eq!(state.total_staked, 600_000);
    assert_eq!(state.total_rewarded, 0);
    assert_eq!(
        funding(&mut pool, funder(), 10, 0, 10, WINDOW, WINDOW),
        Err(StakingErrors::InvariantViolation)
    );
    assert_eq!(pool.pool_reward, 100_000);
    assert_eq!(pool.stakers[0].gained_reward, 40_000);
}

#[test]
fn fund_closes_window_and_accrues_rewards() {
    let mut pool = new_pool();
    let mut state = new_staker(&pool, 20);
    staking(&mut pool, pool_key(), &mut state, participant(), 1_000_000, 1_000_000, 0).unwrap();
    funding(&mut pool, funder(), 100_000, 0, 100_000, WINDOW, 0).unwrap();
    funding(&mut pool, funder(), 50_000, 100_000, 50_000, WINDOW, WINDOW).unwrap();
    assert_eq!(pool.stakers[0].gained_reward, 100_000);
    assert_eq!(pool.stakers[0].staked_time, WINDOW);
    assert_eq!(pool.pool_reward, 50_000);
    assert_eq!(pool.total_funded, 150_000);
    assert_eq!(pool.timeframe_started, WINDOW);
    assert_eq!(pool.timeframe_in_second, WINDOW);

    let t = claim_reward(&mut pool, pool_key(), &mut state, participant(), 40_000, WINDOW + 1).unwrap();
    assert_eq!(t, vec![Transfer { from: Vault::Rewarder, to: Vault::StakerWallet, amount: 40_000 }]);
    assert_eq!(pool.stakers[0].gained_reward, 60_000);
    assert_eq!(pool.total_reward_paid, 40_000);
    assert_eq!(state.total_rewarded, 40_000);
    assert_eq!(state.last_rewarded, WINDOW + 1);
    let h = state.history.to_vec();
    assert_eq!(h[h.len() - 1].action, HistoryAction::Claim);
    assert_eq!(h[h.len() - 1].amount, 40_000);
}

#[test]
fn fund_again_without_elapsed_time_accrues_nothing() {
    let mut pool = new_pool();
    let mut state = new_staker(&pool, 20);
    staking(&mut pool, pool_key(), &mut state, participant(), 1_000_000, 1_000_000, 100).unwrap();
    funding(&mut pool, funder(), 100_000, 0, 100_000, WINDOW, 100).unwrap();
    funding(&mut pool, funder(), 100_000, 100_000, 100_000, WINDOW, 100).unwrap();
    assert_eq!(pool.stakers[0].gained_reward, 0);
    assert_eq!(pool.stakers[0].staked_time, 100);
    assert_eq!(pool.pool_reward, 200_000);
}

#[test]
fn fund_errors() {
    let mut pool = initialize(owner(), funder(), addr(3), addr(4), addr(5), 1000, 1000, DAY).unwrap();
    assert_eq!(funding(&mut pool, addr(9), 10, 0, 10, WINDOW, 0), Err(StakingErrors::Unauthorized));
    assert_eq!(funding(&mut pool, funder(), 10, 0, 0, WINDOW, 0), Err(StakingErrors::AmountMustBePositive));
    assert_eq!(funding(&mut pool, funder(), 10, 0, 10, 999, 0), Err(StakingErrors::WindowBelowMinimum));
    assert_eq!(funding(&mut pool, funder(), 10, 0, 10, DAY - 1, 0), Err(StakingErrors::WindowBelowStakePeriod));
    assert_eq!(funding(&mut pool, funder(), 9, 0, 10, WINDOW, 0), Err(StakingErrors::InsufficientBalance));
    assert_eq!(
        funding(&mut pool, funder(), 10, 0, 10, WINDOW, u64::MAX - 5),
        Err(StakingErrors::InvariantViolation)
    );
    assert_eq!(pool.timeframe_in_second, 0);
    assert_eq!(pool.total_funded, 0);
}

#[test]
fn claim_errors() {
    let mut pool = new_pool();
    let mut state = new_staker(&pool, 20);
    assert_eq!(
        claim_reward(&mut pool, pool_key(), &mut state, participant(), 1, 0),
        Err(StakingErrors::StakerNotFound)
    );
    staking(&mut pool, pool_key(), &mut state, participant(), 500, 500, 0).unwrap();
    assert_eq!(
        claim_reward(&mut pool, pool_key(), &mut state, participant(), 0, 0),
        Err(StakingErrors::AmountMustBePositive)
    );
    assert_eq!(
        claim_reward(&mut pool, pool_key(), &mut state, participant(), 1, 0),
        Err(StakingErrors::InsufficientGainedReward)
    );
    assert_eq!(
        claim_reward(&mut pool, pool_key(), &mut state, addr(31), 1, 0),
        Err(StakingErrors::Unauthorized)
    );
}

#[test]
fn change_setting_rules() {
    let mut pool = new_pool();
    assert_eq!(set_max_apy(&mut pool, addr(9), 2000, DAY), Err(StakingErrors::Unauthorized));
    assert_eq!(set_max_apy(&mut pool, owner(), 10_000, DAY), Err(StakingErrors::InvalidPolicy));
    assert_eq!(set_max_apy(&mut pool, owner(), 2000, 0), Err(StakingErrors::InvalidPolicy));
    assert_eq!(set_max_apy(&mut pool, owner(), 2000, 10 * WINDOW), Ok(()));
    assert_eq!(pool.apy_max, 2000);
    assert_eq!(pool.min_stake_period, 10 * WINDOW);
    set_max_apy(&mut pool, owner(), 2000, DAY).unwrap();
    funding(&mut pool, funder(), 10, 0, 10, WINDOW, 0).unwrap();
    assert_eq!(set_max_apy(&mut pool, owner(), 2000, WINDOW + 1), Err(StakingErrors::InvalidPolicy));
    assert_eq!(pool.min_stake_period, DAY);
    assert_eq!(set_max_apy(&mut pool, owner(), 500, WINDOW), Ok(()));
    assert_eq!(pool.apy_max, 500);
}

#[test]
fn stored_ledger_is_checked_for_well_formedness() {
    let mut pool = new_pool();
    let mut a = new_staker(&pool, 20);
    let mut b = new_staker(&pool, 21);
    staking(&mut pool, pool_key(), &mut a, participant(), 100, 60, 0).unwrap();
    staking(&mut pool, pool_key(), &mut b, participant(), 100, 40, 0).unwrap();
    assert!(pool.is_well_formed());
    pool.total_staked = 99;
    assert!(!pool.is_well_formed());
    pool.total_staked = 100;
    pool.stakers[1].staker_crc = pool.stakers[0].staker_crc;
    assert!(!pool.is_well_formed());
    pool.stakers[1].staker_crc = b.my_crc;
    pool.apy_max = 10_000;
    assert!(!pool.is_well_formed());
    pool.apy_max = 1000;
    assert!(pool.is_well_formed());
    assert_eq!(pool.index_of_staker(b.my_crc), 1);
    assert_eq!(pool.index_of_staker(a.my_crc), 0);
    assert_eq!(pool.index_of_staker(12345), -1);
}

fn late_stake_then_fund_after_window(min_stake_period: u64) -> (StakingData, StakingState) {
    let mut pool = initialize(owner(), funder(), addr(3), addr(4), addr(5), 9999, 1, min_stake_period).unwrap();
    let mut state = new_staker(&pool, 20);
    funding(&mut pool, funder(), 1000, 0, 1000, 100, 0).unwrap();
    staking(&mut pool, pool_key(), &mut state, participant(), 1000, 1000, 90).unwrap();
    funding(&mut pool, funder(), 1000, 1000, 1000, 100, 200).unwrap();
    (pool, state)
}

#[test]
fn closing_accrues_only_up_to_the_window_end() {
    let (pool, _) = late_stake_then_fund_after_window(1);
    assert_eq!(pool.stakers[0].gained_reward, 100);
    assert_eq!(pool.stakers[0].staked_time, 200);
    assert_eq!(pool.pool_reward, 1000 - 100 + 1000);
}

#[test]
fn closing_time_in_window_below_min_period_earns_nothing() {
    let (pool, _) = late_stake_then_fund_after_window(50);
    assert_eq!(pool.stakers[0].gained_reward, 0);
    assert_eq!(pool.stakers[0].staked_time, 90);
    assert_eq!(pool.pool_reward, 2000);
}
