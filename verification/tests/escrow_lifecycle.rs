//! Lifecycle tests of the settlement engine: creation, enrollment, betting,
//! voting, the terminal transitions, and the winner tie-break.

use championship_escrow::challenge::Agent;
use championship_escrow::config::{EC, EP, EW, BC, BP, BW, MIN_FEE, PEEK_FEE_PCT, REFUND_PCT};
use championship_escrow::errors::EscrowError;
use championship_escrow::escrow::ChampionshipEscrow;
use championship_escrow::phase::{phase, Phase};
use championship_escrow::registry::select_winner;

const PLATFORM: u64 = 1;
const CREATOR: u64 = 2;
const T1: u64 = 1_000;
const T2: u64 = 2_000;
const T3: u64 = 3_000;

fn fresh() -> ChampionshipEscrow {
    let mut esc = ChampionshipEscrow::new(PLATFORM);
    esc.create(1, CREATOR, MIN_FEE, T1, T2, T3, 500).unwrap();
    esc
}

fn enroll_n(esc: &mut ChampionshipEscrow, n: u64) {
    for k in 0..n {
        esc.enroll(1, 100 + k, 10 + k, MIN_FEE, 600).unwrap();
    }
}

#[test]
fn test_create() {
    let mut esc = ChampionshipEscrow::new(PLATFORM);
    esc.create(
        1,
        CREATOR,
        MIN_FEE,
        2_000_000_000,
        3_000_000_000,
        4_000_000_000,
        1_000_000_000,
    )
    .unwrap();
    let c = esc.get_challenge(1).unwrap();
    assert_eq!(c.creator, CREATOR);
    assert_eq!(c.entry_fee, MIN_FEE);
}

#[test]
fn test_double_create() {
    let mut esc = ChampionshipEscrow::new(PLATFORM);
    esc.create(1, CREATOR, MIN_FEE, 2_000_000_000, 3_000_000_000, 4_000_000_000, 1_000_000_000)
        .unwrap();
    let r = esc.create(1, CREATOR, MIN_FEE, 2_000_000_000, 3_000_000_000, 4_000_000_000,
        1_000_000_000);
    assert_eq!(r, Err(EscrowError::AlreadyExists));
}

#[test]
fn test_phase_clock_boundaries() {
    assert_eq!(phase(0, T1, T2, T3), Phase::Enrollment);
    assert_eq!(phase(T1, T1, T2, T3), Phase::Enrollment);
    assert_eq!(phase(T1 + 1, T1, T2, T3), Phase::Competition);
    assert_eq!(phase(T2, T1, T2, T3), Phase::Competition);
    assert_eq!(phase(T2 + 1, T1, T2, T3), Phase::Judging);
    assert_eq!(phase(T3, T1, T2, T3), Phase::Judging);
    assert_eq!(phase(T3 + 1, T1, T2, T3), Phase::Closed);
}

#[test]
fn test_split_percentages_sum_to_100() {
    assert_eq!(EW + EC + EP, 100);
    assert_eq!(BW + BC + BP, 100);
    assert_eq!(REFUND_PCT + PEEK_FEE_PCT, 100);
}

#[test]
fn test_enroll_builds_pool() {
    let mut esc = fresh();
    enroll_n(&mut esc, 3);
    let c = esc.get_challenge(1).unwrap();
    assert_eq!(c.total_entry_pool, 3 * MIN_FEE);
    assert_eq!(esc.get_agent_count(1), 3);
    assert_eq!(esc.vault, 3 * MIN_FEE);
}

#[test]
fn test_bet_builds_pools() {
    let mut esc = fresh();
    enroll_n(&mut esc, 3);
    esc.bet(1, 100, 21, 300, 1_500).unwrap();
    esc.bet(1, 101, 22, 700, 1_500).unwrap();
    esc.bet(1, 100, 21, 50, 1_500).unwrap();
    let c = esc.get_challenge(1).unwrap();
    assert_eq!(c.total_bet_pool, 1_050);
    let k = c.find_bet(21, 0).unwrap();
    assert_eq!(c.bets[k].amount, 350);
    let t = c.find_bet_total(21).unwrap();
    assert_eq!(c.bet_totals[t].total, 350);
    assert_eq!(c.agents[0].bet_pool, 350);
    assert_eq!(c.agents[1].bet_pool, 700);
}

#[test]
fn test_vote_counts_once_per_account() {
    let mut esc = fresh();
    enroll_n(&mut esc, 3);
    esc.vote(1, 100, 201, 2_500, None).unwrap();
    esc.vote(1, 100, 202, 2_500, None).unwrap();
    esc.vote(1, 101, 203, 2_500, None).unwrap();
    let c = esc.get_challenge(1).unwrap();
    assert_eq!(c.agents[0].vote_count, 2);
    assert_eq!(c.agents[1].vote_count, 1);
    assert!(c.has_voted(201));
    assert!(!c.has_voted(299));
}

#[test]
fn test_tie_break_first_to_reach_maximum_wins() {
    // Vote counts [A:3, B:3, C:5, D:5] in enrollment order resolve to C, the
    // first agent to reach the maximum, never D.
    let agents = vec![
        Agent { id: 100, owner: 10, vote_count: 3, bet_pool: 0, withdrawn: false },
        Agent { id: 101, owner: 11, vote_count: 3, bet_pool: 0, withdrawn: false },
        Agent { id: 102, owner: 12, vote_count: 5, bet_pool: 0, withdrawn: false },
        Agent { id: 103, owner: 13, vote_count: 5, bet_pool: 0, withdrawn: false },
    ];
    assert_eq!(select_winner(&agents), 2);
}

#[test]
fn test_tie_break_through_full_lifecycle() {
    let mut esc = fresh();
    enroll_n(&mut esc, 4);
    let mut voter = 300;
    for (agent, votes) in [(100u64, 3u64), (101, 3), (102, 5), (103, 5)] {
        for _ in 0..votes {
            esc.vote(1, agent, voter, 2_500, None).unwrap();
            voter += 1;
        }
    }
    esc.finalize(1, 3_500).unwrap();
    let c = esc.get_challenge(1).unwrap();
    assert!(c.finalized);
    assert_eq!(c.winner_index, 2);
    assert_eq!(c.winner_agent_id(), 102);
    assert_eq!(c.winner_owner(), 12);
}

#[test]
fn test_finalize_pays_platform_cut() {
    let mut esc = fresh();
    enroll_n(&mut esc, 3);
    esc.bet(1, 100, 21, 1_000, 1_500).unwrap();
    esc.vote(1, 100, 201, 2_500, None).unwrap();
    let vault_before = esc.vault;
    let transfer = esc.finalize(1, 3_500).unwrap();
    assert_eq!(transfer.to, PLATFORM);
    // EP percent of the entry pool plus BP percent of the bet pool, floored.
    let expected = (3 * MIN_FEE) * EP / 100 + 1_000 * BP / 100;
    assert_eq!(transfer.amount, expected);
    assert_eq!(esc.vault, vault_before - expected);
}

#[test]
fn test_cancel_below_quorum() {
    let mut esc = fresh();
    enroll_n(&mut esc, 2);
    esc.cancel(1, 1_500).unwrap();
    let c = esc.get_challenge(1).unwrap();
    assert!(c.cancelled);
    assert!(!c.finalized);
}

#[test]
fn test_withdraw_splits_and_shrinks_pool() {
    // Withdrawal mid-competition: the owner takes REFUND_PCT percent of the
    // fee, the platform PEEK_FEE_PCT percent, and the full fee leaves the
    // entry pool.
    let mut esc = fresh();
    enroll_n(&mut esc, 4);
    let out = esc.withdraw(1, 100, 10, 1_500).unwrap();
    assert_eq!(out.refund.to, 10);
    assert_eq!(out.refund.amount, MIN_FEE * REFUND_PCT / 100);
    assert_eq!(out.peek_fee.to, PLATFORM);
    assert_eq!(out.peek_fee.amount, MIN_FEE * PEEK_FEE_PCT / 100);
    let c = esc.get_challenge(1).unwrap();
    assert_eq!(c.total_entry_pool, 3 * MIN_FEE);
    assert!(c.agents[0].withdrawn);
    assert_eq!(c.active_agent_count(), 3);
}

#[test]
fn test_withdrawn_stake_excluded_from_finalize() {
    let mut esc = fresh();
    enroll_n(&mut esc, 4);
    esc.withdraw(1, 100, 10, 1_500).unwrap();
    esc.vote(1, 101, 201, 2_500, None).unwrap();
    let transfer = esc.finalize(1, 3_500).unwrap();
    // The platform's entry-pool percentage is taken from three stakes, not
    // four: the withdrawn stake is gone entirely.
    assert_eq!(transfer.amount, (3 * MIN_FEE) * EP / 100);
}

#[test]
fn test_withdrawn_agent_cannot_win() {
    let mut esc = fresh();
    enroll_n(&mut esc, 4);
    esc.withdraw(1, 100, 10, 1_500).unwrap();
    // Winner selection skips the withdrawn seat even though it comes first
    // in enrollment order.
    esc.vote(1, 101, 201, 2_500, None).unwrap();
    esc.finalize(1, 3_500).unwrap();
    let c = esc.get_challenge(1).unwrap();
    assert_eq!(c.winner_index, 1);
}
