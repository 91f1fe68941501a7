//! One rejection per error tag of the settlement engine, with the inputs
//! that provoke it.

use championship_escrow::config::MIN_FEE;
use championship_escrow::errors::EscrowError;
use championship_escrow::escrow::ChampionshipEscrow;

const PLATFORM: u64 = 1;
const CREATOR: u64 = 2;
const T1: u64 = 1_000;
const T2: u64 = 2_000;
const T3: u64 = 3_000;

fn fresh() -> ChampionshipEscrow {
    let mut esc = ChampionshipEscrow::new(PLATFORM);
    esc.create(1, CREATOR, MIN_FEE, T1, T2, T3, 500).unwrap();
    esc
}

fn enroll_n(esc: &mut ChampionshipEscrow, n: u64) {
    for k in 0..n {
        esc.enroll(1, 100 + k, 10 + k, MIN_FEE, 600).unwrap();
    }
}

#[test]
fn test_not_found_on_absent_challenge() {
    let mut esc = ChampionshipEscrow::new(PLATFORM);
    assert_eq!(esc.enroll(9, 100, 10, MIN_FEE, 600), Err(EscrowError::NotFound));
    assert_eq!(esc.cancel(9, 1_500), Err(EscrowError::NotFound));
    assert_eq!(esc.claim(9, 10), Err(EscrowError::NotFound));
    assert!(esc.get_challenge(9).is_none());
    assert_eq!(esc.get_agent_count(9), 0);
}

#[test]
fn test_not_found_on_absent_agent() {
    let mut esc = fresh();
    enroll_n(&mut esc, 3);
    assert_eq!(esc.bet(1, 999, 21, 100, 1_500), Err(EscrowError::NotFound));
    assert_eq!(esc.vote(1, 999, 201, 2_500, None), Err(EscrowError::NotFound));
    assert_eq!(esc.withdraw(1, 999, 10, 1_500), Err(EscrowError::NotFound));
}

#[test]
fn test_invalid_config_low_fee() {
    let mut esc = ChampionshipEscrow::new(PLATFORM);
    let r = esc.create(1, CREATOR, MIN_FEE - 1, T1, T2, T3, 500);
    assert_eq!(r, Err(EscrowError::InvalidConfig));
}

#[test]
fn test_invalid_config_bad_timestamps() {
    let mut esc = ChampionshipEscrow::new(PLATFORM);
    // The enrollment boundary lies in the past.
    assert_eq!(
        esc.create(1, CREATOR, MIN_FEE, 400, T2, T3, 500),
        Err(EscrowError::InvalidConfig)
    );
    // The boundaries do not strictly increase.
    assert_eq!(
        esc.create(1, CREATOR, MIN_FEE, T1, T1, T3, 500),
        Err(EscrowError::InvalidConfig)
    );
    assert_eq!(
        esc.create(1, CREATOR, MIN_FEE, T1, T2, T2, 500),
        Err(EscrowError::InvalidConfig)
    );
    // Creation exactly at the enrollment boundary is allowed.
    assert!(esc.create(1, CREATOR, MIN_FEE, 500, T2, T3, 500).is_ok());
}

#[test]
fn test_already_exists_duplicates() {
    let mut esc = fresh();
    enroll_n(&mut esc, 3);
    // Duplicate agent id.
    assert_eq!(esc.enroll(1, 100, 30, MIN_FEE, 600), Err(EscrowError::AlreadyExists));
    // One enrollment per account.
    assert_eq!(esc.enroll(1, 150, 10, MIN_FEE, 600), Err(EscrowError::AlreadyExists));
    // One vote per account.
    esc.vote(1, 100, 201, 2_500, None).unwrap();
    assert_eq!(esc.vote(1, 101, 201, 2_500, None), Err(EscrowError::AlreadyExists));
}

#[test]
fn test_wrong_phase_everywhere() {
    let mut esc = fresh();
    enroll_n(&mut esc, 3);
    // Enrollment after its boundary.
    assert_eq!(esc.enroll(1, 150, 30, MIN_FEE, 1_500), Err(EscrowError::WrongPhase));
    // Betting during enrollment and during judging.
    assert_eq!(esc.bet(1, 100, 21, 50, 600), Err(EscrowError::WrongPhase));
    assert_eq!(esc.bet(1, 100, 21, 50, 2_500), Err(EscrowError::WrongPhase));
    // Voting during competition.
    assert_eq!(esc.vote(1, 100, 201, 1_500, None), Err(EscrowError::WrongPhase));
    // Withdrawal outside competition.
    assert_eq!(esc.withdraw(1, 100, 10, 600), Err(EscrowError::WrongPhase));
    // Cancellation while enrollment still runs.
    assert_eq!(esc.cancel(1, 600), Err(EscrowError::WrongPhase));
    // Finalization before judging ends.
    assert_eq!(esc.finalize(1, 2_500), Err(EscrowError::WrongPhase));
}

#[test]
fn test_state_conflict_on_terminal_and_quorum() {
    let mut esc = fresh();
    enroll_n(&mut esc, 3);
    // Quorum met: cancellation refused.
    assert_eq!(esc.cancel(1, 1_500), Err(EscrowError::StateConflict));
    // Below quorum: finalization refused.
    let mut esc2 = ChampionshipEscrow::new(PLATFORM);
    esc2.create(2, CREATOR, MIN_FEE, T1, T2, T3, 500).unwrap();
    esc2.enroll(2, 100, 10, MIN_FEE, 600).unwrap();
    assert_eq!(esc2.finalize(2, 3_500), Err(EscrowError::StateConflict));
    // Terminal challenges reject further play.
    esc2.cancel(2, 1_500).unwrap();
    assert_eq!(esc2.enroll(2, 101, 11, MIN_FEE, 600), Err(EscrowError::StateConflict));
    assert_eq!(esc2.cancel(2, 1_500), Err(EscrowError::StateConflict));
    assert_eq!(esc2.finalize(2, 3_500), Err(EscrowError::StateConflict));
    // A withdrawn agent rejects bets and repeat withdrawals.
    esc.withdraw(1, 100, 10, 1_500).unwrap();
    assert_eq!(esc.bet(1, 100, 21, 50, 1_500), Err(EscrowError::StateConflict));
    assert_eq!(esc.withdraw(1, 100, 10, 1_500), Err(EscrowError::StateConflict));
}

#[test]
fn test_payment_mismatch() {
    let mut esc = fresh();
    assert_eq!(esc.enroll(1, 100, 10, MIN_FEE - 1, 600), Err(EscrowError::PaymentMismatch));
    assert_eq!(esc.enroll(1, 100, 10, MIN_FEE + 1, 600), Err(EscrowError::PaymentMismatch));
    enroll_n(&mut esc, 3);
    assert_eq!(esc.bet(1, 100, 21, 0, 1_500), Err(EscrowError::PaymentMismatch));
}

#[test]
fn test_unauthorized() {
    let mut esc = fresh();
    enroll_n(&mut esc, 3);
    // Only the owner may withdraw its agent.
    assert_eq!(esc.withdraw(1, 100, 11, 1_500), Err(EscrowError::Unauthorized));
    // The balance rule, where the host supplies a balance, rejects a poor
    // voter; a rich one passes; an absent capability means no rule.
    assert_eq!(esc.vote(1, 100, 201, 2_500, Some(0)), Err(EscrowError::Unauthorized));
    assert!(esc.vote(1, 100, 201, 2_500, Some(u64::MAX)).is_ok());
    assert!(esc.vote(1, 100, 202, 2_500, None).is_ok());
}

#[test]
fn test_arithmetic_overflow_rejected() {
    let mut esc = fresh();
    enroll_n(&mut esc, 3);
    // A wager this large would overflow the vault; the whole call aborts
    // with no partial mutation.
    let before_pool = esc.get_challenge(1).unwrap().total_bet_pool;
    assert_eq!(esc.bet(1, 100, 21, u64::MAX, 1_500), Err(EscrowError::Arithmetic));
    assert_eq!(esc.get_challenge(1).unwrap().total_bet_pool, before_pool);
}

#[test]
fn test_no_payout_for_stranger() {
    let mut esc = fresh();
    enroll_n(&mut esc, 3);
    esc.vote(1, 100, 201, 2_500, None).unwrap();
    esc.finalize(1, 3_500).unwrap();
    assert_eq!(esc.claim(1, 999), Err(EscrowError::NoPayout));
}

#[test]
fn test_insufficient_funds_signals_invariant_breach() {
    // Drain the vault behind the engine's back: the next settlement sees a
    // custodial balance short of its obligation and reports the breach.
    let mut esc = fresh();
    enroll_n(&mut esc, 3);
    esc.vote(1, 100, 201, 2_500, None).unwrap();
    esc.finalize(1, 3_500).unwrap();
    esc.vault = 0;
    assert_eq!(esc.claim(1, 10), Err(EscrowError::InsufficientFunds));
}

#[test]
fn test_terminal_challenge_rejects_enrollment() {
    // Even a clock that runs backwards cannot reopen a finalized challenge
    // for enrollment: the terminal state is checked, not just the phase.
    let mut esc = fresh();
    enroll_n(&mut esc, 3);
    esc.vote(1, 100, 201, 2_500, None).unwrap();
    esc.finalize(1, 3_500).unwrap();
    assert_eq!(esc.enroll(1, 150, 30, MIN_FEE, 600), Err(EscrowError::StateConflict));
}

