//! Settlement tests: the percentage-split payouts, pro-rata bet winnings,
//! cancellation refunds, and the one-claim-per-account guard.

use championship_escrow::config::MIN_FEE;
use championship_escrow::errors::EscrowError;
use championship_escrow::escrow::ChampionshipEscrow;
use championship_escrow::settle::compute_payout;

const PLATFORM: u64 = 1;
const CREATOR: u64 = 2;
const T1: u64 = 1_000;
const T2: u64 = 2_000;
const T3: u64 = 3_000;

fn fresh() -> ChampionshipEscrow {
    let mut esc = ChampionshipEscrow::new(PLATFORM);
    esc.create(1, CREATOR, MIN_FEE, T1, T2, T3, 500).unwrap();
    esc
}

fn enroll_n(esc: &mut ChampionshipEscrow, n: u64) {
    for k in 0..n {
        esc.enroll(1, 100 + k, 10 + k, MIN_FEE, 600).unwrap();
    }
}

#[test]
fn test_entry_payout_splits_pool_exactly() {
    // Three agents staking the entry fee each; A takes 2 votes, B takes 1,
    // C none; finalization picks A. The winner's owner, the creator and the
    // platform together drain the entry pool to the last unit: 95 + 4 + 1
    // percent leave no dust on a pool of three equal stakes.
    let mut esc = fresh();
    enroll_n(&mut esc, 3);
    esc.vote(1, 100, 201, 2_500, None).unwrap();
    esc.vote(1, 100, 202, 2_500, None).unwrap();
    esc.vote(1, 101, 203, 2_500, None).unwrap();
    let pool = 3 * MIN_FEE;
    let platform_cut = esc.finalize(1, 3_500).unwrap();
    assert_eq!(platform_cut.amount, pool * 1 / 100);
    let winner_pay = esc.claim(1, 10).unwrap();
    assert_eq!(winner_pay.to, 10);
    assert_eq!(winner_pay.amount, pool * 95 / 100);
    let creator_pay = esc.claim(1, CREATOR).unwrap();
    assert_eq!(creator_pay.amount, pool * 4 / 100);
    assert_eq!(
        winner_pay.amount + creator_pay.amount + platform_cut.amount,
        pool
    );
    // Everything owed against the entry pool left the vault; no dust here.
    assert_eq!(esc.vault, 0);
}

#[test]
fn test_pro_rata_bet_payouts_sum_exactly() {
    // Two bettors wager 300 and 700 on the eventual winner: the 95-percent
    // bet payout pool of 950 splits into 285 and 665, summing to exactly
    // 950.
    let mut esc = fresh();
    enroll_n(&mut esc, 3);
    esc.bet(1, 100, 21, 300, 1_500).unwrap();
    esc.bet(1, 100, 22, 700, 1_500).unwrap();
    esc.vote(1, 100, 201, 2_500, None).unwrap();
    esc.finalize(1, 3_500).unwrap();
    let pay21 = esc.claim(1, 21).unwrap();
    let pay22 = esc.claim(1, 22).unwrap();
    assert_eq!(pay21.amount, 285);
    assert_eq!(pay22.amount, 665);
    assert_eq!(pay21.amount + pay22.amount, 950);
}

#[test]
fn test_losing_bettor_gets_no_payout() {
    let mut esc = fresh();
    enroll_n(&mut esc, 3);
    esc.bet(1, 101, 21, 500, 1_500).unwrap();
    esc.vote(1, 100, 201, 2_500, None).unwrap();
    esc.finalize(1, 3_500).unwrap();
    assert_eq!(esc.claim(1, 21), Err(EscrowError::NoPayout));
}

#[test]
fn test_claimant_combines_roles() {
    // The creator also owns the winning agent: one claim pays both roles.
    let mut esc = fresh();
    esc.enroll(1, 100, CREATOR, MIN_FEE, 600).unwrap();
    esc.enroll(1, 101, 11, MIN_FEE, 600).unwrap();
    esc.enroll(1, 102, 12, MIN_FEE, 600).unwrap();
    esc.bet(1, 100, 21, 1_000, 1_500).unwrap();
    esc.vote(1, 100, 201, 2_500, None).unwrap();
    esc.finalize(1, 3_500).unwrap();
    let pool = 3 * MIN_FEE;
    let pay = esc.claim(1, CREATOR).unwrap();
    assert_eq!(pay.amount, pool * 95 / 100 + pool * 4 / 100 + 1_000 * 2 / 100);
}

#[test]
fn test_no_double_claim() {
    // A second claim for the same challenge and account always fails,
    // on the finalized branch and on the cancelled branch alike.
    let mut esc = fresh();
    enroll_n(&mut esc, 3);
    esc.vote(1, 100, 201, 2_500, None).unwrap();
    esc.finalize(1, 3_500).unwrap();
    esc.claim(1, 10).unwrap();
    assert_eq!(esc.claim(1, 10), Err(EscrowError::AlreadyExists));

    let mut esc2 = ChampionshipEscrow::new(PLATFORM);
    esc2.create(7, CREATOR, MIN_FEE, T1, T2, T3, 500).unwrap();
    esc2.enroll(7, 100, 10, MIN_FEE, 600).unwrap();
    esc2.enroll(7, 101, 11, MIN_FEE, 600).unwrap();
    esc2.cancel(7, 1_500).unwrap();
    esc2.claim(7, 10).unwrap();
    assert_eq!(esc2.claim(7, 10), Err(EscrowError::AlreadyExists));
}

#[test]
fn test_cancellation_refunds_entry_fees() {
    // Two agents below the quorum of three: after enrollment ends, anyone
    // cancels, and each owner's claim refunds exactly the entry fee. No bets
    // exist: betting needs the competition phase, unreachable before the
    // enrollment boundary of a cancelled-at-quorum challenge.
    let mut esc = fresh();
    enroll_n(&mut esc, 2);
    esc.cancel(1, 1_500).unwrap();
    let pay10 = esc.claim(1, 10).unwrap();
    assert_eq!(pay10.amount, MIN_FEE);
    let pay11 = esc.claim(1, 11).unwrap();
    assert_eq!(pay11.amount, MIN_FEE);
    assert_eq!(esc.vault, 0);
}

#[test]
fn test_cancellation_refunds_bets() {
    // A challenge that reached the competition phase with bets placed can
    // still end below quorum after withdrawals; cancellation then refunds
    // stakes and wagers.
    let mut esc = fresh();
    enroll_n(&mut esc, 3);
    esc.bet(1, 100, 21, 300, 1_500).unwrap();
    esc.bet(1, 101, 21, 200, 1_500).unwrap();
    esc.withdraw(1, 102, 12, 1_500).unwrap();
    esc.cancel(1, 2_500).unwrap();
    let pay = esc.claim(1, 21).unwrap();
    assert_eq!(pay.amount, 500);
    let pay10 = esc.claim(1, 10).unwrap();
    assert_eq!(pay10.amount, MIN_FEE);
}

#[test]
fn test_withdrawn_owner_keeps_no_cancellation_refund() {
    // An owner that exited through the withdrawal path took the reduced
    // refund already; at cancellation its entry-fee claim is void, and with
    // no wagers the claim reports nothing to pay.
    let mut esc = fresh();
    enroll_n(&mut esc, 3);
    esc.withdraw(1, 102, 12, 1_500).unwrap();
    esc.cancel(1, 2_500).unwrap();
    assert_eq!(esc.claim(1, 12), Err(EscrowError::NoPayout));
}

#[test]
fn test_compute_payout_pure() {
    let mut esc = fresh();
    enroll_n(&mut esc, 3);
    esc.vote(1, 100, 201, 2_500, None).unwrap();
    esc.finalize(1, 3_500).unwrap();
    let c = esc.get_challenge(1).unwrap();
    assert_eq!(compute_payout(c, 10), Ok(3 * MIN_FEE * 95 / 100));
    assert_eq!(compute_payout(c, 999), Ok(0));
}
