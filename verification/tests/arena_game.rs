//! Table-game tests: the session lifecycle from creation through play to
//! payouts and refunds.

use championship_escrow::arena::{
    Addr, Arena, TableState, ACT_CALL, ACT_CHECK, ACT_FOLD, ACT_RAISE, addr_eq,
};
use championship_escrow::arena_action::handle_action;
use championship_escrow::arena_claims::{
    handle_claim_bet_winnings, handle_claim_chips, handle_claim_prize, handle_refund,
};
use championship_escrow::arena_play::{handle_deal, handle_resolve_hand};
use championship_escrow::arena_table::{
    handle_cancel, handle_create_table, handle_end_session, handle_join_table, handle_place_bet,
    handle_update_dealer,
};
use championship_escrow::errors::ArenaError;

fn addr(tag: u8) -> Addr {
    let mut a = [0u8; 20];
    a[19] = tag;
    a
}

const NOW: u64 = 10_000;

fn fresh_table() -> (Arena, u32) {
    // Dealer and platform are address 1; buy-in 1_000, up to 4 seats, 3
    // hands per session, bets open until NOW + 100; prize pool 50_000.
    let mut a = Arena::new(addr(1));
    let tid = handle_create_table(&mut a, addr(2), 50_000, NOW, 1_000, 4, 3, NOW + 100).unwrap();
    (a, tid)
}

fn seat_three(a: &mut Arena, tid: u32) {
    handle_join_table(a, tid, addr(10), 1_000).unwrap();
    handle_join_table(a, tid, addr(11), 1_000).unwrap();
    handle_join_table(a, tid, addr(12), 1_000).unwrap();
}

#[test]
fn test_addr_eq() {
    assert!(addr_eq(&addr(5), &addr(5)));
    assert!(!addr_eq(&addr(5), &addr(6)));
}

#[test]
fn test_create_table_validations() {
    let mut a = Arena::new(addr(1));
    assert_eq!(
        handle_create_table(&mut a, addr(2), 50_000, NOW, 0, 4, 3, NOW + 100),
        Err(ArenaError::InvalidInput)
    );
    assert_eq!(
        handle_create_table(&mut a, addr(2), 50_000, NOW, 1_000, 1, 3, NOW + 100),
        Err(ArenaError::InvalidInput)
    );
    assert_eq!(
        handle_create_table(&mut a, addr(2), 50_000, NOW, 1_000, 9, 3, NOW + 100),
        Err(ArenaError::InvalidInput)
    );
    assert_eq!(
        handle_create_table(&mut a, addr(2), 50_000, NOW, 1_000, 4, 0, NOW + 100),
        Err(ArenaError::InvalidInput)
    );
    assert_eq!(
        handle_create_table(&mut a, addr(2), 50_000, NOW, 1_000, 4, 3, NOW),
        Err(ArenaError::InvalidInput)
    );
    assert_eq!(
        handle_create_table(&mut a, addr(2), 0, NOW, 1_000, 4, 3, NOW + 100),
        Err(ArenaError::InvalidInput)
    );
    let tid = handle_create_table(&mut a, addr(2), 50_000, NOW, 1_000, 4, 3, NOW + 100).unwrap();
    assert_eq!(tid, 0);
    let t = &a.tables[0];
    assert_eq!(t.prize_pool, 50_000);
    assert_eq!(t.buy_in, 1_000);
    assert!(matches!(t.state, TableState::Open));
}

#[test]
fn test_join_table_seats_and_dedup() {
    let (mut a, tid) = fresh_table();
    assert_eq!(handle_join_table(&mut a, tid, addr(10), 1_000), Ok(0));
    assert_eq!(handle_join_table(&mut a, tid, addr(11), 1_000), Ok(1));
    assert_eq!(
        handle_join_table(&mut a, tid, addr(10), 1_000),
        Err(ArenaError::AlreadyExists)
    );
    assert_eq!(
        handle_join_table(&mut a, tid, addr(12), 999),
        Err(ArenaError::InvalidInput)
    );
    assert_eq!(handle_join_table(&mut a, 5, addr(12), 1_000), Err(ArenaError::NotFound));
    assert_eq!(a.tables[0].agents.len(), 2);
    assert_eq!(a.tables[0].agents[0].chips, 1_000);
}

#[test]
fn test_place_bet_accumulates() {
    let (mut a, tid) = fresh_table();
    seat_three(&mut a, tid);
    handle_place_bet(&mut a, tid, 0, addr(20), 300, NOW + 1).unwrap();
    handle_place_bet(&mut a, tid, 0, addr(21), 700, NOW + 1).unwrap();
    assert_eq!(a.tables[0].total_bet_pool, 1_000);
    assert_eq!(a.tables[0].agents[0].bet_total, 1_000);
    assert_eq!(a.tables[0].bets.len(), 2);
    // Past the deadline the book is closed.
    assert_eq!(
        handle_place_bet(&mut a, tid, 0, addr(22), 10, NOW + 100),
        Err(ArenaError::WrongState)
    );
    assert_eq!(
        handle_place_bet(&mut a, tid, 9, addr(22), 10, NOW + 1),
        Err(ArenaError::NotFound)
    );
    assert_eq!(
        handle_place_bet(&mut a, tid, 0, addr(22), 0, NOW + 1),
        Err(ArenaError::InvalidInput)
    );
}

#[test]
fn test_deal_starts_play() {
    let (mut a, tid) = fresh_table();
    seat_three(&mut a, tid);
    assert_eq!(
        handle_deal(&mut a, tid, addr(9), NOW + 2),
        Err(ArenaError::Unauthorized)
    );
    handle_deal(&mut a, tid, addr(1), NOW + 2).unwrap();
    let t = &a.tables[0];
    assert!(matches!(t.state, TableState::Playing));
    assert_eq!(t.current_hand, 1);
    assert_eq!(t.current_turn, 0);
    assert_eq!(t.active_count, 3);
    assert_eq!(t.last_action, NOW + 2);
}

#[test]
fn test_action_check_call_raise() {
    let (mut a, tid) = fresh_table();
    seat_three(&mut a, tid);
    handle_deal(&mut a, tid, addr(1), NOW + 2).unwrap();
    // Seat 0 checks (nothing to call), seat 1 raises 200, seat 2 calls.
    handle_action(&mut a, tid, addr(10), ACT_CHECK, 0, NOW + 3).unwrap();
    assert_eq!(a.tables[0].current_turn, 1);
    handle_action(&mut a, tid, addr(11), ACT_RAISE, 200, NOW + 4).unwrap();
    assert_eq!(a.tables[0].current_bet, 200);
    assert_eq!(a.tables[0].pot, 200);
    assert_eq!(a.tables[0].agents[1].chips, 800);
    handle_action(&mut a, tid, addr(12), ACT_CALL, 0, NOW + 5).unwrap();
    assert_eq!(a.tables[0].pot, 400);
    assert_eq!(a.tables[0].agents[2].chips, 800);
    // Back at seat 0: a check is no longer available.
    assert_eq!(
        handle_action(&mut a, tid, addr(10), ACT_CHECK, 0, NOW + 6),
        Err(ArenaError::InvalidInput)
    );
    // Acting out of turn is rejected.
    assert_eq!(
        handle_action(&mut a, tid, addr(11), ACT_CALL, 0, NOW + 6),
        Err(ArenaError::Unauthorized)
    );
}

#[test]
fn test_fold_to_one_resolves_hand() {
    let (mut a, tid) = fresh_table();
    handle_join_table(&mut a, tid, addr(10), 1_000).unwrap();
    handle_join_table(&mut a, tid, addr(11), 1_000).unwrap();
    handle_deal(&mut a, tid, addr(1), NOW + 2).unwrap();
    handle_action(&mut a, tid, addr(10), ACT_RAISE, 100, NOW + 3).unwrap();
    // Seat 1 folds; seat 0 is the last live seat and takes the pot.
    handle_action(&mut a, tid, addr(11), ACT_FOLD, 0, NOW + 4).unwrap();
    let t = &a.tables[0];
    assert_eq!(t.pot, 0);
    assert_eq!(t.agents[0].chips, 1_000);
    assert!(t.agents[1].folded);
}

#[test]
fn test_dealer_timeout_folds_kick() {
    let (mut a, tid) = fresh_table();
    seat_three(&mut a, tid);
    for hand in 0..3u64 {
        handle_deal(&mut a, tid, addr(1), NOW + 2 + hand).unwrap();
        // Seat 0 times out; the dealer folds on its behalf.
        assert_eq!(a.tables[0].current_turn, 0);
        handle_action(&mut a, tid, addr(1), ACT_FOLD, 0, NOW + 3 + hand).unwrap();
        if hand < 2 {
            assert_eq!(a.tables[0].agents[0].missed, hand as u8 + 1);
            assert!(!a.tables[0].agents[0].kicked);
            // Finish the hand so the next deal finds two live seats.
            handle_resolve_hand(&mut a, tid, 1, addr(1), NOW + 4 + hand).unwrap();
        }
    }
    // The third miss in a row kicks the seat and forfeits its chips to the
    // prize pool.
    let t = &a.tables[0];
    assert!(t.agents[0].kicked);
    assert_eq!(t.agents[0].chips, 0);
    assert_eq!(t.prize_pool, 51_000);
}

#[test]
fn test_resolve_hand_awards_pot() {
    let (mut a, tid) = fresh_table();
    seat_three(&mut a, tid);
    handle_deal(&mut a, tid, addr(1), NOW + 2).unwrap();
    handle_action(&mut a, tid, addr(10), ACT_RAISE, 500, NOW + 3).unwrap();
    handle_action(&mut a, tid, addr(11), ACT_CALL, 0, NOW + 4).unwrap();
    handle_action(&mut a, tid, addr(12), ACT_FOLD, 0, NOW + 5).unwrap();
    handle_resolve_hand(&mut a, tid, 1, addr(1), NOW + 6).unwrap();
    let t = &a.tables[0];
    assert_eq!(t.pot, 0);
    assert_eq!(t.agents[1].chips, 1_500);
    assert_eq!(t.agents[0].chips, 500);
}

#[test]
fn test_session_ends_after_session_len_hands() {
    let (mut a, tid) = fresh_table();
    seat_three(&mut a, tid);
    for hand in 0..3u64 {
        handle_deal(&mut a, tid, addr(1), NOW + 2 + hand).unwrap();
        handle_resolve_hand(&mut a, tid, 0, addr(1), NOW + 3 + hand).unwrap();
    }
    assert!(matches!(a.tables[0].state, TableState::Ended));
}

#[test]
fn test_end_session_by_dealer() {
    let (mut a, tid) = fresh_table();
    seat_three(&mut a, tid);
    assert_eq!(
        handle_end_session(&mut a, tid, addr(7)),
        Err(ArenaError::Unauthorized)
    );
    // An open session cancels; a playing one ends.
    handle_end_session(&mut a, tid, addr(1)).unwrap();
    assert!(matches!(a.tables[0].state, TableState::Cancelled));
    let (mut b, tid2) = fresh_table();
    seat_three(&mut b, tid2);
    handle_deal(&mut b, tid2, addr(1), NOW + 2).unwrap();
    handle_end_session(&mut b, tid2, addr(1)).unwrap();
    assert!(matches!(b.tables[0].state, TableState::Ended));
}

#[test]
fn test_permissionless_cancel() {
    // An open table whose betting deadline passed with no hand dealt.
    let (mut a, tid) = fresh_table();
    assert_eq!(handle_cancel(&mut a, tid, NOW + 50), Err(ArenaError::WrongState));
    handle_cancel(&mut a, tid, NOW + 101).unwrap();
    assert!(matches!(a.tables[0].state, TableState::Cancelled));
    // A playing table whose dealer went dark beyond the inactivity bound.
    let (mut b, tid2) = fresh_table();
    seat_three(&mut b, tid2);
    handle_deal(&mut b, tid2, addr(1), NOW + 2).unwrap();
    assert_eq!(handle_cancel(&mut b, tid2, NOW + 3_000), Err(ArenaError::WrongState));
    handle_cancel(&mut b, tid2, NOW + 2 + 3_601).unwrap();
    assert!(matches!(b.tables[0].state, TableState::Cancelled));
}

#[test]
fn test_update_dealer() {
    let mut a = Arena::new(addr(1));
    assert_eq!(
        handle_update_dealer(&mut a, addr(2), addr(3)),
        Err(ArenaError::Unauthorized)
    );
    handle_update_dealer(&mut a, addr(1), addr(3)).unwrap();
    assert!(addr_eq(&a.dealer, &addr(3)));
}

#[test]
fn test_claim_chips_after_end() {
    let (mut a, tid) = fresh_table();
    seat_three(&mut a, tid);
    handle_deal(&mut a, tid, addr(1), NOW + 2).unwrap();
    handle_end_session(&mut a, tid, addr(1)).unwrap();
    assert_eq!(handle_claim_chips(&mut a, tid, addr(10)), Ok(1_000));
    assert_eq!(
        handle_claim_chips(&mut a, tid, addr(10)),
        Err(ArenaError::AlreadyExists)
    );
    assert_eq!(
        handle_claim_chips(&mut a, tid, addr(99)),
        Err(ArenaError::NotFound)
    );
}

#[test]
fn test_claim_prize_splits_among_leaders() {
    let (mut a, tid) = fresh_table();
    seat_three(&mut a, tid);
    handle_deal(&mut a, tid, addr(1), NOW + 2).unwrap();
    // Seat 0 raises 100, seat 1 calls, seat 2 folds; the dealer resolves
    // the hand to seat 0, which ends richer than both others.
    handle_action(&mut a, tid, addr(10), ACT_RAISE, 100, NOW + 3).unwrap();
    handle_action(&mut a, tid, addr(11), ACT_CALL, 0, NOW + 4).unwrap();
    handle_action(&mut a, tid, addr(12), ACT_FOLD, 0, NOW + 5).unwrap();
    handle_resolve_hand(&mut a, tid, 0, addr(1), NOW + 6).unwrap();
    handle_end_session(&mut a, tid, addr(1)).unwrap();
    // Seat 0 holds 1_100 chips, the sole leader: the platform takes its 5
    // percent of the 50_000 prize pool once, the leader takes the rest.
    let pay = handle_claim_prize(&mut a, tid, addr(10)).unwrap();
    assert_eq!(pay.fee_to_platform, 2_500);
    assert_eq!(pay.payout_to_caller, 47_500);
    assert_eq!(
        handle_claim_prize(&mut a, tid, addr(10)),
        Err(ArenaError::AlreadyExists)
    );
    // A non-leader may not claim the prize.
    assert_eq!(
        handle_claim_prize(&mut a, tid, addr(11)),
        Err(ArenaError::Unauthorized)
    );
}

#[test]
fn test_claim_bet_winnings_pro_rata() {
    let (mut a, tid) = fresh_table();
    seat_three(&mut a, tid);
    handle_place_bet(&mut a, tid, 0, addr(20), 300, NOW + 1).unwrap();
    handle_place_bet(&mut a, tid, 0, addr(21), 700, NOW + 1).unwrap();
    handle_deal(&mut a, tid, addr(1), NOW + 2).unwrap();
    handle_action(&mut a, tid, addr(10), ACT_RAISE, 100, NOW + 3).unwrap();
    handle_action(&mut a, tid, addr(11), ACT_FOLD, 0, NOW + 4).unwrap();
    handle_action(&mut a, tid, addr(12), ACT_FOLD, 0, NOW + 5).unwrap();
    handle_end_session(&mut a, tid, addr(1)).unwrap();
    // The bet pool of 1_000 pays the platform 50 once; the 950 remainder
    // splits pro rata over the 1_000 staked on the winning seat.
    let pay20 = handle_claim_bet_winnings(&mut a, tid, addr(20)).unwrap();
    assert_eq!(pay20.fee_to_platform, 50);
    assert_eq!(pay20.payout_to_caller, 950 * 300 / 1_000);
    let pay21 = handle_claim_bet_winnings(&mut a, tid, addr(21)).unwrap();
    assert_eq!(pay21.fee_to_platform, 0);
    assert_eq!(pay21.payout_to_caller, 950 * 700 / 1_000);
    assert_eq!(
        handle_claim_bet_winnings(&mut a, tid, addr(20)),
        Err(ArenaError::NotFound)
    );
}

#[test]
fn test_refund_on_cancelled_session() {
    let (mut a, tid) = fresh_table();
    seat_three(&mut a, tid);
    handle_place_bet(&mut a, tid, 1, addr(20), 250, NOW + 1).unwrap();
    handle_cancel(&mut a, tid, NOW + 101).unwrap();
    // The creator takes the prize pool back, each seat its buy-in, each
    // bettor its stake; each exactly once.
    assert_eq!(handle_refund(&mut a, tid, addr(2)), Ok(50_000));
    assert_eq!(handle_refund(&mut a, tid, addr(2)), Err(ArenaError::NotFound));
    assert_eq!(handle_refund(&mut a, tid, addr(10)), Ok(1_000));
    assert_eq!(handle_refund(&mut a, tid, addr(10)), Err(ArenaError::NotFound));
    assert_eq!(handle_refund(&mut a, tid, addr(20)), Ok(250));
    assert_eq!(handle_refund(&mut a, tid, addr(20)), Err(ArenaError::NotFound));
}

#[test]
fn test_join_capacity_full() {
    let (mut a, tid) = fresh_table();
    for k in 0..4u8 {
        handle_join_table(&mut a, tid, addr(10 + k), 1_000).unwrap();
    }
    assert_eq!(
        handle_join_table(&mut a, tid, addr(30), 1_000),
        Err(ArenaError::CapacityFull)
    );
}

#[test]
fn test_bet_overflow_rejected() {
    let (mut a, tid) = fresh_table();
    seat_three(&mut a, tid);
    handle_place_bet(&mut a, tid, 0, addr(20), u128::MAX, NOW + 1).unwrap();
    let pool_before = a.tables[0].total_bet_pool;
    assert_eq!(
        handle_place_bet(&mut a, tid, 1, addr(21), 1, NOW + 1),
        Err(ArenaError::Arithmetic)
    );
    assert_eq!(a.tables[0].total_bet_pool, pool_before);
}

#[test]
fn test_claim_chips_nothing_due_for_empty_stack() {
    let (mut a, tid) = fresh_table();
    seat_three(&mut a, tid);
    handle_deal(&mut a, tid, addr(1), NOW + 2).unwrap();
    // Seat 0 pushes its whole stack in and loses it to seat 1.
    handle_action(&mut a, tid, addr(10), ACT_RAISE, 1_000, NOW + 3).unwrap();
    handle_action(&mut a, tid, addr(11), ACT_CALL, 0, NOW + 4).unwrap();
    handle_action(&mut a, tid, addr(12), ACT_FOLD, 0, NOW + 5).unwrap();
    handle_resolve_hand(&mut a, tid, 1, addr(1), NOW + 6).unwrap();
    handle_end_session(&mut a, tid, addr(1)).unwrap();
    assert_eq!(a.tables[0].agents[0].chips, 0);
    assert_eq!(
        handle_claim_chips(&mut a, tid, addr(10)),
        Err(ArenaError::NothingDue)
    );
}

