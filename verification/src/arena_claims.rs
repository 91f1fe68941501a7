//! Payout handlers for ended and cancelled sessions: chip cash-out, the
//! prize split among chip leaders, side-bet winnings, and refunds. The
//! platform's cut of the prize pool and of the bet pool each leave once, on
//! the first claim that touches the pool; division rounds down and the dust
//! stays in the vault.

use vstd::prelude::*;
use crate::arena::{
    Addr, Arena, PLATFORM_FEE_BPS, Table, TableAgent, TableBet, TableState, TableView,
    find_seat, lemma_max_chips_attained, spec_chips_eq_count,
    spec_max_chips, find_chip_leaders,
};
use crate::errors::ArenaError;

verus! {

/// Whether `who` holds a seat at the table.
pub open spec fn spec_has_seat(tv: TableView, who: Addr) -> bool {
    exists|i: int| 0 <= i < tv.agents.len() && (#[trigger] tv.agents[i]).addr@ == who@
}

/// The seat `who` holds; meaningful only where [`spec_has_seat`] holds (seat
/// addresses are unique under [`TableView::wf`]).
pub open spec fn spec_seat_index(tv: TableView, who: Addr) -> int {
    choose|i: int| 0 <= i < tv.agents.len() && (#[trigger] tv.agents[i]).addr@ == who@
}

/// The two amounts a prize or bet-winnings claim pays out.
#[derive(Clone, Copy, Debug, PartialEq, Eq, Structural)]
pub struct ClaimPayout {
    /// The platform's cut, paid at most once per pool; zero afterwards.
    pub fee_to_platform: u128,
    /// What the caller takes.
    pub payout_to_caller: u128,
}

impl Arena {
    /// Bind an in-range table id to its view's well-formedness.
    pub proof fn lemma_table_wf(&self, i: int)
        requires
            self.wf(),
            0 <= i < self.tables@.len(),
        ensures
            self.tables@[i]@.wf(),
    {
    }
}

/// Cash out the caller's remaining chips after the session ended.
///
/// Checks, in order: the table must exist and be ended; the caller must hold
/// a seat whose chips were not yet cashed out, and the stack must not be
/// empty. On success the seat is marked cashed out and the host pays the
/// stack to the caller.
pub fn handle_claim_chips(a: &mut Arena, tid: u32, caller: Addr) -> (r: Result<u128, ArenaError>)
    requires
        old(a).wf(),
    ensures
        final(a).wf(),
        ({
            let tv = old(a).tables@[tid as int]@;
            let i = spec_seat_index(tv, caller);
            if tid as int >= old(a).tables@.len() {
                r == Err::<u128, ArenaError>(ArenaError::NotFound)
                    && final(a).unchanged(*old(a))
            } else if !(tv.state is Ended) {
                r == Err::<u128, ArenaError>(ArenaError::WrongState)
                    && final(a).unchanged(*old(a))
            } else if !spec_has_seat(tv, caller) {
                r == Err::<u128, ArenaError>(ArenaError::NotFound)
                    && final(a).unchanged(*old(a))
            } else if tv.agents[i].chips_claimed {
                r == Err::<u128, ArenaError>(ArenaError::AlreadyExists)
                    && final(a).unchanged(*old(a))
            } else if tv.agents[i].chips == 0 {
                r == Err::<u128, ArenaError>(ArenaError::NothingDue)
                    && final(a).unchanged(*old(a))
            } else {
                &&& r == Ok::<u128, ArenaError>(tv.agents[i].chips)
                &&& final(a).only_table_changed(*old(a), tid as int)
                &&& final(a).tables@[tid as int]@ == (TableView {
                    agents: tv.agents.update(i, TableAgent {
                        chips_claimed: true,
                        ..tv.agents[i]
                    }),
                    ..tv
                })
            }
        }),
{
    if tid as usize >= a.tables.len() {
        return Err(ArenaError::NotFound);
    }
    let t = &a.tables[tid as usize];
    if !matches!(t.state, TableState::Ended) {
        return Err(ArenaError::WrongState);
    }
    let seat = match find_seat(t, &caller) {
        Some(s) => s,
        None => {
            return Err(ArenaError::NotFound);
        },
    };
    proof {
        let tv = old(a).tables@[tid as int]@;
        assert(tv.agents[seat as int].addr@ == caller@);
        let w = spec_seat_index(tv, caller);
        assert(0 <= w < tv.agents.len() && tv.agents[w].addr@ == caller@);
        if w != seat as int {
            assert(tv.agents[w].addr@ == tv.agents[seat as int].addr@);
            assert(false);
        }
    }
    if t.agents[seat as usize].chips_claimed {
        return Err(ArenaError::AlreadyExists);
    }
    let chips = t.agents[seat as usize].chips;
    if chips == 0 {
        return Err(ArenaError::NothingDue);
    }
    let t = &mut a.tables[tid as usize];
    let agm = &mut t.agents[seat as usize];
    agm.chips_claimed = true;
    proof {
        let tv = old(a).tables@[tid as int]@;
        assert(a.tables@[tid as int]@ =~= (TableView {
            agents: tv.agents.update(seat as int, TableAgent {
                chips_claimed: true,
                ..tv.agents[seat as int]
            }),
            ..tv
        }));
        assert(a.tables@[tid as int]@.wf());
    }
    Ok(chips)
}

/// Claim the caller's share of the prize pool after the session ended.
///
/// Checks, in order: the table must exist and be ended; some seat must hold
/// chips; the caller must hold a seat that is a chip leader and whose prize
/// share was not yet claimed; and the prize pool must not be empty. The
/// platform's cut leaves with the first prize claim; every leader then takes
/// an equal floor share of the remainder.
pub fn handle_claim_prize(a: &mut Arena, tid: u32, caller: Addr) -> (r: Result<
    ClaimPayout,
    ArenaError,
>)
    requires
        old(a).wf(),
    ensures
        final(a).wf(),
        ({
            let tv = old(a).tables@[tid as int]@;
            let i = spec_seat_index(tv, caller);
            let max = spec_max_chips(tv.agents);
            let cut = tv.prize_pool * PLATFORM_FEE_BPS / 10000;
            if tid as int >= old(a).tables@.len() {
                r == Err::<ClaimPayout, ArenaError>(ArenaError::NotFound)
                    && final(a).unchanged(*old(a))
            } else if !(tv.state is Ended) {
                r == Err::<ClaimPayout, ArenaError>(ArenaError::WrongState)
                    && final(a).unchanged(*old(a))
            } else if max == 0 {
                r == Err::<ClaimPayout, ArenaError>(ArenaError::NothingDue)
                    && final(a).unchanged(*old(a))
            } else if !spec_has_seat(tv, caller) {
                r == Err::<ClaimPayout, ArenaError>(ArenaError::NotFound)
                    && final(a).unchanged(*old(a))
            } else if tv.agents[i].chips != max {
                r == Err::<ClaimPayout, ArenaError>(ArenaError::Unauthorized)
                    && final(a).unchanged(*old(a))
            } else if tv.agents[i].prize_claimed {
                r == Err::<ClaimPayout, ArenaError>(ArenaError::AlreadyExists)
                    && final(a).unchanged(*old(a))
            } else if tv.prize_pool == 0 {
                r == Err::<ClaimPayout, ArenaError>(ArenaError::NothingDue)
                    && final(a).unchanged(*old(a))
            } else if tv.prize_pool * PLATFORM_FEE_BPS > u128::MAX {
                r == Err::<ClaimPayout, ArenaError>(ArenaError::Arithmetic)
                    && final(a).unchanged(*old(a))
            } else {
                &&& r == Ok::<ClaimPayout, ArenaError>((ClaimPayout {
                    fee_to_platform: if tv.prize_fee_paid { 0 } else { cut as u128 },
                    payout_to_caller: ((tv.prize_pool - cut)
                        / spec_chips_eq_count(tv.agents, max)) as u128,
                }))
                &&& final(a).only_table_changed(*old(a), tid as int)
                &&& final(a).tables@[tid as int]@ == (TableView {
                    agents: tv.agents.update(i, TableAgent {
                        prize_claimed: true,
                        ..tv.agents[i]
                    }),
                    prize_fee_paid: true,
                    ..tv
                })
            }
        }),
{
    if tid as usize >= a.tables.len() {
        return Err(ArenaError::NotFound);
    }
    let t = &a.tables[tid as usize];
    if !matches!(t.state, TableState::Ended) {
        return Err(ArenaError::WrongState);
    }
    proof {
        a.lemma_table_wf(tid as int);
    }
    let (max, num) = find_chip_leaders(t);
    if max == 0 {
        return Err(ArenaError::NothingDue);
    }
    let seat = match find_seat(t, &caller) {
        Some(s) => s,
        None => {
            return Err(ArenaError::NotFound);
        },
    };
    proof {
        let tv = old(a).tables@[tid as int]@;
        assert(tv.agents[seat as int].addr@ == caller@);
        let w = spec_seat_index(tv, caller);
        assert(0 <= w < tv.agents.len() && tv.agents[w].addr@ == caller@);
        if w != seat as int {
            assert(tv.agents[w].addr@ == tv.agents[seat as int].addr@);
            assert(false);
        }
    }
    if t.agents[seat as usize].chips != max {
        return Err(ArenaError::Unauthorized);
    }
    if t.agents[seat as usize].prize_claimed {
        return Err(ArenaError::AlreadyExists);
    }
    if t.prize_pool == 0 {
        return Err(ArenaError::NothingDue);
    }
    let cut = match t.prize_pool.checked_mul(PLATFORM_FEE_BPS) {
        Some(v) => v / 10000,
        None => {
            return Err(ArenaError::Arithmetic);
        },
    };
    proof {
        let tv = old(a).tables@[tid as int]@;
        lemma_max_chips_attained(tv.agents);
        assert(cut <= tv.prize_pool) by (nonlinear_arith)
            requires
                cut == tv.prize_pool * PLATFORM_FEE_BPS / 10000,
                tv.prize_pool >= 0,
                PLATFORM_FEE_BPS == 500,
        {
        }
    }
    let fee: u128 = if !t.prize_fee_paid {
        cut
    } else {
        0
    };
    let net = t.prize_pool - cut;
    let payout = net / (num as u128);
    let t = &mut a.tables[tid as usize];
    t.prize_fee_paid = true;
    let agm = &mut t.agents[seat as usize];
    agm.prize_claimed = true;
    proof {
        let tv = old(a).tables@[tid as int]@;
        assert(a.tables@[tid as int]@ =~= (TableView {
            agents: tv.agents.update(seat as int, TableAgent {
                prize_claimed: true,
                ..tv.agents[seat as int]
            }),
            prize_fee_paid: true,
            ..tv
        }));
        assert(a.tables@[tid as int]@.wf());
    }
    Ok(ClaimPayout { fee_to_platform: fee, payout_to_caller: payout })
}

/// The first side bet of `who` that is unclaimed and backs a seat holding
/// exactly `max` chips, scanning at or after `k`; the bet count where none
/// is.
pub open spec fn spec_first_winning_bet(
    tv: TableView,
    who: Addr,
    max: u128,
    k: int,
) -> int
    decreases tv.bets.len() - k,
{
    if k < 0 || k >= tv.bets.len() {
        tv.bets.len() as int
    } else if tv.bets[k].addr@ == who@ && !tv.bets[k].claimed
        && tv.agents[tv.bets[k].seat as int].chips == max {
        k
    } else {
        spec_first_winning_bet(tv, who, max, k + 1)
    }
}

/// The first unclaimed winning bet of `who`, where one exists.
fn find_winning_bet(t: &Table, who: &Addr, max: u128) -> (r: Option<u8>)
    requires
        t@.wf(),
    ensures
        ({
            let k = spec_first_winning_bet(t@, *who, max, 0);
            match r {
                Some(j) => j as int == k && k < t@.bets.len(),
                None => k == t@.bets.len(),
            }
        }),
{
    let n = t.bets.len();
    let mut k: usize = 0;
    while k < n
        invariant
            t@.wf(),
            n == t.bets@.len(),
            k <= n,
            spec_first_winning_bet(t@, *who, max, 0) == spec_first_winning_bet(
                t@, *who, max, k as int),
        decreases n - k,
    {
        let b = t.bets[k];
        if crate::arena::addr_eq(&b.addr, who) && !b.claimed
            && t.agents[b.seat as usize].chips == max {
            return Some(k as u8);
        }
        k = k + 1;
    }
    None
}

/// Claim the caller's side-bet winnings after the session ended.
///
/// Checks, in order: the table must exist and be ended; some seat must hold
/// chips; the bet pool must not be empty; and the caller must hold an
/// unclaimed bet backing a chip leader — the first such bet is settled, one
/// per call. The platform's cut of the bet pool leaves with the first
/// winnings claim; the bet then takes its pro-rata floor share of the
/// remainder, measured against all bets backing the same seat.
pub fn handle_claim_bet_winnings(a: &mut Arena, tid: u32, caller: Addr) -> (r: Result<
    ClaimPayout,
    ArenaError,
>)
    requires
        old(a).wf(),
    ensures
        final(a).wf(),
        ({
            let tv = old(a).tables@[tid as int]@;
            let max = spec_max_chips(tv.agents);
            let k = spec_first_winning_bet(tv, caller, max, 0);
            let cut = tv.total_bet_pool * PLATFORM_FEE_BPS / 10000;
            let net = tv.total_bet_pool - cut;
            if tid as int >= old(a).tables@.len() {
                r == Err::<ClaimPayout, ArenaError>(ArenaError::NotFound)
                    && final(a).unchanged(*old(a))
            } else if !(tv.state is Ended) {
                r == Err::<ClaimPayout, ArenaError>(ArenaError::WrongState)
                    && final(a).unchanged(*old(a))
            } else if max == 0 {
                r == Err::<ClaimPayout, ArenaError>(ArenaError::NothingDue)
                    && final(a).unchanged(*old(a))
            } else if tv.total_bet_pool == 0 {
                r == Err::<ClaimPayout, ArenaError>(ArenaError::NothingDue)
                    && final(a).unchanged(*old(a))
            } else if k >= tv.bets.len() {
                r == Err::<ClaimPayout, ArenaError>(ArenaError::NotFound)
                    && final(a).unchanged(*old(a))
            } else if tv.total_bet_pool * PLATFORM_FEE_BPS > u128::MAX {
                r == Err::<ClaimPayout, ArenaError>(ArenaError::Arithmetic)
                    && final(a).unchanged(*old(a))
            } else if tv.agents[tv.bets[k].seat as int].bet_total > 0
                && net * tv.bets[k].amount > u128::MAX {
                r == Err::<ClaimPayout, ArenaError>(ArenaError::Arithmetic)
                    && final(a).unchanged(*old(a))
            } else {
                &&& r == Ok::<ClaimPayout, ArenaError>((ClaimPayout {
                    fee_to_platform: if tv.bet_fee_paid { 0 } else { cut as u128 },
                    payout_to_caller: if tv.agents[tv.bets[k].seat as int].bet_total > 0 {
                        (net * tv.bets[k].amount
                            / (tv.agents[tv.bets[k].seat as int].bet_total as int)) as u128
                    } else {
                        0
                    },
                }))
                &&& final(a).only_table_changed(*old(a), tid as int)
                &&& final(a).tables@[tid as int]@ == (TableView {
                    bets: tv.bets.update(k, TableBet { claimed: true, ..tv.bets[k] }),
                    bet_fee_paid: true,
                    ..tv
                })
            }
        }),
{
    if tid as usize >= a.tables.len() {
        return Err(ArenaError::NotFound);
    }
    let t = &a.tables[tid as usize];
    if !matches!(t.state, TableState::Ended) {
        return Err(ArenaError::WrongState);
    }
    proof {
        a.lemma_table_wf(tid as int);
    }
    let (max, _num) = find_chip_leaders(t);
    if max == 0 {
        return Err(ArenaError::NothingDue);
    }
    if t.total_bet_pool == 0 {
        return Err(ArenaError::NothingDue);
    }
    let j = match find_winning_bet(t, &caller, max) {
        Some(j) => j,
        None => {
            return Err(ArenaError::NotFound);
        },
    };
    let bet = t.bets[j as usize];
    let cut = match t.total_bet_pool.checked_mul(PLATFORM_FEE_BPS) {
        Some(v) => v / 10000,
        None => {
            return Err(ArenaError::Arithmetic);
        },
    };
    proof {
        let tv = old(a).tables@[tid as int]@;
        assert(cut <= tv.total_bet_pool) by (nonlinear_arith)
            requires
                cut == tv.total_bet_pool * PLATFORM_FEE_BPS / 10000,
                tv.total_bet_pool >= 0,
                PLATFORM_FEE_BPS == 500,
        {
        }
    }
    let net = t.total_bet_pool - cut;
    let agent_total = t.agents[bet.seat as usize].bet_total;
    let payout: u128 = if agent_total > 0 {
        let scaled = match net.checked_mul(bet.amount) {
            Some(v) => v,
            None => {
                return Err(ArenaError::Arithmetic);
            },
        };
        scaled / agent_total
    } else {
        0
    };
    let fee: u128 = if !t.bet_fee_paid {
        cut
    } else {
        0
    };
    let t = &mut a.tables[tid as usize];
    t.bet_fee_paid = true;
    let bm = &mut t.bets[j as usize];
    bm.claimed = true;
    proof {
        let tv = old(a).tables@[tid as int]@;
        assert(a.tables@[tid as int]@ =~= (TableView {
            bets: tv.bets.update(j as int, TableBet { claimed: true, ..tv.bets[j as int] }),
            bet_fee_paid: true,
            ..tv
        }));
        assert(a.tables@[tid as int]@.wf());
    }
    Ok(ClaimPayout { fee_to_platform: fee, payout_to_caller: payout })
}

/// The first unclaimed side bet of `who`, scanning at or after `k`; the bet
/// count where none is.
pub open spec fn spec_first_unclaimed_bet(tv: TableView, who: Addr, k: int) -> int
    decreases tv.bets.len() - k,
{
    if k < 0 || k >= tv.bets.len() {
        tv.bets.len() as int
    } else if tv.bets[k].addr@ == who@ && !tv.bets[k].claimed {
        k
    } else {
        spec_first_unclaimed_bet(tv, who, k + 1)
    }
}

/// The first unclaimed side bet of `who`, where one exists.
fn find_unclaimed_bet(t: &Table, who: &Addr) -> (r: Option<u8>)
    requires
        t@.bets.len() <= crate::arena::MAX_BETTORS,
    ensures
        ({
            let k = spec_first_unclaimed_bet(t@, *who, 0);
            match r {
                Some(j) => j as int == k && k < t@.bets.len(),
                None => k == t@.bets.len(),
            }
        }),
{
    let n = t.bets.len();
    let mut k: usize = 0;
    while k < n
        invariant
            n == t.bets@.len(),
            n <= crate::arena::MAX_BETTORS,
            k <= n,
            spec_first_unclaimed_bet(t@, *who, 0) == spec_first_unclaimed_bet(t@, *who, k as int),
        decreases n - k,
    {
        let b = t.bets[k];
        if crate::arena::addr_eq(&b.addr, who) && !b.claimed {
            return Some(k as u8);
        }
        k = k + 1;
    }
    None
}

/// Refund a cancelled session: the creator takes the prize pool back (at
/// most once, while the fee flag is clear), a seated agent takes the buy-in
/// back (at most once, through the cash-out flag), and a bettor takes each
/// unclaimed bet back, one per call; in that order of precedence for a
/// caller qualifying severally.
pub fn handle_refund(a: &mut Arena, tid: u32, caller: Addr) -> (r: Result<u128, ArenaError>)
    requires
        old(a).wf(),
    ensures
        final(a).wf(),
        ({
            let tv = old(a).tables@[tid as int]@;
            let i = spec_seat_index(tv, caller);
            let k = spec_first_unclaimed_bet(tv, caller, 0);
            if tid as int >= old(a).tables@.len() {
                r == Err::<u128, ArenaError>(ArenaError::NotFound)
                    && final(a).unchanged(*old(a))
            } else if !(tv.state is Cancelled) {
                r == Err::<u128, ArenaError>(ArenaError::WrongState)
                    && final(a).unchanged(*old(a))
            } else if caller@ == tv.creator@ && !tv.prize_fee_paid && tv.prize_pool > 0 {
                &&& r == Ok::<u128, ArenaError>(tv.prize_pool)
                &&& final(a).only_table_changed(*old(a), tid as int)
                &&& final(a).tables@[tid as int]@ == (TableView { prize_fee_paid: true, ..tv })
            } else if spec_has_seat(tv, caller) && !tv.agents[i].chips_claimed {
                &&& r == Ok::<u128, ArenaError>(tv.buy_in)
                &&& final(a).only_table_changed(*old(a), tid as int)
                &&& final(a).tables@[tid as int]@ == (TableView {
                    agents: tv.agents.update(i, TableAgent {
                        chips_claimed: true,
                        ..tv.agents[i]
                    }),
                    ..tv
                })
            } else if k < tv.bets.len() {
                &&& r == Ok::<u128, ArenaError>(tv.bets[k].amount)
                &&& final(a).only_table_changed(*old(a), tid as int)
                &&& final(a).tables@[tid as int]@ == (TableView {
                    bets: tv.bets.update(k, TableBet { claimed: true, ..tv.bets[k] }),
                    ..tv
                })
            } else {
                r == Err::<u128, ArenaError>(ArenaError::NotFound)
                    && final(a).unchanged(*old(a))
            }
        }),
{
    if tid as usize >= a.tables.len() {
        return Err(ArenaError::NotFound);
    }
    let t = &a.tables[tid as usize];
    if !matches!(t.state, TableState::Cancelled) {
        return Err(ArenaError::WrongState);
    }
    proof {
        a.lemma_table_wf(tid as int);
    }
    if crate::arena::addr_eq(&caller, &t.creator) && !t.prize_fee_paid && t.prize_pool > 0 {
        let pool = t.prize_pool;
        let t = &mut a.tables[tid as usize];
        t.prize_fee_paid = true;
        proof {
            let tv = old(a).tables@[tid as int]@;
            assert(a.tables@[tid as int]@ =~= (TableView { prize_fee_paid: true, ..tv }));
        }
        return Ok(pool);
    }
    let seat_found = find_seat(t, &caller);
    proof {
        let tv = old(a).tables@[tid as int]@;
        if let Some(s) = seat_found {
            assert(tv.agents[s as int].addr@ == caller@);
            let w = spec_seat_index(tv, caller);
            assert(0 <= w < tv.agents.len() && tv.agents[w].addr@ == caller@);
            if w != s as int {
                assert(tv.agents[w].addr@ == tv.agents[s as int].addr@);
                assert(false);
            }
        }
    }
    if let Some(seat) = seat_found {
        if !t.agents[seat as usize].chips_claimed {
            let buy_in = t.buy_in;
            let t = &mut a.tables[tid as usize];
            let agm = &mut t.agents[seat as usize];
            agm.chips_claimed = true;
            proof {
                let tv = old(a).tables@[tid as int]@;
                assert(a.tables@[tid as int]@ =~= (TableView {
                    agents: tv.agents.update(seat as int, TableAgent {
                        chips_claimed: true,
                        ..tv.agents[seat as int]
                    }),
                    ..tv
                }));
                assert(a.tables@[tid as int]@.wf());
            }
            return Ok(buy_in);
        }
    }
    let k = match find_unclaimed_bet(t, &caller) {
        Some(k) => k,
        None => {
            return Err(ArenaError::NotFound);
        },
    };
    let amount = t.bets[k as usize].amount;
    let t = &mut a.tables[tid as usize];
    let bm = &mut t.bets[k as usize];
    bm.claimed = true;
    proof {
        let tv = old(a).tables@[tid as int]@;
        assert(a.tables@[tid as int]@ =~= (TableView {
            bets: tv.bets.update(k as int, TableBet { claimed: true, ..tv.bets[k as int] }),
            ..tv
        }));
        assert(a.tables@[tid as int]@.wf());
    }
    Ok(amount)
}

} // verus!
