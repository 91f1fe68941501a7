//! Table lifecycle handlers: creation, joining, side bets, the dealer
//! hand-over, session end, and the permissionless cancel with its
//! inactivity guard.

use vstd::prelude::*;
use crate::arena::{
    Addr, Arena, MAX_BETTORS, INACTIVITY_SECS, Table, TableAgent, TableBet, TableState, TableView,
    MAX_TABLE_AGENTS, addr_eq, require_dealer,
};
use crate::errors::ArenaError;

verus! {

/// The view of a freshly created table: the creation value is the prize
/// pool, all counters zeroed, state open.
pub open spec fn spec_new_table(
    creator: Addr,
    value: u128,
    now: u64,
    buy_in: u128,
    max_agents: u8,
    session_len: u32,
    bet_deadline: u64,
) -> TableView {
    TableView {
        creator,
        prize_pool: value,
        buy_in,
        max_agents,
        session_len,
        current_hand: 0,
        bet_deadline,
        state: TableState::Open,
        pot: 0,
        current_turn: 0,
        current_bet: 0,
        active_count: 0,
        total_bet_pool: 0,
        last_action: now,
        prize_fee_paid: false,
        bet_fee_paid: false,
        agents: Seq::empty(),
        bets: Seq::empty(),
    }
}

/// Create a table. The attached value becomes the prize pool.
///
/// Checks, in order: the buy-in must be positive; the seat capacity must lie
/// between two and the global maximum; the session length must be positive;
/// the betting deadline must lie in the future; the attached value must be
/// positive; and the id space must not be exhausted. On success the new
/// table's id — its position in creation order — is returned.
pub fn handle_create_table(
    a: &mut Arena,
    caller: Addr,
    value: u128,
    now: u64,
    buy_in: u128,
    max_agents: u8,
    session_len: u32,
    bet_deadline: u64,
) -> (r: Result<u32, ArenaError>)
    requires
        old(a).wf(),
    ensures
        final(a).wf(),
        ({
            if buy_in == 0 || max_agents < 2 || max_agents > MAX_TABLE_AGENTS
                || session_len == 0 || bet_deadline <= now || value == 0 {
                r == Err::<u32, ArenaError>(ArenaError::InvalidInput)
                    && final(a).unchanged(*old(a))
            } else if old(a).tables@.len() == u32::MAX {
                r == Err::<u32, ArenaError>(ArenaError::CapacityFull)
                    && final(a).unchanged(*old(a))
            } else {
                &&& r == Ok::<u32, ArenaError>(old(a).tables@.len() as u32)
                &&& final(a).platform == old(a).platform
                &&& final(a).dealer == old(a).dealer
                &&& final(a).tables@.len() == old(a).tables@.len() + 1
                &&& (forall|j: int| 0 <= j < old(a).tables@.len()
                    ==> #[trigger] final(a).tables@[j] == old(a).tables@[j])
                &&& final(a).tables@[old(a).tables@.len() as int]@ == spec_new_table(
                    caller, value, now, buy_in, max_agents, session_len, bet_deadline)
            }
        }),
{
    if buy_in == 0 || max_agents < 2 || max_agents > MAX_TABLE_AGENTS || session_len == 0
        || bet_deadline <= now || value == 0 {
        return Err(ArenaError::InvalidInput);
    }
    if a.tables.len() >= u32::MAX as usize {
        return Err(ArenaError::CapacityFull);
    }
    let tid = a.tables.len() as u32;
    let t = Table {
        creator: caller,
        prize_pool: value,
        buy_in,
        max_agents,
        session_len,
        current_hand: 0,
        bet_deadline,
        state: TableState::Open,
        pot: 0,
        current_turn: 0,
        current_bet: 0,
        active_count: 0,
        total_bet_pool: 0,
        last_action: now,
        prize_fee_paid: false,
        bet_fee_paid: false,
        agents: Vec::new(),
        bets: Vec::new(),
    };
    proof {
        assert(t@ =~= spec_new_table(caller, value, now, buy_in, max_agents, session_len,
            bet_deadline));
        assert(t@.wf());
    }
    a.tables.push(t);
    Ok(tid)
}

/// Join a table. The attached value must equal the buy-in and becomes the
/// agent's starting chips.
///
/// Checks, in order: the table must exist and be open; the value must equal
/// the buy-in; a seat must be free; and the caller must not be seated
/// already. On success the new seat number is returned.
pub fn handle_join_table(a: &mut Arena, tid: u32, caller: Addr, value: u128) -> (r: Result<
    u8,
    ArenaError,
>)
    requires
        old(a).wf(),
    ensures
        final(a).wf(),
        ({
            let tv = old(a).tables@[tid as int]@;
            if tid as int >= old(a).tables@.len() {
                r == Err::<u8, ArenaError>(ArenaError::NotFound) && final(a).unchanged(*old(a))
            } else if !(tv.state is Open) {
                r == Err::<u8, ArenaError>(ArenaError::WrongState) && final(a).unchanged(*old(a))
            } else if value != tv.buy_in {
                r == Err::<u8, ArenaError>(ArenaError::InvalidInput)
                    && final(a).unchanged(*old(a))
            } else if tv.agents.len() >= tv.max_agents as int {
                r == Err::<u8, ArenaError>(ArenaError::CapacityFull)
                    && final(a).unchanged(*old(a))
            } else if exists|i: int|
                0 <= i < tv.agents.len() && (#[trigger] tv.agents[i]).addr@ == caller@ {
                r == Err::<u8, ArenaError>(ArenaError::AlreadyExists)
                    && final(a).unchanged(*old(a))
            } else {
                &&& r == Ok::<u8, ArenaError>(tv.agents.len() as u8)
                &&& final(a).only_table_changed(*old(a), tid as int)
                &&& final(a).tables@[tid as int]@ == (TableView {
                    agents: tv.agents.push(TableAgent {
                        addr: caller,
                        chips: tv.buy_in,
                        folded: false,
                        kicked: false,
                        missed: 0,
                        hand_bet: 0,
                        chips_claimed: false,
                        prize_claimed: false,
                        bet_total: 0,
                    }),
                    ..tv
                })
            }
        }),
{
    if tid as usize >= a.tables.len() {
        return Err(ArenaError::NotFound);
    }
    let t = &a.tables[tid as usize];
    if !matches!(t.state, TableState::Open) {
        return Err(ArenaError::WrongState);
    }
    if value != t.buy_in {
        return Err(ArenaError::InvalidInput);
    }
    let n = t.agents.len();
    if n >= t.max_agents as usize {
        return Err(ArenaError::CapacityFull);
    }
    proof {
        assert(t@.agents.len() <= MAX_TABLE_AGENTS);
    }
    if crate::arena::find_seat(t, &caller).is_some() {
        return Err(ArenaError::AlreadyExists);
    }
    let seat = n as u8;
    let buy_in = t.buy_in;
    let t = &mut a.tables[tid as usize];
    t.agents.push(TableAgent {
        addr: caller,
        chips: buy_in,
        folded: false,
        kicked: false,
        missed: 0,
        hand_bet: 0,
        chips_claimed: false,
        prize_claimed: false,
        bet_total: 0,
    });
    proof {
        let tv = old(a).tables@[tid as int]@;
        assert(a.tables@[tid as int]@ =~= (TableView {
            agents: tv.agents.push(TableAgent {
                addr: caller,
                chips: tv.buy_in,
                folded: false,
                kicked: false,
                missed: 0,
                hand_bet: 0,
                chips_claimed: false,
                prize_claimed: false,
                bet_total: 0,
            }),
            ..tv
        }));
        assert(a.tables@[tid as int]@.wf());
    }
    Ok(seat)
}

/// Place a side bet of the attached value on a seat.
///
/// Checks, in order: the table must exist and be open; the betting deadline
/// must not have passed; the seat must exist and not be kicked; the value
/// must be positive; and a bet slot must be free. All additions are
/// overflow-checked; overflow aborts the whole call with no partial
/// mutation.
pub fn handle_place_bet(
    a: &mut Arena,
    tid: u32,
    seat: u8,
    caller: Addr,
    value: u128,
    now: u64,
) -> (r: Result<(), ArenaError>)
    requires
        old(a).wf(),
    ensures
        final(a).wf(),
        ({
            let tv = old(a).tables@[tid as int]@;
            if tid as int >= old(a).tables@.len() {
                r == Err::<(), ArenaError>(ArenaError::NotFound) && final(a).unchanged(*old(a))
            } else if !(tv.state is Open) {
                r == Err::<(), ArenaError>(ArenaError::WrongState) && final(a).unchanged(*old(a))
            } else if now >= tv.bet_deadline {
                r == Err::<(), ArenaError>(ArenaError::WrongState) && final(a).unchanged(*old(a))
            } else if seat as int >= tv.agents.len() {
                r == Err::<(), ArenaError>(ArenaError::NotFound) && final(a).unchanged(*old(a))
            } else if tv.agents[seat as int].kicked {
                r == Err::<(), ArenaError>(ArenaError::InvalidInput)
                    && final(a).unchanged(*old(a))
            } else if value == 0 {
                r == Err::<(), ArenaError>(ArenaError::InvalidInput)
                    && final(a).unchanged(*old(a))
            } else if tv.bets.len() >= MAX_BETTORS {
                r == Err::<(), ArenaError>(ArenaError::CapacityFull)
                    && final(a).unchanged(*old(a))
            } else if tv.agents[seat as int].bet_total + value > u128::MAX
                || tv.total_bet_pool + value > u128::MAX {
                r == Err::<(), ArenaError>(ArenaError::Arithmetic)
                    && final(a).unchanged(*old(a))
            } else {
                &&& r == Ok::<(), ArenaError>(())
                &&& final(a).only_table_changed(*old(a), tid as int)
                &&& final(a).tables@[tid as int]@ == (TableView {
                    agents: tv.agents.update(seat as int, TableAgent {
                        bet_total: (tv.agents[seat as int].bet_total + value) as u128,
                        ..tv.agents[seat as int]
                    }),
                    bets: tv.bets.push(TableBet { addr: caller, seat, amount: value, claimed: false }),
                    total_bet_pool: (tv.total_bet_pool + value) as u128,
                    ..tv
                })
            }
        }),
{
    if tid as usize >= a.tables.len() {
        return Err(ArenaError::NotFound);
    }
    let t = &a.tables[tid as usize];
    if !matches!(t.state, TableState::Open) {
        return Err(ArenaError::WrongState);
    }
    if now >= t.bet_deadline {
        return Err(ArenaError::WrongState);
    }
    if seat as usize >= t.agents.len() {
        return Err(ArenaError::NotFound);
    }
    if t.agents[seat as usize].kicked {
        return Err(ArenaError::InvalidInput);
    }
    if value == 0 {
        return Err(ArenaError::InvalidInput);
    }
    if t.bets.len() >= MAX_BETTORS {
        return Err(ArenaError::CapacityFull);
    }
    let new_total = match t.agents[seat as usize].bet_total.checked_add(value) {
        Some(v) => v,
        None => {
            return Err(ArenaError::Arithmetic);
        },
    };
    let new_pool = match t.total_bet_pool.checked_add(value) {
        Some(v) => v,
        None => {
            return Err(ArenaError::Arithmetic);
        },
    };
    let t = &mut a.tables[tid as usize];
    let ag = &mut t.agents[seat as usize];
    ag.bet_total = new_total;
    t.bets.push(TableBet { addr: caller, seat, amount: value, claimed: false });
    t.total_bet_pool = new_pool;
    proof {
        let tv = old(a).tables@[tid as int]@;
        assert(a.tables@[tid as int]@ =~= (TableView {
            agents: tv.agents.update(seat as int, TableAgent {
                bet_total: new_total,
                ..tv.agents[seat as int]
            }),
            bets: tv.bets.push(TableBet { addr: caller, seat, amount: value, claimed: false }),
            total_bet_pool: new_pool,
            ..tv
        }));
        assert(a.tables@[tid as int]@.wf());
    }
    Ok(())
}

/// Hand the dealer role to a new address; only the platform may.
pub fn handle_update_dealer(a: &mut Arena, caller: Addr, new_dealer: Addr) -> (r: Result<
    (),
    ArenaError,
>)
    requires
        old(a).wf(),
    ensures
        final(a).wf(),
        ({
            if caller@ != old(a).platform@ {
                r == Err::<(), ArenaError>(ArenaError::Unauthorized)
                    && final(a).unchanged(*old(a))
            } else {
                &&& r == Ok::<(), ArenaError>(())
                &&& final(a).platform == old(a).platform
                &&& final(a).dealer == new_dealer
                &&& final(a).tables@ == old(a).tables@
            }
        }),
{
    if !addr_eq(&caller, &a.platform) {
        return Err(ArenaError::Unauthorized);
    }
    a.dealer = new_dealer;
    Ok(())
}

/// End a session as the dealer: an open table is cancelled (nothing was
/// played), a playing table ends.
pub fn handle_end_session(a: &mut Arena, tid: u32, caller: Addr) -> (r: Result<(), ArenaError>)
    requires
        old(a).wf(),
    ensures
        final(a).wf(),
        ({
            let tv = old(a).tables@[tid as int]@;
            if caller@ != old(a).dealer@ {
                r == Err::<(), ArenaError>(ArenaError::Unauthorized)
                    && final(a).unchanged(*old(a))
            } else if tid as int >= old(a).tables@.len() {
                r == Err::<(), ArenaError>(ArenaError::NotFound) && final(a).unchanged(*old(a))
            } else if tv.state is Open {
                &&& r == Ok::<(), ArenaError>(())
                &&& final(a).only_table_changed(*old(a), tid as int)
                &&& final(a).tables@[tid as int]@ == (TableView {
                    state: TableState::Cancelled,
                    ..tv
                })
            } else if tv.state is Playing {
                &&& r == Ok::<(), ArenaError>(())
                &&& final(a).only_table_changed(*old(a), tid as int)
                &&& final(a).tables@[tid as int]@ == (TableView { state: TableState::Ended, ..tv })
            } else {
                r == Err::<(), ArenaError>(ArenaError::WrongState) && final(a).unchanged(*old(a))
            }
        }),
{
    if !require_dealer(a, &caller) {
        return Err(ArenaError::Unauthorized);
    }
    if tid as usize >= a.tables.len() {
        return Err(ArenaError::NotFound);
    }
    let state = a.tables[tid as usize].state;
    match state {
        TableState::Open => {
            let t = &mut a.tables[tid as usize];
            t.state = TableState::Cancelled;
            proof {
                assert(a.tables@[tid as int]@ =~= (TableView {
                    state: TableState::Cancelled,
                    ..old(a).tables@[tid as int]@
                }));
            }
            Ok(())
        },
        TableState::Playing => {
            let t = &mut a.tables[tid as usize];
            t.state = TableState::Ended;
            proof {
                assert(a.tables@[tid as int]@ =~= (TableView {
                    state: TableState::Ended,
                    ..old(a).tables@[tid as int]@
                }));
            }
            Ok(())
        },
        _ => Err(ArenaError::WrongState),
    }
}

/// Cancel a session without any role: an open table whose betting deadline
/// passed with no hand ever dealt, or a playing table whose dealer has gone
/// dark beyond the inactivity bound.
pub fn handle_cancel(a: &mut Arena, tid: u32, now: u64) -> (r: Result<(), ArenaError>)
    requires
        old(a).wf(),
    ensures
        final(a).wf(),
        ({
            let tv = old(a).tables@[tid as int]@;
            let can_cancel = (tv.state is Open && now > tv.bet_deadline && tv.current_hand == 0)
                || (tv.state is Playing && (if now >= tv.last_action {
                    now - tv.last_action
                } else {
                    0
                }) > INACTIVITY_SECS);
            if tid as int >= old(a).tables@.len() {
                r == Err::<(), ArenaError>(ArenaError::NotFound) && final(a).unchanged(*old(a))
            } else if !can_cancel {
                r == Err::<(), ArenaError>(ArenaError::WrongState) && final(a).unchanged(*old(a))
            } else {
                &&& r == Ok::<(), ArenaError>(())
                &&& final(a).only_table_changed(*old(a), tid as int)
                &&& final(a).tables@[tid as int]@ == (TableView {
                    state: TableState::Cancelled,
                    ..tv
                })
            }
        }),
{
    if tid as usize >= a.tables.len() {
        return Err(ArenaError::NotFound);
    }
    let t = &a.tables[tid as usize];
    let can_cancel = match t.state {
        TableState::Open => now > t.bet_deadline && t.current_hand == 0,
        TableState::Playing => {
            let idle = if now >= t.last_action {
                now - t.last_action
            } else {
                0
            };
            idle > INACTIVITY_SECS
        },
        _ => false,
    };
    if !can_cancel {
        return Err(ArenaError::WrongState);
    }
    let t = &mut a.tables[tid as usize];
    t.state = TableState::Cancelled;
    proof {
        assert(a.tables@[tid as int]@ =~= (TableView {
            state: TableState::Cancelled,
            ..old(a).tables@[tid as int]@
        }));
    }
    Ok(())
}

} // verus!
