//! The per-turn action handler: fold, check, call and raise, submitted by
//! the agent whose turn it is or by the dealer on the agent's behalf after a
//! timeout. Dealer-submitted folds count as misses; enough misses in a row
//! kick the agent. A hand whose fold leaves one live agent resolves at once.
//!
//! A seat that is already folded or kicked cannot act: such a call is
//! rejected outright rather than being allowed to corrupt the live counter
//! with a repeated fold.

use vstd::prelude::*;
use crate::arena::{
    ACT_CALL, ACT_CHECK, ACT_FOLD, ACT_RAISE, Addr, Arena, MISSED_TURNS_KICK, Table, TableAgent,
    TableState, TableView, award_pot, find_next_active, kick_agent, lemma_spec_first_live,
    live_weight, spec_first_live, spec_kick, spec_award, spec_live_count, spec_next_live,
    touch_last_action, lemma_live_seat_means_live_count_pos,
};
use crate::sums::sum_by;
use crate::errors::ArenaError;
use crate::sums::lemma_sum_by_update;

verus! {

/// The table after the turn passes on: the acting agent's miss counter
/// resets where the agent acted for itself, the turn moves to the next live
/// seat, and the inactivity timer refreshes.
pub open spec fn spec_advance_turn(t1: TableView, is_agent: bool, turn: int, now: u64) -> TableView {
    let agents2 = if is_agent {
        t1.agents.update(turn, TableAgent { missed: 0, ..t1.agents[turn] })
    } else {
        t1.agents
    };
    TableView {
        agents: agents2,
        current_turn: spec_next_live(agents2, turn) as u8,
        last_action: now,
        ..t1
    }
}

/// What [`handle_action`] does to a playing table, as a function of the
/// pre-state and the call's arguments: the result and the post-state.
pub open spec fn spec_action(
    pre: TableView,
    dealer: Addr,
    caller: Addr,
    action: u8,
    amount: u128,
    now: u64,
) -> (Result<(), ArenaError>, TableView) {
    let turn = pre.current_turn as int;
    let ag = pre.agents[turn];
    let is_dealer = caller@ == dealer@;
    let is_agent = caller@ == ag.addr@;
    let to_call: u128 = if pre.current_bet > ag.hand_bet {
        (pre.current_bet - ag.hand_bet) as u128
    } else {
        0
    };
    if !(pre.state is Playing) {
        (Err(ArenaError::WrongState), pre)
    } else if !is_dealer && !is_agent {
        (Err(ArenaError::Unauthorized), pre)
    } else if ag.kicked || ag.folded {
        (Err(ArenaError::WrongState), pre)
    } else if action == ACT_FOLD {
        let missed2: u8 = if is_dealer {
            (ag.missed + 1) as u8
        } else {
            ag.missed
        };
        let folded = pre.agents.update(turn, TableAgent { folded: true, missed: missed2, ..ag });
        let ac2: u8 = (pre.active_count - 1) as u8;
        let t1 = TableView { agents: folded, active_count: ac2, ..pre };
        if is_dealer && missed2 >= MISSED_TURNS_KICK {
            if pre.prize_pool + ag.chips > u128::MAX {
                (Err(ArenaError::Arithmetic), pre)
            } else {
                (Ok(()), TableView { last_action: now, ..spec_kick(t1, turn) })
            }
        } else if ac2 == 1 {
            let w = spec_first_live(folded, 0);
            if folded[w].chips + pre.pot > u128::MAX {
                (Err(ArenaError::Arithmetic), pre)
            } else {
                (Ok(()), TableView { last_action: now, ..spec_award(t1, w) })
            }
        } else {
            (Ok(()), spec_advance_turn(t1, is_agent, turn, now))
        }
    } else if action == ACT_CHECK {
        if to_call != 0 {
            (Err(ArenaError::InvalidInput), pre)
        } else {
            (Ok(()), spec_advance_turn(pre, is_agent, turn, now))
        }
    } else if action == ACT_CALL {
        if to_call == 0 {
            (Err(ArenaError::InvalidInput), pre)
        } else if ag.chips < to_call {
            (Err(ArenaError::InvalidInput), pre)
        } else if pre.pot + to_call > u128::MAX {
            (Err(ArenaError::Arithmetic), pre)
        } else {
            let t1 = TableView {
                agents: pre.agents.update(turn, TableAgent {
                    chips: (ag.chips - to_call) as u128,
                    hand_bet: (ag.hand_bet + to_call) as u128,
                    ..ag
                }),
                pot: (pre.pot + to_call) as u128,
                ..pre
            };
            (Ok(()), spec_advance_turn(t1, is_agent, turn, now))
        }
    } else if action == ACT_RAISE {
        if amount == 0 {
            (Err(ArenaError::InvalidInput), pre)
        } else if to_call + amount > u128::MAX {
            (Err(ArenaError::Arithmetic), pre)
        } else if ag.chips < to_call + amount {
            (Err(ArenaError::InvalidInput), pre)
        } else if ag.hand_bet + to_call + amount > u128::MAX {
            (Err(ArenaError::Arithmetic), pre)
        } else if pre.pot + to_call + amount > u128::MAX {
            (Err(ArenaError::Arithmetic), pre)
        } else {
            let total: u128 = (to_call + amount) as u128;
            let nhb: u128 = (ag.hand_bet + total) as u128;
            let t1 = TableView {
                agents: pre.agents.update(turn, TableAgent {
                    chips: (ag.chips - total) as u128,
                    hand_bet: nhb,
                    ..ag
                }),
                current_bet: nhb,
                pot: (pre.pot + total) as u128,
                ..pre
            };
            (Ok(()), spec_advance_turn(t1, is_agent, turn, now))
        }
    } else {
        (Err(ArenaError::InvalidInput), pre)
    }
}

/// The first seat other than `skip` that is live, at or after `i`; 0 where
/// none is.
pub open spec fn spec_first_live_except(agents: Seq<TableAgent>, skip: int, i: int) -> int
    decreases agents.len() - i,
{
    if i < 0 || i >= agents.len() {
        0
    } else if i != skip && !agents[i].kicked && !agents[i].folded {
        i
    } else {
        spec_first_live_except(agents, skip, i + 1)
    }
}

/// A positive live count means some seat is live.
proof fn lemma_live_count_pos(agents: Seq<TableAgent>)
    requires
        spec_live_count(agents) > 0,
    ensures
        exists|j: int| 0 <= j < agents.len() && !(#[trigger] agents[j]).kicked
            && !agents[j].folded,
    decreases agents.len(),
{
    if agents.len() > 0 {
        if !agents.last().kicked && !agents.last().folded {
            assert(!agents[agents.len() - 1].kicked && !agents[agents.len() - 1].folded);
        } else {
            assert(spec_live_count(agents) == sum_by(agents.drop_last(), live_weight()));
            lemma_live_count_pos(agents.drop_last());
            let j = choose|j: int|
                0 <= j < agents.drop_last().len() && !(#[trigger] agents.drop_last()[j]).kicked
                    && !agents.drop_last()[j].folded;
            assert(!agents[j].kicked && !agents[j].folded);
        }
    }
}

/// Replacing the seat at `skip` with a non-live agent makes the plain
/// first-live scan agree with the skipping scan.
proof fn lemma_first_live_update(agents: Seq<TableAgent>, skip: int, x: TableAgent, i: int)
    requires
        0 <= skip < agents.len(),
        x.kicked || x.folded,
        0 <= i <= agents.len(),
    ensures
        spec_first_live(agents.update(skip, x), i) == spec_first_live_except(agents, skip, i),
    decreases agents.len() - i,
{
    if i < agents.len() {
        lemma_first_live_update(agents, skip, x, i + 1);
    }
}

/// The first live seat other than `skip`, or seat 0 where none is live.
fn find_active_except(t: &Table, skip: u8) -> (r: u8)
    requires
        t@.agents.len() <= crate::arena::MAX_TABLE_AGENTS,
    ensures
        r as int == spec_first_live_except(t@.agents, skip as int, 0),
        r < crate::arena::MAX_TABLE_AGENTS,
{
    let n = t.agents.len();
    let mut i: usize = 0;
    while i < n
        invariant
            n == t.agents@.len(),
            n <= crate::arena::MAX_TABLE_AGENTS,
            i <= n,
            spec_first_live_except(t.agents@, skip as int, 0)
                == spec_first_live_except(t.agents@, skip as int, i as int),
        decreases n - i,
    {
        if i != skip as usize && !t.agents[i].kicked && !t.agents[i].folded {
            return i as u8;
        }
        i = i + 1;
    }
    0
}

/// Submit the current turn's action: fold, check, call or raise.
///
/// Only the agent whose turn it is, or the dealer submitting a timeout fold
/// on its behalf, may call. A dealer-submitted fold counts a miss; the miss
/// that reaches the kick threshold kicks the agent instead of passing the
/// turn. A fold that leaves one live agent resolves the hand to that agent
/// at once. A voluntary action resets the agent's miss counter. Otherwise
/// the turn passes to the next live seat. All arithmetic is
/// overflow-checked; overflow aborts the whole call with no partial
/// mutation.
#[verifier::rlimit(80)]
pub fn handle_action(
    a: &mut Arena,
    tid: u32,
    caller: Addr,
    action: u8,
    amount: u128,
    now: u64,
) -> (r: Result<(), ArenaError>)
    requires
        old(a).wf(),
    ensures
        final(a).wf(),
        ({
            let tv = old(a).tables@[tid as int]@;
            if tid as int >= old(a).tables@.len() {
                r == Err::<(), ArenaError>(ArenaError::NotFound) && final(a).unchanged(*old(a))
            } else {
                let (er, post) = spec_action(tv, old(a).dealer, caller, action, amount, now);
                &&& r == er
                &&& final(a).only_table_changed(*old(a), tid as int)
                &&& final(a).tables@[tid as int]@ == post
            }
        }),
{
    if tid as usize >= a.tables.len() {
        return Err(ArenaError::NotFound);
    }
    let dealer = a.dealer;
    let t = &a.tables[tid as usize];
    if !matches!(t.state, crate::arena::TableState::Playing) {
        return Err(ArenaError::WrongState);
    }
    let turn = t.current_turn;
    let ag = t.agents[turn as usize];
    let is_dealer = crate::arena::addr_eq(&caller, &dealer);
    let is_agent = crate::arena::addr_eq(&caller, &ag.addr);
    if !is_dealer && !is_agent {
        return Err(ArenaError::Unauthorized);
    }
    if ag.kicked || ag.folded {
        return Err(ArenaError::WrongState);
    }
    let to_call: u128 = if t.current_bet > ag.hand_bet {
        t.current_bet - ag.hand_bet
    } else {
        0
    };
    proof {
        lemma_live_seat_means_live_count_pos(t.agents@, turn as int);
        assert(ag.missed < MISSED_TURNS_KICK);
    }
    if action == ACT_FOLD {
        let missed2: u8 = if is_dealer {
            ag.missed + 1
        } else {
            ag.missed
        };
        let ac2: u8 = t.active_count - 1;
        proof {
            let tv = old(a).tables@[tid as int]@;
            lemma_sum_by_update(tv.agents, turn as int,
                TableAgent { folded: true, missed: missed2, ..ag }, live_weight());
        }
        if is_dealer && missed2 >= MISSED_TURNS_KICK {
            if t.prize_pool > u128::MAX - ag.chips {
                return Err(ArenaError::Arithmetic);
            }
            let t = &mut a.tables[tid as usize];
            let agm = &mut t.agents[turn as usize];
            agm.folded = true;
            agm.missed = missed2;
            t.active_count = ac2;
            proof {
                let tv = old(a).tables@[tid as int]@;
                assert(t@ =~= (TableView {
                    agents: tv.agents.update(turn as int,
                        TableAgent { folded: true, missed: missed2, ..ag }),
                    active_count: ac2,
                    ..tv
                }));
            }
            kick_agent(t, turn);
            touch_last_action(t, now);
            proof {
                let tv = old(a).tables@[tid as int]@;
                let (er, post) = spec_action(tv, old(a).dealer, caller, action, amount, now);
                assert(a.tables@[tid as int]@ =~= post);
                let t1agents = tv.agents.update(turn as int,
                    TableAgent { folded: true, missed: missed2, ..ag });
                lemma_sum_by_update(t1agents, turn as int,
                    TableAgent { kicked: true, chips: 0, ..t1agents[turn as int] }, live_weight());
                assert(a.tables@[tid as int]@.wf());
            }
            return Ok(());
        }
        if ac2 == 1 {
            let w = find_active_except(t, turn);
            proof {
                let tv = old(a).tables@[tid as int]@;
                let fold_agent = TableAgent { folded: true, missed: missed2, ..ag };
                let folded = tv.agents.update(turn as int, fold_agent);
                lemma_first_live_update(tv.agents, turn as int, fold_agent, 0);
                assert(w as int == spec_first_live(folded, 0));
                lemma_live_count_pos(folded);
                lemma_spec_first_live(folded, 0);
                assert(w as int != turn as int);
                assert(folded[w as int].chips == tv.agents[w as int].chips);
            }
            if t.agents[w as usize].chips > u128::MAX - t.pot {
                proof {
                    let tv = old(a).tables@[tid as int]@;
                    let fold_agent = TableAgent { folded: true, missed: missed2, ..ag };
                    let folded = tv.agents.update(turn as int, fold_agent);
                    assert(folded[w as int].chips + tv.pot > u128::MAX);
                }
                return Err(ArenaError::Arithmetic);
            }
            let t = &mut a.tables[tid as usize];
            let agm = &mut t.agents[turn as usize];
            agm.folded = true;
            agm.missed = missed2;
            t.active_count = ac2;
            proof {
                let tv = old(a).tables@[tid as int]@;
                assert(t@ =~= (TableView {
                    agents: tv.agents.update(turn as int,
                        TableAgent { folded: true, missed: missed2, ..ag }),
                    active_count: ac2,
                    ..tv
                }));
            }
            award_pot(t, w);
            touch_last_action(t, now);
            proof {
                let tv = old(a).tables@[tid as int]@;
                let (er, post) = spec_action(tv, old(a).dealer, caller, action, amount, now);
                assert(a.tables@[tid as int]@ =~= post);
                let fold_agent = TableAgent { folded: true, missed: missed2, ..ag };
                let folded = tv.agents.update(turn as int, fold_agent);
                lemma_sum_by_update(folded, w as int,
                    TableAgent { chips: (folded[w as int].chips + tv.pot) as u128,
                        ..folded[w as int] }, live_weight());
                assert(a.tables@[tid as int]@.wf());
            }
            return Ok(());
        }
        let t = &mut a.tables[tid as usize];
        let agm = &mut t.agents[turn as usize];
        agm.folded = true;
        agm.missed = missed2;
        t.active_count = ac2;
        finish_turn(t, is_agent, turn, now);
        proof {
            let tv = old(a).tables@[tid as int]@;
            let (er, post) = spec_action(tv, old(a).dealer, caller, action, amount, now);
            let t1 = TableView {
                agents: tv.agents.update(turn as int,
                    TableAgent { folded: true, missed: missed2, ..ag }),
                active_count: ac2,
                ..tv
            };
            assert(t1 =~= (TableView { agents: t1.agents, active_count: ac2, ..tv }));
            assert(a.tables@[tid as int]@ =~= post);
            lemma_advance_turn_wf(t1, is_agent, turn as int, now);
            assert(a.tables@[tid as int]@.wf());
        }
        return Ok(());
    }
    if action == ACT_CHECK {
        if to_call != 0 {
            return Err(ArenaError::InvalidInput);
        }
        let t = &mut a.tables[tid as usize];
        finish_turn(t, is_agent, turn, now);
        proof {
            let tv = old(a).tables@[tid as int]@;
            let (er, post) = spec_action(tv, old(a).dealer, caller, action, amount, now);
            assert(a.tables@[tid as int]@ =~= post);
            lemma_advance_turn_wf(tv, is_agent, turn as int, now);
            assert(a.tables@[tid as int]@.wf());
        }
        return Ok(());
    }
    if action == ACT_CALL {
        if to_call == 0 {
            return Err(ArenaError::InvalidInput);
        }
        if ag.chips < to_call {
            return Err(ArenaError::InvalidInput);
        }
        if t.pot > u128::MAX - to_call {
            return Err(ArenaError::Arithmetic);
        }
        let new_chips = ag.chips - to_call;
        let new_hand_bet = ag.hand_bet + to_call;
        let new_pot = t.pot + to_call;
        let t = &mut a.tables[tid as usize];
        let agm = &mut t.agents[turn as usize];
        agm.chips = new_chips;
        agm.hand_bet = new_hand_bet;
        t.pot = new_pot;
        proof {
            let tv = old(a).tables@[tid as int]@;
            lemma_sum_by_update(tv.agents, turn as int,
                TableAgent { chips: new_chips, hand_bet: new_hand_bet, ..ag }, live_weight());
        }
        finish_turn(t, is_agent, turn, now);
        proof {
            let tv = old(a).tables@[tid as int]@;
            let (er, post) = spec_action(tv, old(a).dealer, caller, action, amount, now);
            let t1 = TableView {
                agents: tv.agents.update(turn as int,
                    TableAgent { chips: new_chips, hand_bet: new_hand_bet, ..ag }),
                pot: new_pot,
                ..tv
            };
            assert(a.tables@[tid as int]@ =~= post);
            lemma_advance_turn_wf(t1, is_agent, turn as int, now);
            assert(a.tables@[tid as int]@.wf());
        }
        return Ok(());
    }
    if action == ACT_RAISE {
        if amount == 0 {
            return Err(ArenaError::InvalidInput);
        }
        if to_call > u128::MAX - amount {
            return Err(ArenaError::Arithmetic);
        }
        let total = to_call + amount;
        if ag.chips < total {
            return Err(ArenaError::InvalidInput);
        }
        if ag.hand_bet > u128::MAX - total {
            return Err(ArenaError::Arithmetic);
        }
        if t.pot > u128::MAX - total {
            return Err(ArenaError::Arithmetic);
        }
        let new_chips = ag.chips - total;
        let new_hand_bet = ag.hand_bet + total;
        let new_pot = t.pot + total;
        let t = &mut a.tables[tid as usize];
        let agm = &mut t.agents[turn as usize];
        agm.chips = new_chips;
        agm.hand_bet = new_hand_bet;
        t.current_bet = new_hand_bet;
        t.pot = new_pot;
        proof {
            let tv = old(a).tables@[tid as int]@;
            lemma_sum_by_update(tv.agents, turn as int,
                TableAgent { chips: new_chips, hand_bet: new_hand_bet, ..ag }, live_weight());
        }
        finish_turn(t, is_agent, turn, now);
        proof {
            let tv = old(a).tables@[tid as int]@;
            let (er, post) = spec_action(tv, old(a).dealer, caller, action, amount, now);
            let t1 = TableView {
                agents: tv.agents.update(turn as int,
                    TableAgent { chips: new_chips, hand_bet: new_hand_bet, ..ag }),
                current_bet: new_hand_bet,
                pot: new_pot,
                ..tv
            };
            assert(a.tables@[tid as int]@ =~= post);
            lemma_advance_turn_wf(t1, is_agent, turn as int, now);
            assert(a.tables@[tid as int]@.wf());
        }
        return Ok(());
    }
    Err(ArenaError::InvalidInput)
}

/// Advancing the turn preserves the table invariant, the acting seat being
/// live before the move.
proof fn lemma_advance_turn_wf(t1: TableView, is_agent: bool, turn: int, now: u64)
    requires
        0 <= turn < t1.agents.len(),
    ensures
        ({
            let t2 = spec_advance_turn(t1, is_agent, turn, now);
            &&& t2.agents.len() == t1.agents.len()
            &&& spec_live_count_eq(t1.agents, t2.agents)
            &&& t2.current_turn < t1.agents.len()
        }),
{
    let agents2 = if is_agent {
        t1.agents.update(turn, TableAgent { missed: 0, ..t1.agents[turn] })
    } else {
        t1.agents
    };
    if is_agent {
        lemma_sum_by_update(t1.agents, turn, TableAgent { missed: 0, ..t1.agents[turn] },
            live_weight());
    }
    lemma_next_live_in_range(agents2, turn);
}

/// Two agent sequences with equal live counts.
pub open spec fn spec_live_count_eq(a: Seq<TableAgent>, b: Seq<TableAgent>) -> bool {
    spec_live_count(a) == spec_live_count(b)
}

/// The next-live scan lands on a valid seat.
proof fn lemma_next_live_in_range(agents: Seq<TableAgent>, after: int)
    requires
        0 <= after < agents.len(),
    ensures
        0 <= spec_next_live(agents, after) < agents.len(),
{
    lemma_next_live_offset_range(agents, after, 1);
    let d = crate::arena::spec_next_live_offset(agents, after, 1);
    assert(0 <= after + d);
    vstd::arithmetic::div_mod::lemma_mod_bound(after + d, agents.len() as int);
}

/// The next-live offset stays below the seat count.
proof fn lemma_next_live_offset_range(agents: Seq<TableAgent>, after: int, d: int)
    requires
        1 <= d,
    ensures
        0 <= crate::arena::spec_next_live_offset(agents, after, d) < agents.len() || (
        crate::arena::spec_next_live_offset(agents, after, d) == 0),
    decreases agents.len() - d,
{
    if !(d < agents.len() as int) {
    } else if !agents[(after + d) % agents.len() as int].kicked
        && !agents[(after + d) % agents.len() as int].folded {
    } else {
        lemma_next_live_offset_range(agents, after, d + 1);
    }
}

/// Reset the acting seat's miss counter where the agent acted for itself,
/// pass the turn to the next live seat, and refresh the inactivity timer.
fn finish_turn(t: &mut Table, is_agent: bool, turn: u8, now: u64)
    requires
        old(t)@.agents.len() <= crate::arena::MAX_TABLE_AGENTS,
        turn < old(t)@.agents.len(),
    ensures
        final(t)@ == spec_advance_turn(old(t)@, is_agent, turn as int, now),
{
    if is_agent {
        let agm = &mut t.agents[turn as usize];
        agm.missed = 0;
    }
    let next = find_next_active(t, turn);
    t.current_turn = next;
    t.last_action = now;
    proof {
        assert(t@ =~= spec_advance_turn(old(t)@, is_agent, turn as int, now));
    }
}

} // verus!
