//! Dealer-driven play: dealing a hand and resolving it.

use vstd::prelude::*;
use crate::arena::{
    Arena, MAX_TABLE_AGENTS, Table, TableAgent, TableState, TableView, alive_weight,
    award_pot, live_weight, require_dealer, spec_alive_count, spec_award, spec_live_count,
    touch_last_action,
};
use crate::errors::ArenaError;
use crate::sums::{sum_by, lemma_sum_by_update};

verus! {

/// The first seat not yet kicked, at or after `i`; 0 where none is.
pub open spec fn spec_first_alive(agents: Seq<TableAgent>, i: int) -> int
    decreases agents.len() - i,
{
    if i < 0 || i >= agents.len() {
        0
    } else if !agents[i].kicked {
        i
    } else {
        spec_first_alive(agents, i + 1)
    }
}

/// The first alive seat is alive and in range, where any seat is alive.
proof fn lemma_spec_first_alive(agents: Seq<TableAgent>, i: int)
    requires
        0 <= i <= agents.len(),
        exists|j: int| i <= j < agents.len() && !(#[trigger] agents[j]).kicked,
    ensures
        ({
            let w = spec_first_alive(agents, i);
            &&& i <= w < agents.len()
            &&& !agents[w].kicked
        }),
    decreases agents.len() - i,
{
    if !(i < agents.len() && !agents[i].kicked) {
        let j = choose|j: int| i <= j < agents.len() && !(#[trigger] agents[j]).kicked;
        assert(i + 1 <= j);
        lemma_spec_first_alive(agents, i + 1);
    }
}

/// A positive alive count means some seat is alive.
proof fn lemma_alive_count_pos(agents: Seq<TableAgent>)
    requires
        spec_alive_count(agents) > 0,
    ensures
        exists|j: int| 0 <= j < agents.len() && !(#[trigger] agents[j]).kicked,
    decreases agents.len(),
{
    if agents.len() > 0 {
        if !agents.last().kicked {
            assert(!agents[agents.len() - 1].kicked);
        } else {
            assert(spec_alive_count(agents) == sum_by(agents.drop_last(), alive_weight()));
            lemma_alive_count_pos(agents.drop_last());
            let j = choose|j: int|
                0 <= j < agents.drop_last().len() && !(#[trigger] agents.drop_last()[j]).kicked;
            assert(!agents[j].kicked);
        }
    }
}

/// How many seats are not yet kicked.
fn count_alive(t: &Table) -> (r: u8)
    requires
        t@.agents.len() <= MAX_TABLE_AGENTS,
    ensures
        r as int == spec_alive_count(t@.agents),
{
    let n = t.agents.len();
    let mut alive: u8 = 0;
    let mut i: usize = 0;
    proof {
        assert(t.agents@.subrange(0, 0) =~= Seq::<TableAgent>::empty());
    }
    while i < n
        invariant
            n == t.agents@.len(),
            n <= MAX_TABLE_AGENTS,
            i <= n,
            alive <= i,
            alive as int == spec_alive_count(t.agents@.subrange(0, i as int)),
        decreases n - i,
    {
        proof {
            let pre = t.agents@.subrange(0, i as int);
            let post = t.agents@.subrange(0, i as int + 1);
            assert(post.drop_last() =~= pre);
            assert(post.last() == t.agents@[i as int]);
        }
        if !t.agents[i].kicked {
            alive = alive + 1;
        }
        i = i + 1;
    }
    proof {
        assert(t.agents@.subrange(0, n as int) =~= t.agents@);
    }
    alive
}

/// The first seat not yet kicked; seat 0 where all are kicked.
fn first_alive(t: &Table) -> (r: u8)
    requires
        t@.agents.len() <= MAX_TABLE_AGENTS,
    ensures
        r as int == spec_first_alive(t@.agents, 0),
        r < MAX_TABLE_AGENTS,
{
    let n = t.agents.len();
    let mut i: usize = 0;
    while i < n
        invariant
            n == t.agents@.len(),
            n <= MAX_TABLE_AGENTS,
            i <= n,
            spec_first_alive(t.agents@, 0) == spec_first_alive(t.agents@, i as int),
        decreases n - i,
    {
        if !t.agents[i].kicked {
            return i as u8;
        }
        i = i + 1;
    }
    0
}

/// The agents at the start of a fresh hand: every seat not yet kicked is
/// unfolded with an empty hand bet; kicked seats are untouched.
pub open spec fn spec_deal_agents(agents: Seq<TableAgent>) -> Seq<TableAgent> {
    Seq::new(agents.len(), |i: int|
        if agents[i].kicked {
            agents[i]
        } else {
            TableAgent { folded: false, hand_bet: 0, ..agents[i] }
        })
}

/// Dealing unfolds every unkicked seat, so afterwards exactly the unkicked
/// seats are live.
proof fn lemma_deal_live_count(agents: Seq<TableAgent>)
    ensures
        spec_live_count(spec_deal_agents(agents)) == spec_alive_count(agents),
        spec_deal_agents(agents).len() == agents.len(),
    decreases agents.len(),
{
    if agents.len() > 0 {
        lemma_deal_live_count(agents.drop_last());
        assert(spec_deal_agents(agents).drop_last() =~= spec_deal_agents(agents.drop_last()));
    }
}

/// Reset the per-hand state of every unkicked seat.
fn reset_hand(t: &mut Table)
    ensures
        final(t)@ == (TableView { agents: spec_deal_agents(old(t)@.agents), ..old(t)@ }),
{
    let n = t.agents.len();
    let mut i: usize = 0;
    while i < n
        invariant
            n == t.agents@.len(),
            n == old(t)@.agents.len(),
            i <= n,
            t@ == (TableView { agents: t.agents@, ..old(t)@ }),
            forall|j: int| 0 <= j < i ==> t.agents@[j] == spec_deal_agents(old(t)@.agents)[j],
            forall|j: int| i <= j < n ==> t.agents@[j] == old(t)@.agents[j],
        decreases n - i,
    {
        if !t.agents[i].kicked {
            let ag = &mut t.agents[i];
            ag.folded = false;
            ag.hand_bet = 0;
        }
        proof {
            let o = old(t)@.agents;
            assert(spec_deal_agents(o)[i as int] == (if o[i as int].kicked {
                o[i as int]
            } else {
                (TableAgent { folded: false, hand_bet: 0, ..o[i as int] })
            }));
            assert(t.agents@[i as int] == spec_deal_agents(o)[i as int]);
        }
        i = i + 1;
    }
    proof {
        assert(t.agents@ =~= spec_deal_agents(old(t)@.agents));
        assert(t@ =~= (TableView { agents: spec_deal_agents(old(t)@.agents), ..old(t)@ }));
    }
}

/// Deal a hand as the dealer.
///
/// Checks, in order: the caller must be the dealer; the table must exist,
/// seat at least two agents, be open (a first deal starts play) or already
/// playing, and still hold at least two unkicked agents; and the hand
/// counter must not be exhausted. On success every unkicked seat is unfolded
/// with an empty hand bet, the hand counter advances, the pot and current
/// bet reset, the turn passes to the first unkicked seat, the live counter
/// is recomputed, and the inactivity timer refreshes.
pub fn handle_deal(a: &mut Arena, tid: u32, caller: crate::arena::Addr, now: u64) -> (r: Result<
    (),
    ArenaError,
>)
    requires
        old(a).wf(),
    ensures
        final(a).wf(),
        ({
            let tv = old(a).tables@[tid as int]@;
            if caller@ != old(a).dealer@ {
                r == Err::<(), ArenaError>(ArenaError::Unauthorized)
                    && final(a).unchanged(*old(a))
            } else if tid as int >= old(a).tables@.len() {
                r == Err::<(), ArenaError>(ArenaError::NotFound) && final(a).unchanged(*old(a))
            } else if tv.agents.len() < 2 {
                r == Err::<(), ArenaError>(ArenaError::WrongState) && final(a).unchanged(*old(a))
            } else if !(tv.state is Open || tv.state is Playing) {
                r == Err::<(), ArenaError>(ArenaError::WrongState) && final(a).unchanged(*old(a))
            } else if spec_alive_count(tv.agents) < 2 {
                r == Err::<(), ArenaError>(ArenaError::WrongState) && final(a).unchanged(*old(a))
            } else if tv.current_hand == u32::MAX {
                r == Err::<(), ArenaError>(ArenaError::Arithmetic)
                    && final(a).unchanged(*old(a))
            } else {
                &&& r == Ok::<(), ArenaError>(())
                &&& final(a).only_table_changed(*old(a), tid as int)
                &&& final(a).tables@[tid as int]@ == (TableView {
                    state: TableState::Playing,
                    current_hand: (tv.current_hand + 1) as u32,
                    pot: 0,
                    current_turn: spec_first_alive(tv.agents, 0) as u8,
                    current_bet: 0,
                    active_count: spec_alive_count(tv.agents) as u8,
                    last_action: now,
                    agents: spec_deal_agents(tv.agents),
                    ..tv
                })
            }
        }),
{
    if !require_dealer(a, &caller) {
        return Err(ArenaError::Unauthorized);
    }
    if tid as usize >= a.tables.len() {
        return Err(ArenaError::NotFound);
    }
    let t = &a.tables[tid as usize];
    if t.agents.len() < 2 {
        return Err(ArenaError::WrongState);
    }
    match t.state {
        TableState::Open => {},
        TableState::Playing => {},
        _ => {
            return Err(ArenaError::WrongState);
        },
    }
    let alive = count_alive(t);
    if alive < 2 {
        return Err(ArenaError::WrongState);
    }
    let first = first_alive(t);
    if t.current_hand == u32::MAX {
        return Err(ArenaError::Arithmetic);
    }
    let new_hand = t.current_hand + 1;
    let t = &mut a.tables[tid as usize];
    reset_hand(t);
    t.state = TableState::Playing;
    t.current_hand = new_hand;
    t.pot = 0;
    t.current_turn = first;
    t.current_bet = 0;
    t.active_count = alive;
    touch_last_action(t, now);
    proof {
        let tv = old(a).tables@[tid as int]@;
        lemma_deal_live_count(tv.agents);
        lemma_alive_count_pos(tv.agents);
        lemma_spec_first_alive(tv.agents, 0);
        assert(a.tables@[tid as int]@ =~= (TableView {
            state: TableState::Playing,
            current_hand: new_hand,
            pot: 0,
            current_turn: first,
            current_bet: 0,
            active_count: alive,
            last_action: now,
            agents: spec_deal_agents(tv.agents),
            ..tv
        }));
        assert(a.tables@[tid as int]@.wf());
    }
    Ok(())
}

/// Resolve the current hand as the dealer: the named seat takes the pot.
///
/// Checks, in order: the caller must be the dealer; the table must exist and
/// be playing; the winning seat must exist, not be kicked and not have
/// folded; and the winner's stack must be able to take the pot. On success
/// the pot moves to the winner, the per-hand counters reset, the session-end
/// check runs, and the inactivity timer refreshes.
pub fn handle_resolve_hand(
    a: &mut Arena,
    tid: u32,
    winner: u8,
    caller: crate::arena::Addr,
    now: u64,
) -> (r: Result<(), ArenaError>)
    requires
        old(a).wf(),
    ensures
        final(a).wf(),
        ({
            let tv = old(a).tables@[tid as int]@;
            if caller@ != old(a).dealer@ {
                r == Err::<(), ArenaError>(ArenaError::Unauthorized)
                    && final(a).unchanged(*old(a))
            } else if tid as int >= old(a).tables@.len() {
                r == Err::<(), ArenaError>(ArenaError::NotFound) && final(a).unchanged(*old(a))
            } else if !(tv.state is Playing) {
                r == Err::<(), ArenaError>(ArenaError::WrongState) && final(a).unchanged(*old(a))
            } else if winner as int >= tv.agents.len() {
                r == Err::<(), ArenaError>(ArenaError::NotFound) && final(a).unchanged(*old(a))
            } else if tv.agents[winner as int].kicked {
                r == Err::<(), ArenaError>(ArenaError::InvalidInput)
                    && final(a).unchanged(*old(a))
            } else if tv.agents[winner as int].folded {
                r == Err::<(), ArenaError>(ArenaError::InvalidInput)
                    && final(a).unchanged(*old(a))
            } else if tv.agents[winner as int].chips + tv.pot > u128::MAX {
                r == Err::<(), ArenaError>(ArenaError::Arithmetic)
                    && final(a).unchanged(*old(a))
            } else {
                &&& r == Ok::<(), ArenaError>(())
                &&& final(a).only_table_changed(*old(a), tid as int)
                &&& final(a).tables@[tid as int]@ == (TableView {
                    last_action: now,
                    ..spec_award(tv, winner as int)
                })
            }
        }),
{
    if !require_dealer(a, &caller) {
        return Err(ArenaError::Unauthorized);
    }
    if tid as usize >= a.tables.len() {
        return Err(ArenaError::NotFound);
    }
    let t = &a.tables[tid as usize];
    if !matches!(t.state, TableState::Playing) {
        return Err(ArenaError::WrongState);
    }
    if winner as usize >= t.agents.len() {
        return Err(ArenaError::NotFound);
    }
    if t.agents[winner as usize].kicked {
        return Err(ArenaError::InvalidInput);
    }
    if t.agents[winner as usize].folded {
        return Err(ArenaError::InvalidInput);
    }
    if t.agents[winner as usize].chips > u128::MAX - t.pot {
        return Err(ArenaError::Arithmetic);
    }
    let t = &mut a.tables[tid as usize];
    award_pot(t, winner);
    touch_last_action(t, now);
    proof {
        let tv = old(a).tables@[tid as int]@;
        let awarded = spec_award(tv, winner as int);
        assert(a.tables@[tid as int]@ =~= (TableView { last_action: now, ..awarded }));
        let new_agent = TableAgent {
            chips: (tv.agents[winner as int].chips + tv.pot) as u128,
            ..tv.agents[winner as int]
        };
        lemma_sum_by_update(tv.agents, winner as int, new_agent, live_weight());
        assert(a.tables@[tid as int]@.wf());
    }
    Ok(())
}

} // verus!
