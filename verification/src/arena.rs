//! A dealer-driven table game with buy-ins, a per-table prize pool, side
//! bets, per-hand pots and a platform cut: the state machine behind a
//! host-dispatched contract surface.
//!
//! The host (storage, transfers, clock, caller identity, calldata) is an
//! external collaborator: every handler takes the caller, the current time
//! and the attached value as plain arguments, mutates the in-memory state,
//! and returns the amounts the host must pay out. A table id is the table's
//! position in creation order; an id never issued is rejected as not found.

use vstd::prelude::*;
use crate::sums::{sum_by, lemma_sum_by_bounds_element};

verus! {

/// A transferable account address, as the host presents it.
pub type Addr = [u8; 20];

/// Fold action selector.
pub const ACT_FOLD: u8 = 0;

/// Check action selector.
pub const ACT_CHECK: u8 = 1;

/// Call action selector.
pub const ACT_CALL: u8 = 2;

/// Raise action selector.
pub const ACT_RAISE: u8 = 3;

/// The most agents a table can seat.
pub const MAX_TABLE_AGENTS: u8 = 8;

/// The most side bets a table can record.
pub const MAX_BETTORS: usize = 64;

/// The platform's cut of the prize pool and of the bet pool, in basis
/// points.
pub const PLATFORM_FEE_BPS: u128 = 500;

/// How long the dealer may go dark during play before anyone may cancel the
/// session, in seconds.
pub const INACTIVITY_SECS: u64 = 3600;

/// How many dealer-submitted timeout folds in a row kick an agent.
pub const MISSED_TURNS_KICK: u8 = 3;

/// A table session's lifecycle state.
#[derive(Clone, Copy, Debug, PartialEq, Eq, Structural)]
pub enum TableState {
    /// Joining and betting are open; no hand dealt yet.
    Open,
    /// Hands are being dealt and played.
    Playing,
    /// The session ended; chips, prize and bet winnings are claimable.
    Ended,
    /// The session was cancelled; buy-ins, the prize pool and bets are
    /// refundable.
    Cancelled,
}

/// One seated agent.
#[derive(Clone, Copy, Debug)]
pub struct TableAgent {
    /// The owning account.
    pub addr: Addr,
    /// Chips in front of the agent; starts at the buy-in.
    pub chips: u128,
    /// Folded in the current hand.
    pub folded: bool,
    /// Kicked for repeated timeouts; out of the session for good.
    pub kicked: bool,
    /// Consecutive dealer-submitted timeout folds.
    pub missed: u8,
    /// Chips committed to the current hand's pot.
    pub hand_bet: u128,
    /// The chips (or, at cancellation, the buy-in) were already claimed.
    pub chips_claimed: bool,
    /// The prize share was already claimed.
    pub prize_claimed: bool,
    /// Sum of all side bets backing this seat.
    pub bet_total: u128,
}

/// One side bet on a seat.
#[derive(Clone, Copy, Debug)]
pub struct TableBet {
    /// The wagering account.
    pub addr: Addr,
    /// The backed seat.
    pub seat: u8,
    /// The wagered amount.
    pub amount: u128,
    /// Paid out or refunded already.
    pub claimed: bool,
}

/// One table session.
pub struct Table {
    /// The account that created the table and funded the prize pool.
    pub creator: Addr,
    /// The prize pool: the creation value, grown by forfeited chips.
    pub prize_pool: u128,
    /// The buy-in each joining agent pays.
    pub buy_in: u128,
    /// Seat capacity chosen at creation.
    pub max_agents: u8,
    /// How many hands make a full session.
    pub session_len: u32,
    /// Hands dealt so far.
    pub current_hand: u32,
    /// Until when side bets are accepted.
    pub bet_deadline: u64,
    /// The lifecycle state.
    pub state: TableState,
    /// The current hand's pot.
    pub pot: u128,
    /// Whose turn it is.
    pub current_turn: u8,
    /// The current hand's highest committed bet.
    pub current_bet: u128,
    /// Agents still live (neither kicked nor folded) in the current hand.
    pub active_count: u8,
    /// Sum of all side bets.
    pub total_bet_pool: u128,
    /// When the dealer last acted; drives the inactivity cancel guard.
    pub last_action: u64,
    /// The platform's prize cut was paid (or, after cancellation, the prize
    /// pool was refunded).
    pub prize_fee_paid: bool,
    /// The platform's bet cut was paid.
    pub bet_fee_paid: bool,
    /// The seated agents, in joining order.
    pub agents: Vec<TableAgent>,
    /// The side bets, in placement order.
    pub bets: Vec<TableBet>,
}

/// The mathematical model of a [`Table`].
#[verifier::ext_equal]
pub ghost struct TableView {
    pub creator: Addr,
    pub prize_pool: u128,
    pub buy_in: u128,
    pub max_agents: u8,
    pub session_len: u32,
    pub current_hand: u32,
    pub bet_deadline: u64,
    pub state: TableState,
    pub pot: u128,
    pub current_turn: u8,
    pub current_bet: u128,
    pub active_count: u8,
    pub total_bet_pool: u128,
    pub last_action: u64,
    pub prize_fee_paid: bool,
    pub bet_fee_paid: bool,
    pub agents: Seq<TableAgent>,
    pub bets: Seq<TableBet>,
}

impl View for Table {
    type V = TableView;

    open spec fn view(&self) -> TableView {
        TableView {
            creator: self.creator,
            prize_pool: self.prize_pool,
            buy_in: self.buy_in,
            max_agents: self.max_agents,
            session_len: self.session_len,
            current_hand: self.current_hand,
            bet_deadline: self.bet_deadline,
            state: self.state,
            pot: self.pot,
            current_turn: self.current_turn,
            current_bet: self.current_bet,
            active_count: self.active_count,
            total_bet_pool: self.total_bet_pool,
            last_action: self.last_action,
            prize_fee_paid: self.prize_fee_paid,
            bet_fee_paid: self.bet_fee_paid,
            agents: self.agents@,
            bets: self.bets@,
        }
    }
}

/// Weight 1 for an agent that is live in the current hand: neither kicked
/// nor folded.
pub open spec fn live_weight() -> spec_fn(TableAgent) -> int {
    |a: TableAgent| if !a.kicked && !a.folded { 1 } else { 0 }
}

/// How many agents are live in the current hand.
pub open spec fn spec_live_count(agents: Seq<TableAgent>) -> int {
    sum_by(agents, live_weight())
}

/// Weight 1 for an agent still in the session: not kicked.
pub open spec fn alive_weight() -> spec_fn(TableAgent) -> int {
    |a: TableAgent| if !a.kicked { 1 } else { 0 }
}

/// How many agents are still in the session.
pub open spec fn spec_alive_count(agents: Seq<TableAgent>) -> int {
    sum_by(agents, alive_weight())
}

impl TableView {
    /// The table invariant: established at creation and preserved by every
    /// handler.
    pub open spec fn wf(self) -> bool {
        &&& self.max_agents <= MAX_TABLE_AGENTS
        &&& self.agents.len() <= self.max_agents as int
        &&& self.bets.len() <= MAX_BETTORS
        // Seat addresses are unique: one seat per account.
        &&& (forall|i: int, j: int|
            0 <= i < j < self.agents.len()
                ==> (#[trigger] self.agents[i]).addr@ != (#[trigger] self.agents[j]).addr@)
        // Every bet backs an existing seat.
        &&& (forall|k: int|
            0 <= k < self.bets.len() ==> (#[trigger] self.bets[k]).seat < self.agents.len())
        // During play, the turn marker is a valid seat and the live counter
        // is exact.
        &&& (self.state is Playing ==> self.current_turn < self.agents.len())
        &&& (self.state is Playing ==> self.active_count as int == spec_live_count(self.agents))
        // An agent not yet kicked has fewer misses than the kick threshold.
        &&& (forall|i: int|
            0 <= i < self.agents.len() && !(#[trigger] self.agents[i]).kicked
                ==> self.agents[i].missed < MISSED_TURNS_KICK)
    }
}

/// The root state: the platform, the global dealer, and every table.
pub struct Arena {
    /// The platform account; receives the fee cuts and appoints dealers.
    pub platform: Addr,
    /// The global dealer account that drives every table's hands.
    pub dealer: Addr,
    /// All tables, in creation order; a table's id is its position.
    pub tables: Vec<Table>,
}

impl Arena {
    /// The arena invariant: table ids fit the id space and every table is
    /// well-formed.
    pub open spec fn wf(&self) -> bool {
        &&& self.tables@.len() <= u32::MAX as int
        &&& (forall|i: int|
            0 <= i < self.tables@.len() ==> (#[trigger] self.tables@[i])@.wf())
    }

    /// Everything but the table at position `i` is as it was.
    pub open spec fn only_table_changed(&self, pre: Self, i: int) -> bool {
        &&& self.platform == pre.platform
        &&& self.dealer == pre.dealer
        &&& self.tables@.len() == pre.tables@.len()
        &&& (forall|j: int|
            0 <= j < pre.tables@.len() && j != i
                ==> #[trigger] self.tables@[j]@ == pre.tables@[j]@)
    }

    /// Nothing changed at all.
    pub open spec fn unchanged(&self, pre: Self) -> bool {
        &&& self.platform == pre.platform
        &&& self.dealer == pre.dealer
        &&& self.tables@ == pre.tables@
    }

    /// A fresh arena, as deployment leaves it: the deployer is both the
    /// platform and the first dealer, and no table exists.
    pub fn new(deployer: Addr) -> (r: Self)
        ensures
            r.wf(),
            r.platform@ == deployer@,
            r.dealer@ == deployer@,
            r.tables@.len() == 0,
    {
        Arena { platform: deployer, dealer: deployer, tables: Vec::new() }
    }
}

/// Byte-for-byte address equality.
pub fn addr_eq(a: &Addr, b: &Addr) -> (r: bool)
    ensures
        r <==> a@ == b@,
{
    let mut i: usize = 0;
    while i < 20
        invariant
            i <= 20,
            forall|j: int| 0 <= j < i ==> a@[j] == b@[j],
        decreases 20 - i,
    {
        if a[i] != b[i] {
            return false;
        }
        i = i + 1;
    }
    proof {
        assert(a@ =~= b@);
    }
    true
}

/// Refresh the inactivity timer; called on every dealer action.
pub fn touch_last_action(t: &mut Table, now: u64)
    ensures
        final(t)@ == (TableView { last_action: now, ..old(t)@ }),
{
    t.last_action = now;
    proof {
        assert(t@ =~= (TableView { last_action: now, ..old(t)@ }));
    }
}

/// Whether the caller is the global dealer.
pub fn require_dealer(a: &Arena, caller: &Addr) -> (r: bool)
    ensures
        r <==> caller@ == a.dealer@,
{
    addr_eq(caller, &a.dealer)
}

/// The first live (neither kicked nor folded) seat at or after `i`, or 0
/// where none is.
pub open spec fn spec_first_live(agents: Seq<TableAgent>, i: int) -> int
    decreases agents.len() - i,
{
    if i < 0 || i >= agents.len() {
        0
    } else if !agents[i].kicked && !agents[i].folded {
        i
    } else {
        spec_first_live(agents, i + 1)
    }
}

/// The first live seat is live, where any seat is.
pub proof fn lemma_spec_first_live(agents: Seq<TableAgent>, i: int)
    requires
        0 <= i <= agents.len(),
        exists|j: int| i <= j < agents.len() && !(#[trigger] agents[j]).kicked && !agents[j].folded,
    ensures
        ({
            let w = spec_first_live(agents, i);
            &&& i <= w < agents.len()
            &&& !agents[w].kicked && !agents[w].folded
            &&& (forall|j: int| i <= j < w ==> (#[trigger] agents[j]).kicked || agents[j].folded)
        }),
    decreases agents.len() - i,
{
    if !(i < agents.len() && !agents[i].kicked && !agents[i].folded) {
        let j = choose|j: int|
            i <= j < agents.len() && !(#[trigger] agents[j]).kicked && !agents[j].folded;
        assert(i + 1 <= j);
        lemma_spec_first_live(agents, i + 1);
    }
}

/// The first live (neither kicked nor folded) seat, or seat 0 where no seat
/// is live.
pub fn find_active(t: &Table) -> (r: u8)
    requires
        t@.agents.len() <= MAX_TABLE_AGENTS,
    ensures
        r as int == spec_first_live(t@.agents, 0),
        r < MAX_TABLE_AGENTS,
{
    let n = t.agents.len();
    let mut i: usize = 0;
    while i < n
        invariant
            n == t.agents@.len(),
            n <= MAX_TABLE_AGENTS,
            i <= n,
            spec_first_live(t.agents@, 0) == spec_first_live(t.agents@, i as int),
        decreases n - i,
    {
        if !t.agents[i].kicked && !t.agents[i].folded {
            return i as u8;
        }
        i = i + 1;
    }
    0
}

/// The offset of the next live seat after `after`, scanning offsets `d` and
/// up with wrap-around; 0 (meaning: stay at `after`) where no other seat is
/// live.
pub open spec fn spec_next_live_offset(agents: Seq<TableAgent>, after: int, d: int) -> int
    decreases agents.len() - d,
{
    let n = agents.len() as int;
    if d < 1 || d >= n {
        0
    } else if !agents[(after + d) % n].kicked && !agents[(after + d) % n].folded {
        d
    } else {
        spec_next_live_offset(agents, after, d + 1)
    }
}

/// The seat [`find_next_active`] lands on.
pub open spec fn spec_next_live(agents: Seq<TableAgent>, after: int) -> int {
    let n = agents.len() as int;
    (after + spec_next_live_offset(agents, after, 1)) % n
}

/// The next live seat after `after`, scanning forward with wrap-around;
/// `after` itself where no other seat is live.
pub fn find_next_active(t: &Table, after: u8) -> (r: u8)
    requires
        t@.agents.len() <= MAX_TABLE_AGENTS,
        after < t@.agents.len(),
    ensures
        r < t@.agents.len(),
        r as int == spec_next_live(t@.agents, after as int),
{
    let n = t.agents.len();
    let mut d: usize = 1;
    while d < n
        invariant
            n == t.agents@.len(),
            n <= MAX_TABLE_AGENTS,
            after < n,
            1 <= d,
            d <= n || n == 0,
            spec_next_live_offset(t.agents@, after as int, 1)
                == spec_next_live_offset(t.agents@, after as int, d as int),
        decreases n - d,
    {
        let seat = (after as usize + d) % n;
        if !t.agents[seat].kicked && !t.agents[seat].folded {
            return seat as u8;
        }
        d = d + 1;
    }
    proof {
        if n > 0 {
            assert(spec_next_live_offset(t.agents@, after as int, n as int) == 0);
            vstd::arithmetic::div_mod::lemma_small_mod(after as nat, n as nat);
        }
    }
    after
}

/// The seat of the first agent owned by `who`, if any. Seat addresses are
/// unique at any well-formed table, so the first match is the only one.
pub fn find_seat(t: &Table, who: &Addr) -> (r: Option<u8>)
    requires
        t@.agents.len() <= MAX_TABLE_AGENTS,
    ensures
        match r {
            Some(i) => {
                &&& i < t@.agents.len()
                &&& t@.agents[i as int].addr@ == who@
                &&& (forall|j: int| 0 <= j < i ==> (#[trigger] t@.agents[j]).addr@ != who@)
            },
            None => forall|j: int|
                0 <= j < t@.agents.len() ==> (#[trigger] t@.agents[j]).addr@ != who@,
        },
{
    let n = t.agents.len();
    let mut i: usize = 0;
    while i < n
        invariant
            n == t.agents@.len(),
            n <= MAX_TABLE_AGENTS,
            i <= n,
            forall|j: int| 0 <= j < i ==> (#[trigger] t.agents@[j]).addr@ != who@,
        decreases n - i,
    {
        if addr_eq(&t.agents[i].addr, who) {
            return Some(i as u8);
        }
        i = i + 1;
    }
    None
}

/// Weight 1 for an agent whose chip count equals `v`.
pub open spec fn chips_eq_weight(v: u128) -> spec_fn(TableAgent) -> int {
    |a: TableAgent| if a.chips == v { 1 } else { 0 }
}

/// How many agents hold exactly `v` chips.
pub open spec fn spec_chips_eq_count(agents: Seq<TableAgent>, v: u128) -> int {
    sum_by(agents, chips_eq_weight(v))
}

/// The highest chip count at the table; zero where nobody holds chips.
pub open spec fn spec_max_chips(agents: Seq<TableAgent>) -> u128
    decreases agents.len(),
{
    if agents.len() == 0 {
        0
    } else if agents.last().chips > spec_max_chips(agents.drop_last()) {
        agents.last().chips
    } else {
        spec_max_chips(agents.drop_last())
    }
}

/// A positive maximum is attained, and by as many seats as the count says.
pub proof fn lemma_max_chips_attained(agents: Seq<TableAgent>)
    requires
        spec_max_chips(agents) > 0,
    ensures
        exists|j: int| 0 <= j < agents.len()
            && (#[trigger] agents[j]).chips == spec_max_chips(agents),
        spec_chips_eq_count(agents, spec_max_chips(agents)) >= 1,
    decreases agents.len(),
{
    let m = spec_max_chips(agents);
    if agents.last().chips == m {
        assert(agents[agents.len() - 1].chips == m);
    } else {
        lemma_max_chips_attained(agents.drop_last());
        let j = choose|j: int|
            0 <= j < agents.drop_last().len()
                && (#[trigger] agents.drop_last()[j]).chips == spec_max_chips(
                agents.drop_last());
        assert(agents[j].chips == m);
    }
    let j = choose|j: int|
        0 <= j < agents.len() && (#[trigger] agents[j]).chips == m;
    assert(forall|a: TableAgent| #[trigger] (chips_eq_weight(m)(a)) >= 0);
    lemma_sum_by_bounds_element(agents, j, chips_eq_weight(m));
}

/// The highest chip count at the table, over all seats (kicked seats hold
/// zero chips, having forfeited them), and how many seats share it; both
/// zero where no seat holds chips.
pub fn find_chip_leaders(t: &Table) -> (r: (u128, u8))
    requires
        t@.agents.len() <= MAX_TABLE_AGENTS,
    ensures
        r.0 == spec_max_chips(t@.agents),
        r.0 > 0 ==> r.1 as int == spec_chips_eq_count(t@.agents, r.0),
        r.0 == 0 ==> r.1 == 0,
{
    let n = t.agents.len();
    let mut max: u128 = 0;
    let mut num: u8 = 0;
    let mut i: usize = 0;
    proof {
        assert(t.agents@.subrange(0, 0) =~= Seq::<TableAgent>::empty());
    }
    while i < n
        invariant
            n == t.agents@.len(),
            n <= MAX_TABLE_AGENTS,
            i <= n,
            num <= i,
            max == spec_max_chips(t.agents@.subrange(0, i as int)),
            max > 0 ==> num as int == spec_chips_eq_count(t.agents@.subrange(0, i as int), max),
            max == 0 ==> num == 0,
        decreases n - i,
    {
        proof {
            let pre = t.agents@.subrange(0, i as int);
            let post = t.agents@.subrange(0, i as int + 1);
            assert(post.drop_last() =~= pre);
            assert(post.last() == t.agents@[i as int]);
        }
        let chips = t.agents[i].chips;
        if chips > max {
            max = chips;
            num = 1;
            proof {
                lemma_chips_below_not_counted(t.agents@.subrange(0, i as int), max);
            }
        } else if chips == max && max > 0 {
            num = num + 1;
        }
        i = i + 1;
    }
    proof {
        assert(t.agents@.subrange(0, n as int) =~= t.agents@);
    }
    (max, num)
}

/// A chip count above everything seen so far is held by nobody seen so far.
proof fn lemma_chips_below_not_counted(agents: Seq<TableAgent>, v: u128)
    requires
        spec_max_chips(agents) < v,
    ensures
        spec_chips_eq_count(agents, v) == 0,
    decreases agents.len(),
{
    if agents.len() > 0 {
        lemma_chips_below_not_counted(agents.drop_last(), v);
    }
}

/// The table after the session-end check: the session ends when the dealt
/// hands reach the session length or at most one agent remains unkicked.
pub open spec fn spec_maybe_end(t: TableView) -> TableView {
    if t.current_hand >= t.session_len || spec_alive_count(t.agents) <= 1 {
        TableView { state: TableState::Ended, ..t }
    } else {
        t
    }
}

/// End the session if the hand count or the survivor count says so.
pub fn maybe_end_session(t: &mut Table)
    requires
        old(t)@.agents.len() <= MAX_TABLE_AGENTS,
    ensures
        final(t)@ == spec_maybe_end(old(t)@),
{
    let n = t.agents.len();
    let mut alive: u8 = 0;
    let mut i: usize = 0;
    proof {
        assert(t.agents@.subrange(0, 0) =~= Seq::<TableAgent>::empty());
    }
    while i < n
        invariant
            n == t.agents@.len(),
            n <= MAX_TABLE_AGENTS,
            i <= n,
            alive <= i,
            alive as int == spec_alive_count(t.agents@.subrange(0, i as int)),
        decreases n - i,
    {
        proof {
            let pre = t.agents@.subrange(0, i as int);
            let post = t.agents@.subrange(0, i as int + 1);
            assert(post.drop_last() =~= pre);
            assert(post.last() == t.agents@[i as int]);
        }
        if !t.agents[i].kicked {
            alive = alive + 1;
        }
        i = i + 1;
    }
    proof {
        assert(t.agents@.subrange(0, n as int) =~= t.agents@);
    }
    if t.current_hand >= t.session_len || alive <= 1 {
        t.state = TableState::Ended;
        proof {
            assert(t@ =~= spec_maybe_end(old(t)@));
        }
    } else {
        proof {
            assert(t@ =~= spec_maybe_end(old(t)@));
        }
    }
}

/// The table after `seat` is kicked: the seat is marked kicked, its chips
/// are forfeited to the prize pool, and the session-end check runs.
pub open spec fn spec_kick(t: TableView, seat: int) -> TableView {
    let a = t.agents[seat];
    spec_maybe_end(TableView {
        agents: t.agents.update(seat, TableAgent { kicked: true, chips: 0, ..a }),
        prize_pool: (t.prize_pool + a.chips) as u128,
        ..t
    })
}

/// Kick an agent: mark it kicked, forfeit its remaining chips to the prize
/// pool, and run the session-end check.
pub fn kick_agent(t: &mut Table, seat: u8)
    requires
        old(t)@.agents.len() <= MAX_TABLE_AGENTS,
        seat < old(t)@.agents.len(),
        old(t)@.prize_pool + old(t)@.agents[seat as int].chips <= u128::MAX,
    ensures
        final(t)@ == spec_kick(old(t)@, seat as int),
{
    let a = &mut t.agents[seat as usize];
    let chips = a.chips;
    a.kicked = true;
    a.chips = 0;
    t.prize_pool = t.prize_pool + chips;
    proof {
        let pre = old(t)@;
        assert(t@ =~= (TableView {
            agents: pre.agents.update(seat as int,
                TableAgent { kicked: true, chips: 0, ..pre.agents[seat as int] }),
            prize_pool: (pre.prize_pool + pre.agents[seat as int].chips) as u128,
            ..pre
        }));
    }
    maybe_end_session(t);
}

/// The table after `winner` takes the pot: the pot moves onto the winner's
/// stack, the pot and the current bet reset, and the session-end check runs.
pub open spec fn spec_award(t: TableView, winner: int) -> TableView {
    let a = t.agents[winner];
    spec_maybe_end(TableView {
        agents: t.agents.update(winner, TableAgent { chips: (a.chips + t.pot) as u128, ..a }),
        pot: 0,
        current_bet: 0,
        ..t
    })
}

/// Award the pot to `winner`, reset the per-hand counters, and run the
/// session-end check.
pub fn award_pot(t: &mut Table, winner: u8)
    requires
        old(t)@.agents.len() <= MAX_TABLE_AGENTS,
        winner < old(t)@.agents.len(),
        old(t)@.agents[winner as int].chips + old(t)@.pot <= u128::MAX,
    ensures
        final(t)@ == spec_award(old(t)@, winner as int),
{
    let pot = t.pot;
    let a = &mut t.agents[winner as usize];
    a.chips = a.chips + pot;
    t.pot = 0;
    t.current_bet = 0;
    proof {
        let pre = old(t)@;
        assert(t@ =~= (TableView {
            agents: pre.agents.update(winner as int, TableAgent {
                chips: (pre.agents[winner as int].chips + pre.pot) as u128,
                ..pre.agents[winner as int]
            }),
            pot: 0,
            current_bet: 0,
            ..pre
        }));
    }
    maybe_end_session(t);
}

/// A live seat keeps the live count positive.
pub proof fn lemma_live_seat_means_live_count_pos(agents: Seq<TableAgent>, seat: int)
    requires
        0 <= seat < agents.len(),
        !agents[seat].kicked,
        !agents[seat].folded,
    ensures
        spec_live_count(agents) >= 1,
{
    assert(forall|a: TableAgent| #[trigger] (live_weight()(a)) >= 0);
    lemma_sum_by_bounds_element(agents, seat, live_weight());
}

} // verus!
