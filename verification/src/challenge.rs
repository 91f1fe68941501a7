//! The challenge data model: one competition instance with its agents,
//! wager records, proof records and pool totals, together with the
//! well-formedness invariant every reachable state satisfies.

use vstd::prelude::*;
use crate::config::MAX_AGENTS;
use crate::sums::sum_by;

verus! {

/// A competing entrant: owned by the enrolling account, identified by a
/// caller-chosen id unique within its challenge, and placed at a fixed
/// position in the challenge's agent sequence. The position order doubles as
/// the tie-break precedence at finalization.
#[derive(Clone, Copy, Debug, PartialEq, Eq, Structural)]
pub struct Agent {
    /// Caller-chosen identifier, unique within the challenge.
    pub id: u64,
    /// The account that enrolled this agent. One account owns at most one
    /// agent per challenge, so this row doubles as the enrollment proof.
    pub owner: u64,
    /// Number of votes received during judging.
    pub vote_count: u64,
    /// Sum of all wagers placed on this agent.
    pub bet_pool: u64,
    /// Whether the owner exited early through the withdrawal path.
    pub withdrawn: bool,
}

/// One account's cumulative wager on one agent.
#[derive(Clone, Copy, Debug, PartialEq, Eq, Structural)]
pub struct BetRecord {
    /// The wagering account.
    pub account: u64,
    /// Position of the backed agent in the challenge's agent sequence.
    pub agent_index: usize,
    /// Cumulative wagered amount.
    pub amount: u64,
}

/// One account's cumulative wager across all agents of a challenge; consulted
/// only for cancellation refunds.
#[derive(Clone, Copy, Debug, PartialEq, Eq, Structural)]
pub struct UserBetTotal {
    /// The wagering account.
    pub account: u64,
    /// Cumulative wagered amount across all agents.
    pub total: u64,
}

/// One phased competition instance with its own entry pool, bet pool and
/// agents.
pub struct Challenge {
    /// Caller-chosen identifier, unique within the registry.
    pub id: u64,
    /// The account that created the challenge.
    pub creator: u64,
    /// The platform account that receives the fee cuts.
    pub platform: u64,
    /// The stake each enrolling account pays, fixed at creation.
    pub entry_fee: u64,
    /// End of the enrollment phase.
    pub enroll_end: u64,
    /// End of the competition phase.
    pub compete_end: u64,
    /// End of the judging phase.
    pub judge_end: u64,
    /// Aggregate of entry fees from currently enrolled, non-withdrawn agents.
    pub total_entry_pool: u64,
    /// Aggregate of all wagers placed within the challenge.
    pub total_bet_pool: u64,
    /// Terminal flag: the winner is locked in and the platform cut released.
    pub finalized: bool,
    /// Terminal flag: quorum was never reached and all funds are refundable.
    pub cancelled: bool,
    /// Position of the winning agent; meaningful only once finalized.
    pub winner_index: usize,
    /// The agents, in enrollment order; positions are never reused.
    pub agents: Vec<Agent>,
    /// Accounts holding a vote proof: each voted exactly once.
    pub voted: Vec<u64>,
    /// Accounts holding a claim proof: each settled exactly once.
    pub claimed: Vec<u64>,
    /// Per (account, agent) cumulative wagers.
    pub bets: Vec<BetRecord>,
    /// Per account cumulative wagers across all agents.
    pub bet_totals: Vec<UserBetTotal>,
}

/// The mathematical model of a [`Challenge`].
#[verifier::ext_equal]
pub ghost struct ChallengeView {
    pub id: u64,
    pub creator: u64,
    pub platform: u64,
    pub entry_fee: u64,
    pub enroll_end: u64,
    pub compete_end: u64,
    pub judge_end: u64,
    pub total_entry_pool: u64,
    pub total_bet_pool: u64,
    pub finalized: bool,
    pub cancelled: bool,
    pub winner_index: usize,
    pub agents: Seq<Agent>,
    pub voted: Seq<u64>,
    pub claimed: Seq<u64>,
    pub bets: Seq<BetRecord>,
    pub bet_totals: Seq<UserBetTotal>,
}

impl View for Challenge {
    type V = ChallengeView;

    open spec fn view(&self) -> ChallengeView {
        ChallengeView {
            id: self.id,
            creator: self.creator,
            platform: self.platform,
            entry_fee: self.entry_fee,
            enroll_end: self.enroll_end,
            compete_end: self.compete_end,
            judge_end: self.judge_end,
            total_entry_pool: self.total_entry_pool,
            total_bet_pool: self.total_bet_pool,
            finalized: self.finalized,
            cancelled: self.cancelled,
            winner_index: self.winner_index,
            agents: self.agents@,
            voted: self.voted@,
            claimed: self.claimed@,
            bets: self.bets@,
            bet_totals: self.bet_totals@,
        }
    }
}

/// Weight 1 for an active (non-withdrawn) agent, 0 otherwise.
pub open spec fn active_weight() -> spec_fn(Agent) -> int {
    |a: Agent| if a.withdrawn { 0 } else { 1 }
}

/// How many of the agents are active (non-withdrawn).
pub open spec fn spec_active_count(agents: Seq<Agent>) -> int {
    sum_by(agents, active_weight())
}

/// The per-agent wager pool, as a weight.
pub open spec fn bet_pool_weight() -> spec_fn(Agent) -> int {
    |a: Agent| a.bet_pool as int
}

/// The sum of the agents' wager pools.
pub open spec fn spec_agents_bet_sum(agents: Seq<Agent>) -> int {
    sum_by(agents, bet_pool_weight())
}

/// A wager record's amount, as a weight.
pub open spec fn bet_amount_weight() -> spec_fn(BetRecord) -> int {
    |b: BetRecord| b.amount as int
}

/// The sum of all per (account, agent) wager records.
pub open spec fn spec_bets_sum(bets: Seq<BetRecord>) -> int {
    sum_by(bets, bet_amount_weight())
}

/// A wager record's amount where it backs the agent at position `i`, as a
/// weight; zero otherwise.
pub open spec fn bets_on_weight(i: int) -> spec_fn(BetRecord) -> int {
    |b: BetRecord| if b.agent_index == i {
        b.amount as int
    } else {
        0
    }
}

/// The sum of the wagers backing the agent at position `i`.
pub open spec fn spec_agent_bet_sum(bets: Seq<BetRecord>, i: int) -> int {
    sum_by(bets, bets_on_weight(i))
}

/// A wager record's amount where `account` placed it, as a weight; zero
/// otherwise.
pub open spec fn bets_of_weight(account: u64) -> spec_fn(BetRecord) -> int {
    |b: BetRecord| if b.account == account {
        b.amount as int
    } else {
        0
    }
}

/// The sum of the wagers `account` placed, across all agents.
pub open spec fn spec_account_bet_sum(bets: Seq<BetRecord>, account: u64) -> int {
    sum_by(bets, bets_of_weight(account))
}

/// Whether `account` has a total on file.
pub open spec fn spec_total_on_file(totals: Seq<UserBetTotal>, account: u64) -> bool {
    exists|l: int| 0 <= l < totals.len() && (#[trigger] totals[l]).account == account
}

/// Each per-account total is exactly the sum of that account's wager
/// records.
pub open spec fn totals_match_bets(bets: Seq<BetRecord>, totals: Seq<UserBetTotal>) -> bool {
    forall|l: int|
        0 <= l < totals.len() ==> (#[trigger] totals[l]).total
            == spec_account_bet_sum(bets, totals[l].account)
}

/// Every wagering account has its total on file.
pub open spec fn totals_cover_bets(bets: Seq<BetRecord>, totals: Seq<UserBetTotal>) -> bool {
    forall|k: int|
        0 <= k < bets.len() ==> spec_total_on_file(totals, (#[trigger] bets[k]).account)
}

/// A per-account total's amount, as a weight.
pub open spec fn total_weight() -> spec_fn(UserBetTotal) -> int {
    |t: UserBetTotal| t.total as int
}

/// The sum of all per-account wager totals.
pub open spec fn spec_totals_sum(ts: Seq<UserBetTotal>) -> int {
    sum_by(ts, total_weight())
}

/// Whether an agent with the given id is enrolled in the challenge.
pub open spec fn spec_has_agent(c: ChallengeView, agent_id: u64) -> bool {
    exists|i: int| 0 <= i < c.agents.len() && c.agents[i].id == agent_id
}

/// The position of the agent with the given id; meaningful only where
/// [`spec_has_agent`] holds (ids are unique under [`ChallengeView::wf`]).
pub open spec fn spec_agent_index(c: ChallengeView, agent_id: u64) -> int {
    choose|i: int| 0 <= i < c.agents.len() && c.agents[i].id == agent_id
}

/// Whether `account` enrolled in the challenge: the agent rows double as the
/// enrollment proofs, one per owning account.
pub open spec fn spec_has_enrolled(c: ChallengeView, account: u64) -> bool {
    exists|i: int| 0 <= i < c.agents.len() && c.agents[i].owner == account
}

/// Whether `account` already holds a vote proof for the challenge.
pub open spec fn spec_has_voted(c: ChallengeView, account: u64) -> bool {
    c.voted.contains(account)
}

/// Whether `account` already holds a claim proof for the challenge.
pub open spec fn spec_has_claimed(c: ChallengeView, account: u64) -> bool {
    c.claimed.contains(account)
}

impl ChallengeView {
    /// The well-formedness invariant: established at creation and preserved
    /// by every operation.
    pub open spec fn wf(self) -> bool {
        // The two terminal flags are mutually exclusive.
        &&& !(self.finalized && self.cancelled)
        // The three phase boundaries strictly increase.
        &&& self.enroll_end < self.compete_end < self.judge_end
        &&& self.agents.len() <= MAX_AGENTS
        // Once finalized, the winner index is valid and points at an active
        // agent.
        &&& (self.finalized ==> self.winner_index < self.agents.len()
            && !self.agents[self.winner_index as int].withdrawn)
        // Agent ids are unique within the challenge.
        &&& (forall|i: int, j: int|
            0 <= i < j < self.agents.len() ==> (#[trigger] self.agents[i]).id != (#[trigger] self.agents[j]).id)
        // Each account owns at most one agent.
        &&& (forall|i: int, j: int|
            0 <= i < j < self.agents.len() ==> (#[trigger] self.agents[i]).owner != (#[trigger] self.agents[j]).owner)
        // Proof records are unique per account.
        &&& (forall|i: int, j: int|
            0 <= i < j < self.voted.len() ==> #[trigger] self.voted[i] != #[trigger] self.voted[j])
        &&& (forall|i: int, j: int|
            0 <= i < j < self.claimed.len() ==> #[trigger] self.claimed[i] != #[trigger] self.claimed[j])
        // Wager records point at existing agents and are keyed by
        // (account, agent) without duplicates.
        &&& (forall|k: int|
            0 <= k < self.bets.len() ==> (#[trigger] self.bets[k]).agent_index < self.agents.len())
        &&& (forall|k: int, l: int|
            0 <= k < l < self.bets.len() ==> !((#[trigger] self.bets[k]).account
                == (#[trigger] self.bets[l]).account && self.bets[k].agent_index
                == self.bets[l].agent_index))
        // Per-account totals are keyed by account without duplicates.
        &&& (forall|k: int, l: int|
            0 <= k < l < self.bet_totals.len() ==> (#[trigger] self.bet_totals[k]).account
                != (#[trigger] self.bet_totals[l]).account)
        // The entry pool is exactly the stake of every active agent.
        &&& self.total_entry_pool == self.entry_fee * spec_active_count(self.agents)
        // The bet pool equals the sum of the per-agent pools, the sum of the
        // wager records, and the sum of the per-account totals.
        &&& self.total_bet_pool == spec_agents_bet_sum(self.agents)
        &&& self.total_bet_pool == spec_bets_sum(self.bets)
        &&& self.total_bet_pool == spec_totals_sum(self.bet_totals)
        // Each per-account total is exactly the sum of that account's wager
        // records, and every wagering account has its total on file.
        &&& totals_match_bets(self.bets, self.bet_totals)
        &&& totals_cover_bets(self.bets, self.bet_totals)
        // Each agent's pool is exactly the sum of the wagers backing it.
        &&& (forall|i: int|
            0 <= i < self.agents.len() ==> (#[trigger] self.agents[i]).bet_pool
                == spec_agent_bet_sum(self.bets, i))
        // No single wager record exceeds the pool of the agent it backs.
        &&& (forall|k: int|
            0 <= k < self.bets.len() ==> (#[trigger] self.bets[k]).amount
                <= self.agents[self.bets[k].agent_index as int].bet_pool)
    }
}

impl Challenge {
    /// Find the position of the agent with the given id, if enrolled.
    pub fn find_agent(&self, agent_id: u64) -> (r: Option<usize>)
        ensures
            match r {
                Some(i) => i < self@.agents.len() && self@.agents[i as int].id == agent_id,
                None => forall|i: int| 0 <= i < self@.agents.len()
                    ==> (#[trigger] self@.agents[i]).id != agent_id,
            },
    {
        let n = self.agents.len();
        let mut i: usize = 0;
        while i < n
            invariant
                n == self.agents.len(),
                i <= n,
                forall|j: int| 0 <= j < i ==> (#[trigger] self.agents@[j]).id != agent_id,
            decreases n - i,
        {
            if self.agents[i].id == agent_id {
                return Some(i);
            }
            i = i + 1;
        }
        None
    }

    /// Find the position of the agent owned by the given account, if any.
    pub fn find_agent_of_owner(&self, account: u64) -> (r: Option<usize>)
        ensures
            match r {
                Some(i) => i < self@.agents.len() && self@.agents[i as int].owner == account,
                None => !spec_has_enrolled(self@, account),
            },
    {
        let n = self.agents.len();
        let mut i: usize = 0;
        while i < n
            invariant
                n == self.agents.len(),
                i <= n,
                forall|j: int| 0 <= j < i ==> (#[trigger] self.agents@[j]).owner != account,
            decreases n - i,
        {
            if self.agents[i].owner == account {
                return Some(i);
            }
            i = i + 1;
        }
        None
    }

    /// Count the active (non-withdrawn) agents.
    pub fn active_agent_count(&self) -> (r: u32)
        requires
            self@.agents.len() <= MAX_AGENTS,
        ensures
            r as int == spec_active_count(self@.agents),
    {
        let n = self.agents.len();
        let mut i: usize = 0;
        let mut count: u32 = 0;
        proof {
            assert(self.agents@.subrange(0, 0) =~= Seq::<Agent>::empty());
        }
        while i < n
            invariant
                n == self.agents.len(),
                n <= MAX_AGENTS,
                i <= n,
                count as int == spec_active_count(self.agents@.subrange(0, i as int)),
                count <= i,
            decreases n - i,
        {
            proof {
                let pre = self.agents@.subrange(0, i as int);
                let post = self.agents@.subrange(0, i as int + 1);
                assert(post.drop_last() =~= pre);
                assert(post.last() == self.agents@[i as int]);
            }
            if !self.agents[i].withdrawn {
                count = count + 1;
            }
            i = i + 1;
        }
        proof {
            assert(self.agents@.subrange(0, n as int) =~= self.agents@);
        }
        count
    }

    /// The id of the winning agent; meaningful only once finalized.
    pub fn winner_agent_id(&self) -> (r: u64)
        requires
            self@.finalized,
            self@.wf(),
        ensures
            r == self@.agents[self@.winner_index as int].id,
    {
        self.agents[self.winner_index].id
    }

    /// The owner of the winning agent; meaningful only once finalized.
    pub fn winner_owner(&self) -> (r: u64)
        requires
            self@.finalized,
            self@.wf(),
        ensures
            r == self@.agents[self@.winner_index as int].owner,
    {
        self.agents[self.winner_index].owner
    }

    /// Look up this challenge's cumulative wager of `account` on the agent at
    /// `agent_index`.
    pub fn find_bet(&self, account: u64, agent_index: usize) -> (r: Option<usize>)
        ensures
            match r {
                Some(k) => k < self@.bets.len() && self@.bets[k as int].account == account
                    && self@.bets[k as int].agent_index == agent_index,
                None => forall|k: int| 0 <= k < self@.bets.len()
                    ==> !((#[trigger] self@.bets[k]).account == account
                        && self@.bets[k].agent_index == agent_index),
            },
    {
        let n = self.bets.len();
        let mut k: usize = 0;
        while k < n
            invariant
                n == self.bets.len(),
                k <= n,
                forall|j: int| 0 <= j < k ==> !((#[trigger] self.bets@[j]).account == account
                    && self.bets@[j].agent_index == agent_index),
            decreases n - k,
        {
            if self.bets[k].account == account && self.bets[k].agent_index == agent_index {
                return Some(k);
            }
            k = k + 1;
        }
        None
    }

    /// Look up this challenge's cumulative wager total of `account`.
    pub fn find_bet_total(&self, account: u64) -> (r: Option<usize>)
        ensures
            match r {
                Some(k) => k < self@.bet_totals.len()
                    && self@.bet_totals[k as int].account == account,
                None => forall|k: int| 0 <= k < self@.bet_totals.len()
                    ==> (#[trigger] self@.bet_totals[k]).account != account,
            },
    {
        let n = self.bet_totals.len();
        let mut k: usize = 0;
        while k < n
            invariant
                n == self.bet_totals.len(),
                k <= n,
                forall|j: int| 0 <= j < k
                    ==> (#[trigger] self.bet_totals@[j]).account != account,
            decreases n - k,
        {
            if self.bet_totals[k].account == account {
                return Some(k);
            }
            k = k + 1;
        }
        None
    }

    /// Whether `account` already holds a vote proof.
    pub fn has_voted(&self, account: u64) -> (r: bool)
        ensures
            r == spec_has_voted(self@, account),
    {
        let n = self.voted.len();
        let mut k: usize = 0;
        while k < n
            invariant
                n == self.voted.len(),
                k <= n,
                forall|j: int| 0 <= j < k ==> self.voted@[j] != account,
            decreases n - k,
        {
            if self.voted[k] == account {
                return true;
            }
            k = k + 1;
        }
        false
    }

    /// Whether `account` already holds a claim proof.
    pub fn has_claimed(&self, account: u64) -> (r: bool)
        ensures
            r == spec_has_claimed(self@, account),
    {
        let n = self.claimed.len();
        let mut k: usize = 0;
        while k < n
            invariant
                n == self.claimed.len(),
                k <= n,
                forall|j: int| 0 <= j < k ==> self.claimed@[j] != account,
            decreases n - k,
        {
            if self.claimed[k] == account {
                return true;
            }
            k = k + 1;
        }
        false
    }
}

/// The pool bookkeeping law: in every well-formed challenge state — and
/// every operation of the engine both requires and preserves well-formedness
/// — the entry pool is exactly the entry fee summed over the non-withdrawn
/// agents, and the bet pool is exactly the sum of the per-agent pools, the
/// sum of the per (account, agent) wager records, and the sum of the
/// per-account totals.
pub proof fn lemma_pools_balanced(cv: ChallengeView)
    requires
        cv.wf(),
    ensures
        cv.total_entry_pool == cv.entry_fee * spec_active_count(cv.agents),
        cv.total_bet_pool == spec_agents_bet_sum(cv.agents),
        cv.total_bet_pool == spec_bets_sum(cv.bets),
        cv.total_bet_pool == spec_totals_sum(cv.bet_totals),
{
}

} // verus!
