//! The challenge registry and custodial vault: the root state of the
//! settlement engine.
//!
//! The host ledger is an external collaborator: operations take the caller,
//! the current time and the attached payment as plain arguments, and return
//! the [`Transfer`]s the host must perform. The `vault` field models the
//! custodial balance those transfers are drawn from.

use vstd::prelude::*;
use crate::challenge::{Challenge, ChallengeView};

verus! {

/// One outbound payment the host must perform: debit the vault, credit `to`.
#[derive(Clone, Copy, Debug, PartialEq, Eq, Structural)]
pub struct Transfer {
    /// The account to credit.
    pub to: u64,
    /// The amount to move.
    pub amount: u64,
}

/// The root state: the platform account, the custodial balance, and every
/// challenge ever created.
pub struct ChampionshipEscrow {
    /// The platform account that receives the fee cuts.
    pub platform: u64,
    /// The custodial balance holding all in-flight funds.
    pub vault: u64,
    /// All challenges, in creation order, with unique ids.
    pub challenges: Vec<Challenge>,
}

/// Whether a challenge with the given id exists in `s`.
pub open spec fn spec_has_challenge(s: Seq<Challenge>, id: u64) -> bool {
    exists|i: int| 0 <= i < s.len() && s[i].id == id
}

/// The position of the challenge with the given id; meaningful only where
/// [`spec_has_challenge`] holds (ids are unique under [`ChampionshipEscrow::wf`]).
pub open spec fn spec_challenge_index(s: Seq<Challenge>, id: u64) -> int {
    choose|i: int| 0 <= i < s.len() && s[i].id == id
}

impl ChampionshipEscrow {
    /// The registry invariant: challenge ids are unique, every challenge is
    /// well-formed, and every challenge carries this registry's platform
    /// account.
    pub open spec fn wf(&self) -> bool {
        &&& (forall|i: int, j: int|
            0 <= i < j < self.challenges@.len()
                ==> (#[trigger] self.challenges@[i]).id != (#[trigger] self.challenges@[j]).id)
        &&& (forall|i: int|
            0 <= i < self.challenges@.len() ==> (#[trigger] self.challenges@[i])@.wf())
        &&& (forall|i: int|
            0 <= i < self.challenges@.len()
                ==> (#[trigger] self.challenges@[i])@.platform == self.platform)
        // Solvency: the custodial balance covers what every challenge still
        // holds or owes.
        &&& self.vault >= crate::solvency::spec_total_holdings(self.challenges@)
    }

    /// Everything but the challenge at position `i` is as it was: used by the
    /// contracts of the per-challenge operations.
    pub open spec fn only_challenge_changed(&self, pre: Self, i: int) -> bool {
        &&& self.platform == pre.platform
        &&& self.challenges@.len() == pre.challenges@.len()
        &&& (forall|j: int|
            0 <= j < pre.challenges@.len() && j != i
                ==> #[trigger] self.challenges@[j]@ == pre.challenges@[j]@)
        &&& (forall|j: int|
            0 <= j < pre.challenges@.len()
                ==> (#[trigger] self.challenges@[j]).id == pre.challenges@[j].id)
    }

    /// Nothing changed at all.
    pub open spec fn unchanged(&self, pre: Self) -> bool {
        &&& self.platform == pre.platform
        &&& self.vault == pre.vault
        &&& self.challenges@ == pre.challenges@
    }

    /// A fresh registry: no challenges, an empty vault.
    pub fn new(platform: u64) -> (r: Self)
        ensures
            r.wf(),
            r.platform == platform,
            r.vault == 0,
            r.challenges@.len() == 0,
    {
        ChampionshipEscrow { platform, vault: 0, challenges: Vec::new() }
    }

    /// Find the position of the challenge with the given id.
    pub fn find_challenge(&self, id: u64) -> (r: Option<usize>)
        requires
            self.wf(),
        ensures
            match r {
                Some(i) => {
                    &&& spec_has_challenge(self.challenges@, id)
                    &&& i == spec_challenge_index(self.challenges@, id)
                    &&& i < self.challenges@.len()
                    &&& self.challenges@[i as int].id == id
                },
                None => !spec_has_challenge(self.challenges@, id),
            },
    {
        let n = self.challenges.len();
        let mut i: usize = 0;
        while i < n
            invariant
                self.wf(),
                n == self.challenges.len(),
                i <= n,
                forall|j: int| 0 <= j < i ==> (#[trigger] self.challenges@[j]).id != id,
            decreases n - i,
        {
            if self.challenges[i].id == id {
                proof {
                    let w = spec_challenge_index(self.challenges@, id);
                    assert(0 <= w < self.challenges@.len() && self.challenges@[w].id == id);
                    assert(w == i as int);
                }
                return Some(i);
            }
            i = i + 1;
        }
        None
    }

    /// Read-only view of a challenge, if it exists.
    pub fn get_challenge(&self, id: u64) -> (r: Option<&Challenge>)
        requires
            self.wf(),
        ensures
            match r {
                Some(c) => {
                    &&& spec_has_challenge(self.challenges@, id)
                    &&& c@ == self.challenges@[spec_challenge_index(self.challenges@, id)]@
                    &&& c@.id == id
                },
                None => !spec_has_challenge(self.challenges@, id),
            },
    {
        match self.find_challenge(id) {
            Some(i) => Some(&self.challenges[i]),
            None => None,
        }
    }

    /// How many agents a challenge holds; zero where the challenge does not
    /// exist.
    pub fn get_agent_count(&self, id: u64) -> (r: u32)
        requires
            self.wf(),
        ensures
            spec_has_challenge(self.challenges@, id) ==> r as int
                == self.challenges@[spec_challenge_index(self.challenges@, id)]@.agents.len(),
            !spec_has_challenge(self.challenges@, id) ==> r == 0,
    {
        match self.find_challenge(id) {
            Some(i) => {
                let c = &self.challenges[i];
                proof {
                    assert(c@.wf());
                    assert(c@.agents.len() <= crate::config::MAX_AGENTS);
                }
                c.agents.len() as u32
            },
            None => 0,
        }
    }
}

/// The view of the challenge a fresh creation produces: zeroed pools and
/// counts, no agents, no proof records, both terminal flags clear.
pub open spec fn spec_new_challenge(
    id: u64,
    creator: u64,
    platform: u64,
    entry_fee: u64,
    enroll_end: u64,
    compete_end: u64,
    judge_end: u64,
) -> ChallengeView {
    ChallengeView {
        id,
        creator,
        platform,
        entry_fee,
        enroll_end,
        compete_end,
        judge_end,
        total_entry_pool: 0,
        total_bet_pool: 0,
        finalized: false,
        cancelled: false,
        winner_index: 0,
        agents: Seq::empty(),
        voted: Seq::empty(),
        claimed: Seq::empty(),
        bets: Seq::empty(),
        bet_totals: Seq::empty(),
    }
}

} // verus!
