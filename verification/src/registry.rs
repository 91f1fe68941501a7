//! Challenge creation and the two terminal transitions, cancellation and
//! finalization, including winner selection.
//!
//! Winner selection scans the agents in enrollment order, skips withdrawn
//! agents, and keeps a running maximum under a strict greater-than
//! comparison: the first agent to reach a given vote count wins ties against
//! any later agent with an equal count.

use vstd::prelude::*;
use crate::challenge::{
    Agent, Challenge, ChallengeView, spec_active_count, active_weight,
};
use crate::config::{BP, EP, MIN_AGENTS, MIN_FEE};
use crate::errors::EscrowError;
use crate::escrow::{
    ChampionshipEscrow, Transfer, spec_challenge_index, spec_has_challenge, spec_new_challenge,
};
use crate::sums::sum_by;

verus! {

/// A positive active count means some agent is active.
pub proof fn lemma_active_count_pos(agents: Seq<Agent>)
    requires
        spec_active_count(agents) > 0,
    ensures
        exists|i: int| 0 <= i < agents.len() && !(#[trigger] agents[i]).withdrawn,
    decreases agents.len(),
{
    if agents.len() > 0 {
        if !agents.last().withdrawn {
            assert(!agents[agents.len() - 1].withdrawn);
        } else {
            assert(spec_active_count(agents) == sum_by(agents.drop_last(), active_weight()));
            lemma_active_count_pos(agents.drop_last());
            let i = choose|i: int|
                0 <= i < agents.drop_last().len() && !(#[trigger] agents.drop_last()[i]).withdrawn;
            assert(!agents[i].withdrawn);
        }
    }
}

/// Select the winner: the first active agent to reach the maximum vote count
/// among active agents, in enrollment order.
pub fn select_winner(agents: &Vec<Agent>) -> (w: usize)
    requires
        spec_active_count(agents@) > 0,
    ensures
        w < agents@.len(),
        !agents@[w as int].withdrawn,
        forall|j: int|
            0 <= j < agents@.len() && !(#[trigger] agents@[j]).withdrawn
                ==> agents@[j].vote_count <= agents@[w as int].vote_count,
        forall|j: int|
            0 <= j < w && !(#[trigger] agents@[j]).withdrawn
                ==> agents@[j].vote_count < agents@[w as int].vote_count,
{
    let n = agents.len();
    let mut found = false;
    let mut w: usize = 0;
    let mut max_votes: u64 = 0;
    let mut i: usize = 0;
    while i < n
        invariant
            n == agents@.len(),
            i <= n,
            !found ==> forall|j: int| 0 <= j < i ==> (#[trigger] agents@[j]).withdrawn,
            found ==> {
                &&& w < i
                &&& !agents@[w as int].withdrawn
                &&& max_votes == agents@[w as int].vote_count
                &&& (forall|j: int|
                    0 <= j < i && !(#[trigger] agents@[j]).withdrawn
                        ==> agents@[j].vote_count <= max_votes)
                &&& (forall|j: int|
                    0 <= j < w && !(#[trigger] agents@[j]).withdrawn
                        ==> agents@[j].vote_count < max_votes)
            },
        decreases n - i,
    {
        if !agents[i].withdrawn {
            if !found || agents[i].vote_count > max_votes {
                found = true;
                w = i;
                max_votes = agents[i].vote_count;
            }
        }
        i = i + 1;
    }
    proof {
        if !found {
            lemma_active_count_pos(agents@);
        }
    }
    w
}

impl ChampionshipEscrow {
    /// Create a challenge.
    ///
    /// Checks, in order: the id must be unused; the fee must reach the
    /// configured minimum; the enrollment boundary must not lie in the past,
    /// and the three boundaries must strictly increase. On success a zeroed
    /// challenge is persisted; no funds move.
    pub fn create(
        &mut self,
        id: u64,
        creator: u64,
        fee: u64,
        enroll_end: u64,
        compete_end: u64,
        judge_end: u64,
        now: u64,
    ) -> (r: Result<(), EscrowError>)
        requires
            old(self).wf(),
        ensures
            final(self).wf(),
            ({
                let s = old(self).challenges@;
                if spec_has_challenge(s, id) {
                    r == Err::<(), EscrowError>(EscrowError::AlreadyExists)
                        && final(self).unchanged(*old(self))
                } else if fee < MIN_FEE {
                    r == Err::<(), EscrowError>(EscrowError::InvalidConfig)
                        && final(self).unchanged(*old(self))
                } else if enroll_end < now || compete_end <= enroll_end || judge_end <= compete_end {
                    r == Err::<(), EscrowError>(EscrowError::InvalidConfig)
                        && final(self).unchanged(*old(self))
                } else {
                    &&& r == Ok::<(), EscrowError>(())
                    &&& final(self).platform == old(self).platform
                    &&& final(self).vault == old(self).vault
                    &&& final(self).challenges@.len() == s.len() + 1
                    &&& (forall|j: int| 0 <= j < s.len()
                        ==> #[trigger] final(self).challenges@[j] == s[j])
                    &&& final(self).challenges@[s.len() as int]@ == spec_new_challenge(
                        id, creator, old(self).platform, fee, enroll_end, compete_end, judge_end)
                }
            }),
    {
        if self.find_challenge(id).is_some() {
            return Err(EscrowError::AlreadyExists);
        }
        if fee < MIN_FEE {
            return Err(EscrowError::InvalidConfig);
        }
        if enroll_end < now || compete_end <= enroll_end || judge_end <= compete_end {
            return Err(EscrowError::InvalidConfig);
        }
        let c = Challenge {
            id,
            creator,
            platform: self.platform,
            entry_fee: fee,
            enroll_end,
            compete_end,
            judge_end,
            total_entry_pool: 0,
            total_bet_pool: 0,
            finalized: false,
            cancelled: false,
            winner_index: 0,
            agents: Vec::new(),
            voted: Vec::new(),
            claimed: Vec::new(),
            bets: Vec::new(),
            bet_totals: Vec::new(),
        };
        proof {
            assert(c@ =~= spec_new_challenge(
                id, creator, self.platform, fee, enroll_end, compete_end, judge_end));
            assert(c@.wf());
        }
        self.challenges.push(c);
        proof {
            // Solvency: a fresh challenge holds nothing yet.
            let pre = old(self).challenges@;
            let ne = self.challenges@.last();
            crate::sums::lemma_sum_by_push(pre, ne, crate::solvency::holdings_weight());
            assert(self.challenges@ =~= pre.push(ne));
            assert(crate::solvency::spec_holdings(ne@) == 0);
        }
        Ok(())
    }

    /// Cancel a challenge: the terminal transition taken when quorum was
    /// never reached.
    ///
    /// Checks, in order: the challenge must exist, must not already be
    /// terminal, enrollment must be over, and the active agent count must lie
    /// below the quorum. On success only the `cancelled` flag changes; funds
    /// move later, claim by claim.
    pub fn cancel(&mut self, id: u64, now: u64) -> (r: Result<(), EscrowError>)
        requires
            old(self).wf(),
        ensures
            final(self).wf(),
            ({
                let s = old(self).challenges@;
                let i = spec_challenge_index(s, id);
                if !spec_has_challenge(s, id) {
                    r == Err::<(), EscrowError>(EscrowError::NotFound)
                        && final(self).unchanged(*old(self))
                } else if s[i]@.finalized || s[i]@.cancelled {
                    r == Err::<(), EscrowError>(EscrowError::StateConflict)
                        && final(self).unchanged(*old(self))
                } else if now <= s[i]@.enroll_end {
                    r == Err::<(), EscrowError>(EscrowError::WrongPhase)
                        && final(self).unchanged(*old(self))
                } else if spec_active_count(s[i]@.agents) >= MIN_AGENTS {
                    r == Err::<(), EscrowError>(EscrowError::StateConflict)
                        && final(self).unchanged(*old(self))
                } else {
                    &&& r == Ok::<(), EscrowError>(())
                    &&& final(self).only_challenge_changed(*old(self), i)
                    &&& final(self).vault == old(self).vault
                    &&& final(self).challenges@[i]@ == (ChallengeView { cancelled: true, ..s[i]@ })
                }
            }),
    {
        let idx = match self.find_challenge(id) {
            Some(i) => i,
            None => {
                return Err(EscrowError::NotFound);
            },
        };
        let c = &self.challenges[idx];
        if c.finalized || c.cancelled {
            return Err(EscrowError::StateConflict);
        }
        if now <= c.enroll_end {
            return Err(EscrowError::WrongPhase);
        }
        if c.active_agent_count() >= MIN_AGENTS {
            return Err(EscrowError::StateConflict);
        }
        let c = &mut self.challenges[idx];
        c.cancelled = true;
        proof {
            let old_cv = old(self).challenges@[idx as int]@;
            assert(self.challenges@[idx as int]@
                =~= (ChallengeView { cancelled: true, ..old_cv }));
            assert(self.challenges@[idx as int]@.wf());
            // Solvency: the refundable obligations of the cancelled
            // challenge fit inside what it held.
            let ne = self.challenges@[idx as int];
            crate::sums::lemma_sum_by_update(old(self).challenges@, idx as int, ne,
                crate::solvency::holdings_weight());
            assert(self.challenges@ =~= old(self).challenges@.update(idx as int, ne));
            crate::solvency::lemma_cancelled_solvency_bound(ne@);
            assert(crate::solvency::spec_holdings(ne@)
                <= crate::solvency::spec_holdings(old_cv));
        }
        Ok(())
    }

    /// Finalize a challenge: lock in the winner and release the platform's
    /// cut of both pools.
    ///
    /// Checks, in order: the challenge must exist, must not already be
    /// terminal, judging must be over, and the active agent count must reach
    /// the quorum. The winner is the first active agent to reach the maximum
    /// vote count, in enrollment order. The platform fee is
    /// `floor(total_entry_pool*EP/100) + floor(total_bet_pool*BP/100)`; a
    /// vault short of it signals an accounting-invariant breach and rejects
    /// the call with `InsufficientFunds`.
    pub fn finalize(&mut self, id: u64, now: u64) -> (r: Result<Transfer, EscrowError>)
        requires
            old(self).wf(),
        ensures
            final(self).wf(),
            // The solvency invariant keeps the vault ahead of the platform
            // cut: the shortfall branch is unreachable from a well-formed
            // state.
            !(r == Err::<Transfer, EscrowError>(EscrowError::InsufficientFunds)),
            ({
                let s = old(self).challenges@;
                let i = spec_challenge_index(s, id);
                let cv = s[i]@;
                let fee = cv.total_entry_pool * EP / 100 + cv.total_bet_pool * BP / 100;
                if !spec_has_challenge(s, id) {
                    r == Err::<Transfer, EscrowError>(EscrowError::NotFound)
                        && final(self).unchanged(*old(self))
                } else if cv.finalized || cv.cancelled {
                    r == Err::<Transfer, EscrowError>(EscrowError::StateConflict)
                        && final(self).unchanged(*old(self))
                } else if now <= cv.judge_end {
                    r == Err::<Transfer, EscrowError>(EscrowError::WrongPhase)
                        && final(self).unchanged(*old(self))
                } else if spec_active_count(cv.agents) < MIN_AGENTS {
                    r == Err::<Transfer, EscrowError>(EscrowError::StateConflict)
                        && final(self).unchanged(*old(self))
                } else if cv.total_entry_pool * EP > u64::MAX
                    || cv.total_bet_pool * BP > u64::MAX {
                    r == Err::<Transfer, EscrowError>(EscrowError::Arithmetic)
                        && final(self).unchanged(*old(self))
                } else if old(self).vault < fee {
                    r == Err::<Transfer, EscrowError>(EscrowError::InsufficientFunds)
                        && final(self).unchanged(*old(self))
                } else {
                    &&& r == Ok::<Transfer, EscrowError>(
                        (Transfer { to: cv.platform, amount: fee as u64 }))
                    &&& final(self).only_challenge_changed(*old(self), i)
                    &&& final(self).vault == old(self).vault - fee
                    &&& ({
                        let nv = final(self).challenges@[i]@;
                        &&& nv == (ChallengeView {
                            finalized: true,
                            winner_index: nv.winner_index,
                            ..cv
                        })
                        &&& nv.winner_index < cv.agents.len()
                        &&& !cv.agents[nv.winner_index as int].withdrawn
                        &&& (forall|j: int|
                            0 <= j < cv.agents.len() && !(#[trigger] cv.agents[j]).withdrawn
                                ==> cv.agents[j].vote_count
                                    <= cv.agents[nv.winner_index as int].vote_count)
                        &&& (forall|j: int|
                            0 <= j < nv.winner_index && !(#[trigger] cv.agents[j]).withdrawn
                                ==> cv.agents[j].vote_count
                                    < cv.agents[nv.winner_index as int].vote_count)
                    })
                }
            }),
    {
        let idx = match self.find_challenge(id) {
            Some(i) => i,
            None => {
                return Err(EscrowError::NotFound);
            },
        };
        let c = &self.challenges[idx];
        if c.finalized || c.cancelled {
            return Err(EscrowError::StateConflict);
        }
        if now <= c.judge_end {
            return Err(EscrowError::WrongPhase);
        }
        if c.active_agent_count() < MIN_AGENTS {
            return Err(EscrowError::StateConflict);
        }
        let w = select_winner(&c.agents);
        let entry_cut = match c.total_entry_pool.checked_mul(EP) {
            Some(v) => v / 100,
            None => {
                return Err(EscrowError::Arithmetic);
            },
        };
        let bet_cut = match c.total_bet_pool.checked_mul(BP) {
            Some(v) => v / 100,
            None => {
                return Err(EscrowError::Arithmetic);
            },
        };
        proof {
            assert(c.total_entry_pool * EP / 100 <= c.total_entry_pool * EP);
            assert(c.total_bet_pool * BP / 100 <= c.total_bet_pool * BP);
            assert(entry_cut + bet_cut <= u64::MAX) by (nonlinear_arith)
                requires
                    entry_cut == c.total_entry_pool * EP / 100,
                    bet_cut == c.total_bet_pool * BP / 100,
                    c.total_entry_pool * EP <= u64::MAX,
                    c.total_bet_pool * BP <= u64::MAX,
                    c.total_entry_pool * EP >= 0,
                    c.total_bet_pool * BP >= 0,
                    EP == 1,
                    BP == 3,
            {
            }
        }
        let fee = entry_cut + bet_cut;
        if self.vault < fee {
            proof {
                // Dead under the solvency invariant: the vault covers the
                // still-running challenge's pools, and the platform cut is a
                // floored fraction of them.
                let cv = self.challenges@[idx as int]@;
                crate::solvency::lemma_holdings_bounded_by_total(self.challenges@, idx as int);
                assert(cv.total_entry_pool * EP <= cv.total_entry_pool * 100
                    && cv.total_entry_pool * 100 == 100 * cv.total_entry_pool
                    && cv.total_bet_pool * BP <= cv.total_bet_pool * 100
                    && cv.total_bet_pool * 100 == 100 * cv.total_bet_pool)
                    by (nonlinear_arith)
                    requires
                        cv.total_entry_pool >= 0,
                        cv.total_bet_pool >= 0,
                        EP == 1,
                        BP == 3,
                {
                }
                vstd::arithmetic::div_mod::lemma_div_is_ordered(
                    cv.total_entry_pool * EP, cv.total_entry_pool * 100, 100);
                vstd::arithmetic::div_mod::lemma_div_is_ordered(
                    cv.total_bet_pool * BP, cv.total_bet_pool * 100, 100);
                vstd::arithmetic::div_mod::lemma_div_multiples_vanish(
                    cv.total_entry_pool as int, 100);
                vstd::arithmetic::div_mod::lemma_div_multiples_vanish(
                    cv.total_bet_pool as int, 100);
                assert(false);
            }
            return Err(EscrowError::InsufficientFunds);
        }
        let platform = self.platform;
        let c = &mut self.challenges[idx];
        c.winner_index = w;
        c.finalized = true;
        proof {
            let old_cv = old(self).challenges@[idx as int]@;
            assert(self.challenges@[idx as int]@ =~= (ChallengeView {
                finalized: true,
                winner_index: w,
                ..old_cv
            }));
            assert(self.challenges@[idx as int]@.wf());
            // Solvency: the outstanding obligations plus the released
            // platform cut fit inside what the challenge held.
            let ne = self.challenges@[idx as int];
            crate::sums::lemma_sum_by_update(old(self).challenges@, idx as int, ne,
                crate::solvency::holdings_weight());
            assert(self.challenges@ =~= old(self).challenges@.update(idx as int, ne));
            crate::solvency::lemma_finalized_solvency_bound(ne@);
            assert(crate::solvency::spec_holdings(ne@) + entry_cut + bet_cut
                <= crate::solvency::spec_holdings(old_cv));
        }
        self.vault = self.vault - fee;
        Ok(Transfer { to: platform, amount: fee })
    }
}

} // verus!
