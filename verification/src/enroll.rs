//! Enrollment: admitting entrants during the enrollment phase, with
//! per-account deduplication and entry-pool bookkeeping.

use vstd::prelude::*;
use crate::challenge::{
    Agent, ChallengeView, active_weight, bet_pool_weight, spec_active_count, spec_has_enrolled,
};
use crate::config::MAX_AGENTS;
use crate::errors::EscrowError;
use crate::escrow::{ChampionshipEscrow, spec_challenge_index, spec_has_challenge};
use crate::phase::{Phase, phase};
use crate::sums::lemma_sum_by_push;

verus! {

impl ChampionshipEscrow {
    /// Enroll an agent.
    ///
    /// Checks, in order: the challenge must exist; the phase must be
    /// enrollment; the challenge must not be terminal (a finalized challenge
    /// is unreachable here under a monotonic clock, and rejected all the
    /// same); the agent capacity
    /// must not be reached (rejected as a state conflict); the agent id must
    /// be unused within the challenge; the attached payment must equal the
    /// entry fee exactly; and the caller must hold no enrollment proof yet
    /// (the agent row doubles as that proof). On success, atomically: the
    /// agent is appended with zeroed counters, the payment is credited to the
    /// vault, and the entry pool grows by the entry fee.
    pub fn enroll(
        &mut self,
        id: u64,
        agent_id: u64,
        caller: u64,
        payment: u64,
        now: u64,
    ) -> (r: Result<(), EscrowError>)
        requires
            old(self).wf(),
        ensures
            final(self).wf(),
            ({
                let s = old(self).challenges@;
                let i = spec_challenge_index(s, id);
                let cv = s[i]@;
                if !spec_has_challenge(s, id) {
                    r == Err::<(), EscrowError>(EscrowError::NotFound)
                        && final(self).unchanged(*old(self))
                } else if now > cv.enroll_end {
                    r == Err::<(), EscrowError>(EscrowError::WrongPhase)
                        && final(self).unchanged(*old(self))
                } else if cv.cancelled || cv.finalized {
                    r == Err::<(), EscrowError>(EscrowError::StateConflict)
                        && final(self).unchanged(*old(self))
                } else if cv.agents.len() >= MAX_AGENTS {
                    r == Err::<(), EscrowError>(EscrowError::StateConflict)
                        && final(self).unchanged(*old(self))
                } else if exists|k: int|
                    0 <= k < cv.agents.len() && (#[trigger] cv.agents[k]).id == agent_id {
                    r == Err::<(), EscrowError>(EscrowError::AlreadyExists)
                        && final(self).unchanged(*old(self))
                } else if payment != cv.entry_fee {
                    r == Err::<(), EscrowError>(EscrowError::PaymentMismatch)
                        && final(self).unchanged(*old(self))
                } else if spec_has_enrolled(cv, caller) {
                    r == Err::<(), EscrowError>(EscrowError::AlreadyExists)
                        && final(self).unchanged(*old(self))
                } else if cv.total_entry_pool + cv.entry_fee > u64::MAX
                    || old(self).vault + payment > u64::MAX {
                    r == Err::<(), EscrowError>(EscrowError::Arithmetic)
                        && final(self).unchanged(*old(self))
                } else {
                    &&& r == Ok::<(), EscrowError>(())
                    &&& final(self).only_challenge_changed(*old(self), i)
                    &&& final(self).vault == old(self).vault + payment
                    &&& final(self).challenges@[i]@ == (ChallengeView {
                        total_entry_pool: (cv.total_entry_pool + cv.entry_fee) as u64,
                        agents: cv.agents.push(Agent {
                            id: agent_id,
                            owner: caller,
                            vote_count: 0,
                            bet_pool: 0,
                            withdrawn: false,
                        }),
                        ..cv
                    })
                }
            }),
    {
        let idx = match self.find_challenge(id) {
            Some(i) => i,
            None => {
                return Err(EscrowError::NotFound);
            },
        };
        let c = &self.challenges[idx];
        if phase(now, c.enroll_end, c.compete_end, c.judge_end) != Phase::Enrollment {
            return Err(EscrowError::WrongPhase);
        }
        if c.cancelled || c.finalized {
            return Err(EscrowError::StateConflict);
        }
        if c.agents.len() >= MAX_AGENTS {
            return Err(EscrowError::StateConflict);
        }
        if c.find_agent(agent_id).is_some() {
            return Err(EscrowError::AlreadyExists);
        }
        if payment != c.entry_fee {
            return Err(EscrowError::PaymentMismatch);
        }
        if c.find_agent_of_owner(caller).is_some() {
            return Err(EscrowError::AlreadyExists);
        }
        let new_pool = match c.total_entry_pool.checked_add(c.entry_fee) {
            Some(v) => v,
            None => {
                return Err(EscrowError::Arithmetic);
            },
        };
        let new_vault = match self.vault.checked_add(payment) {
            Some(v) => v,
            None => {
                return Err(EscrowError::Arithmetic);
            },
        };
        let agent = Agent { id: agent_id, owner: caller, vote_count: 0, bet_pool: 0, withdrawn: false };
        let c = &mut self.challenges[idx];
        c.agents.push(agent);
        c.total_entry_pool = new_pool;
        proof {
            let old_cv = old(self).challenges@[idx as int]@;
            lemma_sum_by_push(old_cv.agents, agent, active_weight());
            lemma_sum_by_push(old_cv.agents, agent, bet_pool_weight());
            assert(new_pool == old_cv.entry_fee * spec_active_count(old_cv.agents.push(agent)))
                by (nonlinear_arith)
                requires
                    new_pool == old_cv.total_entry_pool + old_cv.entry_fee,
                    old_cv.total_entry_pool == old_cv.entry_fee * spec_active_count(old_cv.agents),
                    spec_active_count(old_cv.agents.push(agent))
                        == spec_active_count(old_cv.agents) + 1,
            {
            }
            assert(self.challenges@[idx as int]@ =~= (ChallengeView {
                total_entry_pool: new_pool,
                agents: old_cv.agents.push(agent),
                ..old_cv
            }));
            // No wager backs the freshly appended position yet.
            let pushed = old_cv.agents.push(agent);
            assert forall|i2: int| 0 <= i2 < pushed.len() implies (#[trigger] pushed[i2]).bet_pool
                == crate::challenge::spec_agent_bet_sum(old_cv.bets, i2) by {
                if i2 == old_cv.agents.len() {
                    assert(forall|k: int|
                        0 <= k < old_cv.bets.len()
                            ==> (crate::challenge::bets_on_weight(i2))(
                            #[trigger] old_cv.bets[k]) == 0);
                    crate::sums::lemma_sum_by_all_zero(old_cv.bets,
                        crate::challenge::bets_on_weight(i2));
                }
            }
            assert(self.challenges@[idx as int]@.wf());
            // Solvency: the challenge's holdings grew by the entry fee, and
            // the vault by the matching payment.
            let ne = self.challenges@[idx as int];
            crate::sums::lemma_sum_by_update(old(self).challenges@, idx as int, ne,
                crate::solvency::holdings_weight());
            assert(self.challenges@ =~= old(self).challenges@.update(idx as int, ne));
            assert(crate::solvency::spec_holdings(ne@)
                == crate::solvency::spec_holdings(old_cv) + old_cv.entry_fee);
        }
        self.vault = new_vault;
        Ok(())
    }
}

} // verus!
