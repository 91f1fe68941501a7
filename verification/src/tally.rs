//! The outcome tally: one vote per account per challenge during the judging
//! phase, counted per agent.
//!
//! The voter minimum-balance rule is a pluggable capability: where the host
//! can look up arbitrary account balances it passes `Some(balance)`, and the
//! rule applies; where it cannot, it passes `None`, and the rule is absent.

use vstd::prelude::*;
use crate::challenge::{
    Agent, ChallengeView, active_weight, bet_pool_weight, spec_active_count, spec_agent_index,
    spec_has_agent, spec_has_voted,
};
use crate::config::{MIN_AGENTS, MIN_VOTE_BALANCE};
use crate::errors::EscrowError;
use crate::escrow::{ChampionshipEscrow, spec_challenge_index, spec_has_challenge};
use crate::phase::{Phase, phase};
use crate::sums::lemma_sum_by_update;

verus! {

impl ChampionshipEscrow {
    /// Cast the caller's vote for the agent with id `agent_id`.
    ///
    /// Checks, in order: the challenge must exist and not be terminal; the
    /// phase must be judging; the active agent count must reach the quorum;
    /// the agent must exist and not be withdrawn; the caller must hold no
    /// vote proof yet; and, where the host supplies the voter's balance, it
    /// must reach the configured minimum. On success, atomically: the vote
    /// proof is created and the agent's vote count grows by one.
    pub fn vote(
        &mut self,
        id: u64,
        agent_id: u64,
        caller: u64,
        now: u64,
        voter_balance: Option<u64>,
    ) -> (r: Result<(), EscrowError>)
        requires
            old(self).wf(),
        ensures
            final(self).wf(),
            ({
                let s = old(self).challenges@;
                let i = spec_challenge_index(s, id);
                let cv = s[i]@;
                let ai = spec_agent_index(cv, agent_id);
                if !spec_has_challenge(s, id) {
                    r == Err::<(), EscrowError>(EscrowError::NotFound)
                        && final(self).unchanged(*old(self))
                } else if cv.cancelled || cv.finalized {
                    r == Err::<(), EscrowError>(EscrowError::StateConflict)
                        && final(self).unchanged(*old(self))
                } else if !(now > cv.compete_end && now <= cv.judge_end) {
                    r == Err::<(), EscrowError>(EscrowError::WrongPhase)
                        && final(self).unchanged(*old(self))
                } else if spec_active_count(cv.agents) < MIN_AGENTS {
                    r == Err::<(), EscrowError>(EscrowError::StateConflict)
                        && final(self).unchanged(*old(self))
                } else if !spec_has_agent(cv, agent_id) {
                    r == Err::<(), EscrowError>(EscrowError::NotFound)
                        && final(self).unchanged(*old(self))
                } else if cv.agents[ai].withdrawn {
                    r == Err::<(), EscrowError>(EscrowError::StateConflict)
                        && final(self).unchanged(*old(self))
                } else if spec_has_voted(cv, caller) {
                    r == Err::<(), EscrowError>(EscrowError::AlreadyExists)
                        && final(self).unchanged(*old(self))
                } else if voter_balance is Some && voter_balance->0 < MIN_VOTE_BALANCE {
                    r == Err::<(), EscrowError>(EscrowError::Unauthorized)
                        && final(self).unchanged(*old(self))
                } else if cv.agents[ai].vote_count == u64::MAX {
                    r == Err::<(), EscrowError>(EscrowError::Arithmetic)
                        && final(self).unchanged(*old(self))
                } else {
                    &&& r == Ok::<(), EscrowError>(())
                    &&& final(self).only_challenge_changed(*old(self), i)
                    &&& final(self).vault == old(self).vault
                    &&& final(self).challenges@[i]@ == (ChallengeView {
                        agents: cv.agents.update(ai, Agent {
                            vote_count: (cv.agents[ai].vote_count + 1) as u64,
                            ..cv.agents[ai]
                        }),
                        voted: cv.voted.push(caller),
                        ..cv
                    })
                }
            }),
    {
        let idx = match self.find_challenge(id) {
            Some(i) => i,
            None => {
                return Err(EscrowError::NotFound);
            },
        };
        let c = &self.challenges[idx];
        if c.cancelled || c.finalized {
            return Err(EscrowError::StateConflict);
        }
        if phase(now, c.enroll_end, c.compete_end, c.judge_end) != Phase::Judging {
            return Err(EscrowError::WrongPhase);
        }
        if c.active_agent_count() < MIN_AGENTS {
            return Err(EscrowError::StateConflict);
        }
        let ai = match c.find_agent(agent_id) {
            Some(k) => k,
            None => {
                return Err(EscrowError::NotFound);
            },
        };
        proof {
            let cv = c@;
            let w = spec_agent_index(cv, agent_id);
            assert(0 <= w < cv.agents.len() && cv.agents[w].id == agent_id);
            if w != ai as int {
                assert(cv.agents[w].id == cv.agents[ai as int].id);
                assert(false);
            }
        }
        if c.agents[ai].withdrawn {
            return Err(EscrowError::StateConflict);
        }
        if c.has_voted(caller) {
            return Err(EscrowError::AlreadyExists);
        }
        if let Some(balance) = voter_balance {
            if balance < MIN_VOTE_BALANCE {
                return Err(EscrowError::Unauthorized);
            }
        }
        let new_count = match c.agents[ai].vote_count.checked_add(1) {
            Some(v) => v,
            None => {
                return Err(EscrowError::Arithmetic);
            },
        };
        let c = &mut self.challenges[idx];
        let a = &mut c.agents[ai];
        a.vote_count = new_count;
        c.voted.push(caller);
        proof {
            let old_cv = old(self).challenges@[idx as int]@;
            let new_agent = Agent {
                vote_count: new_count,
                ..old_cv.agents[ai as int]
            };
            lemma_sum_by_update(old_cv.agents, ai as int, new_agent, active_weight());
            lemma_sum_by_update(old_cv.agents, ai as int, new_agent, bet_pool_weight());
            assert(self.challenges@[idx as int]@ =~= (ChallengeView {
                agents: old_cv.agents.update(ai as int, new_agent),
                voted: old_cv.voted.push(caller),
                ..old_cv
            }));
            assert(self.challenges@[idx as int]@.wf());
            // Solvency: neither the pools nor the vault moved.
            let ne = self.challenges@[idx as int];
            crate::sums::lemma_sum_by_update(old(self).challenges@, idx as int, ne,
                crate::solvency::holdings_weight());
            assert(self.challenges@ =~= old(self).challenges@.update(idx as int, ne));
            assert(crate::solvency::spec_holdings(ne@)
                == crate::solvency::spec_holdings(old_cv));
        }
        Ok(())
    }
}

} // verus!
