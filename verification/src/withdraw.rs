//! The early-exit path: an agent owner leaves during the competition phase
//! for a reduced refund, forfeiting a small fee to the platform. The full
//! entry fee leaves the entry pool, not just the refunded part: the
//! difference is immediate fee revenue, not deferred to finalization.

use vstd::prelude::*;
use crate::challenge::{
    Agent, ChallengeView, active_weight, bet_pool_weight, spec_active_count, spec_agent_index,
    spec_has_agent,
};
use crate::config::{PEEK_FEE_PCT, REFUND_PCT};
use crate::errors::EscrowError;
use crate::escrow::{ChampionshipEscrow, Transfer, spec_challenge_index, spec_has_challenge};
use crate::phase::{Phase, phase};
use crate::sums::lemma_sum_by_update;

verus! {

/// The two outbound payments a successful withdrawal produces.
#[derive(Clone, Copy, Debug, PartialEq, Eq, Structural)]
pub struct WithdrawTransfers {
    /// The reduced refund, owed to the agent's owner.
    pub refund: Transfer,
    /// The withdrawal fee, owed to the platform.
    pub peek_fee: Transfer,
}

impl ChampionshipEscrow {
    /// Withdraw an agent early.
    ///
    /// Checks, in order: the challenge must exist and not be terminal; the
    /// phase must be competition; the agent must exist and not already be
    /// withdrawn; and the caller must be the agent's owner. On success,
    /// atomically: the agent is marked withdrawn (excluding it from future
    /// bets, votes, quorum counting and winner eligibility), the owner is
    /// refunded `floor(entry_fee*REFUND_PCT/100)`, the platform receives
    /// `floor(entry_fee*PEEK_FEE_PCT/100)`, both debited from the vault in
    /// one step, and the full entry fee leaves the entry pool.
    ///
    /// The withdrawn flag also voids the owner's entry-fee refund at a later
    /// cancellation: an owner that already exited through this path cannot
    /// collect the full stake a second time.
    pub fn withdraw(
        &mut self,
        id: u64,
        agent_id: u64,
        caller: u64,
        now: u64,
    ) -> (r: Result<WithdrawTransfers, EscrowError>)
        requires
            old(self).wf(),
        ensures
            final(self).wf(),
            // The solvency invariant keeps the vault ahead of the refund and
            // the fee: the shortfall branch is unreachable from a well-formed
            // state.
            !(r == Err::<WithdrawTransfers, EscrowError>(EscrowError::InsufficientFunds)),
            ({
                let s = old(self).challenges@;
                let i = spec_challenge_index(s, id);
                let cv = s[i]@;
                let ai = spec_agent_index(cv, agent_id);
                let refund = cv.entry_fee * REFUND_PCT / 100;
                let peek = cv.entry_fee * PEEK_FEE_PCT / 100;
                if !spec_has_challenge(s, id) {
                    r == Err::<WithdrawTransfers, EscrowError>(EscrowError::NotFound)
                        && final(self).unchanged(*old(self))
                } else if cv.cancelled || cv.finalized {
                    r == Err::<WithdrawTransfers, EscrowError>(EscrowError::StateConflict)
                        && final(self).unchanged(*old(self))
                } else if !(now > cv.enroll_end && now <= cv.compete_end) {
                    r == Err::<WithdrawTransfers, EscrowError>(EscrowError::WrongPhase)
                        && final(self).unchanged(*old(self))
                } else if !spec_has_agent(cv, agent_id) {
                    r == Err::<WithdrawTransfers, EscrowError>(EscrowError::NotFound)
                        && final(self).unchanged(*old(self))
                } else if cv.agents[ai].withdrawn {
                    r == Err::<WithdrawTransfers, EscrowError>(EscrowError::StateConflict)
                        && final(self).unchanged(*old(self))
                } else if caller != cv.agents[ai].owner {
                    r == Err::<WithdrawTransfers, EscrowError>(EscrowError::Unauthorized)
                        && final(self).unchanged(*old(self))
                } else if cv.entry_fee * REFUND_PCT > u64::MAX {
                    r == Err::<WithdrawTransfers, EscrowError>(EscrowError::Arithmetic)
                        && final(self).unchanged(*old(self))
                } else if old(self).vault < refund + peek {
                    r == Err::<WithdrawTransfers, EscrowError>(EscrowError::InsufficientFunds)
                        && final(self).unchanged(*old(self))
                } else {
                    &&& r == Ok::<WithdrawTransfers, EscrowError>((WithdrawTransfers {
                        refund: Transfer { to: caller, amount: refund as u64 },
                        peek_fee: Transfer { to: cv.platform, amount: peek as u64 },
                    }))
                    &&& final(self).only_challenge_changed(*old(self), i)
                    &&& final(self).vault == old(self).vault - (refund + peek)
                    &&& final(self).challenges@[i]@ == (ChallengeView {
                        total_entry_pool: (cv.total_entry_pool - cv.entry_fee) as u64,
                        agents: cv.agents.update(ai, Agent {
                            withdrawn: true,
                            ..cv.agents[ai]
                        }),
                        ..cv
                    })
                }
            }),
    {
        let idx = match self.find_challenge(id) {
            Some(i) => i,
            None => {
                return Err(EscrowError::NotFound);
            },
        };
        let c = &self.challenges[idx];
        if c.cancelled || c.finalized {
            return Err(EscrowError::StateConflict);
        }
        if phase(now, c.enroll_end, c.compete_end, c.judge_end) != Phase::Competition {
            return Err(EscrowError::WrongPhase);
        }
        let ai = match c.find_agent(agent_id) {
            Some(k) => k,
            None => {
                return Err(EscrowError::NotFound);
            },
        };
        proof {
            let cv = c@;
            let w = spec_agent_index(cv, agent_id);
            assert(0 <= w < cv.agents.len() && cv.agents[w].id == agent_id);
            if w != ai as int {
                assert(cv.agents[w].id == cv.agents[ai as int].id);
                assert(false);
            }
        }
        if c.agents[ai].withdrawn {
            return Err(EscrowError::StateConflict);
        }
        if caller != c.agents[ai].owner {
            return Err(EscrowError::Unauthorized);
        }
        let refund = match c.entry_fee.checked_mul(REFUND_PCT) {
            Some(v) => v / 100,
            None => {
                return Err(EscrowError::Arithmetic);
            },
        };
        let peek = match c.entry_fee.checked_mul(PEEK_FEE_PCT) {
            Some(v) => v / 100,
            None => {
                return Err(EscrowError::Arithmetic);
            },
        };
        proof {
            assert(refund <= u64::MAX as int / 100 && peek <= u64::MAX as int / 100)
                by (nonlinear_arith)
                requires
                    refund == c.entry_fee * REFUND_PCT / 100,
                    peek == c.entry_fee * PEEK_FEE_PCT / 100,
                    c.entry_fee * REFUND_PCT <= u64::MAX,
                    c.entry_fee * PEEK_FEE_PCT <= u64::MAX,
                    c.entry_fee >= 0,
                    REFUND_PCT == 98,
                    PEEK_FEE_PCT == 2,
            {
            }
        }
        let total = refund + peek;
        if self.vault < total {
            proof {
                // Dead under the solvency invariant: the vault covers the
                // still-running challenge's pools, the entry pool covers this
                // active agent's full stake, and the split never exceeds it.
                let cv = c@;
                crate::solvency::lemma_holdings_bounded_by_total(self.challenges@, idx as int);
                assert(forall|a: Agent| #[trigger] (active_weight()(a)) >= 0);
                crate::sums::lemma_sum_by_bounds_element(cv.agents, ai as int, active_weight());
                assert(cv.total_entry_pool >= cv.entry_fee) by (nonlinear_arith)
                    requires
                        cv.total_entry_pool == cv.entry_fee * spec_active_count(cv.agents),
                        spec_active_count(cv.agents) >= 1,
                        cv.entry_fee >= 0,
                {
                }
                crate::settle::lemma_withdraw_split_within_fee(cv.entry_fee);
                assert(false);
            }
            return Err(EscrowError::InsufficientFunds);
        }
        proof {
            // The entry pool holds the stake of every active agent, this one
            // included, so the full fee can leave it.
            let cv = c@;
            let new_agent = Agent { withdrawn: true, ..cv.agents[ai as int] };
            lemma_sum_by_update(cv.agents, ai as int, new_agent, active_weight());
            assert(spec_active_count(cv.agents) >= 1) by {
                crate::sums::lemma_sum_by_bounds_element(cv.agents, ai as int, active_weight());
            }
            assert(cv.total_entry_pool >= cv.entry_fee
                && cv.total_entry_pool - cv.entry_fee
                    == cv.entry_fee * (spec_active_count(cv.agents) - 1)) by (nonlinear_arith)
                requires
                    cv.total_entry_pool == cv.entry_fee * spec_active_count(cv.agents),
                    spec_active_count(cv.agents) >= 1,
                    cv.entry_fee >= 0,
            {
            }
        }
        let platform = self.platform;
        let c = &mut self.challenges[idx];
        let a = &mut c.agents[ai];
        a.withdrawn = true;
        c.total_entry_pool = c.total_entry_pool - c.entry_fee;
        proof {
            let old_cv = old(self).challenges@[idx as int]@;
            let new_agent = Agent { withdrawn: true, ..old_cv.agents[ai as int] };
            lemma_sum_by_update(old_cv.agents, ai as int, new_agent, active_weight());
            lemma_sum_by_update(old_cv.agents, ai as int, new_agent, bet_pool_weight());
            assert(self.challenges@[idx as int]@ =~= (ChallengeView {
                total_entry_pool: (old_cv.total_entry_pool - old_cv.entry_fee) as u64,
                agents: old_cv.agents.update(ai as int, new_agent),
                ..old_cv
            }));
            assert(self.challenges@[idx as int]@.wf());
            // Solvency: the full entry fee left the challenge's holdings,
            // while at most that much — the refund plus the withdrawal fee —
            // leaves the vault.
            let ne = self.challenges@[idx as int];
            crate::sums::lemma_sum_by_update(old(self).challenges@, idx as int, ne,
                crate::solvency::holdings_weight());
            assert(self.challenges@ =~= old(self).challenges@.update(idx as int, ne));
            assert(crate::solvency::spec_holdings(ne@)
                == crate::solvency::spec_holdings(old_cv) - old_cv.entry_fee);
            crate::settle::lemma_withdraw_split_within_fee(old_cv.entry_fee);
        }
        self.vault = self.vault - total;
        Ok(WithdrawTransfers {
            refund: Transfer { to: caller, amount: refund },
            peek_fee: Transfer { to: platform, amount: peek },
        })
    }
}

} // verus!
