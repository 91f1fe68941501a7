//! The wagering market: third-party bets on enrolled, non-withdrawn agents
//! during the competition phase, with per-agent and per-account aggregates
//! and the bet pool.
//!
//! Anyone may bet, the challenge creator included: a stricter design would
//! bar the creator from backing an entrant, and this engine deliberately
//! does not.

use vstd::prelude::*;
use crate::challenge::{
    Agent, BetRecord, ChallengeView, UserBetTotal, active_weight, bet_amount_weight,
    bet_pool_weight, spec_agent_index, spec_has_agent, total_weight,
};
use crate::errors::EscrowError;
use crate::escrow::{ChampionshipEscrow, spec_challenge_index, spec_has_challenge};
use crate::phase::{Phase, phase};
use crate::sums::{lemma_sum_by_bounds_element, lemma_sum_by_push, lemma_sum_by_update};

verus! {

/// The wager records after `account` adds `amount` on the agent at
/// `agent_index`: the existing (account, agent) record grows, or a new one is
/// appended.
pub open spec fn spec_bets_after(
    bets: Seq<BetRecord>,
    account: u64,
    agent_index: usize,
    amount: u64,
) -> Seq<BetRecord> {
    if exists|k: int|
        0 <= k < bets.len() && (#[trigger] bets[k]).account == account
            && bets[k].agent_index == agent_index {
        let k = choose|k: int|
            0 <= k < bets.len() && (#[trigger] bets[k]).account == account
                && bets[k].agent_index == agent_index;
        bets.update(k, BetRecord { amount: (bets[k].amount + amount) as u64, ..bets[k] })
    } else {
        bets.push(BetRecord { account, agent_index, amount })
    }
}

/// The per-account totals after `account` adds `amount`: the existing entry
/// grows, or a new one is appended.
pub open spec fn spec_totals_after(
    totals: Seq<UserBetTotal>,
    account: u64,
    amount: u64,
) -> Seq<UserBetTotal> {
    if exists|k: int| 0 <= k < totals.len() && (#[trigger] totals[k]).account == account {
        let k = choose|k: int| 0 <= k < totals.len() && (#[trigger] totals[k]).account == account;
        totals.update(k, UserBetTotal { total: (totals[k].total + amount) as u64, ..totals[k] })
    } else {
        totals.push(UserBetTotal { account, total: amount })
    }
}

impl ChampionshipEscrow {
    /// Place a bet of `payment` on the agent with id `agent_id`.
    ///
    /// Checks, in order: the challenge must exist and not be terminal; the
    /// phase must be competition; the agent must exist and not be withdrawn;
    /// and the payment must be positive. All additions are overflow-checked;
    /// overflow aborts the whole call with no partial mutation. On success,
    /// atomically: the payment is credited to the vault, the (account, agent)
    /// record, the account total, the agent's pool and the bet pool all grow
    /// by the payment.
    pub fn bet(
        &mut self,
        id: u64,
        agent_id: u64,
        caller: u64,
        payment: u64,
        now: u64,
    ) -> (r: Result<(), EscrowError>)
        requires
            old(self).wf(),
        ensures
            final(self).wf(),
            ({
                let s = old(self).challenges@;
                let i = spec_challenge_index(s, id);
                let cv = s[i]@;
                let ai = spec_agent_index(cv, agent_id);
                if !spec_has_challenge(s, id) {
                    r == Err::<(), EscrowError>(EscrowError::NotFound)
                        && final(self).unchanged(*old(self))
                } else if cv.cancelled || cv.finalized {
                    r == Err::<(), EscrowError>(EscrowError::StateConflict)
                        && final(self).unchanged(*old(self))
                } else if !(now > cv.enroll_end && now <= cv.compete_end) {
                    r == Err::<(), EscrowError>(EscrowError::WrongPhase)
                        && final(self).unchanged(*old(self))
                } else if !spec_has_agent(cv, agent_id) {
                    r == Err::<(), EscrowError>(EscrowError::NotFound)
                        && final(self).unchanged(*old(self))
                } else if cv.agents[ai].withdrawn {
                    r == Err::<(), EscrowError>(EscrowError::StateConflict)
                        && final(self).unchanged(*old(self))
                } else if payment == 0 {
                    r == Err::<(), EscrowError>(EscrowError::PaymentMismatch)
                        && final(self).unchanged(*old(self))
                } else if cv.total_bet_pool + payment > u64::MAX
                    || old(self).vault + payment > u64::MAX {
                    r == Err::<(), EscrowError>(EscrowError::Arithmetic)
                        && final(self).unchanged(*old(self))
                } else {
                    &&& r == Ok::<(), EscrowError>(())
                    &&& final(self).only_challenge_changed(*old(self), i)
                    &&& final(self).vault == old(self).vault + payment
                    &&& final(self).challenges@[i]@ == (ChallengeView {
                        total_bet_pool: (cv.total_bet_pool + payment) as u64,
                        agents: cv.agents.update(ai, Agent {
                            bet_pool: (cv.agents[ai].bet_pool + payment) as u64,
                            ..cv.agents[ai]
                        }),
                        bets: spec_bets_after(cv.bets, caller, spec_agent_index(cv, agent_id) as usize,
                            payment),
                        bet_totals: spec_totals_after(cv.bet_totals, caller, payment),
                        ..cv
                    })
                }
            }),
    {
        let idx = match self.find_challenge(id) {
            Some(i) => i,
            None => {
                return Err(EscrowError::NotFound);
            },
        };
        let c = &self.challenges[idx];
        if c.cancelled || c.finalized {
            return Err(EscrowError::StateConflict);
        }
        if phase(now, c.enroll_end, c.compete_end, c.judge_end) != Phase::Competition {
            return Err(EscrowError::WrongPhase);
        }
        let ai = match c.find_agent(agent_id) {
            Some(k) => k,
            None => {
                return Err(EscrowError::NotFound);
            },
        };
        proof {
            let cv = c@;
            assert(spec_has_agent(cv, agent_id));
            let w = spec_agent_index(cv, agent_id);
            assert(0 <= w < cv.agents.len() && cv.agents[w].id == agent_id);
            assert(cv.wf());
            if w != ai as int {
                assert(cv.agents[w].id == cv.agents[ai as int].id);
                assert(false);
            }
        }
        if c.agents[ai].withdrawn {
            return Err(EscrowError::StateConflict);
        }
        if payment == 0 {
            return Err(EscrowError::PaymentMismatch);
        }
        let new_tbp = match c.total_bet_pool.checked_add(payment) {
            Some(v) => v,
            None => {
                return Err(EscrowError::Arithmetic);
            },
        };
        let new_vault = match self.vault.checked_add(payment) {
            Some(v) => v,
            None => {
                return Err(EscrowError::Arithmetic);
            },
        };
        let bet_k = c.find_bet(caller, ai);
        let tot_k = c.find_bet_total(caller);
        proof {
            let cv = c@;
            assert(forall|a: Agent| #[trigger] (bet_pool_weight()(a)) >= 0);
            assert(forall|b: BetRecord| #[trigger] (bet_amount_weight()(b)) >= 0);
            assert(forall|t: UserBetTotal| #[trigger] (total_weight()(t)) >= 0);
            lemma_sum_by_bounds_element(cv.agents, ai as int, bet_pool_weight());
            if let Some(k) = bet_k {
                lemma_sum_by_bounds_element(cv.bets, k as int, bet_amount_weight());
            }
            if let Some(k) = tot_k {
                lemma_sum_by_bounds_element(cv.bet_totals, k as int, total_weight());
            }
        }
        let c = &mut self.challenges[idx];
        let a = &mut c.agents[ai];
        a.bet_pool = a.bet_pool + payment;
        match bet_k {
            Some(k) => {
                let b = &mut c.bets[k];
                b.amount = b.amount + payment;
            },
            None => {
                c.bets.push(BetRecord { account: caller, agent_index: ai, amount: payment });
            },
        }
        match tot_k {
            Some(k) => {
                let t = &mut c.bet_totals[k];
                t.total = t.total + payment;
            },
            None => {
                c.bet_totals.push(UserBetTotal { account: caller, total: payment });
            },
        }
        c.total_bet_pool = new_tbp;
        proof {
            let old_cv = old(self).challenges@[idx as int]@;
            let new_agent = Agent {
                bet_pool: (old_cv.agents[ai as int].bet_pool + payment) as u64,
                ..old_cv.agents[ai as int]
            };
            lemma_sum_by_update(old_cv.agents, ai as int, new_agent, active_weight());
            lemma_sum_by_update(old_cv.agents, ai as int, new_agent, bet_pool_weight());
            match bet_k {
                Some(k) => {
                    let new_rec = BetRecord {
                        amount: (old_cv.bets[k as int].amount + payment) as u64,
                        ..old_cv.bets[k as int]
                    };
                    lemma_sum_by_update(old_cv.bets, k as int, new_rec, bet_amount_weight());
                    assert(spec_bets_after(old_cv.bets, caller, ai, payment)
                        =~= old_cv.bets.update(k as int, new_rec)) by {
                        let w = choose|j: int|
                            0 <= j < old_cv.bets.len()
                                && (#[trigger] old_cv.bets[j]).account == caller
                                && old_cv.bets[j].agent_index == ai;
                        if w != k as int {
                            assert(old_cv.bets[w].account == old_cv.bets[k as int].account
                                && old_cv.bets[w].agent_index
                                    == old_cv.bets[k as int].agent_index);
                            assert(false);
                        }
                    }
                },
                None => {
                    let new_rec = BetRecord { account: caller, agent_index: ai, amount: payment };
                    lemma_sum_by_push(old_cv.bets, new_rec, bet_amount_weight());
                    assert(spec_bets_after(old_cv.bets, caller, ai, payment)
                        =~= old_cv.bets.push(new_rec));
                },
            }
            match tot_k {
                Some(k) => {
                    let new_tot = UserBetTotal {
                        total: (old_cv.bet_totals[k as int].total + payment) as u64,
                        ..old_cv.bet_totals[k as int]
                    };
                    lemma_sum_by_update(old_cv.bet_totals, k as int, new_tot, total_weight());
                    assert(spec_totals_after(old_cv.bet_totals, caller, payment)
                        =~= old_cv.bet_totals.update(k as int, new_tot)) by {
                        let w = choose|j: int|
                            0 <= j < old_cv.bet_totals.len()
                                && (#[trigger] old_cv.bet_totals[j]).account == caller;
                        if w != k as int {
                            assert(old_cv.bet_totals[w].account
                                == old_cv.bet_totals[k as int].account);
                            assert(false);
                        }
                    }
                },
                None => {
                    let new_tot = UserBetTotal { account: caller, total: payment };
                    lemma_sum_by_push(old_cv.bet_totals, new_tot, total_weight());
                    assert(spec_totals_after(old_cv.bet_totals, caller, payment)
                        =~= old_cv.bet_totals.push(new_tot));
                },
            }
            assert(self.challenges@[idx as int]@ =~= (ChallengeView {
                total_bet_pool: new_tbp,
                agents: old_cv.agents.update(ai as int, new_agent),
                bets: spec_bets_after(old_cv.bets, caller, ai, payment),
                bet_totals: spec_totals_after(old_cv.bet_totals, caller, payment),
                ..old_cv
            }));
            // Per agent: only the backed agent's wager sum moved, and by
            // exactly the payment.
            let new_agents = old_cv.agents.update(ai as int, new_agent);
            let new_bets = spec_bets_after(old_cv.bets, caller, ai, payment);
            assert forall|i2: int| 0 <= i2 < new_agents.len()
                implies (#[trigger] new_agents[i2]).bet_pool
                    == crate::challenge::spec_agent_bet_sum(new_bets, i2) by {
                match bet_k {
                    Some(k) => {
                        let new_rec = BetRecord {
                            amount: (old_cv.bets[k as int].amount + payment) as u64,
                            ..old_cv.bets[k as int]
                        };
                        lemma_sum_by_update(old_cv.bets, k as int, new_rec,
                            crate::challenge::bets_on_weight(i2));
                    },
                    None => {
                        let new_rec = BetRecord {
                            account: caller,
                            agent_index: ai,
                            amount: payment,
                        };
                        lemma_sum_by_push(old_cv.bets, new_rec,
                            crate::challenge::bets_on_weight(i2));
                    },
                }
            }
            // Per account: only the caller's wager sum moved, and by exactly
            // the payment; its total entry (updated or fresh) matches.
            let new_totals = spec_totals_after(old_cv.bet_totals, caller, payment);
            assert forall|l: int| 0 <= l < new_totals.len()
                implies (#[trigger] new_totals[l]).total
                    == crate::challenge::spec_account_bet_sum(new_bets, new_totals[l].account) by {
                let al = new_totals[l].account;
                match bet_k {
                    Some(k) => {
                        let new_rec = BetRecord {
                            amount: (old_cv.bets[k as int].amount + payment) as u64,
                            ..old_cv.bets[k as int]
                        };
                        lemma_sum_by_update(old_cv.bets, k as int, new_rec,
                            crate::challenge::bets_of_weight(al));
                    },
                    None => {
                        let new_rec = BetRecord {
                            account: caller,
                            agent_index: ai,
                            amount: payment,
                        };
                        lemma_sum_by_push(old_cv.bets, new_rec,
                            crate::challenge::bets_of_weight(al));
                    },
                }
                if tot_k is None && al == caller {
                    // The caller had no total on file, hence (every wagering
                    // account has one) no wager records either: the fresh
                    // total starts from a zero wager sum.
                    assert forall|k2: int| 0 <= k2 < old_cv.bets.len()
                        implies (crate::challenge::bets_of_weight(caller))(
                            #[trigger] old_cv.bets[k2]) == 0 by {
                        if old_cv.bets[k2].account == caller {
                            assert(crate::challenge::spec_total_on_file(old_cv.bet_totals,
                                old_cv.bets[k2].account));
                            let l2 = choose|l2: int|
                                0 <= l2 < old_cv.bet_totals.len()
                                    && (#[trigger] old_cv.bet_totals[l2]).account
                                        == old_cv.bets[k2].account;
                            assert(old_cv.bet_totals[l2].account == caller);
                            assert(false);
                        }
                    }
                    crate::sums::lemma_sum_by_all_zero(old_cv.bets,
                        crate::challenge::bets_of_weight(caller));
                }
            }
            assert(crate::challenge::totals_match_bets(new_bets, new_totals));
            // Coverage: the caller's account is on file after the call, and
            // every other wagering account already was.
            assert forall|k2: int| 0 <= k2 < new_bets.len()
                implies crate::challenge::spec_total_on_file(new_totals,
                    (#[trigger] new_bets[k2]).account) by {
                let acct = new_bets[k2].account;
                if acct == caller {
                    match tot_k {
                        Some(l0) => {
                            assert(new_totals[l0 as int].account == caller);
                        },
                        None => {
                            assert(new_totals[new_totals.len() - 1].account == caller);
                        },
                    }
                } else {
                    assert(old_cv.bets[k2].account == acct);
                    assert(crate::challenge::spec_total_on_file(old_cv.bet_totals, acct));
                    let l2 = choose|l2: int|
                        0 <= l2 < old_cv.bet_totals.len()
                            && (#[trigger] old_cv.bet_totals[l2]).account == acct;
                    assert(new_totals[l2].account == acct);
                }
            }
            assert(crate::challenge::totals_cover_bets(new_bets, new_totals));
            assert(self.challenges@[idx as int]@.wf());
            // Solvency: the challenge's holdings grew by the wager, and the
            // vault by the matching payment.
            let ne = self.challenges@[idx as int];
            crate::sums::lemma_sum_by_update(old(self).challenges@, idx as int, ne,
                crate::solvency::holdings_weight());
            assert(self.challenges@ =~= old(self).challenges@.update(idx as int, ne));
            assert(crate::solvency::spec_holdings(ne@)
                == crate::solvency::spec_holdings(old_cv) + payment);
        }
        self.vault = new_vault;
        Ok(())
    }
}

} // verus!
