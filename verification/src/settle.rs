//! The settlement engine and the claim ledger: the pure payout computation
//! for a finalized or cancelled challenge, and its at-most-once-per-account
//! wrapper that moves the funds.
//!
//! Every percentage split floors; the rounded-off dust stays stranded in the
//! vault deliberately, rather than being swept anywhere.

use vstd::prelude::*;
use vstd::arithmetic::div_mod::{lemma_div_is_ordered, lemma_div_multiples_vanish};
use crate::challenge::{Challenge, ChallengeView, spec_has_claimed};
use crate::config::{BC, BP, BW, EC, EP, EW, PEEK_FEE_PCT, REFUND_PCT};
use crate::errors::EscrowError;
use crate::escrow::{ChampionshipEscrow, Transfer, spec_challenge_index, spec_has_challenge};

verus! {

/// The stored cumulative wager of `account` on the agent at `agent_index`,
/// zero where no record exists.
pub open spec fn spec_bet_of(cv: ChallengeView, account: u64, agent_index: usize) -> int {
    if exists|k: int|
        0 <= k < cv.bets.len() && (#[trigger] cv.bets[k]).account == account
            && cv.bets[k].agent_index == agent_index {
        let k = choose|k: int|
            0 <= k < cv.bets.len() && (#[trigger] cv.bets[k]).account == account
                && cv.bets[k].agent_index == agent_index;
        cv.bets[k].amount as int
    } else {
        0
    }
}

/// The stored cumulative wager total of `account`, zero where no record
/// exists.
pub open spec fn spec_bet_total_of(cv: ChallengeView, account: u64) -> int {
    if exists|k: int| 0 <= k < cv.bet_totals.len() && (#[trigger] cv.bet_totals[k]).account == account {
        let k = choose|k: int|
            0 <= k < cv.bet_totals.len() && (#[trigger] cv.bet_totals[k]).account == account;
        cv.bet_totals[k].total as int
    } else {
        0
    }
}

/// Whether `account`'s entry fee is refundable at cancellation: it owns an
/// agent that did not already exit through the withdrawal path. An owner
/// that withdrew took the reduced refund and keeps no second claim on the
/// full stake.
pub open spec fn spec_refundable_enrollment(cv: ChallengeView, account: u64) -> bool {
    exists|i: int|
        0 <= i < cv.agents.len() && (#[trigger] cv.agents[i]).owner == account
            && !cv.agents[i].withdrawn
}

/// The payout owed to `account` by a cancelled challenge: the entry fee where
/// the enrollment is refundable, plus every wager back.
pub open spec fn spec_cancel_payout(cv: ChallengeView, account: u64) -> int {
    (if spec_refundable_enrollment(cv, account) {
        cv.entry_fee as int
    } else {
        0
    }) + spec_bet_total_of(cv, account)
}

/// The payout owed to `account` by a finalized challenge: every role the
/// account qualifies for, summed in one claim. The winning agent's owner
/// takes `floor(total_entry_pool*EW/100)`; the creator takes
/// `floor(total_entry_pool*EC/100) + floor(total_bet_pool*BC/100)`; a bettor
/// holding a positive wager `b` on the winner, whose pool `p` is positive,
/// takes `floor(floor(total_bet_pool*BW/100) * b / p)`.
pub open spec fn spec_final_payout(cv: ChallengeView, account: u64) -> int {
    let w = cv.winner_index as int;
    let owner_part: int = if account == cv.agents[w].owner {
        cv.total_entry_pool * EW / 100
    } else {
        0
    };
    let creator_part: int = if account == cv.creator {
        cv.total_entry_pool * EC / 100 + cv.total_bet_pool * BC / 100
    } else {
        0
    };
    let b = spec_bet_of(cv, account, cv.winner_index);
    let p = cv.agents[w].bet_pool as int;
    let bettor_part: int = if b > 0 && p > 0 {
        (cv.total_bet_pool * BW / 100) * b / p
    } else {
        0
    };
    owner_part + creator_part + bettor_part
}

/// The payout owed to `account` by a terminal challenge.
pub open spec fn spec_payout(cv: ChallengeView, account: u64) -> int {
    if cv.cancelled {
        spec_cancel_payout(cv, account)
    } else {
        spec_final_payout(cv, account)
    }
}

/// Whether one of the percentage multiplications of the payout computation
/// overflows, branch by branch as taken.
pub open spec fn spec_payout_mul_overflows(cv: ChallengeView, account: u64) -> bool {
    if cv.cancelled {
        false
    } else {
        let w = cv.winner_index as int;
        ||| (account == cv.agents[w].owner && cv.total_entry_pool * EW > u64::MAX)
        ||| (account == cv.creator && (cv.total_entry_pool * EC > u64::MAX
            || cv.total_bet_pool * BC > u64::MAX))
        ||| (spec_bet_of(cv, account, cv.winner_index) > 0 && cv.agents[w].bet_pool > 0
            && cv.total_bet_pool * BW > u64::MAX)
    }
}

/// Compute the total payout owed to `claimant` by a terminal challenge,
/// without moving funds or consulting the claim proofs.
#[verifier::rlimit(100)]
#[verifier::spinoff_prover]
pub fn compute_payout(c: &Challenge, claimant: u64) -> (r: Result<u64, EscrowError>)
    requires
        c@.wf(),
        c@.finalized || c@.cancelled,
    ensures
        r is Ok <==> !spec_payout_mul_overflows(c@, claimant)
            && spec_payout(c@, claimant) <= u64::MAX,
        r is Ok ==> r->Ok_0 as int == spec_payout(c@, claimant),
        r is Err ==> r->Err_0 == EscrowError::Arithmetic,
{
    if c.cancelled {
        let mut payout: u64 = 0;
        if let Some(aidx) = c.find_agent_of_owner(claimant) {
            if !c.agents[aidx].withdrawn {
                payout = c.entry_fee;
            }
            proof {
                let cv = c@;
                if c.agents@[aidx as int].withdrawn {
                    // Owner uniqueness: the one agent of this owner is
                    // withdrawn, so no active one exists.
                    if spec_refundable_enrollment(cv, claimant) {
                        let j = choose|i: int|
                            0 <= i < cv.agents.len()
                                && (#[trigger] cv.agents[i]).owner == claimant
                                && !cv.agents[i].withdrawn;
                        assert(cv.agents[j].owner == cv.agents[aidx as int].owner);
                        assert(false);
                    }
                }
            }
        }
        let tot_k = c.find_bet_total(claimant);
        proof {
            let cv = c@;
            if exists|k: int|
                0 <= k < cv.bet_totals.len()
                    && (#[trigger] cv.bet_totals[k]).account == claimant {
                let k0 = choose|k: int|
                    0 <= k < cv.bet_totals.len()
                        && (#[trigger] cv.bet_totals[k]).account == claimant;
                if tot_k is Some && k0 != tot_k->0 {
                    assert(cv.bet_totals[k0].account
                        == cv.bet_totals[tot_k->0 as int].account);
                    assert(false);
                }
            }
        }
        let total = match tot_k {
            Some(k) => c.bet_totals[k].total,
            None => 0,
        };
        match payout.checked_add(total) {
            Some(v) => Ok(v),
            None => Err(EscrowError::Arithmetic),
        }
    } else {
        let w = c.winner_index;
        let mut payout: u64 = 0;
        if claimant == c.agents[w].owner {
            let amt = match c.total_entry_pool.checked_mul(EW) {
                Some(v) => v / 100,
                None => {
                    return Err(EscrowError::Arithmetic);
                },
            };
            payout = amt;
        }
        if claimant == c.creator {
            let entry_amt = match c.total_entry_pool.checked_mul(EC) {
                Some(v) => v / 100,
                None => {
                    return Err(EscrowError::Arithmetic);
                },
            };
            let bet_amt = match c.total_bet_pool.checked_mul(BC) {
                Some(v) => v / 100,
                None => {
                    return Err(EscrowError::Arithmetic);
                },
            };
            payout = match payout.checked_add(entry_amt) {
                Some(v) => v,
                None => {
                    return Err(EscrowError::Arithmetic);
                },
            };
            payout = match payout.checked_add(bet_amt) {
                Some(v) => v,
                None => {
                    return Err(EscrowError::Arithmetic);
                },
            };
        }
        let bet_k = c.find_bet(claimant, w);
        proof {
            let cv = c@;
            if exists|k: int|
                0 <= k < cv.bets.len() && (#[trigger] cv.bets[k]).account == claimant
                    && cv.bets[k].agent_index == cv.winner_index {
                let k0 = choose|k: int|
                    0 <= k < cv.bets.len() && (#[trigger] cv.bets[k]).account == claimant
                        && cv.bets[k].agent_index == cv.winner_index;
                if bet_k is Some && k0 != bet_k->0 {
                    assert(cv.bets[k0].account == cv.bets[bet_k->0 as int].account
                        && cv.bets[k0].agent_index == cv.bets[bet_k->0 as int].agent_index);
                    assert(false);
                }
            }
        }
        if let Some(k) = bet_k {
            let b = c.bets[k].amount;
            let p = c.agents[w].bet_pool;
            if b > 0 && p > 0 {
                let bpp = match c.total_bet_pool.checked_mul(BW) {
                    Some(v) => v / 100,
                    None => {
                        return Err(EscrowError::Arithmetic);
                    },
                };
                proof {
                    assert((bpp as int) * (b as int) <= (u64::MAX as int) * (u64::MAX as int))
                        by (nonlinear_arith)
                        requires
                            0 <= bpp <= u64::MAX,
                            0 <= b <= u64::MAX,
                    {
                    }
                    // b <= p (a record never exceeds the pool of the agent it
                    // backs), so the pro-rata share never exceeds the payout
                    // pool.
                    assert((bpp as int) * (b as int) <= (bpp as int) * (p as int))
                        by (nonlinear_arith)
                        requires
                            0 <= b <= p,
                            0 <= bpp,
                    {
                    }
                    lemma_div_is_ordered((bpp as int) * (b as int), (bpp as int) * (p as int),
                        p as int);
                    lemma_div_multiples_vanish(bpp as int, p as int);
                }
                let share128 = (bpp as u128) * (b as u128) / (p as u128);
                let share = share128 as u64;
                payout = match payout.checked_add(share) {
                    Some(v) => v,
                    None => {
                        return Err(EscrowError::Arithmetic);
                    },
                };
            }
        }
        Ok(payout)
    }
}

impl ChampionshipEscrow {
    /// Settle the caller's claim against a terminal challenge: at most once
    /// per account, all qualifying roles in one call.
    ///
    /// Checks, in order: the challenge must exist and be finalized or
    /// cancelled; the caller must hold no claim proof yet — a second claim
    /// for the same challenge and account always fails, regardless of branch;
    /// the payout computation must not overflow; the payout must be positive;
    /// and the vault must cover it (a short vault signals an
    /// accounting-invariant breach, not ordinary user error). On success,
    /// atomically: the claim proof is created and the payout leaves the
    /// vault.
    pub fn claim(&mut self, id: u64, caller: u64) -> (r: Result<Transfer, EscrowError>)
        requires
            old(self).wf(),
        ensures
            final(self).wf(),
            // The solvency invariant keeps the vault ahead of every claim:
            // the shortfall branch is unreachable from a well-formed state.
            !(r == Err::<Transfer, EscrowError>(EscrowError::InsufficientFunds)),
            ({
                let s = old(self).challenges@;
                let i = spec_challenge_index(s, id);
                let cv = s[i]@;
                let payout = spec_payout(cv, caller);
                if !spec_has_challenge(s, id) {
                    r == Err::<Transfer, EscrowError>(EscrowError::NotFound)
                        && final(self).unchanged(*old(self))
                } else if !(cv.finalized || cv.cancelled) {
                    r == Err::<Transfer, EscrowError>(EscrowError::StateConflict)
                        && final(self).unchanged(*old(self))
                } else if spec_has_claimed(cv, caller) {
                    r == Err::<Transfer, EscrowError>(EscrowError::AlreadyExists)
                        && final(self).unchanged(*old(self))
                } else if spec_payout_mul_overflows(cv, caller) || payout > u64::MAX {
                    r == Err::<Transfer, EscrowError>(EscrowError::Arithmetic)
                        && final(self).unchanged(*old(self))
                } else if payout == 0 {
                    r == Err::<Transfer, EscrowError>(EscrowError::NoPayout)
                        && final(self).unchanged(*old(self))
                } else if old(self).vault < payout {
                    r == Err::<Transfer, EscrowError>(EscrowError::InsufficientFunds)
                        && final(self).unchanged(*old(self))
                } else {
                    &&& r == Ok::<Transfer, EscrowError>(
                        (Transfer { to: caller, amount: payout as u64 }))
                    &&& final(self).only_challenge_changed(*old(self), i)
                    &&& final(self).vault == old(self).vault - payout
                    &&& final(self).challenges@[i]@ == (ChallengeView {
                        claimed: cv.claimed.push(caller),
                        ..cv
                    })
                    &&& spec_has_claimed(final(self).challenges@[i]@, caller)
                }
            }),
    {
        let idx = match self.find_challenge(id) {
            Some(i) => i,
            None => {
                return Err(EscrowError::NotFound);
            },
        };
        let c = &self.challenges[idx];
        if !(c.finalized || c.cancelled) {
            return Err(EscrowError::StateConflict);
        }
        if c.has_claimed(caller) {
            return Err(EscrowError::AlreadyExists);
        }
        let payout = match compute_payout(c, caller) {
            Ok(v) => v,
            Err(e) => {
                return Err(e);
            },
        };
        if payout == 0 {
            return Err(EscrowError::NoPayout);
        }
        if self.vault < payout {
            proof {
                // Dead under the solvency invariant: the vault covers this
                // challenge's outstanding obligations, which cover the
                // payout.
                let old_cv = self.challenges@[idx as int]@;
                let cv2 = ChallengeView { claimed: old_cv.claimed.push(caller), ..old_cv };
                crate::solvency::lemma_claim_settles_exactly(old_cv, caller);
                crate::solvency::lemma_holdings_nonneg(cv2);
                crate::solvency::lemma_holdings_bounded_by_total(self.challenges@, idx as int);
                assert(false);
            }
            return Err(EscrowError::InsufficientFunds);
        }
        let c = &mut self.challenges[idx];
        c.claimed.push(caller);
        proof {
            let old_cv = old(self).challenges@[idx as int]@;
            assert(self.challenges@[idx as int]@ =~= (ChallengeView {
                claimed: old_cv.claimed.push(caller),
                ..old_cv
            }));
            assert(old_cv.claimed.push(caller).last() == caller);
            assert(self.challenges@[idx as int]@.wf());
            // Solvency: the claim removed exactly its payout from the
            // challenge's outstanding obligations, and from the vault.
            let ne = self.challenges@[idx as int];
            crate::sums::lemma_sum_by_update(old(self).challenges@, idx as int, ne,
                crate::solvency::holdings_weight());
            assert(self.challenges@ =~= old(self).challenges@.update(idx as int, ne));
            crate::solvency::lemma_claim_settles_exactly(old_cv, caller);
            assert(crate::solvency::spec_holdings(ne@)
                == crate::solvency::spec_holdings(old_cv) - spec_payout(old_cv, caller));
        }
        self.vault = self.vault - payout;
        Ok(Transfer { to: caller, amount: payout })
    }
}


/// Floor division distributes sub-additively: dividing two parts never
/// yields more than dividing their sum.
pub proof fn lemma_div_sum_le(a: int, b: int, d: int)
    requires
        a >= 0,
        b >= 0,
        0 < d,
    ensures
        a / d + b / d <= (a + b) / d,
{
    vstd::arithmetic::div_mod::lemma_fundamental_div_mod(a, d);
    vstd::arithmetic::div_mod::lemma_fundamental_div_mod(b, d);
    let q = a / d + b / d;
    let r = a % d + b % d;
    assert(a + b == q * d + r) by (nonlinear_arith)
        requires
            a == d * (a / d) + a % d,
            b == d * (b / d) + b % d,
            q == a / d + b / d,
            r == a % d + b % d,
    {
    }
    if r < d {
        vstd::arithmetic::div_mod::lemma_fundamental_div_mod_converse(a + b, d, q, r);
    } else {
        assert(a + b == (q + 1) * d + (r - d)) by (nonlinear_arith)
            requires
                a + b == q * d + r,
        {
        }
        vstd::arithmetic::div_mod::lemma_fundamental_div_mod_converse(a + b, d, q + 1, r - d);
    }
}

/// A three-way percentage split whose shares sum to one hundred, each share
/// floored, never overdraws the pool; and it drains the pool exactly when
/// the pool is a multiple of one hundred. The difference is the dust that
/// stays stranded in the vault.
pub proof fn lemma_percentage_split_bounds(pool: int, x: int, y: int, z: int)
    requires
        pool >= 0,
        x >= 0,
        y >= 0,
        z >= 0,
        x + y + z == 100,
    ensures
        pool * x / 100 + pool * y / 100 + pool * z / 100 <= pool,
        pool % 100 == 0 ==> pool * x / 100 + pool * y / 100 + pool * z / 100 == pool,
{
    lemma_div_sum_le(pool * x, pool * y, 100);
    lemma_div_sum_le(pool * x + pool * y, pool * z, 100);
    assert(pool * x + pool * y + pool * z == 100 * pool) by (nonlinear_arith)
        requires
            x + y + z == 100,
    {
    }
    vstd::arithmetic::div_mod::lemma_div_multiples_vanish(pool, 100);
    if pool % 100 == 0 {
        let k = pool / 100;
        vstd::arithmetic::div_mod::lemma_fundamental_div_mod(pool, 100);
        assert(pool * x == 100 * (k * x) && pool * y == 100 * (k * y)
            && pool * z == 100 * (k * z)) by (nonlinear_arith)
            requires
                pool == 100 * k,
        {
        }
        vstd::arithmetic::div_mod::lemma_div_multiples_vanish(k * x, 100);
        vstd::arithmetic::div_mod::lemma_div_multiples_vanish(k * y, 100);
        vstd::arithmetic::div_mod::lemma_div_multiples_vanish(k * z, 100);
        assert(k * x + k * y + k * z == pool) by (nonlinear_arith)
            requires
                x + y + z == 100,
                pool == 100 * k,
        {
        }
    }
}

/// The entry-pool shares — winner's owner, creator, platform — never
/// overdraw the entry pool, and drain it exactly on a pool divisible by one
/// hundred.
pub proof fn lemma_entry_split_within_pool(pool: u64)
    ensures
        pool * EW / 100 + pool * EC / 100 + pool * EP / 100 <= pool,
        pool % 100 == 0 ==> pool * EW / 100 + pool * EC / 100 + pool * EP / 100 == pool,
{
    lemma_percentage_split_bounds(pool as int, EW as int, EC as int, EP as int);
}

/// The bet-pool shares — winning bettors, creator, platform — never overdraw
/// the bet pool, and drain it exactly on a pool divisible by one hundred.
pub proof fn lemma_bet_split_within_pool(pool: u64)
    ensures
        pool * BW / 100 + pool * BC / 100 + pool * BP / 100 <= pool,
        pool % 100 == 0 ==> pool * BW / 100 + pool * BC / 100 + pool * BP / 100 == pool,
{
    lemma_percentage_split_bounds(pool as int, BW as int, BC as int, BP as int);
}

/// The withdrawal split — reduced refund plus withdrawal fee — never
/// overdraws the entry fee it divides, and consumes it exactly on a fee
/// divisible by one hundred.
pub proof fn lemma_withdraw_split_within_fee(fee: u64)
    ensures
        fee * REFUND_PCT / 100 + fee * PEEK_FEE_PCT / 100 <= fee,
        fee % 100 == 0 ==> fee * REFUND_PCT / 100 + fee * PEEK_FEE_PCT / 100 == fee,
{
    lemma_percentage_split_bounds(fee as int, REFUND_PCT as int, PEEK_FEE_PCT as int, 0);
}

} // verus!
